//! Attribute values as the expression language writes them, and their model.
use vstd::prelude::*;

verus! {

/// The DynamoDB data type of an attribute value.
#[derive(Debug, Copy, Clone, Hash, PartialEq, Eq, Structural)]
pub enum AttributeType {
    S,
    N,
    B,
    Bool,
    Null,
    L,
    M,
    NS,
    SS,
    BS,
}

/// An attribute value written in the expression language.
///
/// A map keeps its entries in the order in which their keys first appeared. The
/// literals that the parser reads and the values converted from JSON give each key of
/// a map once (see `maps_keyed_once`).
#[derive(Debug, PartialEq, Eq)]
pub enum AttrVal {
    N(String),
    S(String),
    Bool(bool),
    Null(bool),
    B(Vec<u8>),
    L(Vec<AttrVal>),
    M(Vec<(String, AttrVal)>),
    NS(Vec<String>),
    SS(Vec<String>),
    BS(Vec<Vec<u8>>),
}

/// The mathematical model of [`AttrVal`].
pub enum AttrValSpec {
    N(Seq<char>),
    S(Seq<char>),
    Bool(bool),
    Null(bool),
    B(Seq<u8>),
    L(Seq<AttrValSpec>),
    M(Seq<(Seq<char>, AttrValSpec)>),
    NS(Seq<Seq<char>>),
    SS(Seq<Seq<char>>),
    BS(Seq<Seq<u8>>),
}

pub open spec fn strings_view(v: Seq<String>) -> Seq<Seq<char>> {
    v.map_values(|s: String| s@)
}

pub open spec fn bytes_view(v: Seq<Vec<u8>>) -> Seq<Seq<u8>> {
    v.map_values(|b: Vec<u8>| b@)
}

pub open spec fn attr_view(v: AttrVal) -> AttrValSpec
    decreases v, 0int,
{
    match v {
        AttrVal::N(s) => AttrValSpec::N(s@),
        AttrVal::S(s) => AttrValSpec::S(s@),
        AttrVal::Bool(b) => AttrValSpec::Bool(b),
        AttrVal::Null(b) => AttrValSpec::Null(b),
        AttrVal::B(b) => AttrValSpec::B(b@),
        AttrVal::L(items) => AttrValSpec::L(attrs_view(items@)),
        AttrVal::M(pairs) => AttrValSpec::M(pairs_view(pairs@)),
        AttrVal::NS(v) => AttrValSpec::NS(strings_view(v@)),
        AttrVal::SS(v) => AttrValSpec::SS(strings_view(v@)),
        AttrVal::BS(v) => AttrValSpec::BS(bytes_view(v@)),
    }
}

pub open spec fn attrs_view(s: Seq<AttrVal>) -> Seq<AttrValSpec>
    decreases s, s.len(),
{
    if s.len() == 0 {
        Seq::empty()
    } else {
        attrs_view(s.drop_last()).push(attr_view(s.last()))
    }
}

pub open spec fn pairs_view(s: Seq<(String, AttrVal)>) -> Seq<(Seq<char>, AttrValSpec)>
    decreases s, s.len(),
{
    if s.len() == 0 {
        Seq::empty()
    } else {
        pairs_view(s.drop_last()).push((s.last().0@, attr_view(s.last().1)))
    }
}

/// A copy of a list of strings.
pub fn copy_strings(v: &Vec<String>) -> (r: Vec<String>)
    ensures
        strings_view(r@) == strings_view(v@),
{
    let mut r: Vec<String> = Vec::new();
    let mut i: usize = 0;
    while i < v.len()
        invariant
            i <= v.len(),
            r.len() == i,
            forall|j: int| 0 <= j < i ==> #[trigger] r@[j]@ == v@[j]@,
        decreases v.len() - i,
    {
        r.push(v[i].clone());
        i = i + 1;
    }
    assert(strings_view(r@) =~= strings_view(v@));
    r
}

/// A copy of a list of byte strings.
pub fn copy_bytes_list(v: &Vec<Vec<u8>>) -> (r: Vec<Vec<u8>>)
    ensures
        bytes_view(r@) == bytes_view(v@),
{
    let mut r: Vec<Vec<u8>> = Vec::new();
    let mut i: usize = 0;
    while i < v.len()
        invariant
            i <= v.len(),
            r.len() == i,
            forall|j: int| 0 <= j < i ==> #[trigger] r@[j]@ == v@[j]@,
        decreases v.len() - i,
    {
        let b = v[i].clone();
        assert(b@ =~= v@[i as int]@);
        r.push(b);
        i = i + 1;
    }
    assert(bytes_view(r@) =~= bytes_view(v@));
    r
}

/// A copy of a value.
pub fn copy_value(v: &AttrVal) -> (r: AttrVal)
    ensures
        r@ == v@,
    decreases v,
{
    match v {
        AttrVal::N(s) => AttrVal::N(s.clone()),
        AttrVal::S(s) => AttrVal::S(s.clone()),
        AttrVal::Bool(b) => AttrVal::Bool(*b),
        AttrVal::Null(b) => AttrVal::Null(*b),
        AttrVal::B(b) => {
            let c = b.clone();
            assert(c@ =~= b@);
            AttrVal::B(c)
        },
        AttrVal::L(items) => {
            let mut r: Vec<AttrVal> = Vec::new();
            let mut i: usize = 0;
            while i < items.len()
                invariant
                    i <= items.len(),
                    *v == AttrVal::L(*items),
                    attrs_view(r@) == attrs_view(items@.take(i as int)),
                decreases items.len() - i,
            {
                proof {
                    assert(decreases_to!(*v => v->L_0));
                    assert(decreases_to!(v->L_0 => items@));
                    assert(decreases_to!(items@ => items@[i as int]));
                }
                let x = copy_value(&items[i]);
                assert(items@.take(i + 1).drop_last() =~= items@.take(i as int));
                assert(r@.push(x).drop_last() =~= r@);
                r.push(x);
                i = i + 1;
            }
            assert(items@.take(items.len() as int) =~= items@);
            AttrVal::L(r)
        },
        AttrVal::M(pairs) => {
            let mut r: Vec<(String, AttrVal)> = Vec::new();
            let mut i: usize = 0;
            while i < pairs.len()
                invariant
                    i <= pairs.len(),
                    *v == AttrVal::M(*pairs),
                    pairs_view(r@) == pairs_view(pairs@.take(i as int)),
                decreases pairs.len() - i,
            {
                proof {
                    assert(decreases_to!(*v => v->M_0));
                    assert(decreases_to!(v->M_0 => pairs@));
                    assert(decreases_to!(pairs@ => pairs@[i as int]));
                    assert(decreases_to!(pairs@[i as int] => pairs@[i as int].1));
                }
                let x = copy_value(&pairs[i].1);
                let k = pairs[i].0.clone();
                assert(pairs@.take(i + 1).drop_last() =~= pairs@.take(i as int));
                assert(r@.push((k, x)).drop_last() =~= r@);
                r.push((k, x));
                i = i + 1;
            }
            assert(pairs@.take(pairs.len() as int) =~= pairs@);
            AttrVal::M(r)
        },
        AttrVal::NS(xs) => AttrVal::NS(copy_strings(xs)),
        AttrVal::SS(xs) => AttrVal::SS(copy_strings(xs)),
        AttrVal::BS(bs) => AttrVal::BS(copy_bytes_list(bs)),
    }
}

/// A copy of a list of values.
pub fn copy_values(v: &Vec<AttrVal>) -> (r: Vec<AttrVal>)
    ensures
        attrs_view(r@) == attrs_view(v@),
{
    let mut r: Vec<AttrVal> = Vec::new();
    let mut i: usize = 0;
    while i < v.len()
        invariant
            i <= v.len(),
            attrs_view(r@) == attrs_view(v@.take(i as int)),
        decreases v.len() - i,
    {
        let x = copy_value(&v[i]);
        assert(v@.take(i + 1).drop_last() =~= v@.take(i as int));
        assert(r@.push(x).drop_last() =~= r@);
        r.push(x);
        i = i + 1;
    }
    assert(v@.take(v.len() as int) =~= v@);
    r
}

impl View for AttrVal {
    type V = AttrValSpec;

    open spec fn view(&self) -> AttrValSpec {
        attr_view(*self)
    }
}

} // verus!
