//! Facts about the models of values, and of results that carry a [`ParseError`].
use vstd::prelude::*;
use crate::error::{result_view, ParseError, ParseErrorSpec};
use crate::grammar::{key_index, Res};
use crate::value::{attr_view, attrs_view, bytes_view, pairs_view, strings_view, AttrVal, AttrValSpec};

verus! {

/// A read of a rule, taken to its model.
pub open spec fn lift<T: View>(r: Option<(Result<T, ParseError>, usize)>) -> Option<
    (Res<T::V>, int),
> {
    match r {
        Some((x, e)) => Some((result_view(x), e as int)),
        None => None,
    }
}

/// Converted items so far, or the first error, taken to its model.
pub open spec fn acc_view<T, V>(acc: Seq<T>, err: Option<ParseError>, f: spec_fn(Seq<T>) -> V) -> Res<
    V,
> {
    match err {
        Some(e) => Err(e@),
        None => Ok(f(acc)),
    }
}

pub proof fn lemma_attrs_view(s: Seq<AttrVal>)
    ensures
        attrs_view(s).len() == s.len(),
        forall|j: int| 0 <= j < s.len() ==> #[trigger] attrs_view(s)[j] == attr_view(s[j]),
    decreases s.len(),
{
    if s.len() > 0 {
        lemma_attrs_view(s.drop_last());
    }
}

pub proof fn lemma_pairs_view(s: Seq<(String, AttrVal)>)
    ensures
        pairs_view(s).len() == s.len(),
        forall|j: int|
            0 <= j < s.len() ==> #[trigger] pairs_view(s)[j] == (s[j].0@, attr_view(s[j].1)),
    decreases s.len(),
{
    if s.len() > 0 {
        lemma_pairs_view(s.drop_last());
    }
}

pub proof fn lemma_attrs_view_push(s: Seq<AttrVal>, x: AttrVal)
    ensures
        attrs_view(s.push(x)) == attrs_view(s).push(attr_view(x)),
{
    assert(s.push(x).drop_last() =~= s);
}

pub proof fn lemma_pairs_view_push(s: Seq<(String, AttrVal)>, x: (String, AttrVal))
    ensures
        pairs_view(s.push(x)) == pairs_view(s).push((x.0@, attr_view(x.1))),
{
    assert(s.push(x).drop_last() =~= s);
}

pub proof fn lemma_pairs_view_append(a: Seq<(String, AttrVal)>, b: Seq<(String, AttrVal)>)
    ensures
        pairs_view(a + b) == pairs_view(a) + pairs_view(b),
    decreases b.len(),
{
    if b.len() == 0 {
        assert(a + b =~= a);
        assert(pairs_view(a) + pairs_view(b) =~= pairs_view(a));
    } else {
        lemma_pairs_view_append(a, b.drop_last());
        assert((a + b).drop_last() =~= a + b.drop_last());
        assert((a + b).last() == b.last());
        assert(pairs_view(a) + pairs_view(b) =~= (pairs_view(a) + pairs_view(b.drop_last())).push(
            (b.last().0@, attr_view(b.last().1)),
        ));
    }
}

pub proof fn lemma_pairs_view_update(s: Seq<(String, AttrVal)>, i: int, x: (String, AttrVal))
    requires
        0 <= i < s.len(),
    ensures
        pairs_view(s.update(i, x)) == pairs_view(s).update(i, (x.0@, attr_view(x.1))),
{
    lemma_pairs_view(s);
    lemma_pairs_view(s.update(i, x));
    assert(pairs_view(s.update(i, x)) =~= pairs_view(s).update(i, (x.0@, attr_view(x.1))));
}

pub proof fn lemma_key_index_step(p: Seq<(Seq<char>, AttrValSpec)>, k: Seq<char>, i: int)
    requires
        0 <= i < p.len(),
        p[i].0 != k,
    ensures
        key_index(p, k, i) == key_index(p, k, i + 1),
{
}

} // verus!
