//! How attribute values, types and sort key conditions are written back as text, in the
//! syntax of the expression language.
use vstd::prelude::*;
use crate::ast::{SortKeyCondition, SortKeyConditionSpec};
use crate::b64::{base64_text, encode_standard};
use crate::text::{chars_of, decimal, push_char, push_chars, push_str, usize_to_decimal};
use crate::error::{Base64Error, GrammarRule, ParseError, ParseErrorSpec};
use crate::value::{
    attr_view, attrs_view, bytes_view, pairs_view, strings_view, AttrVal, AttrValSpec,
    AttributeType,
};
use crate::views::{lemma_attrs_view, lemma_pairs_view};
use crate::escape::{hex_char_value, hex_digits, simple_escape, unescape_dq};
use crate::text::is_scalar_value;

verus! {

/// The name of an attribute type, as messages show it.
pub open spec fn attribute_type_text(t: AttributeType) -> Seq<char> {
    match t {
        AttributeType::S => "string (S)"@,
        AttributeType::N => "number (N)"@,
        AttributeType::B => "binary (B)"@,
        AttributeType::Bool => "boolean (BOOL)"@,
        AttributeType::Null => "null (NULL)"@,
        AttributeType::L => "list (L)"@,
        AttributeType::M => "map (M)"@,
        AttributeType::NS => "nummber set (NS)"@,
        AttributeType::SS => "string set (SS)"@,
        AttributeType::BS => "binary set (BS)"@,
    }
}

impl AttributeType {
    /// The name of the type, as messages show it.
    pub fn to_string(&self) -> (r: String)
        ensures
            r@ == attribute_type_text(*self),
    {
        match self {
            AttributeType::S => String::from_str("string (S)"),
            AttributeType::N => String::from_str("number (N)"),
            AttributeType::B => String::from_str("binary (B)"),
            AttributeType::Bool => String::from_str("boolean (BOOL)"),
            AttributeType::Null => String::from_str("null (NULL)"),
            AttributeType::L => String::from_str("list (L)"),
            AttributeType::M => String::from_str("map (M)"),
            AttributeType::NS => String::from_str("nummber set (NS)"),
            AttributeType::SS => String::from_str("string set (SS)"),
            AttributeType::BS => String::from_str("binary set (BS)"),
        }
    }
}

/// A control character: the C0 controls, DEL and the C1 controls.
pub open spec fn is_control(c: char) -> bool {
    (c as u32) < 0x20 || (0x7f <= (c as u32) && (c as u32) <= 0x9f)
}

/// The lower case hexadecimal digit of `d`, which is below 16.
pub open spec fn hex_digit(d: int) -> char {
    if d < 10 {
        ((48 + d) as u32) as char
    } else {
        ((87 + d) as u32) as char
    }
}

/// The four lower case hexadecimal digits of `u`, which is below 0x10000.
pub open spec fn hex4_text(u: int) -> Seq<char> {
    seq![hex_digit(u / 4096 % 16), hex_digit(u / 256 % 16), hex_digit(u / 16 % 16), hex_digit(u % 16)]
}

/// How one character is written inside a JSON string.
pub open spec fn json_escaped_char(c: char) -> Seq<char> {
    if c == '"' {
        "\\\""@
    } else if c == '\\' {
        "\\\\"@
    } else if c as u32 == 8 {
        "\\b"@
    } else if c as u32 == 12 {
        "\\f"@
    } else if c == '\n' {
        "\\n"@
    } else if c == '\r' {
        "\\r"@
    } else if c == '\t' {
        "\\t"@
    } else if is_control(c) {
        "\\u"@ + hex4_text(c as u32 as int)
    } else {
        seq![c]
    }
}

/// A text written as the inside of a JSON string.
pub open spec fn escaped_json(s: Seq<char>) -> Seq<char>
    decreases s.len(),
{
    if s.len() == 0 {
        Seq::empty()
    } else {
        escaped_json(s.drop_last()) + json_escaped_char(s.last())
    }
}

fn hex_digit_x(d: u32) -> (c: char)
    requires
        d < 16,
    ensures
        c == hex_digit(d as int),
{
    let c = if d < 10 {
        crate::text::char_from_u32(48 + d)
    } else {
        crate::text::char_from_u32(87 + d)
    };
    match c {
        Some(c) => c,
        None => ' ',
    }
}

/// Writes one character as it stands inside a JSON string.
fn push_json_escaped(r: &mut String, ch: char)
    ensures
        final(r)@ == old(r)@ + json_escaped_char(ch),
{
    if ch == '"' {
        push_str(r, "\\\"");
    } else if ch == '\\' {
        push_str(r, "\\\\");
    } else if ch as u32 == 8 {
        push_str(r, "\\b");
    } else if ch as u32 == 12 {
        push_str(r, "\\f");
    } else if ch == '\n' {
        push_str(r, "\\n");
    } else if ch == '\r' {
        push_str(r, "\\r");
    } else if ch == '\t' {
        push_str(r, "\\t");
    } else {
        let u = ch as u32;
        if u < 0x20 || (0x7f <= u && u <= 0x9f) {
            push_str(r, "\\u");
            push_char(r, hex_digit_x(u / 4096 % 16));
            push_char(r, hex_digit_x(u / 256 % 16));
            push_char(r, hex_digit_x(u / 16 % 16));
            push_char(r, hex_digit_x(u % 16));
            assert(final(r)@ =~= old(r)@ + json_escaped_char(ch));
        } else {
            push_char(r, ch);
        }
    }
}

/// Escapes a text so that it can stand between the quotes of a JSON string.
pub fn convert_to_escaped_json_string(str: &str) -> (r: String)
    ensures
        r@ == escaped_json(str@),
{
    let v = chars_of(str);
    let mut r = String::new();
    let mut i: usize = 0;
    while i < v.len()
        invariant
            i <= v.len(),
            v@ == str@,
            r@ == escaped_json(v@.take(i as int)),
        decreases v.len() - i,
    {
        assert(v@.take(i + 1).drop_last() =~= v@.take(i as int));
        push_json_escaped(&mut r, v[i]);
        i = i + 1;
    }
    assert(v@.take(v.len() as int) =~= v@);
    r
}

/// Texts joined by `,`.
pub open spec fn comma_joined(xs: Seq<Seq<char>>) -> Seq<char>
    decreases xs.len(),
{
    if xs.len() == 0 {
        Seq::empty()
    } else if xs.len() == 1 {
        xs[0]
    } else {
        comma_joined(xs.drop_last()) + seq![','] + xs.last()
    }
}

/// Joining two non-empty lists is joining each, with a `,` between.
pub proof fn lemma_comma_joined_append(x: Seq<Seq<char>>, y: Seq<Seq<char>>)
    requires
        x.len() > 0,
        y.len() > 0,
    ensures
        comma_joined(x + y) == comma_joined(x) + seq![','] + comma_joined(y),
    decreases y.len(),
{
    if y.len() == 1 {
        assert((x + y).drop_last() =~= x);
    } else {
        lemma_comma_joined_append(x, y.drop_last());
        assert((x + y).drop_last() =~= x + y.drop_last());
        assert(comma_joined(x + y) =~= comma_joined(x) + seq![','] + comma_joined(y));
    }
}

/// Writes the elements of an array, separated by `,`.
pub fn format_array_elements(vals: &Vec<String>) -> (r: String)
    ensures
        r@ == comma_joined(strings_view(vals@)),
{
    let mut r = String::new();
    let mut i: usize = 0;
    while i < vals.len()
        invariant
            i <= vals.len(),
            r@ == comma_joined(strings_view(vals@).take(i as int)),
        decreases vals.len() - i,
    {
        let ghost before = strings_view(vals@).take(i as int);
        assert(strings_view(vals@).take(i + 1).drop_last() =~= before);
        if i > 0 {
            push_char(&mut r, ',');
        }
        push_str(&mut r, vals[i].as_str());
        i = i + 1;
        assert(strings_view(vals@).take(i as int).last() == vals@[i - 1]@);
        proof {
            if i == 1 {
                assert(r@ =~= comma_joined(strings_view(vals@).take(i as int)));
            }
        }
    }
    assert(strings_view(vals@).take(vals.len() as int) =~= strings_view(vals@));
    r
}

/// A text between double quotes, as it is.
pub open spec fn quoted(s: Seq<char>) -> Seq<char> {
    seq!['"'] + s + seq!['"']
}

/// The text of a binary value: `b64"..."`.
pub open spec fn binary_text(b: Seq<u8>) -> Seq<char> {
    "b64\""@ + base64_text(b) + "\""@
}

/// How an attribute value is written.
pub open spec fn attr_text(v: AttrValSpec) -> Seq<char>
    decreases v, 0int,
{
    match v {
        AttrValSpec::N(s) => s,
        AttrValSpec::S(s) => quoted(escaped_json(s)),
        AttrValSpec::Bool(b) => if b {
            "true"@
        } else {
            "false"@
        },
        AttrValSpec::Null(_) => "null"@,
        AttrValSpec::B(b) => binary_text(b),
        AttrValSpec::L(xs) => seq!['['] + comma_joined(item_texts(xs)) + seq![']'],
        AttrValSpec::M(ps) => seq!['{'] + comma_joined(entry_texts(ps)) + seq!['}'],
        AttrValSpec::NS(xs) => "<<"@ + comma_joined(xs) + ">>"@,
        AttrValSpec::SS(xs) => "<<"@ + comma_joined(xs.map_values(|x: Seq<char>| quoted(x)))
            + ">>"@,
        AttrValSpec::BS(bs) => "<<"@ + comma_joined(bs.map_values(|b: Seq<u8>| binary_text(b)))
            + ">>"@,
    }
}

/// The texts of list items.
pub open spec fn item_texts(xs: Seq<AttrValSpec>) -> Seq<Seq<char>>
    decreases xs, xs.len(),
{
    if xs.len() == 0 {
        Seq::empty()
    } else {
        item_texts(xs.drop_last()).push(attr_text(xs.last()))
    }
}

/// The texts of map entries: `"key":value`.
pub open spec fn entry_texts(ps: Seq<(Seq<char>, AttrValSpec)>) -> Seq<Seq<char>>
    decreases ps, ps.len(),
{
    if ps.len() == 0 {
        Seq::empty()
    } else {
        entry_texts(ps.drop_last()).push(
            quoted(escaped_json(ps.last().0)) + seq![':'] + attr_text(ps.last().1),
        )
    }
}

/// Whether a value can be written: every set in it has an element.
pub open spec fn writable(v: AttrValSpec) -> bool
    decreases v, 0int,
{
    match v {
        AttrValSpec::L(xs) => items_writable(xs),
        AttrValSpec::M(ps) => entries_writable(ps),
        AttrValSpec::NS(xs) => xs.len() > 0,
        AttrValSpec::SS(xs) => xs.len() > 0,
        AttrValSpec::BS(bs) => bs.len() > 0,
        _ => true,
    }
}

pub open spec fn items_writable(xs: Seq<AttrValSpec>) -> bool
    decreases xs, xs.len(),
{
    xs.len() > 0 ==> items_writable(xs.drop_last()) && writable(xs.last())
}

pub open spec fn entries_writable(ps: Seq<(Seq<char>, AttrValSpec)>) -> bool
    decreases ps, ps.len(),
{
    ps.len() > 0 ==> entries_writable(ps.drop_last()) && writable(ps.last().1)
}

proof fn lemma_items_writable(xs: Seq<AttrValSpec>, i: int)
    requires
        items_writable(xs),
        0 <= i < xs.len(),
    ensures
        writable(xs[i]),
        items_writable(xs.take(i + 1)),
    decreases xs.len(),
{
    if i < xs.len() - 1 {
        assert(xs.drop_last()[i] == xs[i]);
        assert(xs.drop_last().take(i + 1) =~= xs.take(i + 1));
        lemma_items_writable(xs.drop_last(), i);
    } else {
        assert(xs.take(i + 1) =~= xs);
    }
}

proof fn lemma_entries_writable(ps: Seq<(Seq<char>, AttrValSpec)>, i: int)
    requires
        entries_writable(ps),
        0 <= i < ps.len(),
    ensures
        writable(ps[i].1),
    decreases ps.len(),
{
    if i < ps.len() - 1 {
        assert(ps.drop_last()[i] == ps[i]);
        lemma_entries_writable(ps.drop_last(), i);
    }
}

/// Writes a binary value: `b64"..."`.
fn binary_to_string(b: &Vec<u8>) -> (r: String)
    ensures
        r@ == binary_text(b@),
{
    let mut r = String::new();
    push_str(&mut r, "b64\"");
    let t = encode_standard(b.as_slice());
    push_str(&mut r, t.as_str());
    push_str(&mut r, "\"");
    r
}

/// Writes a text between double quotes, as it is.
fn quote(s: &str) -> (r: String)
    ensures
        r@ == quoted(s@),
{
    let mut r = String::new();
    push_char(&mut r, '"');
    push_str(&mut r, s);
    push_char(&mut r, '"');
    r
}

/// Writes an attribute value in the syntax of the expression language. Map entries
/// come in the order of the map.
pub fn attr_val_to_string(v: &AttrVal) -> (r: String)
    requires
        writable(v@),
    ensures
        r@ == attr_text(v@),
    decreases v,
{
    let mut r = String::new();
    match v {
        AttrVal::N(s) => {
            push_str(&mut r, s.as_str());
        },
        AttrVal::S(s) => {
            let e = convert_to_escaped_json_string(s.as_str());
            r = quote(e.as_str());
        },
        AttrVal::Bool(b) => {
            if *b {
                push_str(&mut r, "true");
            } else {
                push_str(&mut r, "false");
            }
        },
        AttrVal::Null(_) => {
            push_str(&mut r, "null");
        },
        AttrVal::B(b) => {
            r = binary_to_string(b);
        },
        AttrVal::L(items) => {
            let mut texts: Vec<String> = Vec::new();
            let mut i: usize = 0;
            proof {
                lemma_attrs_view(items@);
            }
            while i < items.len()
                invariant
                    i <= items.len(),
                    *v == AttrVal::L(*items),
                    attrs_view(items@).len() == items.len(),
                    forall|j: int|
                        0 <= j < items.len() ==> #[trigger] attrs_view(items@)[j] == attr_view(
                            items@[j],
                        ),
                    items_writable(attrs_view(items@)),
                    strings_view(texts@) == item_texts(attrs_view(items@).take(i as int)),
                decreases items.len() - i,
            {
                proof {
                    lemma_items_writable(attrs_view(items@), i as int);
                    assert(attrs_view(items@).take(i + 1).drop_last() =~= attrs_view(items@).take(
                        i as int,
                    ));
                    assert(decreases_to!(*v => v->L_0));
                    assert(decreases_to!(v->L_0 => items@));
                    assert(decreases_to!(items@ => items@[i as int]));
                }
                let t = attr_val_to_string(&items[i]);
                assert(strings_view(texts@.push(t)) =~= strings_view(texts@).push(t@));
                texts.push(t);
                i = i + 1;
            }
            assert(attrs_view(items@).take(items.len() as int) =~= attrs_view(items@));
            push_char(&mut r, '[');
            let body = format_array_elements(&texts);
            push_str(&mut r, body.as_str());
            push_char(&mut r, ']');
        },
        AttrVal::M(pairs) => {
            let mut texts: Vec<String> = Vec::new();
            let mut i: usize = 0;
            proof {
                lemma_pairs_view(pairs@);
            }
            while i < pairs.len()
                invariant
                    i <= pairs.len(),
                    *v == AttrVal::M(*pairs),
                    pairs_view(pairs@).len() == pairs.len(),
                    forall|j: int|
                        0 <= j < pairs.len() ==> #[trigger] pairs_view(pairs@)[j] == (
                            pairs@[j].0@,
                            attr_view(pairs@[j].1),
                        ),
                    entries_writable(pairs_view(pairs@)),
                    strings_view(texts@) == entry_texts(pairs_view(pairs@).take(i as int)),
                decreases pairs.len() - i,
            {
                proof {
                    lemma_entries_writable(pairs_view(pairs@), i as int);
                    assert(pairs_view(pairs@).take(i + 1).drop_last() =~= pairs_view(pairs@).take(
                        i as int,
                    ));
                    assert(decreases_to!(*v => v->M_0));
                    assert(decreases_to!(v->M_0 => pairs@));
                    assert(decreases_to!(pairs@ => pairs@[i as int]));
                    assert(decreases_to!(pairs@[i as int] => pairs@[i as int].1));
                }
                let k = convert_to_escaped_json_string(pairs[i].0.as_str());
                let mut t = quote(k.as_str());
                push_char(&mut t, ':');
                let x = attr_val_to_string(&pairs[i].1);
                push_str(&mut t, x.as_str());
                assert(pairs_view(pairs@).take(i + 1).last() == pairs_view(pairs@)[i as int]);
                assert(t@ == quoted(escaped_json(pairs_view(pairs@)[i as int].0)) + seq![':']
                    + attr_text(pairs_view(pairs@)[i as int].1));
                assert(strings_view(texts@.push(t)) =~= strings_view(texts@).push(t@));
                texts.push(t);
                i = i + 1;
            }
            assert(pairs_view(pairs@).take(pairs.len() as int) =~= pairs_view(pairs@));
            push_char(&mut r, '{');
            let body = format_array_elements(&texts);
            push_str(&mut r, body.as_str());
            push_char(&mut r, '}');
        },
        AttrVal::NS(xs) => {
            push_str(&mut r, "<<");
            let body = format_array_elements(xs);
            push_str(&mut r, body.as_str());
            push_str(&mut r, ">>");
        },
        AttrVal::SS(xs) => {
            let mut texts: Vec<String> = Vec::new();
            let mut i: usize = 0;
            while i < xs.len()
                invariant
                    i <= xs.len(),
                    texts.len() == i,
                    forall|j: int| 0 <= j < i ==> #[trigger] texts@[j]@ == quoted(xs@[j]@),
                decreases xs.len() - i,
            {
                texts.push(quote(xs[i].as_str()));
                i = i + 1;
            }
            assert(strings_view(texts@) =~= strings_view(xs@).map_values(
                |x: Seq<char>| quoted(x),
            ));
            push_str(&mut r, "<<");
            let body = format_array_elements(&texts);
            push_str(&mut r, body.as_str());
            push_str(&mut r, ">>");
        },
        AttrVal::BS(bs) => {
            let mut texts: Vec<String> = Vec::new();
            let mut i: usize = 0;
            while i < bs.len()
                invariant
                    i <= bs.len(),
                    texts.len() == i,
                    forall|j: int| 0 <= j < i ==> #[trigger] texts@[j]@ == binary_text(bs@[j]@),
                decreases bs.len() - i,
            {
                texts.push(binary_to_string(&bs[i]));
                i = i + 1;
            }
            assert(strings_view(texts@) =~= bytes_view(bs@).map_values(
                |b: Seq<u8>| binary_text(b),
            ));
            push_str(&mut r, "<<");
            let body = format_array_elements(&texts);
            push_str(&mut r, body.as_str());
            push_str(&mut r, ">>");
        },
    }
    r
}

impl AttrVal {
    /// Writes the value in the syntax of the expression language.
    pub fn to_string(&self) -> (r: String)
        requires
            writable(self@),
        ensures
            r@ == attr_text(self@),
    {
        attr_val_to_string(self)
    }
}

/// How a sort key condition is written.
pub open spec fn condition_text(c: SortKeyConditionSpec) -> Seq<char> {
    match c {
        SortKeyConditionSpec::Eq(v) => "= "@ + attr_text(v),
        SortKeyConditionSpec::Le(v) => "<= "@ + attr_text(v),
        SortKeyConditionSpec::Lt(v) => "< "@ + attr_text(v),
        SortKeyConditionSpec::Ge(v) => ">= "@ + attr_text(v),
        SortKeyConditionSpec::Gt(v) => "> "@ + attr_text(v),
        SortKeyConditionSpec::Between(a, b) => "between "@ + attr_text(a) + " and "@ + attr_text(b),
        SortKeyConditionSpec::BeginsWith(v) => "begins_with "@ + attr_text(v),
    }
}

/// Whether the values of a condition can be written.
pub open spec fn condition_writable(c: SortKeyConditionSpec) -> bool {
    match c {
        SortKeyConditionSpec::Eq(v) => writable(v),
        SortKeyConditionSpec::Le(v) => writable(v),
        SortKeyConditionSpec::Lt(v) => writable(v),
        SortKeyConditionSpec::Ge(v) => writable(v),
        SortKeyConditionSpec::Gt(v) => writable(v),
        SortKeyConditionSpec::Between(a, b) => writable(a) && writable(b),
        SortKeyConditionSpec::BeginsWith(v) => writable(v),
    }
}

impl SortKeyCondition {
    /// Writes the condition in the syntax of the expression language.
    pub fn to_string(&self) -> (r: String)
        requires
            condition_writable(self@),
        ensures
            r@ == condition_text(self@),
    {
        let mut r = String::new();
        match self {
            SortKeyCondition::Eq(v) => {
                push_str(&mut r, "= ");
                push_str(&mut r, attr_val_to_string(v).as_str());
            },
            SortKeyCondition::Le(v) => {
                push_str(&mut r, "<= ");
                push_str(&mut r, attr_val_to_string(v).as_str());
            },
            SortKeyCondition::Lt(v) => {
                push_str(&mut r, "< ");
                push_str(&mut r, attr_val_to_string(v).as_str());
            },
            SortKeyCondition::Ge(v) => {
                push_str(&mut r, ">= ");
                push_str(&mut r, attr_val_to_string(v).as_str());
            },
            SortKeyCondition::Gt(v) => {
                push_str(&mut r, "> ");
                push_str(&mut r, attr_val_to_string(v).as_str());
            },
            SortKeyCondition::Between(a, b) => {
                push_str(&mut r, "between ");
                push_str(&mut r, attr_val_to_string(a).as_str());
                push_str(&mut r, " and ");
                push_str(&mut r, attr_val_to_string(b).as_str());
            },
            SortKeyCondition::BeginsWith(v) => {
                push_str(&mut r, "begins_with ");
                push_str(&mut r, attr_val_to_string(v).as_str());
            },
        }
        r
    }
}

proof fn lemma_escaped_json_front(c: char, t: Seq<char>)
    ensures
        escaped_json(seq![c] + t) == json_escaped_char(c) + escaped_json(t),
    decreases t.len(),
{
    assert(escaped_json(Seq::<char>::empty()) =~= Seq::<char>::empty());
    if t.len() == 0 {
        assert((seq![c] + t).drop_last() =~= Seq::<char>::empty());
        assert(seq![c] + t =~= seq![c]);
        assert(escaped_json(seq![c]) == escaped_json(Seq::<char>::empty()) + json_escaped_char(c));
        assert(json_escaped_char(c) + escaped_json(t) =~= json_escaped_char(c));
        assert(Seq::<char>::empty() + json_escaped_char(c) =~= json_escaped_char(c));
    } else {
        lemma_escaped_json_front(c, t.drop_last());
        assert((seq![c] + t).drop_last() =~= seq![c] + t.drop_last());
        assert((seq![c] + t).last() == t.last());
        assert(escaped_json(seq![c] + t) == escaped_json(seq![c] + t.drop_last())
            + json_escaped_char(t.last()));
        assert(escaped_json(t) == escaped_json(t.drop_last()) + json_escaped_char(t.last()));
        assert(json_escaped_char(c) + escaped_json(t.drop_last()) + json_escaped_char(t.last())
            =~= json_escaped_char(c) + escaped_json(t));
    }
}

proof fn lemma_hex_digit_value(d: int)
    requires
        0 <= d < 16,
    ensures
        hex_char_value(hex_digit(d)) == Some(d),
{
}

/// The four hexadecimal digits of a control character read back as its scalar value.
proof fn lemma_hex4_control(s: Seq<char>, j: int, u: int, esc: int)
    requires
        0 <= u < 256,
        0 <= j,
        j + 4 <= s.len(),
        s.subrange(j, j + 4) == hex4_text(u),
    ensures
        hex_digits(s, j, 4, 0, esc) == Ok::<int, crate::error::ParseErrorSpec>(u),
{
    reveal_with_fuel(hex_digits, 5);
    assert(s[j] == hex4_text(u)[0]);
    assert(s[j + 1] == hex4_text(u)[1]);
    assert(s[j + 2] == hex4_text(u)[2]);
    assert(s[j + 3] == hex4_text(u)[3]);
    lemma_hex_digit_value(u / 4096 % 16);
    lemma_hex_digit_value(u / 256 % 16);
    lemma_hex_digit_value(u / 16 % 16);
    lemma_hex_digit_value(u % 16);
    assert(u / 4096 % 16 == 0);
    assert(u / 256 % 16 == 0);
    assert(u / 16 % 16 * 16 + u % 16 == u);
    assert(hex_digits(s, j + 4, 0, u, esc) == Ok::<int, crate::error::ParseErrorSpec>(u));
}

proof fn lemma_unescape_escaped(x: Seq<char>, t: Seq<char>)
    ensures
        unescape_dq(x + escaped_json(t), x.len() as int) == Ok::<
            Seq<char>,
            crate::error::ParseErrorSpec,
        >(t),
    decreases t.len(),
{
    let s = x + escaped_json(t);
    if t.len() == 0 {
        assert(s.len() == x.len());
        assert(t =~= Seq::<char>::empty());
    } else {
        let c = t[0];
        let rest = t.drop_first();
        assert(t =~= seq![c] + rest);
        lemma_escaped_json_front(c, rest);
        let e = json_escaped_char(c);
        let x2 = x + e;
        assert(s =~= x2 + escaped_json(rest));
        lemma_unescape_escaped(x2, rest);
        let i = x.len() as int;
        reveal_strlit("\\\"");
        reveal_strlit("\\\\");
        reveal_strlit("\\b");
        reveal_strlit("\\f");
        reveal_strlit("\\n");
        reveal_strlit("\\r");
        reveal_strlit("\\t");
        reveal_strlit("\\u");
        assert(s.subrange(i, i + e.len() as int) =~= e);
        vstd::utf8::char_u32_cast(c, c as u32);
        if c == '"' || c == '\\' || c as u32 == 8 || c as u32 == 12 || c == '\n' || c == '\r' || c
            == '\t' {
            assert(e.len() == 2);
            assert(s[i] == '\\');
            assert(s[i + 1] != 'u');
            assert(simple_escape(s[i + 1]) == c);
        } else if is_control(c) {
            let u = c as u32 as int;
            assert(e.len() == 6);
            assert(s[i] == '\\');
            assert(s[i + 1] == 'u');
            assert(s.subrange(i + 2, i + 6) =~= hex4_text(u));
            lemma_hex4_control(s, i + 2, u, i);
            assert(is_scalar_value(u));
            assert(((u as u32) as char) == c);
        } else {
            assert(e == seq![c]);
            assert(s[i] == c);
        }
        assert(unescape_dq(s, i) == Ok::<Seq<char>, crate::error::ParseErrorSpec>(
            seq![c] + rest,
        ));
    }
}

/// A text escaped for a JSON string reads back as itself: unescaping what
/// `convert_to_escaped_json_string` writes gives the text back.
pub proof fn law_escaped_text_reads_back(t: Seq<char>)
    ensures
        unescape_dq(escaped_json(t), 0) == Ok::<Seq<char>, crate::error::ParseErrorSpec>(t),
{
    lemma_unescape_escaped(Seq::empty(), t);
    assert(Seq::<char>::empty() + escaped_json(t) =~= escaped_json(t));
}


/// The name of a grammar rule, as messages show it.
pub open spec fn rule_name(r: GrammarRule) -> Seq<char> {
    match r {
        GrammarRule::Literal => "literal"@,
        GrammarRule::Path => "path"@,
        GrammarRule::SortKey => "sort_key"@,
        GrammarRule::SortKeyStr => "sort_key_str"@,
        GrammarRule::SortKeyNumber => "sort_key_number"@,
        GrammarRule::MapLiteral => "map_literal"@,
        GrammarRule::SetAction => "set_action"@,
        GrammarRule::RemoveAction => "remove_action"@,
    }
}

fn rule_name_x(r: GrammarRule) -> (s: &'static str)
    ensures
        s@ == rule_name(r),
{
    proof {
        reveal_strlit("literal");
        reveal_strlit("path");
        reveal_strlit("sort_key");
        reveal_strlit("sort_key_str");
        reveal_strlit("sort_key_number");
        reveal_strlit("map_literal");
        reveal_strlit("set_action");
        reveal_strlit("remove_action");
    }
    match r {
        GrammarRule::Literal => "literal",
        GrammarRule::Path => "path",
        GrammarRule::SortKey => "sort_key",
        GrammarRule::SortKeyStr => "sort_key_str",
        GrammarRule::SortKeyNumber => "sort_key_number",
        GrammarRule::MapLiteral => "map_literal",
        GrammarRule::SetAction => "set_action",
        GrammarRule::RemoveAction => "remove_action",
    }
}

/// The lower case hexadecimal digits of a byte, without leading zero.
pub open spec fn hex_text(b: u8) -> Seq<char> {
    if b < 16 {
        seq![hex_digit(b as int)]
    } else {
        seq![hex_digit((b / 16) as int), hex_digit((b % 16) as int)]
    }
}

/// The message of a base64 error, as the `base64` crate writes it.
pub open spec fn base64_error_text(e: Base64Error) -> Seq<char> {
    match e {
        Base64Error::InvalidByte(i, b) => "Invalid symbol "@ + decimal(b as nat) + ", offset "@ + decimal(
            i as nat,
        ) + "."@,
        Base64Error::InvalidLength(n) => "Invalid input length: "@ + decimal(n as nat),
        Base64Error::InvalidLastSymbol(i, b) => "Invalid last symbol "@ + decimal(b as nat) + ", offset "@
            + decimal(i as nat) + "."@,
        Base64Error::InvalidPadding => "Invalid padding"@,
    }
}

/// The message of an error of reading an expression or a literal.
pub open spec fn parse_error_text(e: ParseErrorSpec) -> Seq<char> {
    match e {
        ParseErrorSpec::Syntax(r, input) => "failed to parse '"@ + input + "'\n  = expected "@ + rule_name(r),
        ParseErrorSpec::SyntaxWithSuggest(r, input, suggest) => "failed to parse '"@ + input
            + "'\n  = expected "@ + rule_name(r) + "\n\nFailed to parse as the strict format. Did you intend '"@ + suggest + "'?"@,
        ParseErrorSpec::UnexpectedEnd(t, p) => "Unexpected end of escape sequences at "@ + decimal(p as nat)
            + " for the string '"@ + t + "'"@,
        ParseErrorSpec::InvalidUnicode(t, p) => "Invalid unicode character at "@ + decimal(p as nat)
            + " for the string '"@ + t + "'"@,
        ParseErrorSpec::InvalidEscapeChar(t, c, p) => "Unexpected escaped character at handling char '"@
            + seq![c] + "' at "@ + decimal(p as nat) + " for the string '"@ + t + "'"@,
        ParseErrorSpec::InvalidEscapeByte(t, b, p) => "Unexpected escaped byte "@ + seq![(b as u32) as char]
            + "("@ + hex_text(b) + ") at "@ + decimal(p as nat) + " parsing '"@ + t + "'"@,
        ParseErrorSpec::InvalidBeginsWith(input) => "the argument of begins_with is invalid: '"@ + input + "'"@,
        ParseErrorSpec::InvalidTypes(x, y) => "Invalid type detected. Expected type is "@ + attribute_type_text(x)
            + ", but actual type is "@ + attribute_type_text(y) + "."@,
        ParseErrorSpec::InvalidTypesWithSuggest(x, y, s) => "Invalid type detected. Expected type is "@
            + attribute_type_text(x) + ", but actual type is "@ + attribute_type_text(y) + ".\nDid you intend '"@
            + s + "'?"@,
        ParseErrorSpec::Base64(b) => "failed to decode base64 string: "@ + base64_error_text(b),
    }
}

fn push_decimal(r: &mut String, n: usize)
    ensures
        final(r)@ == old(r)@ + decimal(n as nat),
{
    push_chars(r, &usize_to_decimal(n));
}

fn push_syntax_error(r: &mut String, rule: GrammarRule, input: &String)
    ensures
        final(r)@ == old(r)@ + ("failed to parse '"@ + input@ + "'\n  = expected "@ + rule_name(rule)),
{
    push_str(r, "failed to parse '");
    push_str(r, input.as_str());
    push_str(r, "'\n  = expected ");
    push_str(r, rule_name_x(rule));
    proof {
        reveal_strlit("failed to parse '");
        reveal_strlit("'\n  = expected ");
    }
    assert(final(r)@ =~= old(r)@ + ("failed to parse '"@ + input@ + "'\n  = expected "@ + rule_name(rule)));
}

impl Base64Error {
    /// The message of the error.
    pub fn to_string(&self) -> (r: String)
        ensures
            r@ == base64_error_text(*self),
    {
        let mut r = String::new();
        match self {
            Base64Error::InvalidByte(i, b) => {
                push_str(&mut r, "Invalid symbol ");
                push_decimal(&mut r, *b as usize);
                push_str(&mut r, ", offset ");
                push_decimal(&mut r, *i);
                push_str(&mut r, ".");
            },
            Base64Error::InvalidLength(n) => {
                push_str(&mut r, "Invalid input length: ");
                push_decimal(&mut r, *n);
            },
            Base64Error::InvalidLastSymbol(i, b) => {
                push_str(&mut r, "Invalid last symbol ");
                push_decimal(&mut r, *b as usize);
                push_str(&mut r, ", offset ");
                push_decimal(&mut r, *i);
                push_str(&mut r, ".");
            },
            Base64Error::InvalidPadding => {
                push_str(&mut r, "Invalid padding");
            },
        }
        proof {
            reveal_strlit("Invalid symbol ");
            reveal_strlit(", offset ");
            reveal_strlit(".");
            reveal_strlit("Invalid input length: ");
            reveal_strlit("Invalid last symbol ");
            reveal_strlit("Invalid padding");
            reveal_strlit("");
        }
        assert(r@ =~= base64_error_text(*self));
        r
    }
}

impl ParseError {
    /// The message of the error.
    pub fn to_string(&self) -> (r: String)
        ensures
            r@ == parse_error_text(self@),
    {
        let mut r = String::new();
        match self {
            ParseError::ParsingError(e) => {
                push_syntax_error(&mut r, e.rule, &e.input);
            },
            ParseError::ParsingErrorWithSuggest(e) => {
                push_syntax_error(&mut r, e.parse_error.rule, &e.parse_error.input);
                push_str(&mut r, "\n\nFailed to parse as the strict format. Did you intend '");
                push_str(&mut r, e.suggest.as_str());
                push_str(&mut r, "'?");
            },
            ParseError::UnexpectedEndOfSequence(e) => {
                push_str(&mut r, "Unexpected end of escape sequences at ");
                push_decimal(&mut r, e.escape_pos);
                push_str(&mut r, " for the string '");
                push_str(&mut r, e.handling_target.as_str());
                push_str(&mut r, "'");
            },
            ParseError::InvalidUnicodeChar(e) => {
                push_str(&mut r, "Invalid unicode character at ");
                push_decimal(&mut r, e.escape_pos);
                push_str(&mut r, " for the string '");
                push_str(&mut r, e.handling_target.as_str());
                push_str(&mut r, "'");
            },
            ParseError::InvalidEscapeChar(e) => {
                push_str(&mut r, "Unexpected escaped character at handling char '");
                push_char(&mut r, e.invalid_char);
                push_str(&mut r, "' at ");
                push_decimal(&mut r, e.escape_pos);
                push_str(&mut r, " for the string '");
                push_str(&mut r, e.handling_target.as_str());
                push_str(&mut r, "'");
            },
            ParseError::InvalidEscapeByte(e) => {
                push_str(&mut r, "Unexpected escaped byte ");
                let c = match crate::text::char_from_u32(e.escape_byte as u32) {
                    Some(c) => c,
                    None => ' ',
                };
                push_char(&mut r, c);
                push_str(&mut r, "(");
                if e.escape_byte < 16 {
                    push_char(&mut r, hex_digit_x(e.escape_byte as u32));
                } else {
                    push_char(&mut r, hex_digit_x((e.escape_byte / 16) as u32));
                    push_char(&mut r, hex_digit_x((e.escape_byte % 16) as u32));
                }
                push_str(&mut r, ") at ");
                push_decimal(&mut r, e.escape_pos);
                push_str(&mut r, " parsing '");
                push_str(&mut r, e.handling_target.as_str());
                push_str(&mut r, "'");
            },
            ParseError::InvalidBeginsWith(input) => {
                push_str(&mut r, "the argument of begins_with is invalid: '");
                push_str(&mut r, input.as_str());
                push_str(&mut r, "'");
            },
            ParseError::InvalidTypes(e) => {
                push_str(&mut r, "Invalid type detected. Expected type is ");
                push_str(&mut r, e.expected_type.to_string().as_str());
                push_str(&mut r, ", but actual type is ");
                push_str(&mut r, e.actual_type.to_string().as_str());
                push_str(&mut r, ".");
            },
            ParseError::InvalidTypesWithSuggest(e) => {
                push_str(&mut r, "Invalid type detected. Expected type is ");
                push_str(&mut r, e.expected_type.to_string().as_str());
                push_str(&mut r, ", but actual type is ");
                push_str(&mut r, e.actual_type.to_string().as_str());
                push_str(&mut r, ".\nDid you intend '");
                push_str(&mut r, e.suggest.as_str());
                push_str(&mut r, "'?");
            },
            ParseError::Base64DecodeError(e) => {
                push_str(&mut r, "failed to decode base64 string: ");
                push_str(&mut r, e.to_string().as_str());
            },
        }
        proof {
            reveal_strlit("");
            reveal_strlit("\n\nFailed to parse as the strict format. Did you intend '");
            reveal_strlit("'?");
            reveal_strlit("Unexpected end of escape sequences at ");
            reveal_strlit(" for the string '");
            reveal_strlit("'");
            reveal_strlit("Invalid unicode character at ");
            reveal_strlit("Unexpected escaped character at handling char '");
            reveal_strlit("' at ");
            reveal_strlit("Unexpected escaped byte ");
            reveal_strlit("(");
            reveal_strlit(") at ");
            reveal_strlit(" parsing '");
            reveal_strlit("the argument of begins_with is invalid: '");
            reveal_strlit("Invalid type detected. Expected type is ");
            reveal_strlit(", but actual type is ");
            reveal_strlit(".");
            reveal_strlit(".\nDid you intend '");
            reveal_strlit("failed to decode base64 string: ");
        }
        assert(r@ =~= parse_error_text(self@));
        r
    }
}
} // verus!
