//! Shaping exported data: the attributes to export, the CSV header, and joining the JSON
//! arrays of successive scans.
use vstd::prelude::*;
use crate::app::TableSchema;
use crate::data::sk_name;
use crate::display::{comma_joined, lemma_comma_joined_append};
use crate::text::{
    chars_of, lemma_split_on_concat, lemma_split_on_no_sep, push_char, push_str, split_on, split_str,
    string_from_range, trim_str, trimmed,
};
use crate::batch::{csv_table, nonempty, nonempty_lines};
use crate::value::strings_view;

verus! {

/// What `dy export` does about the attributes to export.
#[derive(Debug, Clone, Copy, PartialEq, Eq, Structural)]
pub enum ExportAttributes {
    /// Use `--attributes` as given (none, or only the keys with `--keys-only`).
    Given,
    /// Suggest attributes from the first item of the table.
    Suggest,
    /// Refuse: `--keys-only` and `--attributes` go only with CSV.
    OnlyWithCsv,
}

/// What `dy export` does about the attributes: in CSV, attributes are suggested unless
/// `--keys-only` or `--attributes` is given; in other formats, neither option may be given.
pub open spec fn export_attributes_spec(format: Option<Seq<char>>, keys_only: bool, given: bool) -> ExportAttributes {
    if format == Some("csv"@) {
        if !keys_only && !given {
            ExportAttributes::Suggest
        } else {
            ExportAttributes::Given
        }
    } else if keys_only || given {
        ExportAttributes::OnlyWithCsv
    } else {
        ExportAttributes::Given
    }
}

/// What `dy export` does about the attributes, for the `--format`, `--keys-only` and
/// `--attributes` options.
pub fn export_attributes(format: &Option<String>, keys_only: bool, given_attributes: &Option<String>) -> (r:
    ExportAttributes)
    ensures
        r == export_attributes_spec(
            match format {
                Some(f) => Some(f@),
                None => None,
            },
            keys_only,
            given_attributes is Some,
        ),
{
    proof {
        reveal_strlit("csv");
    }
    let csv = match format {
        Some(f) => *f == String::from_str("csv"),
        None => false,
    };
    if csv {
        if !keys_only && given_attributes.is_none() {
            ExportAttributes::Suggest
        } else {
            ExportAttributes::Given
        }
    } else if keys_only || given_attributes.is_some() {
        ExportAttributes::OnlyWithCsv
    } else {
        ExportAttributes::Given
    }
}

/// Whether `a` names a key attribute of the table.
pub open spec fn is_key_name(ts: TableSchema, a: Seq<char>) -> bool {
    a == ts.pk.name@ || (sk_name(ts) matches Some(s) && a == s)
}

/// The attributes of `attrs` that are no key attributes, in order.
pub open spec fn non_key_attributes(ts: TableSchema, attrs: Seq<Seq<char>>) -> Seq<Seq<char>>
    decreases attrs.len(),
{
    if attrs.len() == 0 {
        Seq::empty()
    } else if is_key_name(ts, attrs.last()) {
        non_key_attributes(ts, attrs.drop_last())
    } else {
        non_key_attributes(ts, attrs.drop_last()).push(attrs.last())
    }
}

/// The attributes given as `a, b, c`, trimmed.
pub open spec fn listed_attributes(ats: Seq<char>) -> Seq<Seq<char>> {
    split_on(ats, ',').map_values(|a: Seq<char>| trimmed(a))
}

/// The number of attributes of `attrs` that are key attributes.
pub open spec fn key_mentions_in(ts: TableSchema, attrs: Seq<Seq<char>>) -> nat
    decreases attrs.len(),
{
    if attrs.len() == 0 {
        0
    } else if is_key_name(ts, attrs.last()) {
        key_mentions_in(ts, attrs.drop_last()) + 1
    } else {
        key_mentions_in(ts, attrs.drop_last())
    }
}

/// The attributes given as `a, b, c` (trimmed), without the key attributes, which are
/// exported anyway; and how many key attributes were given.
pub fn filter_attributes_to_append(ts: &TableSchema, ats: &str) -> (r: (Vec<String>, usize))
    ensures
        strings_view(r.0@) == non_key_attributes(*ts, listed_attributes(ats@)),
        r.1 == key_mentions_in(*ts, listed_attributes(ats@)),
{
    let pieces = split_str(ats, ',');
    let ghost attrs = listed_attributes(ats@);
    let mut attributes_to_append: Vec<String> = Vec::new();
    let mut skipped: usize = 0;
    let mut j: usize = 0;
    assert(pieces@.map_values(|t: String| t@).len() == pieces.len());
    while j < pieces.len()
        invariant
            j <= pieces.len(),
            skipped <= j,
            attrs.len() == pieces.len(),
            forall|k: int| 0 <= k < pieces.len() ==> #[trigger] attrs[k] == trimmed(pieces@[k]@),
            strings_view(attributes_to_append@) == non_key_attributes(*ts, attrs.take(j as int)),
            skipped == key_mentions_in(*ts, attrs.take(j as int)),
        decreases pieces.len() - j,
    {
        assert(pieces@.map_values(|t: String| t@)[j as int] == pieces@[j as int]@);
        assert(attrs.take(j + 1).drop_last() =~= attrs.take(j as int));
        assert(attrs.take(j + 1).last() == attrs[j as int]);
        let attr = trim_str(pieces[j].as_str());
        let is_key = attr == ts.pk.name || match &ts.sk {
            Some(sk) => attr == sk.name,
            None => false,
        };
        if is_key {
            skipped = skipped + 1;
        } else {
            let ghost before = strings_view(attributes_to_append@);
            attributes_to_append.push(attr);
            assert(strings_view(attributes_to_append@) =~= before.push(attrs[j as int]));
        }
        j = j + 1;
    }
    assert(attrs.take(pieces.len() as int) =~= attrs);
    (attributes_to_append, skipped)
}

/// The attributes to export besides the keys, when some are given.
pub fn attrs_to_append(ts: &TableSchema, attributes: &Option<String>) -> (r: Option<Vec<String>>)
    ensures
        match attributes {
            Some(ats) => r matches Some(v) && strings_view(v@) == non_key_attributes(
                *ts,
                listed_attributes(ats@),
            ),
            None => r is None,
        },
{
    match attributes {
        Some(ats) => Some(filter_attributes_to_append(ts, ats.as_str()).0),
        None => None,
    }
}

/// The header line of an exported CSV file: the keys, then the attributes to export.
pub open spec fn csv_header_text(ts: TableSchema, attributes: Option<Seq<Seq<char>>>, keys_only: bool) -> Seq<
    char,
> {
    let keys = match ts.sk {
        Some(sk) => ts.pk.name@ + seq![','] + sk.name@,
        None => ts.pk.name@,
    };
    let rest = if keys_only {
        Seq::empty()
    } else {
        match attributes {
            Some(a) => seq![','] + comma_joined(a),
            None => Seq::empty(),
        }
    };
    keys + rest + seq!['\n']
}

/// The header line of an exported CSV file.
pub fn build_csv_header(ts: &TableSchema, attributes_to_append: Option<Vec<String>>, keys_only: bool) -> (r:
    String)
    ensures
        r@ == csv_header_text(
            *ts,
            match attributes_to_append {
                Some(v) => Some(strings_view(v@)),
                None => None,
            },
            keys_only,
        ),
{
    let mut header_str = ts.pk.name.clone();
    if let Some(sk) = &ts.sk {
        push_char(&mut header_str, ',');
        push_str(&mut header_str, sk.name.as_str());
    }
    if !keys_only {
        if let Some(attrs) = attributes_to_append {
            push_char(&mut header_str, ',');
            let joined = crate::display::format_array_elements(&attrs);
            push_str(&mut header_str, joined.as_str());
        }
    }
    push_char(&mut header_str, '\n');
    header_str
}

/// Whether a JSON array text can be made connectable: it has a character besides the
/// last one (or two, for pretty printed output), which are ASCII.
pub open spec fn connectable(s: Seq<char>, compact: bool) -> bool {
    let k: int = if compact {
        1
    } else {
        2
    };
    s.len() >= 1 + k && forall|i: int| s.len() - k <= i < s.len() ==> (s[i] as u32) < 128
}

/// A JSON array text made connectable to the next one: without its first character
/// (`[`) and its last one (`]`, and the line break of pretty printed output), and with
/// a `,` after it.
pub open spec fn connectable_text(s: Seq<char>, compact: bool) -> Seq<char> {
    let k: int = if compact {
        1
    } else {
        2
    };
    s.subrange(1, s.len() - k).push(',')
}

/// Whether a JSON array text can be made connectable (see [`connectable`]).
pub fn is_connectable(s: &str, compact: bool) -> (b: bool)
    ensures
        b == connectable(s@, compact),
{
    let v = chars_of(s);
    let k: usize = if compact {
        1
    } else {
        2
    };
    if v.len() < 1 + k {
        return false;
    }
    let mut i: usize = v.len() - k;
    while i < v.len()
        invariant
            v@ == s@,
            v.len() >= 1 + k,
            k == if compact {
                1usize
            } else {
                2usize
            },
            v.len() - k <= i <= v.len(),
            forall|j: int| v.len() - k <= j < i ==> (v@[j] as u32) < 128,
        decreases v.len() - i,
    {
        if (v[i] as u32) >= 128 {
            assert(s@[i as int] == v@[i as int]);
            return false;
        }
        i = i + 1;
    }
    true
}

/// Makes the JSON array text of one scan connectable to the next one.
pub fn connectable_json(s: String, compact: bool) -> (r: String)
    requires
        connectable(s@, compact),
    ensures
        r@ == connectable_text(s@, compact),
{
    let v = chars_of(s.as_str());
    let k: usize = if compact {
        1
    } else {
        2
    };
    let mut r = string_from_range(&v, 1, v.len() - k);
    push_char(&mut r, ',');
    r
}


/// Whether a name can stand in a CSV header as it is: it holds no `,` and no line break.
pub open spec fn plain_name(n: Seq<char>) -> bool {
    !n.contains(',') && !n.contains('\n')
}

/// The columns of an exported CSV file: the keys, then, unless only keys are exported,
/// the attributes.
pub open spec fn csv_columns(ts: TableSchema, attributes: Option<Seq<Seq<char>>>, keys_only: bool) -> Seq<
    Seq<char>,
> {
    let keys = match ts.sk {
        Some(sk) => seq![ts.pk.name@, sk.name@],
        None => seq![ts.pk.name@],
    };
    if keys_only {
        keys
    } else {
        match attributes {
            Some(a) => keys + a,
            None => keys,
        }
    }
}

proof fn lemma_no_char_concat(a: Seq<char>, b: Seq<char>, c: char)
    requires
        !a.contains(c),
        !b.contains(c),
    ensures
        !(a + b).contains(c),
{
    if (a + b).contains(c) {
        let i = choose|i: int| 0 <= i < (a + b).len() && (a + b)[i] == c;
        if i < a.len() {
            assert(a[i] == c);
        } else {
            assert(b[i - a.len()] == c);
        }
    }
}

proof fn lemma_comma_joined_split(xs: Seq<Seq<char>>)
    requires
        xs.len() > 0,
        forall|i: int| 0 <= i < xs.len() ==> plain_name(#[trigger] xs[i]),
    ensures
        split_on(comma_joined(xs), ',') == xs,
        !comma_joined(xs).contains('\n'),
    decreases xs.len(),
{
    if xs.len() == 1 {
        assert(plain_name(xs[0]));
        lemma_split_on_no_sep(xs[0], ',');
        assert(seq![xs[0]] =~= xs);
    } else {
        let d = xs.drop_last();
        assert forall|i: int| 0 <= i < d.len() implies plain_name(#[trigger] d[i]) by {
            assert(plain_name(xs[i]));
        }
        lemma_comma_joined_split(d);
        assert(plain_name(xs[xs.len() - 1]));
        lemma_split_on_concat(comma_joined(d), xs.last(), ',');
        lemma_split_on_no_sep(xs.last(), ',');
        assert(d + seq![xs.last()] =~= xs);
        assert(!seq![','].contains('\n')) by {
            assert(seq![','][0] == ',');
        }
        lemma_no_char_concat(comma_joined(d), seq![','], '\n');
        lemma_no_char_concat(comma_joined(d) + seq![','], xs.last(), '\n');
    }
}

proof fn lemma_keys_joined(ts: TableSchema)
    ensures
        comma_joined(csv_columns(ts, None, true)) == match ts.sk {
            Some(sk) => ts.pk.name@ + seq![','] + sk.name@,
            None => ts.pk.name@,
        },
{
    let keys = csv_columns(ts, None, true);
    if ts.sk is Some {
        assert(keys.drop_last() =~= seq![ts.pk.name@]);
        assert(keys.last() == ts.sk.unwrap().name@);
        assert(comma_joined(seq![ts.pk.name@]) == ts.pk.name@);
    }
}

/// The header line is the columns joined by commas, and a line break.
proof fn lemma_header_line(ts: TableSchema, attributes: Option<Seq<Seq<char>>>, keys_only: bool)
    requires
        attributes matches Some(a) ==> a.len() > 0,
    ensures
        csv_header_text(ts, attributes, keys_only) == comma_joined(csv_columns(ts, attributes, keys_only))
            + seq!['\n'],
{
    lemma_keys_joined(ts);
    let keys = csv_columns(ts, None, true);
    if !keys_only && attributes is Some {
        let a = attributes.unwrap();
        lemma_comma_joined_append(keys, a);
        assert(csv_columns(ts, attributes, keys_only) == keys + a);
        assert(csv_header_text(ts, attributes, keys_only) =~= comma_joined(keys) + seq![','] + comma_joined(a)
            + seq!['\n']);
    } else {
        assert(csv_columns(ts, attributes, keys_only) == keys);
        assert(csv_header_text(ts, attributes, keys_only) =~= comma_joined(keys) + seq!['\n']);
    }
}

/// A text of one non-empty line reads as a header without rows.
proof fn lemma_single_line_table(line: Seq<char>)
    requires
        line.len() > 0,
        !line.contains('\n'),
    ensures
        csv_table(line + seq!['\n']) == Some((split_on(line, ','), Seq::<Seq<Seq<char>>>::empty())),
{
    let text = line + seq!['\n'];
    assert(text =~= line + seq!['\n'] + Seq::<char>::empty());
    lemma_split_on_concat(line, Seq::<char>::empty(), '\n');
    lemma_split_on_no_sep(line, '\n');
    let parts = split_on(text, '\n');
    assert(parts =~= seq![line, Seq::<char>::empty()]);
    reveal(Seq::filter);
    assert(parts.drop_last() =~= seq![line]);
    assert(seq![line].drop_last() =~= Seq::<Seq<char>>::empty());
    assert(nonempty_lines(text) =~= seq![line]);
    assert(seq![line].skip(1).map_values(|l: Seq<char>| split_on(l, ',')) =~= Seq::<Seq<Seq<char>>>::empty());
}

/// The header line that `export` writes to a CSV file is read back by `import` as the
/// header of a file without rows, with the columns that were exported: the keys, then
/// the attributes. Names are taken to hold no `,` and no line break, the partition key's
/// name not to be empty, and a list of attributes not to be empty.
pub proof fn law_csv_header_reads_back(ts: TableSchema, attributes: Option<Seq<Seq<char>>>, keys_only: bool)
    requires
        ts.pk.name@.len() > 0,
        plain_name(ts.pk.name@),
        ts.sk matches Some(sk) ==> plain_name(sk.name@),
        attributes matches Some(a) ==> a.len() > 0 && forall|i: int| 0 <= i < a.len() ==> plain_name(#[trigger] a[i]),
    ensures
        csv_table(csv_header_text(ts, attributes, keys_only)) == Some(
            (csv_columns(ts, attributes, keys_only), Seq::<Seq<Seq<char>>>::empty()),
        ),
{
    let cols = csv_columns(ts, attributes, keys_only);
    assert forall|i: int| 0 <= i < cols.len() implies plain_name(#[trigger] cols[i]) by {
        if ts.sk is Some {
            if i >= 2 {
                assert(cols[i] == attributes.unwrap()[i - 2]);
            }
        } else {
            if i >= 1 {
                assert(cols[i] == attributes.unwrap()[i - 1]);
            }
        }
    }
    lemma_comma_joined_split(cols);
    lemma_comma_joined_len(cols);
    lemma_header_line(ts, attributes, keys_only);
    lemma_single_line_table(comma_joined(cols));
}

proof fn lemma_comma_joined_len(xs: Seq<Seq<char>>)
    requires
        xs.len() > 0,
        xs[0].len() > 0,
    ensures
        comma_joined(xs).len() > 0,
    decreases xs.len(),
{
    if xs.len() > 1 {
        lemma_comma_joined_len(xs.drop_last());
    }
}

} // verus!
