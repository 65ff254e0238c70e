//! The expressions and values of the data plane calls: Query key conditions, Scan
//! projections, UpdateItem actions, primary keys of items, and items read from JSON.
use vstd::prelude::*;
use crate::app::{IndexSchema, TableSchema};
use crate::ddb::key::{Key, KeyType};
use crate::display::{comma_joined, lemma_comma_joined_append};
use crate::display::parse_error_text;
use crate::error::{ParseError, ParseErrorSpec};
use crate::grammar::{key_index, map_put};
use crate::parser::{
    entry_value,
    name_ref_text, remove_action_outcome, set_action_outcome, value_ref_text, attr_name_ref,
    fallback_outcome, keys_distinct, law_references_distinct, lemma_map_put_keyed_once, maps_keyed_once,
    suggest_outcome, AttributeDefinition, DyneinParser, ParserState,
    lemma_key_index_found,
};
use crate::reader::map_put_x;
use crate::text::{
    chars_of, push_char, string_from_range, push_str, split_on, split_str, trim_str,
    trimmed,
};
use crate::value::{attr_view, attrs_view, copy_value, pairs_view, strings_view, AttrVal, AttrValSpec, AttributeType};

verus! {

/// The parameters of a Query call: the key condition expression, names and values.
#[derive(Debug, PartialEq, Eq)]
pub struct GeneratedQueryParams {
    pub exp: Option<String>,
    pub names: Option<Vec<(String, String)>>,
    pub vals: Option<Vec<(String, AttrVal)>>,
}

/// The parameters of a Scan call: the projection expression and names.
#[derive(Debug, PartialEq, Eq)]
pub struct GeneratedScanParams {
    pub exp: Option<String>,
    pub names: Option<Vec<(String, String)>>,
}

/// The parameters of an UpdateItem call: the update expression, names and values.
#[derive(Debug, PartialEq, Eq)]
pub struct GeneratedUpdateParams {
    pub exp: Option<String>,
    pub names: Option<Vec<(String, String)>>,
    pub vals: Option<Vec<(String, AttrVal)>>,
}

/// The action of an update: `--set` or `--remove`.
#[derive(Debug, Clone, Copy, PartialEq, Eq, Structural)]
pub enum UpdateActionType {
    SetAction,
    RemoveAction,
}

/// Why the parameters of a Query call could not be made.
#[derive(Debug, PartialEq, Eq)]
pub enum DyneinQueryParamsError {
    /// The index (first) is not an index of the table (second).
    NoSuchIndex(String, String),
    NoSortKeyDefined,
    /// The sort key condition could not be read; the error says why.
    InvalidSortKeyOption(ParseError),
}

impl DyneinQueryParamsError {
    /// The message of the error.
    pub fn to_string(&self) -> (r: String)
        ensures
            match self {
                DyneinQueryParamsError::NoSuchIndex(idx, t) => r@ == "No index named '"@ + idx@
                    + "' found on the target table '"@ + t@
                    + "'. Please execute 'dy desc' command to see indexes the table has."@,
                DyneinQueryParamsError::NoSortKeyDefined => r@
                    == "You've passed --sort-key (-s) option, however the target table (or index) doesn't have sort key. Please execute 'dy desc' command to see key schema."@,
                DyneinQueryParamsError::InvalidSortKeyOption(e) => r@ == parse_error_text(e@),
            },
    {
        match self {
            DyneinQueryParamsError::NoSuchIndex(idx, t) => {
                let mut r = String::from_str("No index named '");
                push_str(&mut r, idx.as_str());
                push_str(&mut r, "' found on the target table '");
                push_str(&mut r, t.as_str());
                push_str(
                    &mut r,
                    "'. Please execute 'dy desc' command to see indexes the table has.",
                );
                r
            },
            DyneinQueryParamsError::NoSortKeyDefined => String::from_str(
                "You've passed --sort-key (-s) option, however the target table (or index) doesn't have sort key. Please execute 'dy desc' command to see key schema.",
            ),
            DyneinQueryParamsError::InvalidSortKeyOption(e) => e.to_string(),
        }
    }
}

/// The options of `dy query`.
pub struct QueryParams {
    pub pval: String,
    pub sort_key_expression: Option<String>,
    pub index: Option<String>,
    pub limit: Option<i64>,
    pub consistent_read: bool,
    pub descending: bool,
    pub attributes: Option<String>,
    pub keys_only: bool,
}

/// Pairs of texts, taken to their models.
pub open spec fn text_pairs(v: Seq<(String, String)>) -> Seq<(Seq<char>, Seq<char>)> {
    v.map_values(|p: (String, String)| (p.0@, p.1@))
}

/// The value of a key attribute of type `S` or `N` written as `v`.
pub open spec fn scalar_of(ktype: Seq<char>, v: Seq<char>) -> AttrValSpec {
    if ktype == "S"@ {
        AttrValSpec::S(v)
    } else {
        AttrValSpec::N(v)
    }
}

/// The value of a key attribute of type `S` or `N` written as `kval`.
pub fn build_attrval_scalar(ktype: &str, kval: &str) -> (r: AttrVal)
    requires
        ktype@ == "S"@ || ktype@ == "N"@,
    ensures
        r@ == scalar_of(ktype@, kval@),
{
    if String::from_str(ktype) == String::from_str("S") {
        AttrVal::S(String::from_str(kval))
    } else {
        AttrVal::N(String::from_str(kval))
    }
}

/// The letter of a key type.
pub open spec fn kind_text(k: KeyType) -> Seq<char> {
    crate::ddb::key::key_type_text(k)
}

/// An optional text, taken to its model.
pub open spec fn opt_text(s: Option<String>) -> Option<Seq<char>> {
    match s {
        Some(x) => Some(x@),
        None => None,
    }
}

/// The primary key of an item: the partition key, and the sort key when its value is
/// given; `None` when a sort key value is given for a table without sort key.
pub open spec fn target_spec(ts: TableSchema, pval: Seq<char>, sval: Option<Seq<char>>) -> Option<
    Seq<(Seq<char>, AttrValSpec)>,
> {
    let base = seq![(ts.pk.name@, scalar_of(kind_text(ts.pk.kind), pval))];
    match sval {
        None => Some(base),
        Some(s) => match ts.sk {
            Some(sk) => Some(map_put(base, sk.name@, scalar_of(kind_text(sk.kind), s))),
            None => None,
        },
    }
}

/// The primary key of the item that the key values identify.
pub fn identify_target(ts: &TableSchema, pval: String, optional_sval: Option<String>) -> (r: Option<
    Vec<(String, AttrVal)>,
>)
    requires
        ts.pk.kind != KeyType::B,
        optional_sval is Some ==> (ts.sk matches Some(sk) ==> sk.kind != KeyType::B),
    ensures
        match r {
            Some(v) => target_spec(*ts, pval@, opt_text(optional_sval)) == Some(
                pairs_view(v@),
            ),
            None => target_spec(*ts, pval@, opt_text(optional_sval)) is None,
        },
{
    let mut target: Vec<(String, AttrVal)> = Vec::new();
    let pk_type = ts.pk.kind.to_string();
    let pk_val = build_attrval_scalar(pk_type.as_str(), pval.as_str());
    let pk_name = ts.pk.name.clone();
    proof {
        crate::views::lemma_pairs_view_push(target@, (pk_name, pk_val));
        assert(pairs_view(target@) =~= Seq::<(Seq<char>, AttrValSpec)>::empty());
    }
    target.push((pk_name, pk_val));
    if let Some(sval) = optional_sval {
        match &ts.sk {
            Some(sk) => {
                let sk_type = sk.kind.to_string();
                let v = build_attrval_scalar(sk_type.as_str(), sval.as_str());
                map_put_x(&mut target, sk.name.clone(), v);
            },
            None => {
                return None;
            },
        }
    }
    Some(target)
}

/// The model of a Query error.
pub enum QueryError {
    NoSuchIndex(Seq<char>, Seq<char>),
    NoSortKeyDefined,
    InvalidSortKeyOption(ParseErrorSpec),
}

pub open spec fn query_error_view(e: DyneinQueryParamsError) -> QueryError {
    match e {
        DyneinQueryParamsError::NoSuchIndex(i, t) => QueryError::NoSuchIndex(i@, t@),
        DyneinQueryParamsError::NoSortKeyDefined => QueryError::NoSortKeyDefined,
        DyneinQueryParamsError::InvalidSortKeyOption(e) => QueryError::InvalidSortKeyOption(e@),
    }
}

/// Key condition expression, names and values.
pub type QueryParts = (Seq<char>, Seq<(Seq<char>, Seq<char>)>, Seq<(Seq<char>, AttrValSpec)>);

/// The attribute type of a key of type `k`.
pub open spec fn key_attr_type(k: KeyType) -> AttributeType {
    match k {
        KeyType::S => AttributeType::S,
        KeyType::N => AttributeType::N,
        KeyType::B => AttributeType::B,
    }
}

/// What reading the sort key condition `ske` for the key `k` gives, starting from an
/// empty context: in strict mode the strict grammar, with a suggestion where it fails;
/// else the strict grammar, and the lenient grammar of the key's type where it fails.
pub open spec fn sort_key_reading(k: Key, ske: Seq<char>, strict: bool) -> Result<
    (ParserState, Seq<char>),
    ParseErrorSpec,
> {
    let st = ParserState { names: Seq::empty(), values: Seq::empty() };
    if strict {
        suggest_outcome(st, ske, k.name@, key_attr_type(k.kind))
    } else {
        fallback_outcome(st, ske, k.name@, key_attr_type(k.kind))
    }
}

/// The key condition with the sort key condition `ske` appended to the partition key
/// condition `pk_expr` by `AND`, and the names and values with those that the reading
/// of the sort key condition registered.
pub open spec fn append_outcome(
    sk: Option<Key>,
    pk_expr: Seq<char>,
    ske: Seq<char>,
    names: Seq<(Seq<char>, Seq<char>)>,
    vals: Seq<(Seq<char>, AttrValSpec)>,
    strict: bool,
) -> Result<QueryParts, QueryError> {
    match sk {
        None => Err(QueryError::NoSortKeyDefined),
        Some(k) => match sort_key_reading(k, ske, strict) {
            Ok((st, e)) => Ok(
                (pk_expr + " AND "@ + e, names + names_with_refs(st), vals + values_with_refs(st)),
            ),
            Err(e) => Err(QueryError::InvalidSortKeyOption(e)),
        },
    }
}

/// The model of Query parameters made with a sort key condition.
pub open spec fn query_params_view(p: GeneratedQueryParams) -> Option<QueryParts> {
    match (p.exp, p.names, p.vals) {
        (Some(e), Some(n), Some(v)) => Some((e@, text_pairs(n@), pairs_view(v@))),
        _ => None,
    }
}

/// Whether `r` is what `expected` says, Query parameters or the error.
pub open spec fn query_ended_as(
    r: Result<GeneratedQueryParams, DyneinQueryParamsError>,
    expected: Result<QueryParts, QueryError>,
) -> bool {
    match r {
        Ok(p) => expected matches Ok(x) && query_params_view(p) == Some(x),
        Err(e) => expected == Err::<QueryParts, QueryError>(query_error_view(e)),
    }
}

fn push_text_pair(v: &mut Vec<(String, String)>, a: &str, b: String)
    ensures
        text_pairs(final(v)@) == text_pairs(old(v)@).push((a@, b@)),
{
    let ghost before = v@;
    v.push((String::from_str(a), b));
    assert(text_pairs(v@) =~= text_pairs(before).push((a@, b@)));
}

fn push_value_pair(v: &mut Vec<(String, AttrVal)>, a: &str, x: AttrVal)
    ensures
        pairs_view(final(v)@) == pairs_view(old(v)@).push((a@, x@)),
{
    let ghost before = v@;
    let k = String::from_str(a);
    proof {
        crate::views::lemma_pairs_view_push(before, (k, x));
    }
    v.push((k, x));
}

/// Appends the sort key condition `sort_key_expression`, such as `= 12`, `<=12`,
/// `between 1 and 9`, `between a z` or `begins_with abc`, to the partition key
/// condition, and the names and values that it uses to `names` and `vals`. The
/// condition is read by the sort key grammar, in strict mode where
/// `should_strict_for_query` is set.
pub fn append_sort_key_expression(
    sort_key: Option<Key>,
    partition_key_expression: &str,
    sort_key_expression: &str,
    names: Vec<(String, String)>,
    vals: Vec<(String, AttrVal)>,
    should_strict_for_query: bool,
) -> (r: Result<GeneratedQueryParams, DyneinQueryParamsError>)
    ensures
        query_ended_as(
            r,
            append_outcome(
                sort_key,
                partition_key_expression@,
                sort_key_expression@,
                text_pairs(names@),
                pairs_view(vals@),
                should_strict_for_query,
            ),
        ),
{
    let sk = match sort_key {
        Some(sk) => sk,
        None => {
            return Err(DyneinQueryParamsError::NoSortKeyDefined);
        },
    };
    let mut names = names;
    let mut vals = vals;
    let ghost names0 = names@;
    let ghost vals0 = vals@;
    let mut built = String::from_str(partition_key_expression);
    push_str(&mut built, " AND ");
    let sort_attr = AttributeDefinition::new(sk.name.as_str(), sk.kind.attribute_type());
    let mut parser = DyneinParser::new();
    let parsed = if should_strict_for_query {
        parser.parse_sort_key_with_suggest(sort_key_expression, &sort_attr)
    } else {
        parser.parse_sort_key_with_fallback(sort_key_expression, &sort_attr)
    };
    match parsed {
        Ok(res) => {
            let e = res.get_expression();
            push_str(&mut built, e.as_str());
            let mut more_names = res.get_names();
            let mut more_vals = res.get_values();
            assert(text_pairs(more_names@) =~= names_with_refs(res@.1));
            proof {
                crate::views::lemma_pairs_view(more_vals@);
            }
            assert(pairs_view(more_vals@) =~= values_with_refs(res@.1));
            proof {
                crate::views::lemma_pairs_view_append(vals0, more_vals@);
            }
            assert(text_pairs(names0 + more_names@) =~= text_pairs(names0) + text_pairs(more_names@));
            names.append(&mut more_names);
            vals.append(&mut more_vals);
            Ok(GeneratedQueryParams { exp: Some(built), names: Some(names), vals: Some(vals) })
        },
        Err(e) => Err(DyneinQueryParamsError::InvalidSortKeyOption(e)),
    }
}

/// The index of the first index of `idxs` named `name`, or -1.
pub open spec fn index_position(idxs: Seq<IndexSchema>, name: Seq<char>) -> int
    decreases idxs.len(),
{
    if idxs.len() == 0 {
        -1
    } else if index_position(idxs.drop_last(), name) >= 0 {
        index_position(idxs.drop_last(), name)
    } else if idxs.last().name@ == name {
        idxs.len() - 1
    } else {
        -1
    }
}

/// The index of the table that a Query targets, `None` for the table itself: the
/// position of the named index, or -1 when the table has no such index.
pub open spec fn target_index(ts: TableSchema, index: Option<Seq<char>>) -> Option<int> {
    match index {
        None => None,
        Some(name) => match ts.indexes {
            Some(xs) => Some(index_position(xs@, name)),
            None => Some(-1),
        },
    }
}

/// The keys that a Query targets: those of the table, or of the named index.
pub open spec fn target_keys(ts: TableSchema, index: Option<Seq<char>>) -> (Key, Option<Key>) {
    match target_index(ts, index) {
        Some(k) if k >= 0 => (ts.indexes.unwrap()@[k].pk, ts.indexes.unwrap()@[k].sk),
        _ => (ts.pk, ts.sk),
    }
}

/// Whether the partition key value of a Query can be written: the key that it targets
/// is not of type `B` (a missing index is reported as an error instead).
pub open spec fn query_input_ok(ts: TableSchema, index: Option<Seq<char>>) -> bool {
    match target_index(ts, index) {
        Some(k) if k < 0 => true,
        _ => target_keys(ts, index).0.kind != KeyType::B,
    }
}

/// The Query parameters for the partition key value `pval`, on the table or one of its
/// indexes, with an optional sort key condition.
pub open spec fn query_outcome(
    ts: TableSchema,
    pval: Seq<char>,
    ske: Option<Seq<char>>,
    index: Option<Seq<char>>,
    strict: bool,
) -> Result<QueryParts, QueryError> {
    if target_index(ts, index) matches Some(k) && k < 0 {
        Err(QueryError::NoSuchIndex(index.unwrap(), ts.name@))
    } else {
        let (pk, sk) = target_keys(ts, index);
        let exp = "#DYNEIN_PKNAME = :DYNEIN_PKVAL"@;
        let names = seq![("#DYNEIN_PKNAME"@, pk.name@)];
        let vals = seq![(":DYNEIN_PKVAL"@, scalar_of(kind_text(pk.kind), pval))];
        match ske {
            None => Ok((exp, names, vals)),
            Some(s) => append_outcome(sk, exp, s, names, vals, strict),
        }
    }
}

fn copy_opt_key(k: &Option<Key>) -> (r: Option<Key>)
    ensures
        match (k, r) {
            (Some(a), Some(b)) => a.name@ == b.name@ && a.kind == b.kind,
            (None, None) => true,
            _ => false,
        },
{
    match k {
        Some(x) => Some(x.copy()),
        None => None,
    }
}

proof fn lemma_key_placeholders_differ(i: int)
    requires
        0 <= i,
    ensures
        "#DYNEIN_PKNAME"@ != name_ref_text(i),
        ":DYNEIN_PKVAL"@ != value_ref_text(i),
{
    reveal_strlit("#DYNEIN_PKNAME");
    reveal_strlit(":DYNEIN_PKVAL");
    reveal_strlit("#DYNEIN_ATTRNAME");
    reveal_strlit(":DYNEIN_ATTRVAL");
    assert(name_ref_text(i)[8] == 'A');
    assert("#DYNEIN_PKNAME"@[8] == 'P');
    assert(value_ref_text(i)[8] == 'A');
    assert(":DYNEIN_PKVAL"@[8] == 'P');
}

/// The references of a context, put after a key placeholder, stay distinct.
proof fn lemma_refs_after_key_distinct<V>(first: (Seq<char>, V), refs: Seq<(Seq<char>, V)>, names: bool)
    requires
        forall|i: int| 0 <= i < refs.len() ==> #[trigger] refs[i].0 == if names {
            name_ref_text(i)
        } else {
            value_ref_text(i)
        },
        first.0 == if names {
            "#DYNEIN_PKNAME"@
        } else {
            ":DYNEIN_PKVAL"@
        },
    ensures
        keys_distinct(seq![first] + refs),
{
    let all = seq![first] + refs;
    assert forall|i: int, j: int| 0 <= i < j < all.len() implies all[i].0 != all[j].0 by {
        assert(all[j] == refs[j - 1]);
        if i == 0 {
            lemma_key_placeholders_differ(j - 1);
        } else {
            assert(all[i] == refs[i - 1]);
            law_references_distinct(i - 1, j - 1);
        }
    }
}

/// The placeholders of a Query call are distinct: no name placeholder and no value
/// placeholder occurs twice.
pub proof fn law_query_placeholders_distinct(
    ts: TableSchema,
    pval: Seq<char>,
    ske: Option<Seq<char>>,
    index: Option<Seq<char>>,
    strict: bool,
)
    ensures
        query_outcome(ts, pval, ske, index, strict) matches Ok(p) ==> keys_distinct(p.1) && keys_distinct(p.2),
{
    let r = query_outcome(ts, pval, ske, index, strict);
    if r is Ok {
        let p = r->Ok_0;
        let (pk, sk) = target_keys(ts, index);
        let n0 = ("#DYNEIN_PKNAME"@, pk.name@);
        let v0 = (":DYNEIN_PKVAL"@, scalar_of(kind_text(pk.kind), pval));
        match ske {
            None => {},
            Some(s) => {
                let st = sort_key_reading(sk.unwrap(), s, strict)->Ok_0.0;
                lemma_refs_after_key_distinct(n0, names_with_refs(st), true);
                lemma_refs_after_key_distinct(v0, values_with_refs(st), false);
                assert(seq![n0] + names_with_refs(st) == p.1);
                assert(seq![v0] + values_with_refs(st) == p.2);
            },
        }
    }
}

/// The names and the values of an update action each have distinct placeholders.
pub proof fn law_update_placeholders_distinct(action_type: UpdateActionType, exp: Seq<char>)
    ensures
        update_outcome(action_type, exp) matches Ok((st, e)) ==> keys_distinct(names_with_refs(st))
            && keys_distinct(values_with_refs(st)),
{
    let r = update_outcome(action_type, exp);
    if r is Ok {
        let st = r->Ok_0.0;
        assert forall|i: int, j: int| 0 <= i < j < names_with_refs(st).len() implies names_with_refs(st)[i].0
            != names_with_refs(st)[j].0 by {
            law_references_distinct(i, j);
        }
        assert forall|i: int, j: int| 0 <= i < j < values_with_refs(st).len() implies values_with_refs(st)[i].0
            != values_with_refs(st)[j].0 by {
            law_references_distinct(i, j);
        }
    }
}

/// The parameters of a Query call for the partition key value `pval`, on the table or
/// on the index named `index`, with the sort key condition if one is given.
pub fn generate_query_expressions(
    ts: &TableSchema,
    pval: &str,
    sort_key_expression: &Option<String>,
    index: &Option<String>,
    should_strict_for_query: bool,
) -> (r: Result<GeneratedQueryParams, DyneinQueryParamsError>)
    requires
        query_input_ok(*ts, opt_text(*index)),
    ensures
        query_ended_as(
            r,
            query_outcome(
                *ts,
                pval@,
                opt_text(*sort_key_expression),
                opt_text(*index),
                should_strict_for_query,
            ),
        ),
{
    let expression = String::from_str("#DYNEIN_PKNAME = :DYNEIN_PKVAL");
    let mut names: Vec<(String, String)> = Vec::new();
    let mut vals: Vec<(String, AttrVal)> = Vec::new();
    let ghost ix = opt_text(*index);
    let (pk, sk): (&Key, Option<Key>) = match index {
        None => (&ts.pk, copy_opt_key(&ts.sk)),
        Some(idx) => {
            let found = match &ts.indexes {
                Some(table_indexes) => {
                    let mut i: usize = 0;
                    let mut found: Option<usize> = None;
                    assert(table_indexes@.take(0) =~= Seq::<IndexSchema>::empty());
                    while i < table_indexes.len()
                        invariant_except_break
                            found is None,
                        invariant
                            i <= table_indexes.len(),
                            index_position(table_indexes@.take(i as int), idx@) == -1,
                        ensures
                            match found {
                                Some(k) => k < table_indexes.len() && k == index_position(
                                    table_indexes@,
                                    idx@,
                                ),
                                None => i == table_indexes.len(),
                            },
                        decreases table_indexes.len() - i,
                    {
                        assert(table_indexes@.take(i + 1).drop_last() =~= table_indexes@.take(
                            i as int,
                        ));
                        if table_indexes[i].name == *idx {
                            proof {
                                lemma_index_position_prefix(table_indexes@, idx@, i + 1);
                            }
                            found = Some(i);
                            break;
                        }
                        i = i + 1;
                    }
                    proof {
                        if found is None {
                            assert(table_indexes@.take(table_indexes.len() as int)
                                =~= table_indexes@);
                        }
                    }
                    match found {
                        Some(k) => Some(&table_indexes[k]),
                        None => None,
                    }
                },
                None => None,
            };
            match found {
                Some(x) => (&x.pk, copy_opt_key(&x.sk)),
                None => {
                    return Err(DyneinQueryParamsError::NoSuchIndex(idx.clone(), ts.name.clone()));
                },
            }
        },
    };
    let ghost keys = target_keys(*ts, ix);
    assert(pk.name@ == keys.0.name@ && pk.kind == keys.0.kind);
    push_text_pair(&mut names, "#DYNEIN_PKNAME", pk.name.clone());
    let pk_type = pk.kind.to_string();
    let v = build_attrval_scalar(pk_type.as_str(), pval);
    push_value_pair(&mut vals, ":DYNEIN_PKVAL", v);
    assert(text_pairs(names@) =~= seq![("#DYNEIN_PKNAME"@, pk.name@)]);
    assert(pairs_view(vals@) =~= seq![(":DYNEIN_PKVAL"@, scalar_of(kind_text(pk.kind), pval@))]);
    match sort_key_expression {
        None => Ok(GeneratedQueryParams { exp: Some(expression), names: Some(names), vals: Some(vals) }),
        Some(ske) => {
            append_sort_key_expression(
                sk,
                expression.as_str(),
                ske.as_str(),
                names,
                vals,
                should_strict_for_query,
            )
        },
    }
}

proof fn lemma_index_position_prefix(idxs: Seq<IndexSchema>, name: Seq<char>, i: int)
    requires
        0 < i <= idxs.len(),
        index_position(idxs.take(i - 1), name) == -1,
        idxs[i - 1].name@ == name,
    ensures
        index_position(idxs, name) == i - 1,
    decreases idxs.len() - i,
{
    assert(idxs.take(i).drop_last() =~= idxs.take(i - 1));
    lemma_index_position_up(idxs, name, i);
}

proof fn lemma_index_position_up(idxs: Seq<IndexSchema>, name: Seq<char>, i: int)
    requires
        0 <= i <= idxs.len(),
        index_position(idxs.take(i), name) >= 0,
    ensures
        index_position(idxs, name) == index_position(idxs.take(i), name),
    decreases idxs.len() - i,
{
    if i < idxs.len() {
        assert(idxs.take(i + 1).drop_last() =~= idxs.take(i));
        lemma_index_position_up(idxs, name, i + 1);
    } else {
        assert(idxs.take(i) =~= idxs);
    }
}

/// The position of the index named `name`.
fn find_index(idxs: &Vec<IndexSchema>, name: &String) -> (r: Option<usize>)
    ensures
        match r {
            Some(k) => k < idxs.len() && k == index_position(idxs@, name@),
            None => index_position(idxs@, name@) == -1,
        },
{
    let mut i: usize = 0;
    assert(idxs@.take(0) =~= Seq::<IndexSchema>::empty());
    while i < idxs.len()
        invariant
            i <= idxs.len(),
            index_position(idxs@.take(i as int), name@) == -1,
        decreases idxs.len() - i,
    {
        assert(idxs@.take(i + 1).drop_last() =~= idxs@.take(i as int));
        if idxs[i].name == *name {
            proof {
                lemma_index_position_prefix(idxs@, name@, i + 1);
            }
            return Some(i);
        }
        i = i + 1;
    }
    assert(idxs@.take(idxs.len() as int) =~= idxs@);
    None
}

/// Whether making the parameters of a Query goes through (see [`query_input_ok`]).
pub fn query_input_valid(ts: &TableSchema, index: &Option<String>) -> (b: bool)
    ensures
        b == query_input_ok(*ts, opt_text(*index)),
{
    let found: Option<&IndexSchema> = match index {
        None => None,
        Some(idx) => match &ts.indexes {
            Some(xs) => match find_index(xs, idx) {
                Some(k) => Some(&xs[k]),
                None => {
                    return true;
                },
            },
            None => {
                return true;
            },
        },
    };
    let pk: &Key = match found {
        Some(x) => &x.pk,
        None => &ts.pk,
    };
    match pk.kind {
        KeyType::B => false,
        _ => true,
    }
}

/// The projected attributes from `j` on: the key attributes are already there, and each
/// other attribute gets the next name reference.
pub open spec fn scan_attrs_from(
    attrs: Seq<Seq<char>>,
    j: int,
    count: int,
    ret: Seq<Seq<char>>,
    names: Seq<(Seq<char>, Seq<char>)>,
    pk: Seq<char>,
    sk: Option<Seq<char>>,
) -> (Seq<Seq<char>>, Seq<(Seq<char>, Seq<char>)>)
    decreases attrs.len() - j,
{
    if j < 0 || j >= attrs.len() {
        (ret, names)
    } else {
        let a = attrs[j];
        if a == pk || (sk matches Some(s) && a == s) {
            scan_attrs_from(attrs, j + 1, count, ret, names, pk, sk)
        } else {
            let ph = name_ref_text(count);
            scan_attrs_from(attrs, j + 1, count + 1, ret.push(ph), names.push((ph, a)), pk, sk)
        }
    }
}

/// The attributes asked for by `--attributes`: the names between commas, trimmed.
pub open spec fn scan_asked(attributes: Seq<char>) -> Seq<Seq<char>> {
    split_on(attributes, ',').map_values(|a: Seq<char>| trimmed(a))
}

/// The key name of a table's sort key, if it has one.
pub open spec fn sk_name(ts: TableSchema) -> Option<Seq<char>> {
    match ts.sk {
        Some(k) => Some(k.name@),
        None => None,
    }
}

/// The projection of a Scan: none by default; the keys, and the attributes given as
/// `a, b, c` unless only keys are asked for.
pub open spec fn scan_outcome(ts: TableSchema, attributes: Option<Seq<char>>, keys_only: bool) -> (
    Option<Seq<char>>,
    Option<Seq<(Seq<char>, Seq<char>)>>,
) {
    if !keys_only && attributes is None {
        (None, None)
    } else {
        let ret0 = match ts.sk {
            Some(_) => seq!["#DYNEIN_PKNAME"@, "#DYNEIN_SKNAME"@],
            None => seq!["#DYNEIN_PKNAME"@],
        };
        let names0 = match ts.sk {
            Some(k) => seq![("#DYNEIN_PKNAME"@, ts.pk.name@), ("#DYNEIN_SKNAME"@, k.name@)],
            None => seq![("#DYNEIN_PKNAME"@, ts.pk.name@)],
        };
        let (ret, names) = if keys_only {
            (ret0, names0)
        } else {
            scan_attrs_from(
                scan_asked(attributes.unwrap()),
                0,
                0,
                ret0,
                names0,
                ts.pk.name@,
                sk_name(ts),
            )
        };
        (Some(comma_joined(ret)), Some(names))
    }
}

/// The projection expression and names of a Scan.
pub fn generate_scan_expressions(ts: &TableSchema, attributes: &Option<String>, keys_only: bool) -> (r:
    GeneratedScanParams)
    ensures
        scan_outcome(*ts, opt_text(*attributes), keys_only) == (
            match r.exp {
                Some(e) => Some(e@),
                None => None,
            },
            match r.names {
                Some(n) => Some(text_pairs(n@)),
                None => None,
            },
        ),
{
    if !keys_only && attributes.is_none() {
        return GeneratedScanParams { exp: None, names: None };
    }
    let mut names: Vec<(String, String)> = Vec::new();
    let mut returning_attributes: Vec<String> = Vec::new();
    push_text_pair(&mut names, "#DYNEIN_PKNAME", ts.pk.name.clone());
    returning_attributes.push(String::from_str("#DYNEIN_PKNAME"));
    if let Some(sk) = &ts.sk {
        returning_attributes.push(String::from_str("#DYNEIN_SKNAME"));
        push_text_pair(&mut names, "#DYNEIN_SKNAME", sk.name.clone());
    }
    assert(strings_view(returning_attributes@) =~= match ts.sk {
        Some(_) => seq!["#DYNEIN_PKNAME"@, "#DYNEIN_SKNAME"@],
        None => seq!["#DYNEIN_PKNAME"@],
    });
    assert(text_pairs(names@) =~= match ts.sk {
        Some(k) => seq![("#DYNEIN_PKNAME"@, ts.pk.name@), ("#DYNEIN_SKNAME"@, k.name@)],
        None => seq![("#DYNEIN_PKNAME"@, ts.pk.name@)],
    });
    if !keys_only {
        if let Some(given) = attributes {
            let pieces = split_str(given.as_str(), ',');
            let ghost attrs = split_on(given@, ',').map_values(|a: Seq<char>| trimmed(a));
            let ghost target = scan_attrs_from(
                attrs,
                0,
                0,
                strings_view(returning_attributes@),
                text_pairs(names@),
                ts.pk.name@,
                sk_name(*ts),
            );
            let mut i: usize = 0;
            let mut j: usize = 0;
            assert(pieces@.map_values(|t: String| t@).len() == pieces.len());
            while j < pieces.len()
                invariant
                    j <= pieces.len(),
                    i <= j,
                    attrs.len() == pieces.len(),
                    forall|k: int| 0 <= k < pieces.len() ==> #[trigger] attrs[k] == trimmed(pieces@[k]@),
                    target == scan_attrs_from(
                        attrs,
                        j as int,
                        i as int,
                        strings_view(returning_attributes@),
                        text_pairs(names@),
                        ts.pk.name@,
                        sk_name(*ts),
                    ),
                decreases pieces.len() - j,
            {
                assert(pieces@.map_values(|t: String| t@)[j as int] == pieces@[j as int]@);
                let attr = trim_str(pieces[j].as_str());
                assert(attr@ == attrs[j as int]);
                let is_key = attr == ts.pk.name || match &ts.sk {
                    Some(sk) => attr == sk.name,
                    None => false,
                };
                if !is_key {
                    let placeholder = attr_name_ref(i);
                    let ghost ph = placeholder@;
                    let ghost before = strings_view(returning_attributes@);
                    returning_attributes.push(placeholder.clone());
                    assert(strings_view(returning_attributes@) =~= before.push(ph));
                    let ghost nb = text_pairs(names@);
                    names.push((placeholder, attr));
                    assert(text_pairs(names@) =~= nb.push((ph, attrs[j as int])));
                    i = i + 1;
                }
                j = j + 1;
            }
        }
    }
    let expression = crate::display::format_array_elements(&returning_attributes);
    GeneratedScanParams { exp: Some(expression), names: Some(names) }
}

/// The names of a parser context, each with its reference.
pub open spec fn names_with_refs(st: ParserState) -> Seq<(Seq<char>, Seq<char>)> {
    Seq::new(st.names.len(), |i: int| (name_ref_text(i), st.names[i]))
}

/// The values of a parser context, each with its reference.
pub open spec fn values_with_refs(st: ParserState) -> Seq<(Seq<char>, AttrValSpec)> {
    Seq::new(st.values.len(), |i: int| (value_ref_text(i), st.values[i]))
}

/// What parsing an update action with a new parser gives: the context and the
/// expression, or the error.
pub open spec fn update_outcome(action_type: UpdateActionType, exp: Seq<char>) -> Result<
    (ParserState, Seq<char>),
    crate::error::ParseErrorSpec,
> {
    let st = ParserState { names: Seq::empty(), values: Seq::empty() };
    match action_type {
        UpdateActionType::SetAction => set_action_outcome(st, exp),
        UpdateActionType::RemoveAction => remove_action_outcome(st, exp),
    }
}

/// The UpdateItem parameters of a `--set` or `--remove` action: the expression starts
/// with `SET ` or `REMOVE `; names and values are left out when there are none.
pub fn generate_update_expressions(action_type: UpdateActionType, given_expression: &str) -> (r:
    Result<GeneratedUpdateParams, ParseError>)
    ensures
        match r {
            Ok(p) => update_outcome(action_type, given_expression@) matches Ok((st, e)) && {
                &&& p.exp matches Some(x) && x@ == match action_type {
                    UpdateActionType::SetAction => "SET "@,
                    UpdateActionType::RemoveAction => "REMOVE "@,
                } + e
                &&& st.names.len() == 0 ==> p.names is None
                &&& st.names.len() > 0 ==> (p.names matches Some(n) && text_pairs(n@)
                    == names_with_refs(st))
                &&& st.values.len() == 0 ==> p.vals is None
                &&& st.values.len() > 0 ==> (p.vals matches Some(v) && pairs_view(v@)
                    == values_with_refs(st))
            },
            Err(e) => update_outcome(action_type, given_expression@) == Err::<
                (ParserState, Seq<char>),
                crate::error::ParseErrorSpec,
            >(e@),
        },
{
    let mut parser = DyneinParser::new();
    let mut expression = match action_type {
        UpdateActionType::SetAction => String::from_str("SET "),
        UpdateActionType::RemoveAction => String::from_str("REMOVE "),
    };
    let result = match action_type {
        UpdateActionType::SetAction => parser.parse_set_action(given_expression),
        UpdateActionType::RemoveAction => parser.parse_remove_action(given_expression),
    };
    let result = match result {
        Ok(x) => x,
        Err(e) => {
            return Err(e);
        },
    };
    push_str(&mut expression, result.get_expression().as_str());
    let names = result.get_names();
    let vals = result.get_values();
    assert(text_pairs(names@) =~= names_with_refs(result@.1));
    assert(pairs_view(vals@) =~= values_with_refs(result@.1)) by {
        crate::views::lemma_pairs_view(vals@);
    }
    Ok(
        GeneratedUpdateParams {
            exp: Some(expression),
            names: if names.len() == 0 {
                None
            } else {
                Some(names)
            },
            vals: if vals.len() == 0 {
                None
            } else {
                Some(vals)
            },
        },
    )
}

/// A JSON number, by its text.
#[derive(Debug, Clone, PartialEq, Eq)]
pub struct JsonNumber {
    pub repr: String,
}

/// A JSON value.
#[derive(Debug, PartialEq, Eq)]
pub enum JsonValue {
    Null,
    Bool(bool),
    Number(JsonNumber),
    String(String),
    Array(Vec<JsonValue>),
    Object(Vec<(String, JsonValue)>),
}

pub open spec fn is_json_string(v: JsonValue) -> bool {
    v is String
}

pub open spec fn is_json_number(v: JsonValue) -> bool {
    v is Number
}

/// The attribute value of a JSON value: arrays are lists, unless set inference is on
/// and all elements are strings (a string set) or all are numbers (a number set).
pub open spec fn json_to_attr(jv: JsonValue, inference: bool) -> AttrValSpec
    decreases jv, 0int,
{
    match jv {
        JsonValue::String(s) => AttrValSpec::S(s@),
        JsonValue::Number(n) => AttrValSpec::N(n.repr@),
        JsonValue::Bool(b) => AttrValSpec::Bool(b),
        JsonValue::Null => AttrValSpec::Null(true),
        JsonValue::Object(obj) => AttrValSpec::M(json_entries(obj@, inference)),
        JsonValue::Array(v) => if inference && forall|i: int|
            0 <= i < v.len() ==> is_json_string(#[trigger] v@[i]) {
            AttrValSpec::SS(v@.map_values(|x: JsonValue| x->String_0@))
        } else if inference && forall|i: int| 0 <= i < v.len() ==> is_json_number(#[trigger] v@[i]) {
            AttrValSpec::NS(v@.map_values(|x: JsonValue| x->Number_0.repr@))
        } else {
            AttrValSpec::L(json_items(v@, inference))
        },
    }
}

/// The attribute values of JSON array elements.
pub open spec fn json_items(v: Seq<JsonValue>, inference: bool) -> Seq<AttrValSpec>
    decreases v, v.len(),
{
    if v.len() == 0 {
        Seq::empty()
    } else {
        json_items(v.drop_last(), inference).push(json_to_attr(v.last(), inference))
    }
}

/// The map of JSON object entries: each entry is put in turn.
pub open spec fn json_entries(obj: Seq<(String, JsonValue)>, inference: bool) -> Seq<
    (Seq<char>, AttrValSpec),
>
    decreases obj, obj.len(),
{
    if obj.len() == 0 {
        Seq::empty()
    } else {
        map_put(
            json_entries(obj.drop_last(), inference),
            obj.last().0@,
            json_to_attr(obj.last().1, inference),
        )
    }
}

pub(crate) proof fn lemma_json_keyed_once(jv: JsonValue, inference: bool)
    ensures
        maps_keyed_once(json_to_attr(jv, inference)),
    decreases jv, 0int,
{
    match jv {
        JsonValue::Object(obj) => {
            lemma_entries_keyed_once(obj@, inference);
        },
        JsonValue::Array(v) => {
            lemma_items_keyed_once(v@, inference);
        },
        _ => {},
    }
}

proof fn lemma_items_keyed_once(v: Seq<JsonValue>, inference: bool)
    ensures
        forall|i: int| 0 <= i < v.len() ==> maps_keyed_once(#[trigger] json_items(v, inference)[i]),
        json_items(v, inference).len() == v.len(),
    decreases v, v.len(),
{
    if v.len() > 0 {
        lemma_items_keyed_once(v.drop_last(), inference);
        lemma_json_keyed_once(v.last(), inference);
    }
}

pub(crate) proof fn lemma_entries_keyed_once(obj: Seq<(String, JsonValue)>, inference: bool)
    ensures
        maps_keyed_once(AttrValSpec::M(json_entries(obj, inference))),
    decreases obj, obj.len(),
{
    if obj.len() > 0 {
        lemma_entries_keyed_once(obj.drop_last(), inference);
        lemma_json_keyed_once(obj.last().1, inference);
        lemma_map_put_keyed_once(
            json_entries(obj.drop_last(), inference),
            obj.last().0@,
            json_to_attr(obj.last().1, inference),
        );
    }
}

/// Converts a JSON value into an attribute value; with set inference, an array of
/// strings is a string set and an array of numbers a number set.
pub fn dispatch_jsonvalue_to_attrval(jv: &JsonValue, enable_set_inference: bool) -> (r: AttrVal)
    ensures
        r@ == json_to_attr(*jv, enable_set_inference),
        maps_keyed_once(r@),
    decreases jv,
{
    proof {
        lemma_json_keyed_once(*jv, enable_set_inference);
    }
    match jv {
        JsonValue::String(val) => AttrVal::S(val.clone()),
        JsonValue::Number(val) => AttrVal::N(val.repr.clone()),
        JsonValue::Bool(val) => AttrVal::Bool(*val),
        JsonValue::Null => AttrVal::Null(true),
        JsonValue::Object(obj) => {
            let mut mapval: Vec<(String, AttrVal)> = Vec::new();
            let mut i: usize = 0;
            while i < obj.len()
                invariant
                    i <= obj.len(),
                    *jv == JsonValue::Object(*obj),
                    pairs_view(mapval@) == json_entries(obj@.take(i as int), enable_set_inference),
                decreases obj.len() - i,
            {
                proof {
                    assert(decreases_to!(*jv => jv->Object_0));
                    assert(decreases_to!(jv->Object_0 => obj@));
                    assert(decreases_to!(obj@ => obj@[i as int]));
                    assert(decreases_to!(obj@[i as int] => obj@[i as int].1));
                    assert(obj@.take(i + 1).drop_last() =~= obj@.take(i as int));
                }
                let v = dispatch_jsonvalue_to_attrval(&obj[i].1, enable_set_inference);
                map_put_x(&mut mapval, obj[i].0.clone(), v);
                i = i + 1;
            }
            assert(obj@.take(obj.len() as int) =~= obj@);
            AttrVal::M(mapval)
        },
        JsonValue::Array(vec) => {
            let mut all_strings = true;
            let mut all_numbers = true;
            let mut i: usize = 0;
            while i < vec.len()
                invariant
                    i <= vec.len(),
                    all_strings == forall|k: int| 0 <= k < i ==> is_json_string(#[trigger] vec@[k]),
                    all_numbers == forall|k: int| 0 <= k < i ==> is_json_number(#[trigger] vec@[k]),
                decreases vec.len() - i,
            {
                match &vec[i] {
                    JsonValue::String(_) => {
                        all_numbers = false;
                    },
                    JsonValue::Number(_) => {
                        all_strings = false;
                    },
                    _ => {
                        all_strings = false;
                        all_numbers = false;
                    },
                }
                i = i + 1;
            }
            if enable_set_inference && all_strings {
                let mut ss: Vec<String> = Vec::new();
                let mut k: usize = 0;
                while k < vec.len()
                    invariant
                        k <= vec.len(),
                        ss.len() == k,
                        forall|m: int| 0 <= m < vec.len() ==> is_json_string(#[trigger] vec@[m]),
                        forall|m: int| 0 <= m < k ==> #[trigger] ss@[m]@ == vec@[m]->String_0@,
                    decreases vec.len() - k,
                {
                    match &vec[k] {
                        JsonValue::String(s) => {
                            ss.push(s.clone());
                        },
                        _ => {
                            assert(is_json_string(vec@[k as int]));
                        },
                    }
                    k = k + 1;
                }
                assert(strings_view(ss@) =~= vec@.map_values(|x: JsonValue| x->String_0@));
                AttrVal::SS(ss)
            } else if enable_set_inference && all_numbers {
                let mut ns: Vec<String> = Vec::new();
                let mut k: usize = 0;
                while k < vec.len()
                    invariant
                        k <= vec.len(),
                        ns.len() == k,
                        forall|m: int| 0 <= m < vec.len() ==> is_json_number(#[trigger] vec@[m]),
                        forall|m: int| 0 <= m < k ==> #[trigger] ns@[m]@ == vec@[m]->Number_0.repr@,
                    decreases vec.len() - k,
                {
                    match &vec[k] {
                        JsonValue::Number(n) => {
                            ns.push(n.repr.clone());
                        },
                        _ => {
                            assert(is_json_number(vec@[k as int]));
                        },
                    }
                    k = k + 1;
                }
                assert(strings_view(ns@) =~= vec@.map_values(|x: JsonValue| x->Number_0.repr@));
                AttrVal::NS(ns)
            } else {
                let mut items: Vec<AttrVal> = Vec::new();
                let mut k: usize = 0;
                while k < vec.len()
                    invariant
                        k <= vec.len(),
                        *jv == JsonValue::Array(*vec),
                        attrs_view(items@) == json_items(vec@.take(k as int), enable_set_inference),
                    decreases vec.len() - k,
                {
                    proof {
                        assert(decreases_to!(*jv => jv->Array_0));
                        assert(decreases_to!(jv->Array_0 => vec@));
                        assert(decreases_to!(vec@ => vec@[k as int]));
                        assert(vec@.take(k + 1).drop_last() =~= vec@.take(k as int));
                    }
                    let x = dispatch_jsonvalue_to_attrval(&vec[k], enable_set_inference);
                    proof {
                        crate::views::lemma_attrs_view_push(items@, x);
                    }
                    items.push(x);
                    k = k + 1;
                }
                assert(vec@.take(vec.len() as int) =~= vec@);
                AttrVal::L(items)
            }
        },
    }
}

/// The name of the type of an attribute value.
pub open spec fn type_label(v: AttrValSpec) -> Seq<char> {
    match v {
        AttrValSpec::S(_) => "String"@,
        AttrValSpec::N(_) => "Number"@,
        AttrValSpec::B(_) => "Binary"@,
        AttrValSpec::Bool(_) => "Boolian"@,
        AttrValSpec::Null(_) => "Null"@,
        AttrValSpec::SS(_) => "Set (String)"@,
        AttrValSpec::NS(_) => "Set (Number)"@,
        AttrValSpec::BS(_) => "Set (Binary)"@,
        AttrValSpec::M(_) => "Map"@,
        AttrValSpec::L(_) => "List"@,
    }
}

/// The name of the type of an attribute value.
pub fn attrval_to_type(attrval: &AttrVal) -> (r: Option<String>)
    ensures
        r matches Some(t) && t@ == type_label(attrval@),
{
    Some(
        match attrval {
            AttrVal::S(_) => String::from_str("String"),
            AttrVal::N(_) => String::from_str("Number"),
            AttrVal::B(_) => String::from_str("Binary"),
            AttrVal::Bool(_) => String::from_str("Boolian"),
            AttrVal::Null(_) => String::from_str("Null"),
            AttrVal::SS(_) => String::from_str("Set (String)"),
            AttrVal::NS(_) => String::from_str("Set (Number)"),
            AttrVal::BS(_) => String::from_str("Set (Binary)"),
            AttrVal::M(_) => String::from_str("Map"),
            AttrVal::L(_) => String::from_str("List"),
        },
    )
}


/// The header of the table that Scan and Query results are shown in: the key names, then,
/// unless only keys are shown, the selected attributes as given (split at commas) or a
/// single column `attributes`.
pub open spec fn items_table_header_spec(ts: TableSchema, selected: Option<Seq<char>>, keys_only: bool) -> Seq<
    Seq<char>,
> {
    let keys = match ts.sk {
        Some(sk) => seq![ts.pk.name@, sk.name@],
        None => seq![ts.pk.name@],
    };
    if keys_only {
        keys
    } else {
        match selected {
            Some(a) => keys + split_on(a, ','),
            None => keys.push("attributes"@),
        }
    }
}

/// The column names of the table that Scan and Query results are shown in.
pub fn items_table_header(ts: &TableSchema, selected_attributes: &Option<String>, keys_only: bool) -> (r: Vec<
    String,
>)
    ensures
        strings_view(r@) == items_table_header_spec(
            *ts,
            match selected_attributes {
                Some(a) => Some(a@),
                None => None,
            },
            keys_only,
        ),
{
    let mut header: Vec<String> = Vec::new();
    header.push(ts.pk.name.clone());
    if let Some(sk) = &ts.sk {
        header.push(sk.name.clone());
    }
    let ghost keys = strings_view(header@);
    if !keys_only {
        match selected_attributes {
            Some(attrs) => {
                let parts = split_str(attrs.as_str(), ',');
                let mut i: usize = 0;
                while i < parts.len()
                    invariant
                        i <= parts.len(),
                        strings_view(header@) == keys + strings_view(parts@.take(i as int)),
                    decreases parts.len() - i,
                {
                    let ghost before = header@;
                    header.push(parts[i].clone());
                    assert(strings_view(header@) =~= strings_view(before).push(parts@[i as int]@));
                    assert(strings_view(parts@.take(i + 1)) =~= strings_view(parts@.take(i as int)).push(
                        parts@[i as int]@,
                    ));
                    i = i + 1;
                }
                assert(parts@.take(parts.len() as int) =~= parts@);
                assert(strings_view(parts@) =~= parts@.map_values(|t: String| t@));
            },
            None => {
                let ghost before = header@;
                header.push(String::from_str("attributes"));
                assert(strings_view(header@) =~= strings_view(before).push("attributes"@));
            },
        }
    }
    header
}

/// How many characters of the attributes of an item a table cell shows.
pub const CELL_PREVIEW_LENGTH: usize = 50;

/// The text of a table cell: the text itself when it has at most 50 characters, else
/// its first 50 characters followed by `...`.
pub open spec fn cell_preview_text(full: Seq<char>) -> Seq<char> {
    if full.len() > CELL_PREVIEW_LENGTH {
        full.take(CELL_PREVIEW_LENGTH as int) + "..."@
    } else {
        full
    }
}

/// What a cell of a row of the items table shows.
#[derive(Debug, PartialEq, Eq)]
pub enum ItemCell {
    /// The value of an attribute, if the item has it.
    Value(Option<AttrVal>),
    /// The attributes of the item other than its keys.
    Rest(Vec<(String, AttrVal)>),
}

/// The model of an [`ItemCell`].
pub enum ItemCellSpec {
    Value(Option<AttrValSpec>),
    Rest(Seq<(Seq<char>, AttrValSpec)>),
}

pub open spec fn opt_attr_view(v: Option<AttrVal>) -> Option<AttrValSpec> {
    match v {
        Some(x) => Some(x@),
        None => None,
    }
}

pub open spec fn item_cell_view(c: ItemCell) -> ItemCellSpec {
    match c {
        ItemCell::Value(v) => ItemCellSpec::Value(opt_attr_view(v)),
        ItemCell::Rest(ps) => ItemCellSpec::Rest(pairs_view(ps@)),
    }
}

/// The first entry of `ps` for `k` taken out: its value, and the other entries.
pub open spec fn taken_out(ps: Seq<(Seq<char>, AttrValSpec)>, k: Seq<char>) -> (
    Option<AttrValSpec>,
    Seq<(Seq<char>, AttrValSpec)>,
) {
    let i = key_index(ps, k, 0);
    if 0 <= i < ps.len() {
        (Some(ps[i].1), ps.remove(i))
    } else {
        (None, ps)
    }
}

/// The cells of the row of `item` in the items table: the values of the keys, taken out
/// of the item; then, where attributes are left, the selected attributes (names split at
/// commas and trimmed) among them, or, unless only keys are shown, all of them together.
pub open spec fn items_table_row_spec(
    item: Seq<(Seq<char>, AttrValSpec)>,
    ts: TableSchema,
    selected: Option<Seq<char>>,
    keys_only: bool,
) -> Seq<ItemCellSpec> {
    let (x, r1) = taken_out(item, ts.pk.name@);
    let (keys, rest) = match ts.sk {
        Some(sk) => (
            seq![ItemCellSpec::Value(x), ItemCellSpec::Value(taken_out(r1, sk.name@).0)],
            taken_out(r1, sk.name@).1,
        ),
        None => (seq![ItemCellSpec::Value(x)], r1),
    };
    if rest.len() == 0 {
        keys
    } else {
        match selected {
            Some(a) => keys + split_on(a, ',').map_values(
                |n: Seq<char>| ItemCellSpec::Value(entry_value(rest, trimmed(n))),
            ),
            None => if keys_only {
                keys
            } else {
                keys.push(ItemCellSpec::Rest(rest))
            },
        }
    }
}

/// The position of the first entry of `item` for `name`.
fn entry_position(item: &Vec<(String, AttrVal)>, name: &str) -> (r: Option<usize>)
    ensures
        match r {
            Some(i) => i < item.len() && i == key_index(pairs_view(item@), name@, 0),
            None => key_index(pairs_view(item@), name@, 0) == -1,
        },
{
    let ghost pv = pairs_view(item@);
    proof {
        crate::views::lemma_pairs_view(item@);
    }
    let target = String::from_str(name);
    let mut i: usize = 0;
    while i < item.len()
        invariant
            i <= item.len(),
            target@ == name@,
            pv == pairs_view(item@),
            pv.len() == item.len(),
            forall|j: int| 0 <= j < item.len() ==> #[trigger] pv[j] == (item@[j].0@, attr_view(item@[j].1)),
            key_index(pv, name@, 0) == key_index(pv, name@, i as int),
        decreases item.len() - i,
    {
        if item[i].0 == target {
            return Some(i);
        }
        proof {
            crate::views::lemma_key_index_step(pv, name@, i as int);
        }
        i = i + 1;
    }
    None
}

/// Takes the first entry of `item` for `name` out of it, and gives its value.
fn take_attr(item: &mut Vec<(String, AttrVal)>, name: &str) -> (r: Option<AttrVal>)
    ensures
        (opt_attr_view(r), pairs_view(final(item)@)) == taken_out(pairs_view(old(item)@), name@),
{
    let ghost before = item@;
    match entry_position(item, name) {
        Some(i) => {
            let (_, v) = item.remove(i);
            proof {
                crate::views::lemma_pairs_view(before);
                crate::views::lemma_pairs_view(item@);
                assert(pairs_view(item@) =~= pairs_view(before).remove(i as int));
            }
            Some(v)
        },
        None => None,
    }
}

/// The cells of the row of `item` in the items table (see [`items_table_row_spec`]).
pub fn items_table_row(
    item: Vec<(String, AttrVal)>,
    ts: &TableSchema,
    selected_attributes: &Option<String>,
    keys_only: bool,
) -> (r: Vec<ItemCell>)
    ensures
        r@.map_values(|c: ItemCell| item_cell_view(c)) == items_table_row_spec(
            pairs_view(item@),
            *ts,
            opt_text(*selected_attributes),
            keys_only,
        ),
{
    let mut item = item;
    let mut cells: Vec<ItemCell> = Vec::new();
    let x = take_attr(&mut item, ts.pk.name.as_str());
    cells.push(ItemCell::Value(x));
    match &ts.sk {
        Some(sk) => {
            let y = take_attr(&mut item, sk.name.as_str());
            cells.push(ItemCell::Value(y));
        },
        None => {},
    }
    let ghost keys = cells@.map_values(|c: ItemCell| item_cell_view(c));
    let ghost rest = pairs_view(item@);
    proof {
        crate::views::lemma_pairs_view(item@);
    }
    if item.len() > 0 {
        match selected_attributes {
            Some(attributes) => {
                let parts = split_str(attributes.as_str(), ',');
                let ghost names = parts@.map_values(|t: String| t@);
                let mut i: usize = 0;
                while i < parts.len()
                    invariant
                        i <= parts.len(),
                        names == parts@.map_values(|t: String| t@),
                        rest == pairs_view(item@),
                        cells@.map_values(|c: ItemCell| item_cell_view(c)) == keys + names.take(
                            i as int,
                        ).map_values(|n: Seq<char>| ItemCellSpec::Value(entry_value(rest, trimmed(n)))),
                    decreases parts.len() - i,
                {
                    let ghost before = cells@;
                    let name = trim_str(parts[i].as_str());
                    let v = match entry_position(&item, name.as_str()) {
                        Some(k) => {
                            proof {
                                crate::views::lemma_pairs_view(item@);
                            }
                            Some(copy_value(&item[k].1))
                        },
                        None => None,
                    };
                    cells.push(ItemCell::Value(v));
                    assert(names[i as int] == parts@[i as int]@);
                    assert(names.take(i + 1) =~= names.take(i as int).push(names[i as int]));
                    assert(cells@.map_values(|c: ItemCell| item_cell_view(c)) =~= before.map_values(
                        |c: ItemCell| item_cell_view(c),
                    ).push(item_cell_view(cells@[i + keys.len()])));
                    assert(cells@.map_values(|c: ItemCell| item_cell_view(c)) =~= keys + names.take(
                        i + 1,
                    ).map_values(|n: Seq<char>| ItemCellSpec::Value(entry_value(rest, trimmed(n)))));
                    i = i + 1;
                }
                assert(names.take(parts.len() as int) =~= names);
            },
            None => {
                if !keys_only {
                    let ghost before = cells@;
                    cells.push(ItemCell::Rest(item));
                    assert(cells@.map_values(|c: ItemCell| item_cell_view(c)) =~= before.map_values(
                        |c: ItemCell| item_cell_view(c),
                    ).push(ItemCellSpec::Rest(rest)));
                }
            },
        }
    }
    cells
}

/// The text of a table cell that shows the attributes of an item.
pub fn cell_preview(full: &str) -> (r: String)
    ensures
        r@ == cell_preview_text(full@),
{
    let v = chars_of(full);
    if v.len() > CELL_PREVIEW_LENGTH {
        let mut r = string_from_range(&v, 0, CELL_PREVIEW_LENGTH);
        push_char(&mut r, '.');
        push_char(&mut r, '.');
        push_char(&mut r, '.');
        proof {
            reveal_strlit("...");
        }
        assert(r@ =~= full@.take(CELL_PREVIEW_LENGTH as int) + "..."@);
        r
    } else {
        string_from_range(&v, 0, v.len())
    }
}


/// The action that an `upd` command asks for: the `--set` expression if one is given,
/// else the `--remove` expression; `None` when neither is given.
pub fn update_action(set_expression: Option<String>, remove_expression: Option<String>) -> (r: Option<
    (UpdateActionType, String),
>)
    ensures
        match r {
            Some((UpdateActionType::SetAction, e)) => set_expression == Some(e),
            Some((UpdateActionType::RemoveAction, e)) => set_expression is None && remove_expression == Some(e),
            None => set_expression is None && remove_expression is None,
        },
{
    match set_expression {
        Some(sx) => Some((UpdateActionType::SetAction, sx)),
        None => match remove_expression {
            Some(rx) => Some((UpdateActionType::RemoveAction, rx)),
            None => None,
        },
    }
}

/// The SET expression that increments a number attribute by one: `<attr> = <attr> + 1`.
pub open spec fn atomic_counter_text(target: Seq<char>) -> Seq<char> {
    target + " = "@ + target + " + 1"@
}

/// The SET expression of an `upd --atomic-counter` command.
pub fn atomic_counter_expression(target_attr: &str) -> (r: String)
    ensures
        r@ == atomic_counter_text(target_attr@),
{
    let mut r = String::from_str(target_attr);
    push_str(&mut r, " = ");
    push_str(&mut r, target_attr);
    push_str(&mut r, " + 1");
    r
}

/// Whether an attribute value holds no set, at any depth.
pub open spec fn no_sets(v: AttrValSpec) -> bool
    decreases v,
{
    match v {
        AttrValSpec::SS(_) => false,
        AttrValSpec::NS(_) => false,
        AttrValSpec::BS(_) => false,
        AttrValSpec::L(items) => forall|i: int| 0 <= i < items.len() ==> no_sets(#[trigger] items[i]),
        AttrValSpec::M(pairs) => forall|i: int| 0 <= i < pairs.len() ==> no_sets(#[trigger] pairs[i].1),
        _ => true,
    }
}

proof fn lemma_map_put_no_sets(p: Seq<(Seq<char>, AttrValSpec)>, k: Seq<char>, v: AttrValSpec)
    requires
        forall|i: int| 0 <= i < p.len() ==> no_sets(#[trigger] p[i].1),
        no_sets(v),
    ensures
        forall|i: int| 0 <= i < map_put(p, k, v).len() ==> no_sets(#[trigger] map_put(p, k, v)[i].1),
{
    let q = map_put(p, k, v);
    lemma_key_index_found(p, k, 0);
    assert forall|i: int| 0 <= i < q.len() implies no_sets(#[trigger] q[i].1) by {
        if i < p.len() && i != key_index(p, k, 0) {
            assert(q[i] == p[i]);
        }
    }
}

proof fn lemma_items_no_sets(v: Seq<JsonValue>)
    ensures
        forall|i: int| 0 <= i < json_items(v, false).len() ==> no_sets(#[trigger] json_items(v, false)[i]),
        json_items(v, false).len() == v.len(),
    decreases v, v.len(),
{
    if v.len() > 0 {
        lemma_items_no_sets(v.drop_last());
        law_lists_stay_lists_without_set_inference(v.last());
        let prev = json_items(v.drop_last(), false);
        assert forall|i: int| 0 <= i < json_items(v, false).len() implies no_sets(
            #[trigger] json_items(v, false)[i],
        ) by {
            if i < prev.len() {
                assert(json_items(v, false)[i] == prev[i]);
            }
        }
    }
}

proof fn lemma_entries_no_sets(obj: Seq<(String, JsonValue)>)
    ensures
        forall|i: int| 0 <= i < json_entries(obj, false).len() ==> no_sets(#[trigger] json_entries(obj, false)[i].1),
    decreases obj, obj.len(),
{
    if obj.len() > 0 {
        lemma_entries_no_sets(obj.drop_last());
        law_lists_stay_lists_without_set_inference(obj.last().1);
        lemma_map_put_no_sets(json_entries(obj.drop_last(), false), obj.last().0@, json_to_attr(obj.last().1, false));
    }
}

/// Without set inference, JSON arrays are read as lists: no attribute value read from
/// JSON holds a string, number or binary set, at any depth.
pub proof fn law_lists_stay_lists_without_set_inference(jv: JsonValue)
    ensures
        no_sets(json_to_attr(jv, false)),
    decreases jv, 1int,
{
    if jv is Array {
        let v = jv->Array_0;
        assert(decreases_to!(jv => v));
        assert(decreases_to!(v => v@));
        lemma_items_no_sets(v@);
        let items = json_items(v@, false);
        assert(json_to_attr(jv, false) == AttrValSpec::L(items));
    } else if jv is Object {
        let obj = jv->Object_0;
        assert(decreases_to!(jv => obj));
        assert(decreases_to!(obj => obj@));
        lemma_entries_no_sets(obj@);
        assert(json_to_attr(jv, false) == AttrValSpec::M(json_entries(obj@, false)));
        assert(no_sets(json_to_attr(jv, false)));
    } else {
        assert(no_sets(json_to_attr(jv, false)));
    }
}

proof fn lemma_scan_attrs_prefix(
    attrs: Seq<Seq<char>>,
    j: int,
    count: int,
    ret: Seq<Seq<char>>,
    names: Seq<(Seq<char>, Seq<char>)>,
    pk: Seq<char>,
    sk: Option<Seq<char>>,
)
    ensures
        ({
            let (r, n) = scan_attrs_from(attrs, j, count, ret, names, pk, sk);
            &&& r.len() >= ret.len()
            &&& r.take(ret.len() as int) == ret
            &&& n.len() >= names.len()
            &&& n.take(names.len() as int) == names
        }),
    decreases attrs.len() - j,
{
    if 0 <= j < attrs.len() {
        let a = attrs[j];
        if a == pk || (sk matches Some(s) && a == s) {
            lemma_scan_attrs_prefix(attrs, j + 1, count, ret, names, pk, sk);
        } else {
            let ph = name_ref_text(count);
            lemma_scan_attrs_prefix(attrs, j + 1, count + 1, ret.push(ph), names.push((ph, a)), pk, sk);
            let (r, n) = scan_attrs_from(attrs, j, count, ret, names, pk, sk);
            assert(r.take(ret.len() as int) =~= r.take(ret.len() as int + 1).take(ret.len() as int));
            assert(ret.push(ph).take(ret.len() as int) =~= ret);
            assert(n.take(names.len() as int) =~= n.take(names.len() as int + 1).take(names.len() as int));
            assert(names.push((ph, a)).take(names.len() as int) =~= names);
        }
    } else {
        assert(ret.take(ret.len() as int) =~= ret);
        assert(names.take(names.len() as int) =~= names);
    }
}

/// The primary keys are always projected: whenever a Scan projects attributes, its
/// projection expression starts with the key placeholders, which name the partition key
/// and the sort key, whatever attributes were asked for.
pub proof fn law_scan_projects_keys(ts: TableSchema, attributes: Option<Seq<char>>, keys_only: bool)
    ensures
        scan_outcome(ts, attributes, keys_only).0 matches Some(e) ==> e.take(
            if ts.sk is Some {
                29int
            } else {
                14int
            },
        ) == if ts.sk is Some {
            "#DYNEIN_PKNAME,#DYNEIN_SKNAME"@
        } else {
            "#DYNEIN_PKNAME"@
        },
        scan_outcome(ts, attributes, keys_only).1 matches Some(n) ==> n[0] == ("#DYNEIN_PKNAME"@, ts.pk.name@)
            && (ts.sk matches Some(k) ==> n[1] == ("#DYNEIN_SKNAME"@, k.name@)),
{
    if keys_only || attributes is Some {
        reveal_strlit("#DYNEIN_PKNAME");
        reveal_strlit("#DYNEIN_SKNAME");
        reveal_strlit("#DYNEIN_PKNAME,#DYNEIN_SKNAME");
        let ret0 = match ts.sk {
            Some(_) => seq!["#DYNEIN_PKNAME"@, "#DYNEIN_SKNAME"@],
            None => seq!["#DYNEIN_PKNAME"@],
        };
        let names0 = match ts.sk {
            Some(k) => seq![("#DYNEIN_PKNAME"@, ts.pk.name@), ("#DYNEIN_SKNAME"@, k.name@)],
            None => seq![("#DYNEIN_PKNAME"@, ts.pk.name@)],
        };
        let attrs = split_on(attributes.unwrap(), ',').map_values(|a: Seq<char>| trimmed(a));
        lemma_scan_attrs_prefix(attrs, 0, 0, ret0, names0, ts.pk.name@, sk_name(ts));
        let (ret, names) = if keys_only {
            (ret0, names0)
        } else {
            scan_attrs_from(attrs, 0, 0, ret0, names0, ts.pk.name@, sk_name(ts))
        };
        assert(ret.take(ret0.len() as int) == ret0);
        assert(names[0] == names0[0]) by {
            assert(names.take(names0.len() as int)[0] == names[0]);
        }
        if ts.sk is Some {
            assert(names[1] == names0[1]) by {
                assert(names.take(names0.len() as int)[1] == names[1]);
            }
        }
        // the expression: the key placeholders joined, then the rest
        let keys_text = comma_joined(ret0);
        assert(comma_joined(seq!["#DYNEIN_PKNAME"@]) == "#DYNEIN_PKNAME"@);
        if ts.sk is Some {
            assert(ret0.drop_last() =~= seq!["#DYNEIN_PKNAME"@]);
            assert(keys_text =~= "#DYNEIN_PKNAME,#DYNEIN_SKNAME"@);
        }
        if ret.len() > ret0.len() {
            let rest = ret.skip(ret0.len() as int);
            assert(ret =~= ret0 + rest);
            lemma_comma_joined_append(ret0, rest);
            assert((keys_text + seq![','] + comma_joined(rest)).take(keys_text.len() as int) =~= keys_text);
        } else {
            assert(ret =~= ret0);
            assert(keys_text.take(keys_text.len() as int) =~= keys_text);
        }
    }
}

proof fn lemma_scan_attrs_no_keys(
    attrs: Seq<Seq<char>>,
    j: int,
    count: int,
    ret: Seq<Seq<char>>,
    names: Seq<(Seq<char>, Seq<char>)>,
    pk: Seq<char>,
    sk: Option<Seq<char>>,
    k0: int,
)
    requires
        0 <= j,
        0 <= k0 <= names.len(),
        forall|i: int| k0 <= i < names.len() ==> names[i].1 != pk && (sk matches Some(s) ==> names[i].1 != s),
    ensures
        ({
            let n = scan_attrs_from(attrs, j, count, ret, names, pk, sk).1;
            &&& forall|i: int| k0 <= i < n.len() ==> n[i].1 != pk && (sk matches Some(s) ==> n[i].1 != s)
            &&& forall|m: int|
                j <= m < attrs.len() && attrs[m] != pk && !(sk matches Some(s) && attrs[m] == s) ==> exists|i: int|
                    names.len() <= i < n.len() && #[trigger] n[i].1 == attrs[m]
        }),
    decreases attrs.len() - j,
{
    if j < attrs.len() {
        let a = attrs[j];
        if a == pk || (sk matches Some(s) && a == s) {
            lemma_scan_attrs_no_keys(attrs, j + 1, count, ret, names, pk, sk, k0);
        } else {
            let ph = name_ref_text(count);
            let names2 = names.push((ph, a));
            lemma_scan_attrs_no_keys(attrs, j + 1, count + 1, ret.push(ph), names2, pk, sk, k0);
            lemma_scan_attrs_prefix(attrs, j + 1, count + 1, ret.push(ph), names2, pk, sk);
            let n = scan_attrs_from(attrs, j, count, ret, names, pk, sk).1;
            assert(n[names.len() as int] == n.take(names2.len() as int)[names.len() as int]);
            assert(n[names.len() as int].1 == a);
            assert forall|m: int|
                j <= m < attrs.len() && attrs[m] != pk && !(sk matches Some(s) && attrs[m] == s) implies exists|i: int|
                names.len() <= i < n.len() && #[trigger] n[i].1 == attrs[m] by {
                if m == j {
                    assert(n[names.len() as int].1 == attrs[m]);
                }
            }
        }
    }
}

/// A Scan projects each attribute once: the placeholders after those of the keys name
/// neither the partition key nor the sort key, which are projected already, and every
/// attribute asked for that is not a key has a placeholder of its own after them.
pub proof fn law_scan_projects_each_key_once(ts: TableSchema, attributes: Option<Seq<char>>, keys_only: bool)
    ensures
        ({
            let keys = if ts.sk is Some {
                2int
            } else {
                1int
            };
            scan_outcome(ts, attributes, keys_only).1 matches Some(n) ==> {
                &&& n.len() >= keys
                &&& forall|i: int|
                    keys <= i < n.len() ==> n[i].1 != ts.pk.name@ && (ts.sk matches Some(k) ==> n[i].1
                        != k.name@)
                &&& !keys_only ==> forall|a: Seq<char>|
                    #[trigger] scan_asked(attributes.unwrap()).contains(a)
                        && a != ts.pk.name@ && !(ts.sk matches Some(k) && a == k.name@) ==> exists|i: int|
                        keys <= i < n.len() && #[trigger] n[i].1 == a
            }
        }),
{
    if keys_only || attributes is Some {
        let names0 = match ts.sk {
            Some(k) => seq![("#DYNEIN_PKNAME"@, ts.pk.name@), ("#DYNEIN_SKNAME"@, k.name@)],
            None => seq![("#DYNEIN_PKNAME"@, ts.pk.name@)],
        };
        let ret0 = match ts.sk {
            Some(_) => seq!["#DYNEIN_PKNAME"@, "#DYNEIN_SKNAME"@],
            None => seq!["#DYNEIN_PKNAME"@],
        };
        assert(names0.len() == if ts.sk is Some {
            2int
        } else {
            1int
        });
        if !keys_only {
            let attrs = scan_asked(attributes.unwrap());
            lemma_scan_attrs_no_keys(attrs, 0, 0, ret0, names0, ts.pk.name@, sk_name(ts), names0.len() as int);
            lemma_scan_attrs_prefix(attrs, 0, 0, ret0, names0, ts.pk.name@, sk_name(ts));
            let n = scan_attrs_from(attrs, 0, 0, ret0, names0, ts.pk.name@, sk_name(ts)).1;
            assert(scan_outcome(ts, attributes, keys_only).1 == Some(n));
            assert(n.len() >= names0.len());
            assert forall|i: int| names0.len() <= i < n.len() implies n[i].1 != ts.pk.name@ && (ts.sk matches Some(
                k,
            ) ==> n[i].1 != k.name@) by {
                assert(n[i].1 != ts.pk.name@ && (sk_name(ts) matches Some(s) ==> n[i].1 != s));
            }
            assert forall|a: Seq<char>|
                #[trigger] attrs.contains(a) && a != ts.pk.name@ && !(ts.sk matches Some(k) && a == k.name@) implies exists|i: int|
                names0.len() <= i < n.len() && #[trigger] n[i].1 == a by {
                let m = choose|m: int| 0 <= m < attrs.len() && attrs[m] == a;
                assert(attrs[m] != ts.pk.name@ && !(sk_name(ts) matches Some(s) && attrs[m] == s));
            }
        } else {
            assert(scan_outcome(ts, attributes, keys_only).1 == Some(names0));
        }
    } else {
        assert(scan_outcome(ts, attributes, keys_only).1 is None);
    }
}

proof fn lemma_scan_attrs_placeholders(
    attrs: Seq<Seq<char>>,
    j: int,
    count: int,
    ret: Seq<Seq<char>>,
    names: Seq<(Seq<char>, Seq<char>)>,
    pk: Seq<char>,
    sk: Option<Seq<char>>,
    k0: int,
)
    requires
        0 <= j,
        0 <= k0 <= names.len(),
        count == names.len() - k0,
        ret == names.map_values(|p: (Seq<char>, Seq<char>)| p.0),
        forall|i: int| k0 <= i < names.len() ==> #[trigger] names[i].0 == name_ref_text(i - k0),
    ensures
        ({
            let (r, n) = scan_attrs_from(attrs, j, count, ret, names, pk, sk);
            &&& r == n.map_values(|p: (Seq<char>, Seq<char>)| p.0)
            &&& forall|i: int| k0 <= i < n.len() ==> #[trigger] n[i].0 == name_ref_text(i - k0)
            &&& n.take(k0) == names.take(k0)
        }),
    decreases attrs.len() - j,
{
    if j < attrs.len() {
        let a = attrs[j];
        if a == pk || (sk matches Some(s) && a == s) {
            lemma_scan_attrs_placeholders(attrs, j + 1, count, ret, names, pk, sk, k0);
        } else {
            let ph = name_ref_text(count);
            let names2 = names.push((ph, a));
            assert(ret.push(ph) =~= names2.map_values(|p: (Seq<char>, Seq<char>)| p.0));
            assert(names2.take(k0) =~= names.take(k0));
            lemma_scan_attrs_placeholders(attrs, j + 1, count + 1, ret.push(ph), names2, pk, sk, k0);
        }
    }
}

/// The projection expression of a Scan lists the placeholders of its names, in order,
/// separated by commas: those of the keys, then `#DYNEIN_ATTRNAME0`, `#DYNEIN_ATTRNAME1`,
/// ... for the other attributes.
pub proof fn law_scan_expression_lists_names(ts: TableSchema, attributes: Option<Seq<char>>, keys_only: bool)
    ensures
        ({
            let keys = if ts.sk is Some {
                2int
            } else {
                1int
            };
            let (e, names) = scan_outcome(ts, attributes, keys_only);
            &&& e is Some <==> names is Some
            &&& names matches Some(n) ==> {
                &&& e == Some(comma_joined(n.map_values(|p: (Seq<char>, Seq<char>)| p.0)))
                &&& forall|i: int| keys <= i < n.len() ==> #[trigger] n[i].0 == name_ref_text(i - keys)
            }
        }),
{
    if keys_only || attributes is Some {
        let names0 = match ts.sk {
            Some(k) => seq![("#DYNEIN_PKNAME"@, ts.pk.name@), ("#DYNEIN_SKNAME"@, k.name@)],
            None => seq![("#DYNEIN_PKNAME"@, ts.pk.name@)],
        };
        let ret0 = match ts.sk {
            Some(_) => seq!["#DYNEIN_PKNAME"@, "#DYNEIN_SKNAME"@],
            None => seq!["#DYNEIN_PKNAME"@],
        };
        assert(ret0 =~= names0.map_values(|p: (Seq<char>, Seq<char>)| p.0));
        if !keys_only {
            let attrs = scan_asked(attributes.unwrap());
            lemma_scan_attrs_placeholders(attrs, 0, 0, ret0, names0, ts.pk.name@, sk_name(ts), names0.len() as int);
        }
    }
}

} // verus!
