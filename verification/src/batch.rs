//! Checks on items written in batches: the key attributes must be there, with the type
//! of the table's keys.
use vstd::prelude::*;
use crate::app::TableSchema;
use crate::ddb::key::KeyType;
use crate::grammar::key_index;
use crate::text::push_str;
use crate::value::{attrs_view, bytes_view, pairs_view, strings_view, AttrVal, AttrValSpec};
use crate::b64::{base64_padded_decoded, decode_standard};
use crate::data::{dispatch_jsonvalue_to_attrval, json_entries, json_to_attr, lemma_entries_keyed_once, lemma_json_keyed_once, JsonValue};
use crate::text::{split_on, split_str};
use crate::error::{ParseError, ParseErrorSpec};
use crate::parser::{dynein_format_outcome, lemma_map_put_keyed_once, maps_keyed_once, DyneinParser};
use vstd::string::StrSliceExecFns;
use crate::error::Base64Error;
use crate::grammar::map_put;
use crate::reader::map_put_x;
use vstd::utf8::encode_utf8;

verus! {

/// An item that cannot be written to the table.
#[derive(Debug, Clone, PartialEq, Eq)]
pub enum InvalidBatchInput {
    InvalidInput(String),
}

/// `type mismatch for the key <name>, expected: <type>`.
pub open spec fn type_mismatch_text(attr_name: Seq<char>, expected_type: Seq<char>) -> Seq<char> {
    "type mismatch for the key "@ + attr_name + ", expected: "@ + expected_type
}

/// The message for a key attribute of the wrong type.
pub fn generate_type_mismatch_error_message(attr_name: &str, expected_type: &str) -> (r: String)
    ensures
        r@ == type_mismatch_text(attr_name@, expected_type@),
{
    let mut r = String::from_str("type mismatch for the key ");
    push_str(&mut r, attr_name);
    push_str(&mut r, ", expected: ");
    push_str(&mut r, expected_type);
    r
}

/// Whether a value has the type of a key.
pub open spec fn has_key_type(v: AttrValSpec, k: KeyType) -> bool {
    match k {
        KeyType::S => v is S,
        KeyType::N => v is N,
        KeyType::B => v is B,
    }
}

/// The name of a key type in messages.
pub open spec fn key_type_label(k: KeyType) -> Seq<char> {
    match k {
        KeyType::S => "String"@,
        KeyType::N => "Number"@,
        KeyType::B => "Binary"@,
    }
}

/// The position of the attribute `name` in an item.
fn find_attr(attrs: &Vec<(String, AttrVal)>, name: &str) -> (r: Option<usize>)
    ensures
        match r {
            Some(i) => i < attrs.len() && key_index(pairs_view(attrs@), name@, 0) == i,
            None => key_index(pairs_view(attrs@), name@, 0) == -1,
        },
{
    let ghost p = pairs_view(attrs@);
    proof {
        crate::views::lemma_pairs_view(attrs@);
    }
    let key = String::from_str(name);
    let mut i: usize = 0;
    while i < attrs.len()
        invariant
            i <= attrs.len(),
            key@ == name@,
            p == pairs_view(attrs@),
            p.len() == attrs.len(),
            forall|j: int| 0 <= j < attrs.len() ==> #[trigger] p[j] == (
                attrs@[j].0@,
                crate::value::attr_view(attrs@[j].1),
            ),
            key_index(p, name@, 0) == key_index(p, name@, i as int),
        decreases attrs.len() - i,
    {
        if attrs[i].0 == key {
            return Some(i);
        }
        proof {
            crate::views::lemma_key_index_step(p, name@, i as int);
        }
        i = i + 1;
    }
    None
}

/// Checks that the attribute `key_name` of an item has the key type `expected_key_type`.
pub fn validate_key_type(key_name: &str, expected_key_type: &KeyType, attrs: &Vec<(String, AttrVal)>) -> (r:
    Result<(), InvalidBatchInput>)
    requires
        key_index(pairs_view(attrs@), key_name@, 0) >= 0,
    ensures
        ({
            let v = pairs_view(attrs@)[key_index(pairs_view(attrs@), key_name@, 0)].1;
            match r {
                Ok(()) => has_key_type(v, *expected_key_type),
                Err(InvalidBatchInput::InvalidInput(m)) => !has_key_type(v, *expected_key_type)
                    && m@ == type_mismatch_text(key_name@, key_type_label(*expected_key_type)),
            }
        }),
{
    let i = match find_attr(attrs, key_name) {
        Some(i) => i,
        None => {
            return Ok(());
        },
    };
    proof {
        crate::views::lemma_pairs_view(attrs@);
    }
    let ok = match (expected_key_type, &attrs[i].1) {
        (KeyType::S, AttrVal::S(_)) => true,
        (KeyType::N, AttrVal::N(_)) => true,
        (KeyType::B, AttrVal::B(_)) => true,
        _ => false,
    };
    if ok {
        Ok(())
    } else {
        let label = match expected_key_type {
            KeyType::S => "String",
            KeyType::N => "Number",
            KeyType::B => "Binary",
        };
        Err(InvalidBatchInput::InvalidInput(generate_type_mismatch_error_message(key_name, label)))
    }
}

/// Whether an item has its key attributes, with the types of the table's keys.
pub open spec fn item_keys_valid(attrs: Seq<(Seq<char>, AttrValSpec)>, ts: TableSchema) -> bool {
    &&& key_index(attrs, ts.pk.name@, 0) >= 0
    &&& has_key_type(attrs[key_index(attrs, ts.pk.name@, 0)].1, ts.pk.kind)
    &&& ts.sk matches Some(sk) ==> key_index(attrs, sk.name@, 0) >= 0 && has_key_type(
        attrs[key_index(attrs, sk.name@, 0)].1,
        sk.kind,
    )
}

/// Why an item whose keys are not valid cannot be written: the first key attribute that
/// is missing or has another type than its key.
pub open spec fn item_key_error(p: Seq<(Seq<char>, AttrValSpec)>, ts: TableSchema) -> Seq<char> {
    if key_index(p, ts.pk.name@, 0) < 0 {
        "must provide the partition key attribute "@ + ts.pk.name@
    } else if !has_key_type(p[key_index(p, ts.pk.name@, 0)].1, ts.pk.kind) {
        type_mismatch_text(ts.pk.name@, key_type_label(ts.pk.kind))
    } else {
        match ts.sk {
            Some(sk) => if key_index(p, sk.name@, 0) < 0 {
                "must provide the sort key attribute "@ + sk.name@
            } else {
                type_mismatch_text(sk.name@, key_type_label(sk.kind))
            },
            None => Seq::empty(),
        }
    }
}

/// Checks that an item has the partition key attribute, and the sort key attribute when
/// the table has one, each of the key's type.
pub fn validate_item_keys(attrs: &Vec<(String, AttrVal)>, ts: &TableSchema) -> (r: Result<
    (),
    InvalidBatchInput,
>)
    ensures
        r is Ok <==> item_keys_valid(pairs_view(attrs@), *ts),
        r matches Err(InvalidBatchInput::InvalidInput(m)) ==> m@ == item_key_error(pairs_view(attrs@), *ts),
{
    if find_attr(attrs, ts.pk.name.as_str()).is_none() {
        let mut m = String::from_str("must provide the partition key attribute ");
        push_str(&mut m, ts.pk.name.as_str());
        return Err(InvalidBatchInput::InvalidInput(m));
    }
    match validate_key_type(ts.pk.name.as_str(), &ts.pk.kind, attrs) {
        Ok(()) => {},
        Err(e) => {
            return Err(e);
        },
    }
    if let Some(sk) = &ts.sk {
        if find_attr(attrs, sk.name.as_str()).is_none() {
            let mut m = String::from_str("must provide the sort key attribute ");
            push_str(&mut m, sk.name.as_str());
            return Err(InvalidBatchInput::InvalidInput(m));
        }
        match validate_key_type(sk.name.as_str(), &sk.kind, attrs) {
            Ok(()) => {},
            Err(e) => {
                return Err(e);
            },
        }
    }
    Ok(())
}

/// Why a text in DynamoDB JSON cannot be read.
#[derive(Debug, Clone, Copy, PartialEq, Eq, Structural)]
pub enum DdbJsonError {
    /// A value that must be a string is not one.
    NotAString,
    /// A `BOOL` value is not a boolean.
    NotABool,
    /// A value that must be an array is not one.
    NotAnArray,
    /// A value that must be an object is not one.
    NotAnObject,
    /// A binary value is no padded standard base64.
    InvalidBase64(Base64Error),
    /// A list element is in no supported format.
    UnsupportedListElement,
}

impl DdbJsonError {
    /// The message of the error.
    pub fn to_string(&self) -> (r: String)
        ensures
            r@ == match self {
                DdbJsonError::NotAString => "should -> str"@,
                DdbJsonError::NotABool => "should be a boolean"@,
                DdbJsonError::NotAnArray => "should be valid JSON array"@,
                DdbJsonError::NotAnObject => "should be valid JSON object"@,
                DdbJsonError::InvalidBase64(_) => "binary inputs should be base64 with padding encoded"@,
                DdbJsonError::UnsupportedListElement => "failed to digest a list element"@,
            },
    {
        match self {
            DdbJsonError::NotAString => String::from_str("should -> str"),
            DdbJsonError::NotABool => String::from_str("should be a boolean"),
            DdbJsonError::NotAnArray => String::from_str("should be valid JSON array"),
            DdbJsonError::NotAnObject => String::from_str("should be valid JSON object"),
            DdbJsonError::InvalidBase64(_) => String::from_str(
                "binary inputs should be base64 with padding encoded",
            ),
            DdbJsonError::UnsupportedListElement => String::from_str("failed to digest a list element"),
        }
    }
}

pub type DdbRes<T> = Result<T, DdbJsonError>;

/// The position of the first entry of `o` from `i` on whose key is `k`, or -1.
pub open spec fn json_key_from(o: Seq<(String, JsonValue)>, k: Seq<char>, i: int) -> int
    decreases o.len() - i,
{
    if i < 0 || i >= o.len() {
        -1
    } else if o[i].0@ == k {
        i
    } else {
        json_key_from(o, k, i + 1)
    }
}

/// The bytes of a base64 binary value.
pub open spec fn ddb_binary(v: JsonValue) -> DdbRes<Seq<u8>> {
    match v {
        JsonValue::String(s) => match base64_padded_decoded(encode_utf8(s@)) {
            Ok(b) => Ok(b),
            Err(e) => Err(DdbJsonError::InvalidBase64(e)),
        },
        _ => Err(DdbJsonError::NotAString),
    }
}

/// The strings of a string or number set.
pub open spec fn ddb_strings(v: JsonValue) -> DdbRes<Seq<Seq<char>>> {
    match v {
        JsonValue::Array(els) => if forall|j: int| 0 <= j < els.len() ==> (#[trigger] els@[j]) is String {
            Ok(els@.map_values(|x: JsonValue| x->String_0@))
        } else {
            Err(DdbJsonError::NotAString)
        },
        _ => Err(DdbJsonError::NotAnArray),
    }
}

/// The byte strings of a binary set, or the error of the first element that is none.
pub open spec fn ddb_binaries(els: Seq<JsonValue>) -> DdbRes<Seq<Seq<u8>>>
    decreases els.len(),
{
    if els.len() == 0 {
        Ok(Seq::empty())
    } else {
        match ddb_binaries(els.drop_last()) {
            Err(e) => Err(e),
            Ok(bs) => match ddb_binary(els.last()) {
                Err(e) => Err(e),
                Ok(b) => Ok(bs.push(b)),
            },
        }
    }
}

/// The attribute value of a value in DynamoDB JSON (`{"S": ...}`, `{"N": ...}`, ...);
/// `None` when it is in no supported format.
pub open spec fn ddb_value(v: JsonValue) -> DdbRes<Option<AttrValSpec>>
    decreases v, 2int,
{
    match v {
        JsonValue::Object(o) => ddb_tagged(o@),
        _ => Ok(None),
    }
}

/// The attribute value of the entries of a DynamoDB JSON value, by its first type tag.
pub open spec fn ddb_tagged(o: Seq<(String, JsonValue)>) -> DdbRes<Option<AttrValSpec>>
    decreases o, 1int,
{
    let s = json_key_from(o, "S"@, 0);
    let n = json_key_from(o, "N"@, 0);
    let b = json_key_from(o, "B"@, 0);
    let bo = json_key_from(o, "BOOL"@, 0);
    let ss = json_key_from(o, "SS"@, 0);
    let ns = json_key_from(o, "NS"@, 0);
    let bs = json_key_from(o, "BS"@, 0);
    let l = json_key_from(o, "L"@, 0);
    let m = json_key_from(o, "M"@, 0);
    let nu = json_key_from(o, "NULL"@, 0);
    if 0 <= s < o.len() {
        match o[s].1 {
            JsonValue::String(x) => Ok(Some(AttrValSpec::S(x@))),
            _ => Err(DdbJsonError::NotAString),
        }
    } else if 0 <= n < o.len() {
        match o[n].1 {
            JsonValue::String(x) => Ok(Some(AttrValSpec::N(x@))),
            _ => Err(DdbJsonError::NotAString),
        }
    } else if 0 <= b < o.len() {
        match ddb_binary(o[b].1) {
            Ok(x) => Ok(Some(AttrValSpec::B(x))),
            Err(e) => Err(e),
        }
    } else if 0 <= bo < o.len() {
        match o[bo].1 {
            JsonValue::Bool(x) => Ok(Some(AttrValSpec::Bool(x))),
            _ => Err(DdbJsonError::NotABool),
        }
    } else if 0 <= ss < o.len() {
        match ddb_strings(o[ss].1) {
            Ok(x) => Ok(Some(AttrValSpec::SS(x))),
            Err(e) => Err(e),
        }
    } else if 0 <= ns < o.len() {
        match ddb_strings(o[ns].1) {
            Ok(x) => Ok(Some(AttrValSpec::NS(x))),
            Err(e) => Err(e),
        }
    } else if 0 <= bs < o.len() {
        match o[bs].1 {
            JsonValue::Array(els) => match ddb_binaries(els@) {
                Ok(x) => Ok(Some(AttrValSpec::BS(x))),
                Err(e) => Err(e),
            },
            _ => Err(DdbJsonError::NotAnArray),
        }
    } else if 0 <= l < o.len() {
        match o[l].1 {
            JsonValue::Array(els) => {
                proof {
                    assert(decreases_to!(o => o[l]));
                    assert(decreases_to!(o[l] => o[l].1));
                    assert(decreases_to!(o[l].1 => els));
                    assert(decreases_to!(els => els@));
                }
                match ddb_list(els@) {
                    Ok(x) => Ok(Some(AttrValSpec::L(x))),
                    Err(e) => Err(e),
                }
            },
            _ => Err(DdbJsonError::NotAnArray),
        }
    } else if 0 <= m < o.len() {
        match o[m].1 {
            JsonValue::Object(o2) => {
                proof {
                    assert(decreases_to!(o => o[m]));
                    assert(decreases_to!(o[m] => o[m].1));
                    assert(decreases_to!(o[m].1 => o2));
                    assert(decreases_to!(o2 => o2@));
                }
                match ddb_entries(o2@) {
                    Ok(x) => Ok(Some(AttrValSpec::M(x))),
                    Err(e) => Err(e),
                }
            },
            _ => Err(DdbJsonError::NotAnObject),
        }
    } else if 0 <= nu < o.len() {
        Ok(Some(AttrValSpec::Null(true)))
    } else {
        Ok(None)
    }
}

/// The attribute values of the elements of a list; each must be in a supported format.
pub open spec fn ddb_list(els: Seq<JsonValue>) -> DdbRes<Seq<AttrValSpec>>
    decreases els, 0int,
{
    if els.len() == 0 {
        Ok(Seq::empty())
    } else {
        match ddb_list(els.drop_last()) {
            Err(e) => Err(e),
            Ok(xs) => match ddb_value(els.last()) {
                Err(e) => Err(e),
                Ok(None) => Err(DdbJsonError::UnsupportedListElement),
                Ok(Some(x)) => Ok(xs.push(x)),
            },
        }
    }
}

/// The attributes of the entries of an item or map; an entry in no supported format
/// is skipped.
pub open spec fn ddb_entries(o: Seq<(String, JsonValue)>) -> DdbRes<Seq<(Seq<char>, AttrValSpec)>>
    decreases o, 0int,
{
    if o.len() == 0 {
        Ok(Seq::empty())
    } else {
        match ddb_entries(o.drop_last()) {
            Err(e) => Err(e),
            Ok(ps) => match ddb_value(o.last().1) {
                Err(e) => Err(e),
                Ok(None) => Ok(ps),
                Ok(Some(x)) => Ok(map_put(ps, o.last().0@, x)),
            },
        }
    }
}

/// The attributes of an item in DynamoDB JSON, which must be an object.
pub open spec fn ddb_attributes(v: JsonValue) -> DdbRes<Seq<(Seq<char>, AttrValSpec)>> {
    match v {
        JsonValue::Object(o) => ddb_entries(o@),
        _ => Err(DdbJsonError::NotAnObject),
    }
}

/// The position of the entry for `key` in an object's entries.
fn find_key(o: &Vec<(String, JsonValue)>, key: &str) -> (r: Option<usize>)
    ensures
        match r {
            Some(i) => i < o.len() && json_key_from(o@, key@, 0) == i,
            None => json_key_from(o@, key@, 0) == -1,
        },
{
    let k = String::from_str(key);
    let mut i: usize = 0;
    while i < o.len()
        invariant
            i <= o.len(),
            k@ == key@,
            json_key_from(o@, key@, 0) == json_key_from(o@, key@, i as int),
        decreases o.len() - i,
    {
        if o[i].0 == k {
            return Some(i);
        }
        i = i + 1;
    }
    None
}

/// The bytes of a base64 binary value.
fn ddbjson_binary(v: &JsonValue) -> (r: DdbRes<Vec<u8>>)
    ensures
        match r {
            Ok(b) => ddb_binary(*v) == Ok::<Seq<u8>, DdbJsonError>(b@),
            Err(e) => ddb_binary(*v) == Err::<Seq<u8>, DdbJsonError>(e),
        },
{
    match v {
        JsonValue::String(s) => match decode_standard(s.as_str().as_bytes()) {
            Ok(b) => Ok(b),
            Err(e) => Err(DdbJsonError::InvalidBase64(e)),
        },
        _ => Err(DdbJsonError::NotAString),
    }
}

/// The strings of a string or number set.
fn ddbjson_strings(v: &JsonValue) -> (r: DdbRes<Vec<String>>)
    ensures
        match r {
            Ok(x) => ddb_strings(*v) == Ok::<Seq<Seq<char>>, DdbJsonError>(strings_view(x@)),
            Err(e) => ddb_strings(*v) == Err::<Seq<Seq<char>>, DdbJsonError>(e),
        },
{
    match v {
        JsonValue::Array(els) => {
            let mut out: Vec<String> = Vec::new();
            let mut j: usize = 0;
            while j < els.len()
                invariant
                    j <= els.len(),
                    *v == JsonValue::Array(*els),
                    out.len() == j,
                    forall|m: int| 0 <= m < j ==> (#[trigger] els@[m]) is String,
                    forall|m: int| 0 <= m < j ==> #[trigger] out@[m]@ == els@[m]->String_0@,
                decreases els.len() - j,
            {
                match &els[j] {
                    JsonValue::String(x) => {
                        out.push(x.clone());
                    },
                    _ => {
                        assert(!(els@[j as int] is String));
                        return Err(DdbJsonError::NotAString);
                    },
                }
                j = j + 1;
            }
            assert(strings_view(out@) =~= els@.map_values(|x: JsonValue| x->String_0@));
            Ok(out)
        },
        _ => Err(DdbJsonError::NotAnArray),
    }
}

/// The attribute value of a value in DynamoDB JSON; `None` when it is in no supported
/// format.
pub fn ddbjson_val_to_attrval(ddb_jsonval: &JsonValue) -> (r: DdbRes<Option<AttrVal>>)
    ensures
        match r {
            Ok(Some(x)) => ddb_value(*ddb_jsonval) == Ok::<Option<AttrValSpec>, DdbJsonError>(
                Some(x@),
            ),
            Ok(None) => ddb_value(*ddb_jsonval) == Ok::<Option<AttrValSpec>, DdbJsonError>(None),
            Err(e) => ddb_value(*ddb_jsonval) == Err::<Option<AttrValSpec>, DdbJsonError>(e),
        },
    decreases ddb_jsonval, 2int,
{
    match ddb_jsonval {
        JsonValue::Object(o) => {
            proof {
                assert(decreases_to!(*ddb_jsonval => ddb_jsonval->Object_0));
            }
            ddbjson_tagged(o)
        },
        _ => Ok(None),
    }
}

fn ddbjson_tagged(o: &Vec<(String, JsonValue)>) -> (r: DdbRes<Option<AttrVal>>)
    ensures
        match r {
            Ok(Some(x)) => ddb_tagged(o@) == Ok::<Option<AttrValSpec>, DdbJsonError>(Some(x@)),
            Ok(None) => ddb_tagged(o@) == Ok::<Option<AttrValSpec>, DdbJsonError>(None),
            Err(e) => ddb_tagged(o@) == Err::<Option<AttrValSpec>, DdbJsonError>(e),
        },
    decreases o, 1int,
{
    proof {
        reveal_strlit("S");
        reveal_strlit("N");
        reveal_strlit("B");
        reveal_strlit("BOOL");
        reveal_strlit("SS");
        reveal_strlit("NS");
        reveal_strlit("BS");
        reveal_strlit("L");
        reveal_strlit("M");
        reveal_strlit("NULL");
    }
    if let Some(i) = find_key(o, "S") {
        return match &o[i].1 {
            JsonValue::String(x) => Ok(Some(AttrVal::S(x.clone()))),
            _ => Err(DdbJsonError::NotAString),
        };
    }
    if let Some(i) = find_key(o, "N") {
        return match &o[i].1 {
            JsonValue::String(x) => Ok(Some(AttrVal::N(x.clone()))),
            _ => Err(DdbJsonError::NotAString),
        };
    }
    if let Some(i) = find_key(o, "B") {
        return match ddbjson_binary(&o[i].1) {
            Ok(x) => Ok(Some(AttrVal::B(x))),
            Err(e) => Err(e),
        };
    }
    if let Some(i) = find_key(o, "BOOL") {
        return match &o[i].1 {
            JsonValue::Bool(x) => Ok(Some(AttrVal::Bool(*x))),
            _ => Err(DdbJsonError::NotABool),
        };
    }
    if let Some(i) = find_key(o, "SS") {
        return match ddbjson_strings(&o[i].1) {
            Ok(x) => Ok(Some(AttrVal::SS(x))),
            Err(e) => Err(e),
        };
    }
    if let Some(i) = find_key(o, "NS") {
        return match ddbjson_strings(&o[i].1) {
            Ok(x) => Ok(Some(AttrVal::NS(x))),
            Err(e) => Err(e),
        };
    }
    if let Some(i) = find_key(o, "BS") {
        return match &o[i].1 {
            JsonValue::Array(els) => match ddbjson_binaries(els) {
                Ok(x) => Ok(Some(AttrVal::BS(x))),
                Err(e) => Err(e),
            },
            _ => Err(DdbJsonError::NotAnArray),
        };
    }
    if let Some(i) = find_key(o, "L") {
        return match &o[i].1 {
            JsonValue::Array(els) => {
                proof {
                    assert(decreases_to!(o => o@));
                    assert(decreases_to!(o@ => o@[i as int]));
                    assert(decreases_to!(o@[i as int] => o@[i as int].1));
                    assert(decreases_to!(o@[i as int].1 => o@[i as int].1->Array_0));
                }
                match ddbjson_list(els) {
                    Ok(x) => Ok(Some(AttrVal::L(x))),
                    Err(e) => Err(e),
                }
            },
            _ => Err(DdbJsonError::NotAnArray),
        };
    }
    if let Some(i) = find_key(o, "M") {
        return match &o[i].1 {
            JsonValue::Object(o2) => {
                proof {
                    assert(decreases_to!(o => o@));
                    assert(decreases_to!(o@ => o@[i as int]));
                    assert(decreases_to!(o@[i as int] => o@[i as int].1));
                    assert(decreases_to!(o@[i as int].1 => o@[i as int].1->Object_0));
                }
                match ddbjson_entries(o2) {
                    Ok(x) => Ok(Some(AttrVal::M(x))),
                    Err(e) => Err(e),
                }
            },
            _ => Err(DdbJsonError::NotAnObject),
        };
    }
    if find_key(o, "NULL").is_some() {
        return Ok(Some(AttrVal::Null(true)));
    }
    Ok(None)
}

/// The byte strings of a binary set.
fn ddbjson_binaries(els: &Vec<JsonValue>) -> (r: DdbRes<Vec<Vec<u8>>>)
    ensures
        match r {
            Ok(x) => ddb_binaries(els@) == Ok::<Seq<Seq<u8>>, DdbJsonError>(bytes_view(x@)),
            Err(e) => ddb_binaries(els@) == Err::<Seq<Seq<u8>>, DdbJsonError>(e),
        },
{
    let mut out: Vec<Vec<u8>> = Vec::new();
    let mut j: usize = 0;
    assert(els@.take(0) =~= Seq::<JsonValue>::empty());
    assert(bytes_view(out@) =~= Seq::<Seq<u8>>::empty());
    while j < els.len()
        invariant
            j <= els.len(),
            ddb_binaries(els@.take(j as int)) == Ok::<Seq<Seq<u8>>, DdbJsonError>(bytes_view(out@)),
        decreases els.len() - j,
    {
        assert(els@.take(j + 1).drop_last() =~= els@.take(j as int));
        assert(els@.take(j + 1).last() == els@[j as int]);
        let b = match ddbjson_binary(&els[j]) {
            Ok(b) => b,
            Err(e) => {
                proof {
                    lemma_binaries_err(els@, j as int);
                }
                return Err(e);
            },
        };
        assert(bytes_view(out@.push(b)) =~= bytes_view(out@).push(b@));
        out.push(b);
        j = j + 1;
    }
    assert(els@.take(els.len() as int) =~= els@);
    Ok(out)
}

/// The attribute values of the elements of a list in DynamoDB JSON.
fn ddbjson_list(els: &Vec<JsonValue>) -> (r: DdbRes<Vec<AttrVal>>)
    ensures
        match r {
            Ok(x) => ddb_list(els@) == Ok::<Seq<AttrValSpec>, DdbJsonError>(attrs_view(x@)),
            Err(e) => ddb_list(els@) == Err::<Seq<AttrValSpec>, DdbJsonError>(e),
        },
    decreases els, 0int,
{
    let mut out: Vec<AttrVal> = Vec::new();
    let mut j: usize = 0;
    assert(els@.take(0) =~= Seq::<JsonValue>::empty());
    assert(attrs_view(out@) =~= Seq::<AttrValSpec>::empty());
    while j < els.len()
        invariant
            j <= els.len(),
            ddb_list(els@.take(j as int)) == Ok::<Seq<AttrValSpec>, DdbJsonError>(attrs_view(out@)),
        decreases els.len() - j,
    {
        proof {
            assert(decreases_to!(els => els@));
            assert(decreases_to!(els@ => els@[j as int]));
            assert(els@.take(j + 1).drop_last() =~= els@.take(j as int));
            assert(els@.take(j + 1).last() == els@[j as int]);
        }
        let x = match ddbjson_val_to_attrval(&els[j]) {
            Ok(Some(x)) => x,
            Ok(None) => {
                proof {
                    lemma_list_err(els@, j + 1);
                }
                return Err(DdbJsonError::UnsupportedListElement);
            },
            Err(e) => {
                proof {
                    lemma_list_err(els@, j + 1);
                }
                return Err(e);
            },
        };
        proof {
            crate::views::lemma_attrs_view_push(out@, x);
        }
        out.push(x);
        j = j + 1;
    }
    assert(els@.take(els.len() as int) =~= els@);
    Ok(out)
}

proof fn lemma_list_err(els: Seq<JsonValue>, k: int)
    requires
        0 <= k <= els.len(),
        ddb_list(els.take(k)) is Err,
    ensures
        ddb_list(els) == ddb_list(els.take(k)),
    decreases els.len() - k,
{
    if k < els.len() {
        assert(els.take(k + 1).drop_last() =~= els.take(k));
        lemma_list_err(els, k + 1);
    } else {
        assert(els.take(k) =~= els);
    }
}

proof fn lemma_binaries_err(els: Seq<JsonValue>, j: int)
    requires
        0 <= j < els.len(),
        ddb_binaries(els.take(j)) is Ok,
        ddb_binary(els[j]) is Err,
    ensures
        ddb_binaries(els) == Err::<Seq<Seq<u8>>, DdbJsonError>(ddb_binary(els[j])->Err_0),
    decreases els.len() - j,
{
    assert(els.take(j + 1).drop_last() =~= els.take(j));
    assert(els.take(j + 1).last() == els[j]);
    lemma_binaries_err_up(els, j + 1);
}

proof fn lemma_binaries_err_up(els: Seq<JsonValue>, k: int)
    requires
        0 <= k <= els.len(),
        ddb_binaries(els.take(k)) is Err,
    ensures
        ddb_binaries(els) == ddb_binaries(els.take(k)),
    decreases els.len() - k,
{
    if k < els.len() {
        assert(els.take(k + 1).drop_last() =~= els.take(k));
        lemma_binaries_err_up(els, k + 1);
    } else {
        assert(els.take(k) =~= els);
    }
}

/// The attributes of the entries of an item or map in DynamoDB JSON.
fn ddbjson_entries(o: &Vec<(String, JsonValue)>) -> (r: DdbRes<Vec<(String, AttrVal)>>)
    ensures
        match r {
            Ok(x) => ddb_entries(o@) == Ok::<Seq<(Seq<char>, AttrValSpec)>, DdbJsonError>(
                pairs_view(x@),
            ),
            Err(e) => ddb_entries(o@) == Err::<Seq<(Seq<char>, AttrValSpec)>, DdbJsonError>(e),
        },
    decreases o, 0int,
{
    let mut out: Vec<(String, AttrVal)> = Vec::new();
    let mut j: usize = 0;
    assert(o@.take(0) =~= Seq::<(String, JsonValue)>::empty());
    assert(pairs_view(out@) =~= Seq::<(Seq<char>, AttrValSpec)>::empty());
    while j < o.len()
        invariant
            j <= o.len(),
            ddb_entries(o@.take(j as int)) == Ok::<Seq<(Seq<char>, AttrValSpec)>, DdbJsonError>(
                pairs_view(out@),
            ),
        decreases o.len() - j,
    {
        proof {
            assert(decreases_to!(o => o@));
            assert(decreases_to!(o@ => o@[j as int]));
            assert(decreases_to!(o@[j as int] => o@[j as int].1));
            assert(o@.take(j + 1).drop_last() =~= o@.take(j as int));
            assert(o@.take(j + 1).last() == o@[j as int]);
        }
        match ddbjson_val_to_attrval(&o[j].1) {
            Ok(Some(x)) => {
                map_put_x(&mut out, o[j].0.clone(), x);
            },
            Ok(None) => {},
            Err(e) => {
                proof {
                    lemma_entries_err(o@, j + 1);
                }
                return Err(e);
            },
        }
        j = j + 1;
    }
    assert(o@.take(o.len() as int) =~= o@);
    Ok(out)
}

proof fn lemma_entries_err(o: Seq<(String, JsonValue)>, k: int)
    requires
        0 <= k <= o.len(),
        ddb_entries(o.take(k)) is Err,
    ensures
        ddb_entries(o) == ddb_entries(o.take(k)),
    decreases o.len() - k,
{
    if k < o.len() {
        assert(o.take(k + 1).drop_last() =~= o.take(k));
        lemma_entries_err(o, k + 1);
    } else {
        assert(o.take(k) =~= o);
    }
}

/// The attributes of an item in DynamoDB JSON, which must be an object.
pub fn ddbjson_attributes_to_attrvals(ddbjson_attributes: &JsonValue) -> (r: DdbRes<
    Vec<(String, AttrVal)>,
>)
    ensures
        match r {
            Ok(x) => ddb_attributes(*ddbjson_attributes) == Ok::<
                Seq<(Seq<char>, AttrValSpec)>,
                DdbJsonError,
            >(pairs_view(x@)),
            Err(e) => ddb_attributes(*ddbjson_attributes) == Err::<
                Seq<(Seq<char>, AttrValSpec)>,
                DdbJsonError,
            >(e),
        },
{
    match ddbjson_attributes {
        JsonValue::Object(o) => ddbjson_entries(o),
        _ => Err(DdbJsonError::NotAnObject),
    }
}

/// A request of a BatchWriteItem call: put an item, or delete the item with a key.
#[derive(Debug, PartialEq, Eq)]
pub enum WriteRequest {
    Put(Vec<(String, AttrVal)>),
    Delete(Vec<(String, AttrVal)>),
}

/// The model of a [`WriteRequest`].
pub enum WriteRequestSpec {
    Put(Seq<(Seq<char>, AttrValSpec)>),
    Delete(Seq<(Seq<char>, AttrValSpec)>),
}

pub open spec fn write_request_view(w: WriteRequest) -> WriteRequestSpec {
    match w {
        WriteRequest::Put(x) => WriteRequestSpec::Put(pairs_view(x@)),
        WriteRequest::Delete(x) => WriteRequestSpec::Delete(pairs_view(x@)),
    }
}

/// The value of the entry `k` of a JSON object, if it is an object with that entry.
pub open spec fn json_get(v: JsonValue, k: Seq<char>) -> Option<JsonValue> {
    match v {
        JsonValue::Object(o) => {
            let i = json_key_from(o@, k, 0);
            if 0 <= i < o.len() {
                Some(o@[i].1)
            } else {
                None
            }
        },
        _ => None,
    }
}

/// The requests of the operations `ops`: `{"PutRequest": {"Item": ...}}` and
/// `{"DeleteRequest": {"Key": ...}}`; other operations are skipped.
pub open spec fn write_requests_of(ops: Seq<JsonValue>) -> DdbRes<Seq<WriteRequestSpec>>
    decreases ops.len(),
{
    if ops.len() == 0 {
        Ok(Seq::empty())
    } else {
        match write_requests_of(ops.drop_last()) {
            Err(e) => Err(e),
            Ok(ws) => {
                let op = ops.last();
                match json_get(op, "PutRequest"@) {
                    Some(w) => match json_get(w, "Item"@) {
                        Some(raw) => match ddb_attributes(raw) {
                            Ok(item) => Ok(ws.push(WriteRequestSpec::Put(item))),
                            Err(e) => Err(e),
                        },
                        None => Ok(ws),
                    },
                    None => match json_get(op, "DeleteRequest"@) {
                        Some(w) => match json_get(w, "Key"@) {
                            Some(raw) => match ddb_attributes(raw) {
                                Ok(key) => Ok(ws.push(WriteRequestSpec::Delete(key))),
                                Err(e) => Err(e),
                            },
                            None => Ok(ws),
                        },
                        None => Ok(ws),
                    },
                }
            },
        }
    }
}

/// The request items of each table, in order; the operations of a table must be an
/// array.
pub open spec fn request_items_of(tables: Seq<(String, JsonValue)>) -> DdbRes<
    Seq<(Seq<char>, Seq<WriteRequestSpec>)>,
>
    decreases tables.len(),
{
    if tables.len() == 0 {
        Ok(Seq::empty())
    } else {
        match request_items_of(tables.drop_last()) {
            Err(e) => Err(e),
            Ok(rs) => match tables.last().1 {
                JsonValue::Array(ops) => match write_requests_of(ops@) {
                    Ok(ws) => Ok(rs.push((tables.last().0@, ws))),
                    Err(e) => Err(e),
                },
                _ => Err(DdbJsonError::NotAnArray),
            },
        }
    }
}

/// The value of the entry `key` of a JSON value, if it is an object with that entry.
fn json_get_x<'a>(v: &'a JsonValue, key: &str) -> (r: Option<&'a JsonValue>)
    ensures
        match r {
            Some(x) => json_get(*v, key@) == Some(*x),
            None => json_get(*v, key@) is None,
        },
{
    match v {
        JsonValue::Object(o) => match find_key(o, key) {
            Some(i) => Some(&o[i].1),
            None => None,
        },
        _ => None,
    }
}

pub open spec fn requests_view(v: Seq<WriteRequest>) -> Seq<WriteRequestSpec> {
    v.map_values(|w: WriteRequest| write_request_view(w))
}

/// The requests of the operations of one table.
fn write_requests(ops: &Vec<JsonValue>) -> (r: DdbRes<Vec<WriteRequest>>)
    ensures
        match r {
            Ok(x) => write_requests_of(ops@) == Ok::<Seq<WriteRequestSpec>, DdbJsonError>(
                requests_view(x@),
            ),
            Err(e) => write_requests_of(ops@) == Err::<Seq<WriteRequestSpec>, DdbJsonError>(e),
        },
{
    let mut out: Vec<WriteRequest> = Vec::new();
    let mut j: usize = 0;
    assert(ops@.take(0) =~= Seq::<JsonValue>::empty());
    assert(requests_view(out@) =~= Seq::<WriteRequestSpec>::empty());
    proof {
        reveal_strlit("PutRequest");
        reveal_strlit("Item");
        reveal_strlit("DeleteRequest");
        reveal_strlit("Key");
    }
    while j < ops.len()
        invariant
            j <= ops.len(),
            write_requests_of(ops@.take(j as int)) == Ok::<Seq<WriteRequestSpec>, DdbJsonError>(
                requests_view(out@),
            ),
        decreases ops.len() - j,
    {
        assert(ops@.take(j + 1).drop_last() =~= ops@.take(j as int));
        assert(ops@.take(j + 1).last() == ops@[j as int]);
        let op = &ops[j];
        let ghost before = requests_view(out@);
        let mut pushed: Option<WriteRequest> = None;
        match json_get_x(op, "PutRequest") {
            Some(w) => match json_get_x(w, "Item") {
                Some(raw) => match ddbjson_attributes_to_attrvals(raw) {
                    Ok(item) => {
                        pushed = Some(WriteRequest::Put(item));
                    },
                    Err(e) => {
                        proof {
                            lemma_requests_err(ops@, j + 1);
                        }
                        return Err(e);
                    },
                },
                None => {},
            },
            None => match json_get_x(op, "DeleteRequest") {
                Some(w) => match json_get_x(w, "Key") {
                    Some(raw) => match ddbjson_attributes_to_attrvals(raw) {
                        Ok(key) => {
                            pushed = Some(WriteRequest::Delete(key));
                        },
                        Err(e) => {
                            proof {
                                lemma_requests_err(ops@, j + 1);
                            }
                            return Err(e);
                        },
                    },
                    None => {},
                },
                None => {},
            },
        }
        match pushed {
            Some(w) => {
                assert(requests_view(out@.push(w)) =~= before.push(write_request_view(w)));
                out.push(w);
            },
            None => {},
        }
        j = j + 1;
    }
    assert(ops@.take(ops.len() as int) =~= ops@);
    Ok(out)
}

proof fn lemma_requests_err(ops: Seq<JsonValue>, k: int)
    requires
        0 <= k <= ops.len(),
        write_requests_of(ops.take(k)) is Err,
    ensures
        write_requests_of(ops) == write_requests_of(ops.take(k)),
    decreases ops.len() - k,
{
    if k < ops.len() {
        assert(ops.take(k + 1).drop_last() =~= ops.take(k));
        lemma_requests_err(ops, k + 1);
    } else {
        assert(ops.take(k) =~= ops);
    }
}

pub open spec fn items_view(v: Seq<(String, Vec<WriteRequest>)>) -> Seq<(Seq<char>, Seq<WriteRequestSpec>)> {
    v.map_values(|p: (String, Vec<WriteRequest>)| (p.0@, requests_view(p.1@)))
}

/// The request items of a BatchWriteItem call from its content in DynamoDB JSON: for
/// each table, its put and delete requests.
pub fn build_batch_request_items_from_json(tables: &Vec<(String, JsonValue)>) -> (r: DdbRes<
    Vec<(String, Vec<WriteRequest>)>,
>)
    ensures
        match r {
            Ok(x) => request_items_of(tables@) == Ok::<
                Seq<(Seq<char>, Seq<WriteRequestSpec>)>,
                DdbJsonError,
            >(items_view(x@)),
            Err(e) => request_items_of(tables@) == Err::<
                Seq<(Seq<char>, Seq<WriteRequestSpec>)>,
                DdbJsonError,
            >(e),
        },
{
    let mut results: Vec<(String, Vec<WriteRequest>)> = Vec::new();
    let mut j: usize = 0;
    assert(tables@.take(0) =~= Seq::<(String, JsonValue)>::empty());
    assert(items_view(results@) =~= Seq::<(Seq<char>, Seq<WriteRequestSpec>)>::empty());
    while j < tables.len()
        invariant
            j <= tables.len(),
            request_items_of(tables@.take(j as int)) == Ok::<
                Seq<(Seq<char>, Seq<WriteRequestSpec>)>,
                DdbJsonError,
            >(items_view(results@)),
        decreases tables.len() - j,
    {
        assert(tables@.take(j + 1).drop_last() =~= tables@.take(j as int));
        assert(tables@.take(j + 1).last() == tables@[j as int]);
        let ws = match &tables[j].1 {
            JsonValue::Array(ops) => match write_requests(ops) {
                Ok(ws) => ws,
                Err(e) => {
                    proof {
                        lemma_items_err(tables@, j + 1);
                    }
                    return Err(e);
                },
            },
            _ => {
                proof {
                    lemma_items_err(tables@, j + 1);
                }
                return Err(DdbJsonError::NotAnArray);
            },
        };
        let entry = (tables[j].0.clone(), ws);
        assert(items_view(results@.push(entry)) =~= items_view(results@).push(
            (entry.0@, requests_view(entry.1@)),
        ));
        results.push(entry);
        j = j + 1;
    }
    assert(tables@.take(tables.len() as int) =~= tables@);
    Ok(results)
}

proof fn lemma_items_err(tables: Seq<(String, JsonValue)>, k: int)
    requires
        0 <= k <= tables.len(),
        request_items_of(tables.take(k)) is Err,
    ensures
        request_items_of(tables) == request_items_of(tables.take(k)),
    decreases tables.len() - k,
{
    if k < tables.len() {
        assert(tables.take(k + 1).drop_last() =~= tables.take(k));
        lemma_items_err(tables, k + 1);
    } else {
        assert(tables.take(k) =~= tables);
    }
}


/// The non-empty lines of a text.
pub open spec fn nonempty_lines(s: Seq<char>) -> Seq<Seq<char>> {
    split_on(s, '\n').filter(nonempty())
}

pub open spec fn nonempty() -> spec_fn(Seq<char>) -> bool {
    |l: Seq<char>| l.len() > 0
}

/// A CSV text read as its header cells and the cells of each row: its non-empty lines
/// split at commas, the first line being the header; `None` when it has no non-empty
/// line.
pub open spec fn csv_table(s: Seq<char>) -> Option<(Seq<Seq<char>>, Seq<Seq<Seq<char>>>)> {
    let lines = nonempty_lines(s);
    if lines.len() == 0 {
        None
    } else {
        Some((split_on(lines[0], ','), lines.skip(1).map_values(|l: Seq<char>| split_on(l, ','))))
    }
}

pub open spec fn rows_view(v: Seq<Vec<String>>) -> Seq<Seq<Seq<char>>> {
    v.map_values(|r: Vec<String>| strings_view(r@))
}

/// Reads a CSV text into its header cells and the cells of its rows.
pub fn split_csv(input: &str) -> (r: Option<(Vec<String>, Vec<Vec<String>>)>)
    ensures
        match r {
            Some((h, rows)) => csv_table(input@) == Some((strings_view(h@), rows_view(rows@))),
            None => csv_table(input@) is None,
        },
{
    let parts = split_str(input, '\n');
    let ghost pv = parts@.map_values(|t: String| t@);
    let ghost pred = nonempty();
    let mut lines: Vec<String> = Vec::new();
    let mut i: usize = 0;
    assert(pv.take(0) =~= Seq::<Seq<char>>::empty());
    assert(strings_view(lines@) =~= Seq::<Seq<char>>::empty());
    while i < parts.len()
        invariant
            i <= parts.len(),
            pv == parts@.map_values(|t: String| t@),
            pv.len() == parts.len(),
            pred == nonempty(),
            strings_view(lines@) == pv.take(i as int).filter(pred),
        decreases parts.len() - i,
    {
        assert(pv.take(i + 1).drop_last() =~= pv.take(i as int));
        assert(pv.take(i + 1).last() == parts@[i as int]@);
        if parts[i].as_str().unicode_len() > 0 {
            let ghost before = lines@;
            lines.push(parts[i].clone());
            assert(strings_view(lines@) =~= strings_view(before).push(parts@[i as int]@));
            assert(pred(pv.take(i + 1).last()));
        } else {
            assert(!pred(pv.take(i + 1).last()));
        }
        proof {
            reveal(Seq::filter);
        }
        i = i + 1;
    }
    assert(pv.take(parts.len() as int) =~= pv);
    let ghost lv = strings_view(lines@);
    assert(lv == nonempty_lines(input@));
    if lines.len() == 0 {
        return None;
    }
    let headers = split_str(lines[0].as_str(), ',');
    assert(strings_view(headers@) =~= headers@.map_values(|t: String| t@));
    let mut rows: Vec<Vec<String>> = Vec::new();
    let mut j: usize = 1;
    while j < lines.len()
        invariant
            1 <= j <= lines.len(),
            lv == strings_view(lines@),
            lv.len() == lines.len(),
            rows_view(rows@) == lv.subrange(1, j as int).map_values(|l: Seq<char>| split_on(l, ',')),
        decreases lines.len() - j,
    {
        let cells = split_str(lines[j].as_str(), ',');
        let ghost before = rows@;
        rows.push(cells);
        assert(strings_view(cells@) =~= cells@.map_values(|t: String| t@));
        assert(rows_view(rows@) =~= rows_view(before).push(strings_view(cells@)));
        assert(lv.subrange(1, j + 1).map_values(|l: Seq<char>| split_on(l, ',')) =~= lv.subrange(
            1,
            j as int,
        ).map_values(|l: Seq<char>| split_on(l, ',')).push(split_on(lv[j as int], ',')));
        j = j + 1;
    }
    assert(lv.subrange(1, lines.len() as int) =~= lv.skip(1));
    Some((headers, rows))
}

/// The number of cells in the rows of a CSV matrix.
pub open spec fn cells_total(m: Seq<Vec<String>>) -> int
    decreases m.len(),
{
    if m.len() == 0 {
        0
    } else {
        cells_total(m.drop_last()) + m.last().len()
    }
}

proof fn lemma_cells_total_grows(m: Seq<Vec<String>>, i: int, j: int)
    requires
        0 <= i <= j <= m.len(),
    ensures
        cells_total(m.take(i)) <= cells_total(m.take(j)),
    decreases j - i,
{
    if i < j {
        assert(m.take(j).drop_last() =~= m.take(j - 1));
        lemma_cells_total_grows(m, i, j - 1);
    }
}

/// Whether the rows of a CSV matrix hold as many cells in all as the rows times the
/// headers.
pub fn csv_matrix_consistent(matrix: &Vec<Vec<String>>, headers_len: usize) -> (b: bool)
    ensures
        b == (cells_total(matrix@) == headers_len * matrix.len()),
{
    let h: u128 = headers_len as u128;
    let n: u128 = matrix.len() as u128;
    assert(h * n <= 0xffff_ffff_ffff_ffff * 0xffff_ffff_ffff_ffff) by (nonlinear_arith)
        requires
            h <= 0xffff_ffff_ffff_ffff,
            n <= 0xffff_ffff_ffff_ffff,
    ;
    let target: u128 = h * n;
    let mut total: u128 = 0;
    let mut i: usize = 0;
    assert(matrix@.take(0) =~= Seq::<Vec<String>>::empty());
    while i < matrix.len()
        invariant
            i <= matrix.len(),
            target == headers_len * matrix.len(),
            target <= 0xffff_ffff_ffff_ffff * 0xffff_ffff_ffff_ffff,
            total == cells_total(matrix@.take(i as int)),
            total <= target,
        decreases matrix.len() - i,
    {
        assert(matrix@.take(i + 1).drop_last() =~= matrix@.take(i as int));
        total = total + matrix[i].len() as u128;
        if total > target {
            proof {
                lemma_cells_total_grows(matrix@, i + 1, matrix.len() as int);
                assert(matrix@.take(matrix.len() as int) =~= matrix@);
            }
            return false;
        }
        i = i + 1;
    }
    assert(matrix@.take(matrix.len() as int) =~= matrix@);
    total == target
}

/// The item of a CSV row: each header names the attribute of the cell under it, a
/// later cell under the same header replacing an earlier one.
pub open spec fn row_item(h: Seq<String>, c: Seq<JsonValue>, inference: bool) -> Seq<(Seq<char>, AttrValSpec)>
    decreases h.len(),
{
    if h.len() == 0 || c.len() == 0 {
        Seq::empty()
    } else {
        map_put(row_item(h.drop_last(), c.drop_last(), inference), h.last()@, json_to_attr(c.last(), inference))
    }
}

proof fn lemma_row_item_keyed_once(h: Seq<String>, c: Seq<JsonValue>, inference: bool)
    ensures
        maps_keyed_once(AttrValSpec::M(row_item(h, c, inference))),
    decreases h.len(),
{
    if h.len() > 0 && c.len() > 0 {
        lemma_row_item_keyed_once(h.drop_last(), c.drop_last(), inference);
        lemma_json_keyed_once(c.last(), inference);
        lemma_map_put_keyed_once(
            row_item(h.drop_last(), c.drop_last(), inference),
            h.last()@,
            json_to_attr(c.last(), inference),
        );
    }
}

/// The item of one CSV row.
fn csv_row_item(headers: &Vec<String>, cells: &Vec<JsonValue>, enable_set_inference: bool) -> (r: Vec<(String, AttrVal)>)
    requires
        cells.len() == headers.len(),
    ensures
        pairs_view(r@) == row_item(headers@, cells@, enable_set_inference),
{
    let mut item: Vec<(String, AttrVal)> = Vec::new();
    let mut i: usize = 0;
    while i < headers.len()
        invariant
            i <= headers.len(),
            cells.len() == headers.len(),
            pairs_view(item@) == row_item(headers@.take(i as int), cells@.take(i as int), enable_set_inference),
        decreases headers.len() - i,
    {
        assert(headers@.take(i + 1).drop_last() =~= headers@.take(i as int));
        assert(cells@.take(i + 1).drop_last() =~= cells@.take(i as int));
        let v = dispatch_jsonvalue_to_attrval(&cells[i], enable_set_inference);
        map_put_x(&mut item, headers[i].clone(), v);
        i = i + 1;
    }
    assert(headers@.take(headers.len() as int) =~= headers@);
    assert(cells@.take(cells.len() as int) =~= cells@);
    item
}

/// The put requests of the rows of a CSV matrix, each row's cells read as JSON.
pub fn csv_matrix_to_request_items(
    rows: &Vec<Vec<JsonValue>>,
    headers: &Vec<String>,
    enable_set_inference: bool,
) -> (r: Vec<WriteRequest>)
    requires
        forall|i: int| 0 <= i < rows.len() ==> (#[trigger] rows@[i]).len() == headers.len(),
    ensures
        r.len() == rows.len(),
        forall|i: int|
            0 <= i < rows.len() ==> write_request_view(#[trigger] r@[i]) == WriteRequestSpec::Put(
                row_item(headers@, rows@[i]@, enable_set_inference),
            ),
        forall|i: int|
            0 <= i < rows.len() ==> maps_keyed_once(
                AttrValSpec::M(#[trigger] row_item(headers@, rows@[i]@, enable_set_inference)),
            ),
{
    assert forall|i: int| 0 <= i < rows.len() implies maps_keyed_once(
        AttrValSpec::M(#[trigger] row_item(headers@, rows@[i]@, enable_set_inference)),
    ) by {
        lemma_row_item_keyed_once(headers@, rows@[i]@, enable_set_inference);
    }
    let mut out: Vec<WriteRequest> = Vec::new();
    let mut i: usize = 0;
    while i < rows.len()
        invariant
            i <= rows.len(),
            out.len() == i,
            forall|k: int| 0 <= k < rows.len() ==> (#[trigger] rows@[k]).len() == headers.len(),
            forall|k: int|
                0 <= k < i ==> write_request_view(#[trigger] out@[k]) == WriteRequestSpec::Put(
                    row_item(headers@, rows@[k]@, enable_set_inference),
                ),
        decreases rows.len() - i,
    {
        assert(rows@[i as int].len() == headers.len());
        let item = csv_row_item(headers, &rows[i], enable_set_inference);
        out.push(WriteRequest::Put(item));
        i = i + 1;
    }
    out
}

/// The put requests of items written in JSON, each of which must be an object; `None`
/// when one is not.
pub fn convert_jsonvals_to_request_items(items: &Vec<JsonValue>, enable_set_inference: bool) -> (r: Option<
    Vec<WriteRequest>,
>)
    ensures
        r is Some <==> forall|i: int| 0 <= i < items.len() ==> (#[trigger] items@[i]) is Object,
        r matches Some(v) ==> v.len() == items.len() && forall|i: int|
            0 <= i < items.len() ==> write_request_view(#[trigger] v@[i]) == WriteRequestSpec::Put(
                json_entries(items@[i]->Object_0@, enable_set_inference),
            ),
        r is Some ==> forall|i: int|
            0 <= i < items.len() ==> maps_keyed_once(
                AttrValSpec::M(#[trigger] json_entries(items@[i]->Object_0@, enable_set_inference)),
            ),
{
    assert forall|i: int| 0 <= i < items.len() && items@[i] is Object implies maps_keyed_once(
        AttrValSpec::M(#[trigger] json_entries(items@[i]->Object_0@, enable_set_inference)),
    ) by {
        lemma_entries_keyed_once(items@[i]->Object_0@, enable_set_inference);
    }
    let mut out: Vec<WriteRequest> = Vec::new();
    let mut i: usize = 0;
    while i < items.len()
        invariant
            i <= items.len(),
            out.len() == i,
            forall|k: int| 0 <= k < i ==> (#[trigger] items@[k]) is Object,
            forall|k: int|
                0 <= k < i ==> write_request_view(#[trigger] out@[k]) == WriteRequestSpec::Put(
                    json_entries(items@[k]->Object_0@, enable_set_inference),
                ),
        decreases items.len() - i,
    {
        match &items[i] {
            JsonValue::Object(_) => {
                match dispatch_jsonvalue_to_attrval(&items[i], enable_set_inference) {
                    AttrVal::M(entries) => {
                        out.push(WriteRequest::Put(entries));
                    },
                    _ => {
                        return None;
                    },
                }
            },
            _ => {
                return None;
            },
        }
        i = i + 1;
    }
    Some(out)
}


/// Why the items of a `bwrite` command cannot be written.
#[derive(Debug, PartialEq, Eq)]
pub enum BatchInputError {
    /// An item is no valid dynein format text.
    Parse(ParseError),
    /// An item lacks a key attribute or has one of the wrong type, or nothing was given.
    Invalid(InvalidBatchInput),
}

/// The model of a [`BatchInputError`].
pub enum BatchErrorSpec {
    Parse(ParseErrorSpec),
    Invalid(Seq<char>),
}

pub open spec fn batch_error_view(e: BatchInputError) -> BatchErrorSpec {
    match e {
        BatchInputError::Parse(p) => BatchErrorSpec::Parse(p@),
        BatchInputError::Invalid(InvalidBatchInput::InvalidInput(m)) => BatchErrorSpec::Invalid(m@),
    }
}

/// Checks that a `bwrite` command was given items to put or delete, or an input file.
pub fn validate_batch_args(
    puts: &Option<Vec<String>>,
    dels: &Option<Vec<String>>,
    input_file: &Option<String>,
) -> (r: Result<(), InvalidBatchInput>)
    ensures
        r is Ok <==> (puts is Some || dels is Some || input_file is Some),
        r matches Err(InvalidBatchInput::InvalidInput(m)) ==> m@
            == "must provide at least one argument for 'bwrite' command"@,
{
    if puts.is_none() && dels.is_none() && input_file.is_none() {
        return Err(
            InvalidBatchInput::InvalidInput(
                String::from_str("must provide at least one argument for 'bwrite' command"),
            ),
        );
    }
    Ok(())
}

/// The request that an item written in dynein format makes: a put, or a delete of the
/// item with that key.
pub open spec fn item_request(ts: TableSchema, text: Seq<char>, put: bool) -> Result<
    WriteRequestSpec,
    BatchErrorSpec,
> {
    match dynein_format_outcome(Seq::empty(), text) {
        Err(e) => Err(BatchErrorSpec::Parse(e)),
        Ok(p) => if item_keys_valid(p, ts) {
            Ok(
                if put {
                    WriteRequestSpec::Put(p)
                } else {
                    WriteRequestSpec::Delete(p)
                },
            )
        } else {
            Err(BatchErrorSpec::Invalid(item_key_error(p, ts)))
        },
    }
}

/// The requests of items written in dynein format, in order; the first item that
/// cannot be written gives the error.
pub open spec fn item_requests(ts: TableSchema, texts: Seq<String>, put: bool) -> Result<
    Seq<WriteRequestSpec>,
    BatchErrorSpec,
>
    decreases texts.len(),
{
    if texts.len() == 0 {
        Ok(Seq::empty())
    } else {
        match item_requests(ts, texts.drop_last(), put) {
            Err(e) => Err(e),
            Ok(ws) => match item_request(ts, texts.last()@, put) {
                Ok(w) => Ok(ws.push(w)),
                Err(e) => Err(e),
            },
        }
    }
}

/// The requests of the `--put` items, then of the `--del` items.
pub open spec fn batch_requests(ts: TableSchema, puts: Option<Vec<String>>, dels: Option<Vec<String>>) -> Result<
    Seq<WriteRequestSpec>,
    BatchErrorSpec,
> {
    let p = match puts {
        Some(v) => item_requests(ts, v@, true),
        None => Ok(Seq::empty()),
    };
    match p {
        Err(e) => Err(e),
        Ok(ps) => match dels {
            Some(v) => match item_requests(ts, v@, false) {
                Err(e) => Err(e),
                Ok(ds) => Ok(ps + ds),
            },
            None => Ok(ps),
        },
    }
}

proof fn lemma_item_requests_err(ts: TableSchema, texts: Seq<String>, put: bool, k: int)
    requires
        0 <= k <= texts.len(),
        item_requests(ts, texts.take(k), put) is Err,
    ensures
        item_requests(ts, texts, put) == item_requests(ts, texts.take(k), put),
    decreases texts.len() - k,
{
    if k < texts.len() {
        assert(texts.take(k + 1).drop_last() =~= texts.take(k));
        lemma_item_requests_err(ts, texts, put, k + 1);
    } else {
        assert(texts.take(k) =~= texts);
    }
}

/// Appends the requests of items written in dynein format to `out`.
fn push_item_requests(
    out: &mut Vec<WriteRequest>,
    parser: &DyneinParser,
    ts: &TableSchema,
    texts: &Vec<String>,
    put: bool,
) -> (r: Result<(), BatchInputError>)
    ensures
        match r {
            Ok(_) => item_requests(*ts, texts@, put) == Ok::<Seq<WriteRequestSpec>, BatchErrorSpec>(
                requests_view(final(out)@).skip(old(out)@.len() as int),
            ) && requests_view(final(out)@).take(old(out)@.len() as int) == requests_view(old(out)@)
                && final(out)@.len() >= old(out)@.len(),
            Err(e) => item_requests(*ts, texts@, put) == Err::<Seq<WriteRequestSpec>, BatchErrorSpec>(
                batch_error_view(e),
            ),
        },
{
    let ghost start = requests_view(out@);
    let ghost n0 = out@.len();
    let mut i: usize = 0;
    assert(texts@.take(0) =~= Seq::<String>::empty());
    assert(requests_view(out@).skip(n0 as int) =~= Seq::<WriteRequestSpec>::empty());
    while i < texts.len()
        invariant
            i <= texts.len(),
            n0 <= out@.len(),
            start.len() == n0,
            requests_view(out@).take(n0 as int) == start,
            item_requests(*ts, texts@.take(i as int), put) == Ok::<Seq<WriteRequestSpec>, BatchErrorSpec>(
                requests_view(out@).skip(n0 as int),
            ),
        decreases texts.len() - i,
    {
        assert(texts@.take(i + 1).drop_last() =~= texts@.take(i as int));
        assert(texts@.take(i + 1).last() == texts@[i as int]);
        let parsed = parser.parse_dynein_format(None, texts[i].as_str());
        let attrs = match parsed {
            Ok(a) => a,
            Err(e) => {
                proof {
                    lemma_item_requests_err(*ts, texts@, put, i + 1);
                }
                return Err(BatchInputError::Parse(e));
            },
        };
        assert(pairs_view(Seq::<(String, AttrVal)>::empty()) =~= Seq::<(Seq<char>, AttrValSpec)>::empty());
        match validate_item_keys(&attrs, ts) {
            Ok(_) => {},
            Err(e) => {
                proof {
                    lemma_item_requests_err(*ts, texts@, put, i + 1);
                }
                return Err(BatchInputError::Invalid(e));
            },
        }
        let w = if put {
            WriteRequest::Put(attrs)
        } else {
            WriteRequest::Delete(attrs)
        };
        let ghost before = out@;
        out.push(w);
        assert(requests_view(out@) =~= requests_view(before).push(write_request_view(w)));
        assert(requests_view(out@).take(n0 as int) =~= requests_view(before).take(n0 as int));
        assert(requests_view(out@).skip(n0 as int) =~= requests_view(before).skip(n0 as int).push(
            write_request_view(w),
        ));
        i = i + 1;
    }
    assert(texts@.take(texts.len() as int) =~= texts@);
    Ok(())
}

/// The requests of the items given to a `bwrite` command with `--put` and `--del`, in
/// that order, each read in dynein format and checked against the keys of the table.
pub fn batch_write_requests(
    ts: &TableSchema,
    puts: &Option<Vec<String>>,
    dels: &Option<Vec<String>>,
) -> (r: Result<Vec<WriteRequest>, BatchInputError>)
    ensures
        match r {
            Ok(v) => batch_requests(*ts, *puts, *dels) == Ok::<Seq<WriteRequestSpec>, BatchErrorSpec>(
                requests_view(v@),
            ),
            Err(e) => batch_requests(*ts, *puts, *dels) == Err::<Seq<WriteRequestSpec>, BatchErrorSpec>(
                batch_error_view(e),
            ),
        },
{
    let parser = DyneinParser::new();
    let mut out: Vec<WriteRequest> = Vec::new();
    if let Some(items) = puts {
        match push_item_requests(&mut out, &parser, ts, items, true) {
            Ok(_) => {},
            Err(e) => {
                return Err(e);
            },
        }
    }
    let ghost ps = requests_view(out@);
    assert(ps.skip(0) =~= ps);
    assert(puts is None ==> ps =~= Seq::<WriteRequestSpec>::empty());
    let ghost n = out@.len();
    if let Some(keys) = dels {
        match push_item_requests(&mut out, &parser, ts, keys, false) {
            Ok(_) => {
                assert(requests_view(out@) =~= requests_view(out@).take(n as int) + requests_view(out@).skip(
                    n as int,
                ));
            },
            Err(e) => {
                return Err(e);
            },
        }
    }
    Ok(out)
}

/// The index of the first entry for `table`, or -1.
pub open spec fn table_entry_index(items: Seq<(Seq<char>, Seq<WriteRequestSpec>)>, table: Seq<char>) -> int
    decreases items.len(),
{
    if items.len() == 0 {
        -1
    } else if table_entry_index(items.drop_last(), table) >= 0 {
        table_entry_index(items.drop_last(), table)
    } else if items.last().0 == table {
        items.len() - 1
    } else {
        -1
    }
}

/// The request items of `base` with those of `more` added: the requests for a table
/// already there are appended to its own, other tables are added.
pub open spec fn merged_items(
    base: Seq<(Seq<char>, Seq<WriteRequestSpec>)>,
    more: Seq<(Seq<char>, Seq<WriteRequestSpec>)>,
) -> Seq<(Seq<char>, Seq<WriteRequestSpec>)>
    decreases more.len(),
{
    if more.len() == 0 {
        base
    } else {
        let m = merged_items(base, more.drop_last());
        let t = more.last().0;
        let i = table_entry_index(m, t);
        if i >= 0 {
            m.update(i, (t, m[i].1 + more.last().1))
        } else {
            m.push(more.last())
        }
    }
}

proof fn lemma_table_entry_found(items: Seq<(Seq<char>, Seq<WriteRequestSpec>)>, table: Seq<char>)
    requires
        table_entry_index(items, table) >= 0,
    ensures
        table_entry_index(items, table) < items.len(),
        items[table_entry_index(items, table)].0 == table,
    decreases items.len(),
{
    if table_entry_index(items.drop_last(), table) >= 0 {
        lemma_table_entry_found(items.drop_last(), table);
    }
}

proof fn lemma_table_entry_step(items: Seq<(Seq<char>, Seq<WriteRequestSpec>)>, table: Seq<char>, i: int)
    requires
        0 <= i < items.len(),
        table_entry_index(items.take(i), table) == -1,
    ensures
        items[i].0 == table ==> table_entry_index(items.take(i + 1), table) == i,
        items[i].0 != table ==> table_entry_index(items.take(i + 1), table) == -1,
{
    assert(items.take(i + 1).drop_last() =~= items.take(i));
}

proof fn lemma_table_entry_prefix(items: Seq<(Seq<char>, Seq<WriteRequestSpec>)>, table: Seq<char>, i: int)
    requires
        0 <= i <= items.len(),
        table_entry_index(items.take(i), table) >= 0,
    ensures
        table_entry_index(items, table) == table_entry_index(items.take(i), table),
    decreases items.len() - i,
{
    if i < items.len() {
        assert(items.take(i + 1).drop_last() =~= items.take(i));
        lemma_table_entry_prefix(items, table, i + 1);
    } else {
        assert(items.take(i) =~= items);
    }
}

/// The position of the entry for `table`.
fn find_table_entry(items: &Vec<(String, Vec<WriteRequest>)>, table: &String) -> (r: Option<usize>)
    ensures
        match r {
            Some(i) => i < items.len() && i == table_entry_index(items_view(items@), table@),
            None => table_entry_index(items_view(items@), table@) == -1,
        },
{
    let ghost v = items_view(items@);
    let mut i: usize = 0;
    assert(v.take(0) =~= Seq::<(Seq<char>, Seq<WriteRequestSpec>)>::empty());
    while i < items.len()
        invariant
            i <= items.len(),
            v == items_view(items@),
            v.len() == items.len(),
            table_entry_index(v.take(i as int), table@) == -1,
        decreases items.len() - i,
    {
        proof {
            lemma_table_entry_step(v, table@, i as int);
        }
        if items[i].0 == *table {
            proof {
                lemma_table_entry_prefix(v, table@, i + 1);
            }
            return Some(i);
        }
        i = i + 1;
    }
    assert(v.take(items.len() as int) =~= v);
    None
}

/// Adds the request items `more` to `base`: the requests for a table already in `base`
/// are appended to its own, other tables are added after.
pub fn merge_request_items(
    base: Vec<(String, Vec<WriteRequest>)>,
    more: Vec<(String, Vec<WriteRequest>)>,
) -> (r: Vec<(String, Vec<WriteRequest>)>)
    ensures
        items_view(r@) == merged_items(items_view(base@), items_view(more@)),
{
    let ghost b = items_view(base@);
    let ghost mv = items_view(more@);
    let ghost orig = more@;
    let mut out = base;
    let mut rest = more;
    assert(mv.take(0) =~= Seq::<(Seq<char>, Seq<WriteRequestSpec>)>::empty());
    let mut k: usize = 0;
    while k < rest.len()
        invariant
            k <= rest.len(),
            rest.len() == orig.len(),
            mv == items_view(orig),
            forall|j: int| k <= j < orig.len() ==> #[trigger] rest@[j] == orig[j],
            items_view(out@) == merged_items(b, mv.take(k as int)),
        decreases rest.len() - k,
    {
        let ghost before = out@;
        let mut entry: (String, Vec<WriteRequest>) = (String::new(), Vec::new());
        std::mem::swap(&mut entry, &mut rest[k]);
        let ghost ev = (entry.0@, requests_view(entry.1@));
        assert(entry == orig[k as int]);
        assert(ev == mv[k as int]);
        assert(mv.take(k + 1).drop_last() =~= mv.take(k as int));
        let (t, mut ops) = entry;
        match find_table_entry(&out, &t) {
            Some(i) => {
                let mut cur: (String, Vec<WriteRequest>) = (String::new(), Vec::new());
                std::mem::swap(&mut cur, &mut out[i]);
                let ghost ci = cur;
                proof {
                    lemma_table_entry_found(items_view(before), t@);
                }
                assert(ci == before[i as int]);
                let ghost ops0 = ops@;
                cur.1.append(&mut ops);
                assert(requests_view(cur.1@) =~= requests_view(ci.1@) + requests_view(ops0));
                out.set(i, cur);
                assert(items_view(out@) =~= items_view(before).update(
                    i as int,
                    (t@, items_view(before)[i as int].1 + ev.1),
                ));
            },
            None => {
                out.push((t, ops));
                assert(items_view(out@) =~= items_view(before).push(ev));
            },
        }
        k = k + 1;
    }
    assert(mv.take(mv.len() as int) =~= mv);
    out
}
} // verus!
