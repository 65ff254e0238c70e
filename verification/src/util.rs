//! Table capacity modes and the key definitions of new tables.
use vstd::prelude::*;
use crate::ddb::key::{KeyAttributeDefinition, KeySchemaElement};
use crate::text::{split_on, split_str};
use crate::value::strings_view;

verus! {

/// The capacity mode of a table.
#[derive(Debug, Clone, Copy, PartialEq, Eq, Structural)]
pub enum Mode {
    Provisioned,
    OnDemand,
}

/// The billing mode that DynamoDB reports for a table.
#[derive(Debug, Clone, Copy, PartialEq, Eq, Structural)]
pub enum BillingMode {
    Provisioned,
    PayPerRequest,
    /// A mode this library does not know.
    Other,
}

/// The billing mode summary of a table description.
#[derive(Debug, Clone, Copy, PartialEq, Eq, Structural)]
pub struct BillingModeSummary {
    pub billing_mode: Option<BillingMode>,
}

/// The billing mode of a capacity mode.
pub fn billing_mode_of(m: Mode) -> (b: BillingMode)
    ensures
        b == match m {
            Mode::Provisioned => BillingMode::Provisioned,
            Mode::OnDemand => BillingMode::PayPerRequest,
        },
{
    match m {
        Mode::Provisioned => BillingMode::Provisioned,
        Mode::OnDemand => BillingMode::PayPerRequest,
    }
}

/// The capacity mode of a table from its billing mode summary: on demand when it says
/// `PAY_PER_REQUEST`, provisioned otherwise, and when there is no summary.
pub fn extract_mode(bs: &Option<BillingModeSummary>) -> (m: Mode)
    requires
        bs matches Some(x) ==> x.billing_mode is Some,
    ensures
        m == match bs {
            Some(x) => if x.billing_mode == Some(BillingMode::PayPerRequest) {
                Mode::OnDemand
            } else {
                Mode::Provisioned
            },
            None => Mode::Provisioned,
        },
{
    match bs {
        None => Mode::Provisioned,
        Some(x) => match x.billing_mode {
            Some(BillingMode::PayPerRequest) => Mode::OnDemand,
            _ => Mode::Provisioned,
        },
    }
}

/// What `str::to_uppercase` gives for a text.
pub uninterp spec fn upper_cased(s: Seq<char>) -> Seq<char>;

/// `str::to_uppercase` of std: the text with each character mapped to its upper case.
/// Its contract claims only that the result is a function of the text.
#[verifier::external_body]
fn to_uppercase(s: &str) -> (r: String)
    ensures
        r@ == upper_cased(s@),
{
    s.to_uppercase()
}

/// A `--keys` argument that is not `name` or `name,type`.
#[derive(Debug, Clone, PartialEq, Eq)]
pub struct InvalidKeyFormat {
    pub key: String,
}

/// The key schema element of the `id`-th key: the first is the partition key.
pub open spec fn key_element_spec(id: int, name: Seq<char>) -> (Seq<char>, Seq<char>) {
    (name, if id == 0 {
        "HASH"@
    } else {
        "RANGE"@
    })
}

/// The attribute definition of a key given as `name` or `name,type`: the type is upper
/// cased, and `S` when it is left out.
pub open spec fn key_definition_spec(parts: Seq<Seq<char>>) -> (Seq<char>, Seq<char>) {
    (parts[0], if parts.len() == 2 {
        upper_cased(parts[1])
    } else {
        "S"@
    })
}

/// The index of the first key of `keys` that has more than one `,`, or -1.
pub open spec fn first_invalid_key(keys: Seq<Seq<char>>) -> int
    decreases keys.len(),
{
    if keys.len() == 0 {
        -1
    } else if first_invalid_key(keys.drop_last()) >= 0 {
        first_invalid_key(keys.drop_last())
    } else if split_on(keys.last(), ',').len() >= 3 {
        keys.len() - 1
    } else {
        -1
    }
}

/// From the keys given on the command line (`name` or `name,type`, the partition key
/// first), the key schema and the attribute definitions of a table or index.
pub fn generate_essential_key_definitions(given_keys: &Vec<String>) -> (r: Result<
    (Vec<KeySchemaElement>, Vec<KeyAttributeDefinition>),
    InvalidKeyFormat,
>)
    ensures
        match r {
            Ok((ks, ads)) => {
                &&& first_invalid_key(strings_view(given_keys@)) == -1
                &&& ks.len() == given_keys.len()
                &&& ads.len() == given_keys.len()
                &&& forall|i: int|
                    0 <= i < ks.len() ==> (#[trigger] ks@[i]).attribute_name@ == key_element_spec(
                        i,
                        split_on(given_keys@[i]@, ',')[0],
                    ).0 && ks@[i].key_type@ == key_element_spec(
                        i,
                        split_on(given_keys@[i]@, ',')[0],
                    ).1
                &&& forall|i: int|
                    0 <= i < ads.len() ==> (#[trigger] ads@[i]).attribute_name@
                        == key_definition_spec(split_on(given_keys@[i]@, ',')).0
                        && ads@[i].attribute_type@ == key_definition_spec(
                        split_on(given_keys@[i]@, ','),
                    ).1
            },
            Err(e) => {
                let k = first_invalid_key(strings_view(given_keys@));
                k >= 0 && e.key@ == given_keys@[k]@
            },
        },
{
    let mut key_schema: Vec<KeySchemaElement> = Vec::new();
    let mut attribute_definitions: Vec<KeyAttributeDefinition> = Vec::new();
    let mut key_id: usize = 0;
    let ghost keys = strings_view(given_keys@);
    assert(keys.take(0) =~= Seq::<Seq<char>>::empty());
    while key_id < given_keys.len()
        invariant
            key_id <= given_keys.len(),
            keys == strings_view(given_keys@),
            first_invalid_key(keys.take(key_id as int)) == -1,
            key_schema.len() == key_id,
            attribute_definitions.len() == key_id,
            forall|i: int|
                0 <= i < key_id ==> (#[trigger] key_schema@[i]).attribute_name@
                    == key_element_spec(i, split_on(given_keys@[i]@, ',')[0]).0
                    && key_schema@[i].key_type@ == key_element_spec(
                    i,
                    split_on(given_keys@[i]@, ',')[0],
                ).1,
            forall|i: int|
                0 <= i < key_id ==> (#[trigger] attribute_definitions@[i]).attribute_name@
                    == key_definition_spec(split_on(given_keys@[i]@, ',')).0
                    && attribute_definitions@[i].attribute_type@ == key_definition_spec(
                    split_on(given_keys@[i]@, ','),
                ).1,
        decreases given_keys.len() - key_id,
    {
        let key_str = &given_keys[key_id];
        let key_and_type = split_str(key_str.as_str(), ',');
        let ghost parts = split_on(key_str@, ',');
        assert(keys.take(key_id + 1).drop_last() =~= keys.take(key_id as int));
        assert(keys.take(key_id + 1).last() == key_str@);
        assert(key_and_type.len() == parts.len());
        if key_and_type.len() >= 3 {
            proof {
                lemma_first_invalid_prefix(keys, key_id + 1);
            }
            return Err(InvalidKeyFormat { key: key_str.clone() });
        }
        proof {
            crate::text::lemma_split_on_nonempty(key_str@, ',');
        }
        assert(key_and_type@[0]@ == parts[0]);
        let name = key_and_type[0].clone();
        let role = if key_id == 0 {
            String::from_str("HASH")
        } else {
            String::from_str("RANGE")
        };
        key_schema.push(KeySchemaElement { attribute_name: name.clone(), key_type: role });
        let attribute_type = if key_and_type.len() == 2 {
            assert(key_and_type@[1]@ == parts[1]);
            to_uppercase(key_and_type[1].as_str())
        } else {
            String::from_str("S")
        };
        attribute_definitions.push(KeyAttributeDefinition { attribute_name: name, attribute_type });
        key_id = key_id + 1;
    }
    assert(keys.take(given_keys.len() as int) =~= keys);
    Ok((key_schema, attribute_definitions))
}

proof fn lemma_first_invalid_prefix(keys: Seq<Seq<char>>, n: int)
    requires
        0 < n <= keys.len(),
        first_invalid_key(keys.take(n - 1)) == -1,
        split_on(keys[n - 1], ',').len() >= 3,
    ensures
        first_invalid_key(keys) == n - 1,
    decreases keys.len() - n,
{
    assert(keys.take(n).drop_last() =~= keys.take(n - 1));
    if n < keys.len() {
        lemma_first_invalid_extend(keys, n);
        lemma_first_invalid_prefix_up(keys, n);
    } else {
        assert(keys.take(n) =~= keys);
    }
}

proof fn lemma_first_invalid_extend(keys: Seq<Seq<char>>, n: int)
    requires
        0 < n <= keys.len(),
        first_invalid_key(keys.take(n - 1)) == -1,
        split_on(keys[n - 1], ',').len() >= 3,
    ensures
        first_invalid_key(keys.take(n)) == n - 1,
{
    assert(keys.take(n).drop_last() =~= keys.take(n - 1));
}

proof fn lemma_first_invalid_prefix_up(keys: Seq<Seq<char>>, n: int)
    requires
        0 < n <= keys.len(),
        first_invalid_key(keys.take(n)) >= 0,
    ensures
        first_invalid_key(keys) == first_invalid_key(keys.take(n)),
    decreases keys.len() - n,
{
    if n < keys.len() {
        assert(keys.take(n + 1).drop_last() =~= keys.take(n));
        lemma_first_invalid_prefix_up(keys, n + 1);
    } else {
        assert(keys.take(n) =~= keys);
    }
}


/// Whether a table or index is given one or two keys, as creating one requires.
pub fn key_count_valid(given_keys: &Vec<String>) -> (b: bool)
    ensures
        b == (1 <= given_keys.len() <= 2),
{
    !given_keys.is_empty() && given_keys.len() < 3
}
} // verus!
