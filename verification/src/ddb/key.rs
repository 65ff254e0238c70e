//! Primary keys of tables and indexes: their names and scalar types.
use vstd::prelude::*;
use crate::text::push_str;
use crate::value::AttributeType;

verus! {

/// The data types that a primary key can have.
#[derive(Debug, Clone, Copy, PartialEq, Eq, Structural)]
pub enum KeyType {
    S,
    N,
    B,
}

/// The letter of a key type: `S`, `N` or `B`.
pub open spec fn key_type_text(k: KeyType) -> Seq<char> {
    match k {
        KeyType::S => "S"@,
        KeyType::N => "N"@,
        KeyType::B => "B"@,
    }
}

impl KeyType {
    /// The letter of the type: `S`, `N` or `B`.
    pub fn to_string(&self) -> (r: String)
        ensures
            r@ == key_type_text(*self),
    {
        match self {
            KeyType::S => String::from_str("S"),
            KeyType::N => String::from_str("N"),
            KeyType::B => String::from_str("B"),
        }
    }

    /// The attribute type of a key of this type.
    pub fn attribute_type(&self) -> (t: AttributeType)
        ensures
            t == match self {
                KeyType::S => AttributeType::S,
                KeyType::N => AttributeType::N,
                KeyType::B => AttributeType::B,
            },
    {
        match self {
            KeyType::S => AttributeType::S,
            KeyType::N => AttributeType::N,
            KeyType::B => AttributeType::B,
        }
    }
}

/// A primary key: its name and its data type.
#[derive(Debug, Clone, PartialEq, Eq)]
pub struct Key {
    pub name: String,
    /// Data type of the primary key. i.e. "S" (String), "N" (Number), or "B" (Binary).
    pub kind: KeyType,
}

/// `name (type)`, as `desc` shows a key.
pub open spec fn key_display_text(name: Seq<char>, kind: KeyType) -> Seq<char> {
    name + " ("@ + key_type_text(kind) + ")"@
}

impl Key {
    /// `"<pk name> (<pk type>)"`, e.g. `"myPk (S)"`.
    pub fn display(&self) -> (r: String)
        ensures
            r@ == key_display_text(self.name@, self.kind),
    {
        let mut r = self.name.clone();
        push_str(&mut r, " (");
        push_str(&mut r, self.kind.to_string().as_str());
        push_str(&mut r, ")");
        r
    }

    /// A copy of the key.
    pub fn copy(&self) -> (r: Key)
        ensures
            r.name@ == self.name@,
            r.kind == self.kind,
    {
        Key { name: self.name.clone(), kind: self.kind }
    }
}

/// The message of a [`ParseKeyTypeError`] for `input`.
pub open spec fn key_type_error_text(input: Seq<char>) -> Seq<char> {
    "Not a valid DynamoDB primary key type: "@ + input
}

/// A text that is no primary key type.
#[derive(Debug, PartialEq, Eq)]
pub struct ParseKeyTypeError {
    message: String,
}

impl ParseKeyTypeError {
    pub closed spec fn message(&self) -> Seq<char> {
        self.message@
    }

    /// The error for the text `input`.
    pub fn new(input: &str) -> (e: Self)
        ensures
            e.message() == key_type_error_text(input@),
    {
        let mut message = String::from_str("Not a valid DynamoDB primary key type: ");
        push_str(&mut message, input);
        ParseKeyTypeError { message }
    }

    /// The message of the error.
    pub fn to_string(&self) -> (r: String)
        ensures
            r@ == self.message(),
    {
        self.message.clone()
    }
}

/// The key type that a text names: `S`, `N` or `B`.
pub open spec fn key_type_of(s: Seq<char>) -> Option<KeyType> {
    if s == "S"@ {
        Some(KeyType::S)
    } else if s == "N"@ {
        Some(KeyType::N)
    } else if s == "B"@ {
        Some(KeyType::B)
    } else {
        None
    }
}

/// Reads a key type: `S`, `N` or `B`.
pub fn key_type_from_str(s: &str) -> (r: Result<KeyType, ParseKeyTypeError>)
    ensures
        match r {
            Ok(k) => key_type_of(s@) == Some(k),
            Err(e) => key_type_of(s@) is None && e.message() == key_type_error_text(s@),
        },
{
    let t = String::from_str(s);
    if t == String::from_str("S") {
        Ok(KeyType::S)
    } else if t == String::from_str("N") {
        Ok(KeyType::N)
    } else if t == String::from_str("B") {
        Ok(KeyType::B)
    } else {
        Err(ParseKeyTypeError::new(s))
    }
}

impl std::str::FromStr for KeyType {
    type Err = ParseKeyTypeError;

    fn from_str(s: &str) -> (r: Result<Self, ParseKeyTypeError>)
        ensures
            match r {
                Ok(k) => key_type_of(s@) == Some(k),
                Err(e) => key_type_of(s@) is None && e.message() == key_type_error_text(s@),
            },
    {
        key_type_from_str(s)
    }
}

/// One element of a key schema: the attribute and its role, `HASH` (partition key) or
/// `RANGE` (sort key).
#[derive(Debug, Clone, PartialEq, Eq)]
pub struct KeySchemaElement {
    pub attribute_name: String,
    pub key_type: String,
}

/// The declared type of an attribute of a table.
#[derive(Debug, Clone, PartialEq, Eq)]
pub struct KeyAttributeDefinition {
    pub attribute_name: String,
    pub attribute_type: String,
}

/// The index of the first element of `ks` with the role `role`, or -1.
pub open spec fn role_index(ks: Seq<KeySchemaElement>, role: Seq<char>) -> int
    decreases ks.len(),
{
    if ks.len() == 0 {
        -1
    } else if role_index(ks.drop_last(), role) >= 0 {
        role_index(ks.drop_last(), role)
    } else if ks.last().key_type@ == role {
        ks.len() - 1
    } else {
        -1
    }
}

/// The index of the first definition of `attrs` for the attribute `name`, or -1.
pub open spec fn definition_index(attrs: Seq<KeyAttributeDefinition>, name: Seq<char>) -> int
    decreases attrs.len(),
{
    if attrs.len() == 0 {
        -1
    } else if definition_index(attrs.drop_last(), name) >= 0 {
        definition_index(attrs.drop_last(), name)
    } else if attrs.last().attribute_name@ == name {
        attrs.len() - 1
    } else {
        -1
    }
}

/// Whether the key schema is backed by the definitions: the key with the role has a
/// definition whose type is `S`, `N` or `B`.
pub open spec fn key_defined(
    pk_or_sk: Seq<char>,
    ks: Seq<KeySchemaElement>,
    attrs: Seq<KeyAttributeDefinition>,
) -> bool {
    let i = role_index(ks, pk_or_sk);
    i >= 0 ==> {
        let d = definition_index(attrs, ks[i].attribute_name@);
        d >= 0 && key_type_of(attrs[d].attribute_type@) is Some
    }
}

proof fn lemma_role_index(ks: Seq<KeySchemaElement>, role: Seq<char>, i: int)
    requires
        0 <= i <= ks.len(),
        role_index(ks.take(i), role) == -1,
    ensures
        i < ks.len() && ks[i].key_type@ == role ==> role_index(ks.take(i + 1), role) == i,
        i < ks.len() && ks[i].key_type@ != role ==> role_index(ks.take(i + 1), role) == -1,
{
    if i < ks.len() {
        assert(ks.take(i + 1).drop_last() =~= ks.take(i));
    }
}

proof fn lemma_role_index_prefix(ks: Seq<KeySchemaElement>, role: Seq<char>, i: int)
    requires
        0 <= i <= ks.len(),
        role_index(ks.take(i), role) >= 0,
    ensures
        role_index(ks, role) == role_index(ks.take(i), role),
    decreases ks.len() - i,
{
    if i < ks.len() {
        assert(ks.take(i + 1).drop_last() =~= ks.take(i));
        lemma_role_index_prefix(ks, role, i + 1);
    } else {
        assert(ks.take(i) =~= ks);
    }
}

proof fn lemma_definition_index(attrs: Seq<KeyAttributeDefinition>, name: Seq<char>, i: int)
    requires
        0 <= i <= attrs.len(),
        definition_index(attrs.take(i), name) == -1,
    ensures
        i < attrs.len() && attrs[i].attribute_name@ == name ==> definition_index(
            attrs.take(i + 1),
            name,
        ) == i,
        i < attrs.len() && attrs[i].attribute_name@ != name ==> definition_index(
            attrs.take(i + 1),
            name,
        ) == -1,
{
    if i < attrs.len() {
        assert(attrs.take(i + 1).drop_last() =~= attrs.take(i));
    }
}

proof fn lemma_definition_index_prefix(attrs: Seq<KeyAttributeDefinition>, name: Seq<char>, i: int)
    requires
        0 <= i <= attrs.len(),
        definition_index(attrs.take(i), name) >= 0,
    ensures
        definition_index(attrs, name) == definition_index(attrs.take(i), name),
    decreases attrs.len() - i,
{
    if i < attrs.len() {
        assert(attrs.take(i + 1).drop_last() =~= attrs.take(i));
        lemma_definition_index_prefix(attrs, name, i + 1);
    } else {
        assert(attrs.take(i) =~= attrs);
    }
}

/// The position of the first element of `ks` with the role `role`.
fn find_role(ks: &Vec<KeySchemaElement>, role: &String) -> (r: Option<usize>)
    ensures
        match r {
            Some(i) => i < ks.len() && i == role_index(ks@, role@),
            None => role_index(ks@, role@) == -1,
        },
{
    let mut i: usize = 0;
    assert(ks@.take(0) =~= Seq::<KeySchemaElement>::empty());
    while i < ks.len()
        invariant
            i <= ks.len(),
            role_index(ks@.take(i as int), role@) == -1,
        decreases ks.len() - i,
    {
        proof {
            lemma_role_index(ks@, role@, i as int);
        }
        if ks[i].key_type == *role {
            proof {
                lemma_role_index_prefix(ks@, role@, i + 1);
            }
            return Some(i);
        }
        i = i + 1;
    }
    assert(ks@.take(ks.len() as int) =~= ks@);
    None
}

/// The position of the first definition of the attribute `name`.
fn find_definition(attrs: &Vec<KeyAttributeDefinition>, name: &String) -> (r: Option<usize>)
    ensures
        match r {
            Some(i) => i < attrs.len() && i == definition_index(attrs@, name@),
            None => definition_index(attrs@, name@) == -1,
        },
{
    let mut j: usize = 0;
    assert(attrs@.take(0) =~= Seq::<KeyAttributeDefinition>::empty());
    while j < attrs.len()
        invariant
            j <= attrs.len(),
            definition_index(attrs@.take(j as int), name@) == -1,
        decreases attrs.len() - j,
    {
        proof {
            lemma_definition_index(attrs@, name@, j as int);
        }
        if attrs[j].attribute_name == *name {
            proof {
                lemma_definition_index_prefix(attrs@, name@, j + 1);
            }
            return Some(j);
        }
        j = j + 1;
    }
    assert(attrs@.take(attrs.len() as int) =~= attrs@);
    None
}

/// Whether the key with the role `pk_or_sk` has a present and typed definition, or
/// there is no such key (see [`key_defined`]).
pub fn is_key_defined(pk_or_sk: &str, ks: &Vec<KeySchemaElement>, attrs: &Vec<KeyAttributeDefinition>) -> (b:
    bool)
    ensures
        b == key_defined(pk_or_sk@, ks@, attrs@),
        role_index(ks@, pk_or_sk@) < ks.len(),
{
    let role = String::from_str(pk_or_sk);
    match find_role(ks, &role) {
        None => true,
        Some(i) => match find_definition(attrs, &ks[i].attribute_name) {
            None => false,
            Some(d) => key_type_from_str(attrs[d].attribute_type.as_str()).is_ok(),
        },
    }
}

/// The key with the role `pk_or_sk` (`HASH` or `RANGE`) in a key schema, with its type
/// from the attribute definitions; `None` when the schema has no such key.
pub fn typed_key_for_schema(
    pk_or_sk: &str,
    ks: &Vec<KeySchemaElement>,
    attrs: &Vec<KeyAttributeDefinition>,
) -> (r: Option<Key>)
    requires
        key_defined(pk_or_sk@, ks@, attrs@),
    ensures
        role_index(ks@, pk_or_sk@) < 0 ==> r is None,
        role_index(ks@, pk_or_sk@) >= 0 ==> (r matches Some(k) && {
            let e = ks@[role_index(ks@, pk_or_sk@)];
            &&& k.name@ == e.attribute_name@
            &&& Some(k.kind) == key_type_of(
                attrs@[definition_index(attrs@, e.attribute_name@)].attribute_type@,
            )
        }),
{
    let role = String::from_str(pk_or_sk);
    let mut i: usize = 0;
    assert(ks@.take(0) =~= Seq::<KeySchemaElement>::empty());
    while i < ks.len()
        invariant
            i <= ks.len(),
            role@ == pk_or_sk@,
            key_defined(pk_or_sk@, ks@, attrs@),
            role_index(ks@.take(i as int), pk_or_sk@) == -1,
        decreases ks.len() - i,
    {
        proof {
            lemma_role_index(ks@, pk_or_sk@, i as int);
        }
        if ks[i].key_type == role {
            proof {
                lemma_role_index_prefix(ks@, pk_or_sk@, i + 1);
            }
            let name = &ks[i].attribute_name;
            let mut j: usize = 0;
            assert(attrs@.take(0) =~= Seq::<KeyAttributeDefinition>::empty());
            while j < attrs.len()
                invariant
                    j <= attrs.len(),
                    definition_index(attrs@.take(j as int), name@) == -1,
                    key_defined(pk_or_sk@, ks@, attrs@),
                    role_index(ks@, pk_or_sk@) == i,
                    i < ks.len(),
                    name@ == ks@[i as int].attribute_name@,
                decreases attrs.len() - j,
            {
                proof {
                    lemma_definition_index(attrs@, name@, j as int);
                }
                if attrs[j].attribute_name == *name {
                    proof {
                        lemma_definition_index_prefix(attrs@, name@, j + 1);
                    }
                    let kind = match key_type_from_str(attrs[j].attribute_type.as_str()) {
                        Ok(k) => k,
                        Err(_) => KeyType::S,
                    };
                    return Some(Key { name: name.clone(), kind });
                }
                j = j + 1;
            }
            assert(attrs@.take(attrs.len() as int) =~= attrs@);
            return None;
        }
        i = i + 1;
    }
    assert(ks@.take(ks.len() as int) =~= ks@);
    None
}

/// The letter of a key type reads back as that type.
pub proof fn law_key_type_text_reads_back(k: KeyType)
    ensures
        key_type_of(key_type_text(k)) == Some(k),
{
    reveal_strlit("S");
    reveal_strlit("N");
    reveal_strlit("B");
    assert("S"@ != "N"@ && "S"@ != "B"@ && "N"@ != "B"@) by {
        assert("S"@[0] != "N"@[0] && "S"@[0] != "B"@[0] && "N"@[0] != "B"@[0]);
    }
}

} // verus!
