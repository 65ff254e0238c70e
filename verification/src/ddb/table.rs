//! What a DescribeTable call reports of a table, and the schema that dynein keeps of it.
use vstd::prelude::*;
use crate::app::{same_index, same_schema, IndexSchema, IndexType, TableSchema};
use crate::text::push_str;
use crate::ddb::key::{
    key_display_text, definition_index, is_key_defined, key_defined, key_type_of, role_index, typed_key_for_schema, Key, KeyAttributeDefinition,
    KeySchemaElement, KeyType,
};
use crate::util::{extract_mode, BillingMode, BillingModeSummary, Mode};

verus! {

/// The capacity units of a provisioned table or index.
#[derive(Debug, Clone, Copy, PartialEq, Eq, Structural)]
pub struct ProvisionedThroughputDescription {
    pub read_capacity_units: Option<i64>,
    pub write_capacity_units: Option<i64>,
}

/// What a table description says of a secondary index.
#[derive(Debug, PartialEq, Eq)]
pub struct IndexDescription {
    pub index_name: Option<String>,
    pub key_schema: Option<Vec<KeySchemaElement>>,
    pub provisioned_throughput: Option<ProvisionedThroughputDescription>,
}

/// The stream settings of a table: the view type by its name.
#[derive(Debug, PartialEq, Eq)]
pub struct StreamSpecification {
    pub stream_view_type: Option<String>,
}

/// What a table description says of a table: the parts that dynein reads.
#[derive(Debug, PartialEq, Eq)]
pub struct TableDescription {
    pub table_name: Option<String>,
    /// The status by its name, such as `ACTIVE`.
    pub table_status: Option<String>,
    pub key_schema: Option<Vec<KeySchemaElement>>,
    pub attribute_definitions: Option<Vec<KeyAttributeDefinition>>,
    pub global_secondary_indexes: Option<Vec<IndexDescription>>,
    pub local_secondary_indexes: Option<Vec<IndexDescription>>,
    pub billing_mode_summary: Option<BillingModeSummary>,
    pub provisioned_throughput: Option<ProvisionedThroughputDescription>,
    pub latest_stream_arn: Option<String>,
    pub stream_specification: Option<StreamSpecification>,
    pub table_size_bytes: Option<i64>,
    pub item_count: Option<i64>,
}

/// A key as its name and type.
pub type KeyView = (Seq<char>, KeyType);

pub open spec fn key_view(k: Key) -> KeyView {
    (k.name@, k.kind)
}

pub open spec fn opt_key_view(k: Option<Key>) -> Option<KeyView> {
    match k {
        Some(x) => Some(key_view(x)),
        None => None,
    }
}

/// The key with the role `role` in a key schema, typed by the attribute definitions.
pub open spec fn key_of_schema(
    role: Seq<char>,
    ks: Seq<KeySchemaElement>,
    attrs: Seq<KeyAttributeDefinition>,
) -> Option<KeyView> {
    let i = role_index(ks, role);
    if i < 0 {
        None
    } else {
        let name = ks[i].attribute_name@;
        Some((name, key_type_of(attrs[definition_index(attrs, name)].attribute_type@).unwrap()))
    }
}

/// An index schema as its name, type and keys.
pub type IndexView = (Seq<char>, IndexType, KeyView, Option<KeyView>);

pub open spec fn index_view(s: IndexSchema) -> IndexView {
    (s.name@, s.kind, key_view(s.pk), opt_key_view(s.sk))
}

pub open spec fn index_views(v: Seq<IndexSchema>) -> Seq<IndexView> {
    v.map_values(|s: IndexSchema| index_view(s))
}

/// Whether an index description names the index and gives it a typed partition key, and
/// a typed sort key if it has one.
pub open spec fn index_readable(d: IndexDescription, attrs: Seq<KeyAttributeDefinition>) -> bool {
    &&& d.index_name is Some
    &&& d.key_schema is Some
    &&& role_index(d.key_schema.unwrap()@, "HASH"@) >= 0
    &&& key_defined("HASH"@, d.key_schema.unwrap()@, attrs)
    &&& key_defined("RANGE"@, d.key_schema.unwrap()@, attrs)
}

pub open spec fn indexes_readable(ds: Option<Vec<IndexDescription>>, attrs: Seq<KeyAttributeDefinition>) -> bool {
    ds matches Some(v) ==> forall|i: int| 0 <= i < v.len() ==> index_readable(#[trigger] v@[i], attrs)
}

/// The schema of one index of a description.
pub open spec fn index_of(d: IndexDescription, attrs: Seq<KeyAttributeDefinition>, kind: IndexType) -> IndexView {
    let ks = d.key_schema.unwrap()@;
    (d.index_name.unwrap()@, kind, key_of_schema("HASH"@, ks, attrs).unwrap(), key_of_schema("RANGE"@, ks, attrs))
}

pub open spec fn indexes_of(
    ds: Option<Vec<IndexDescription>>,
    attrs: Seq<KeyAttributeDefinition>,
    kind: IndexType,
) -> Seq<IndexView> {
    match ds {
        Some(v) => v@.map_values(|d: IndexDescription| index_of(d, attrs, kind)),
        None => Seq::empty(),
    }
}

/// The secondary indexes of a table: its global ones, then its local ones; `None` when it
/// has neither.
pub open spec fn index_schemas_of(desc: TableDescription) -> Option<Seq<IndexView>> {
    let attrs = desc.attribute_definitions.unwrap()@;
    let all = indexes_of(desc.global_secondary_indexes, attrs, IndexType::Gsi) + indexes_of(
        desc.local_secondary_indexes,
        attrs,
        IndexType::Lsi,
    );
    if all.len() == 0 {
        None
    } else {
        Some(all)
    }
}

/// Whether the index schemas of a description can be read: it has attribute definitions
/// and every index is readable.
pub open spec fn indexes_describable(desc: TableDescription) -> bool {
    &&& desc.attribute_definitions is Some
    &&& indexes_readable(desc.global_secondary_indexes, desc.attribute_definitions.unwrap()@)
    &&& indexes_readable(desc.local_secondary_indexes, desc.attribute_definitions.unwrap()@)
}

/// Whether a schema can be read from a description: it names the table, has a key schema
/// with a typed partition key and, if any, a typed sort key, readable indexes, and a
/// billing mode in its summary if it has a summary.
pub open spec fn table_describable(desc: TableDescription) -> bool {
    &&& desc.table_name is Some
    &&& desc.key_schema is Some
    &&& indexes_describable(desc)
    &&& role_index(desc.key_schema.unwrap()@, "HASH"@) >= 0
    &&& key_defined("HASH"@, desc.key_schema.unwrap()@, desc.attribute_definitions.unwrap()@)
    &&& key_defined("RANGE"@, desc.key_schema.unwrap()@, desc.attribute_definitions.unwrap()@)
    &&& (desc.billing_mode_summary matches Some(x) ==> x.billing_mode is Some)
}

pub open spec fn mode_of(bs: Option<BillingModeSummary>) -> Mode {
    match bs {
        Some(x) => if x.billing_mode == Some(BillingMode::PayPerRequest) {
            Mode::OnDemand
        } else {
            Mode::Provisioned
        },
        None => Mode::Provisioned,
    }
}

/// Whether `s` is the schema of the table of `region` that `desc` describes.
pub open spec fn schema_describes(s: TableSchema, region: Seq<char>, desc: TableDescription) -> bool {
    &&& s.region@ == region
    &&& s.name@ == desc.table_name.unwrap()@
    &&& Some(key_view(s.pk)) == key_of_schema(
        "HASH"@,
        desc.key_schema.unwrap()@,
        desc.attribute_definitions.unwrap()@,
    )
    &&& opt_key_view(s.sk) == key_of_schema(
        "RANGE"@,
        desc.key_schema.unwrap()@,
        desc.attribute_definitions.unwrap()@,
    )
    &&& match s.indexes {
        Some(v) => index_schemas_of(desc) == Some(index_views(v@)),
        None => index_schemas_of(desc) is None,
    }
    &&& s.mode == mode_of(desc.billing_mode_summary)
}

/// A schema that describes a table alike to one that does describes it too.
pub proof fn lemma_describes_same(a: TableSchema, b: TableSchema, region: Seq<char>, desc: TableDescription)
    requires
        schema_describes(a, region, desc),
        same_schema(a, b),
    ensures
        schema_describes(b, region, desc),
{
    if let (Some(x), Some(y)) = (a.indexes, b.indexes) {
        assert(index_views(x@) =~= index_views(y@)) by {
            assert forall|i: int| 0 <= i < x@.len() implies #[trigger] index_views(x@)[i] == index_views(y@)[i] by {
                assert(same_index(x@[i], y@[i]));
            }
        }
    }
}

fn schema_key(pk_or_sk: &str, ks: &Vec<KeySchemaElement>, attrs: &Vec<KeyAttributeDefinition>) -> (r: Option<
    Key,
>)
    requires
        key_defined(pk_or_sk@, ks@, attrs@),
    ensures
        opt_key_view(r) == key_of_schema(pk_or_sk@, ks@, attrs@),
{
    let r = typed_key_for_schema(pk_or_sk, ks, attrs);
    proof {
        if role_index(ks@, pk_or_sk@) >= 0 {
            let k = r.unwrap();
            assert(key_view(k).0 == key_of_schema(pk_or_sk@, ks@, attrs@).unwrap().0);
        }
    }
    r
}

/// The key with the role `pk_or_sk` (`HASH` or `RANGE`) of the base table of a
/// description.
pub fn typed_key(pk_or_sk: &str, desc: &TableDescription) -> (r: Option<Key>)
    requires
        desc.key_schema is Some,
        desc.attribute_definitions is Some,
        key_defined(pk_or_sk@, desc.key_schema.unwrap()@, desc.attribute_definitions.unwrap()@),
    ensures
        opt_key_view(r) == key_of_schema(
            pk_or_sk@,
            desc.key_schema.unwrap()@,
            desc.attribute_definitions.unwrap()@,
        ),
{
    match (&desc.key_schema, &desc.attribute_definitions) {
        (Some(ks), Some(attrs)) => schema_key(pk_or_sk, ks, attrs),
        _ => None,
    }
}

/// Appends the schemas of the indexes `ds`, of type `kind`, to `out`.
fn push_index_schemas(
    out: &mut Vec<IndexSchema>,
    ds: &Vec<IndexDescription>,
    attrs: &Vec<KeyAttributeDefinition>,
    kind: IndexType,
)
    requires
        forall|i: int| 0 <= i < ds.len() ==> index_readable(#[trigger] ds@[i], attrs@),
    ensures
        index_views(final(out)@) == index_views(old(out)@) + ds@.map_values(
            |d: IndexDescription| index_of(d, attrs@, kind),
        ),
{
    let ghost start = index_views(out@);
    let mut i: usize = 0;
    while i < ds.len()
        invariant
            i <= ds.len(),
            forall|j: int| 0 <= j < ds.len() ==> index_readable(#[trigger] ds@[j], attrs@),
            index_views(out@) == start + ds@.take(i as int).map_values(
                |d: IndexDescription| index_of(d, attrs@, kind),
            ),
        decreases ds.len() - i,
    {
        let d = &ds[i];
        assert(index_readable(ds@[i as int], attrs@));
        match (&d.index_name, &d.key_schema) {
            (Some(name), Some(ks)) => {
                let pk = schema_key("HASH", ks, attrs);
                let sk = schema_key("RANGE", ks, attrs);
                proof {
                    reveal_strlit("HASH");
                    reveal_strlit("RANGE");
                }
                let pk = match pk {
                    Some(k) => k,
                    None => Key { name: String::new(), kind: KeyType::S },
                };
                let s = IndexSchema { name: name.clone(), kind, pk, sk };
                let ghost before = out@;
                out.push(s);
                assert(index_views(out@) =~= index_views(before).push(index_view(s)));
                assert(ds@.take(i + 1).map_values(|d: IndexDescription| index_of(d, attrs@, kind))
                    =~= ds@.take(i as int).map_values(|d: IndexDescription| index_of(d, attrs@, kind)).push(
                    index_of(ds@[i as int], attrs@, kind),
                ));
            },
            _ => {},
        }
        i = i + 1;
    }
    assert(ds@.take(ds.len() as int) =~= ds@);
}

/// The schemas of the secondary indexes of a table, global ones first; `None` when it has
/// no secondary index.
pub fn index_schemas(desc: &TableDescription) -> (r: Option<Vec<IndexSchema>>)
    requires
        indexes_describable(*desc),
    ensures
        match r {
            Some(v) => index_schemas_of(*desc) == Some(index_views(v@)),
            None => index_schemas_of(*desc) is None,
        },
{
    let mut indexes: Vec<IndexSchema> = Vec::new();
    let ghost attrs_v = desc.attribute_definitions.unwrap()@;
    match &desc.attribute_definitions {
        Some(attrs) => {
            assert(index_views(indexes@) =~= Seq::<IndexView>::empty());
            if let Some(gsis) = &desc.global_secondary_indexes {
                push_index_schemas(&mut indexes, gsis, attrs, IndexType::Gsi);
            }
            let ghost after_g = index_views(indexes@);
            assert(after_g =~= indexes_of(desc.global_secondary_indexes, attrs_v, IndexType::Gsi));
            if let Some(lsis) = &desc.local_secondary_indexes {
                push_index_schemas(&mut indexes, lsis, attrs, IndexType::Lsi);
            }
            assert(index_views(indexes@) =~= indexes_of(desc.global_secondary_indexes, attrs_v, IndexType::Gsi)
                + indexes_of(desc.local_secondary_indexes, attrs_v, IndexType::Lsi));
        },
        None => {},
    }
    if indexes.len() == 0 {
        None
    } else {
        Some(indexes)
    }
}

/// The schema that dynein keeps of a table of `region` from its description.
pub fn table_schema_of(region: &str, desc: &TableDescription) -> (r: TableSchema)
    requires
        table_describable(*desc),
    ensures
        schema_describes(r, region@, *desc),
{
    proof {
        reveal_strlit("HASH");
        reveal_strlit("RANGE");
    }
    let name = match &desc.table_name {
        Some(n) => n.clone(),
        None => String::new(),
    };
    let pk = match typed_key("HASH", desc) {
        Some(k) => k,
        None => Key { name: String::new(), kind: KeyType::S },
    };
    let sk = typed_key("RANGE", desc);
    TableSchema {
        region: String::from_str(region),
        name,
        pk,
        sk,
        indexes: index_schemas(desc),
        mode: extract_mode(&desc.billing_mode_summary),
    }
}


/// Write and read capacity units, as dynein shows them.
#[derive(Debug, Clone, Copy, PartialEq, Eq, Structural)]
pub struct PrintCapacityUnits {
    pub wcu: i64,
    pub rcu: i64,
}

/// The keys of a table or index, as dynein shows them: `<name> (<type>)`.
#[derive(Debug, PartialEq, Eq)]
pub struct PrintPrimaryKeys {
    pub pk: String,
    pub sk: Option<String>,
}

/// A secondary index, as dynein shows it.
#[derive(Debug, PartialEq, Eq)]
pub struct PrintSecondaryIndex {
    pub name: String,
    pub schema: PrintPrimaryKeys,
    pub capacity: Option<PrintCapacityUnits>,
}

/// A table, as `desc` shows it.
#[derive(Debug, PartialEq, Eq)]
pub struct PrintDescribeTable {
    pub name: String,
    pub region: String,
    pub status: String,
    pub schema: PrintPrimaryKeys,
    pub mode: Mode,
    pub capacity: Option<PrintCapacityUnits>,
    pub gsi: Option<Vec<PrintSecondaryIndex>>,
    pub lsi: Option<Vec<PrintSecondaryIndex>>,
    pub stream: Option<String>,
    pub size_bytes: i64,
    pub count: i64,
    pub created_at: String,
}

/// Whether a capacity description gives both capacity units.
pub open spec fn capacity_present(c: Option<ProvisionedThroughputDescription>) -> bool {
    c matches Some(d) && d.read_capacity_units is Some && d.write_capacity_units is Some
}

/// The capacity units shown for a table or index in `mode`: none on demand.
pub open spec fn capacity_of(mode: Mode, c: Option<ProvisionedThroughputDescription>) -> Option<PrintCapacityUnits> {
    if mode == Mode::OnDemand {
        None
    } else {
        Some(
            PrintCapacityUnits {
                wcu: c.unwrap().write_capacity_units.unwrap(),
                rcu: c.unwrap().read_capacity_units.unwrap(),
            },
        )
    }
}

pub type PrintKeysView = (Seq<char>, Option<Seq<char>>);

pub open spec fn print_keys_view(p: PrintPrimaryKeys) -> PrintKeysView {
    (
        p.pk@,
        match p.sk {
            Some(s) => Some(s@),
            None => None,
        },
    )
}

/// The keys of a key schema as shown.
pub open spec fn print_keys_of(ks: Seq<KeySchemaElement>, attrs: Seq<KeyAttributeDefinition>) -> PrintKeysView {
    let pk = key_of_schema("HASH"@, ks, attrs).unwrap();
    (
        key_display_text(pk.0, pk.1),
        match key_of_schema("RANGE"@, ks, attrs) {
            Some(k) => Some(key_display_text(k.0, k.1)),
            None => None,
        },
    )
}

pub type PrintIndexView = (Seq<char>, PrintKeysView, Option<PrintCapacityUnits>);

pub open spec fn print_index_view(p: PrintSecondaryIndex) -> PrintIndexView {
    (p.name@, print_keys_view(p.schema), p.capacity)
}

pub open spec fn print_indexes_view(v: Option<Vec<PrintSecondaryIndex>>) -> Option<Seq<PrintIndexView>> {
    match v {
        Some(xs) => Some(xs@.map_values(|p: PrintSecondaryIndex| print_index_view(p))),
        None => None,
    }
}

/// An index as shown: a global index shows its capacity units, a local one has none of
/// its own.
pub open spec fn print_index_of(
    d: IndexDescription,
    attrs: Seq<KeyAttributeDefinition>,
    mode: Mode,
    global: bool,
) -> PrintIndexView {
    (
        d.index_name.unwrap()@,
        print_keys_of(d.key_schema.unwrap()@, attrs),
        if global {
            capacity_of(mode, d.provisioned_throughput)
        } else {
            None
        },
    )
}

pub open spec fn print_indexes_of(
    ds: Option<Vec<IndexDescription>>,
    attrs: Seq<KeyAttributeDefinition>,
    mode: Mode,
    global: bool,
) -> Option<Seq<PrintIndexView>> {
    match ds {
        Some(v) => Some(v@.map_values(|d: IndexDescription| print_index_of(d, attrs, mode, global))),
        None => None,
    }
}

/// The stream of a table as shown: `<stream ARN> (<view type>)`.
pub open spec fn stream_text(arn: Option<String>, spec: Option<StreamSpecification>) -> Option<Seq<char>> {
    match arn {
        Some(a) => Some(a@ + " ("@ + spec.unwrap().stream_view_type.unwrap()@ + ")"@),
        None => None,
    }
}

/// Whether a description can be shown: its schema can be read, it gives the status,
/// size and item count, capacity units where the mode is provisioned, and the view type
/// of its stream if it has one.
pub open spec fn printable(desc: TableDescription) -> bool {
    let mode = mode_of(desc.billing_mode_summary);
    &&& table_describable(desc)
    &&& desc.table_status is Some
    &&& desc.table_size_bytes is Some
    &&& desc.item_count is Some
    &&& mode == Mode::Provisioned ==> capacity_present(desc.provisioned_throughput)
    &&& (mode == Mode::Provisioned && desc.global_secondary_indexes is Some) ==> forall|i: int|
        0 <= i < desc.global_secondary_indexes.unwrap().len() ==> capacity_present(
            #[trigger] desc.global_secondary_indexes.unwrap()@[i].provisioned_throughput,
        )
    &&& desc.latest_stream_arn is Some ==> (desc.stream_specification matches Some(s)
        && s.stream_view_type is Some)
}

fn capacity(mode: Mode, c: &Option<ProvisionedThroughputDescription>) -> (r: Option<PrintCapacityUnits>)
    requires
        mode == Mode::Provisioned ==> capacity_present(*c),
    ensures
        r == capacity_of(mode, *c),
{
    match mode {
        Mode::OnDemand => None,
        Mode::Provisioned => match c {
            Some(d) => match (d.write_capacity_units, d.read_capacity_units) {
                (Some(w), Some(r)) => Some(PrintCapacityUnits { wcu: w, rcu: r }),
                _ => None,
            },
            None => None,
        },
    }
}

fn print_keys(ks: &Vec<KeySchemaElement>, attrs: &Vec<KeyAttributeDefinition>) -> (r: PrintPrimaryKeys)
    requires
        role_index(ks@, "HASH"@) >= 0,
        key_defined("HASH"@, ks@, attrs@),
        key_defined("RANGE"@, ks@, attrs@),
    ensures
        print_keys_view(r) == print_keys_of(ks@, attrs@),
{
    proof {
        reveal_strlit("HASH");
        reveal_strlit("RANGE");
    }
    let pk = match schema_key("HASH", ks, attrs) {
        Some(k) => k.display(),
        None => String::new(),
    };
    let sk = match schema_key("RANGE", ks, attrs) {
        Some(k) => Some(k.display()),
        None => None,
    };
    PrintPrimaryKeys { pk, sk }
}

fn print_indexes(
    mode: Mode,
    attrs: &Vec<KeyAttributeDefinition>,
    ds: &Option<Vec<IndexDescription>>,
    global: bool,
) -> (r: Option<Vec<PrintSecondaryIndex>>)
    requires
        indexes_readable(*ds, attrs@),
        (global && mode == Mode::Provisioned && ds is Some) ==> forall|i: int|
            0 <= i < ds.unwrap().len() ==> capacity_present(#[trigger] ds.unwrap()@[i].provisioned_throughput),
    ensures
        print_indexes_view(r) == print_indexes_of(*ds, attrs@, mode, global),
{
    match ds {
        None => None,
        Some(v) => {
            let mut xs: Vec<PrintSecondaryIndex> = Vec::new();
            let mut i: usize = 0;
            assert(forall|j: int| 0 <= j < v.len() ==> index_readable(#[trigger] v@[j], attrs@));
            while i < v.len()
                invariant
                    i <= v.len(),
                    forall|j: int| 0 <= j < v.len() ==> index_readable(#[trigger] v@[j], attrs@),
                    (global && mode == Mode::Provisioned) ==> forall|j: int|
                        0 <= j < v.len() ==> capacity_present(#[trigger] v@[j].provisioned_throughput),
                    xs@.map_values(|p: PrintSecondaryIndex| print_index_view(p)) == v@.take(
                        i as int,
                    ).map_values(|d: IndexDescription| print_index_of(d, attrs@, mode, global)),
                decreases v.len() - i,
            {
                let d = &v[i];
                assert(index_readable(v@[i as int], attrs@));
                let name = match &d.index_name {
                    Some(n) => n.clone(),
                    None => String::new(),
                };
                let schema = match &d.key_schema {
                    Some(ks) => print_keys(ks, attrs),
                    None => PrintPrimaryKeys { pk: String::new(), sk: None },
                };
                let cap = if global {
                    capacity(mode, &d.provisioned_throughput)
                } else {
                    None
                };
                let p = PrintSecondaryIndex { name, schema, capacity: cap };
                let ghost before = xs@;
                xs.push(p);
                assert(xs@.map_values(|p: PrintSecondaryIndex| print_index_view(p)) =~= before.map_values(
                    |p: PrintSecondaryIndex| print_index_view(p),
                ).push(print_index_view(p)));
                assert(v@.take(i + 1).map_values(|d: IndexDescription| print_index_of(d, attrs@, mode, global))
                    =~= v@.take(i as int).map_values(
                    |d: IndexDescription| print_index_of(d, attrs@, mode, global),
                ).push(print_index_of(v@[i as int], attrs@, mode, global)));
                i = i + 1;
            }
            assert(v@.take(v.len() as int) =~= v@);
            Some(xs)
        },
    }
}

fn stream(arn: &Option<String>, spec: &Option<StreamSpecification>) -> (r: Option<String>)
    requires
        arn is Some ==> (*spec matches Some(s) && s.stream_view_type is Some),
    ensures
        match r {
            Some(t) => stream_text(*arn, *spec) == Some(t@),
            None => stream_text(*arn, *spec) is None,
        },
{
    match arn {
        None => None,
        Some(a) => {
            let mut t = a.clone();
            push_str(&mut t, " (");
            if let Some(s) = spec {
                if let Some(v) = &s.stream_view_type {
                    push_str(&mut t, v.as_str());
                }
            }
            push_str(&mut t, ")");
            Some(t)
        },
    }
}

/// How `desc` shows a table of `region` that `desc` describes, created at the time
/// `created_at` (already written out).
pub fn printable_description(region: &str, desc: &TableDescription, created_at: String) -> (r: PrintDescribeTable)
    requires
        printable(*desc),
    ensures
        r.name@ == desc.table_name.unwrap()@,
        r.region@ == region@,
        r.status@ == desc.table_status.unwrap()@,
        print_keys_view(r.schema) == print_keys_of(
            desc.key_schema.unwrap()@,
            desc.attribute_definitions.unwrap()@,
        ),
        r.mode == mode_of(desc.billing_mode_summary),
        r.capacity == capacity_of(r.mode, desc.provisioned_throughput),
        print_indexes_view(r.gsi) == print_indexes_of(
            desc.global_secondary_indexes,
            desc.attribute_definitions.unwrap()@,
            r.mode,
            true,
        ),
        print_indexes_view(r.lsi) == print_indexes_of(
            desc.local_secondary_indexes,
            desc.attribute_definitions.unwrap()@,
            r.mode,
            false,
        ),
        match r.stream {
            Some(t) => stream_text(desc.latest_stream_arn, desc.stream_specification) == Some(t@),
            None => stream_text(desc.latest_stream_arn, desc.stream_specification) is None,
        },
        r.size_bytes == desc.table_size_bytes.unwrap(),
        r.count == desc.item_count.unwrap(),
        r.created_at == created_at,
{
    let mode = extract_mode(&desc.billing_mode_summary);
    let empty_defs: Vec<KeyAttributeDefinition> = Vec::new();
    let attrs = match &desc.attribute_definitions {
        Some(a) => a,
        None => &empty_defs,
    };
    let schema = match &desc.key_schema {
        Some(ks) => print_keys(ks, attrs),
        None => PrintPrimaryKeys { pk: String::new(), sk: None },
    };
    PrintDescribeTable {
        name: match &desc.table_name {
            Some(n) => n.clone(),
            None => String::new(),
        },
        region: String::from_str(region),
        status: match &desc.table_status {
            Some(s) => s.clone(),
            None => String::new(),
        },
        schema,
        mode,
        capacity: capacity(mode, &desc.provisioned_throughput),
        gsi: print_indexes(mode, attrs, &desc.global_secondary_indexes, true),
        lsi: print_indexes(mode, attrs, &desc.local_secondary_indexes, false),
        stream: stream(&desc.latest_stream_arn, &desc.stream_specification),
        size_bytes: match desc.table_size_bytes {
            Some(n) => n,
            None => 0,
        },
        count: match desc.item_count {
            Some(n) => n,
            None => 0,
        },
        created_at,
    }
}

fn index_readable_x(d: &IndexDescription, attrs: &Vec<KeyAttributeDefinition>) -> (b: bool)
    ensures
        b == index_readable(*d, attrs@),
{
    proof {
        reveal_strlit("HASH");
    }
    match (&d.index_name, &d.key_schema) {
        (Some(_), Some(ks)) => {
            let has_pk = is_key_defined("HASH", ks, attrs);
            let pk_there = typed_pk_there(ks);
            has_pk && pk_there && is_key_defined("RANGE", ks, attrs)
        },
        _ => false,
    }
}

/// Whether a key schema has a partition key.
fn typed_pk_there(ks: &Vec<KeySchemaElement>) -> (b: bool)
    ensures
        b == (role_index(ks@, "HASH"@) >= 0),
{
    proof {
        reveal_strlit("HASH");
    }
    let mut i: usize = 0;
    assert(ks@.take(0) =~= Seq::<KeySchemaElement>::empty());
    let hash = String::from_str("HASH");
    while i < ks.len()
        invariant
            i <= ks.len(),
            hash@ == "HASH"@,
            role_index(ks@.take(i as int), "HASH"@) == -1,
        decreases ks.len() - i,
    {
        assert(ks@.take(i + 1).drop_last() =~= ks@.take(i as int));
        if ks[i].key_type == hash {
            proof {
                lemma_role_index_up(ks@, "HASH"@, i + 1);
            }
            return true;
        }
        i = i + 1;
    }
    assert(ks@.take(ks.len() as int) =~= ks@);
    false
}

proof fn lemma_role_index_up(ks: Seq<KeySchemaElement>, role: Seq<char>, i: int)
    requires
        0 <= i <= ks.len(),
        role_index(ks.take(i), role) >= 0,
    ensures
        role_index(ks, role) == role_index(ks.take(i), role),
    decreases ks.len() - i,
{
    if i < ks.len() {
        assert(ks.take(i + 1).drop_last() =~= ks.take(i));
        lemma_role_index_up(ks, role, i + 1);
    } else {
        assert(ks.take(i) =~= ks);
    }
}

fn indexes_readable_x(ds: &Option<Vec<IndexDescription>>, attrs: &Vec<KeyAttributeDefinition>) -> (b: bool)
    ensures
        b == indexes_readable(*ds, attrs@),
{
    match ds {
        None => true,
        Some(v) => {
            let mut i: usize = 0;
            while i < v.len()
                invariant
                    i <= v.len(),
                    *ds == Some(*v),
                    forall|j: int| 0 <= j < i ==> index_readable(#[trigger] v@[j], attrs@),
                decreases v.len() - i,
            {
                if !index_readable_x(&v[i], attrs) {
                    assert(!index_readable(v@[i as int], attrs@));
                    assert(ds.unwrap()@[i as int] == v@[i as int]);
                    return false;
                }
                i = i + 1;
            }
            true
        },
    }
}

/// Whether a schema can be read from a description (see [`table_describable`]).
pub fn is_table_describable(desc: &TableDescription) -> (b: bool)
    ensures
        b == table_describable(*desc),
{
    proof {
        reveal_strlit("HASH");
        reveal_strlit("RANGE");
    }
    match (&desc.table_name, &desc.key_schema, &desc.attribute_definitions) {
        (Some(_), Some(ks), Some(attrs)) => {
            let mode_ok = match &desc.billing_mode_summary {
                Some(x) => x.billing_mode.is_some(),
                None => true,
            };
            indexes_readable_x(&desc.global_secondary_indexes, attrs) && indexes_readable_x(
                &desc.local_secondary_indexes,
                attrs,
            ) && typed_pk_there(ks) && is_key_defined("HASH", ks, attrs) && is_key_defined("RANGE", ks, attrs)
                && mode_ok
        },
        _ => false,
    }
}

fn capacity_present_x(c: &Option<ProvisionedThroughputDescription>) -> (b: bool)
    ensures
        b == capacity_present(*c),
{
    match c {
        Some(d) => d.read_capacity_units.is_some() && d.write_capacity_units.is_some(),
        None => false,
    }
}

/// Whether a description can be shown (see [`printable`]).
pub fn is_printable(desc: &TableDescription) -> (b: bool)
    ensures
        b == printable(*desc),
{
    if !is_table_describable(desc) {
        return false;
    }
    let mode = extract_mode(&desc.billing_mode_summary);
    let provisioned = match mode {
        Mode::Provisioned => true,
        Mode::OnDemand => false,
    };
    if desc.table_status.is_none() || desc.table_size_bytes.is_none() || desc.item_count.is_none() {
        return false;
    }
    if provisioned && !capacity_present_x(&desc.provisioned_throughput) {
        return false;
    }
    if provisioned {
        if let Some(v) = &desc.global_secondary_indexes {
            let mut i: usize = 0;
            while i < v.len()
                invariant
                    i <= v.len(),
                    desc.global_secondary_indexes == Some(*v),
                    mode_of(desc.billing_mode_summary) == Mode::Provisioned,
                    forall|j: int| 0 <= j < i ==> capacity_present(#[trigger] v@[j].provisioned_throughput),
                decreases v.len() - i,
            {
                if !capacity_present_x(&v[i].provisioned_throughput) {
                    assert(!capacity_present(desc.global_secondary_indexes.unwrap()@[i as int].provisioned_throughput));
                    return false;
                }
                i = i + 1;
            }
        }
    }
    match &desc.latest_stream_arn {
        Some(_) => match &desc.stream_specification {
            Some(s) => s.stream_view_type.is_some(),
            None => false,
        },
        None => true,
    }
}
} // verus!
