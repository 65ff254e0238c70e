use dynein::app::{insert_to_table_cache, Cache, Config, Context, IndexType, QueryConfig};
use dynein::control::{
    backup_name, fetch_arn_from_backup_name, restore_table_name, table_update, table_update_valid, BackupSummary,
    IgnoredCapacity, ProvisionedThroughput,
};
use dynein::ddb::key::{KeyAttributeDefinition, KeySchemaElement, KeyType};
use dynein::ddb::table::{
    is_printable, is_table_describable, index_schemas, printable_description, table_schema_of, typed_key, IndexDescription,
    PrintCapacityUnits, ProvisionedThroughputDescription, StreamSpecification, TableDescription,
};
use dynein::util::{key_count_valid, BillingMode, BillingModeSummary, Mode};

fn s(x: &str) -> String {
    x.to_owned()
}

fn ks(pairs: &[(&str, &str)]) -> Vec<KeySchemaElement> {
    pairs
        .iter()
        .map(|(n, t)| KeySchemaElement { attribute_name: s(n), key_type: s(t) })
        .collect()
}

fn defs(pairs: &[(&str, &str)]) -> Vec<KeyAttributeDefinition> {
    pairs
        .iter()
        .map(|(n, t)| KeyAttributeDefinition { attribute_name: s(n), attribute_type: s(t) })
        .collect()
}

fn sample_desc(mode: BillingMode) -> TableDescription {
    TableDescription {
        table_name: Some(s("Reply")),
        table_status: Some(s("ACTIVE")),
        key_schema: Some(ks(&[("Id", "HASH"), ("ReplyDateTime", "RANGE")])),
        attribute_definitions: Some(defs(&[
            ("Id", "S"),
            ("ReplyDateTime", "S"),
            ("PostedBy", "S"),
            ("Message", "N"),
        ])),
        global_secondary_indexes: Some(vec![IndexDescription {
            index_name: Some(s("PostedBy-Message-Index")),
            key_schema: Some(ks(&[("PostedBy", "HASH"), ("Message", "RANGE")])),
            provisioned_throughput: Some(ProvisionedThroughputDescription {
                read_capacity_units: Some(3),
                write_capacity_units: Some(4),
            }),
        }]),
        local_secondary_indexes: Some(vec![IndexDescription {
            index_name: Some(s("lsi")),
            key_schema: Some(ks(&[("Id", "HASH")])),
            provisioned_throughput: None,
        }]),
        billing_mode_summary: Some(BillingModeSummary { billing_mode: Some(mode) }),
        provisioned_throughput: Some(ProvisionedThroughputDescription {
            read_capacity_units: Some(10),
            write_capacity_units: Some(20),
        }),
        latest_stream_arn: Some(s("arn:stream")),
        stream_specification: Some(StreamSpecification { stream_view_type: Some(s("NEW_IMAGE")) }),
        table_size_bytes: Some(1024),
        item_count: Some(7),
    }
}

#[test]
fn typed_keys_of_description() {
    let d = sample_desc(BillingMode::PayPerRequest);
    let pk = typed_key("HASH", &d).unwrap();
    assert_eq!((pk.name.as_str(), pk.kind), ("Id", KeyType::S));
    let sk = typed_key("RANGE", &d).unwrap();
    assert_eq!(sk.name, s("ReplyDateTime"));
    let mut only_pk = sample_desc(BillingMode::PayPerRequest);
    only_pk.key_schema = Some(ks(&[("Id", "HASH")]));
    assert!(typed_key("RANGE", &only_pk).is_none());
}

#[test]
fn index_schemas_global_then_local() {
    let d = sample_desc(BillingMode::PayPerRequest);
    let idx = index_schemas(&d).unwrap();
    assert_eq!(idx.len(), 2);
    assert_eq!(idx[0].name, s("PostedBy-Message-Index"));
    assert_eq!(idx[0].kind, IndexType::Gsi);
    assert_eq!((idx[0].pk.name.as_str(), idx[0].pk.kind), ("PostedBy", KeyType::S));
    assert_eq!(idx[0].sk.as_ref().map(|k| k.kind), Some(KeyType::N));
    assert_eq!(idx[1].kind, IndexType::Lsi);
    assert!(idx[1].sk.is_none());
    let mut none = sample_desc(BillingMode::PayPerRequest);
    none.global_secondary_indexes = None;
    none.local_secondary_indexes = Some(vec![]);
    assert!(index_schemas(&none).is_none());
}

#[test]
fn table_schema_and_cache_insert() {
    let d = sample_desc(BillingMode::PayPerRequest);
    let ts = table_schema_of("ap-northeast-1", &d);
    assert_eq!(ts.region, s("ap-northeast-1"));
    assert_eq!(ts.name, s("Reply"));
    assert_eq!(ts.mode, Mode::OnDemand);
    assert_eq!(ts.indexes.as_ref().map(|v| v.len()), Some(2));

    let mut cx = Context::empty();
    cx.config = Some(Config {
        using_region: Some(s("us-west-2")),
        using_table: None,
        using_port: None,
        query: QueryConfig { strict_mode: false },
        retry: None,
    });
    cx.cache = Some(Cache { tables: None });
    let cache = insert_to_table_cache(&cx, &d);
    let tables = cache.tables.unwrap();
    assert_eq!(tables.len(), 1);
    assert_eq!(tables[0].0, s("us-west-2/Reply"));
    assert_eq!(tables[0].1.region, s("us-west-2"));

    cx.cache = Some(Cache { tables: Some(tables) });
    let mut provisioned = sample_desc(BillingMode::Provisioned);
    provisioned.global_secondary_indexes = None;
    let again = insert_to_table_cache(&cx, &provisioned).tables.unwrap();
    assert_eq!(again.len(), 1);
    assert_eq!(again[0].1.mode, Mode::Provisioned);
    assert!(again[0].1.indexes.as_ref().map(|v| v.len()) == Some(1));
}

#[test]
fn description_for_printing() {
    let d = sample_desc(BillingMode::Provisioned);
    let p = printable_description("us-east-1", &d, s("2020-01-01T00:00:00+00:00"));
    assert_eq!(p.name, s("Reply"));
    assert_eq!(p.region, s("us-east-1"));
    assert_eq!(p.status, s("ACTIVE"));
    assert_eq!(p.schema.pk, s("Id (S)"));
    assert_eq!(p.schema.sk, Some(s("ReplyDateTime (S)")));
    assert_eq!(p.mode, Mode::Provisioned);
    assert_eq!(p.capacity, Some(PrintCapacityUnits { wcu: 20, rcu: 10 }));
    let gsi = p.gsi.unwrap();
    assert_eq!(gsi[0].schema.sk, Some(s("Message (N)")));
    assert_eq!(gsi[0].capacity, Some(PrintCapacityUnits { wcu: 4, rcu: 3 }));
    assert_eq!(p.lsi.unwrap()[0].capacity, None);
    assert_eq!(p.stream, Some(s("arn:stream (NEW_IMAGE)")));
    assert_eq!((p.size_bytes, p.count), (1024, 7));

    let od = printable_description("us-east-1", &sample_desc(BillingMode::PayPerRequest), s("t"));
    assert_eq!(od.capacity, None);
    assert_eq!(od.gsi.unwrap()[0].capacity, None);
}

#[test]
fn table_update_settings() {
    let od = sample_desc(BillingMode::PayPerRequest);
    let u = table_update(&od, &None, Some(3), None);
    assert_eq!((u.mode, u.provisioned_throughput, u.ignored), (None, None, Some(IgnoredCapacity::OnDemandTable)));
    let u = table_update(&od, &Some(s("provisioned")), None, Some(8));
    assert_eq!(u.mode, Some(Mode::Provisioned));
    assert_eq!(
        u.provisioned_throughput,
        Some(ProvisionedThroughput { read_capacity_units: 8, write_capacity_units: 5 })
    );
    let pr = sample_desc(BillingMode::Provisioned);
    let u = table_update(&pr, &None, Some(30), None);
    assert_eq!(
        u.provisioned_throughput,
        Some(ProvisionedThroughput { read_capacity_units: 10, write_capacity_units: 30 })
    );
    let u = table_update(&pr, &Some(s("ondemand")), Some(1), Some(1));
    assert_eq!((u.mode, u.provisioned_throughput, u.ignored), (Some(Mode::OnDemand), None, Some(IgnoredCapacity::OnDemandMode)));
    assert_eq!(
        IgnoredCapacity::OnDemandMode.to_string(),
        s("Ignoring --rcu/--wcu options as --mode ondemand.")
    );
}

#[test]
fn table_update_inputs_checked() {
    let pr = sample_desc(BillingMode::Provisioned);
    assert!(table_update_valid(&pr, &None, None, None));
    assert!(table_update_valid(&pr, &Some(s("ondemand")), None, None));
    assert!(!table_update_valid(&pr, &Some(s("fast")), None, None));
    let mut unknown = sample_desc(BillingMode::Provisioned);
    unknown.provisioned_throughput = None;
    assert!(!table_update_valid(&unknown, &None, None, Some(1)));
    assert!(table_update_valid(&unknown, &None, Some(1), Some(1)));
    assert!(table_update_valid(&unknown, &Some(s("provisioned")), None, None));
    let od = sample_desc(BillingMode::PayPerRequest);
    assert!(table_update_valid(&od, &None, None, None));
}

#[test]
fn backup_and_restore_names() {
    assert_eq!(backup_name("Movie", 1700000000), s("Movie--dynein-1700000000"));
    assert_eq!(restore_table_name("Movie", None, 12), s("Movie--restore-12"));
    assert_eq!(restore_table_name("Movie", Some(s("Copy")), 12), s("Copy"));
    let backups = vec![
        BackupSummary { backup_name: Some(s("a")), backup_arn: Some(s("arn:a")) },
        BackupSummary { backup_name: Some(s("b")), backup_arn: Some(s("arn:b")) },
        BackupSummary { backup_name: Some(s("b")), backup_arn: Some(s("arn:b2")) },
    ];
    assert_eq!(fetch_arn_from_backup_name("b", &backups), Some(s("arn:b")));
    assert_eq!(fetch_arn_from_backup_name("c", &backups), None);
}

#[test]
fn key_counts() {
    assert!(!key_count_valid(&vec![]));
    assert!(key_count_valid(&vec![s("pk,S")]));
    assert!(key_count_valid(&vec![s("pk,S"), s("sk,N")]));
    assert!(!key_count_valid(&vec![s("a"), s("b"), s("c")]));
}

#[test]
fn use_then_lookup_finds_the_table() {
    let d = sample_desc(BillingMode::PayPerRequest);
    let mut cx = Context::empty();
    cx.config = Some(Config {
        using_region: Some(s("eu-west-1")),
        using_table: None,
        using_port: None,
        query: QueryConfig { strict_mode: false },
        retry: None,
    });
    cx.cache = Some(Cache { tables: None });
    let cache = insert_to_table_cache(&cx, &d);
    let mut after = cx.clone();
    after.config.as_mut().unwrap().using_table = Some(s("Reply"));
    after.cache = Some(cache);
    let found = after.cached_using_table_schema().unwrap();
    assert_eq!(found.name, s("Reply"));
    assert_eq!(found.region, s("eu-west-1"));
}

#[test]
fn description_checks() {
    let d = sample_desc(BillingMode::Provisioned);
    assert!(is_table_describable(&d));
    assert!(is_printable(&d));
    let mut no_status = sample_desc(BillingMode::Provisioned);
    no_status.table_status = None;
    assert!(is_table_describable(&no_status));
    assert!(!is_printable(&no_status));
    let mut no_capacity = sample_desc(BillingMode::Provisioned);
    no_capacity.global_secondary_indexes.as_mut().unwrap()[0].provisioned_throughput = None;
    assert!(!is_printable(&no_capacity));
    assert!(is_printable(&{
        let mut od = sample_desc(BillingMode::PayPerRequest);
        od.provisioned_throughput = None;
        od
    }));
    let mut no_pk = sample_desc(BillingMode::Provisioned);
    no_pk.key_schema = Some(ks(&[("ReplyDateTime", "RANGE")]));
    assert!(!is_table_describable(&no_pk));
    let mut untyped = sample_desc(BillingMode::Provisioned);
    untyped.attribute_definitions = Some(defs(&[("Id", "X"), ("ReplyDateTime", "S")]));
    assert!(!is_table_describable(&untyped));
}
