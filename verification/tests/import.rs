use dynein::transfer::{build_csv_header, export_attributes, ExportAttributes};
use dynein::data::{dispatch_jsonvalue_to_attrval, generate_scan_expressions};
use dynein::app::TableSchema;
use dynein::batch::{
    batch_write_requests, convert_jsonvals_to_request_items, csv_matrix_consistent,
    csv_matrix_to_request_items, merge_request_items, split_csv, validate_batch_args,
    BatchInputError, InvalidBatchInput, WriteRequest,
};
use dynein::bootstrap::{
    default_sample_tables, list_samples, movie_batches, sample_from_name, still_creating, Sample,
};
use dynein::data::{
    atomic_counter_expression, cell_preview, items_table_header,
    update_action, JsonNumber, JsonValue, UpdateActionType,
};
use dynein::ddb::key::{Key, KeyType};
use dynein::util::Mode;
use dynein::value::AttrVal;

fn s(x: &str) -> String {
    x.to_owned()
}

fn num(i: i64) -> JsonValue {
    JsonValue::Number(JsonNumber { repr: i.to_string() })
}

fn schema(sk: bool) -> TableSchema {
    TableSchema {
        region: s("us-east-1"),
        name: s("T"),
        pk: Key { name: s("id"), kind: KeyType::S },
        sk: if sk { Some(Key { name: s("n"), kind: KeyType::N }) } else { None },
        indexes: None,
        mode: Mode::OnDemand,
    }
}

#[test]
fn csv_text_split_into_header_and_rows() {
    let (h, rows) = split_csv("id,age\n\"a\",1\n\n\"b\",2\n").unwrap();
    assert_eq!(h, vec![s("id"), s("age")]);
    assert_eq!(rows, vec![vec![s("\"a\""), s("1")], vec![s("\"b\""), s("2")]]);
    assert_eq!(split_csv("\n\n"), None);
    assert_eq!(split_csv("only"), Some((vec![s("only")], vec![])));
}

#[test]
fn csv_matrix_cell_counts() {
    let m = vec![vec![s("1"), s("2")], vec![s("3"), s("4")]];
    assert!(csv_matrix_consistent(&m, 2));
    assert!(!csv_matrix_consistent(&m, 3));
    let uneven = vec![vec![s("1")], vec![s("2"), s("3"), s("4")]];
    assert!(csv_matrix_consistent(&uneven, 2));
    assert!(csv_matrix_consistent(&vec![], 5));
}

#[test]
fn csv_rows_to_put_requests() {
    let headers = vec![s("id"), s("tags"), s("id")];
    let rows = vec![vec![
        JsonValue::String(s("x")),
        JsonValue::Array(vec![JsonValue::String(s("a"))]),
        JsonValue::String(s("y")),
    ]];
    let with_sets = csv_matrix_to_request_items(&rows, &headers, true);
    assert_eq!(
        with_sets,
        vec![WriteRequest::Put(vec![
            (s("id"), AttrVal::S(s("y"))),
            (s("tags"), AttrVal::SS(vec![s("a")])),
        ])]
    );
    let lists = csv_matrix_to_request_items(&rows, &headers, false);
    assert_eq!(
        lists,
        vec![WriteRequest::Put(vec![
            (s("id"), AttrVal::S(s("y"))),
            (s("tags"), AttrVal::L(vec![AttrVal::S(s("a"))])),
        ])]
    );
}

#[test]
fn json_items_to_put_requests() {
    let items = vec![JsonValue::Object(vec![(s("id"), JsonValue::String(s("a"))), (s("n"), num(3))])];
    assert_eq!(
        convert_jsonvals_to_request_items(&items, false),
        Some(vec![WriteRequest::Put(vec![(s("id"), AttrVal::S(s("a"))), (s("n"), AttrVal::N(s("3")))])])
    );
    assert_eq!(convert_jsonvals_to_request_items(&vec![num(1)], false), None);
}

#[test]
fn number_sets_keep_the_json_text() {
    let float = JsonValue::Number(JsonNumber { repr: s("1.5") });
    let arr = JsonValue::Array(vec![float, num(2)]);
    assert_eq!(dispatch_jsonvalue_to_attrval(&arr, true), AttrVal::NS(vec![s("1.5"), s("2")]));
    assert_eq!(
        dispatch_jsonvalue_to_attrval(&arr, false),
        AttrVal::L(vec![AttrVal::N(s("1.5")), AttrVal::N(s("2"))])
    );
}

#[test]
fn bwrite_requests_from_options() {
    let ts = schema(false);
    let puts = Some(vec![s("{\"id\": \"a\", \"x\": 1}")]);
    let dels = Some(vec![s("{\"id\": \"b\"}")]);
    let r = batch_write_requests(&ts, &puts, &dels).unwrap();
    assert_eq!(
        r,
        vec![
            WriteRequest::Put(vec![(s("id"), AttrVal::S(s("a"))), (s("x"), AttrVal::N(s("1")))]),
            WriteRequest::Delete(vec![(s("id"), AttrVal::S(s("b")))]),
        ]
    );
    let missing = Some(vec![s("{\"x\": 1}")]);
    assert_eq!(
        batch_write_requests(&ts, &missing, &None),
        Err(BatchInputError::Invalid(InvalidBatchInput::InvalidInput(s(
            "must provide the partition key attribute id"
        ))))
    );
    assert!(matches!(
        batch_write_requests(&ts, &Some(vec![s("{id: }")]), &None),
        Err(BatchInputError::Parse(_))
    ));
    assert_eq!(
        validate_batch_args(&None, &None, &None),
        Err(InvalidBatchInput::InvalidInput(s("must provide at least one argument for 'bwrite' command")))
    );
    assert_eq!(validate_batch_args(&None, &None, &Some(s("f.json"))), Ok(()));
}

#[test]
fn request_items_merge_per_table() {
    let put = |v: &str| WriteRequest::Put(vec![(s("id"), AttrVal::S(s(v)))]);
    let base = vec![(s("A"), vec![put("1")])];
    let more = vec![(s("B"), vec![put("2")]), (s("A"), vec![put("3")])];
    assert_eq!(
        merge_request_items(base, more),
        vec![(s("A"), vec![put("1"), put("3")]), (s("B"), vec![put("2")])]
    );
}

#[test]
fn items_table_headers_and_cells() {
    let ts = schema(true);
    assert_eq!(items_table_header(&ts, &None, false), vec![s("id"), s("n"), s("attributes")]);
    assert_eq!(items_table_header(&ts, &None, true), vec![s("id"), s("n")]);
    assert_eq!(
        items_table_header(&ts, &Some(s("a, b")), false),
        vec![s("id"), s("n"), s("a"), s(" b")]
    );
    let long = "x".repeat(60);
    assert_eq!(cell_preview(&long), format!("{}...", "x".repeat(50)));
    assert_eq!(cell_preview("short"), s("short"));
}

#[test]
fn update_actions() {
    assert_eq!(
        update_action(Some(s("a = 1")), None),
        Some((UpdateActionType::SetAction, s("a = 1")))
    );
    assert_eq!(
        update_action(None, Some(s("a"))),
        Some((UpdateActionType::RemoveAction, s("a")))
    );
    assert_eq!(update_action(None, None), None);
    assert_eq!(atomic_counter_expression("pv"), s("pv = pv + 1"));
}

#[test]
fn bootstrap_decisions() {
    assert_eq!(list_samples(), vec![s("public"), s("movie")]);
    assert_eq!(sample_from_name(&None), Some(Sample::Public));
    assert_eq!(sample_from_name(&Some(s("movie"))), Some(Sample::Movie));
    assert_eq!(sample_from_name(&Some(s("other"))), None);
    let tables = default_sample_tables();
    assert_eq!(tables.len(), 4);
    assert_eq!(tables[3], (s("Reply"), vec![s("Id,S"), s("ReplyDateTime,S")]));
    assert_eq!(
        still_creating(&vec![s("A"), s("B")], &vec![s("ACTIVE"), s("CREATING")]),
        vec![s("B")]
    );
    let reqs: Vec<WriteRequest> =
        (0..50).map(|i| WriteRequest::Put(vec![(s("id"), AttrVal::N(i.to_string()))])).collect();
    let batches = movie_batches(reqs);
    assert_eq!(batches.iter().map(|b| b.len()).collect::<Vec<_>>(), vec![25, 25, 0]);
    let few: Vec<WriteRequest> = (0..3).map(|_| WriteRequest::Delete(vec![])).collect();
    assert_eq!(movie_batches(few).iter().map(|b| b.len()).collect::<Vec<_>>(), vec![3]);
}

#[test]
fn exported_csv_header_reads_back() {
    let ts = schema(true);
    let header = build_csv_header(&ts, Some(vec![s("a"), s("b")]), false);
    assert_eq!(header, s("id,n,a,b\n"));
    assert_eq!(split_csv(&header), Some((vec![s("id"), s("n"), s("a"), s("b")], vec![])));
    let keys = build_csv_header(&ts, Some(vec![s("a")]), true);
    assert_eq!(split_csv(&keys), Some((vec![s("id"), s("n")], vec![])));
}

#[test]
fn json_arrays_stay_lists_without_set_inference() {
    let nested = JsonValue::Object(vec![(
        s("k"),
        JsonValue::Array(vec![JsonValue::Array(vec![num(1), num(2)]), JsonValue::String(s("x"))]),
    )]);
    assert_eq!(
        dispatch_jsonvalue_to_attrval(&nested, false),
        AttrVal::M(vec![(
            s("k"),
            AttrVal::L(vec![
                AttrVal::L(vec![AttrVal::N(s("1")), AttrVal::N(s("2"))]),
                AttrVal::S(s("x")),
            ])
        )])
    );
    assert_eq!(
        dispatch_jsonvalue_to_attrval(&JsonValue::Array(vec![num(1), num(2)]), true),
        AttrVal::NS(vec![s("1"), s("2")])
    );
}

#[test]
fn scan_projection_always_has_keys() {
    let ts = schema(true);
    let p = generate_scan_expressions(&ts, &Some(s("id, age")), false);
    let exp = p.exp.unwrap();
    assert!(exp.starts_with("#DYNEIN_PKNAME,#DYNEIN_SKNAME"));
    let names = p.names.unwrap();
    assert_eq!(names[0], (s("#DYNEIN_PKNAME"), s("id")));
    assert_eq!(names[1], (s("#DYNEIN_SKNAME"), s("n")));
    let keys = generate_scan_expressions(&schema(false), &None, true);
    assert_eq!(keys.exp, Some(s("#DYNEIN_PKNAME")));
}

#[test]
fn export_attribute_options() {
    let csv = Some(s("csv"));
    assert_eq!(export_attributes(&csv, false, &None), ExportAttributes::Suggest);
    assert_eq!(export_attributes(&csv, true, &None), ExportAttributes::Given);
    assert_eq!(export_attributes(&csv, false, &Some(s("a,b"))), ExportAttributes::Given);
    assert_eq!(export_attributes(&None, false, &None), ExportAttributes::Given);
    assert_eq!(export_attributes(&Some(s("json")), true, &None), ExportAttributes::OnlyWithCsv);
    assert_eq!(export_attributes(&None, false, &Some(s("a"))), ExportAttributes::OnlyWithCsv);
}
