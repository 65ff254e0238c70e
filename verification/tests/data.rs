use dynein::app::{IndexSchema, IndexType, TableSchema};
use dynein::data::{
    append_sort_key_expression, attrval_to_type, build_attrval_scalar, dispatch_jsonvalue_to_attrval,
    generate_query_expressions, generate_scan_expressions, generate_update_expressions,
    identify_target, items_table_row, DyneinQueryParamsError, GeneratedQueryParams, ItemCell,
    JsonNumber, JsonValue, UpdateActionType,
};
use dynein::ddb::key::{Key, KeyType};
use dynein::util::Mode;
use dynein::value::AttrVal;

fn s(x: &str) -> String {
    x.to_owned()
}

fn names(v: &[(&str, &str)]) -> Option<Vec<(String, String)>> {
    Some(v.iter().map(|(a, b)| (s(a), s(b))).collect())
}

#[test]
fn test_generate_update_expressions_set_int() {
    let actual = generate_update_expressions(UpdateActionType::SetAction, "Price = 123").unwrap();
    assert_eq!(actual.exp, Some("SET #DYNEIN_ATTRNAME0=:DYNEIN_ATTRVAL0".to_owned()));
    assert_eq!(actual.names, names(&[("#DYNEIN_ATTRNAME0", "Price")]));
    assert_eq!(actual.vals, Some(vec![(s(":DYNEIN_ATTRVAL0"), AttrVal::N(s("123")))]));
}

#[test]
fn test_generate_update_expressions_set_int_str() {
    let actual =
        generate_update_expressions(UpdateActionType::SetAction, "Replies = 0, Status = \"OPEN\"")
            .unwrap();
    assert_eq!(
        actual.exp,
        Some("SET #DYNEIN_ATTRNAME0=:DYNEIN_ATTRVAL0,#DYNEIN_ATTRNAME1=:DYNEIN_ATTRVAL1".to_owned())
    );
    assert_eq!(
        actual.names,
        names(&[("#DYNEIN_ATTRNAME0", "Replies"), ("#DYNEIN_ATTRNAME1", "Status")])
    );
    assert_eq!(
        actual.vals,
        Some(vec![
            (s(":DYNEIN_ATTRVAL0"), AttrVal::N(s("0"))),
            (s(":DYNEIN_ATTRVAL1"), AttrVal::S(s("OPEN"))),
        ])
    );
}

#[test]
fn test_generate_update_expressions_set_str() {
    let actual = generate_update_expressions(UpdateActionType::SetAction, "class = \"Math\"").unwrap();
    assert_eq!(actual.exp, Some("SET #DYNEIN_ATTRNAME0=:DYNEIN_ATTRVAL0".to_owned()));
    assert_eq!(actual.names, names(&[("#DYNEIN_ATTRNAME0", "class")]));
    assert_eq!(actual.vals, Some(vec![(s(":DYNEIN_ATTRVAL0"), AttrVal::S(s("Math")))]));
}

#[test]
fn test_generate_update_expressions_set_plus() {
    let actual = generate_update_expressions(UpdateActionType::SetAction, "Price = Price + 1").unwrap();
    assert_eq!(
        actual.exp,
        Some("SET #DYNEIN_ATTRNAME0=#DYNEIN_ATTRNAME0+:DYNEIN_ATTRVAL0".to_owned())
    );
    assert_eq!(actual.names, names(&[("#DYNEIN_ATTRNAME0", "Price")]));
    assert_eq!(actual.vals, Some(vec![(s(":DYNEIN_ATTRVAL0"), AttrVal::N(s("1")))]));
}

#[test]
fn test_generate_update_expressions_set_minus() {
    let actual = generate_update_expressions(UpdateActionType::SetAction, "Price = Price - 1").unwrap();
    assert_eq!(
        actual.exp,
        Some("SET #DYNEIN_ATTRNAME0=#DYNEIN_ATTRNAME0-:DYNEIN_ATTRVAL0".to_owned())
    );
    assert_eq!(actual.names, names(&[("#DYNEIN_ATTRNAME0", "Price")]));
    assert_eq!(actual.vals, Some(vec![(s(":DYNEIN_ATTRVAL0"), AttrVal::N(s("1")))]));
}

#[test]
fn test_generate_update_expressions_set_hyphen() {
    let actual = generate_update_expressions(
        UpdateActionType::SetAction,
        "LastPostedBy = \"2020-02-24T22:22:22Z\"",
    )
    .unwrap();
    assert_eq!(actual.exp, Some("SET #DYNEIN_ATTRNAME0=:DYNEIN_ATTRVAL0".to_owned()));
    assert_eq!(actual.names, names(&[("#DYNEIN_ATTRNAME0", "LastPostedBy")]));
    assert_eq!(
        actual.vals,
        Some(vec![(s(":DYNEIN_ATTRVAL0"), AttrVal::S(s("2020-02-24T22:22:22Z")))])
    );
}

#[test]
fn test_generate_multi_update_expressions_include_hyphen() {
    let actual = generate_update_expressions(
        UpdateActionType::SetAction,
        "Replies = 0, LastPostedBy = \"2020-02-24T22:22:22Z\"",
    )
    .unwrap();
    assert_eq!(
        actual.exp,
        Some("SET #DYNEIN_ATTRNAME0=:DYNEIN_ATTRVAL0,#DYNEIN_ATTRNAME1=:DYNEIN_ATTRVAL1".to_owned())
    );
    assert_eq!(
        actual.names,
        names(&[("#DYNEIN_ATTRNAME0", "Replies"), ("#DYNEIN_ATTRNAME1", "LastPostedBy")])
    );
    assert_eq!(
        actual.vals,
        Some(vec![
            (s(":DYNEIN_ATTRVAL0"), AttrVal::N(s("0"))),
            (s(":DYNEIN_ATTRVAL1"), AttrVal::S(s("2020-02-24T22:22:22Z"))),
        ])
    );
}

#[test]
fn test_generate_update_expressions_set_single_quote() {
    let actual = generate_update_expressions(UpdateActionType::SetAction, "key = 'value'").unwrap();
    assert_eq!(actual.exp, Some("SET #DYNEIN_ATTRNAME0=:DYNEIN_ATTRVAL0".to_owned()));
    assert_eq!(actual.names, names(&[("#DYNEIN_ATTRNAME0", "key")]));
    assert_eq!(actual.vals, Some(vec![(s(":DYNEIN_ATTRVAL0"), AttrVal::S(s("value")))]));
}

#[test]
fn test_generate_update_expressions_set_array_element() {
    let actual =
        generate_update_expressions(UpdateActionType::SetAction, "RelatedItems[1] = \"item1\"").unwrap();
    assert_eq!(actual.exp, Some("SET #DYNEIN_ATTRNAME0[1]=:DYNEIN_ATTRVAL0".to_owned()));
    assert_eq!(actual.names, names(&[("#DYNEIN_ATTRNAME0", "RelatedItems")]));
    assert_eq!(actual.vals, Some(vec![(s(":DYNEIN_ATTRVAL0"), AttrVal::S(s("item1")))]));
}

#[test]
fn test_generate_update_expressions_set_array_element_nested() {
    let actual = generate_update_expressions(
        UpdateActionType::SetAction,
        "pr.`5star`[1] = 7, pr.`3star` = 3",
    )
    .unwrap();
    assert_eq!(
        actual.exp,
        Some("SET #DYNEIN_ATTRNAME0.#DYNEIN_ATTRNAME1[1]=:DYNEIN_ATTRVAL0,#DYNEIN_ATTRNAME0.#DYNEIN_ATTRNAME2=:DYNEIN_ATTRVAL1".to_owned())
    );
    assert_eq!(
        actual.names,
        names(&[
            ("#DYNEIN_ATTRNAME0", "pr"),
            ("#DYNEIN_ATTRNAME1", "5star"),
            ("#DYNEIN_ATTRNAME2", "3star"),
        ])
    );
    assert_eq!(
        actual.vals,
        Some(vec![
            (s(":DYNEIN_ATTRVAL0"), AttrVal::N(s("7"))),
            (s(":DYNEIN_ATTRVAL1"), AttrVal::N(s("3"))),
        ])
    );
}

#[test]
fn test_generate_update_expressions_list_append() {
    let actual = generate_update_expressions(
        UpdateActionType::SetAction,
        "RelatedItems = list_append(RelatedItems, [\"item2\"])",
    )
    .unwrap();
    assert_eq!(
        actual.exp,
        Some("SET #DYNEIN_ATTRNAME0=list_append(#DYNEIN_ATTRNAME0,:DYNEIN_ATTRVAL0)".to_owned())
    );
    assert_eq!(actual.names, names(&[("#DYNEIN_ATTRNAME0", "RelatedItems")]));
    assert_eq!(
        actual.vals,
        Some(vec![(s(":DYNEIN_ATTRVAL0"), AttrVal::L(vec![AttrVal::S(s("item2"))]))])
    );
}

#[test]
fn test_generate_update_expressions_list_prepend() {
    let actual = generate_update_expressions(
        UpdateActionType::SetAction,
        "RelatedItems = list_append([\"item2\"], RelatedItems)",
    )
    .unwrap();
    assert_eq!(
        actual.exp,
        Some("SET #DYNEIN_ATTRNAME0=list_append(:DYNEIN_ATTRVAL0,#DYNEIN_ATTRNAME0)".to_owned())
    );
    assert_eq!(actual.names, names(&[("#DYNEIN_ATTRNAME0", "RelatedItems")]));
    assert_eq!(
        actual.vals,
        Some(vec![(s(":DYNEIN_ATTRVAL0"), AttrVal::L(vec![AttrVal::S(s("item2"))]))])
    );
}

#[test]
fn test_generate_update_expressions_if_not_exists() {
    let actual =
        generate_update_expressions(UpdateActionType::SetAction, "Price = if_not_exists(Price, 123)")
            .unwrap();
    assert_eq!(
        actual.exp,
        Some("SET #DYNEIN_ATTRNAME0=if_not_exists(#DYNEIN_ATTRNAME0,:DYNEIN_ATTRVAL0)".to_owned())
    );
    assert_eq!(actual.names, names(&[("#DYNEIN_ATTRNAME0", "Price")]));
    assert_eq!(actual.vals, Some(vec![(s(":DYNEIN_ATTRVAL0"), AttrVal::N(s("123")))]));
}

#[test]
fn test_generate_update_expressions_remove() {
    let actual =
        generate_update_expressions(UpdateActionType::RemoveAction, "Brand, InStock, QuantityOnHand")
            .unwrap();
    assert_eq!(
        actual.exp,
        Some("REMOVE #DYNEIN_ATTRNAME0,#DYNEIN_ATTRNAME1,#DYNEIN_ATTRNAME2".to_owned())
    );
    assert_eq!(
        actual.names,
        names(&[
            ("#DYNEIN_ATTRNAME0", "Brand"),
            ("#DYNEIN_ATTRNAME1", "InStock"),
            ("#DYNEIN_ATTRNAME2", "QuantityOnHand"),
        ])
    );
    assert_eq!(actual.vals, None);
}

#[test]
fn test_generate_update_expressions_array_element() {
    let actual = generate_update_expressions(
        UpdateActionType::RemoveAction,
        "RelatedItems[1], RelatedItems[2]",
    )
    .unwrap();
    assert_eq!(
        actual.exp,
        Some("REMOVE #DYNEIN_ATTRNAME0[1],#DYNEIN_ATTRNAME0[2]".to_owned())
    );
    assert_eq!(actual.names, names(&[("#DYNEIN_ATTRNAME0", "RelatedItems")]));
    assert_eq!(actual.vals, None);
}

fn number(n: i64) -> JsonValue {
    JsonValue::Number(JsonNumber { repr: n.to_string() })
}

#[test]
fn test_dispatch_jsonvalue_to_attrval() {
    let string_list = JsonValue::Array(vec![
        JsonValue::String(s("+44 1234567")),
        JsonValue::String(s("+44 2345678")),
    ]);
    assert_eq!(
        dispatch_jsonvalue_to_attrval(&string_list, false),
        AttrVal::L(vec![AttrVal::S(s("+44 1234567")), AttrVal::S(s("+44 2345678"))])
    );
    assert_eq!(
        dispatch_jsonvalue_to_attrval(&string_list, true),
        AttrVal::SS(vec![s("+44 1234567"), s("+44 2345678")])
    );

    let number_list = JsonValue::Array(vec![number(12345), number(67890)]);
    assert_eq!(
        dispatch_jsonvalue_to_attrval(&number_list, false),
        AttrVal::L(vec![AttrVal::N(s("12345")), AttrVal::N(s("67890"))])
    );
    assert_eq!(
        dispatch_jsonvalue_to_attrval(&number_list, true),
        AttrVal::NS(vec![s("12345"), s("67890")])
    );

    let mix_list = JsonValue::Array(vec![JsonValue::String(s("text")), number(1234)]);
    for flag in [true, false] {
        assert_eq!(
            dispatch_jsonvalue_to_attrval(&mix_list, flag),
            AttrVal::L(vec![AttrVal::S(s("text")), AttrVal::N(s("1234"))])
        );
    }
}

#[test]
fn dispatch_converts_objects_and_scalars() {
    let obj = JsonValue::Object(vec![
        (s("a"), JsonValue::Null),
        (s("b"), JsonValue::Bool(true)),
        (s("c"), JsonValue::Array(vec![number(-5)])),
    ]);
    assert_eq!(
        dispatch_jsonvalue_to_attrval(&obj, true),
        AttrVal::M(vec![
            (s("a"), AttrVal::Null(true)),
            (s("b"), AttrVal::Bool(true)),
            (s("c"), AttrVal::NS(vec![s("-5")])),
        ])
    );
    assert_eq!(
        dispatch_jsonvalue_to_attrval(&JsonValue::Array(vec![]), true),
        AttrVal::SS(vec![])
    );
}

fn key(name: &str, kind: KeyType) -> Key {
    Key { name: s(name), kind }
}

fn schema(sk: bool) -> TableSchema {
    TableSchema {
        region: s("us-west-2"),
        name: s("tbl"),
        pk: key("pk", KeyType::S),
        sk: if sk { Some(key("sk", KeyType::N)) } else { None },
        indexes: Some(vec![IndexSchema {
            name: s("idx"),
            kind: IndexType::Gsi,
            pk: key("ipk", KeyType::N),
            sk: Some(key("isk", KeyType::S)),
        }]),
        mode: Mode::OnDemand,
    }
}

fn query_parts(p: GeneratedQueryParams) -> (String, Vec<(String, String)>, Vec<(String, AttrVal)>) {
    (p.exp.unwrap(), p.names.unwrap(), p.vals.unwrap())
}

#[test]
fn query_expressions_for_partition_key_only() {
    let r = generate_query_expressions(&schema(true), "abc", &None, &None, false).unwrap();
    assert_eq!(
        query_parts(r),
        (
            s("#DYNEIN_PKNAME = :DYNEIN_PKVAL"),
            vec![(s("#DYNEIN_PKNAME"), s("pk"))],
            vec![(s(":DYNEIN_PKVAL"), AttrVal::S(s("abc")))],
        )
    );
}

#[test]
fn query_expressions_with_sort_key_conditions() {
    let r = generate_query_expressions(&schema(true), "abc", &Some(s(">= 12")), &None, false).unwrap();
    assert_eq!(
        query_parts(r),
        (
            s("#DYNEIN_PKNAME = :DYNEIN_PKVAL AND #DYNEIN_ATTRNAME0>=:DYNEIN_ATTRVAL0"),
            vec![(s("#DYNEIN_PKNAME"), s("pk")), (s("#DYNEIN_ATTRNAME0"), s("sk"))],
            vec![
                (s(":DYNEIN_PKVAL"), AttrVal::S(s("abc"))),
                (s(":DYNEIN_ATTRVAL0"), AttrVal::N(s("12"))),
            ],
        )
    );
    let r = generate_query_expressions(&schema(true), "abc", &Some(s("between 1 AND 9")), &None, false)
        .unwrap();
    assert_eq!(
        query_parts(r),
        (
            s("#DYNEIN_PKNAME = :DYNEIN_PKVAL AND #DYNEIN_ATTRNAME0 BETWEEN :DYNEIN_ATTRVAL0 AND :DYNEIN_ATTRVAL1"),
            vec![(s("#DYNEIN_PKNAME"), s("pk")), (s("#DYNEIN_ATTRNAME0"), s("sk"))],
            vec![
                (s(":DYNEIN_PKVAL"), AttrVal::S(s("abc"))),
                (s(":DYNEIN_ATTRVAL0"), AttrVal::N(s("1"))),
                (s(":DYNEIN_ATTRVAL1"), AttrVal::N(s("9"))),
            ],
        )
    );
    let r = generate_query_expressions(&schema(true), "x", &Some(s("begins_with 7")), &Some(s("idx")), false)
        .unwrap();
    assert_eq!(
        query_parts(r),
        (
            s("#DYNEIN_PKNAME = :DYNEIN_PKVAL AND begins_with(#DYNEIN_ATTRNAME0,:DYNEIN_ATTRVAL0)"),
            vec![(s("#DYNEIN_PKNAME"), s("ipk")), (s("#DYNEIN_ATTRNAME0"), s("isk"))],
            vec![
                (s(":DYNEIN_PKVAL"), AttrVal::N(s("x"))),
                (s(":DYNEIN_ATTRVAL0"), AttrVal::S(s("7"))),
            ],
        )
    );
}

#[test]
fn query_sort_key_in_the_forms_of_the_command_line() {
    let sk_n = Some(key("sk", KeyType::N));
    let sk_s = Some(key("sk", KeyType::S));
    let pk = "#DYNEIN_PKNAME = :DYNEIN_PKVAL";
    let one = |e: &str, v: AttrVal| GeneratedQueryParams {
        exp: Some(format!("{} AND {}", pk, e)),
        names: Some(vec![(s("#DYNEIN_ATTRNAME0"), s("sk"))]),
        vals: Some(vec![(s(":DYNEIN_ATTRVAL0"), v)]),
    };
    // a bare number stands for equality
    assert_eq!(
        append_sort_key_expression(sk_n.clone(), pk, "2", vec![], vec![], false),
        Ok(one("#DYNEIN_ATTRNAME0=:DYNEIN_ATTRVAL0", AttrVal::N(s("2"))))
    );
    // no space is needed after the operator
    assert_eq!(
        append_sort_key_expression(sk_n.clone(), pk, "<=2", vec![], vec![], false),
        Ok(one("#DYNEIN_ATTRNAME0<=:DYNEIN_ATTRVAL0", AttrVal::N(s("2"))))
    );
    assert_eq!(
        append_sort_key_expression(sk_n.clone(), pk, "< 5", vec![], vec![], false),
        Ok(one("#DYNEIN_ATTRNAME0<:DYNEIN_ATTRVAL0", AttrVal::N(s("5"))))
    );
    assert_eq!(
        append_sort_key_expression(sk_s.clone(), pk, "begins_with 1", vec![], vec![], false),
        Ok(one("begins_with(#DYNEIN_ATTRNAME0,:DYNEIN_ATTRVAL0)", AttrVal::S(s("1"))))
    );
    // AND is optional in BETWEEN
    for (k, v) in [(sk_n.clone(), "N"), (sk_s.clone(), "S")] {
        let mk = |x: &str| if v == "N" { AttrVal::N(s(x)) } else { AttrVal::S(s(x)) };
        assert_eq!(
            append_sort_key_expression(k, pk, "between 11 21", vec![], vec![], false),
            Ok(GeneratedQueryParams {
                exp: Some(format!(
                    "{} AND #DYNEIN_ATTRNAME0 BETWEEN :DYNEIN_ATTRVAL0 AND :DYNEIN_ATTRVAL1",
                    pk
                )),
                names: Some(vec![(s("#DYNEIN_ATTRNAME0"), s("sk"))]),
                vals: Some(vec![(s(":DYNEIN_ATTRVAL0"), mk("11")), (s(":DYNEIN_ATTRVAL1"), mk("21"))]),
            })
        );
    }
    // non-strict mode reads a value of another type by the key's lenient grammar
    assert_eq!(
        append_sort_key_expression(sk_n.clone(), pk, "= 11e2", vec![], vec![], false),
        Ok(one("#DYNEIN_ATTRNAME0=:DYNEIN_ATTRVAL0", AttrVal::N(s("11e2"))))
    );
    assert_eq!(
        append_sort_key_expression(sk_s.clone(), pk, "= 2", vec![], vec![], false),
        Ok(one("#DYNEIN_ATTRNAME0=:DYNEIN_ATTRVAL0", AttrVal::S(s("2"))))
    );
}

#[test]
fn query_sort_key_in_strict_mode() {
    let sk_n = Some(key("sk", KeyType::N));
    let sk_s = Some(key("sk", KeyType::S));
    let pk = "#DYNEIN_PKNAME = :DYNEIN_PKVAL";
    let e = append_sort_key_expression(sk_s.clone(), pk, "=2", vec![], vec![], true).unwrap_err();
    let m = e.to_string();
    assert!(m.contains(
        "Invalid type detected. Expected type is string (S), but actual type is number (N)."
    ));
    assert!(m.contains(r#"Did you intend '= "2"'?"#));
    let e = append_sort_key_expression(sk_n.clone(), pk, r#"= "2*4""#, vec![], vec![], true).unwrap_err();
    let m = e.to_string();
    assert!(m.contains(
        "Invalid type detected. Expected type is number (N), but actual type is string (S)."
    ));
    assert!(!m.contains("Did you intend"));
    let e = append_sort_key_expression(sk_s.clone(), pk, r#"= 3*"2""#, vec![], vec![], false).unwrap_err();
    assert!(e.to_string().contains("= expected sort_key_str"));
    // the same condition is read in strict mode only where asked
    assert!(append_sort_key_expression(sk_s.clone(), pk, "= 2", vec![], vec![], true).is_err());
    assert!(append_sort_key_expression(sk_s, pk, "= 2", vec![], vec![], false).is_ok());
}

#[test]
fn query_expression_errors() {
    assert_eq!(
        generate_query_expressions(&schema(true), "a", &None, &Some(s("nope")), false),
        Err(DyneinQueryParamsError::NoSuchIndex(s("nope"), s("tbl")))
    );
    assert_eq!(
        generate_query_expressions(&schema(false), "a", &Some(s("= 1")), &None, false),
        Err(DyneinQueryParamsError::NoSortKeyDefined)
    );
    assert!(matches!(
        generate_query_expressions(&schema(true), "a", &Some(s("~ 1")), &None, false),
        Err(DyneinQueryParamsError::InvalidSortKeyOption(_))
    ));
    assert_eq!(
        append_sort_key_expression(None, "p", "= 1", vec![], vec![], false),
        Err(DyneinQueryParamsError::NoSortKeyDefined)
    );
    assert_eq!(
        DyneinQueryParamsError::NoSuchIndex(s("i"), s("t")).to_string(),
        s("No index named 'i' found on the target table 't'. Please execute 'dy desc' command to see indexes the table has.")
    );
}

#[test]
fn scan_expressions() {
    let r = generate_scan_expressions(&schema(true), &None, false);
    assert_eq!(r.exp, None);
    assert_eq!(r.names, None);
    let r = generate_scan_expressions(&schema(true), &None, true);
    assert_eq!(r.exp, Some(s("#DYNEIN_PKNAME,#DYNEIN_SKNAME")));
    assert_eq!(r.names, names(&[("#DYNEIN_PKNAME", "pk"), ("#DYNEIN_SKNAME", "sk")]));
    let r = generate_scan_expressions(&schema(true), &Some(s("a, pk ,b")), false);
    assert_eq!(
        r.exp,
        Some(s("#DYNEIN_PKNAME,#DYNEIN_SKNAME,#DYNEIN_ATTRNAME0,#DYNEIN_ATTRNAME1"))
    );
    assert_eq!(
        r.names,
        names(&[
            ("#DYNEIN_PKNAME", "pk"),
            ("#DYNEIN_SKNAME", "sk"),
            ("#DYNEIN_ATTRNAME0", "a"),
            ("#DYNEIN_ATTRNAME1", "b"),
        ])
    );
}

#[test]
fn identify_target_keys() {
    assert_eq!(
        identify_target(&schema(true), s("p"), Some(s("3"))),
        Some(vec![(s("pk"), AttrVal::S(s("p"))), (s("sk"), AttrVal::N(s("3")))])
    );
    assert_eq!(
        identify_target(&schema(true), s("p"), None),
        Some(vec![(s("pk"), AttrVal::S(s("p")))])
    );
    assert_eq!(identify_target(&schema(false), s("p"), Some(s("3"))), None);
    assert_eq!(build_attrval_scalar("N", "5"), AttrVal::N(s("5")));
    assert_eq!(build_attrval_scalar("S", "5"), AttrVal::S(s("5")));
}

#[test]
fn attribute_type_names() {
    assert_eq!(attrval_to_type(&AttrVal::Bool(true)), Some(s("Boolian")));
    assert_eq!(attrval_to_type(&AttrVal::SS(vec![])), Some(s("Set (String)")));
    assert_eq!(attrval_to_type(&AttrVal::L(vec![])), Some(s("List")));
}

#[test]
fn json_object_gives_each_key_once() {
    let obj = JsonValue::Object(vec![
        (s("a"), JsonValue::String(s("x"))),
        (s("b"), JsonValue::Bool(true)),
        (s("a"), JsonValue::Null),
    ]);
    assert_eq!(
        dispatch_jsonvalue_to_attrval(&obj, false),
        AttrVal::M(vec![(s("a"), AttrVal::Null(true)), (s("b"), AttrVal::Bool(true))])
    );
}

#[test]
fn query_placeholders_are_distinct() {
    let r = generate_query_expressions(&schema(true), "abc", &Some(s("between 1 9")), &None, true).unwrap();
    let names = r.names.unwrap();
    let vals = r.vals.unwrap();
    assert_eq!(names.len(), 2);
    assert_ne!(names[0].0, names[1].0);
    assert_eq!(vals.len(), 3);
    assert!(vals[0].0 != vals[1].0 && vals[1].0 != vals[2].0 && vals[0].0 != vals[2].0);
}

#[test]
fn items_table_rows() {
    let item = || {
        vec![
            (s("x"), AttrVal::S(s("1"))),
            (s("sk"), AttrVal::N(s("7"))),
            (s("pk"), AttrVal::S(s("a"))),
            (s("y"), AttrVal::Bool(true)),
        ]
    };
    let key_cells = vec![ItemCell::Value(Some(AttrVal::S(s("a")))), ItemCell::Value(Some(AttrVal::N(s("7"))))];
    let mut all = key_cells.iter().map(copy_cell).collect::<Vec<_>>();
    all.push(ItemCell::Rest(vec![(s("x"), AttrVal::S(s("1"))), (s("y"), AttrVal::Bool(true))]));
    assert_eq!(items_table_row(item(), &schema(true), &None, false), all);
    assert_eq!(items_table_row(item(), &schema(true), &None, true), key_cells);
    let mut picked = key_cells.iter().map(copy_cell).collect::<Vec<_>>();
    picked.push(ItemCell::Value(Some(AttrVal::Bool(true))));
    picked.push(ItemCell::Value(None));
    picked.push(ItemCell::Value(None));
    assert_eq!(items_table_row(item(), &schema(true), &Some(s("y, pk,z")), false), picked);
    // an item with its keys alone shows only them, whatever is selected
    let keys_alone = vec![(s("pk"), AttrVal::S(s("a")))];
    assert_eq!(
        items_table_row(keys_alone, &schema(true), &Some(s("y")), false),
        vec![ItemCell::Value(Some(AttrVal::S(s("a")))), ItemCell::Value(None)]
    );
}

fn copy_cell(c: &ItemCell) -> ItemCell {
    match c {
        ItemCell::Value(Some(AttrVal::S(v))) => ItemCell::Value(Some(AttrVal::S(v.clone()))),
        ItemCell::Value(Some(AttrVal::N(v))) => ItemCell::Value(Some(AttrVal::N(v.clone()))),
        _ => ItemCell::Value(None),
    }
}
