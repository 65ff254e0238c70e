use dynein::error::{
    Base64Error, EscapeByteError, EscapeCharUnexpectedEndOfSequenceError, GrammarRule, InvalidTypesError,
    InvalidTypesWithSuggestError, ParseError, SyntaxError,
};
use dynein::data::query_input_valid;
use dynein::batch::{
    generate_type_mismatch_error_message, validate_item_keys, InvalidBatchInput,
};
use dynein::app::TableSchema;
use dynein::ddb::key::{
    key_type_from_str, typed_key_for_schema, Key, KeyAttributeDefinition, KeySchemaElement,
    KeyType, ParseKeyTypeError,
};
use dynein::display::convert_to_escaped_json_string;
use dynein::escape::parse_internal_double_quote_string;
use dynein::parser::{parse_literal, DyneinParser};
use dynein::transfer::{attrs_to_append, build_csv_header, connectable_json, filter_attributes_to_append};
use dynein::util::{extract_mode, generate_essential_key_definitions, BillingMode, BillingModeSummary, Mode};
use dynein::value::{AttrVal, AttributeType};

fn s(x: &str) -> String {
    x.to_owned()
}

#[test]
fn key_display_and_types() {
    let k = Key { name: s("myPk"), kind: KeyType::S };
    assert_eq!(k.display(), s("myPk (S)"));
    assert_eq!(key_type_from_str("N"), Ok(KeyType::N));
    assert_eq!(key_type_from_str("X"), Err(ParseKeyTypeError::new("X")));
    assert_eq!(
        ParseKeyTypeError::new("X").to_string(),
        s("Not a valid DynamoDB primary key type: X")
    );
    for k in [KeyType::S, KeyType::N, KeyType::B] {
        assert_eq!(key_type_from_str(&k.to_string()), Ok(k));
    }
    assert_eq!(KeyType::B.attribute_type(), AttributeType::B);
}

#[test]
fn typed_keys_from_schema() {
    let ks = vec![
        KeySchemaElement { attribute_name: s("p"), key_type: s("HASH") },
        KeySchemaElement { attribute_name: s("r"), key_type: s("RANGE") },
    ];
    let attrs = vec![
        KeyAttributeDefinition { attribute_name: s("r"), attribute_type: s("N") },
        KeyAttributeDefinition { attribute_name: s("p"), attribute_type: s("B") },
    ];
    assert_eq!(
        typed_key_for_schema("HASH", &ks, &attrs),
        Some(Key { name: s("p"), kind: KeyType::B })
    );
    assert_eq!(
        typed_key_for_schema("RANGE", &ks, &attrs),
        Some(Key { name: s("r"), kind: KeyType::N })
    );
    assert_eq!(typed_key_for_schema("OTHER", &ks, &attrs), None);
}

#[test]
fn essential_key_definitions() {
    let (ks, ads) = generate_essential_key_definitions(&vec![s("id,n"), s("ts")]).unwrap();
    assert_eq!(ks[0].attribute_name, s("id"));
    assert_eq!(ks[0].key_type, s("HASH"));
    assert_eq!(ks[1].key_type, s("RANGE"));
    assert_eq!(ads[0].attribute_type, s("N"));
    assert_eq!(ads[1].attribute_type, s("S"));
    assert_eq!(
        generate_essential_key_definitions(&vec![s("a"), s("b,S,x")]).unwrap_err().key,
        s("b,S,x")
    );
}

#[test]
fn capacity_modes() {
    assert_eq!(extract_mode(&None), Mode::Provisioned);
    assert_eq!(
        extract_mode(&Some(BillingModeSummary { billing_mode: Some(BillingMode::PayPerRequest) })),
        Mode::OnDemand
    );
    assert_eq!(
        extract_mode(&Some(BillingModeSummary { billing_mode: Some(BillingMode::Provisioned) })),
        Mode::Provisioned
    );
}

fn schema() -> TableSchema {
    TableSchema {
        region: s("r"),
        name: s("t"),
        pk: Key { name: s("pk"), kind: KeyType::S },
        sk: Some(Key { name: s("sk"), kind: KeyType::N }),
        indexes: None,
        mode: Mode::OnDemand,
    }
}

#[test]
fn export_attributes_and_header() {
    assert_eq!(
        filter_attributes_to_append(&schema(), "a, sk,b ,pk"),
        (vec![s("a"), s("b")], 2)
    );
    assert_eq!(attrs_to_append(&schema(), &Some(s("x,y"))), Some(vec![s("x"), s("y")]));
    assert_eq!(attrs_to_append(&schema(), &None), None);
    assert_eq!(build_csv_header(&schema(), Some(vec![s("a"), s("b")]), false), s("pk,sk,a,b\n"));
    assert_eq!(build_csv_header(&schema(), Some(vec![s("a")]), true), s("pk,sk\n"));
    assert_eq!(build_csv_header(&schema(), None, false), s("pk,sk\n"));
    assert_eq!(connectable_json(s("[{\"a\":1},{\"a\":2}]"), true), s("{\"a\":1},{\"a\":2},"));
    assert_eq!(connectable_json(s("[\n  1\n]\n"), false), s("\n  1\n,"));
}

#[test]
fn batch_items_need_their_keys() {
    let ts = schema();
    let ok = vec![(s("pk"), AttrVal::S(s("a"))), (s("sk"), AttrVal::N(s("1")))];
    assert_eq!(validate_item_keys(&ok, &ts), Ok(()));
    let no_pk = vec![(s("sk"), AttrVal::N(s("1")))];
    assert_eq!(
        validate_item_keys(&no_pk, &ts),
        Err(InvalidBatchInput::InvalidInput(s("must provide the partition key attribute pk")))
    );
    let bad_sk = vec![(s("pk"), AttrVal::S(s("a"))), (s("sk"), AttrVal::S(s("1")))];
    assert_eq!(
        validate_item_keys(&bad_sk, &ts),
        Err(InvalidBatchInput::InvalidInput(generate_type_mismatch_error_message("sk", "Number")))
    );
    let no_sk = vec![(s("pk"), AttrVal::S(s("a")))];
    assert_eq!(
        validate_item_keys(&no_sk, &ts),
        Err(InvalidBatchInput::InvalidInput(s("must provide the sort key attribute sk")))
    );
    assert_eq!(
        generate_type_mismatch_error_message("k", "String"),
        s("type mismatch for the key k, expected: String")
    );
}

#[test]
fn escaped_text_reads_back() {
    for text in ["plain", "q\"uote", "back\\slash", "\u{1}\u{7f}\u{9f}", "\n\r\t\x08\x0c", "🍣"] {
        let escaped = convert_to_escaped_json_string(text);
        assert_eq!(parse_internal_double_quote_string(&escaped).unwrap(), text);
    }
    assert_eq!(convert_to_escaped_json_string("\u{1}"), s("\\u0001"));
}

#[test]
fn written_values_read_back() {
    let v = AttrVal::M(vec![
        (s("s"), AttrVal::S(s("a\"b"))),
        (s("b"), AttrVal::B(vec![0, 255, 7])),
        (s("l"), AttrVal::L(vec![AttrVal::N(s("-1.5")), AttrVal::Null(true)])),
    ]);
    assert_eq!(parse_literal(&v.to_string()).unwrap(), v);
}

#[test]
fn dynein_format_entries_override_the_initial_item() {
    let parser = DyneinParser::new();
    let initial = vec![(s("pk"), AttrVal::S(s("p"))), (s("a"), AttrVal::N(s("1")))];
    let item = parser.parse_dynein_format(Some(initial), "{'a': 2, 'b': 3, 'b': 4}").unwrap();
    assert_eq!(
        item,
        vec![
            (s("pk"), AttrVal::S(s("p"))),
            (s("a"), AttrVal::N(s("2"))),
            (s("b"), AttrVal::N(s("4"))),
        ]
    );
    assert!(parser.parse_dynein_format(None, "[1]").is_err());
}

#[test]
fn failed_parses_leave_the_context_alone() {
    let mut parser = DyneinParser::new();
    parser.parse_set_action("a = 1").unwrap();
    assert!(parser.parse_set_action("a = ").is_err());
    assert!(parser.parse_remove_action("").is_err());
    let context = parser.context();
    assert_eq!(context.get_names().len(), 1);
    assert_eq!(context.get_values().len(), 1);
    let r = parser.parse_remove_action("a").unwrap();
    assert_eq!(r.get_expression(), s("#DYNEIN_ATTRNAME0"));
}

#[test]
fn sort_key_suggestions() {
    let mut parser = DyneinParser::new();
    let e = parser
        .parse_sort_key_with_suggest("> abc", &dynein::parser::AttributeDefinition::new("id", AttributeType::S))
        .unwrap_err();
    match e {
        dynein::error::ParseError::ParsingErrorWithSuggest(x) => assert_eq!(x.suggest, s("> \"abc\"")),
        other => panic!("unexpected {:?}", other),
    }
    assert!(parser
        .parse_sort_key_with_suggest("> abc", &dynein::parser::AttributeDefinition::new("id", AttributeType::B))
        .is_err());
}

#[test]
fn parse_error_messages() {
    assert_eq!(
        ParseError::InvalidBeginsWith(s("x")).to_string(),
        s("the argument of begins_with is invalid: 'x'")
    );
    assert_eq!(
        ParseError::Base64DecodeError(Base64Error::InvalidByte(1, 42)).to_string(),
        s("failed to decode base64 string: Invalid symbol 42, offset 1.")
    );
    assert_eq!(Base64Error::InvalidPadding.to_string(), s("Invalid padding"));
    assert_eq!(
        ParseError::InvalidEscapeByte(EscapeByteError {
            handling_target: s("b\"\\x\""),
            escape_byte: b'x',
            escape_pos: 3
        })
        .to_string(),
        s("Unexpected escaped byte x(78) at 3 parsing 'b\"\\x\"'")
    );
    assert_eq!(
        ParseError::UnexpectedEndOfSequence(EscapeCharUnexpectedEndOfSequenceError {
            handling_target: s("ab\\"),
            escape_pos: 2
        })
        .to_string(),
        s("Unexpected end of escape sequences at 2 for the string 'ab\\'")
    );
    assert_eq!(
        ParseError::InvalidTypes(InvalidTypesError {
            expected_type: AttributeType::N,
            actual_type: AttributeType::S
        })
        .to_string(),
        s("Invalid type detected. Expected type is number (N), but actual type is string (S).")
    );
    assert_eq!(
        ParseError::InvalidTypesWithSuggest(InvalidTypesWithSuggestError {
            expected_type: AttributeType::N,
            actual_type: AttributeType::S,
            suggest: s("= 1")
        })
        .to_string(),
        s("Invalid type detected. Expected type is number (N), but actual type is string (S).\nDid you intend '= 1'?")
    );
    assert_eq!(
        ParseError::ParsingError(SyntaxError { rule: GrammarRule::Path, input: s("a..b") }).to_string(),
        s("failed to parse 'a..b'\n  = expected path")
    );
}

#[test]
fn query_inputs_checked() {
    let ts = TableSchema {
        region: s("r"),
        name: s("t"),
        pk: Key { name: s("pk"), kind: KeyType::S },
        sk: Some(Key { name: s("sk"), kind: KeyType::N }),
        indexes: None,
        mode: Mode::OnDemand,
    };
    assert!(query_input_valid(&ts, &None));
    assert!(query_input_valid(&ts, &Some(s("missing"))));
    let binary = TableSchema { pk: Key { name: s("pk"), kind: KeyType::B }, ..ts };
    assert!(!query_input_valid(&binary, &None));
}
