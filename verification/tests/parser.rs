use dynein::ast::{Path, SortKeyCondition};
use dynein::error::{
    EscapeByteError, EscapeCharError, EscapeCharUnexpectedEndOfSequenceError, InvalidTypesError,
    InvalidTypesWithSuggestError, ParseError,
};
use dynein::b64::parse_b64_literal;
use dynein::escape::{
    hex_as_byte, parse_internal_binary_literal, parse_internal_binary_string,
    parse_internal_double_quote_string, parse_single_quote_literal,
};
use dynein::parser::{
    attr_name_ref, attr_val_ref, parse_literal, parse_path, AttributeDefinition, DyneinParser,
    ExpressionResult,
};
use dynein::value::{AttrVal, AttributeType};

fn s(x: &str) -> String {
    x.to_owned()
}

fn expect_result(
    actual: &ExpressionResult,
    exp: String,
    names: Vec<(String, String)>,
    values: Vec<(String, AttrVal)>,
) {
    assert_eq!(actual.get_expression(), exp);
    assert_eq!(actual.get_names(), names);
    assert_eq!(actual.get_values(), values);
}

#[test]
fn test_attr_val_display() {
    let item = AttrVal::M(vec![
        (
            s("\"k\ne\0y\r\""),
            AttrVal::S(s("\tstr\x08\x0c🍣\u{009F}bfnrt")),
        ),
        (s("n"), AttrVal::N(s("123"))),
        (s("null"), AttrVal::Null(true)),
        (s("true"), AttrVal::Bool(true)),
        (s("false"), AttrVal::Bool(false)),
        (s("b"), AttrVal::B(b"\xf0\x9f\x8d\xa3\n\0".to_vec())),
        (
            s("l"),
            AttrVal::L(vec![
                AttrVal::N(s("1")),
                AttrVal::S(s("2")),
                AttrVal::B(b"\x03".to_vec()),
            ]),
        ),
        (s("m0"), AttrVal::M(vec![])),
        (
            s("m1"),
            AttrVal::M(vec![(
                s("m2"),
                AttrVal::M(vec![(s("m3"), AttrVal::S(s("nested")))]),
            )]),
        ),
        (s("ss"), AttrVal::SS(vec![s("1"), s("2")])),
        (s("ns"), AttrVal::NS(vec![s("1"), s("2")])),
        (s("bs"), AttrVal::BS(vec![b"\x01".to_vec(), b"\x02".to_vec()])),
    ]);
    let result = item.to_string();
    let chars: Vec<_> = result.chars().collect();
    assert_eq!(*chars.first().unwrap(), '{');
    assert_eq!(*chars.last().unwrap(), '}');
    assert_ne!(chars[chars.len() - 2], ',');
    assert!(result.contains(r#""\"k\ne\u0000y\r\"":"\tstr\b\f🍣\u009fbfnrt""#));
    assert!(result.contains(r#""n":123"#));
    assert!(result.contains(r#""null":null"#));
    assert!(result.contains(r#""true":true"#));
    assert!(result.contains(r#""false":false"#));
    assert!(result.contains(r#""b":b64"8J+NowoA""#));
    assert!(result.contains(r#""l":[1,"2",b64"Aw=="]"#));
    assert!(result.contains(r#""m0":{}"#));
    assert!(result.contains(r#""m1":{"m2":{"m3":"nested"}}"#));
    assert!(result.contains(r#""ss":<<"1","2">>"#));
    assert!(result.contains(r#""ns":<<1,2>>"#));
    assert!(result.contains(r#""bs":<<b64"AQ==",b64"Ag==">>"#));
}

#[test]
fn test_sort_key_condition_display() {
    assert_eq!(
        SortKeyCondition::Eq(AttrVal::S(s("str"))).to_string().as_str(),
        r#"= "str""#
    );
    assert_eq!(
        SortKeyCondition::Eq(AttrVal::N(s("12"))).to_string().as_str(),
        r#"= 12"#
    );
    assert_eq!(
        SortKeyCondition::Eq(AttrVal::B(b"str".to_vec())).to_string().as_str(),
        r#"= b64"c3Ry""#
    );
    assert_eq!(
        SortKeyCondition::Le(AttrVal::S(s("str"))).to_string().as_str(),
        r#"<= "str""#
    );
    assert_eq!(
        SortKeyCondition::Lt(AttrVal::N(s("12"))).to_string().as_str(),
        r#"< 12"#
    );
    assert_eq!(
        SortKeyCondition::Ge(AttrVal::B(b"str".to_vec())).to_string().as_str(),
        r#">= b64"c3Ry""#
    );
    assert_eq!(
        SortKeyCondition::Gt(AttrVal::S(s("str"))).to_string().as_str(),
        r#"> "str""#
    );
    assert_eq!(
        SortKeyCondition::Between(AttrVal::N(s("1")), AttrVal::N(s("2")))
            .to_string()
            .as_str(),
        r#"between 1 and 2"#
    );
    assert_eq!(
        SortKeyCondition::BeginsWith(AttrVal::S(s("str"))).to_string().as_str(),
        r#"begins_with "str""#
    );
}

#[test]
fn test_parse_internal_double_quote_string() {
    assert_eq!(parse_internal_double_quote_string("a").unwrap(), "a");
    assert_eq!(parse_internal_double_quote_string("'").unwrap(), "'");
    assert_eq!(parse_internal_double_quote_string("\\r\\n").unwrap(), "\r\n");

    assert_eq!(parse_internal_double_quote_string("\\\"").unwrap(), "\"");
    assert_eq!(parse_internal_double_quote_string("\\\\").unwrap(), "\\");
    assert_eq!(parse_internal_double_quote_string("\\/").unwrap(), "/");
    assert_eq!(parse_internal_double_quote_string("\\b").unwrap(), "\x08");
    assert_eq!(parse_internal_double_quote_string("\\f").unwrap(), "\x0c");
    assert_eq!(parse_internal_double_quote_string("\\n").unwrap(), "\n");
    assert_eq!(parse_internal_double_quote_string("\\r").unwrap(), "\r");
    assert_eq!(parse_internal_double_quote_string("\\t").unwrap(), "\t");

    assert_eq!(parse_internal_double_quote_string("\\u002F").unwrap(), "/");
    assert_eq!(parse_internal_double_quote_string("\\u002f").unwrap(), "/");
    assert_eq!(parse_internal_double_quote_string("/").unwrap(), "/");

    assert_eq!(
        parse_internal_double_quote_string("\\uD834\\uDD1E").unwrap(),
        "𝄞"
    );

    assert_eq!(parse_internal_double_quote_string("\\0").unwrap(), "\0");
    assert_eq!(parse_internal_double_quote_string("\\'").unwrap(), "'");
    assert_eq!(parse_internal_double_quote_string("\\\"").unwrap(), "\"");
    assert_eq!(parse_internal_double_quote_string("\0").unwrap(), "\0");
    assert_eq!(parse_internal_double_quote_string("\r\n").unwrap(), "\r\n");
    assert_eq!(parse_internal_double_quote_string("\r").unwrap(), "\r");
    assert_eq!(parse_internal_double_quote_string("\n").unwrap(), "\n");
    assert_eq!(parse_internal_double_quote_string("\t").unwrap(), "\t");

    assert_eq!(parse_internal_double_quote_string("\"").unwrap(), "\"");

    assert_eq!(
        parse_internal_double_quote_string("\\").expect_err("It must not Ok()"),
        ParseError::UnexpectedEndOfSequence(EscapeCharUnexpectedEndOfSequenceError {
            handling_target: "\\".to_owned(),
            escape_pos: 0,
        })
    );
    assert_eq!(
        parse_internal_double_quote_string("\\udefg").expect_err("It must not Ok()"),
        ParseError::InvalidEscapeChar(EscapeCharError {
            handling_target: "\\udefg".to_owned(),
            invalid_char: 'g',
            escape_pos: 0,
        })
    );
    assert_eq!(
        parse_internal_double_quote_string("\\uD834").expect_err("It must not Ok()"),
        ParseError::UnexpectedEndOfSequence(EscapeCharUnexpectedEndOfSequenceError {
            handling_target: "\\uD834".to_owned(),
            escape_pos: 0,
        })
    );

    assert_eq!(
        parse_internal_double_quote_string("This is a line.\\nこれは行です。").unwrap(),
        "This is a line.\nこれは行です。"
    );
}

#[test]
fn test_parse_single_quote_literal() {
    assert_eq!(parse_single_quote_literal("'a'"), "a");
    assert_eq!(parse_single_quote_literal("'\\0'"), "\\0");
    assert_eq!(parse_single_quote_literal("'\\r\\n'"), "\\r\\n");
    assert_eq!(parse_single_quote_literal("'\\r'"), "\\r");
    assert_eq!(parse_single_quote_literal("'\\n'"), "\\n");
    assert_eq!(parse_single_quote_literal("'\\t'"), "\\t");
    assert_eq!(parse_single_quote_literal("'\\\\'"), "\\\\");
    assert_eq!(parse_single_quote_literal("'\\''"), "\\'");
    assert_eq!(parse_single_quote_literal("'\\\"'"), "\\\"");
}

#[test]
fn test_hex_as_byte() {
    assert_eq!(hex_as_byte("0", 0, b'0').unwrap(), 0);
    assert_eq!(hex_as_byte("9", 0, b'9').unwrap(), 9);
    assert_eq!(hex_as_byte("a", 0, b'a').unwrap(), 10);
    assert_eq!(hex_as_byte("f", 0, b'f').unwrap(), 15);
    assert_eq!(
        hex_as_byte("g", 0, b'g').unwrap_err(),
        ParseError::InvalidEscapeByte(EscapeByteError {
            handling_target: "g".to_owned(),
            escape_pos: 0,
            escape_byte: b'g',
        })
    );
    assert_eq!(
        hex_as_byte("dummy", 0, b'\xff').unwrap_err(),
        ParseError::InvalidEscapeByte(EscapeByteError {
            handling_target: "dummy".to_owned(),
            escape_pos: 0,
            escape_byte: b'\xff',
        })
    );
}

#[test]
fn test_parse_internal_binary_literal() {
    assert_eq!(
        parse_internal_binary_literal("\\xDE\\xAD\\xbe\\xef").unwrap(),
        b"\xde\xad\xbe\xef".to_vec()
    );
    assert_eq!(
        parse_internal_binary_literal("\\n\\r\\t\\\\\\0\\'\\\"").unwrap(),
        b"\n\r\t\\\0\'\"".to_vec()
    );
    assert_eq!(
        parse_internal_binary_literal("\\xZZ").unwrap_err(),
        ParseError::InvalidEscapeByte(EscapeByteError {
            handling_target: "\\xZZ".to_owned(),
            escape_pos: 2,
            escape_byte: b'Z',
        })
    );
}

#[test]
fn test_parse_internal_binary_string() {
    let binary_string = "a\\\n\r\n\t b\\\r\r\n\t c\\xDE\\xAD\\xbe\\xef\\r\\n\\t\\\\\\0\\'\\\"";
    let expect_binary = b"abc\xde\xad\xbe\xef\r\n\t\\\0'\"";
    assert_eq!(
        parse_internal_binary_string(binary_string).unwrap(),
        expect_binary.to_vec()
    );
}

#[test]
fn test_parse_b64_literal() {
    assert_eq!(parse_b64_literal("b64'AA=='").unwrap(), b"\0".to_vec());
    assert_eq!(parse_b64_literal("b64'AA'").unwrap(), b"\0".to_vec());
    assert_eq!(parse_b64_literal("b64'SGk='").unwrap(), b"Hi".to_vec());
    assert_eq!(
        parse_b64_literal(r#"b64"QmluCg==""#).unwrap(),
        b"Bin\n".to_vec()
    );
    assert_eq!(
        parse_b64_literal(r#"b64"RAEBog==""#).unwrap(),
        b"\x44\x01\x01\xa2".to_vec()
    );
}

#[test]
fn test_parse_literal() {
    assert_eq!(parse_literal("true").unwrap(), AttrVal::Bool(true));
    assert_eq!(parse_literal("false").unwrap(), AttrVal::Bool(false));
    assert_eq!(parse_literal("null").unwrap(), AttrVal::Null(true));

    assert_eq!(
        parse_literal("\"🍣 is \\\"sushi\\\"!\"").unwrap(),
        AttrVal::S(s("🍣 is \"sushi\"!"))
    );
    assert_eq!(
        parse_literal("\"\\0\\r\\n\\t\\\\\\\"\\'\"").unwrap(),
        AttrVal::S(s("\0\r\n\t\\\"\'"))
    );
    assert_eq!(
        parse_literal(r###""\"\\\/\b\f\n\r\t\u002F\u002f\uD834\uDD1E""###).unwrap(),
        AttrVal::S(s("\u{0022}\u{005c}\u{002f}\u{0008}\u{000c}\u{000a}\u{000d}\u{0009}\u{002f}\u{002f}\u{1d11e}"))
    );
    assert_eq!(
        parse_literal("'Escape must not work\\n'").unwrap(),
        AttrVal::S(s("Escape must not work\\n"))
    );

    let num_list = [
        "12345678901234567890",
        "0",
        "+1",
        "-1",
        "+0",
        "-0",
        "+0.0",
        "-0.0",
        "3.141592653589793238462643",
        "+1.1",
        "-1.1",
        ".1",
        "1.",
        "0.0",
        "0.",
        ".0",
        "-2.71828182846e-12",
        "1e1",
        "+1e+1",
        "-1e-1",
        "1e0",
        "0e1",
        "0e0",
        "1E-130",
        "9.9999999999999999999999999999999999999E+125",
        "-9.9999999999999999999999999999999999999E+125",
        "-1E-130",
    ];
    for num in num_list {
        assert_eq!(parse_literal(num).unwrap(), AttrVal::N(num.to_owned()));
    }

    assert_eq!(
        parse_literal("[1,'2', true]").unwrap(),
        AttrVal::L(vec![AttrVal::N(s("1")), AttrVal::S(s("2")), AttrVal::Bool(true)])
    );

    assert_eq!(
        parse_literal("{'1': \"id1\", \"2\": 4, '3': true, 's 1': null}").unwrap(),
        AttrVal::M(vec![
            (s("1"), AttrVal::S(s("id1"))),
            (s("2"), AttrVal::N(s("4"))),
            (s("3"), AttrVal::Bool(true)),
            (s("s 1"), AttrVal::Null(true)),
        ])
    );

    assert_eq!(
        parse_literal("b'\\xDE\\xAD\\xbe\\xef\\n\\r\\t\\\\\0\\'\\\"'").unwrap(),
        AttrVal::B(b"\xde\xad\xbe\xef\n\r\t\\\0\'\"".to_vec())
    );
    assert_eq!(
        parse_literal("b\"\\xDE\\xAD\\xbe\\xef\\\n\r\t\\\\\0\\'\\\"\"").unwrap(),
        AttrVal::B(b"\xde\xad\xbe\xef\\\0\'\"".to_vec())
    );
    assert_eq!(
        parse_literal("b64\"3q2+7woNCVwAJyI=\"").unwrap(),
        AttrVal::B(b"\xde\xad\xbe\xef\n\r\t\\\0\'\"".to_vec())
    );

    assert_eq!(
        parse_literal("<<'S1',\"S 2\">>").unwrap(),
        AttrVal::SS(vec![s("S1"), s("S 2")])
    );
    assert_eq!(
        parse_literal("<<0,-3,1.570,-1e3>>").unwrap(),
        AttrVal::NS(vec![s("0"), s("-3"), s("1.570"), s("-1e3")])
    );

    let binary_list =
        "<<b'deadbeef',b'\\xde\\xad\\xbe\\xef',b\"wa\\\n\trp\",b\"no-\n\twarp\",b64\"YjY0LWQ=\",b64'YjY0LXM='>>";
    assert_eq!(
        parse_literal(binary_list).unwrap(),
        AttrVal::BS(vec![
            b"deadbeef".to_vec(),
            b"\xde\xad\xbe\xef".to_vec(),
            b"warp".to_vec(),
            b"no-\n\twarp".to_vec(),
            b"b64-d".to_vec(),
            b"b64-s".to_vec(),
        ])
    );

    let literal_input = "{'id': '123456', 'year': 2023, 'info': {'creators':['Alice', 'Bob']}}";
    assert_eq!(
        parse_literal(literal_input).unwrap(),
        AttrVal::M(vec![
            (s("id"), AttrVal::S(s("123456"))),
            (s("year"), AttrVal::N(s("2023"))),
            (
                s("info"),
                AttrVal::M(vec![(
                    s("creators"),
                    AttrVal::L(vec![AttrVal::S(s("Alice")), AttrVal::S(s("Bob"))])
                )])
            ),
        ])
    );
}

#[test]
fn test_process_path() {
    let result = parse_path("a0.a1[1][2].`a 2`[2].a三.`a``4`.a0").unwrap();
    let mut expected = Path::new();
    expected.add_attr("a0".to_owned());
    expected.add_attr("a1".to_owned());
    expected.add_index("1".to_owned());
    expected.add_index("2".to_owned());
    expected.add_attr("a 2".to_owned());
    expected.add_index("2".to_owned());
    expected.add_attr("a三".to_owned());
    expected.add_attr("a`4".to_owned());
    expected.add_attr("a0".to_owned());
    assert_eq!(result, expected);

    let mut parser = DyneinParser::new();
    let result = parser.process_path(&result);
    assert_eq!(
        result,
        format!(
            "{}.{}[1][2].{}[2].{}.{}.{}",
            attr_name_ref(0),
            attr_name_ref(1),
            attr_name_ref(2),
            attr_name_ref(3),
            attr_name_ref(4),
            attr_name_ref(0)
        )
    );
    let context = parser.context();
    assert_eq!(
        context.get_names(),
        vec![
            (attr_name_ref(0), "a0".to_owned()),
            (attr_name_ref(1), "a1".to_owned()),
            (attr_name_ref(2), "a 2".to_owned()),
            (attr_name_ref(3), "a三".to_owned()),
            (attr_name_ref(4), "a`4".to_owned()),
        ]
    );
    assert_eq!(context.get_values(), vec![]);
}

#[test]
fn test_process_literal() {
    let cases = vec![
        AttrVal::N(s("123")),
        AttrVal::S(s("string")),
        AttrVal::Bool(true),
        AttrVal::Bool(false),
        AttrVal::Null(true),
        AttrVal::B(b"123".to_vec()),
        AttrVal::L(vec![AttrVal::N(s("123"))]),
        AttrVal::M(vec![(s("m"), AttrVal::N(s("123")))]),
        AttrVal::NS(vec![s("123")]),
        AttrVal::SS(vec![s("123")]),
        AttrVal::BS(vec![b"123".to_vec()]),
    ];
    let expected = vec![
        AttrVal::N(s("123")),
        AttrVal::S(s("string")),
        AttrVal::Bool(true),
        AttrVal::Bool(false),
        AttrVal::Null(true),
        AttrVal::B(b"123".to_vec()),
        AttrVal::L(vec![AttrVal::N(s("123"))]),
        AttrVal::M(vec![(s("m"), AttrVal::N(s("123")))]),
        AttrVal::NS(vec![s("123")]),
        AttrVal::SS(vec![s("123")]),
        AttrVal::BS(vec![b"123".to_vec()]),
    ];
    for (input, want) in cases.into_iter().zip(expected.into_iter()) {
        let mut parser = DyneinParser::new();
        let result = parser.process_literal(&input);
        assert_eq!(result, attr_val_ref(0));
        let context = parser.context();
        assert_eq!(context.get_names(), vec![]);
        assert_eq!(context.get_values(), vec![(attr_val_ref(0), want)]);
    }
}

#[test]
fn test_parse_sort_key() {
    let mut parser = DyneinParser::new();

    let r = parser
        .parse_sort_key_with_fallback("= 1", &AttributeDefinition::new("id", AttributeType::N))
        .unwrap();
    expect_result(
        &r,
        format!("{}={}", attr_name_ref(0), attr_val_ref(0)),
        vec![(attr_name_ref(0), s("id"))],
        vec![(attr_val_ref(0), AttrVal::N(s("1")))],
    );

    parser.clear();
    let r = parser
        .parse_sort_key_with_fallback("=='1'", &AttributeDefinition::new("id", AttributeType::S))
        .unwrap();
    expect_result(
        &r,
        format!("{}={}", attr_name_ref(0), attr_val_ref(0)),
        vec![(attr_name_ref(0), s("id"))],
        vec![(attr_val_ref(0), AttrVal::S(s("1")))],
    );

    parser.clear();
    let r = parser
        .parse_sort_key_with_fallback("> '1'", &AttributeDefinition::new("id", AttributeType::S))
        .unwrap();
    expect_result(
        &r,
        format!("{}>{}", attr_name_ref(0), attr_val_ref(0)),
        vec![(attr_name_ref(0), s("id"))],
        vec![(attr_val_ref(0), AttrVal::S(s("1")))],
    );

    parser.clear();
    let r = parser
        .parse_sort_key_with_fallback(">=1", &AttributeDefinition::new("id", AttributeType::N))
        .unwrap();
    expect_result(
        &r,
        format!("{}>={}", attr_name_ref(0), attr_val_ref(0)),
        vec![(attr_name_ref(0), s("id"))],
        vec![(attr_val_ref(0), AttrVal::N(s("1")))],
    );

    parser.clear();
    let r = parser
        .parse_sort_key_with_fallback("<\"1 2\"", &AttributeDefinition::new("id", AttributeType::S))
        .unwrap();
    expect_result(
        &r,
        format!("{}<{}", attr_name_ref(0), attr_val_ref(0)),
        vec![(attr_name_ref(0), s("id"))],
        vec![(attr_val_ref(0), AttrVal::S(s("1 2")))],
    );

    parser.clear();
    let r = parser
        .parse_sort_key_with_fallback("<=-1e5", &AttributeDefinition::new("id", AttributeType::N))
        .unwrap();
    expect_result(
        &r,
        format!("{}<={}", attr_name_ref(0), attr_val_ref(0)),
        vec![(attr_name_ref(0), s("id"))],
        vec![(attr_val_ref(0), AttrVal::N(s("-1e5")))],
    );

    parser.clear();
    let r = parser
        .parse_sort_key_with_fallback(
            "BETWEEN b'1' AND b'2'",
            &AttributeDefinition::new("id", AttributeType::B),
        )
        .unwrap();
    expect_result(
        &r,
        format!(
            "{} BETWEEN {} AND {}",
            attr_name_ref(0),
            attr_val_ref(0),
            attr_val_ref(1)
        ),
        vec![(attr_name_ref(0), s("id"))],
        vec![
            (attr_val_ref(0), AttrVal::B(b"1".to_vec())),
            (attr_val_ref(1), AttrVal::B(b"2".to_vec())),
        ],
    );

    parser.clear();
    let r = parser
        .parse_sort_key_with_fallback(
            "begins_with 'id1234#e1234'",
            &AttributeDefinition::new("id", AttributeType::S),
        )
        .unwrap();
    expect_result(
        &r,
        format!("begins_with({},{})", attr_name_ref(0), attr_val_ref(0)),
        vec![(attr_name_ref(0), s("id"))],
        vec![(attr_val_ref(0), AttrVal::S(s("id1234#e1234")))],
    );

    let op_in = ["= 1", "==1", "> 1", ">=1", "<1.2", "<=-1e5"];
    let expected_op = ["=", "=", ">", ">=", "<", "<="];
    let expected_val = ["1", "1", "1", "1", "1.2", "-1e5"];
    for i in 0..op_in.len() {
        parser.clear();
        let r = parser
            .parse_sort_key_with_fallback(op_in[i], &AttributeDefinition::new("id", AttributeType::S))
            .unwrap();
        expect_result(
            &r,
            format!("{}{}{}", attr_name_ref(0), expected_op[i], attr_val_ref(0)),
            vec![(attr_name_ref(0), s("id"))],
            vec![(attr_val_ref(0), AttrVal::S(expected_val[i].to_owned()))],
        );
        parser.clear();
        assert_eq!(
            parser.parse_sort_key_without_fallback(
                op_in[i],
                &AttributeDefinition::new("id", AttributeType::S),
            ),
            Err(ParseError::InvalidTypesWithSuggest(InvalidTypesWithSuggestError {
                expected_type: AttributeType::S,
                actual_type: AttributeType::N,
                suggest: format!("{} \"{}\"", expected_op[i], expected_val[i]),
            }))
        );
    }

    parser.clear();
    assert_eq!(
        parser.parse_sort_key_without_fallback(
            r#"= "1*3""#,
            &AttributeDefinition::new("id", AttributeType::N),
        ),
        Err(ParseError::InvalidTypes(InvalidTypesError {
            expected_type: AttributeType::N,
            actual_type: AttributeType::S,
        }))
    );

    parser.clear();
    let r = parser
        .parse_sort_key_with_fallback("BETWEEN 1 AND 2", &AttributeDefinition::new("id", AttributeType::S))
        .unwrap();
    expect_result(
        &r,
        format!(
            "{} BETWEEN {} AND {}",
            attr_name_ref(0),
            attr_val_ref(0),
            attr_val_ref(1)
        ),
        vec![(attr_name_ref(0), s("id"))],
        vec![
            (attr_val_ref(0), AttrVal::S(s("1"))),
            (attr_val_ref(1), AttrVal::S(s("2"))),
        ],
    );

    parser.clear();
    let r = parser
        .parse_sort_key_with_fallback(
            "begins_with id12#i-12@i-12/i-12",
            &AttributeDefinition::new("id", AttributeType::S),
        )
        .unwrap();
    expect_result(
        &r,
        format!("begins_with({},{})", attr_name_ref(0), attr_val_ref(0)),
        vec![(attr_name_ref(0), s("id"))],
        vec![(attr_val_ref(0), AttrVal::S(s("id12#i-12@i-12/i-12")))],
    );

    parser.clear();
    let r = parser
        .parse_sort_key_with_fallback("123", &AttributeDefinition::new("id", AttributeType::S))
        .unwrap();
    expect_result(
        &r,
        format!("{}={}", attr_name_ref(0), attr_val_ref(0)),
        vec![(attr_name_ref(0), s("id"))],
        vec![(attr_val_ref(0), AttrVal::S(s("123")))],
    );

    parser.clear();
    let r = parser
        .parse_sort_key_with_fallback("123", &AttributeDefinition::new("id", AttributeType::N))
        .unwrap();
    expect_result(
        &r,
        format!("{}={}", attr_name_ref(0), attr_val_ref(0)),
        vec![(attr_name_ref(0), s("id"))],
        vec![(attr_val_ref(0), AttrVal::N(s("123")))],
    );
}

#[test]
fn test_parse_dynein_format() {
    let parser = DyneinParser::new();
    assert_eq!(
        parser
            .parse_dynein_format(
                None,
                r#"{
                       "k0": null,
                       "k1": [1, 2, 3, "str"],
                       "k2": "str",
                       "k3": {
                         "l0": <<1, 2>>,
                         "l1": <<'str1', "str2">>,
                         "l2": true
                       },
                       "k4": b"\x20",
                       "k5": <<b'This', b"bin", b64"ZmlsZQ==">>
                     }"#,
            )
            .unwrap(),
        vec![
            (s("k0"), AttrVal::Null(true)),
            (
                s("k1"),
                AttrVal::L(vec![
                    AttrVal::N(s("1")),
                    AttrVal::N(s("2")),
                    AttrVal::N(s("3")),
                    AttrVal::S(s("str")),
                ])
            ),
            (s("k2"), AttrVal::S(s("str"))),
            (
                s("k3"),
                AttrVal::M(vec![
                    (s("l0"), AttrVal::NS(vec![s("1"), s("2")])),
                    (s("l1"), AttrVal::SS(vec![s("str1"), s("str2")])),
                    (s("l2"), AttrVal::Bool(true)),
                ])
            ),
            (s("k4"), AttrVal::B(b"\x20".to_vec())),
            (
                s("k5"),
                AttrVal::BS(vec![b"This".to_vec(), b"bin".to_vec(), b"file".to_vec()])
            ),
        ]
    )
}

#[test]
fn test_parse_set_action() {
    let mut parser = DyneinParser::new();
    let r = parser.parse_set_action("id = \"string\"").unwrap();
    expect_result(
        &r,
        format!("{}={}", attr_name_ref(0), attr_val_ref(0)),
        vec![(attr_name_ref(0), s("id"))],
        vec![(attr_val_ref(0), AttrVal::S(s("string")))],
    );
}

#[test]
fn test_remove_action() {
    let mut parser = DyneinParser::new();
    let r = parser.parse_remove_action("p0, p1[0], p2.p3[1].p0").unwrap();
    expect_result(
        &r,
        format!(
            "{},{}[0],{}.{}[1].{}",
            attr_name_ref(0),
            attr_name_ref(1),
            attr_name_ref(2),
            attr_name_ref(3),
            attr_name_ref(0)
        ),
        vec![
            (attr_name_ref(0), s("p0")),
            (attr_name_ref(1), s("p1")),
            (attr_name_ref(2), s("p2")),
            (attr_name_ref(3), s("p3")),
        ],
        vec![],
    );
}

#[test]
fn test_set_and_remove_action() {
    let mut parser = DyneinParser::new();
    let names = vec![(attr_name_ref(0), s("p0"))];
    let values = vec![(attr_val_ref(0), AttrVal::S(s("string")))];
    let r = parser.parse_set_action("p0 = \"string\"").unwrap();
    expect_result(
        &r,
        format!("{}={}", attr_name_ref(0), attr_val_ref(0)),
        names.clone(),
        vec![(attr_val_ref(0), AttrVal::S(s("string")))],
    );
    let r = parser.parse_remove_action("p0").unwrap();
    expect_result(&r, attr_name_ref(0), names, values);
}

#[test]
fn literal_map_gives_each_key_once() {
    assert_eq!(
        parse_literal(r#"{"a": 1, "b": {"c": 2, "c": 3}, "a": 4}"#),
        Ok(AttrVal::M(vec![
            (s("a"), AttrVal::N(s("4"))),
            (s("b"), AttrVal::M(vec![(s("c"), AttrVal::N(s("3")))])),
        ]))
    );
    let parser = DyneinParser::new();
    assert_eq!(
        parser.parse_dynein_format(Some(vec![(s("id"), AttrVal::S(s("x")))]), r#"{"n": 1, "id": "y", "n": 2}"#),
        Ok(vec![(s("id"), AttrVal::S(s("y"))), (s("n"), AttrVal::N(s("2")))])
    );
}

#[test]
fn new_names_take_the_next_reference() {
    let mut parser = DyneinParser::new();
    let r = parser.parse_set_action("a = b, c = a").unwrap();
    assert_eq!(
        r.get_names(),
        vec![(attr_name_ref(0), s("a")), (attr_name_ref(1), s("b")), (attr_name_ref(2), s("c"))]
    );
    assert_ne!(attr_name_ref(1), attr_name_ref(10));
    assert_ne!(attr_val_ref(2), attr_val_ref(20));
}

#[test]
fn unquoted_names_follow_the_unicode_identifier_classes() {
    assert!(parse_path("map.路径").is_ok());
    assert!(parse_path("パス").is_ok());
    assert!(parse_path("경로.x_1").is_ok());
    assert!(parse_path("a→b").is_err());
    assert!(parse_path("a。b").is_err());
    assert!(parse_path("→").is_err());
    assert!(parse_path("`a→b`").is_ok());
}

#[test]
fn binary_values_are_written_in_padded_base64() {
    assert_eq!(AttrVal::B(vec![255, 0, 1, 2]).to_string(), s("b64\"/wABAg==\""));
    assert_eq!(AttrVal::B(b"dynein".to_vec()).to_string(), s("b64\"ZHluZWlu\""));
    assert_eq!(AttrVal::B(vec![]).to_string(), s("b64\"\""));
}
