use dynein::batch::{
    build_batch_request_items_from_json, ddbjson_attributes_to_attrvals, ddbjson_val_to_attrval,
    DdbJsonError, WriteRequest,
};
use dynein::data::{JsonNumber, JsonValue};
use dynein::error::Base64Error;
use dynein::value::AttrVal;

fn s(x: &str) -> String {
    x.to_owned()
}

fn js(x: &str) -> JsonValue {
    JsonValue::String(s(x))
}

fn obj(entries: Vec<(&str, JsonValue)>) -> JsonValue {
    JsonValue::Object(entries.into_iter().map(|(k, v)| (s(k), v)).collect())
}

#[test]
fn ddbjson_scalars() {
    assert_eq!(ddbjson_val_to_attrval(&obj(vec![("S", js("abc"))])), Ok(Some(AttrVal::S(s("abc")))));
    assert_eq!(ddbjson_val_to_attrval(&obj(vec![("N", js("12"))])), Ok(Some(AttrVal::N(s("12")))));
    assert_eq!(
        ddbjson_val_to_attrval(&obj(vec![("BOOL", JsonValue::Bool(true))])),
        Ok(Some(AttrVal::Bool(true)))
    );
    assert_eq!(
        ddbjson_val_to_attrval(&obj(vec![("NULL", JsonValue::Bool(true))])),
        Ok(Some(AttrVal::Null(true)))
    );
    assert_eq!(ddbjson_val_to_attrval(&obj(vec![("X", js("abc"))])), Ok(None));
    assert_eq!(ddbjson_val_to_attrval(&js("abc")), Ok(None));
}

#[test]
fn ddbjson_scalar_errors() {
    let num = JsonValue::Number(JsonNumber { repr: s("1") });
    assert_eq!(ddbjson_val_to_attrval(&obj(vec![("S", num)])), Err(DdbJsonError::NotAString));
    assert_eq!(
        ddbjson_val_to_attrval(&obj(vec![("BOOL", js("true"))])),
        Err(DdbJsonError::NotABool)
    );
    assert_eq!(
        ddbjson_val_to_attrval(&obj(vec![("SS", js("a"))])),
        Err(DdbJsonError::NotAnArray)
    );
    assert_eq!(
        ddbjson_val_to_attrval(&obj(vec![("M", js("a"))])),
        Err(DdbJsonError::NotAnObject)
    );
    assert_eq!(DdbJsonError::NotABool.to_string(), s("should be a boolean"));
}

#[test]
fn ddbjson_binary_values() {
    assert_eq!(
        ddbjson_val_to_attrval(&obj(vec![("B", js("aGVsbG8="))])),
        Ok(Some(AttrVal::B(b"hello".to_vec())))
    );
    assert_eq!(
        ddbjson_val_to_attrval(&obj(vec![("B", js("aGVsbG8"))])),
        Err(DdbJsonError::InvalidBase64(Base64Error::InvalidPadding))
    );
    assert!(matches!(
        ddbjson_val_to_attrval(&obj(vec![("B", js("a*bc"))])),
        Err(DdbJsonError::InvalidBase64(Base64Error::InvalidByte(1, b'*')))
    ));
    assert_eq!(
        ddbjson_val_to_attrval(&obj(vec![(
            "BS",
            JsonValue::Array(vec![js("aGk="), js("AAE=")])
        )])),
        Ok(Some(AttrVal::BS(vec![b"hi".to_vec(), vec![0u8, 1u8]])))
    );
}

#[test]
fn ddbjson_collections() {
    assert_eq!(
        ddbjson_val_to_attrval(&obj(vec![("SS", JsonValue::Array(vec![js("a"), js("b")]))])),
        Ok(Some(AttrVal::SS(vec![s("a"), s("b")])))
    );
    assert_eq!(
        ddbjson_val_to_attrval(&obj(vec![("NS", JsonValue::Array(vec![js("1"), js("2")]))])),
        Ok(Some(AttrVal::NS(vec![s("1"), s("2")])))
    );
    let list = obj(vec![(
        "L",
        JsonValue::Array(vec![obj(vec![("S", js("x"))]), obj(vec![("N", js("3"))])]),
    )]);
    assert_eq!(
        ddbjson_val_to_attrval(&list),
        Ok(Some(AttrVal::L(vec![AttrVal::S(s("x")), AttrVal::N(s("3"))])))
    );
    let bad_list = obj(vec![("L", JsonValue::Array(vec![obj(vec![("Q", js("x"))])]))]);
    assert_eq!(ddbjson_val_to_attrval(&bad_list), Err(DdbJsonError::UnsupportedListElement));
    let map = obj(vec![(
        "M",
        obj(vec![("a", obj(vec![("S", js("x"))])), ("b", obj(vec![("BOOL", JsonValue::Bool(false))]))]),
    )]);
    assert_eq!(
        ddbjson_val_to_attrval(&map),
        Ok(Some(AttrVal::M(vec![(s("a"), AttrVal::S(s("x"))), (s("b"), AttrVal::Bool(false))])))
    );
}

#[test]
fn ddbjson_attribute_maps() {
    let item = obj(vec![("id", obj(vec![("S", js("u1"))])), ("age", obj(vec![("N", js("7"))]))]);
    assert_eq!(
        ddbjson_attributes_to_attrvals(&item),
        Ok(vec![(s("id"), AttrVal::S(s("u1"))), (s("age"), AttrVal::N(s("7")))])
    );
    assert_eq!(ddbjson_attributes_to_attrvals(&js("x")), Err(DdbJsonError::NotAnObject));
}

#[test]
fn batch_request_items_from_json() {
    let put = obj(vec![(
        "PutRequest",
        obj(vec![("Item", obj(vec![("id", obj(vec![("S", js("u1"))]))]))]),
    )]);
    let del = obj(vec![(
        "DeleteRequest",
        obj(vec![("Key", obj(vec![("id", obj(vec![("S", js("u2"))]))]))]),
    )]);
    let skipped = obj(vec![("PutRequest", obj(vec![("Other", js("x"))]))]);
    let tables = vec![
        (s("t1"), JsonValue::Array(vec![put, skipped, del])),
        (s("t2"), JsonValue::Array(vec![])),
    ];
    let r = build_batch_request_items_from_json(&tables).unwrap();
    assert_eq!(
        r,
        vec![
            (
                s("t1"),
                vec![
                    WriteRequest::Put(vec![(s("id"), AttrVal::S(s("u1")))]),
                    WriteRequest::Delete(vec![(s("id"), AttrVal::S(s("u2")))]),
                ]
            ),
            (s("t2"), vec![]),
        ]
    );
    let not_array = vec![(s("t1"), js("x"))];
    assert_eq!(build_batch_request_items_from_json(&not_array), Err(DdbJsonError::NotAnArray));
}
