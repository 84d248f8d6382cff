use ambient_ember::value::{
    ItemMap, IVec3, PrimitiveType, ResolvableValue, ScalarValue, TomlValue, TypeInner, UVec2,
    Value, ValueError,
};

fn s(x: &str) -> TomlValue {
    TomlValue::String(x.to_string())
}

#[test]
fn integers_convert_with_truncation() {
    assert_eq!(
        ScalarValue::from_toml(&TomlValue::Integer(7), PrimitiveType::U8),
        Ok(ScalarValue::U8(7))
    );
    assert_eq!(
        ScalarValue::from_toml(&TomlValue::Integer(300), PrimitiveType::U8),
        Ok(ScalarValue::U8(44))
    );
    assert_eq!(
        ScalarValue::from_toml(&TomlValue::Integer(-1), PrimitiveType::U16),
        Ok(ScalarValue::U16(65535))
    );
    assert_eq!(
        ScalarValue::from_toml(&TomlValue::Integer(-5), PrimitiveType::I64),
        Ok(ScalarValue::I64(-5))
    );
    assert_eq!(
        ScalarValue::from_toml(&TomlValue::Integer(200), PrimitiveType::I8),
        Ok(ScalarValue::I8(-56))
    );
}

#[test]
fn wrong_kinds_are_refused() {
    assert_eq!(
        ScalarValue::from_toml(&TomlValue::Integer(1), PrimitiveType::Bool),
        Err(ValueError::ExpectedBool)
    );
    assert_eq!(
        ScalarValue::from_toml(&TomlValue::Boolean(true), PrimitiveType::U32),
        Err(ValueError::ExpectedInteger)
    );
    assert_eq!(
        ScalarValue::from_toml(&TomlValue::Integer(1), PrimitiveType::String),
        Err(ValueError::ExpectedString)
    );
    assert_eq!(
        ScalarValue::from_toml(&TomlValue::Integer(1), PrimitiveType::Uvec2),
        Err(ValueError::ExpectedArray)
    );
}

#[test]
fn bools_strings_and_empty_convert() {
    assert_eq!(
        ScalarValue::from_toml(&TomlValue::Boolean(true), PrimitiveType::Bool),
        Ok(ScalarValue::Bool(true))
    );
    assert_eq!(
        ScalarValue::from_toml(&s("hi"), PrimitiveType::String),
        Ok(ScalarValue::String("hi".to_string()))
    );
    assert_eq!(
        ScalarValue::from_toml(&TomlValue::Integer(3), PrimitiveType::Empty),
        Ok(ScalarValue::Empty)
    );
}

#[test]
fn durations_and_handles_are_unsupported() {
    for ty in [
        PrimitiveType::Duration,
        PrimitiveType::ProceduralMeshHandle,
        PrimitiveType::ProceduralTextureHandle,
        PrimitiveType::ProceduralSamplerHandle,
        PrimitiveType::ProceduralMaterialHandle,
    ] {
        assert_eq!(
            ScalarValue::from_toml(&TomlValue::Integer(0), ty),
            Err(ValueError::UnsupportedType)
        );
    }
}

#[test]
fn integer_vectors_convert() {
    let arr = TomlValue::Array(vec![TomlValue::Integer(1), TomlValue::Integer(2)]);
    assert_eq!(
        ScalarValue::from_toml(&arr, PrimitiveType::Uvec2),
        Ok(ScalarValue::Uvec2(UVec2 { x: 1, y: 2 }))
    );
    let arr = TomlValue::Array(vec![
        TomlValue::Integer(-1),
        TomlValue::Integer(0),
        TomlValue::Integer(5),
    ]);
    assert_eq!(
        ScalarValue::from_toml(&arr, PrimitiveType::Ivec3),
        Ok(ScalarValue::Ivec3(IVec3 { x: -1, y: 0, z: 5 }))
    );
    let bad = TomlValue::Array(vec![TomlValue::Integer(1), TomlValue::Boolean(false)]);
    assert_eq!(
        ScalarValue::from_toml(&bad, PrimitiveType::Ivec2),
        Err(ValueError::ExpectedInteger)
    );
}

#[test]
fn entity_ids_decode_little_endian_base64() {
    assert_eq!(
        ScalarValue::from_toml(&s("AQAAAAAAAAAAAAAAAAAAAA=="), PrimitiveType::EntityId),
        Ok(ScalarValue::EntityId(1))
    );
    assert_eq!(
        ScalarValue::from_toml(&s("AAAAAAAAAAAAAAAAAAAAAQ=="), PrimitiveType::EntityId),
        Ok(ScalarValue::EntityId(1u128 << 120))
    );
    assert_eq!(
        ScalarValue::from_toml(&s("AAAA"), PrimitiveType::EntityId),
        Err(ValueError::InvalidEntityIdLength)
    );
    assert_eq!(
        ScalarValue::from_toml(&s("!!"), PrimitiveType::EntityId),
        Err(ValueError::InvalidBase64)
    );
    assert_eq!(
        ScalarValue::from_toml(&TomlValue::Integer(1), PrimitiveType::EntityId),
        Err(ValueError::ExpectedString)
    );
}

fn items() -> ItemMap {
    ItemMap {
        types: vec![
            // 0: i32
            TypeInner::Primitive(PrimitiveType::I32),
            // 1: vec of i32, through 2
            TypeInner::Vec(2),
            TypeInner::Vec(0),
            // 3: option of i32, through 4
            TypeInner::Option(4),
            TypeInner::Option(0),
            // 5: an enum
            TypeInner::Enum(vec![
                ("Taken".to_string(), "The cell is taken".to_string()),
                ("Free".to_string(), "The cell is free".to_string()),
            ]),
            // 6: a vector whose element is not primitive
            TypeInner::Vec(7),
            TypeInner::Vec(5),
            // 8: a vector that points at a missing item
            TypeInner::Vec(99),
            // 9: a vector that points at an option
            TypeInner::Vec(3),
        ],
    }
}

#[test]
fn typed_values_convert_through_the_item_map() {
    let items = items();
    assert_eq!(
        Value::from_toml(&TomlValue::Integer(4), &items, 0),
        Ok(Value::Scalar(ScalarValue::I32(4)))
    );
    let arr = TomlValue::Array(vec![TomlValue::Integer(1), TomlValue::Integer(2)]);
    assert_eq!(
        Value::from_toml(&arr, &items, 1),
        Ok(Value::Vec(vec![ScalarValue::I32(1), ScalarValue::I32(2)]))
    );
    assert_eq!(
        Value::from_toml(&TomlValue::Array(vec![]), &items, 3),
        Ok(Value::Option(None))
    );
    assert_eq!(
        Value::from_toml(&TomlValue::Array(vec![TomlValue::Integer(9)]), &items, 3),
        Ok(Value::Option(Some(ScalarValue::I32(9))))
    );
    assert_eq!(Value::from_toml(&arr, &items, 3), Err(ValueError::OptionTooLong));
    assert_eq!(
        Value::from_toml(&s("Free"), &items, 5),
        Ok(Value::Enum(5, "Free".to_string()))
    );
}

#[test]
fn typed_value_errors() {
    let items = items();
    assert_eq!(
        Value::from_toml(&TomlValue::Integer(4), &items, 42),
        Err(ValueError::MissingItem)
    );
    assert_eq!(
        Value::from_toml(&s("Gone"), &items, 5),
        Err(ValueError::UnknownEnumVariant)
    );
    assert_eq!(
        Value::from_toml(&TomlValue::Integer(1), &items, 5),
        Err(ValueError::ExpectedEnumVariantString)
    );
    assert_eq!(
        Value::from_toml(&TomlValue::Integer(1), &items, 1),
        Err(ValueError::ExpectedArray)
    );
    assert_eq!(
        Value::from_toml(&TomlValue::Array(vec![]), &items, 6),
        Err(ValueError::ExpectedPrimitiveType)
    );
    assert_eq!(
        Value::from_toml(&TomlValue::Array(vec![]), &items, 8),
        Err(ValueError::MissingItem)
    );
    assert_eq!(
        Value::from_toml(&TomlValue::Array(vec![]), &items, 9),
        Err(ValueError::ExpectedVecType)
    );
    assert_eq!(
        Value::from_toml(&TomlValue::Array(vec![]), &items, 4),
        Err(ValueError::ExpectedOptionType)
    );
    let mixed = TomlValue::Array(vec![TomlValue::Integer(1), s("x")]);
    assert_eq!(
        Value::from_toml(&mixed, &items, 1),
        Err(ValueError::ExpectedInteger)
    );
}

#[test]
fn resolving_converts_once() {
    let items = items();
    let mut v = ResolvableValue::Unresolved(TomlValue::Integer(4));
    assert_eq!(v.as_resolved(), None);
    assert_eq!(v.resolve(&items, 0), Ok(()));
    assert_eq!(v.as_resolved(), Some(&Value::Scalar(ScalarValue::I32(4))));
    // Resolving again keeps the value, whatever the type asked for.
    assert_eq!(v.resolve(&items, 5), Ok(()));
    assert_eq!(v, ResolvableValue::Resolved(Value::Scalar(ScalarValue::I32(4))));
}

#[test]
fn failed_resolution_changes_nothing() {
    let items = items();
    let mut v = ResolvableValue::Unresolved(s("nope"));
    assert_eq!(v.resolve(&items, 0), Err(ValueError::ExpectedInteger));
    assert_eq!(v, ResolvableValue::Unresolved(s("nope")));
}

#[test]
fn values_display_like_their_debug_forms() {
    assert_eq!(Value::Scalar(ScalarValue::I8(-5)).display("T"), "-5");
    assert_eq!(Value::Scalar(ScalarValue::U64(1234567890)).display("T"), "1234567890");
    assert_eq!(Value::Scalar(ScalarValue::Bool(false)).display("T"), "false");
    assert_eq!(Value::Scalar(ScalarValue::Empty).display("T"), "()");
    assert_eq!(
        Value::Scalar(ScalarValue::String("a\"b".to_string())).display("T"),
        "\"a\\\"b\""
    );
    assert_eq!(
        Value::Scalar(ScalarValue::Uvec2(UVec2 { x: 1, y: 2 })).display("T"),
        format!("{:?}", glam::UVec2::new(1, 2))
    );
    assert_eq!(
        Value::Scalar(ScalarValue::Ivec3(IVec3 { x: -1, y: 0, z: 7 })).display("T"),
        format!("{:?}", glam::IVec3::new(-1, 0, 7))
    );
    assert_eq!(
        Value::Scalar(ScalarValue::EntityId(u128::MAX)).display("T"),
        u128::MAX.to_string()
    );
    assert_eq!(
        Value::Scalar(ScalarValue::I64(i64::MIN)).display("T"),
        i64::MIN.to_string()
    );
}

#[test]
fn containers_and_enums_display() {
    assert_eq!(
        Value::Vec(vec![ScalarValue::I32(1), ScalarValue::I32(2), ScalarValue::I32(3)]).display("T"),
        "[1, 2, 3]"
    );
    assert_eq!(Value::Vec(vec![]).display("T"), "[]");
    assert_eq!(Value::Option(Some(ScalarValue::U8(3))).display("T"), "Some(3)");
    assert_eq!(Value::Option(None).display("T"), "None");
    assert_eq!(
        Value::Enum(5, "Free".to_string()).display("CellState"),
        "CellState::Free"
    );
}

#[test]
fn vector_conversion_stops_at_the_first_failing_element() {
    let items = ItemMap {
        types: vec![
            TypeInner::Primitive(PrimitiveType::Uvec2),
            TypeInner::Vec(2),
            TypeInner::Vec(0),
        ],
    };
    let value = TomlValue::Array(vec![
        TomlValue::Boolean(true),
        TomlValue::Array(vec![
            TomlValue::Integer(1),
            TomlValue::Integer(2),
            TomlValue::Integer(3),
        ]),
    ]);
    assert_eq!(
        Value::from_toml(&value, &items, 1),
        Err(ValueError::ExpectedArray)
    );
    let mut r = ResolvableValue::Unresolved(value);
    assert_eq!(r.resolve(&items, 1), Err(ValueError::ExpectedArray));
    assert!(matches!(r, ResolvableValue::Unresolved(_)));
}
