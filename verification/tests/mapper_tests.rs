use mooncake::mapper::{
    lake_type_eq, map_columns, map_type, ColumnSpec, LakeType, DECIMAL_PRECISION, DECIMAL_SCALE,
};

fn map(name: &str) -> LakeType {
    map_type(name.as_bytes())
}

#[test]
fn maps_fixed_width_integers() {
    assert!(matches!(map("smallint"), LakeType::Short));
    assert!(matches!(map("integer"), LakeType::Integer));
    assert!(matches!(map("bigint"), LakeType::Long));
}

#[test]
fn maps_floating_types() {
    assert!(matches!(map("real"), LakeType::Float));
    assert!(matches!(map("double precision"), LakeType::Double));
}

#[test]
fn maps_boolean_text_date_binary() {
    assert!(matches!(map("boolean"), LakeType::Boolean));
    assert!(matches!(map("character varying"), LakeType::Text));
    assert!(matches!(map("text"), LakeType::Text));
    assert!(matches!(map("date"), LakeType::Date));
    assert!(matches!(map("bytea"), LakeType::Binary));
}

#[test]
fn maps_timestamps_by_time_zone() {
    assert!(matches!(map("timestamp without time zone"), LakeType::TimestampNtz));
    assert!(matches!(map("timestamp with time zone"), LakeType::Timestamp));
    assert!(matches!(map("time without time zone"), LakeType::Text));
    assert!(matches!(map("time with time zone"), LakeType::Text));
}

#[test]
fn numeric_always_maps_to_default_decimal() {
    for name in ["numeric", "decimal"] {
        match map(name) {
            LakeType::Decimal { precision, scale } => {
                assert_eq!(precision, 38);
                assert_eq!(scale, 10);
                assert_eq!(precision, DECIMAL_PRECISION);
                assert_eq!(scale, DECIMAL_SCALE);
            }
            other => panic!("expected decimal, got {:?}", other),
        }
    }
}

#[test]
fn unknown_type_maps_to_text() {
    assert!(matches!(map("unknown_type"), LakeType::Text));
    assert!(matches!(map("uuid"), LakeType::Text));
    assert!(matches!(map(""), LakeType::Text));
}

#[test]
fn array_suffix_maps_to_array_of_base() {
    let direct = map("integer[]");
    match &direct {
        LakeType::Array(inner) => assert!(matches!(**inner, LakeType::Integer)),
        other => panic!("expected array, got {:?}", other),
    }
    let composed = LakeType::Array(Box::new(map("integer")));
    assert!(lake_type_eq(&direct, &composed));
}

#[test]
fn nested_array_suffix_recurses() {
    let t = map("text[][]");
    let expected = LakeType::Array(Box::new(LakeType::Array(Box::new(LakeType::Text))));
    assert!(lake_type_eq(&t, &expected));
}

#[test]
fn array_of_unknown_base_is_array_of_text() {
    let t = map("exotic[]");
    let expected = LakeType::Array(Box::new(LakeType::Text));
    assert!(lake_type_eq(&t, &expected));
}

#[test]
fn lake_type_eq_distinguishes_types() {
    assert!(!lake_type_eq(&map("integer"), &map("bigint")));
    assert!(!lake_type_eq(&map("integer[]"), &map("integer")));
    assert!(!lake_type_eq(
        &LakeType::Decimal { precision: 38, scale: 10 },
        &LakeType::Decimal { precision: 38, scale: 9 },
    ));
}

#[test]
fn map_columns_preserves_order_and_marks_nullable() {
    let cols = vec![
        ColumnSpec { name: b("id"), relational_type: b("integer") },
        ColumnSpec { name: b("label"), relational_type: b("text") },
        ColumnSpec { name: b("score"), relational_type: b("numeric") },
    ];
    let mapped = map_columns(&cols);
    assert_eq!(mapped.len(), 3);
    assert_eq!(mapped[0].name, b("id"));
    assert!(matches!(mapped[0].lake_type, LakeType::Integer));
    assert!(mapped[0].nullable);
    assert_eq!(mapped[1].name, b("label"));
    assert!(matches!(mapped[1].lake_type, LakeType::Text));
    assert!(mapped[1].nullable);
    assert_eq!(mapped[2].name, b("score"));
    assert!(matches!(mapped[2].lake_type, LakeType::Decimal { precision: 38, scale: 10 }));
    assert!(mapped[2].nullable);
}

fn b(s: &str) -> Vec<u8> {
    s.as_bytes().to_vec()
}
