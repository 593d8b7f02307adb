use sarif_codegen::lower_type::{array_field_name, array_struct_name, lower_type_name, parse_array_lower_type, LowerType};
use sarif_codegen::mir::{EnumType, EnumVariantType, Program, StructField, StructType};
use sarif_codegen::values::{
    decode_enum_tag, encode_enum_tag, ensure_type, enum_tag, enum_variants, render_runtime_record,
    runtime_value_lower_type, split_enum_variant_path, synthetic_array_record_info, RuntimeEnum, RuntimeError,
    RuntimeRecord, RuntimeValue,
};

fn program() -> Program {
    Program {
        enums: vec![EnumType {
            name: "Color".to_string(),
            variants: vec![
                EnumVariantType { name: "Red".to_string(), payload_type: None },
                EnumVariantType { name: "Custom".to_string(), payload_type: Some("I32".to_string()) },
            ],
        }],
        structs: vec![StructType {
            name: "Point".to_string(),
            fields: vec![
                StructField { name: "x".to_string(), ty: "I32".to_string() },
                StructField { name: "y".to_string(), ty: "I32".to_string() },
            ],
        }],
        functions: vec![],
        externs: vec![],
    }
}

fn message(e: RuntimeError) -> String {
    match e {
        RuntimeError::Message(m) => m,
        RuntimeError::EffectUnwind { effect, .. } => effect,
    }
}

fn array_record() -> RuntimeRecord {
    RuntimeRecord {
        name: "__Array_I32_2".to_string(),
        fields: vec![
            ("slot0".to_string(), RuntimeValue::Int(4)),
            ("slot1".to_string(), RuntimeValue::Int(5)),
        ],
    }
}

#[test]
fn lower_type_names() {
    assert_eq!(array_struct_name("List[I32]", 3), "__Array_List_I32__3");
    assert_eq!(array_field_name(7), "slot7");
    let t = LowerType::from_type_name("[List[I32]; 4]", &[]);
    assert_eq!(lower_type_name(&t), Some("__Array_List_I32__4".to_string()));
    assert!(matches!(t, LowerType::Array(_, 4)));
    assert_eq!(LowerType::from_type_name("List[Text]", &[]).source_name(), Some("List[Text]".to_string()));
    assert_eq!(LowerType::from_type_name("Error", &[]).source_name(), Some("Error".to_string()));
    assert_eq!(LowerType::Error.source_name(), None);
}

#[test]
fn array_type_names_take_numbers_or_substitutions() {
    let subs = vec![("N".to_string(), 8usize)];
    assert!(matches!(parse_array_lower_type("[I32; N]", &subs), Some(LowerType::Array(_, 8))));
    assert!(matches!(parse_array_lower_type("[ [I32; 2] ; +3 ]", &subs), Some(LowerType::Array(_, 3))));
    assert!(parse_array_lower_type("[I32; M]", &subs).is_none());
    assert!(parse_array_lower_type("[I32]", &subs).is_none());
    assert!(parse_array_lower_type("I32", &subs).is_none());
    assert!(matches!(LowerType::from_type_name("[I32; M]", &subs), LowerType::Named(_)));
}

#[test]
fn array_records_are_recognised() {
    let r = array_record();
    assert!(matches!(synthetic_array_record_info(&r), Some((LowerType::I32, 2))));
    assert!(matches!(runtime_value_lower_type(&RuntimeValue::Record(r)), LowerType::Array(_, 2)));
    let mixed = RuntimeRecord {
        name: "__Array_X_2".to_string(),
        fields: vec![("slot0".to_string(), RuntimeValue::Int(1)), ("slot1".to_string(), RuntimeValue::Bool(true))],
    };
    assert!(synthetic_array_record_info(&mixed).is_none());
}

#[test]
fn values_render_as_text() {
    let floats = vec![(2.5f64.to_bits(), "2.5".to_string())];
    assert_eq!(render_runtime_record(&array_record(), &floats), "[4, 5]");
    let point = RuntimeRecord {
        name: "Point".to_string(),
        fields: vec![("x".to_string(), RuntimeValue::Int(-1)), ("y".to_string(), RuntimeValue::F64(2.5f64.to_bits()))],
    };
    assert_eq!(render_runtime_record(&point, &floats), "Point{x: -1, y: 2.5}");
    let e = RuntimeValue::Enum(RuntimeEnum {
        name: "Color".to_string(),
        variant: "Custom".to_string(),
        payload: Some(Box::new(RuntimeValue::Bool(false))),
    });
    assert_eq!(e.render(&floats), "Color.Custom(false)");
    assert_eq!(RuntimeValue::Unit.render(&floats), "unit");
    assert_eq!(RuntimeValue::List(3).render(&floats), "<list>");
    assert_eq!(RuntimeValue::Text("hi".to_string()).render(&floats), "hi");
}

#[test]
fn enum_tags_round_trip() {
    let table = enum_variants(&program());
    assert_eq!(table, vec![("Color".to_string(), vec!["Red".to_string(), "Custom".to_string()])]);
    let custom = RuntimeEnum { name: "Color".to_string(), variant: "Custom".to_string(), payload: None };
    assert_eq!(encode_enum_tag(&custom, &table), Ok(1));
    let unknown = RuntimeEnum { name: "Shade".to_string(), variant: "Red".to_string(), payload: None };
    assert_eq!(encode_enum_tag(&unknown, &table), Err("unknown enum type `Shade`".to_string()));
    let missing = RuntimeEnum { name: "Color".to_string(), variant: "Blue".to_string(), payload: None };
    assert_eq!(encode_enum_tag(&missing, &table), Err("enum `Color` has no variant `Blue`".to_string()));
    match decode_enum_tag(1, "Color", &table) {
        Ok(RuntimeValue::Enum(e)) => {
            assert_eq!(e.variant, "Custom");
            assert!(e.payload.is_none());
        }
        other => panic!("unexpected {other:?}"),
    }
    assert_eq!(decode_enum_tag(2, "Color", &table).map(|_| ()), Err("enum `Color` tag `2` is out of range".to_string()));
    assert_eq!(decode_enum_tag(-1, "Color", &table).map(|_| ()), Err("enum `Color` tag `-1` is out of range".to_string()));
    let p = program();
    assert_eq!(enum_tag(&p, &custom).map_err(message), Ok(1));
}

#[test]
fn enum_variant_paths_split_at_the_last_dot() {
    assert_eq!(split_enum_variant_path("a.b.C"), Some(("a.b".to_string(), "C".to_string())));
    assert_eq!(split_enum_variant_path("Color."), None);
    assert_eq!(split_enum_variant_path(".Red"), None);
    assert_eq!(split_enum_variant_path("Red"), None);
}

#[test]
fn values_are_checked_against_types() {
    let p = program();
    assert!(ensure_type(&p, "I32", &RuntimeValue::Int(1), &[]).is_ok());
    assert_eq!(
        ensure_type(&p, "Bool", &RuntimeValue::Int(1), &[]).map_err(message),
        Err("expected `Bool`, found 1".to_string())
    );
    let ok_point = RuntimeValue::Record(RuntimeRecord {
        name: "Point".to_string(),
        fields: vec![("x".to_string(), RuntimeValue::Int(1)), ("y".to_string(), RuntimeValue::Int(2))],
    });
    assert!(ensure_type(&p, "Point", &ok_point, &[]).is_ok());
    let swapped = RuntimeValue::Record(RuntimeRecord {
        name: "Point".to_string(),
        fields: vec![("y".to_string(), RuntimeValue::Int(1)), ("x".to_string(), RuntimeValue::Int(2))],
    });
    assert_eq!(
        ensure_type(&p, "Point", &swapped, &[]).map_err(message),
        Err("record `Point` field order mismatch: expected `x`, found `y`".to_string())
    );
    let bare = RuntimeValue::Enum(RuntimeEnum { name: "Color".to_string(), variant: "Custom".to_string(), payload: None });
    assert_eq!(
        ensure_type(&p, "Color", &bare, &[]).map_err(message),
        Err("enum variant `Color.Custom`\n                             requires a payload".to_string())
    );
    let bad_payload = RuntimeValue::Enum(RuntimeEnum {
        name: "Color".to_string(),
        variant: "Custom".to_string(),
        payload: Some(Box::new(RuntimeValue::Text("x".to_string()))),
    });
    assert_eq!(
        ensure_type(&p, "Color", &bad_payload, &[]).map_err(message),
        Err("expected `I32`, found x".to_string())
    );
}

#[test]
fn array_types_allow_unicode_white_space() {
    let subs: Vec<(String, usize)> = Vec::new();
    assert!(matches!(parse_array_lower_type("[I32;\u{3000}4\u{a0}]", &subs), Some(LowerType::Array(_, 4))));
}
