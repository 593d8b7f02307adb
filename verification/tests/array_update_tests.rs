use sarif_codegen::values::{update_runtime_array_index, RuntimeRecord, RuntimeValue};

fn array_of(values: &[i64]) -> RuntimeValue {
    RuntimeValue::Record(RuntimeRecord {
        name: format!("__Array_I32_{}", values.len()),
        fields: values
            .iter()
            .enumerate()
            .map(|(i, v)| (format!("slot{i}"), RuntimeValue::Int(*v)))
            .collect(),
    })
}

fn ints(value: &RuntimeValue) -> Vec<(String, i64)> {
    match value {
        RuntimeValue::Record(r) => r
            .fields
            .iter()
            .map(|(n, v)| match v {
                RuntimeValue::Int(i) => (n.clone(), *i),
                _ => panic!("not an int"),
            })
            .collect(),
        _ => panic!("not a record"),
    }
}

fn error_of(r: Result<RuntimeValue, String>) -> String {
    match r {
        Err(e) => e,
        Ok(_) => panic!("expected an error"),
    }
}

#[test]
fn array_element_is_replaced() {
    let updated = update_runtime_array_index(array_of(&[1, 2, 3]), 1, RuntimeValue::Int(9)).unwrap();
    assert_eq!(
        ints(&updated),
        vec![("slot0".to_string(), 1), ("slot1".to_string(), 9), ("slot2".to_string(), 3)]
    );
    match updated {
        RuntimeValue::Record(r) => assert_eq!(r.name, "__Array_I32_3"),
        _ => panic!("not a record"),
    }
}

#[test]
fn array_index_outside_is_an_error() {
    assert_eq!(
        error_of(update_runtime_array_index(array_of(&[1, 2]), 2, RuntimeValue::Int(0))),
        "compile-time array index is out of bounds"
    );
    assert_eq!(
        error_of(update_runtime_array_index(array_of(&[1, 2]), -1, RuntimeValue::Int(0))),
        "compile-time array index is out of bounds"
    );
}

#[test]
fn only_arrays_can_be_indexed() {
    assert_eq!(
        error_of(update_runtime_array_index(RuntimeValue::Int(3), 0, RuntimeValue::Int(0))),
        "compile-time indexed assignment target is not an array"
    );
    let point = RuntimeValue::Record(RuntimeRecord {
        name: "Point".to_string(),
        fields: vec![("slot0".to_string(), RuntimeValue::Int(1))],
    });
    assert_eq!(
        error_of(update_runtime_array_index(point, 0, RuntimeValue::Int(0))),
        "compile-time indexed assignment target is not an array"
    );
}
