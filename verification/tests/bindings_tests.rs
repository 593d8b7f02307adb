use sarif_codegen::bindings::{body_result, call_arguments, copies, finish_branch, load_local, store_local, Bindings};
use sarif_codegen::interp::copy_value;
use sarif_codegen::mir::{LocalSlotId, ValueId};
use sarif_codegen::values::{RuntimeEnum, RuntimeError, RuntimeRecord, RuntimeValue};

fn record() -> RuntimeValue {
    RuntimeValue::Record(RuntimeRecord {
        name: "P".to_string(),
        fields: vec![
            ("x".to_string(), RuntimeValue::Int(1)),
            (
                "c".to_string(),
                RuntimeValue::Enum(RuntimeEnum {
                    name: "C".to_string(),
                    variant: "Red".to_string(),
                    payload: Some(Box::new(RuntimeValue::Text("hi".to_string()))),
                }),
            ),
        ],
    })
}

#[test]
fn copies_keep_every_field_and_payload() {
    let v = record();
    assert_eq!(format!("{:?}", copy_value(&v)), format!("{:?}", v));
}

#[test]
fn later_bindings_replace_earlier_ones() {
    let mut b = Bindings::<ValueId>::new();
    b.insert(ValueId(1), RuntimeValue::Int(1));
    b.insert(ValueId(2), RuntimeValue::Bool(true));
    b.insert(ValueId(1), RuntimeValue::Int(5));
    assert!(matches!(b.get(&ValueId(1)), Some(RuntimeValue::Int(5))));
    assert!(b.get(&ValueId(3)).is_none());
    let c = b.copy();
    assert!(matches!(c.get(&ValueId(2)), Some(RuntimeValue::Bool(true))));
    assert!(matches!(c.take(&ValueId(1)), Some(RuntimeValue::Int(5))));
}

#[test]
fn a_branch_hands_back_its_locals_and_result() {
    let mut values = Bindings::<ValueId>::new();
    let mut slots = Bindings::<LocalSlotId>::new();
    slots.insert(LocalSlotId(0), RuntimeValue::Int(1));
    let mut branch_values = values.copy();
    let mut branch_slots = slots.copy();
    branch_values.insert(ValueId(4), RuntimeValue::Int(42));
    branch_slots.insert(LocalSlotId(0), RuntimeValue::Int(2));
    assert!(finish_branch(&mut values, &mut slots, branch_values, branch_slots, Some(ValueId(4)), ValueId(9), "f").is_ok());
    assert!(matches!(values.get(&ValueId(9)), Some(RuntimeValue::Int(42))));
    assert!(matches!(slots.get(&LocalSlotId(0)), Some(RuntimeValue::Int(2))));
    let r = finish_branch(&mut values, &mut slots, Bindings::new(), Bindings::new(), Some(ValueId(7)), ValueId(10), "f");
    match r {
        Err(RuntimeError::Message(m)) => assert_eq!(m, "missing conditional branch result in `f` for %7"),
        _ => panic!("expected an error"),
    }
    assert!(finish_branch(&mut values, &mut slots, Bindings::new(), Bindings::new(), None, ValueId(11), "f").is_ok());
    assert!(matches!(values.get(&ValueId(11)), Some(RuntimeValue::Unit)));
}

#[test]
fn locals_and_call_arguments_are_copied_from_bindings() {
    let mut values = Bindings::<ValueId>::new();
    let mut slots = Bindings::<LocalSlotId>::new();
    values.insert(ValueId(1), record());
    assert!(store_local(&mut slots, &values, LocalSlotId(3), ValueId(1)).is_ok());
    assert!(load_local(&mut values, &slots, ValueId(2), LocalSlotId(3), "f").is_ok());
    assert_eq!(format!("{:?}", values.get(&ValueId(2))), format!("{:?}", Some(&record())));
    match load_local(&mut values, &slots, ValueId(4), LocalSlotId(9), "f") {
        Err(RuntimeError::Message(m)) => assert_eq!(m, "mutable local slot9 is unavailable in `f`"),
        _ => panic!("expected an error"),
    }
    match store_local(&mut slots, &values, LocalSlotId(0), ValueId(8)) {
        Err(RuntimeError::Message(m)) => assert_eq!(m, "unknown value %8"),
        _ => panic!("expected an error"),
    }
    let args = call_arguments(&values, &[ValueId(2), ValueId(1)]).unwrap();
    assert_eq!(args.len(), 2);
    match call_arguments(&values, &[ValueId(1), ValueId(6), ValueId(7)]) {
        Err(RuntimeError::Message(m)) => assert_eq!(m, "unknown value %6"),
        _ => panic!("expected an error"),
    }
    assert!(matches!(body_result(Bindings::new(), None, "missing"), Ok(RuntimeValue::Unit)));
    match body_result(Bindings::new(), Some(ValueId(1)), "missing handle body result") {
        Err(RuntimeError::Message(m)) => assert_eq!(m, "missing handle body result"),
        _ => panic!("expected an error"),
    }
}

#[test]
fn new_list_items_are_copies() {
    let items = copies(&record(), 3);
    assert_eq!(items.len(), 3);
    for item in &items {
        assert_eq!(format!("{item:?}"), format!("{:?}", record()));
    }
    assert!(copies(&RuntimeValue::Int(1), 0).is_empty());
}
