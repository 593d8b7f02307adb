use sarif_codegen::mir::{
    ContractKind, EnumType, EnumVariantType, Function, Inst, LocalSlotId, MutableLocal, Param, Program, Span,
    StructField, StructType, ValueId,
};

#[test]
fn value_and_slot_ids_render_with_prefixes() {
    assert_eq!(ValueId(3).render(), "%3");
    assert_eq!(ValueId(0).render(), "%0");
    assert_eq!(LocalSlotId(12).render(), "slot12");
}

#[test]
fn contract_keywords() {
    assert_eq!(ContractKind::Requires.keyword(), "requires");
    assert_eq!(ContractKind::Ensures.keyword(), "ensures");
    assert_eq!(ContractKind::Bounds.keyword(), "bounds");
}

#[test]
fn instructions_print_as_one_line() {
    let floats: Vec<(u64, String)> = vec![(1.5f64.to_bits(), "1.5".to_string())];
    assert_eq!(Inst::ConstInt { dest: ValueId(1), value: -7 }.pretty(&floats), "%1 = int -7");
    assert_eq!(Inst::ConstBool { dest: ValueId(2), value: true }.pretty(&floats), "%2 = bool true");
    assert_eq!(
        Inst::ConstF64 { dest: ValueId(0), bits: 1.5f64.to_bits() }.pretty(&floats),
        "%0 = f64 1.5"
    );
    assert_eq!(
        Inst::ConstText { dest: ValueId(4), value: "a\"b".to_string() }.pretty(&floats),
        "%4 = text \"a\\\"b\""
    );
    assert_eq!(Inst::LoadParam { dest: ValueId(5), index: 2 }.pretty(&floats), "%5 = param 2");
    assert_eq!(
        Inst::StoreLocal { slot: LocalSlotId(1), src: ValueId(3) }.pretty(&floats),
        "store slot1, %3"
    );
    assert_eq!(
        Inst::TextConcat { dest: ValueId(6), left: ValueId(1), right: ValueId(2) }.pretty(&floats),
        "%6 = text-concat %1, %2"
    );
    assert_eq!(Inst::TextBuilderNew { dest: ValueId(7) }.pretty(&floats), "%7 = text-builder-new");
}

fn sample_program() -> Program {
    Program {
        enums: vec![EnumType {
            name: "Shape".to_string(),
            variants: vec![
                EnumVariantType { name: "Dot".to_string(), payload_type: None },
                EnumVariantType { name: "Circle".to_string(), payload_type: Some("F64".to_string()) },
            ],
        }],
        structs: vec![StructType {
            name: "Point".to_string(),
            fields: vec![
                StructField { name: "x".to_string(), ty: "I32".to_string() },
                StructField { name: "y".to_string(), ty: "I32".to_string() },
            ],
        }],
        functions: vec![Function {
            name: "main".to_string(),
            params: vec![Param { name: "n".to_string(), ty: "I32".to_string() }],
            return_type: Some("I32".to_string()),
            effects: vec![],
            mutable_locals: vec![MutableLocal {
                slot: LocalSlotId(0),
                name: "acc".to_string(),
                ty: "I32".to_string(),
                mutable: true,
            }],
            instructions: vec![
                Inst::LoadParam { dest: ValueId(0), index: 0 },
                Inst::StoreLocal { slot: LocalSlotId(0), src: ValueId(0) },
            ],
            result: Some(ValueId(0)),
            span: Span { start: 0, end: 1 },
            value_count: 1,
            slot_count: 1,
        }],
        externs: vec![],
    }
}

#[test]
fn program_dump_lists_types_then_functions() {
    let text = sample_program().pretty(&[]);
    assert_eq!(
        text,
        "MIR\n  enum Shape { Dot, Circle(F64) }\n  struct Point { x: I32, y: I32 }\n  fn main(n: I32) -> I32\n    mut slot0 acc: I32\n    %0 = param 0\n    store slot0, %0\n    return %0\n"
    );
}
