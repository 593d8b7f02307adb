use sarif_codegen::analysis::{collect_f64_constants, count_instructions, for_each_inst_recursive, inst_dest, insts_fall_through};
use sarif_codegen::mir::{Function, Inst, LocalSlotId, Program, Span, ValueId};
use sarif_codegen::text_data::{collect_inst_text_data, collect_text_data_strings};
use sarif_codegen::trusted::{
    collect_defined_values, collect_trusted_repeat_list_accesses, ValueSet,
};

fn text(dest: u32, value: &str) -> Inst {
    Inst::ConstText { dest: ValueId(dest), value: value.to_string() }
}

fn nested() -> Vec<Inst> {
    vec![
        text(0, "a"),
        Inst::If {
            dest: ValueId(1),
            condition: ValueId(0),
            then_insts: vec![text(2, "b"), text(3, "a")],
            then_result: Some(ValueId(2)),
            else_insts: vec![Inst::While {
                dest: ValueId(4),
                condition_insts: vec![text(5, "c")],
                condition: ValueId(5),
                body_insts: vec![Inst::Repeat {
                    dest: ValueId(6),
                    count: ValueId(0),
                    index_slot: None,
                    body_insts: vec![text(9, "d")],
                }],
            }],
            else_result: None,
        },
        Inst::StdoutWrite { text: ValueId(0) },
    ]
}

fn function(insts: Vec<Inst>) -> Function {
    Function {
        name: "f".to_string(),
        params: vec![],
        return_type: None,
        effects: vec![],
        mutable_locals: vec![],
        instructions: insts,
        result: None,
        span: Span { start: 0, end: 0 },
        value_count: 10,
        slot_count: 0,
    }
}

#[test]
fn instruction_destinations() {
    assert_eq!(inst_dest(&text(4, "x")), Some(ValueId(4)));
    assert_eq!(inst_dest(&Inst::StdoutWrite { text: ValueId(1) }), None);
    assert_eq!(inst_dest(&Inst::AllocPush), None);
}

#[test]
fn value_count_covers_nested_values() {
    assert_eq!(count_instructions(&function(nested())), 10);
    assert_eq!(count_instructions(&function(vec![])), 0);
}

#[test]
fn instruction_sequences_fall_through() {
    assert!(insts_fall_through(&nested()));
    assert!(insts_fall_through(&[]));
}

#[test]
fn pre_order_walk_skips_handle_bodies() {
    let mut seen = 0usize;
    let mut count = |_: &Inst| seen += 1;
    for_each_inst_recursive(&nested(), &mut count);
    assert_eq!(seen, 9);
}

#[test]
fn text_constants_are_collected_once_in_order() {
    let mut table = vec!["z".to_string()];
    collect_inst_text_data(&nested(), &mut table);
    assert_eq!(table, vec!["z", "a", "b", "c", "d"]);
    let program = Program {
        enums: vec![],
        structs: vec![],
        functions: vec![function(vec![text(0, "q")]), function(nested())],
        externs: vec![],
    };
    assert_eq!(collect_text_data_strings(&program), vec!["q", "a", "b", "c", "d"]);
}

#[test]
fn defined_values_include_nested_blocks() {
    let mut set = ValueSet::new();
    collect_defined_values(&nested(), &mut set);
    for id in [0, 1, 2, 3, 4, 5, 6, 9] {
        assert!(set.contains(ValueId(id)), "value {id}");
    }
    assert!(!set.contains(ValueId(7)));
}

#[test]
fn loop_counter_list_accesses_are_trusted() {
    let slot = LocalSlotId(0);
    let body = vec![
        Inst::LoadLocal { dest: ValueId(10), slot },
        Inst::ListGet { dest: ValueId(11), list: ValueId(1), index: ValueId(10) },
        Inst::ListNew { dest: ValueId(12), len: ValueId(10), value: ValueId(10) },
        Inst::ListSet { dest: ValueId(13), list: ValueId(12), index: ValueId(10), value: ValueId(11) },
        Inst::If {
            dest: ValueId(14),
            condition: ValueId(11),
            then_insts: vec![Inst::ListGet { dest: ValueId(15), list: ValueId(2), index: ValueId(10) }],
            then_result: None,
            else_insts: vec![Inst::ListGet { dest: ValueId(16), list: ValueId(3), index: ValueId(11) }],
            else_result: None,
        },
    ];
    let trusted = collect_trusted_repeat_list_accesses(&body, slot);
    assert!(trusted.contains(ValueId(1), ValueId(10)));
    assert!(trusted.contains(ValueId(2), ValueId(10)));
    assert!(!trusted.contains(ValueId(12), ValueId(10)));
    assert!(!trusted.contains(ValueId(3), ValueId(11)));
    let lists = trusted.unique_vecs();
    assert!(lists.contains(ValueId(1)) && lists.contains(ValueId(2)));
    assert_eq!(lists.ids, vec![ValueId(1), ValueId(2)]);
    assert!(!lists.contains(ValueId(3)));
}

#[test]
fn float_constants_are_collected_once_in_order() {
    let f = |dest: u32, bits: u64| Inst::ConstF64 { dest: ValueId(dest), bits };
    let insts = vec![
        f(0, 7),
        Inst::If {
            dest: ValueId(1),
            condition: ValueId(0),
            then_insts: vec![f(2, 3), f(3, 7)],
            then_result: None,
            else_insts: vec![Inst::Repeat { dest: ValueId(4), count: ValueId(0), index_slot: None, body_insts: vec![f(5, 9)] }],
            else_result: None,
        },
    ];
    let mut bits = vec![1u64];
    collect_f64_constants(&insts, &mut bits);
    assert_eq!(bits, vec![1, 7, 3, 9]);
}

#[test]
fn value_sets_keep_ascending_order() {
    let mut set = ValueSet::new();
    for id in [5, 1, 9, 1, 3] {
        set.insert(ValueId(id));
    }
    assert_eq!(set.ids, vec![ValueId(1), ValueId(3), ValueId(5), ValueId(9)]);
}
