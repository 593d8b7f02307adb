use sarif_codegen::escape::{analyze_escapes, type_can_hold_arena_memory};
use sarif_codegen::mir::{Function, Inst, Param, Program, Span, ValueId};

fn function(name: &str, params: &[(&str, &str)], ret: &str, effects: &[&str], insts: Vec<Inst>, result: Option<u32>, values: u32) -> Function {
    Function {
        name: name.to_string(),
        params: params
            .iter()
            .map(|(n, t)| Param { name: n.to_string(), ty: t.to_string() })
            .collect(),
        return_type: Some(ret.to_string()),
        effects: effects.iter().map(|e| e.to_string()).collect(),
        mutable_locals: Vec::new(),
        instructions: insts,
        result: result.map(ValueId),
        span: Span { start: 0, end: 10 },
        value_count: values,
        slot_count: 0,
    }
}

fn program(functions: Vec<Function>) -> Program {
    Program { enums: Vec::new(), structs: Vec::new(), functions, externs: Vec::new() }
}

#[test]
fn type_list_text_is_arena_holding() {
    assert!(type_can_hold_arena_memory("List[Text]"), "List[Text] holds arena memory");
    assert!(type_can_hold_arena_memory("List[I32]"), "List[I32] holds arena memory via List");
    assert!(type_can_hold_arena_memory("Bytes"), "Bytes holds arena memory");
    assert!(!type_can_hold_arena_memory("I32"), "I32 does not hold arena memory");
    assert!(!type_can_hold_arena_memory("F64"), "F64 does not hold arena memory");
    assert!(!type_can_hold_arena_memory("Bool"), "Bool does not hold arena memory");
}

#[test]
fn arena_types_by_name() {
    assert!(type_can_hold_arena_memory("[I32; 4]"));
    assert!(type_can_hold_arena_memory("TextBuilder"));
    assert!(!type_can_hold_arena_memory("Unit"));
}

fn arg_text_main(effects: &[&str]) -> Function {
    function(
        "main",
        &[],
        "Text",
        effects,
        vec![
            Inst::ConstInt { dest: ValueId(0), value: 0 },
            Inst::ArgText { dest: ValueId(1), index: ValueId(0) },
        ],
        Some(1),
        2,
    )
}

#[test]
fn no_alloc_effect_no_diagnostic() {
    let diags = analyze_escapes(&program(vec![arg_text_main(&[])]));
    assert!(diags.is_empty());
}

#[test]
fn text_created_inside_triggers_diagnostic() {
    let diags = analyze_escapes(&program(vec![arg_text_main(&["alloc"])]));
    assert_eq!(diags.len(), 1);
    assert_eq!(diags[0].code, "escape.analysis.required");
    assert_eq!(diags[0].span, Span { start: 0, end: 10 });
    assert_eq!(
        diags[0].message,
        "function `main` with `alloc` effect returns `Text` that may reference arena memory"
    );
    assert!(diags[0].help.is_some());
}

#[test]
fn i32_return_no_diagnostic() {
    let main = function(
        "main",
        &[],
        "I32",
        &["alloc"],
        vec![Inst::ConstInt { dest: ValueId(0), value: 42 }],
        Some(0),
        1,
    );
    assert!(analyze_escapes(&program(vec![main])).is_empty());
}

#[test]
fn param_passthrough_no_diagnostic() {
    let identity = function(
        "identity",
        &[("s", "Text")],
        "Text",
        &["alloc"],
        vec![Inst::LoadParam { dest: ValueId(0), index: 0 }],
        Some(0),
        1,
    );
    let main = function("main", &[], "I32", &[], vec![Inst::ConstInt { dest: ValueId(0), value: 0 }], Some(0), 1);
    assert!(analyze_escapes(&program(vec![identity, main])).is_empty());
}

#[test]
fn text_through_if_triggers_diagnostic() {
    let choose = function(
        "choose",
        &[("c", "Bool")],
        "Text",
        &["alloc"],
        vec![
            Inst::LoadParam { dest: ValueId(0), index: 0 },
            Inst::If {
                dest: ValueId(1),
                condition: ValueId(0),
                then_insts: vec![
                    Inst::ConstInt { dest: ValueId(2), value: 0 },
                    Inst::ArgText { dest: ValueId(3), index: ValueId(2) },
                ],
                then_result: Some(ValueId(3)),
                else_insts: vec![
                    Inst::ConstInt { dest: ValueId(4), value: 1 },
                    Inst::ArgText { dest: ValueId(5), index: ValueId(4) },
                ],
                else_result: Some(ValueId(5)),
            },
        ],
        Some(1),
        6,
    );
    let main = function(
        "main",
        &[],
        "Text",
        &["alloc"],
        vec![
            Inst::ConstBool { dest: ValueId(0), value: true },
            Inst::Call { dest: ValueId(1), callee: "choose".to_string(), args: vec![ValueId(0)] },
        ],
        Some(1),
        2,
    );
    let diags = analyze_escapes(&program(vec![choose, main]));
    assert_eq!(diags.len(), 2);
}

#[test]
fn non_alloc_callee_no_false_positive() {
    let helper = function("helper", &[], "I32", &[], vec![Inst::ConstInt { dest: ValueId(0), value: 42 }], Some(0), 1);
    let main = function(
        "main",
        &[],
        "I32",
        &["alloc"],
        vec![Inst::Call { dest: ValueId(0), callee: "helper".to_string(), args: vec![] }],
        Some(0),
        1,
    );
    assert!(analyze_escapes(&program(vec![helper, main])).is_empty());
}

#[test]
fn alloc_callee_triggers_on_caller() {
    let inner = arg_text_main(&["alloc"]);
    let inner = Function { name: "inner".to_string(), ..inner };
    let outer = function(
        "outer",
        &[],
        "Text",
        &["alloc"],
        vec![Inst::Call { dest: ValueId(0), callee: "inner".to_string(), args: vec![] }],
        Some(0),
        1,
    );
    let main = function(
        "main",
        &[],
        "Text",
        &["alloc"],
        vec![Inst::Call { dest: ValueId(0), callee: "outer".to_string(), args: vec![] }],
        Some(0),
        1,
    );
    let diags = analyze_escapes(&program(vec![inner, outer, main]));
    assert_eq!(diags.len(), 3);
    assert!(diags.iter().all(|d| d.code == "escape.analysis.required"));
}

#[test]
fn alloc_text_ret_list_triggers_diagnostic() {
    let take = function(
        "take",
        &[("s", "Text")],
        "Text",
        &["alloc"],
        vec![Inst::LoadParam { dest: ValueId(0), index: 0 }],
        Some(0),
        1,
    );
    let main = function(
        "main",
        &[],
        "Text",
        &["alloc"],
        vec![
            Inst::ConstInt { dest: ValueId(0), value: 0 },
            Inst::ArgText { dest: ValueId(1), index: ValueId(0) },
            Inst::Call { dest: ValueId(2), callee: "take".to_string(), args: vec![ValueId(1)] },
        ],
        Some(2),
        3,
    );
    let diags = analyze_escapes(&program(vec![take, main]));
    assert_eq!(diags.len(), 1);
    assert_eq!(diags[0].code, "escape.analysis.required");
}
