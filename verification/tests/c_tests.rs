use sarif_codegen::c::{
    enum_variant_tag, func_type_name, infer_value_kinds_for_func, record_field_offset, safe_local_name, str_to_kind,
    vref, Output,
};
use sarif_codegen::c_emit::{emit_c, emit_function, emit_instructions};
use sarif_codegen::kinds::KindMap;
use sarif_codegen::mir::{
    CodegenValueKind, EnumType, EnumVariantType, Function, Inst, Param, Program, Span, StructField, StructType,
    ValueId,
};

fn function(name: &str, params: &[&str], ret: Option<&str>, insts: Vec<Inst>, result: Option<u32>) -> Function {
    Function {
        name: name.to_string(),
        params: params.iter().enumerate().map(|(i, t)| Param { name: format!("a{i}"), ty: t.to_string() }).collect(),
        return_type: ret.map(|r| r.to_string()),
        effects: vec![],
        mutable_locals: vec![],
        instructions: insts,
        result: result.map(ValueId),
        span: Span { start: 0, end: 0 },
        value_count: 8,
        slot_count: 0,
    }
}

fn add_function() -> Function {
    function(
        "add",
        &["I32", "I32"],
        Some("I32"),
        vec![
            Inst::LoadParam { dest: ValueId(0), index: 0 },
            Inst::LoadParam { dest: ValueId(1), index: 1 },
            Inst::Add { dest: ValueId(2), left: ValueId(0), right: ValueId(1) },
        ],
        Some(2),
    )
}

fn main_function() -> Function {
    function(
        "main",
        &[],
        Some("I32"),
        vec![
            Inst::ConstInt { dest: ValueId(0), value: 1 },
            Inst::ConstInt { dest: ValueId(1), value: 2 },
            Inst::Call { dest: ValueId(2), callee: "add".to_string(), args: vec![ValueId(0), ValueId(1)] },
        ],
        Some(2),
    )
}

fn program() -> Program {
    Program {
        enums: vec![EnumType {
            name: "Color".to_string(),
            variants: vec![
                EnumVariantType { name: "Red".to_string(), payload_type: None },
                EnumVariantType { name: "Green".to_string(), payload_type: None },
            ],
        }],
        structs: vec![StructType {
            name: "Pair".to_string(),
            fields: vec![
                StructField { name: "a".to_string(), ty: "I32".to_string() },
                StructField { name: "b".to_string(), ty: "F64".to_string() },
            ],
        }],
        functions: vec![add_function(), main_function()],
        externs: vec![],
    }
}

#[test]
fn c_type_names() {
    assert_eq!(func_type_name(Some("F64")), "double");
    assert_eq!(func_type_name(Some("Unit")), "void");
    assert_eq!(func_type_name(None), "void");
    assert_eq!(func_type_name(Some("Text")), "uint64_t");
    assert_eq!(vref(&ValueId(42)), "v42");
    assert_eq!(safe_local_name("List[I32]"), "List_I32_");
}

#[test]
fn c_kinds_of_type_names() {
    let p = program();
    assert_eq!(str_to_kind("Bytes", &p), CodegenValueKind::Bytes);
    assert_eq!(str_to_kind("Unit", &p), CodegenValueKind::Unit);
    assert_eq!(str_to_kind("Color", &p), CodegenValueKind::Enum("Color".to_string()));
    assert_eq!(str_to_kind("Pair", &p), CodegenValueKind::Record("Pair".to_string()));
    assert_eq!(str_to_kind("Mystery", &p), CodegenValueKind::I32);
    assert_eq!(str_to_kind("List[F64]", &p), CodegenValueKind::List(Box::new(CodegenValueKind::F64)));
}

#[test]
fn c_layout_queries() {
    let p = program();
    assert_eq!(record_field_offset(&p.structs, "Pair", "b"), Some(8));
    assert_eq!(record_field_offset(&p.structs, "Pair", "z"), None);
    assert_eq!(record_field_offset(&p.structs, "Nope", "a"), None);
    assert_eq!(enum_variant_tag(&p.enums, "Color", "Green"), Some(1));
    assert_eq!(enum_variant_tag(&p.enums, "Color", "Blue"), None);
}

#[test]
fn output_lines_are_indented_four_spaces_per_level() {
    let mut out = Output::new();
    out.block_open("if (x) {").unwrap();
    out.line("y;").unwrap();
    out.block_close().unwrap();
    out.block_close().unwrap();
    assert_eq!(out.buf, "if (x) {\n    y;\n}\n}\n");
    assert_eq!(out.indent, 0);
}

#[test]
fn c_kinds_for_a_function() {
    let p = program();
    let kinds = infer_value_kinds_for_func(&p.functions[1], &p).unwrap();
    assert_eq!(kinds.get(ValueId(2)), Some(&CodegenValueKind::I32));
    let f = function(
        "f",
        &["F64"],
        Some("F64"),
        vec![
            Inst::LoadParam { dest: ValueId(0), index: 0 },
            Inst::Sqrt { dest: ValueId(1), value: ValueId(0) },
            Inst::If {
                dest: ValueId(2),
                condition: ValueId(0),
                then_insts: vec![],
                then_result: None,
                else_insts: vec![],
                else_result: None,
            },
        ],
        Some(1),
    );
    let kinds = infer_value_kinds_for_func(&f, &p).unwrap();
    assert_eq!(kinds.get(ValueId(0)), Some(&CodegenValueKind::F64));
    assert_eq!(kinds.get(ValueId(2)), Some(&CodegenValueKind::Unit));
}

#[test]
fn emits_a_function_definition() {
    let p = program();
    let kinds = infer_value_kinds_for_func(&p.functions[0], &p).unwrap();
    let mut out = Output::new();
    emit_function(&p.functions[0], &kinds, &p.structs, &p.enums, &[], &mut out).unwrap();
    assert_eq!(
        out.buf,
        "uint64_t add(uint64_t p0, uint64_t p1) {\n    uint64_t v0;\n    uint64_t v1;\n    uint64_t v2;\n    v0 = p0;\n    v1 = p1;\n    v2 = v0 + v1;\n    return v2;\n}\n\n"
    );
}

#[test]
fn emits_text_constants_as_byte_tables() {
    let p = program();
    let f = function("t", &[], None, vec![Inst::ConstText { dest: ValueId(3), value: "hi".to_string() }], None);
    let mut out = Output::new();
    emit_instructions(&f.instructions, &f, &KindMap::new(), &p.structs, &p.enums, &[], &mut out).unwrap();
    assert_eq!(
        out.buf,
        "static unsigned char _text_3[] = {\n    2u, 0u, 0u, 0u, 0u, 0u, 0u, 0u /* len=2 */,104u,105u,\n};\nv3 = (uint64_t)(unsigned char*)_text_3;\n"
    );
    let long = function("u", &[], None, vec![Inst::ConstText { dest: ValueId(0), value: "a".repeat(17) }], None);
    let mut out = Output::new();
    emit_instructions(&long.instructions, &long, &KindMap::new(), &p.structs, &p.enums, &[], &mut out).unwrap();
    let lines: Vec<&str> = out.buf.lines().collect();
    assert_eq!(lines[1], format!("    17u, 0u, 0u, 0u, 0u, 0u, 0u, 0u /* len=17 */,{}", "97u,".repeat(16)));
    assert_eq!(lines[2], "    97u,");
}

#[test]
fn emits_signed_division_and_control_flow() {
    let p = program();
    let f = function(
        "g",
        &["I32", "I32"],
        Some("I32"),
        vec![
            Inst::LoadParam { dest: ValueId(0), index: 0 },
            Inst::LoadParam { dest: ValueId(1), index: 1 },
            Inst::Div { dest: ValueId(2), left: ValueId(0), right: ValueId(1) },
            Inst::Lt { dest: ValueId(3), left: ValueId(0), right: ValueId(1) },
            Inst::If {
                dest: ValueId(4),
                condition: ValueId(3),
                then_insts: vec![],
                then_result: Some(ValueId(0)),
                else_insts: vec![],
                else_result: None,
            },
        ],
        Some(2),
    );
    let kinds = infer_value_kinds_for_func(&f, &p).unwrap();
    let mut out = Output::new();
    emit_instructions(&f.instructions, &f, &kinds, &p.structs, &p.enums, &[], &mut out).unwrap();
    assert_eq!(
        out.buf,
        "v0 = p0;\nv1 = p1;\nv2 = (int64_t)v0 / (int64_t)v1;\nv3 = ((int64_t)v0 < (int64_t)v1) ? 1 : 0;\nif (v3) {\n    v4 = v0;\n}\n"
    );
}

#[test]
fn emits_a_whole_program() {
    let text = emit_c(&program(), &[]).unwrap();
    assert!(text.starts_with("#include <stdint.h>\n#include <stdlib.h>\n"));
    assert!(text.contains("\nuint64_t add(uint64_t p0, uint64_t p1);\n\n"));
    assert!(text.contains(
        "int32_t sarif_user_main(void) {\n    uint64_t v0;\n    uint64_t v1;\n    uint64_t v2;\n    v0 = 1llu;\n    v1 = 2llu;\n    v2 = (uint64_t)add(v0, v1);\n    return v2;\n}\n"
    ));
    assert!(text.ends_with(
        "const struct SarifEffectHandler sarif_effect_table[1] = { {0, 0, 0} };\nconst size_t sarif_effect_table_len = 0;\n"
    ));
    assert!(!text.contains("uint64_t main("));
}
