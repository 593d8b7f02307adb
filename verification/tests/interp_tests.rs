use sarif_codegen::interp::{
    check_run_call, find_callee, find_handler, parse_int_range_value, repeat_iterations, text_slice_value, while_condition,
    arith_value, bool_operand, check_assert, enum_tag_eq_value, equality_value, field_value, list_new_length, order_value,
    param_value, parse_int_value, payload_value, text_byte_value, text_compare_value,
    text_concat_value, text_eq_range_value, text_find_byte_range_value, text_len_value, ArithOp,
    Evaluated, Lists, OrderOp, TextBuilders,
};
use sarif_codegen::mir::{ContractKind, EnumType, EnumVariantType, Function, HandleArm, Param, Program, Span, ValueId};
use sarif_codegen::values::{RuntimeEnum, RuntimeError, RuntimeRecord, RuntimeValue};

fn text(s: &str) -> RuntimeValue {
    RuntimeValue::Text(s.to_string())
}

fn message(r: Result<RuntimeValue, RuntimeError>) -> String {
    match r {
        Err(RuntimeError::Message(m)) => m,
        other => panic!("expected an error, got {other:?}"),
    }
}

fn int_of(r: Result<RuntimeValue, RuntimeError>) -> i64 {
    match r {
        Ok(RuntimeValue::Int(v)) => v,
        other => panic!("expected an integer, got {other:?}"),
    }
}

fn bool_of(r: Result<RuntimeValue, RuntimeError>) -> bool {
    match r {
        Ok(RuntimeValue::Bool(v)) => v,
        other => panic!("expected a bool, got {other:?}"),
    }
}

fn value_of(r: Result<Evaluated, RuntimeError>) -> RuntimeValue {
    match r {
        Ok(Evaluated::Value(v)) => v,
        Ok(_) => panic!("expected a value"),
        Err(e) => panic!("expected a value, got {e:?}"),
    }
}

fn eval_message(r: Result<Evaluated, RuntimeError>) -> String {
    match r {
        Err(RuntimeError::Message(m)) => m,
        _ => panic!("expected an error"),
    }
}

#[test]
fn text_queries_count_bytes() {
    assert_eq!(int_of(text_len_value(&text("h\u{e9}llo"))), 6);
    assert_eq!(int_of(text_byte_value(&text("abc"), &RuntimeValue::Int(1))), 98);
    assert_eq!(int_of(text_byte_value(&text("abc"), &RuntimeValue::Int(5))), 0);
    assert_eq!(int_of(text_byte_value(&text("abc"), &RuntimeValue::Int(-1))), 0);
    assert_eq!(message(text_len_value(&RuntimeValue::Int(1))), "expected Text");
    assert_eq!(message(text_byte_value(&text("abc"), &RuntimeValue::Bool(true))), "expected Int");
}

#[test]
fn text_compare_orders_bytewise() {
    assert_eq!(int_of(text_compare_value(&text("a"), &text("b"))), -1);
    assert_eq!(int_of(text_compare_value(&text("b"), &text("b"))), 0);
    assert_eq!(int_of(text_compare_value(&text("ba"), &text("b"))), 1);
    assert_eq!(message(text_compare_value(&text("a"), &RuntimeValue::Unit)), "expected Text");
}

#[test]
fn text_ranges_move_to_character_boundaries() {
    let s = text("h\u{e9}llo");
    let int = RuntimeValue::Int;
    assert!(bool_of(text_eq_range_value(&s, &ival(0), &ival(2), &text("h"))));
    assert!(bool_of(text_eq_range_value(&s, &ival(2), &ival(5), &text("ll"))));
    assert!(!bool_of(text_eq_range_value(&s, &ival(0), &ival(3), &text("h"))));
    assert_eq!(int_of(text_find_byte_range_value(&text("abc"), &ival(0), &ival(10), &ival(b'z' as i64))), 3);
    assert_eq!(int_of(text_find_byte_range_value(&text("a,b"), &ival(0), &ival(3), &ival(b',' as i64))), 1);
    assert_eq!(message(text_eq_range_value(&s, &ival(0), &text("x"), &text("h"))), "expected Int");
    assert_eq!(message(text_eq_range_value(&s, &ival(0), &ival(1), &ival(1))), "expected Text");
}

#[test]
fn integer_arithmetic_and_its_errors() {
    let int = RuntimeValue::Int;
    assert!(matches!(value_of(arith_value(ArithOp::Add, &ival(2), &ival(3))), RuntimeValue::Int(5)));
    assert!(matches!(value_of(arith_value(ArithOp::Sub, &ival(2), &ival(3))), RuntimeValue::Int(-1)));
    assert!(matches!(value_of(arith_value(ArithOp::Mul, &ival(-4), &ival(3))), RuntimeValue::Int(-12)));
    assert!(matches!(value_of(arith_value(ArithOp::Div, &ival(7), &ival(-2))), RuntimeValue::Int(-3)));
    assert!(matches!(value_of(arith_value(ArithOp::Div, &ival(-7), &ival(2))), RuntimeValue::Int(-3)));
    assert_eq!(eval_message(arith_value(ArithOp::Div, &ival(7), &ival(0))), "division by zero");
    assert_eq!(
        eval_message(arith_value(ArithOp::Add, &ival(1), &RuntimeValue::F64(0))),
        "expected matching numeric operands for add"
    );
    assert_eq!(
        eval_message(arith_value(ArithOp::Div, &text("a"), &text("b"))),
        "expected matching numeric operands for div"
    );
}

#[test]
fn float_operations_are_handed_back() {
    let one = 1.0f64.to_bits();
    let two = 2.0f64.to_bits();
    assert!(matches!(
        arith_value(ArithOp::Mul, &RuntimeValue::F64(one), &RuntimeValue::F64(two)),
        Ok(Evaluated::FloatArith(ArithOp::Mul, a, b)) if a == one && b == two
    ));
    assert_eq!(
        eval_message(arith_value(ArithOp::Div, &RuntimeValue::F64(one), &RuntimeValue::F64((-0.0f64).to_bits()))),
        "division by zero"
    );
    assert!(matches!(
        order_value(OrderOp::Le, &RuntimeValue::F64(one), &RuntimeValue::F64(two)),
        Ok(Evaluated::FloatOrder(OrderOp::Le, a, b)) if a == one && b == two
    ));
}

#[test]
fn integer_ordering() {
    let int = RuntimeValue::Int;
    assert!(matches!(value_of(order_value(OrderOp::Lt, &ival(1), &ival(2))), RuntimeValue::Bool(true)));
    assert!(matches!(value_of(order_value(OrderOp::Ge, &ival(1), &ival(2))), RuntimeValue::Bool(false)));
    assert!(matches!(value_of(order_value(OrderOp::Le, &ival(2), &ival(2))), RuntimeValue::Bool(true)));
    assert_eq!(
        eval_message(order_value(OrderOp::Gt, &ival(1), &RuntimeValue::Bool(true))),
        "expected matching numeric operands for gt"
    );
}

#[test]
fn text_concat_joins_texts() {
    match text_concat_value(&text("ab"), &text("c\u{e9}")) {
        Ok(RuntimeValue::Text(t)) => assert_eq!(t, "abc\u{e9}"),
        other => panic!("expected a text, got {other:?}"),
    }
    assert_eq!(message(text_concat_value(&text("ab"), &RuntimeValue::Int(1))), "expected Text");
}

#[test]
fn enum_tag_tests_compare_variant_positions() {
    let program = Program {
        enums: vec![EnumType {
            name: "Color".to_string(),
            variants: vec![
                EnumVariantType { name: "Red".to_string(), payload_type: None },
                EnumVariantType { name: "Blue".to_string(), payload_type: None },
            ],
        }],
        structs: vec![],
        functions: vec![],
        externs: vec![],
    };
    let blue = RuntimeValue::Enum(RuntimeEnum { name: "Color".to_string(), variant: "Blue".to_string(), payload: None });
    assert!(bool_of(enum_tag_eq_value(&program, &blue, 1)));
    assert!(!bool_of(enum_tag_eq_value(&program, &blue, 0)));
    assert!(bool_of(enum_tag_eq_value(&program, &RuntimeValue::Int(3), 3)));
    let odd = RuntimeValue::Enum(RuntimeEnum { name: "Color".to_string(), variant: "Pink".to_string(), payload: None });
    assert_eq!(message(enum_tag_eq_value(&program, &odd, 0)), "enum `Color` has no variant `Pink`");
    assert_eq!(
        message(enum_tag_eq_value(&program, &RuntimeValue::Unit, 0)),
        "expected enum value or enum tag for tag test"
    );
}

#[test]
fn text_builders_collect_bytes_until_finished() {
    let mut builders = TextBuilders::new();
    let b = builders.open();
    assert!(matches!(b, RuntimeValue::TextBuilder(0)));
    assert!(matches!(builders.append_text(&b, &text("h")), Ok(RuntimeValue::TextBuilder(0))));
    assert!(matches!(builders.append_codepoint(&b, &RuntimeValue::Int(0xe9)), Ok(RuntimeValue::TextBuilder(0))));
    assert_eq!(message(builders.append_codepoint(&b, &RuntimeValue::Int(-1))), "text builder codepoint must be non-negative");
    assert_eq!(
        message(builders.append_codepoint(&b, &RuntimeValue::Int(0xD800))),
        "text builder codepoint must be a valid Unicode scalar"
    );
    assert_eq!(message(builders.append_text(&b, &RuntimeValue::Int(1))), "expected Text");
    assert_eq!(message(builders.append_text(&RuntimeValue::Int(0), &text("x"))), "expected TextBuilder");
    match builders.finish(&b) {
        Ok(bytes) => assert_eq!(bytes, "h\u{e9}".as_bytes()),
        Err(e) => panic!("expected bytes, got {e:?}"),
    }
    assert!(matches!(builders.finish(&b), Err(RuntimeError::Message(m)) if m == "text builder handle is unavailable"));
    assert!(matches!(builders.open(), RuntimeValue::TextBuilder(1)));
    assert_eq!(builders.len(), 2);
}

#[test]
fn lists_read_and_replace_items_by_handle() {
    let int = RuntimeValue::Int;
    assert!(matches!(list_new_length(&ival(2)), Ok(2)));
    assert!(matches!(list_new_length(&ival(-1)), Err(RuntimeError::Message(m)) if m == "list_new length must be non-negative"));
    assert!(matches!(list_new_length(&text("x")), Err(RuntimeError::Message(m)) if m == "expected Int"));
    let mut lists = Lists::new();
    let l = lists.add(vec![ival(7), ival(8)]);
    assert!(matches!(l, RuntimeValue::List(0)));
    assert_eq!(int_of(lists.length(&l)), 2);
    assert!(matches!(lists.get(&l, &ival(1)), Ok(RuntimeValue::Int(8))));
    assert!(matches!(lists.get(&l, &ival(2)), Err(RuntimeError::Message(m)) if m == "bounds assertion failed in `list_get`"));
    assert!(matches!(lists.get(&l, &ival(-1)), Err(RuntimeError::Message(m)) if m == "bounds assertion failed in `list_get`"));
    assert!(matches!(lists.set(&l, &ival(0), ival(9)), Ok(RuntimeValue::List(0))));
    assert!(matches!(lists.get(&l, &ival(0)), Ok(RuntimeValue::Int(9))));
    assert_eq!(message(lists.set(&l, &ival(5), ival(1))), "bounds assertion failed in `list_set`");
    assert_eq!(message(lists.length(&RuntimeValue::List(3))), "list handle is unavailable");
    assert_eq!(message(lists.length(&ival(0))), "expected List");
    assert_eq!(lists.len(), 1);
}

#[test]
fn fields_and_payloads_are_read_in_place() {
    let point = RuntimeValue::Record(RuntimeRecord {
        name: "Point".to_string(),
        fields: vec![("x".to_string(), RuntimeValue::Int(1)), ("y".to_string(), RuntimeValue::Int(2))],
    });
    assert!(matches!(field_value(&point, "y"), Ok(RuntimeValue::Int(2))));
    assert!(matches!(field_value(&point, "z"), Err(RuntimeError::Message(m)) if m == "record `Point` has no field `z`"));
    assert!(matches!(
        field_value(&RuntimeValue::Unit, "x"),
        Err(RuntimeError::Message(m)) if m == "expected record value for field access `x`"
    ));
    let some = RuntimeValue::Enum(RuntimeEnum {
        name: "Option".to_string(),
        variant: "Some".to_string(),
        payload: Some(Box::new(RuntimeValue::Int(4))),
    });
    assert!(matches!(payload_value(&some), Ok(RuntimeValue::Int(4))));
    let none = RuntimeValue::Enum(RuntimeEnum { name: "Option".to_string(), variant: "None".to_string(), payload: None });
    assert!(matches!(payload_value(&none), Err(RuntimeError::Message(m)) if m == "enum variant has no payload"));
    assert!(matches!(
        payload_value(&RuntimeValue::Int(1)),
        Err(RuntimeError::Message(m)) if m == "expected enum value for payload access"
    ));
}

#[test]
fn parameters_and_assertions() {
    let args = [RuntimeValue::Int(5)];
    assert!(matches!(param_value(&args, 0), Ok(RuntimeValue::Int(5))));
    assert!(matches!(param_value(&args, 1), Err(RuntimeError::Message(m)) if m == "parameter load out of bounds"));
    assert!(check_assert(true, ContractKind::Requires, "f").is_ok());
    assert!(matches!(
        check_assert(false, ContractKind::Requires, "f"),
        Err(RuntimeError::Message(m)) if m == "requires contract failed in `f`"
    ));
    assert!(matches!(
        check_assert(false, ContractKind::Ensures, "g"),
        Err(RuntimeError::Message(m)) if m == "ensures contract failed in `g`"
    ));
    assert!(matches!(
        check_assert(false, ContractKind::Bounds, "h"),
        Err(RuntimeError::Message(m)) if m == "bounds assertion failed in `h`"
    ));
}

#[test]
fn integer_text_parsing_trims_white_space() {
    assert_eq!(int_of(parse_int_value(&text(" 42"))), 42);
    assert_eq!(int_of(parse_int_value(&text("\u{3000}-17\t"))), -17);
    assert_eq!(int_of(parse_int_value(&text("+5"))), 5);
    assert_eq!(int_of(parse_int_value(&text("-9223372036854775808"))), i64::MIN);
    assert_eq!(int_of(parse_int_value(&text("2147483648"))), 2147483648);
    assert_eq!(message(parse_int_value(&text("9223372036854775808"))), "expected base-10 integer text");
    assert_eq!(message(parse_int_value(&text("99999999999999999999999999"))), "expected base-10 integer text");
    assert_eq!(message(parse_int_value(&text("4x"))), "expected base-10 integer text");
    assert_eq!(message(parse_int_value(&text("-"))), "expected base-10 integer text");
    assert_eq!(message(parse_int_value(&text("   "))), "expected base-10 integer text");
    assert_eq!(message(parse_int_value(&RuntimeValue::Int(1))), "expected Text");
}

#[test]
fn equality_is_structural_with_ieee_floats() {
    let f = |x: f64| RuntimeValue::F64(x.to_bits());
    assert!(matches!(equality_value(false, &f(0.0), &f(-0.0)), RuntimeValue::Bool(true)));
    assert!(matches!(equality_value(false, &f(f64::NAN), &f(f64::NAN)), RuntimeValue::Bool(false)));
    assert!(matches!(equality_value(true, &f(f64::NAN), &f(f64::NAN)), RuntimeValue::Bool(true)));
    assert!(matches!(equality_value(false, &f(1.5), &f(1.5)), RuntimeValue::Bool(true)));
    assert!(matches!(equality_value(false, &text("a"), &text("a")), RuntimeValue::Bool(true)));
    assert!(matches!(equality_value(false, &text("a"), &RuntimeValue::Int(1)), RuntimeValue::Bool(false)));
    let rec = |y: i64| RuntimeValue::Record(RuntimeRecord {
        name: "P".to_string(),
        fields: vec![("x".to_string(), f(0.0)), ("y".to_string(), RuntimeValue::Int(y))],
    });
    assert!(matches!(equality_value(false, &rec(1), &rec(1)), RuntimeValue::Bool(true)));
    assert!(matches!(equality_value(false, &rec(1), &rec(2)), RuntimeValue::Bool(false)));
    let e = |p: Option<RuntimeValue>| RuntimeValue::Enum(RuntimeEnum {
        name: "O".to_string(),
        variant: "S".to_string(),
        payload: p.map(Box::new),
    });
    assert!(matches!(equality_value(false, &e(Some(f(-0.0))), &e(Some(f(0.0)))), RuntimeValue::Bool(true)));
    assert!(matches!(equality_value(false, &e(Some(f(0.0))), &e(None)), RuntimeValue::Bool(false)));
}

#[test]
fn conditions_must_be_booleans() {
    assert!(matches!(bool_operand(&RuntimeValue::Bool(true), &[]), Ok(true)));
    assert!(matches!(
        bool_operand(&RuntimeValue::Int(3), &[]),
        Err(RuntimeError::Message(m)) if m == "expected boolean value, found 3"
    ));
}

fn arm(effect: &str, operation: &str) -> HandleArm {
    HandleArm {
        effect: effect.to_string(),
        operation: operation.to_string(),
        params: Vec::new(),
        body_insts: Vec::new(),
        body_result: None,
    }
}

#[test]
fn perform_reaches_the_innermost_handler_first() {
    let outer = vec![arm("Log", "write"), arm("State", "get")];
    let inner = vec![arm("State", "set"), arm("State", "get"), arm("State", "get")];
    let frames: Vec<&[HandleArm]> = vec![outer.as_slice(), inner.as_slice()];
    assert_eq!(find_handler(&frames, "State", "get"), Some((1, 1)));
    assert_eq!(find_handler(&frames, "Log", "write"), Some((0, 0)));
    assert_eq!(find_handler(&frames, "Log", "read"), None);
    assert_eq!(find_handler(&[], "State", "get"), None);
}

#[test]
fn while_conditions_decide_or_fail() {
    assert!(matches!(while_condition(Some(&RuntimeValue::Bool(true)), "f", ValueId(3)), Ok(true)));
    assert!(matches!(while_condition(Some(&RuntimeValue::Bool(false)), "f", ValueId(3)), Ok(false)));
    match while_condition(Some(&RuntimeValue::Int(1)), "f", ValueId(3)) {
        Err(RuntimeError::Message(m)) => assert_eq!(m, "while condition in `f` did not evaluate to `Bool`"),
        _ => panic!("expected an error"),
    }
    match while_condition(None, "f", ValueId(3)) {
        Err(RuntimeError::Message(m)) => assert_eq!(m, "missing while condition result in `f` for %3"),
        _ => panic!("expected an error"),
    }
}

#[test]
fn repeat_runs_no_body_for_negative_counts() {
    assert_eq!(repeat_iterations(-4), 0);
    assert_eq!(repeat_iterations(0), 0);
    assert_eq!(repeat_iterations(7), 7);
}

fn ival(v: i64) -> RuntimeValue {
    RuntimeValue::Int(v)
}

#[test]
fn text_slices_snap_to_character_boundaries() {
    let t = text("héllo");
    assert!(matches!(text_slice_value(&t, &ival(1), &ival(4)), Ok(RuntimeValue::Text(ref s)) if s == "él"));
    assert!(matches!(text_slice_value(&t, &ival(2), &ival(4)), Ok(RuntimeValue::Text(ref s)) if s == "l"));
    assert!(matches!(text_slice_value(&t, &ival(1), &ival(2)), Ok(RuntimeValue::Text(ref s)) if s.is_empty()));
    assert!(matches!(text_slice_value(&t, &ival(-5), &ival(99)), Ok(RuntimeValue::Text(ref s)) if s == "héllo"));
    assert!(matches!(text_slice_value(&t, &ival(4), &ival(1)), Ok(RuntimeValue::Text(ref s)) if s.is_empty()));
    assert_eq!(message(text_slice_value(&ival(1), &ival(0), &ival(1))), "expected Text");
    assert_eq!(message(text_slice_value(&t, &text("0"), &ival(1))), "expected Int");
    assert_eq!(message(text_slice_value(&t, &ival(0), &text("1"))), "expected Int");
}

#[test]
fn integers_parse_from_a_text_range() {
    let t = text("ab  -42 cd");
    assert!(matches!(parse_int_range_value(&t, &ival(2), &ival(8)), Ok(RuntimeValue::Int(-42))));
    assert_eq!(message(parse_int_range_value(&t, &ival(0), &ival(4))), "expected base-10 integer text");
    assert_eq!(message(parse_int_range_value(&t, &ival(3), &ival(3))), "expected base-10 integer text");
    assert_eq!(message(parse_int_range_value(&ival(0), &ival(0), &ival(1))), "expected Text");
}

fn function(name: &str, params: &[(&str, &str)]) -> Function {
    Function {
        name: name.to_string(),
        params: params.iter().map(|(n, t)| Param { name: n.to_string(), ty: t.to_string() }).collect(),
        return_type: None,
        effects: Vec::new(),
        mutable_locals: Vec::new(),
        instructions: Vec::new(),
        result: None,
        span: Span { start: 0, end: 0 },
        value_count: 0,
        slot_count: 0,
    }
}

#[test]
fn running_a_function_checks_name_arity_and_types() {
    let program = Program {
        enums: vec![],
        structs: vec![],
        functions: vec![function("f", &[("x", "I32")]), function("main", &[("x", "I32")]), function("f", &[("x", "Bool")])],
        externs: vec![],
    };
    let floats: Vec<(u64, String)> = Vec::new();
    match check_run_call(&program, "g", &[], &floats) {
        Err(RuntimeError::Message(m)) => assert_eq!(m, "unknown function `g`"),
        other => panic!("unexpected {other:?}"),
    }
    match check_run_call(&program, "main", &[ival(1)], &floats) {
        Err(RuntimeError::Message(m)) => assert_eq!(m, "`main` must not take parameters"),
        other => panic!("unexpected {other:?}"),
    }
    match check_run_call(&program, "f", &[], &floats) {
        Err(RuntimeError::Message(m)) => assert_eq!(m, "function `f` expected 1 arguments but received 0"),
        other => panic!("unexpected {other:?}"),
    }
    assert!(matches!(check_run_call(&program, "f", &[RuntimeValue::Bool(true)], &floats), Ok(2)));
    assert!(check_run_call(&program, "f", &[ival(1)], &floats).is_err());
}

#[test]
fn calls_run_the_last_function_of_their_name() {
    let program = Program {
        enums: vec![],
        structs: vec![],
        functions: vec![function("f", &[]), function("g", &[]), function("f", &[("x", "I32")])],
        externs: vec![],
    };
    assert!(matches!(find_callee(&program, "f"), Ok(2)));
    assert!(matches!(find_callee(&program, "g"), Ok(1)));
    match find_callee(&program, "h") {
        Err(RuntimeError::Message(m)) => assert_eq!(m, "unknown callee `h`"),
        other => panic!("unexpected {other:?}"),
    }
}
