//! The C text of instructions, functions and whole programs.
use vstd::prelude::*;

use crate::c::{
    c_infer_insts, c_type_name, enum_has_payload, find_enum, first_enum_named,
    has_payload_variant, is_f64, is_signed, is_text, line_at, pad, record_field_offset,
    safe_local_name, safe_name, spec_field_offset, spec_variant_tag, vref_text, Output,
};
use crate::kinds::KindMap;
use crate::infer::kind_of;
use crate::analysis::{count_instructions, insts_bound};
use crate::mir::{
    first_local_for, CodegenValueKind, ContractKind, EnumType, ExternFunction, Function, Inst,
    LocalSlotId, MutableLocal, Param, Program, StructType, ValueId,
};
use crate::native::KindView;
use crate::pretty::float_text;
use crate::text::{int_text, join_seq, nat_text, push_i64, push_u64, text_eq};

verus! {

/// What the emitter reads besides the instruction: the function, the kinds
/// of its values, the program's structs and enums, and the texts of its
/// floating-point constants.
pub struct CCtx {
    pub func: Function,
    pub kinds: Map<u32, KindView>,
    pub structs: Seq<StructType>,
    pub enums: Seq<EnumType>,
    pub floats: Seq<(u64, String)>,
}

pub open spec fn v(x: ValueId) -> Seq<char> {
    vref_text(x)
}

pub open spec fn signed(cx: CCtx, x: ValueId) -> bool {
    kind_of(cx.kinds, x) == Some(KindView::I32)
}

pub open spec fn texty(cx: CCtx, x: ValueId) -> bool {
    kind_of(cx.kinds, x) == Some(KindView::Text)
}

pub open spec fn floaty(cx: CCtx, x: ValueId) -> bool {
    kind_of(cx.kinds, x) == Some(KindView::F64)
}

/// `name_local_slot`: the C variable of a mutable local.
pub open spec fn local_var(ty: Seq<char>, slot: LocalSlotId) -> Seq<char> {
    safe_name(ty) + "_local_"@ + nat_text(slot.0 as nat)
}

/// A comparison: signed operands are compared as `int64_t`.
pub open spec fn compare_line(cx: CCtx, dest: ValueId, left: ValueId, right: ValueId, op: Seq<char>) -> Seq<
    char,
> {
    if signed(cx, left) {
        v(dest) + " = ((int64_t)"@ + v(left) + op + "(int64_t)"@ + v(right) + ") ? 1 : 0;"@
    } else {
        v(dest) + " = ("@ + v(left) + op + v(right) + ") ? 1 : 0;"@
    }
}

/// `left op right` assigned to `dest`.
pub open spec fn binary_line(dest: ValueId, left: ValueId, right: ValueId, op: Seq<char>) -> Seq<char> {
    v(dest) + " = "@ + v(left) + op + v(right) + ";"@
}

/// The offset of the field read by `Field`: 0 when the base is not a known
/// record field.
pub open spec fn field_offset_of(cx: CCtx, base: ValueId, name: Seq<char>) -> u32 {
    match kind_of(cx.kinds, base) {
        Some(KindView::Record(rn)) => match spec_field_offset(cx.structs, rn, name) {
            Some(o) => o,
            None => 0,
        },
        _ => 0,
    }
}

/// Whether the enum of a value carries payloads (and so lives behind a
/// pointer).
pub open spec fn value_enum_has_payload(cx: CCtx, x: ValueId) -> bool {
    match kind_of(cx.kinds, x) {
        Some(KindView::Enum(en)) => match first_enum_named(cx.enums, en) {
            Some(e) => has_payload_variant(e),
            None => false,
        },
        _ => false,
    }
}

pub open spec fn assert_message(kind: ContractKind) -> Seq<char> {
    match kind {
        ContractKind::Requires => "precondition failed"@,
        ContractKind::Ensures => "postcondition failed"@,
        ContractKind::Bounds => "bounds check failed"@,
    }
}

/// The callee as C names it: a call of `main` from another function calls
/// the renamed user main.
pub open spec fn callee_c_name(cx: CCtx, callee: Seq<char>) -> Seq<char> {
    if callee == "main"@ && cx.func.name@ != "main"@ {
        "sarif_user_main"@
    } else {
        callee
    }
}

pub open spec fn call_expr(cx: CCtx, callee: Seq<char>, args: Seq<ValueId>) -> Seq<char> {
    callee_c_name(cx, callee) + "("@ + join_seq(args.map_values(|a: ValueId| v(a)), ", "@) + ")"@
}

/// Whether an instruction is emitted as one line.
pub open spec fn is_one_line(inst: Inst) -> bool {
    match inst {
        Inst::ConstText { .. } | Inst::ListNew { .. } | Inst::ListGet { .. } | Inst::ListSet { .. }
        | Inst::MakeRecord { .. } | Inst::MakeEnum { .. } | Inst::Perform { .. } | Inst::If { .. }
        | Inst::While { .. } | Inst::Repeat { .. } | Inst::Handle { .. } => false,
        _ => true,
    }
}

/// The line of an instruction emitted as one line.
pub open spec fn one_line(cx: CCtx, inst: Inst) -> Seq<char> {
    match inst {
        Inst::TextBuilderNew { dest } => v(dest) + " = (uint64_t)sarif_text_builder_new();"@,
        Inst::TextBuilderAppend { dest, builder, text } => v(dest)
            + " = (uint64_t)sarif_text_builder_append((void*)"@ + v(builder)
            + ", (const unsigned char*)"@ + v(text) + ");"@,
        Inst::TextBuilderAppendCodepoint { dest, builder, codepoint } => v(dest)
            + " = (uint64_t)sarif_text_builder_append_codepoint((void*)"@ + v(builder)
            + ", (int64_t)"@ + v(codepoint) + ");"@,
        Inst::TextBuilderFinish { dest, builder } => v(dest)
            + " = (uint64_t)sarif_text_builder_finish((void*)"@ + v(builder) + ");"@,
        Inst::ListLen { dest, list } => v(dest) + " = (uint64_t)sarif_list_len((void*)"@ + v(list)
            + ");"@,
        Inst::F64FromI32 { dest, value } => v(dest) + " = (double)(int64_t)"@ + v(value) + ";"@,
        Inst::TextLen { dest, text } => v(dest) + " = sarif_text_len((const unsigned char*)"@ + v(
            text,
        ) + ");"@,
        Inst::TextConcat { dest, left, right } => v(dest)
            + " = (uint64_t)sarif_text_concat((const unsigned char*)"@ + v(left)
            + ", (const unsigned char*)"@ + v(right) + ");"@,
        Inst::TextSlice { dest, text, start, end } => v(dest)
            + " = (uint64_t)sarif_text_slice((const unsigned char*)"@ + v(text)
            + ", (uint64_t)(int64_t)"@ + v(start) + ", (uint64_t)(int64_t)"@ + v(end) + ");"@,
        Inst::TextByte { dest, text, index } => v(dest) + " = (uint64_t)((const unsigned char*)"@
            + v(text) + ")[8 + (uint64_t)"@ + v(index) + "];"@,
        Inst::TextCmp { dest, left, right } => v(dest)
            + " = (uint64_t)(int64_t)sarif_text_cmp((const unsigned char*)"@ + v(left)
            + ", (const unsigned char*)"@ + v(right) + ");"@,
        Inst::TextEqRange { dest, source, start, end, expected } => v(dest)
            + " = sarif_text_eq_range((const unsigned char*)"@ + v(source) + ", (int64_t)"@ + v(
            start,
        ) + ", (int64_t)"@ + v(end) + ", (const unsigned char*)"@ + v(expected) + ");"@,
        Inst::TextFindByteRange { dest, source, start, end, byte } => v(dest)
            + " = (uint64_t)sarif_text_find_byte_range((const unsigned char*)"@ + v(source)
            + ", (int64_t)"@ + v(start) + ", (int64_t)"@ + v(end) + ", (int64_t)"@ + v(byte)
            + ");"@,
        Inst::TextFromF64Fixed { dest, value, digits } => v(dest)
            + " = (uint64_t)sarif_text_from_f64_fixed("@ + v(value) + ", (int64_t)"@ + v(digits)
            + ");"@,
        Inst::ArgCount { dest } => v(dest) + " = sarif_arg_count();"@,
        Inst::AllocPush => "sarif_alloc_push();"@,
        Inst::AllocPop => "sarif_alloc_pop();"@,
        Inst::ArgText { dest, index } => v(dest) + " = (uint64_t)sarif_arg_text((int64_t)"@ + v(
            index,
        ) + ");"@,
        Inst::StdinText { dest } => v(dest) + " = (uint64_t)sarif_stdin_text();"@,
        Inst::StdoutWrite { text } => "sarif_stdout_write((const unsigned char*)"@ + v(text)
            + ");"@,
        Inst::ParseI32 { dest, text } => v(dest)
            + " = (uint64_t)sarif_parse_i32((const unsigned char*)"@ + v(text) + ");"@,
        Inst::ParseI32Range { dest, text, start, end } => v(dest)
            + " = (uint64_t)sarif_parse_i32_range((const unsigned char*)"@ + v(text)
            + ", (int64_t)"@ + v(start) + ", (int64_t)"@ + v(end) + ");"@,
        Inst::ParseF64 { dest, text } => v(dest) + " = sarif_parse_f64((const unsigned char*)"@
            + v(text) + ");"@,
        Inst::LoadParam { dest, index } => v(dest) + " = p"@ + nat_text(index as nat) + ";"@,
        Inst::LoadLocal { dest, slot } => match first_local_for(cx.func.mutable_locals@, slot) {
            Some(l) => v(dest) + " = "@ + local_var(l.ty@, slot) + ";"@,
            None => v(dest) + " = 0; /* unknown local slot "@ + nat_text(slot.0 as nat) + " */"@,
        },
        Inst::StoreLocal { slot, src } => match first_local_for(cx.func.mutable_locals@, slot) {
            Some(l) => local_var(l.ty@, slot) + " = "@ + v(src) + ";"@,
            None => "/* unknown local slot "@ + nat_text(slot.0 as nat) + " = "@ + v(src) + " */"@,
        },
        Inst::ConstInt { dest, value } => v(dest) + " = "@ + int_text(value as int) + "llu;"@,
        Inst::ConstF64 { dest, bits } => v(dest) + " = "@ + float_text(cx.floats, bits) + ";"@,
        Inst::ConstBool { dest, value } => v(dest) + " = "@ + (if value {
            "1"@
        } else {
            "0"@
        }) + "llu;"@,
        Inst::Field { dest, base, name } => if floaty(cx, dest) {
            v(dest) + " = sarif_load_f64((const unsigned char*)"@ + v(base) + ", "@ + nat_text(
                field_offset_of(cx, base, name@) as nat,
            ) + "u);"@
        } else {
            v(dest) + " = sarif_load_u64((const unsigned char*)"@ + v(base) + ", "@ + nat_text(
                field_offset_of(cx, base, name@) as nat,
            ) + "u);"@
        },
        Inst::EnumTagEq { dest, value, tag } => if value_enum_has_payload(cx, value) {
            v(dest) + " = (sarif_load_u64((const unsigned char*)"@ + v(value) + ", 0u) == "@
                + int_text(tag as int) + "llu) ? 1 : 0;"@
        } else {
            v(dest) + " = ("@ + v(value) + " == "@ + int_text(tag as int) + "llu) ? 1 : 0;"@
        },
        Inst::EnumPayload { dest, value, .. } => v(dest)
            + " = sarif_load_u64((const unsigned char*)"@ + v(value) + ", 8u);"@,
        Inst::Add { dest, left, right } => binary_line(dest, left, right, " + "@),
        Inst::Sub { dest, left, right } => binary_line(dest, left, right, " - "@),
        Inst::Mul { dest, left, right } => binary_line(dest, left, right, " * "@),
        Inst::Div { dest, left, right } => if signed(cx, left) {
            v(dest) + " = (int64_t)"@ + v(left) + " / (int64_t)"@ + v(right) + ";"@
        } else {
            binary_line(dest, left, right, " / "@)
        },
        Inst::Sqrt { dest, value } => v(dest) + " = sqrt("@ + v(value) + ");"@,
        Inst::And { dest, left, right } => v(dest) + " = ("@ + v(left) + " && "@ + v(right)
            + ") ? 1 : 0;"@,
        Inst::Or { dest, left, right } => v(dest) + " = ("@ + v(left) + " || "@ + v(right)
            + ") ? 1 : 0;"@,
        Inst::Eq { dest, left, right } => if texty(cx, left) {
            v(dest) + " = sarif_text_eq((const unsigned char*)"@ + v(left)
                + ", (const unsigned char*)"@ + v(right) + ") ? 1 : 0;"@
        } else {
            v(dest) + " = ("@ + v(left) + " == "@ + v(right) + ") ? 1 : 0;"@
        },
        Inst::Ne { dest, left, right } => if texty(cx, left) {
            v(dest) + " = sarif_text_eq((const unsigned char*)"@ + v(left)
                + ", (const unsigned char*)"@ + v(right) + ") ? 0 : 1;"@
        } else {
            v(dest) + " = ("@ + v(left) + " != "@ + v(right) + ") ? 1 : 0;"@
        },
        Inst::Lt { dest, left, right } => compare_line(cx, dest, left, right, " < "@),
        Inst::Le { dest, left, right } => compare_line(cx, dest, left, right, " <= "@),
        Inst::Gt { dest, left, right } => compare_line(cx, dest, left, right, " > "@),
        Inst::Ge { dest, left, right } => compare_line(cx, dest, left, right, " >= "@),
        Inst::Call { dest, callee, args } => if kind_of(cx.kinds, dest) == Some(KindView::Unit) {
            call_expr(cx, callee@, args@) + ";"@
        } else {
            v(dest) + " = (uint64_t)"@ + call_expr(cx, callee@, args@) + ";"@
        },
        Inst::Assert { condition, kind } => "if (!("@ + v(condition)
            + ")) { sarif_fatal_error(\""@ + assert_message(kind) + "\"); }"@,
        _ => Seq::empty(),
    }
}

/// The items `12u,` of a run of bytes.
pub open spec fn byte_items(bs: Seq<u8>) -> Seq<char>
    decreases bs.len(),
{
    if bs.len() == 0 {
        Seq::empty()
    } else {
        byte_items(bs.drop_last()) + nat_text(bs.last() as nat) + "u,"@
    }
}

pub open spec fn min_int(a: int, b: int) -> int {
    if a <= b {
        a
    } else {
        b
    }
}

/// The first `16` bytes of a run (or all of them).
pub open spec fn row(bs: Seq<u8>) -> Seq<u8> {
    bs.subrange(0, min_int(16, bs.len() as int))
}

/// The rows after the first, sixteen bytes each.
pub open spec fn more_rows(ind: nat, bs: Seq<u8>) -> Seq<char>
    decreases bs.len(),
{
    if bs.len() == 0 {
        Seq::empty()
    } else {
        line_at(ind, "    "@ + byte_items(row(bs))) + more_rows(ind, bs.subrange(min_int(16, bs.len() as int), bs.len() as int))
    }
}

/// The first row of a text constant: its length in two little-endian bytes,
/// six zero bytes, a comment with the length, then up to sixteen bytes.
pub open spec fn text_header(len: nat) -> Seq<char> {
    "    "@ + nat_text(len % 256) + "u, "@ + nat_text((len / 256) % 256)
        + "u, 0u, 0u, 0u, 0u, 0u, 0u /* len="@ + nat_text(len) + " */,"@
}

pub open spec fn const_text_lines(ind: nat, dest: ValueId, bytes: Seq<u8>) -> Seq<char> {
    line_at(ind, "static unsigned char _text_"@ + nat_text(dest.0 as nat) + "[] = {"@)
        + line_at(ind, text_header(bytes.len()) + byte_items(row(bytes)))
        + more_rows(ind, bytes.subrange(min_int(16, bytes.len() as int), bytes.len() as int))
        + line_at(ind, "};"@)
        + line_at(ind, v(dest) + " = (uint64_t)(unsigned char*)_text_"@ + nat_text(dest.0 as nat) + ";"@)
}

/// Stores of record fields at eight bytes each, from field `i` on.
pub open spec fn record_stores(cx: CCtx, ind: nat, dest: ValueId, fields: Seq<(String, ValueId)>, i: nat) -> Seq<
    char,
>
    decreases fields.len() - i,
{
    if i >= fields.len() {
        Seq::empty()
    } else {
        let fv = fields[i as int].1;
        line_at(
            ind,
            (if floaty(cx, fv) {
                "sarif_store_f64((unsigned char*)"@
            } else {
                "sarif_store_u64((unsigned char*)"@
            }) + v(dest) + ", "@ + nat_text(i * 8) + "u, "@ + v(fv) + ");"@,
        ) + record_stores(cx, ind, dest, fields, i + 1)
    }
}

pub open spec fn max_nat8(n: nat) -> nat {
    if n * 8 >= 8 {
        n * 8
    } else {
        8
    }
}

pub open spec fn perform_arg_name(nargs: nat, i: nat) -> Seq<char> {
    if nargs > i {
        "__perf_arg"@ + nat_text(i)
    } else {
        "0"@
    }
}

/// The argument lines of a `perform`: the first `n` arguments.
pub open spec fn perform_arg_lines(ind: nat, args: Seq<ValueId>, n: nat) -> Seq<char>
    decreases n,
{
    if n == 0 {
        Seq::empty()
    } else {
        perform_arg_lines(ind, args, (n - 1) as nat) + line_at(
            ind,
            "uint64_t __perf_arg"@ + nat_text((n - 1) as nat) + " = "@ + v(args[n - 1]) + ";"@,
        )
    }
}

pub open spec fn result_line(ind: nat, dest: ValueId, r: Option<ValueId>) -> Seq<char> {
    match r {
        Some(x) => line_at(ind, v(dest) + " = "@ + v(x) + ";"@),
        None => Seq::empty(),
    }
}

/// The C text of one instruction at indentation level `ind`.
pub open spec fn c_inst(cx: CCtx, inst: Inst, ind: nat) -> Seq<char>
    decreases inst, 0nat,
{
    match inst {
        Inst::ConstText { dest, value } => const_text_lines(ind, dest, vstd::utf8::encode_utf8(value@)),
        Inst::ListNew { dest, len, value } => if floaty(cx, value) {
            line_at(ind, "{"@) + line_at(ind + 1, "uint64_t _tmp;"@) + line_at(
                ind + 1,
                "memcpy(&_tmp, &"@ + v(value) + ", sizeof(double));"@,
            ) + line_at(
                ind + 1,
                v(dest) + " = (uint64_t)sarif_list_new((int64_t)"@ + v(len) + ", _tmp);"@,
            ) + line_at(ind, "}"@)
        } else {
            line_at(
                ind,
                v(dest) + " = (uint64_t)sarif_list_new((int64_t)"@ + v(len) + ", (uint64_t)"@ + v(
                    value,
                ) + ");"@,
            )
        },
        Inst::ListGet { dest, list, index } => if floaty(cx, dest) {
            line_at(ind, "{"@) + line_at(
                ind + 1,
                "uint64_t _tmp = sarif_list_get((void*)"@ + v(list) + ", (int64_t)"@ + v(index)
                    + ");"@,
            ) + line_at(ind + 1, "memcpy(&"@ + v(dest) + ", &_tmp, sizeof(double));"@) + line_at(
                ind,
                "}"@,
            )
        } else {
            line_at(
                ind,
                v(dest) + " = sarif_list_get((void*)"@ + v(list) + ", (int64_t)"@ + v(index)
                    + ");"@,
            )
        },
        Inst::ListSet { dest, list, index, value } => if floaty(cx, value) {
            line_at(ind, "{"@) + line_at(ind + 1, "uint64_t _tmp;"@) + line_at(
                ind + 1,
                "memcpy(&_tmp, &"@ + v(value) + ", sizeof(double));"@,
            ) + line_at(
                ind + 1,
                v(dest) + " = (uint64_t)sarif_list_set((void*)"@ + v(list) + ", (int64_t)"@ + v(
                    index,
                ) + ", _tmp);"@,
            ) + line_at(ind, "}"@)
        } else {
            line_at(
                ind,
                v(dest) + " = (uint64_t)sarif_list_set((void*)"@ + v(list) + ", (int64_t)"@ + v(
                    index,
                ) + ", (uint64_t)"@ + v(value) + ");"@,
            )
        },
        Inst::MakeRecord { dest, fields, .. } => line_at(
            ind,
            v(dest) + " = (uint64_t)sarif_record_alloc("@ + nat_text(max_nat8(fields@.len()))
                + "u);"@,
        ) + record_stores(cx, ind, dest, fields@, 0),
        Inst::MakeEnum { dest, name, variant, payload } => {
            let tag: nat = match spec_variant_tag(cx.enums, name@, variant@) {
                Some(t) => t as nat,
                None => 0,
            };
            let has_payload = match first_enum_named(cx.enums, name@) {
                Some(e) => has_payload_variant(e),
                None => false,
            };
            if has_payload {
                line_at(ind, v(dest) + " = (uint64_t)sarif_record_alloc(16u);"@) + line_at(
                    ind,
                    "sarif_store_u64((unsigned char*)"@ + v(dest) + ", 0u, "@ + nat_text(tag)
                        + "llu);"@,
                ) + match payload {
                    Some(p) => line_at(
                        ind,
                        "sarif_store_u64((unsigned char*)"@ + v(dest) + ", 8u, "@ + v(p) + ");"@,
                    ),
                    None => line_at(
                        ind,
                        "sarif_store_u64((unsigned char*)"@ + v(dest) + ", 8u, 0llu);"@,
                    ),
                }
            } else {
                line_at(ind, v(dest) + " = "@ + nat_text(tag) + "llu;"@)
            }
        },
        Inst::Perform { dest, effect, operation, args } => {
            let n: nat = if args@.len() < 4 {
                args@.len()
            } else {
                4
            };
            perform_arg_lines(ind, args@, n) + line_at(
                ind,
                v(dest) + " = sarif_perform_effect(\""@ + effect@ + "\", \""@ + operation@
                    + "\", "@ + perform_arg_name(n, 0) + ", "@ + perform_arg_name(n, 1) + ", "@
                    + perform_arg_name(n, 2) + ", "@ + perform_arg_name(n, 3) + ", "@ + nat_text(
                    n,
                ) + ");"@,
            )
        },
        Inst::If { dest, condition, then_insts, then_result, else_insts, else_result } => line_at(
            ind,
            "if ("@ + v(condition) + ") {"@,
        ) + c_insts(cx, then_insts@, ind + 1) + result_line(ind + 1, dest, then_result) + line_at(
            ind,
            "}"@,
        ) + if else_insts@.len() > 0 || else_result is Some {
            line_at(ind, "else {"@) + c_insts(cx, else_insts@, ind + 1) + result_line(
                ind + 1,
                dest,
                else_result,
            ) + line_at(ind, "}"@)
        } else {
            Seq::empty()
        },
        Inst::While { condition_insts, condition, body_insts, .. } => line_at(ind, "while (1) {"@)
            + c_insts(cx, condition_insts@, ind + 1) + line_at(
            ind + 1,
            "if (!("@ + v(condition) + ")) break;"@,
        ) + c_insts(cx, body_insts@, ind + 1) + line_at(ind, "}"@),
        Inst::Repeat { count, index_slot, body_insts, .. } => line_at(
            ind,
            "for (uint64_t _i = 0; _i < (uint64_t)(int64_t)"@ + v(count) + "; _i++) {"@,
        ) + match index_slot {
            Some(s) => match first_local_for(cx.func.mutable_locals@, s) {
                Some(l) => line_at(ind + 1, local_var(l.ty@, s) + " = (uint64_t)_i;"@),
                None => line_at(
                    ind + 1,
                    "uint64_t __local_"@ + nat_text(s.0 as nat) + " = (uint64_t)_i;"@,
                ),
            },
            None => Seq::empty(),
        } + c_insts(cx, body_insts@, ind + 1) + line_at(ind, "}"@),
        Inst::Handle { dest, body_insts, body_result, .. } => c_insts(cx, body_insts@, ind)
            + result_line(ind, dest, body_result),
        _ => line_at(ind, one_line(cx, inst)),
    }
}

/// The C text of a sequence of instructions, in order.
pub open spec fn c_insts(cx: CCtx, insts: Seq<Inst>, ind: nat) -> Seq<char>
    decreases insts, 0nat,
{
    if insts.len() == 0 {
        Seq::empty()
    } else {
        c_insts(cx, insts.subrange(0, insts.len() - 1), ind) + c_inst(cx, insts[insts.len() - 1], ind)
    }
}

/// What emitting an instruction at level `ind` needs of the machine: every
/// nested block level fits the 32-bit indentation counter and every record's
/// size fits a `usize`.
pub open spec fn c_fits(inst: Inst, ind: nat) -> bool
    decreases inst, 0nat,
{
    match inst {
        Inst::If { then_insts, else_insts, .. } => ind < u32::MAX && all_fit(then_insts@, ind + 1)
            && all_fit(else_insts@, ind + 1),
        Inst::While { condition_insts, body_insts, .. } => ind < u32::MAX && all_fit(
            condition_insts@,
            ind + 1,
        ) && all_fit(body_insts@, ind + 1),
        Inst::Repeat { body_insts, .. } => ind < u32::MAX && all_fit(body_insts@, ind + 1),
        Inst::Handle { body_insts, .. } => all_fit(body_insts@, ind),
        Inst::MakeRecord { fields, .. } => fields@.len() * 8 <= usize::MAX,
        Inst::ListNew { .. } | Inst::ListGet { .. } | Inst::ListSet { .. } => ind < u32::MAX,
        _ => true,
    }
}

pub open spec fn all_fit(insts: Seq<Inst>, ind: nat) -> bool
    decreases insts, 0nat,
{
    if insts.len() == 0 {
        true
    } else {
        all_fit(insts.subrange(0, insts.len() - 1), ind) && c_fits(insts[insts.len() - 1], ind)
    }
}

} // verus!

verus! {

pub open spec fn c_cx(
    func: Function,
    kinds: Map<u32, KindView>,
    structs: Seq<StructType>,
    enums: Seq<EnumType>,
    floats: Seq<(u64, String)>,
) -> CCtx {
    CCtx { func, kinds, structs, enums, floats }
}

/// Appends the C variable of a value.
fn pv(s: &mut String, x: ValueId)
    ensures
        final(s)@ == old(s)@ + v(x),
{
    let ghost start = s@;
    s.append("v");
    push_u64(s, x.0 as u64);
    assert(s@ =~= start + v(x));
}

/// Appends the decimal text of a number.
fn pn(s: &mut String, n: u64)
    ensures
        final(s)@ == old(s)@ + nat_text(n as nat),
{
    push_u64(s, n);
}

/// The operands of a call, separated by `, `.
fn args_text(args: &Vec<ValueId>) -> (r: String)
    ensures
        r@ == join_seq(args@.map_values(|a: ValueId| v(a)), ", "@),
{
    let ghost views = args@.map_values(|a: ValueId| v(a));
    let mut out = String::new();
    let mut i: usize = 0;
    while i < args.len()
        invariant
            i <= args.len(),
            views == args@.map_values(|a: ValueId| v(a)),
            out@ == join_seq(views.take(i as int), ", "@),
        decreases args.len() - i,
    {
        if i > 0 {
            out.append(", ");
        }
        pv(&mut out, args[i]);
        assert(views.take(i + 1).drop_last() =~= views.take(i as int));
        assert(views.take(i as int + 1).last() == v(args@[i as int]));
        i = i + 1;
    }
    assert(views.take(args.len() as int) =~= views);
    out
}

fn compare_text(kinds: &KindMap, dest: ValueId, left: ValueId, right: ValueId, op: &str) -> (r: String)
    ensures
        forall|cx: CCtx| cx.kinds == kinds@ ==> r@ == compare_line(cx, dest, left, right, op@),
{
    let mut s = String::new();
    pv(&mut s, dest);
    if is_signed(&left, kinds) {
        s.append(" = ((int64_t)");
        pv(&mut s, left);
        s.append(op);
        s.append("(int64_t)");
        pv(&mut s, right);
        s.append(") ? 1 : 0;");
    } else {
        s.append(" = (");
        pv(&mut s, left);
        s.append(op);
        pv(&mut s, right);
        s.append(") ? 1 : 0;");
    }
    s
}

fn binary_text(dest: ValueId, left: ValueId, right: ValueId, op: &str) -> (r: String)
    ensures
        r@ == binary_line(dest, left, right, op@),
{
    let mut s = String::new();
    pv(&mut s, dest);
    s.append(" = ");
    pv(&mut s, left);
    s.append(op);
    pv(&mut s, right);
    s.append(";");
    s
}

/// `v<dest>` followed by `a`, the value `x` and `b`.
fn vlvl(dest: ValueId, a: &str, x: ValueId, b: &str) -> (r: String)
    ensures
        r@ == v(dest) + a@ + v(x) + b@,
{
    let mut s = String::new();
    pv(&mut s, dest);
    s.append(a);
    pv(&mut s, x);
    s.append(b);
    s
}

fn vlvlvl(dest: ValueId, a: &str, x: ValueId, b: &str, y: ValueId, c: &str) -> (r: String)
    ensures
        r@ == v(dest) + a@ + v(x) + b@ + v(y) + c@,
{
    let mut s = vlvl(dest, a, x, b);
    pv(&mut s, y);
    s.append(c);
    s
}

fn vlvlvlvl(dest: ValueId, a: &str, x: ValueId, b: &str, y: ValueId, c: &str, z: ValueId, d: &str) -> (r: String)
    ensures
        r@ == v(dest) + a@ + v(x) + b@ + v(y) + c@ + v(z) + d@,
{
    let mut s = vlvlvl(dest, a, x, b, y, c);
    pv(&mut s, z);
    s.append(d);
    s
}

fn vlvlvlvlvl(
    dest: ValueId,
    a: &str,
    x: ValueId,
    b: &str,
    y: ValueId,
    c: &str,
    z: ValueId,
    d: &str,
    w: ValueId,
    e: &str,
) -> (r: String)
    ensures
        r@ == v(dest) + a@ + v(x) + b@ + v(y) + c@ + v(z) + d@ + v(w) + e@,
{
    let mut s = vlvlvlvl(dest, a, x, b, y, c, z, d);
    pv(&mut s, w);
    s.append(e);
    s
}

/// The byte offset read by a `Field` instruction.
fn field_offset_for(kinds: &KindMap, structs: &[StructType], base: ValueId, name: &str) -> (r: u32)
    ensures
        forall|cx: CCtx|
            cx.kinds == kinds@ && cx.structs == structs@ ==> r == field_offset_of(cx, base, name@),
{
    match kinds.get(base) {
        Some(CodegenValueKind::Record(rn)) => match record_field_offset(structs, rn.as_str(), name) {
            Some(o) => o,
            None => 0,
        },
        _ => 0,
    }
}

/// Whether the enum of the value carries payloads.
fn value_enum_payload(kinds: &KindMap, enums: &[EnumType], x: ValueId) -> (r: bool)
    ensures
        forall|cx: CCtx|
            cx.kinds == kinds@ && cx.enums == enums@ ==> r == value_enum_has_payload(cx, x),
{
    match kinds.get(x) {
        Some(CodegenValueKind::Enum(en)) => match find_enum(enums, en.as_str()) {
            Some(e) => enum_has_payload(e),
            None => false,
        },
        _ => false,
    }
}

/// The C variable of the mutable local that owns `slot`, if one does.
fn local_var_text(func: &Function, slot: LocalSlotId) -> (r: Option<String>)
    ensures
        match first_local_for(func.mutable_locals@, slot) {
            Some(l) => r matches Some(t) && t@ == local_var(l.ty@, slot),
            None => r is None,
        },
{
    match func.mutable_local_type(slot) {
        Some(ty) => {
            let mut s = safe_local_name(ty);
            s.append("_local_");
            pn(&mut s, slot.0 as u64);
            Some(s)
        },
        None => None,
    }
}

} // verus!

verus! {

/// The line of an instruction that is emitted as one line (see `one_line`).
#[verifier::rlimit(80)]
fn one_line_text(
    inst: &Inst,
    func: &Function,
    kinds: &KindMap,
    structs: &[StructType],
    enums: &[EnumType],
    floats: &crate::pretty::FloatTexts,
) -> (r: String)
    requires
        is_one_line(*inst),
    ensures
        r@ == one_line(c_cx(*func, kinds@, structs@, enums@, floats@), *inst),
{
    let ghost cx = c_cx(*func, kinds@, structs@, enums@, floats@);
    match inst {
        Inst::TextBuilderNew { dest } => {
            let mut s = String::new();
            pv(&mut s, *dest);
            s.append(" = (uint64_t)sarif_text_builder_new();");
            s
        },
        Inst::TextBuilderAppend { dest, builder, text } => vlvlvl(
            *dest,
            " = (uint64_t)sarif_text_builder_append((void*)",
            *builder,
            ", (const unsigned char*)",
            *text,
            ");",
        ),
        Inst::TextBuilderAppendCodepoint { dest, builder, codepoint } => vlvlvl(
            *dest,
            " = (uint64_t)sarif_text_builder_append_codepoint((void*)",
            *builder,
            ", (int64_t)",
            *codepoint,
            ");",
        ),
        Inst::TextBuilderFinish { dest, builder } => vlvl(
            *dest,
            " = (uint64_t)sarif_text_builder_finish((void*)",
            *builder,
            ");",
        ),
        Inst::ListLen { dest, list } => vlvl(*dest, " = (uint64_t)sarif_list_len((void*)", *list, ");"),
        Inst::F64FromI32 { dest, value } => vlvl(*dest, " = (double)(int64_t)", *value, ";"),
        Inst::TextLen { dest, text } => vlvl(
            *dest,
            " = sarif_text_len((const unsigned char*)",
            *text,
            ");",
        ),
        Inst::TextConcat { dest, left, right } => vlvlvl(
            *dest,
            " = (uint64_t)sarif_text_concat((const unsigned char*)",
            *left,
            ", (const unsigned char*)",
            *right,
            ");",
        ),
        Inst::TextSlice { dest, text, start, end } => vlvlvlvl(
            *dest,
            " = (uint64_t)sarif_text_slice((const unsigned char*)",
            *text,
            ", (uint64_t)(int64_t)",
            *start,
            ", (uint64_t)(int64_t)",
            *end,
            ");",
        ),
        Inst::TextByte { dest, text, index } => vlvlvl(
            *dest,
            " = (uint64_t)((const unsigned char*)",
            *text,
            ")[8 + (uint64_t)",
            *index,
            "];",
        ),
        Inst::TextCmp { dest, left, right } => vlvlvl(
            *dest,
            " = (uint64_t)(int64_t)sarif_text_cmp((const unsigned char*)",
            *left,
            ", (const unsigned char*)",
            *right,
            ");",
        ),
        Inst::TextEqRange { dest, source, start, end, expected } => vlvlvlvlvl(
            *dest,
            " = sarif_text_eq_range((const unsigned char*)",
            *source,
            ", (int64_t)",
            *start,
            ", (int64_t)",
            *end,
            ", (const unsigned char*)",
            *expected,
            ");",
        ),
        Inst::TextFindByteRange { dest, source, start, end, byte } => vlvlvlvlvl(
            *dest,
            " = (uint64_t)sarif_text_find_byte_range((const unsigned char*)",
            *source,
            ", (int64_t)",
            *start,
            ", (int64_t)",
            *end,
            ", (int64_t)",
            *byte,
            ");",
        ),
        Inst::TextFromF64Fixed { dest, value, digits } => vlvlvl(
            *dest,
            " = (uint64_t)sarif_text_from_f64_fixed(",
            *value,
            ", (int64_t)",
            *digits,
            ");",
        ),
        Inst::ArgCount { dest } => {
            let mut s = String::new();
            pv(&mut s, *dest);
            s.append(" = sarif_arg_count();");
            s
        },
        Inst::AllocPush => String::from_str("sarif_alloc_push();"),
        Inst::AllocPop => String::from_str("sarif_alloc_pop();"),
        Inst::ArgText { dest, index } => vlvl(
            *dest,
            " = (uint64_t)sarif_arg_text((int64_t)",
            *index,
            ");",
        ),
        Inst::StdinText { dest } => {
            let mut s = String::new();
            pv(&mut s, *dest);
            s.append(" = (uint64_t)sarif_stdin_text();");
            s
        },
        Inst::StdoutWrite { text } => {
            let mut s = String::from_str("sarif_stdout_write((const unsigned char*)");
            pv(&mut s, *text);
            s.append(");");
            s
        },
        Inst::ParseI32 { dest, text } => vlvl(
            *dest,
            " = (uint64_t)sarif_parse_i32((const unsigned char*)",
            *text,
            ");",
        ),
        Inst::ParseI32Range { dest, text, start, end } => vlvlvlvl(
            *dest,
            " = (uint64_t)sarif_parse_i32_range((const unsigned char*)",
            *text,
            ", (int64_t)",
            *start,
            ", (int64_t)",
            *end,
            ");",
        ),
        Inst::ParseF64 { dest, text } => vlvl(
            *dest,
            " = sarif_parse_f64((const unsigned char*)",
            *text,
            ");",
        ),
        Inst::LoadParam { dest, index } => {
            let mut s = String::new();
            pv(&mut s, *dest);
            s.append(" = p");
            pn(&mut s, *index as u64);
            s.append(";");
            s
        },
        Inst::LoadLocal { dest, slot } => {
            let mut s = String::new();
            pv(&mut s, *dest);
            match local_var_text(func, *slot) {
                Some(lv) => {
                    s.append(" = ");
                    s.append(lv.as_str());
                    s.append(";");
                },
                None => {
                    s.append(" = 0; /* unknown local slot ");
                    pn(&mut s, slot.0 as u64);
                    s.append(" */");
                },
            }
            s
        },
        Inst::StoreLocal { slot, src } => match local_var_text(func, *slot) {
            Some(lv) => {
                let mut s = lv;
                s.append(" = ");
                pv(&mut s, *src);
                s.append(";");
                s
            },
            None => {
                let mut s = String::from_str("/* unknown local slot ");
                pn(&mut s, slot.0 as u64);
                s.append(" = ");
                pv(&mut s, *src);
                s.append(" */");
                s
            },
        },
        Inst::ConstInt { dest, value } => {
            let mut s = String::new();
            pv(&mut s, *dest);
            s.append(" = ");
            push_i64(&mut s, *value);
            s.append("llu;");
            s
        },
        Inst::ConstF64 { dest, bits } => {
            let mut s = String::new();
            pv(&mut s, *dest);
            s.append(" = ");
            s.append(crate::pretty::lookup_float_text(floats, *bits));
            s.append(";");
            s
        },
        Inst::ConstBool { dest, value } => {
            let mut s = String::new();
            pv(&mut s, *dest);
            s.append(" = ");
            s.append(
                if *value {
                    "1"
                } else {
                    "0"
                },
            );
            s.append("llu;");
            s
        },
        Inst::Field { dest, base, name } => {
            let off = field_offset_for(kinds, structs, *base, name.as_str());
            let mut s = String::new();
            pv(&mut s, *dest);
            if is_f64(dest, kinds) {
                s.append(" = sarif_load_f64((const unsigned char*)");
            } else {
                s.append(" = sarif_load_u64((const unsigned char*)");
            }
            pv(&mut s, *base);
            s.append(", ");
            pn(&mut s, off as u64);
            s.append("u);");
            s
        },
        Inst::EnumTagEq { dest, value, tag } => {
            let mut s = String::new();
            pv(&mut s, *dest);
            if value_enum_payload(kinds, enums, *value) {
                s.append(" = (sarif_load_u64((const unsigned char*)");
                pv(&mut s, *value);
                s.append(", 0u) == ");
            } else {
                s.append(" = (");
                pv(&mut s, *value);
                s.append(" == ");
            }
            push_i64(&mut s, *tag);
            s.append("llu) ? 1 : 0;");
            s
        },
        Inst::EnumPayload { dest, value, .. } => vlvl(
            *dest,
            " = sarif_load_u64((const unsigned char*)",
            *value,
            ", 8u);",
        ),
        Inst::Add { dest, left, right } => binary_text(*dest, *left, *right, " + "),
        Inst::Sub { dest, left, right } => binary_text(*dest, *left, *right, " - "),
        Inst::Mul { dest, left, right } => binary_text(*dest, *left, *right, " * "),
        Inst::Div { dest, left, right } => {
            if is_signed(left, kinds) {
                vlvlvl(*dest, " = (int64_t)", *left, " / (int64_t)", *right, ";")
            } else {
                binary_text(*dest, *left, *right, " / ")
            }
        },
        Inst::Sqrt { dest, value } => vlvl(*dest, " = sqrt(", *value, ");"),
        Inst::And { dest, left, right } => vlvlvl(*dest, " = (", *left, " && ", *right, ") ? 1 : 0;"),
        Inst::Or { dest, left, right } => vlvlvl(*dest, " = (", *left, " || ", *right, ") ? 1 : 0;"),
        Inst::Eq { dest, left, right } => {
            if is_text(left, kinds) {
                vlvlvl(
                    *dest,
                    " = sarif_text_eq((const unsigned char*)",
                    *left,
                    ", (const unsigned char*)",
                    *right,
                    ") ? 1 : 0;",
                )
            } else {
                vlvlvl(*dest, " = (", *left, " == ", *right, ") ? 1 : 0;")
            }
        },
        Inst::Ne { dest, left, right } => {
            if is_text(left, kinds) {
                vlvlvl(
                    *dest,
                    " = sarif_text_eq((const unsigned char*)",
                    *left,
                    ", (const unsigned char*)",
                    *right,
                    ") ? 0 : 1;",
                )
            } else {
                vlvlvl(*dest, " = (", *left, " != ", *right, ") ? 1 : 0;")
            }
        },
        Inst::Lt { dest, left, right } => compare_text(kinds, *dest, *left, *right, " < "),
        Inst::Le { dest, left, right } => compare_text(kinds, *dest, *left, *right, " <= "),
        Inst::Gt { dest, left, right } => compare_text(kinds, *dest, *left, *right, " > "),
        Inst::Ge { dest, left, right } => compare_text(kinds, *dest, *left, *right, " >= "),
        Inst::Call { dest, callee, args } => {
            let name = if text_eq(callee.as_str(), "main") && !text_eq(func.name.as_str(), "main") {
                "sarif_user_main"
            } else {
                callee.as_str()
            };
            let mut c = String::from_str(name);
            c.append("(");
            let a = args_text(args);
            c.append(a.as_str());
            c.append(")");
            assert(c@ == call_expr(cx, callee@, args@));
            let unit = match kinds.get(*dest) {
                Some(k) => matches!(k, CodegenValueKind::Unit),
                None => false,
            };
            if unit {
                c.append(";");
                c
            } else {
                let mut s = String::new();
                pv(&mut s, *dest);
                s.append(" = (uint64_t)");
                s.append(c.as_str());
                s.append(";");
                s
            }
        },
        Inst::Assert { condition, kind } => {
            let mut s = String::from_str("if (!(");
            pv(&mut s, *condition);
            s.append(")) { sarif_fatal_error(\"");
            s.append(
                match kind {
                    ContractKind::Requires => "precondition failed",
                    ContractKind::Ensures => "postcondition failed",
                    ContractKind::Bounds => "bounds check failed",
                },
            );
            s.append("\"); }");
            s
        },
        _ => String::new(),
    }
}

} // verus!

verus! {

/// Appends the items of `bytes[from..to]`.
fn push_byte_items(s: &mut String, bytes: &[u8], from: usize, to: usize)
    requires
        from <= to <= bytes@.len(),
    ensures
        final(s)@ == old(s)@ + byte_items(bytes@.subrange(from as int, to as int)),
{
    let ghost start = s@;
    let mut k: usize = from;
    assert(bytes@.subrange(from as int, from as int) =~= Seq::<u8>::empty());
    while k < to
        invariant
            from <= k <= to <= bytes@.len(),
            start == old(s)@,
            s@ == start + byte_items(bytes@.subrange(from as int, k as int)),
        decreases to - k,
    {
        let ghost before = s@;
        pn(s, bytes[k] as u64);
        s.append("u,");
        let ghost sub = bytes@.subrange(from as int, k + 1);
        assert(sub.drop_last() =~= bytes@.subrange(from as int, k as int));
        assert(sub.last() == bytes@[k as int]);
        assert(s@ =~= start + byte_items(sub));
        k = k + 1;
    }
}

fn emit_const_text(dest: ValueId, value: &String, out: &mut Output) -> (r: Result<(), String>)
    ensures
        r is Ok,
        final(out).indent == old(out).indent,
        final(out).buf@ == old(out).buf@ + const_text_lines(
            old(out).indent as nat,
            dest,
            vstd::utf8::encode_utf8(value@),
        ),
{
    let ghost ind = out.indent as nat;
    let ghost start = out.buf@;
    let bytes = value.as_str().as_bytes();
    let n = bytes.len();
    assert(bytes@ == vstd::utf8::encode_utf8(value@));
    let mut head = String::from_str("static unsigned char _text_");
    pn(&mut head, dest.0 as u64);
    head.append("[] = {");
    let _ = out.line(head.as_str());
    let mut first = String::from_str("    ");
    pn(&mut first, (n % 256) as u64);
    first.append("u, ");
    pn(&mut first, ((n / 256) % 256) as u64);
    first.append("u, 0u, 0u, 0u, 0u, 0u, 0u /* len=");
    pn(&mut first, n as u64);
    first.append(" */,");
    assert(first@ == text_header(bytes@.len()));
    let m = if n < 16 {
        n
    } else {
        16
    };
    push_byte_items(&mut first, bytes, 0, m);
    assert(bytes@.subrange(0, m as int) == row(bytes@));
    let _ = out.line(first.as_str());
    let ghost mid = out.buf@;
    let ghost goal = mid + more_rows(ind, bytes@.subrange(m as int, n as int));
    let mut i: usize = m;
    while i < n
        invariant
            m <= i <= n,
            n == bytes@.len(),
            out.indent as nat == ind,
            out.buf@ + more_rows(ind, bytes@.subrange(i as int, n as int)) == goal,
        decreases n - i,
    {
        let j = if n - i < 16 {
            n
        } else {
            i + 16
        };
        let mut row_text = String::from_str("    ");
        push_byte_items(&mut row_text, bytes, i, j);
        let ghost rest = bytes@.subrange(i as int, n as int);
        assert(rest.subrange(0, min_int(16, rest.len() as int)) =~= bytes@.subrange(i as int, j as int));
        assert(rest.subrange(min_int(16, rest.len() as int), rest.len() as int) =~= bytes@.subrange(
            j as int,
            n as int,
        ));
        let ghost before = out.buf@;
        let _ = out.line(row_text.as_str());
        assert(before + more_rows(ind, rest) =~= out.buf@ + more_rows(
            ind,
            bytes@.subrange(j as int, n as int),
        ));
        i = j;
    }
    assert(bytes@.subrange(n as int, n as int) =~= Seq::<u8>::empty());
    let _ = out.line("};");
    let mut last = String::new();
    pv(&mut last, dest);
    last.append(" = (uint64_t)(unsigned char*)_text_");
    pn(&mut last, dest.0 as u64);
    last.append(";");
    let _ = out.line(last.as_str());
    assert(out.buf@ =~= start + const_text_lines(ind, dest, bytes@));
    Ok(())
}

fn emit_make_record(
    dest: ValueId,
    fields: &Vec<(String, ValueId)>,
    kinds: &KindMap,
    out: &mut Output,
    Ghost(cx): Ghost<CCtx>,
) -> (r: Result<(), String>)
    requires
        cx.kinds == kinds@,
        fields@.len() * 8 <= usize::MAX,
    ensures
        r is Ok,
        final(out).indent == old(out).indent,
        final(out).buf@ == old(out).buf@ + line_at(
            old(out).indent as nat,
            v(dest) + " = (uint64_t)sarif_record_alloc("@ + nat_text(max_nat8(fields@.len()))
                + "u);"@,
        ) + record_stores(cx, old(out).indent as nat, dest, fields@, 0),
{
    let ghost ind = out.indent as nat;
    let ghost start = out.buf@;
    let size = fields.len() * 8;
    let mut s = String::new();
    pv(&mut s, dest);
    s.append(" = (uint64_t)sarif_record_alloc(");
    pn(
        &mut s,
        if size >= 8 {
            size as u64
        } else {
            8
        },
    );
    s.append("u);");
    let _ = out.line(s.as_str());
    let ghost goal = out.buf@ + record_stores(cx, ind, dest, fields@, 0);
    let mut i: usize = 0;
    while i < fields.len()
        invariant
            i <= fields.len(),
            fields@.len() * 8 <= usize::MAX,
            cx.kinds == kinds@,
            out.indent as nat == ind,
            out.buf@ + record_stores(cx, ind, dest, fields@, i as nat) == goal,
        decreases fields.len() - i,
    {
        let fv = fields[i].1;
        let mut t = if is_f64(&fv, kinds) {
            String::from_str("sarif_store_f64((unsigned char*)")
        } else {
            String::from_str("sarif_store_u64((unsigned char*)")
        };
        pv(&mut t, dest);
        t.append(", ");
        pn(&mut t, (i * 8) as u64);
        t.append("u, ");
        pv(&mut t, fv);
        t.append(");");
        let ghost before = out.buf@;
        let _ = out.line(t.as_str());
        assert(before + record_stores(cx, ind, dest, fields@, i as nat) =~= out.buf@ + record_stores(
            cx,
            ind,
            dest,
            fields@,
            (i + 1) as nat,
        ));
        i = i + 1;
    }
    Ok(())
}

fn emit_make_enum(
    dest: ValueId,
    name: &String,
    variant: &String,
    payload: Option<ValueId>,
    enums: &[EnumType],
    out: &mut Output,
    Ghost(cx): Ghost<CCtx>,
) -> (r: Result<(), String>)
    requires
        cx.enums == enums@,
    ensures
        r is Ok,
        final(out).indent == old(out).indent,
        final(out).buf@ == old(out).buf@ + c_inst(
            cx,
            Inst::MakeEnum { dest, name: *name, variant: *variant, payload },
            old(out).indent as nat,
        ),
{
    let tag = match crate::c::enum_variant_tag(enums, name.as_str(), variant.as_str()) {
        Some(t) => t,
        None => 0,
    };
    let has_payload = match find_enum(enums, name.as_str()) {
        Some(e) => enum_has_payload(e),
        None => false,
    };
    if has_payload {
        let mut a = String::new();
        pv(&mut a, dest);
        a.append(" = (uint64_t)sarif_record_alloc(16u);");
        let _ = out.line(a.as_str());
        let mut b = String::from_str("sarif_store_u64((unsigned char*)");
        pv(&mut b, dest);
        b.append(", 0u, ");
        pn(&mut b, tag);
        b.append("llu);");
        let _ = out.line(b.as_str());
        let mut c = String::from_str("sarif_store_u64((unsigned char*)");
        pv(&mut c, dest);
        match payload {
            Some(p) => {
                c.append(", 8u, ");
                pv(&mut c, p);
                c.append(");");
            },
            None => {
                c.append(", 8u, 0llu);");
            },
        }
        let _ = out.line(c.as_str());
    } else {
        let mut a = String::new();
        pv(&mut a, dest);
        a.append(" = ");
        pn(&mut a, tag);
        a.append("llu;");
        let _ = out.line(a.as_str());
    }
    Ok(())
}

fn emit_perform(
    dest: ValueId,
    effect: &String,
    operation: &String,
    args: &Vec<ValueId>,
    out: &mut Output,
    Ghost(cx): Ghost<CCtx>,
) -> (r: Result<(), String>)
    ensures
        r is Ok,
        final(out).indent == old(out).indent,
        final(out).buf@ == old(out).buf@ + c_inst(
            cx,
            Inst::Perform { dest, effect: *effect, operation: *operation, args: *args },
            old(out).indent as nat,
        ),
{
    let ghost ind = out.indent as nat;
    let ghost start = out.buf@;
    let nargs: usize = if args.len() < 4 {
        args.len()
    } else {
        4
    };
    let mut i: usize = 0;
    while i < nargs
        invariant
            i <= nargs <= args.len(),
            out.indent as nat == ind,
            out.buf@ == start + perform_arg_lines(ind, args@, i as nat),
        decreases nargs - i,
    {
        let mut s = String::from_str("uint64_t __perf_arg");
        pn(&mut s, i as u64);
        s.append(" = ");
        pv(&mut s, args[i]);
        s.append(";");
        let _ = out.line(s.as_str());
        assert(out.buf@ =~= start + perform_arg_lines(ind, args@, (i + 1) as nat));
        i = i + 1;
    }
    let mut s = String::new();
    pv(&mut s, dest);
    s.append(" = sarif_perform_effect(\"");
    s.append(effect.as_str());
    s.append("\", \"");
    s.append(operation.as_str());
    s.append("\", ");
    s.append(
        if nargs > 0 {
            "__perf_arg0"
        } else {
            "0"
        },
    );
    s.append(", ");
    s.append(
        if nargs > 1 {
            "__perf_arg1"
        } else {
            "0"
        },
    );
    s.append(", ");
    s.append(
        if nargs > 2 {
            "__perf_arg2"
        } else {
            "0"
        },
    );
    s.append(", ");
    s.append(
        if nargs > 3 {
            "__perf_arg3"
        } else {
            "0"
        },
    );
    s.append(", ");
    pn(&mut s, nargs as u64);
    s.append(");");
    proof {
        reveal_strlit("__perf_arg0");
        reveal_strlit("__perf_arg1");
        reveal_strlit("__perf_arg2");
        reveal_strlit("__perf_arg3");
        reveal_strlit("__perf_arg");
        reveal_strlit("0");
        reveal_strlit("1");
        reveal_strlit("2");
        reveal_strlit("3");
        assert(nat_text(0) == seq!['0']);
        assert(nat_text(1) == seq!['1']);
        assert(nat_text(2) == seq!['2']);
        assert(nat_text(3) == seq!['3']);
        assert(nargs > 0 ==> "__perf_arg0"@ =~= perform_arg_name(nargs as nat, 0));
        assert(nargs > 1 ==> "__perf_arg1"@ =~= perform_arg_name(nargs as nat, 1));
        assert(nargs > 2 ==> "__perf_arg2"@ =~= perform_arg_name(nargs as nat, 2));
        assert(nargs > 3 ==> "__perf_arg3"@ =~= perform_arg_name(nargs as nat, 3));
    }
    let _ = out.line(s.as_str());
    Ok(())
}

} // verus!

verus! {

/// The line assigning a branch or body result to the destination, if there
/// is a result.
fn emit_result_line(dest: ValueId, r: Option<ValueId>, out: &mut Output)
    ensures
        final(out).indent == old(out).indent,
        final(out).buf@ == old(out).buf@ + result_line(old(out).indent as nat, dest, r),
{
    if let Some(x) = r {
        let mut s = String::new();
        pv(&mut s, dest);
        s.append(" = ");
        pv(&mut s, x);
        s.append(";");
        let _ = out.line(s.as_str());
    }
}

/// Emits one instruction as C (see `c_inst`).
#[verifier::spinoff_prover]
#[verifier::rlimit(100)]
fn emit_inst(
    inst: &Inst,
    func: &Function,
    value_kinds: &KindMap,
    structs: &[StructType],
    enums: &[EnumType],
    floats: &crate::pretty::FloatTexts,
    out: &mut Output,
) -> (r: Result<(), String>)
    requires
        c_fits(*inst, old(out).indent as nat),
    ensures
        r is Ok,
        final(out).indent == old(out).indent,
        final(out).buf@ == old(out).buf@ + c_inst(
            c_cx(*func, value_kinds@, structs@, enums@, floats@),
            *inst,
            old(out).indent as nat,
        ),
    decreases *inst, 1nat,
{
    let ghost cx = c_cx(*func, value_kinds@, structs@, enums@, floats@);
    let ghost ind = out.indent as nat;
    let ghost start = out.buf@;
    match inst {
        Inst::ConstText { dest, value } => emit_const_text(*dest, value, out),
        Inst::ListNew { dest, len, value } => emit_list_new(*dest, *len, *value, value_kinds, out, Ghost(cx)),
        Inst::ListGet { dest, list, index } => emit_list_get(*dest, *list, *index, value_kinds, out, Ghost(cx)),
        Inst::ListSet { dest, list, index, value } => emit_list_set(
            *dest,
            *list,
            *index,
            *value,
            value_kinds,
            out,
            Ghost(cx),
        ),
        Inst::MakeRecord { dest, fields, .. } => emit_make_record(*dest, fields, value_kinds, out, Ghost(cx)),
        Inst::MakeEnum { dest, name, variant, payload } => emit_make_enum(
            *dest,
            name,
            variant,
            *payload,
            enums,
            out,
            Ghost(cx),
        ),
        Inst::Perform { dest, effect, operation, args } => emit_perform(
            *dest,
            effect,
            operation,
            args,
            out,
            Ghost(cx),
        ),
        Inst::If { dest, condition, then_insts, then_result, else_insts, else_result } => {
            assert(decreases_to!(*inst => then_insts@));
            assert(decreases_to!(*inst => else_insts@));
            let mut h = String::from_str("if (");
            pv(&mut h, *condition);
            h.append(") {");
            let _ = out.block_open(h.as_str());
            let _ = emit_instructions(then_insts.as_slice(), func, value_kinds, structs, enums, floats, out);
            emit_result_line(*dest, *then_result, out);
            let _ = out.block_close();
            let ghost mid = out.buf@;
            if !else_insts.is_empty() || else_result.is_some() {
                let _ = out.block_open("else {");
                let _ = emit_instructions(else_insts.as_slice(), func, value_kinds, structs, enums, floats, out);
                emit_result_line(*dest, *else_result, out);
                let _ = out.block_close();
            }
            assert(out.buf@ =~= start + c_inst(cx, *inst, ind));
            Ok(())
        },
        Inst::While { condition_insts, condition, body_insts, .. } => {
            assert(decreases_to!(*inst => condition_insts@));
            assert(decreases_to!(*inst => body_insts@));
            let _ = out.block_open("while (1) {");
            let _ = emit_instructions(condition_insts.as_slice(), func, value_kinds, structs, enums, floats, out);
            let mut b = String::from_str("if (!(");
            pv(&mut b, *condition);
            b.append(")) break;");
            let _ = out.line(b.as_str());
            let _ = emit_instructions(body_insts.as_slice(), func, value_kinds, structs, enums, floats, out);
            let _ = out.block_close();
            assert(out.buf@ =~= start + c_inst(cx, *inst, ind));
            Ok(())
        },
        Inst::Repeat { count, index_slot, body_insts, .. } => {
            assert(decreases_to!(*inst => body_insts@));
            let mut h = String::from_str("for (uint64_t _i = 0; _i < (uint64_t)(int64_t)");
            pv(&mut h, *count);
            h.append("; _i++) {");
            let _ = out.block_open(h.as_str());
            if let Some(slot) = index_slot {
                match local_var_text(func, *slot) {
                    Some(lv) => {
                        let mut s = lv;
                        s.append(" = (uint64_t)_i;");
                        let _ = out.line(s.as_str());
                    },
                    None => {
                        let mut s = String::from_str("uint64_t __local_");
                        pn(&mut s, slot.0 as u64);
                        s.append(" = (uint64_t)_i;");
                        let _ = out.line(s.as_str());
                    },
                }
            }
            let _ = emit_instructions(body_insts.as_slice(), func, value_kinds, structs, enums, floats, out);
            let _ = out.block_close();
            assert(out.buf@ =~= start + c_inst(cx, *inst, ind));
            Ok(())
        },
        Inst::Handle { dest, body_insts, body_result, .. } => {
            assert(decreases_to!(*inst => body_insts@));
            let _ = emit_instructions(body_insts.as_slice(), func, value_kinds, structs, enums, floats, out);
            emit_result_line(*dest, *body_result, out);
            Ok(())
        },
        _ => {
            let t = one_line_text(inst, func, value_kinds, structs, enums, floats);
            out.line(t.as_str())
        },
    }
}

/// Emits a sequence of instructions, in order (see `c_insts`).
pub fn emit_instructions(
    insts: &[Inst],
    func: &Function,
    value_kinds: &KindMap,
    structs: &[StructType],
    enums: &[EnumType],
    floats: &crate::pretty::FloatTexts,
    out: &mut Output,
) -> (r: Result<(), String>)
    requires
        all_fit(insts@, old(out).indent as nat),
    ensures
        r is Ok,
        final(out).indent == old(out).indent,
        final(out).buf@ == old(out).buf@ + c_insts(
            c_cx(*func, value_kinds@, structs@, enums@, floats@),
            insts@,
            old(out).indent as nat,
        ),
    decreases insts@, 0nat,
{
    let ghost cx = c_cx(*func, value_kinds@, structs@, enums@, floats@);
    let ghost ind = out.indent as nat;
    let ghost start = out.buf@;
    let mut k: usize = 0;
    assert(insts@.subrange(0, 0) =~= Seq::<Inst>::empty());
    proof {
        lemma_all_fit_each(insts@, ind);
    }
    while k < insts.len()
        invariant
            k <= insts.len(),
            out.indent as nat == ind,
            cx == c_cx(*func, value_kinds@, structs@, enums@, floats@),
            forall|i: int| 0 <= i < insts@.len() ==> c_fits(#[trigger] insts@[i], ind),
            out.buf@ == start + c_insts(cx, insts@.subrange(0, k as int), ind),
        decreases insts.len() - k,
    {
        let ghost pre = insts@.subrange(0, k + 1);
        assert(pre.subrange(0, pre.len() - 1) =~= insts@.subrange(0, k as int));
        assert(decreases_to!(insts@ => insts@[k as int]));
        let _ = emit_inst(&insts[k], func, value_kinds, structs, enums, floats, out);
        assert(out.buf@ =~= start + c_insts(cx, pre, ind));
        k = k + 1;
    }
    assert(insts@.subrange(0, insts@.len() as int) =~= insts@);
    Ok(())
}

/// Every instruction of a sequence that fits, fits.
proof fn lemma_all_fit_each(insts: Seq<Inst>, ind: nat)
    requires
        all_fit(insts, ind),
    ensures
        forall|i: int| 0 <= i < insts.len() ==> c_fits(#[trigger] insts[i], ind),
    decreases insts.len(),
{
    if insts.len() > 0 {
        let pre = insts.subrange(0, insts.len() - 1);
        lemma_all_fit_each(pre, ind);
        assert forall|i: int| 0 <= i < insts.len() implies c_fits(#[trigger] insts[i], ind) by {
            if i < insts.len() - 1 {
                assert(insts[i] == pre[i]);
            }
        }
    }
}

} // verus!

verus! {

/// The fixed start of every emitted C file: includes, the effect handler
/// table type, the runtime's declarations and the load/store helpers.
pub open spec fn prelude_lines() -> Seq<Seq<char>> {
    seq![
        "#include <stdint.h>"@,
        "#include <stdlib.h>"@,
        "#include <string.h>"@,
        "#include <math.h>"@,
        ""@,
        "typedef int64_t (*sarif_effect_handler_t)(uint64_t* args, int32_t nargs);"@,
        "struct SarifEffectHandler {"@,
        "    const char* effect;"@,
        "    const char* operation;"@,
        "    sarif_effect_handler_t handler;"@,
        "};"@,
        ""@,
        "extern void* sarif_record_alloc(uint64_t size);"@,
        "extern void* sarif_text_concat(const unsigned char* left, const unsigned char* right);"@,
        "extern uint64_t sarif_text_len(const unsigned char* text);"@,
        "extern int64_t sarif_text_cmp(const unsigned char* left, const unsigned char* right);"@,
        "extern uint64_t sarif_text_eq(const unsigned char* left, const unsigned char* right);"@,
        "extern void* sarif_text_slice(const unsigned char* text, uint64_t start, uint64_t end);"@,
        "extern void* sarif_bytes_slice(const unsigned char* bytes, uint64_t start, uint64_t end);"@,
        "extern uint64_t sarif_bytes_len(const unsigned char* bytes);"@,
        "extern int64_t sarif_bytes_byte(const unsigned char* bytes, uint64_t index);"@,
        "extern void* sarif_bytes_materialize(const unsigned char* bytes);"@,
        "extern int64_t sarif_parse_i32(const unsigned char* text);"@,
        "extern void* sarif_text_from_f64_fixed(double value, int64_t digits);"@,
        "extern void sarif_stdout_write(const unsigned char* text);"@,
        "extern int64_t sarif_perform_effect("@,
        "    const char* effect, const char* operation,"@,
        "    uint64_t arg0, uint64_t arg1, uint64_t arg2, uint64_t arg3,"@,
        "    int32_t nargs);"@,
        "extern uint64_t sarif_arg_count(void);"@,
        "extern void* sarif_arg_text(int64_t index);"@,
        "extern void* sarif_stdin_text(void);"@,
        "extern void* sarif_list_new(int64_t len, uint64_t fill);"@,
        "extern void* sarif_list_push(void* list, int64_t len, uint64_t value);"@,
        "extern uint64_t sarif_list_get(void* list, int64_t index);"@,
        "extern void* sarif_list_set(void* list, int64_t index, uint64_t value);"@,
        "extern int64_t sarif_list_len(void* list);"@,
        "extern uint64_t sarif_text_eq_range(const unsigned char* source, int64_t start, int64_t end, const unsigned char* expected);"@,
        "extern int64_t sarif_text_find_byte_range(const unsigned char* source, int64_t start, int64_t end, int64_t byte);"@,
        "extern int64_t sarif_text_line_end(const unsigned char* source, int64_t start);"@,
        "extern int64_t sarif_text_next_line(const unsigned char* source, int64_t start);"@,
        "extern int64_t sarif_text_next_field(const unsigned char* source, int64_t start, int64_t end, int64_t byte);"@,
        "extern uint64_t sarif_file_open(const unsigned char* path, const unsigned char* mode);"@,
        "extern void sarif_file_close(uint64_t handle);"@,
        "extern uint64_t sarif_file_read(uint64_t handle, int64_t len);"@,
        "extern uint64_t sarif_file_read_to_end(uint64_t handle);"@,
        "extern int64_t sarif_file_write(uint64_t handle, const unsigned char* data);"@,
        "extern int64_t sarif_file_seek(uint64_t handle, int64_t offset, int64_t whence);"@,
        "extern int64_t sarif_file_size(uint64_t handle);"@,
        "extern int64_t sarif_file_exists(const unsigned char* path);"@,
        "extern int64_t sarif_file_remove(const unsigned char* path);"@,
        "extern int64_t sarif_file_is_valid(uint64_t handle);"@,
        "extern uint64_t sarif_file_mmap(const unsigned char* path);"@,
        "extern void* sarif_bytes_to_text(const unsigned char* bytes);"@,
        "extern void* sarif_list_sort_text(void* list, int64_t len);"@,
        "extern void* sarif_list_sort_by_text_field(void* list, int64_t len, int64_t offset);"@,
        "extern void* sarif_text_builder_new(void);"@,
        "extern void* sarif_text_builder_append(void* builder, const unsigned char* text);"@,
        "extern void* sarif_text_builder_append_codepoint(void* builder, int64_t codepoint);"@,
        "extern void* sarif_text_builder_append_ascii(void* builder, int64_t byte);"@,
        "extern void* sarif_text_builder_append_slice(void* builder, const unsigned char* text, int64_t start, int64_t end);"@,
        "extern void* sarif_text_builder_append_i32(void* builder, int64_t value);"@,
        "extern void* sarif_text_builder_finish(void* builder);"@,
        "extern void* sarif_stdout_write_builder(void* builder);"@,
        "extern void* sarif_text_index_new(void);"@,
        "extern void* sarif_text_intern(const unsigned char* text);"@,
        "extern void* sarif_text_index_set(void* index, uint64_t key, int64_t value);"@,
        "extern int64_t sarif_text_index_get(void* index, uint64_t key);"@,
        "extern int sarif_text_index_contains(void* index, uint64_t key);"@,
        "extern int64_t sarif_text_index_get_or_insert(void* index, uint64_t key, int64_t next);"@,
        "extern void* sarif_text_index_keys(void* index);"@,
        "extern double sarif_parse_f64(const unsigned char* text);"@,
        "extern int64_t sarif_parse_i32_range(const unsigned char* text, int64_t start, int64_t end);"@,
        "extern void sarif_alloc_push(void);"@,
        "extern void sarif_alloc_pop(void);"@,
        "extern double sarif_f64_from_i32(int64_t value);"@,
        ""@,
        "static inline uint64_t sarif_load_u64(const unsigned char* base, uint64_t offset) {"@,
        "    uint64_t value;"@,
        "    memcpy(&value, base + offset, sizeof(uint64_t));"@,
        "    return value;"@,
        "}"@,
        "static inline void sarif_store_u64(unsigned char* base, uint64_t offset, uint64_t value) {"@,
        "    memcpy(base + offset, &value, sizeof(uint64_t));"@,
        "}"@,
        "static inline double sarif_load_f64(const unsigned char* base, uint64_t offset) {"@,
        "    double value;"@,
        "    memcpy(&value, base + offset, sizeof(double));"@,
        "    return value;"@,
        "}"@,
        "static inline void sarif_store_f64(unsigned char* base, uint64_t offset, double value) {"@,
        "    memcpy(base + offset, &value, sizeof(double));"@,
        "}"@,
        ""@
    ]
}

/// The text of lines at the outermost level.
pub open spec fn lines_text(lines: Seq<Seq<char>>) -> Seq<char>
    decreases lines.len(),
{
    if lines.len() == 0 {
        Seq::empty()
    } else {
        lines_text(lines.drop_last()) + line_at(0, lines.last())
    }
}

fn prelude() -> (r: Vec<&'static str>)
    ensures
        r@.map_values(|s: &str| s@) == prelude_lines(),
{
    let r = vec![
        "#include <stdint.h>",
        "#include <stdlib.h>",
        "#include <string.h>",
        "#include <math.h>",
        "",
        "typedef int64_t (*sarif_effect_handler_t)(uint64_t* args, int32_t nargs);",
        "struct SarifEffectHandler {",
        "    const char* effect;",
        "    const char* operation;",
        "    sarif_effect_handler_t handler;",
        "};",
        "",
        "extern void* sarif_record_alloc(uint64_t size);",
        "extern void* sarif_text_concat(const unsigned char* left, const unsigned char* right);",
        "extern uint64_t sarif_text_len(const unsigned char* text);",
        "extern int64_t sarif_text_cmp(const unsigned char* left, const unsigned char* right);",
        "extern uint64_t sarif_text_eq(const unsigned char* left, const unsigned char* right);",
        "extern void* sarif_text_slice(const unsigned char* text, uint64_t start, uint64_t end);",
        "extern void* sarif_bytes_slice(const unsigned char* bytes, uint64_t start, uint64_t end);",
        "extern uint64_t sarif_bytes_len(const unsigned char* bytes);",
        "extern int64_t sarif_bytes_byte(const unsigned char* bytes, uint64_t index);",
        "extern void* sarif_bytes_materialize(const unsigned char* bytes);",
        "extern int64_t sarif_parse_i32(const unsigned char* text);",
        "extern void* sarif_text_from_f64_fixed(double value, int64_t digits);",
        "extern void sarif_stdout_write(const unsigned char* text);",
        "extern int64_t sarif_perform_effect(",
        "    const char* effect, const char* operation,",
        "    uint64_t arg0, uint64_t arg1, uint64_t arg2, uint64_t arg3,",
        "    int32_t nargs);",
        "extern uint64_t sarif_arg_count(void);",
        "extern void* sarif_arg_text(int64_t index);",
        "extern void* sarif_stdin_text(void);",
        "extern void* sarif_list_new(int64_t len, uint64_t fill);",
        "extern void* sarif_list_push(void* list, int64_t len, uint64_t value);",
        "extern uint64_t sarif_list_get(void* list, int64_t index);",
        "extern void* sarif_list_set(void* list, int64_t index, uint64_t value);",
        "extern int64_t sarif_list_len(void* list);",
        "extern uint64_t sarif_text_eq_range(const unsigned char* source, int64_t start, int64_t end, const unsigned char* expected);",
        "extern int64_t sarif_text_find_byte_range(const unsigned char* source, int64_t start, int64_t end, int64_t byte);",
        "extern int64_t sarif_text_line_end(const unsigned char* source, int64_t start);",
        "extern int64_t sarif_text_next_line(const unsigned char* source, int64_t start);",
        "extern int64_t sarif_text_next_field(const unsigned char* source, int64_t start, int64_t end, int64_t byte);",
        "extern uint64_t sarif_file_open(const unsigned char* path, const unsigned char* mode);",
        "extern void sarif_file_close(uint64_t handle);",
        "extern uint64_t sarif_file_read(uint64_t handle, int64_t len);",
        "extern uint64_t sarif_file_read_to_end(uint64_t handle);",
        "extern int64_t sarif_file_write(uint64_t handle, const unsigned char* data);",
        "extern int64_t sarif_file_seek(uint64_t handle, int64_t offset, int64_t whence);",
        "extern int64_t sarif_file_size(uint64_t handle);",
        "extern int64_t sarif_file_exists(const unsigned char* path);",
        "extern int64_t sarif_file_remove(const unsigned char* path);",
        "extern int64_t sarif_file_is_valid(uint64_t handle);",
        "extern uint64_t sarif_file_mmap(const unsigned char* path);",
        "extern void* sarif_bytes_to_text(const unsigned char* bytes);",
        "extern void* sarif_list_sort_text(void* list, int64_t len);",
        "extern void* sarif_list_sort_by_text_field(void* list, int64_t len, int64_t offset);",
        "extern void* sarif_text_builder_new(void);",
        "extern void* sarif_text_builder_append(void* builder, const unsigned char* text);",
        "extern void* sarif_text_builder_append_codepoint(void* builder, int64_t codepoint);",
        "extern void* sarif_text_builder_append_ascii(void* builder, int64_t byte);",
        "extern void* sarif_text_builder_append_slice(void* builder, const unsigned char* text, int64_t start, int64_t end);",
        "extern void* sarif_text_builder_append_i32(void* builder, int64_t value);",
        "extern void* sarif_text_builder_finish(void* builder);",
        "extern void* sarif_stdout_write_builder(void* builder);",
        "extern void* sarif_text_index_new(void);",
        "extern void* sarif_text_intern(const unsigned char* text);",
        "extern void* sarif_text_index_set(void* index, uint64_t key, int64_t value);",
        "extern int64_t sarif_text_index_get(void* index, uint64_t key);",
        "extern int sarif_text_index_contains(void* index, uint64_t key);",
        "extern int64_t sarif_text_index_get_or_insert(void* index, uint64_t key, int64_t next);",
        "extern void* sarif_text_index_keys(void* index);",
        "extern double sarif_parse_f64(const unsigned char* text);",
        "extern int64_t sarif_parse_i32_range(const unsigned char* text, int64_t start, int64_t end);",
        "extern void sarif_alloc_push(void);",
        "extern void sarif_alloc_pop(void);",
        "extern double sarif_f64_from_i32(int64_t value);",
        "",
        "static inline uint64_t sarif_load_u64(const unsigned char* base, uint64_t offset) {",
        "    uint64_t value;",
        "    memcpy(&value, base + offset, sizeof(uint64_t));",
        "    return value;",
        "}",
        "static inline void sarif_store_u64(unsigned char* base, uint64_t offset, uint64_t value) {",
        "    memcpy(base + offset, &value, sizeof(uint64_t));",
        "}",
        "static inline double sarif_load_f64(const unsigned char* base, uint64_t offset) {",
        "    double value;",
        "    memcpy(&value, base + offset, sizeof(double));",
        "    return value;",
        "}",
        "static inline void sarif_store_f64(unsigned char* base, uint64_t offset, double value) {",
        "    memcpy(base + offset, &value, sizeof(double));",
        "}",
        ""
    ];
    assert(r@.map_values(|s: &str| s@) =~= prelude_lines());
    r
}

/// Emits the prelude.
fn emit_prelude(out: &mut Output)
    requires
        old(out).indent == 0,
    ensures
        final(out).indent == 0,
        final(out).buf@ == old(out).buf@ + lines_text(prelude_lines()),
{
    let lines = prelude();
    let ghost views = lines@.map_values(|s: &str| s@);
    let ghost start = out.buf@;
    let mut i: usize = 0;
    assert(views.take(0) =~= Seq::<Seq<char>>::empty());
    while i < lines.len()
        invariant
            i <= lines.len(),
            views == lines@.map_values(|s: &str| s@),
            out.indent == 0,
            out.buf@ == start + lines_text(views.take(i as int)),
        decreases lines.len() - i,
    {
        let _ = out.line(lines[i]);
        assert(views.take(i + 1).drop_last() =~= views.take(i as int));
        assert(out.buf@ =~= start + lines_text(views.take(i + 1)));
        i = i + 1;
    }
    assert(views.take(lines.len() as int) =~= views);
}

} // verus!

verus! {

pub open spec fn opt_string_view(o: Option<String>) -> Option<Seq<char>> {
    match o {
        Some(s) => Some(s@),
        None => None,
    }
}

/// `T0 p0, T1 p1, ...` for the parameters.
pub open spec fn params_sig(params: Seq<Param>) -> Seq<char>
    decreases params.len(),
{
    if params.len() == 0 {
        Seq::empty()
    } else {
        params_sig(params.drop_last()) + (if params.len() > 1 {
            ", "@
        } else {
            Seq::empty()
        }) + c_type_name(Some(params.last().ty@)) + " p"@ + nat_text((params.len() - 1) as nat)
    }
}

/// The parameter list of a C signature: `void` when there is none.
pub open spec fn params_or_void(params: Seq<Param>) -> Seq<char> {
    if params.len() == 0 {
        "void"@
    } else {
        params_sig(params)
    }
}

/// The text of a forward declaration (its own newline included; the line
/// adds another).
pub open spec fn forward_decl_text(f: Function) -> Seq<char> {
    c_type_name(opt_string_view(f.return_type)) + " "@ + f.name@ + "("@ + params_or_void(f.params@)
        + ");\n"@
}

pub open spec fn extern_decl_text(x: ExternFunction) -> Seq<char> {
    "extern "@ + c_type_name(opt_string_view(x.return_type)) + " "@ + x.name@ + "("@
        + params_or_void(x.params@) + ");\n"@
}

fn params_text(params: &Vec<Param>) -> (r: String)
    ensures
        r@ == params_or_void(params@),
{
    if params.len() == 0 {
        return String::from_str("void");
    }
    let mut s = String::new();
    let mut i: usize = 0;
    assert(params@.take(0) =~= Seq::<Param>::empty());
    while i < params.len()
        invariant
            i <= params.len(),
            s@ == params_sig(params@.take(i as int)),
        decreases params.len() - i,
    {
        if i > 0 {
            s.append(", ");
        }
        let tn = crate::c::func_type_name(Some(params[i].ty.as_str()));
        s.append(tn);
        s.append(" p");
        pn(&mut s, i as u64);
        let ghost t = params@.take(i + 1);
        assert(t.drop_last() =~= params@.take(i as int));
        assert(t.last() == params@[i as int]);
        i = i + 1;
    }
    assert(params@.take(params.len() as int) =~= params@);
    s
}

fn ret_type_opt(t: &Option<String>) -> (r: Option<&str>)
    ensures
        crate::c::opt_str_view(r) == opt_string_view(*t),
{
    match t {
        Some(s) => Some(s.as_str()),
        None => None,
    }
}

pub fn emit_function_forward_decl(func: &Function, out: &mut Output) -> (r: Result<(), String>)
    ensures
        r is Ok,
        final(out).indent == old(out).indent,
        final(out).buf@ == old(out).buf@ + line_at(old(out).indent as nat, forward_decl_text(*func)),
{
    let ret = crate::c::func_type_name(ret_type_opt(&func.return_type));
    let mut sig = String::from_str(ret);
    sig.append(" ");
    sig.append(func.name.as_str());
    sig.append("(");
    let p = params_text(&func.params);
    sig.append(p.as_str());
    sig.append(");\n");
    out.line(sig.as_str())
}

fn emit_extern_decl(x: &ExternFunction, out: &mut Output) -> (r: Result<(), String>)
    ensures
        r is Ok,
        final(out).indent == old(out).indent,
        final(out).buf@ == old(out).buf@ + line_at(old(out).indent as nat, extern_decl_text(*x)),
{
    let ret = crate::c::func_type_name(ret_type_opt(&x.return_type));
    let mut sig = String::from_str("extern ");
    sig.append(ret);
    sig.append(" ");
    sig.append(x.name.as_str());
    sig.append("(");
    let p = params_text(&x.params);
    sig.append(p.as_str());
    sig.append(");\n");
    out.line(sig.as_str())
}

/// The declaration of value `i`: none for unit values, `double` for floats,
/// `uint64_t` otherwise (also for values without a kind).
pub open spec fn value_decl(kinds: Map<u32, KindView>, i: nat, ind: nat) -> Seq<char> {
    match kind_of(kinds, ValueId(i as u32)) {
        Some(KindView::Unit) => Seq::empty(),
        Some(KindView::F64) => line_at(ind, "double v"@ + nat_text(i) + ";"@),
        _ => line_at(ind, "uint64_t v"@ + nat_text(i) + ";"@),
    }
}

pub open spec fn value_decls(kinds: Map<u32, KindView>, n: nat, ind: nat) -> Seq<char>
    decreases n,
{
    if n == 0 {
        Seq::empty()
    } else {
        value_decls(kinds, (n - 1) as nat, ind) + value_decl(kinds, (n - 1) as nat, ind)
    }
}

pub open spec fn local_decls(locals: Seq<MutableLocal>, ind: nat) -> Seq<char>
    decreases locals.len(),
{
    if locals.len() == 0 {
        Seq::empty()
    } else {
        local_decls(locals.drop_last(), ind) + line_at(
            ind,
            c_type_name(Some(locals.last().ty@)) + " "@ + local_var(locals.last().ty@, locals.last().slot)
                + ";"@,
        )
    }
}

fn emit_value_decls(kinds: &KindMap, n: u32, out: &mut Output)
    ensures
        final(out).indent == old(out).indent,
        final(out).buf@ == old(out).buf@ + value_decls(kinds@, n as nat, old(out).indent as nat),
{
    let ghost ind = out.indent as nat;
    let ghost start = out.buf@;
    let mut i: u32 = 0;
    while i < n
        invariant
            i <= n,
            out.indent as nat == ind,
            out.buf@ == start + value_decls(kinds@, i as nat, ind),
        decreases n - i,
    {
        let id = ValueId(i);
        let (skip, float) = match kinds.get(id) {
            Some(k) => (matches!(k, CodegenValueKind::Unit), matches!(k, CodegenValueKind::F64)),
            None => (false, false),
        };
        if !skip {
            let mut s = String::from_str(
                if float {
                    "double v"
                } else {
                    "uint64_t v"
                },
            );
            pn(&mut s, i as u64);
            s.append(";");
            let _ = out.line(s.as_str());
        }
        assert(ValueId((i as nat) as u32) == id);
        assert(out.buf@ =~= start + value_decls(kinds@, (i + 1) as nat, ind));
        i = i + 1;
    }
}

fn emit_local_decls(locals: &Vec<MutableLocal>, out: &mut Output)
    ensures
        final(out).indent == old(out).indent,
        final(out).buf@ == old(out).buf@ + local_decls(locals@, old(out).indent as nat),
{
    let ghost ind = out.indent as nat;
    let ghost start = out.buf@;
    let mut i: usize = 0;
    assert(locals@.take(0) =~= Seq::<MutableLocal>::empty());
    while i < locals.len()
        invariant
            i <= locals.len(),
            out.indent as nat == ind,
            out.buf@ == start + local_decls(locals@.take(i as int), ind),
        decreases locals.len() - i,
    {
        let local = &locals[i];
        let mut s = String::from_str(crate::c::func_type_name(Some(local.ty.as_str())));
        s.append(" ");
        let sn = safe_local_name(local.ty.as_str());
        s.append(sn.as_str());
        s.append("_local_");
        pn(&mut s, local.slot.0 as u64);
        s.append(";");
        let _ = out.line(s.as_str());
        let ghost t = locals@.take(i + 1);
        assert(t.drop_last() =~= locals@.take(i as int));
        assert(t.last() == locals@[i as int]);
        assert(out.buf@ =~= start + local_decls(t, ind));
        i = i + 1;
    }
    assert(locals@.take(locals.len() as int) =~= locals@);
}

pub open spec fn return_line(f: Function, ind: nat) -> Seq<char> {
    match f.result {
        Some(r) => line_at(ind, "return "@ + v(r) + ";"@),
        None => Seq::empty(),
    }
}

/// The declarations, instructions and return of a function body at level 1.
pub open spec fn body_text(cx: CCtx, f: Function) -> Seq<char> {
    value_decls(cx.kinds, insts_bound(f.instructions@), 1) + local_decls(f.mutable_locals@, 1)
        + c_insts(cx, f.instructions@, 1) + return_line(f, 1)
}

/// A whole C function definition, followed by a blank line.
pub open spec fn function_text(cx: CCtx, f: Function) -> Seq<char> {
    line_at(
        0,
        c_type_name(opt_string_view(f.return_type)) + " "@ + f.name@ + "("@ + params_or_void(
            f.params@,
        ) + ") {"@,
    ) + body_text(cx, f) + line_at(0, "}"@) + line_at(0, Seq::empty())
}

/// What a function needs of the machine to be emitted: its value ids and
/// nesting fit 32-bit counters and its records fit in memory.
pub open spec fn function_fits(f: Function) -> bool {
    insts_bound(f.instructions@) <= u32::MAX && all_fit(f.instructions@, 1)
}

fn emit_body(
    func: &Function,
    value_kinds: &KindMap,
    structs: &[StructType],
    enums: &[EnumType],
    floats: &crate::pretty::FloatTexts,
    out: &mut Output,
)
    requires
        old(out).indent == 1,
        function_fits(*func),
    ensures
        final(out).indent == 1,
        final(out).buf@ == old(out).buf@ + body_text(
            c_cx(*func, value_kinds@, structs@, enums@, floats@),
            *func,
        ),
{
    let ghost start = out.buf@;
    let n = count_instructions(func);
    emit_value_decls(value_kinds, n, out);
    emit_local_decls(&func.mutable_locals, out);
    let _ = emit_instructions(func.instructions.as_slice(), func, value_kinds, structs, enums, floats, out);
    if let Some(result) = &func.result {
        let mut s = String::from_str("return ");
        pv(&mut s, *result);
        s.append(";");
        let _ = out.line(s.as_str());
    }
    assert(out.buf@ =~= start + body_text(c_cx(*func, value_kinds@, structs@, enums@, floats@), *func));
}

pub fn emit_function(
    func: &Function,
    value_kinds: &KindMap,
    structs: &[StructType],
    enums: &[EnumType],
    floats: &crate::pretty::FloatTexts,
    out: &mut Output,
) -> (r: Result<(), String>)
    requires
        old(out).indent == 0,
        function_fits(*func),
    ensures
        r is Ok,
        final(out).indent == 0,
        final(out).buf@ == old(out).buf@ + function_text(
            c_cx(*func, value_kinds@, structs@, enums@, floats@),
            *func,
        ),
{
    let ghost start = out.buf@;
    let ret = crate::c::func_type_name(ret_type_opt(&func.return_type));
    let mut sig = String::from_str(ret);
    sig.append(" ");
    sig.append(func.name.as_str());
    sig.append("(");
    let p = params_text(&func.params);
    sig.append(p.as_str());
    sig.append(") {");
    let _ = out.block_open(sig.as_str());
    emit_body(func, value_kinds, structs, enums, floats, out);
    let _ = out.block_close();
    let _ = out.line("");
    proof {
        reveal_strlit("");
    }
    assert(out.buf@ =~= start + function_text(c_cx(*func, value_kinds@, structs@, enums@, floats@), *func));
    Ok(())
}

/// The C return type of the wrapped user `main`.
pub open spec fn main_ret_type(t: Option<Seq<char>>) -> Seq<char> {
    match t {
        Some(s) => if s == "I32"@ {
            "int32_t"@
        } else if s == "Bool"@ {
            "uint32_t"@
        } else if s == "Text"@ || s == "Bytes"@ {
            "uintptr_t"@
        } else if s == "F64"@ {
            "double"@
        } else {
            "void"@
        },
        None => "void"@,
    }
}

/// The user `main`, renamed so that the runtime's own `main` can call it.
pub open spec fn main_text(cx: CCtx, f: Function) -> Seq<char> {
    line_at(
        0,
        main_ret_type(opt_string_view(f.return_type)) + (if f.params@.len() == 0 {
            " sarif_user_main(void)"@
        } else {
            " sarif_user_main(uint64_t p0)"@
        }) + " {"@,
    ) + body_text(cx, f) + line_at(0, "}"@)
}

pub fn emit_main_wrapper(
    main: &Function,
    value_kinds: &KindMap,
    structs: &[StructType],
    enums: &[EnumType],
    floats: &crate::pretty::FloatTexts,
    out: &mut Output,
) -> (r: Result<(), String>)
    requires
        old(out).indent == 0,
        function_fits(*main),
    ensures
        r is Ok,
        final(out).indent == 0,
        final(out).buf@ == old(out).buf@ + main_text(
            c_cx(*main, value_kinds@, structs@, enums@, floats@),
            *main,
        ),
{
    let ghost start = out.buf@;
    let ret = match &main.return_type {
        Some(t) => {
            if text_eq(t.as_str(), "I32") {
                "int32_t"
            } else if text_eq(t.as_str(), "Bool") {
                "uint32_t"
            } else if text_eq(t.as_str(), "Text") || text_eq(t.as_str(), "Bytes") {
                "uintptr_t"
            } else if text_eq(t.as_str(), "F64") {
                "double"
            } else {
                "void"
            }
        },
        None => "void",
    };
    let mut sig = String::from_str(ret);
    if main.params.len() == 0 {
        sig.append(" sarif_user_main(void)");
    } else {
        sig.append(" sarif_user_main(uint64_t p0)");
    }
    sig.append(" {");
    let _ = out.block_open(sig.as_str());
    emit_body(main, value_kinds, structs, enums, floats, out);
    out.indent = out.indent - 1;
    let _ = out.line("}");
    assert(out.buf@ =~= start + main_text(c_cx(*main, value_kinds@, structs@, enums@, floats@), *main));
    Ok(())
}

} // verus!

verus! {

fn emit_list_new(dest: ValueId, len: ValueId, value: ValueId, value_kinds: &KindMap, out: &mut Output, Ghost(cx): Ghost<CCtx>) -> (r: Result<(), String>)
    requires
        cx.kinds == value_kinds@,
        old(out).indent < u32::MAX,
    ensures
        r is Ok,
        final(out).indent == old(out).indent,
        final(out).buf@ == old(out).buf@ + c_inst(cx, Inst::ListNew { dest, len, value }, old(out).indent as nat),
{
    if is_f64(&value, value_kinds) {
        let _ = out.line("{");
        out.indent = out.indent + 1;
        let _ = out.line("uint64_t _tmp;");
        let a = vlvl(dest, " = (uint64_t)sarif_list_new((int64_t)", len, ", _tmp);");
        let mut m = String::from_str("memcpy(&_tmp, &");
        pv(&mut m, value);
        m.append(", sizeof(double));");
        let _ = out.line(m.as_str());
        let _ = out.line(a.as_str());
        out.indent = out.indent - 1;
        let _ = out.line("}");
    } else {
        let a = vlvlvl(
            dest,
            " = (uint64_t)sarif_list_new((int64_t)",
            len,
            ", (uint64_t)",
            value,
            ");",
        );
        let _ = out.line(a.as_str());
    }
    Ok(())
}

fn emit_list_get(dest: ValueId, list: ValueId, index: ValueId, value_kinds: &KindMap, out: &mut Output, Ghost(cx): Ghost<CCtx>) -> (r: Result<(), String>)
    requires
        cx.kinds == value_kinds@,
        old(out).indent < u32::MAX,
    ensures
        r is Ok,
        final(out).indent == old(out).indent,
        final(out).buf@ == old(out).buf@ + c_inst(cx, Inst::ListGet { dest, list, index }, old(out).indent as nat),
{
    if is_f64(&dest, value_kinds) {
        let _ = out.line("{");
        out.indent = out.indent + 1;
        let mut a = String::from_str("uint64_t _tmp = sarif_list_get((void*)");
        pv(&mut a, list);
        a.append(", (int64_t)");
        pv(&mut a, index);
        a.append(");");
        let _ = out.line(a.as_str());
        let mut m = String::from_str("memcpy(&");
        pv(&mut m, dest);
        m.append(", &_tmp, sizeof(double));");
        let _ = out.line(m.as_str());
        out.indent = out.indent - 1;
        let _ = out.line("}");
    } else {
        let a = vlvlvl(dest, " = sarif_list_get((void*)", list, ", (int64_t)", index, ");");
        let _ = out.line(a.as_str());
    }
    Ok(())
}

fn emit_list_set(dest: ValueId, list: ValueId, index: ValueId, value: ValueId, value_kinds: &KindMap, out: &mut Output, Ghost(cx): Ghost<CCtx>) -> (r: Result<(), String>)
    requires
        cx.kinds == value_kinds@,
        old(out).indent < u32::MAX,
    ensures
        r is Ok,
        final(out).indent == old(out).indent,
        final(out).buf@ == old(out).buf@ + c_inst(cx, Inst::ListSet { dest, list, index, value }, old(out).indent as nat),
{
    if is_f64(&value, value_kinds) {
        let _ = out.line("{");
        out.indent = out.indent + 1;
        let _ = out.line("uint64_t _tmp;");
        let mut m = String::from_str("memcpy(&_tmp, &");
        pv(&mut m, value);
        m.append(", sizeof(double));");
        let _ = out.line(m.as_str());
        let a = vlvlvl(
            dest,
            " = (uint64_t)sarif_list_set((void*)",
            list,
            ", (int64_t)",
            index,
            ", _tmp);",
        );
        let _ = out.line(a.as_str());
        out.indent = out.indent - 1;
        let _ = out.line("}");
    } else {
        let a = vlvlvlvl(
            dest,
            " = (uint64_t)sarif_list_set((void*)",
            list,
            ", (int64_t)",
            index,
            ", (uint64_t)",
            value,
            ");",
        );
        let _ = out.line(a.as_str());
    }
    Ok(())
}

} // verus!

verus! {

pub open spec fn externs_text(xs: Seq<ExternFunction>) -> Seq<char>
    decreases xs.len(),
{
    if xs.len() == 0 {
        Seq::empty()
    } else {
        externs_text(xs.drop_last()) + line_at(0, extern_decl_text(xs.last()))
    }
}

/// Forward declarations of every function but `main`.
pub open spec fn forward_decls(fs: Seq<Function>) -> Seq<char>
    decreases fs.len(),
{
    if fs.len() == 0 {
        Seq::empty()
    } else {
        forward_decls(fs.drop_last()) + if fs.last().name@ == "main"@ {
            Seq::empty()
        } else {
            line_at(0, forward_decl_text(fs.last()))
        }
    }
}

/// The C kinds of a function's values.
pub open spec fn func_kinds(p: Program, f: Function) -> Map<u32, KindView> {
    c_infer_insts(crate::c::c_env(f, p), f.instructions@, Map::empty())
}

pub open spec fn cx_of(p: Program, f: Function, floats: Seq<(u64, String)>) -> CCtx {
    c_cx(f, func_kinds(p, f), p.structs@, p.enums@, floats)
}

/// The definitions of every function but `main`, in order.
pub open spec fn function_texts(p: Program, fs: Seq<Function>, floats: Seq<(u64, String)>) -> Seq<char>
    decreases fs.len(),
{
    if fs.len() == 0 {
        Seq::empty()
    } else {
        function_texts(p, fs.drop_last(), floats) + if fs.last().name@ == "main"@ {
            Seq::empty()
        } else {
            function_text(cx_of(p, fs.last(), floats), fs.last())
        }
    }
}

/// The wrapped user `main`: the first function named `main`, if any.
pub open spec fn main_part(p: Program, floats: Seq<(u64, String)>) -> Seq<char> {
    match crate::infer::first_function_named(p.functions@, "main"@) {
        Some(m) => main_text(cx_of(p, m, floats), m),
        None => Seq::empty(),
    }
}

/// The complete C source emitted for a program.
pub open spec fn c_program_text(p: Program, floats: Seq<(u64, String)>) -> Seq<char> {
    lines_text(prelude_lines()) + externs_text(p.externs@) + line_at(0, Seq::empty()) + forward_decls(
        p.functions@,
    ) + function_texts(p, p.functions@, floats) + main_part(p, floats) + line_at(
        0,
        "const struct SarifEffectHandler sarif_effect_table[1] = { {0, 0, 0} };"@,
    ) + line_at(0, "const size_t sarif_effect_table_len = 0;"@)
}

/// Every function of the program can be emitted on this machine.
pub open spec fn program_fits(p: Program) -> bool {
    forall|i: int| 0 <= i < p.functions@.len() ==> function_fits(#[trigger] p.functions@[i])
}

proof fn lemma_first_function_in(fs: Seq<Function>, name: Seq<char>)
    ensures
        crate::infer::first_function_named(fs, name) matches Some(f) ==> exists|i: int|
            0 <= i < fs.len() && #[trigger] fs[i] == f,
    decreases fs.len(),
{
    if fs.len() > 0 && fs[0].name@ != name {
        lemma_first_function_in(fs.drop_first(), name);
        if let Some(f) = crate::infer::first_function_named(fs, name) {
            let i = choose|i: int| 0 <= i < fs.drop_first().len() && #[trigger] fs.drop_first()[i] == f;
            assert(fs[i + 1] == f);
        }
    } else if fs.len() > 0 {
        assert(fs[0] == fs[0]);
    }
}

fn emit_externs(xs: &Vec<ExternFunction>, out: &mut Output)
    requires
        old(out).indent == 0,
    ensures
        final(out).indent == 0,
        final(out).buf@ == old(out).buf@ + externs_text(xs@),
{
    let ghost start = out.buf@;
    let mut i: usize = 0;
    assert(xs@.take(0) =~= Seq::<ExternFunction>::empty());
    while i < xs.len()
        invariant
            i <= xs.len(),
            out.indent == 0,
            out.buf@ == start + externs_text(xs@.take(i as int)),
        decreases xs.len() - i,
    {
        let _ = emit_extern_decl(&xs[i], out);
        let ghost t = xs@.take(i + 1);
        assert(t.drop_last() =~= xs@.take(i as int));
        assert(t.last() == xs@[i as int]);
        assert(out.buf@ =~= start + externs_text(t));
        i = i + 1;
    }
    assert(xs@.take(xs.len() as int) =~= xs@);
}

fn emit_forward_decls(fs: &Vec<Function>, out: &mut Output)
    requires
        old(out).indent == 0,
    ensures
        final(out).indent == 0,
        final(out).buf@ == old(out).buf@ + forward_decls(fs@),
{
    let ghost start = out.buf@;
    let mut j: usize = 0;
    assert(fs@.take(0) =~= Seq::<Function>::empty());
    while j < fs.len()
        invariant
            j <= fs.len(),
            out.indent == 0,
            out.buf@ == start + forward_decls(fs@.take(j as int)),
        decreases fs.len() - j,
    {
        let f = &fs[j];
        if !text_eq(f.name.as_str(), "main") {
            let _ = emit_function_forward_decl(f, out);
        }
        let ghost t = fs@.take(j + 1);
        assert(t.drop_last() =~= fs@.take(j as int));
        assert(t.last() == fs@[j as int]);
        assert(out.buf@ =~= start + forward_decls(t));
        j = j + 1;
    }
    assert(fs@.take(fs.len() as int) =~= fs@);
}

fn emit_function_defs(program: &Program, floats: &crate::pretty::FloatTexts, out: &mut Output)
    requires
        old(out).indent == 0,
        program_fits(*program),
    ensures
        final(out).indent == 0,
        final(out).buf@ == old(out).buf@ + function_texts(*program, program.functions@, floats@),
{
    let ghost start = out.buf@;
    let mut k: usize = 0;
    assert(program.functions@.take(0) =~= Seq::<Function>::empty());
    while k < program.functions.len()
        invariant
            k <= program.functions.len(),
            out.indent == 0,
            program_fits(*program),
            out.buf@ == start + function_texts(*program, program.functions@.take(k as int), floats@),
        decreases program.functions.len() - k,
    {
        let f = &program.functions[k];
        if !text_eq(f.name.as_str(), "main") {
            let kinds = match crate::c::infer_value_kinds_for_func(f, program) {
                Ok(m) => m,
                Err(_) => KindMap::new(),
            };
            assert(function_fits(program.functions@[k as int]));
            let _ = emit_function(
                f,
                &kinds,
                program.structs.as_slice(),
                program.enums.as_slice(),
                floats,
                out,
            );
        }
        let ghost t = program.functions@.take(k + 1);
        assert(t.drop_last() =~= program.functions@.take(k as int));
        assert(t.last() == program.functions@[k as int]);
        assert(out.buf@ =~= start + function_texts(*program, t, floats@));
        k = k + 1;
    }
    assert(program.functions@.take(program.functions.len() as int) =~= program.functions@);
}

fn emit_main_part(program: &Program, floats: &crate::pretty::FloatTexts, out: &mut Output)
    requires
        old(out).indent == 0,
        program_fits(*program),
    ensures
        final(out).indent == 0,
        final(out).buf@ == old(out).buf@ + main_part(*program, floats@),
{
    match crate::infer::find_first_function(program.functions.as_slice(), "main") {
        Some(m) => {
            proof {
                lemma_first_function_in(program.functions@, "main"@);
            }
            let kinds = match crate::c::infer_value_kinds_for_func(m, program) {
                Ok(k) => k,
                Err(_) => KindMap::new(),
            };
            let _ = emit_main_wrapper(
                m,
                &kinds,
                program.structs.as_slice(),
                program.enums.as_slice(),
                floats,
                out,
            );
        },
        None => {},
    }
}

/// Translates a program to C. `floats` gives the decimal text of each
/// floating-point constant, by its bits.
pub fn emit_c(program: &Program, floats: &crate::pretty::FloatTexts) -> (r: Result<String, String>)
    requires
        program_fits(*program),
    ensures
        r matches Ok(s) && s@ == c_program_text(*program, floats@),
{
    let mut out = Output::new();
    emit_prelude(&mut out);
    assert(out.buf@ =~= lines_text(prelude_lines()));
    emit_externs(&program.externs, &mut out);
    let _ = out.line("");
    proof {
        reveal_strlit("");
    }
    emit_forward_decls(&program.functions, &mut out);
    emit_function_defs(program, floats, &mut out);
    emit_main_part(program, floats, &mut out);
    let _ = out.line("const struct SarifEffectHandler sarif_effect_table[1] = { {0, 0, 0} };");
    let _ = out.line("const size_t sarif_effect_table_len = 0;");
    Ok(out.buf)
}

/// Lines that apply two different operators to the same operands differ.
proof fn lemma_operator_lines_differ(
    ind: nat,
    pre: Seq<char>,
    op1: Seq<char>,
    op2: Seq<char>,
    post: Seq<char>,
    i: int,
)
    requires
        0 <= i < op1.len(),
        i < op2.len(),
        op1[i] != op2[i],
    ensures
        line_at(ind, pre + op1 + post) != line_at(ind, pre + op2 + post),
{
    crate::text::lemma_texts_differ(pad(ind) + pre, op1, op2, post + "\n"@, post + "\n"@, i);
    assert(line_at(ind, pre + op1 + post) =~= pad(ind) + pre + op1 + (post + "\n"@));
    assert(line_at(ind, pre + op2 + post) =~= pad(ind) + pre + op2 + (post + "\n"@));
}

/// The C line of each arithmetic instruction assigns its destination the
/// two operands combined by that instruction's own operator: `+` for `Add`,
/// `-` for `Sub`, `*` for `Mul`, and `/` for `Div` (on signed 64-bit
/// operands when the left one is an `I32`); so the lines of `Add`, `Sub`,
/// `Mul` and `Div` on the same operands all differ.
pub proof fn lemma_c_arithmetic_lines(cx: CCtx, dest: ValueId, left: ValueId, right: ValueId, ind: nat)
    ensures
        c_inst(cx, Inst::Add { dest, left, right }, ind) == line_at(ind, v(dest) + " = "@ + v(left) + " + "@ + v(right) + ";"@),
        c_inst(cx, Inst::Sub { dest, left, right }, ind) == line_at(ind, v(dest) + " = "@ + v(left) + " - "@ + v(right) + ";"@),
        c_inst(cx, Inst::Mul { dest, left, right }, ind) == line_at(ind, v(dest) + " = "@ + v(left) + " * "@ + v(right) + ";"@),
        !signed(cx, left) ==> c_inst(cx, Inst::Div { dest, left, right }, ind) == line_at(
            ind,
            v(dest) + " = "@ + v(left) + " / "@ + v(right) + ";"@,
        ),
        signed(cx, left) ==> c_inst(cx, Inst::Div { dest, left, right }, ind) == line_at(
            ind,
            v(dest) + " = (int64_t)"@ + v(left) + " / (int64_t)"@ + v(right) + ";"@,
        ),
        c_inst(cx, Inst::Add { dest, left, right }, ind) != c_inst(cx, Inst::Sub { dest, left, right }, ind),
        c_inst(cx, Inst::Add { dest, left, right }, ind) != c_inst(cx, Inst::Mul { dest, left, right }, ind),
        c_inst(cx, Inst::Sub { dest, left, right }, ind) != c_inst(cx, Inst::Mul { dest, left, right }, ind),
        !signed(cx, left) ==> c_inst(cx, Inst::Div { dest, left, right }, ind) != c_inst(
            cx,
            Inst::Add { dest, left, right },
            ind,
        ) && c_inst(cx, Inst::Div { dest, left, right }, ind) != c_inst(cx, Inst::Sub { dest, left, right }, ind)
            && c_inst(cx, Inst::Div { dest, left, right }, ind) != c_inst(cx, Inst::Mul { dest, left, right }, ind),
{
    reveal_strlit(" + ");
    reveal_strlit(" - ");
    reveal_strlit(" * ");
    reveal_strlit(" / ");
    let pre = v(dest) + " = "@ + v(left);
    let post = v(right) + ";"@;
    assert(binary_line(dest, left, right, " + "@) =~= pre + " + "@ + post);
    assert(binary_line(dest, left, right, " - "@) =~= pre + " - "@ + post);
    assert(binary_line(dest, left, right, " * "@) =~= pre + " * "@ + post);
    assert(binary_line(dest, left, right, " / "@) =~= pre + " / "@ + post);
    lemma_operator_lines_differ(ind, pre, " + "@, " - "@, post, 1);
    lemma_operator_lines_differ(ind, pre, " + "@, " * "@, post, 1);
    lemma_operator_lines_differ(ind, pre, " - "@, " * "@, post, 1);
    lemma_operator_lines_differ(ind, pre, " / "@, " + "@, post, 1);
    lemma_operator_lines_differ(ind, pre, " / "@, " - "@, post, 1);
    lemma_operator_lines_differ(ind, pre, " / "@, " * "@, post, 1);
}

/// The C line of each ordering comparison sets its destination to 1 when
/// the operands compare by that instruction's own operator (`<`, `<=`, `>`,
/// `>=`), as signed 64-bit integers when the left one is an `I32`, and to 0
/// otherwise; so the lines of the four comparisons on the same operands all
/// differ.
pub proof fn lemma_c_ordering_lines(cx: CCtx, dest: ValueId, left: ValueId, right: ValueId, ind: nat)
    ensures
        c_inst(cx, Inst::Lt { dest, left, right }, ind) == line_at(ind, compare_line(cx, dest, left, right, " < "@)),
        c_inst(cx, Inst::Le { dest, left, right }, ind) == line_at(ind, compare_line(cx, dest, left, right, " <= "@)),
        c_inst(cx, Inst::Gt { dest, left, right }, ind) == line_at(ind, compare_line(cx, dest, left, right, " > "@)),
        c_inst(cx, Inst::Ge { dest, left, right }, ind) == line_at(ind, compare_line(cx, dest, left, right, " >= "@)),
        !signed(cx, left) ==> compare_line(cx, dest, left, right, " < "@) == v(dest) + " = ("@ + v(left) + " < "@ + v(
            right,
        ) + ") ? 1 : 0;"@,
        signed(cx, left) ==> compare_line(cx, dest, left, right, " < "@) == v(dest) + " = ((int64_t)"@ + v(left)
            + " < "@ + "(int64_t)"@ + v(right) + ") ? 1 : 0;"@,
        c_inst(cx, Inst::Lt { dest, left, right }, ind) != c_inst(cx, Inst::Le { dest, left, right }, ind),
        c_inst(cx, Inst::Lt { dest, left, right }, ind) != c_inst(cx, Inst::Gt { dest, left, right }, ind),
        c_inst(cx, Inst::Lt { dest, left, right }, ind) != c_inst(cx, Inst::Ge { dest, left, right }, ind),
        c_inst(cx, Inst::Le { dest, left, right }, ind) != c_inst(cx, Inst::Gt { dest, left, right }, ind),
        c_inst(cx, Inst::Le { dest, left, right }, ind) != c_inst(cx, Inst::Ge { dest, left, right }, ind),
        c_inst(cx, Inst::Gt { dest, left, right }, ind) != c_inst(cx, Inst::Ge { dest, left, right }, ind),
{
    reveal_strlit(" < ");
    reveal_strlit(" <= ");
    reveal_strlit(" > ");
    reveal_strlit(" >= ");
    let pre = if signed(cx, left) {
        v(dest) + " = ((int64_t)"@ + v(left)
    } else {
        v(dest) + " = ("@ + v(left)
    };
    let post = if signed(cx, left) {
        "(int64_t)"@ + v(right) + ") ? 1 : 0;"@
    } else {
        v(right) + ") ? 1 : 0;"@
    };
    assert(compare_line(cx, dest, left, right, " < "@) =~= pre + " < "@ + post);
    assert(compare_line(cx, dest, left, right, " <= "@) =~= pre + " <= "@ + post);
    assert(compare_line(cx, dest, left, right, " > "@) =~= pre + " > "@ + post);
    assert(compare_line(cx, dest, left, right, " >= "@) =~= pre + " >= "@ + post);
    lemma_operator_lines_differ(ind, pre, " < "@, " <= "@, post, 2);
    lemma_operator_lines_differ(ind, pre, " < "@, " > "@, post, 1);
    lemma_operator_lines_differ(ind, pre, " < "@, " >= "@, post, 1);
    lemma_operator_lines_differ(ind, pre, " <= "@, " > "@, post, 1);
    lemma_operator_lines_differ(ind, pre, " <= "@, " >= "@, post, 1);
    lemma_operator_lines_differ(ind, pre, " > "@, " >= "@, post, 2);
}

/// The C lines of the logic and equality instructions: `And` and `Or` set
/// their destination to 1 when `&&` or `||` of the operands holds, and to 0
/// otherwise; `Eq` and `Ne` compare with `==` and `!=` (texts by
/// `sarif_text_eq`, 1 when equal for `Eq` and 0 when equal for `Ne`); so the
/// lines of `And` and `Or`, and of `Eq` and `Ne`, on the same operands differ.
pub proof fn lemma_c_logic_lines(cx: CCtx, dest: ValueId, left: ValueId, right: ValueId, ind: nat)
    ensures
        c_inst(cx, Inst::And { dest, left, right }, ind) == line_at(
            ind,
            v(dest) + " = ("@ + v(left) + " && "@ + v(right) + ") ? 1 : 0;"@,
        ),
        c_inst(cx, Inst::Or { dest, left, right }, ind) == line_at(
            ind,
            v(dest) + " = ("@ + v(left) + " || "@ + v(right) + ") ? 1 : 0;"@,
        ),
        !texty(cx, left) ==> c_inst(cx, Inst::Eq { dest, left, right }, ind) == line_at(
            ind,
            v(dest) + " = ("@ + v(left) + " == "@ + v(right) + ") ? 1 : 0;"@,
        ),
        !texty(cx, left) ==> c_inst(cx, Inst::Ne { dest, left, right }, ind) == line_at(
            ind,
            v(dest) + " = ("@ + v(left) + " != "@ + v(right) + ") ? 1 : 0;"@,
        ),
        texty(cx, left) ==> c_inst(cx, Inst::Eq { dest, left, right }, ind) == line_at(
            ind,
            v(dest) + " = sarif_text_eq((const unsigned char*)"@ + v(left) + ", (const unsigned char*)"@ + v(right)
                + ") ? 1 : 0;"@,
        ),
        texty(cx, left) ==> c_inst(cx, Inst::Ne { dest, left, right }, ind) == line_at(
            ind,
            v(dest) + " = sarif_text_eq((const unsigned char*)"@ + v(left) + ", (const unsigned char*)"@ + v(right)
                + ") ? 0 : 1;"@,
        ),
        c_inst(cx, Inst::And { dest, left, right }, ind) != c_inst(cx, Inst::Or { dest, left, right }, ind),
        c_inst(cx, Inst::Eq { dest, left, right }, ind) != c_inst(cx, Inst::Ne { dest, left, right }, ind),
{
    reveal_strlit(" && ");
    reveal_strlit(" || ");
    reveal_strlit(" == ");
    reveal_strlit(" != ");
    reveal_strlit(") ? 1 : 0;");
    reveal_strlit(") ? 0 : 1;");
    let pre = v(dest) + " = ("@ + v(left);
    let post = v(right) + ") ? 1 : 0;"@;
    assert(v(dest) + " = ("@ + v(left) + " && "@ + v(right) + ") ? 1 : 0;"@ =~= pre + " && "@ + post);
    assert(v(dest) + " = ("@ + v(left) + " || "@ + v(right) + ") ? 1 : 0;"@ =~= pre + " || "@ + post);
    lemma_operator_lines_differ(ind, pre, " && "@, " || "@, post, 1);
    if texty(cx, left) {
        let tpre = v(dest) + " = sarif_text_eq((const unsigned char*)"@ + v(left) + ", (const unsigned char*)"@ + v(
            right,
        );
        assert(c_inst(cx, Inst::Eq { dest, left, right }, ind) =~= line_at(ind, tpre + ") ? 1 : 0;"@ + Seq::empty()));
        assert(c_inst(cx, Inst::Ne { dest, left, right }, ind) =~= line_at(ind, tpre + ") ? 0 : 1;"@ + Seq::empty()));
        lemma_operator_lines_differ(ind, tpre, ") ? 1 : 0;"@, ") ? 0 : 1;"@, Seq::empty(), 4);
    } else {
        assert(v(dest) + " = ("@ + v(left) + " == "@ + v(right) + ") ? 1 : 0;"@ =~= pre + " == "@ + post);
        assert(v(dest) + " = ("@ + v(left) + " != "@ + v(right) + ") ? 1 : 0;"@ =~= pre + " != "@ + post);
        lemma_operator_lines_differ(ind, pre, " == "@, " != "@, post, 1);
    }
}

} // verus!
