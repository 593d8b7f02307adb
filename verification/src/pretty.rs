//! Human-readable rendering of the IR.
//!
//! Floating-point constants are rendered through a table of texts that the
//! caller supplies (see `FloatTexts`): the printer itself never formats a
//! float.
use vstd::prelude::*;

use vstd::std_specs::iter::IteratorSpec;
use crate::mir::{
    ContractKind, EnumType, Function, HandleArm, Inst, LocalSlotId, MutableLocal, Param, Program,
    StructType, ValueId,
};
use crate::text::{int_text, join_seq, nat_text, push_i64, push_u64};

verus! {

/// Texts for the bit patterns of floating-point constants: the first entry
/// whose bits match gives the text of a constant.
pub type FloatTexts = [(u64, String)];

/// The text that `floats` gives for `bits` (empty when it has none).
pub open spec fn float_text(floats: Seq<(u64, String)>, bits: u64) -> Seq<char>
    decreases floats.len(),
{
    if floats.len() == 0 {
        Seq::empty()
    } else if floats[0].0 == bits {
        floats[0].1@
    } else {
        float_text(floats.drop_first(), bits)
    }
}

/// Looks up the text of a floating-point constant.
pub fn lookup_float_text(floats: &FloatTexts, bits: u64) -> (r: &str)
    ensures
        r@ == float_text(floats@, bits),
{
    let mut i: usize = 0;
    assert(floats@.skip(0) =~= floats@);
    while i < floats.len()
        invariant
            i <= floats.len(),
            float_text(floats@, bits) == float_text(floats@.skip(i as int), bits),
        decreases floats.len() - i,
    {
        if floats[i].0 == bits {
            return floats[i].1.as_str();
        }
        assert(floats@.skip(i as int).drop_first() =~= floats@.skip(i + 1));
        i = i + 1;
    }
    proof {
        reveal_strlit("");
    }
    ""
}

/// The Rust debug rendering of a string: quoted, with escapes.
pub uninterp spec fn spec_debug_text(s: Seq<char>) -> Seq<char>;

/// Renders `s` the way `format!("{:?}", s)` does. `Debug` for `str`
/// escapes line breaks, so the rendering holds no newline.
#[verifier::external_body]
pub(crate) fn debug_text(s: &str) -> (r: String)
    ensures
        r@ == spec_debug_text(s@),
        !r@.contains('\n'),
{
    format!("{:?}", s)
}

pub open spec fn value_text(v: ValueId) -> Seq<char> {
    seq!['%'] + nat_text(v.0 as nat)
}

pub open spec fn slot_text(s: LocalSlotId) -> Seq<char> {
    "slot"@ + nat_text(s.0 as nat)
}

pub open spec fn keyword_text(k: ContractKind) -> Seq<char> {
    match k {
        ContractKind::Requires => "requires"@,
        ContractKind::Ensures => "ensures"@,
        ContractKind::Bounds => "bounds"@,
    }
}

pub open spec fn bool_text(b: bool) -> Seq<char> {
    if b {
        "true"@
    } else {
        "false"@
    }
}

/// `unit` or the rendering of the value.
pub open spec fn result_text(r: Option<ValueId>) -> Seq<char> {
    match r {
        Some(v) => value_text(v),
        None => "unit"@,
    }
}

/// Operands separated by ", ".
pub open spec fn operands_text(ops: Seq<ValueId>) -> Seq<char> {
    join_seq(ops.map_values(|v: ValueId| value_text(v)), ", "@)
}

/// `%dest = name op1, op2, ...` (no space after the name when there is no operand).
pub open spec fn op_text(dest: ValueId, name: Seq<char>, ops: Seq<ValueId>) -> Seq<char> {
    value_text(dest) + " = "@ + name + if ops.len() == 0 {
        Seq::empty()
    } else {
        " "@ + operands_text(ops)
    }
}

/// The text of `s` with every newline followed by `pad`.
pub open spec fn indent_newlines(s: Seq<char>, pad: Seq<char>) -> Seq<char>
    decreases s.len(),
{
    if s.len() == 0 {
        Seq::empty()
    } else {
        indent_newlines(s.drop_last(), pad) + if s.last() == '\n' {
            seq!['\n'] + pad
        } else {
            seq![s.last()]
        }
    }
}

pub open spec fn record_fields_text(fields: Seq<(String, ValueId)>) -> Seq<char> {
    join_seq(fields.map_values(|f: (String, ValueId)| f.0@ + ": "@ + value_text(f.1)), ", "@)
}

pub open spec fn string_list_text(items: Seq<String>) -> Seq<char> {
    join_seq(items.map_values(|s: String| s@), ", "@)
}

/// The printer's rendering of one instruction.
pub open spec fn inst_text(inst: Inst, floats: Seq<(u64, String)>) -> Seq<char>
    decreases inst,
{
    match inst {
        Inst::LoadParam { dest, index } => value_text(dest) + " = param "@ + nat_text(index as nat),
        Inst::LoadLocal { dest, slot } => value_text(dest) + " = load "@ + slot_text(slot),
        Inst::StoreLocal { slot, src } => "store "@ + slot_text(slot) + ", "@ + value_text(src),
        Inst::ConstInt { dest, value } => value_text(dest) + " = int "@ + int_text(value as int),
        Inst::ConstF64 { dest, bits } => value_text(dest) + " = f64 "@ + float_text(floats, bits),
        Inst::ConstBool { dest, value } => value_text(dest) + " = bool "@ + bool_text(value),
        Inst::ConstText { dest, value } => value_text(dest) + " = text "@ + spec_debug_text(
            value@,
        ),
        Inst::TextBuilderNew { dest } => op_text(dest, "text-builder-new"@, seq![]),
        Inst::TextBuilderAppend { dest, builder, text } => op_text(
            dest,
            "text-builder-append"@,
            seq![builder, text],
        ),
        Inst::TextBuilderAppendCodepoint { dest, builder, codepoint } => op_text(
            dest,
            "text-builder-append-codepoint"@,
            seq![builder, codepoint],
        ),
        Inst::TextBuilderFinish { dest, builder } => op_text(
            dest,
            "text-builder-finish"@,
            seq![builder],
        ),
        Inst::ListNew { dest, len, value } => op_text(dest, "list-new"@, seq![len, value]),
        Inst::ListLen { dest, list } => op_text(dest, "list-len"@, seq![list]),
        Inst::ListGet { dest, list, index } => op_text(dest, "list-get"@, seq![list, index]),
        Inst::ListSet { dest, list, index, value } => op_text(
            dest,
            "list-set"@,
            seq![list, index, value],
        ),
        Inst::F64FromI32 { dest, value } => op_text(dest, "f64-from-i32"@, seq![value]),
        Inst::TextLen { dest, text } => op_text(dest, "text-len"@, seq![text]),
        Inst::TextConcat { dest, left, right } => op_text(dest, "text-concat"@, seq![left, right]),
        Inst::TextSlice { dest, text, start, end } => op_text(
            dest,
            "text-slice"@,
            seq![text, start, end],
        ),
        Inst::TextByte { dest, text, index } => op_text(dest, "text-byte"@, seq![text, index]),
        Inst::TextCmp { dest, left, right } => op_text(dest, "text-cmp"@, seq![left, right]),
        Inst::TextEqRange { dest, source, start, end, expected } => op_text(
            dest,
            "text-eq-range"@,
            seq![source, start, end, expected],
        ),
        Inst::TextFindByteRange { dest, source, start, end, byte } => op_text(
            dest,
            "text-find-byte-range"@,
            seq![source, start, end, byte],
        ),
        Inst::TextFromF64Fixed { dest, value, digits } => op_text(
            dest,
            "text-from-f64-fixed"@,
            seq![value, digits],
        ),
        Inst::ArgCount { dest } => op_text(dest, "arg-count"@, seq![]),
        Inst::AllocPush => "alloc-push"@,
        Inst::AllocPop => "alloc-pop"@,
        Inst::ArgText { dest, index } => op_text(dest, "arg-text"@, seq![index]),
        Inst::StdinText { dest } => op_text(dest, "stdin-text"@, seq![]),
        Inst::StdoutWrite { text } => "stdout-write "@ + value_text(text),
        Inst::ParseI32 { dest, text } => op_text(dest, "parse-i32"@, seq![text]),
        Inst::ParseI32Range { dest, text, start, end } => op_text(
            dest,
            "parse-i32-range"@,
            seq![text, start, end],
        ),
        Inst::ParseF64 { dest, text } => op_text(dest, "parse-f64"@, seq![text]),
        Inst::MakeEnum { dest, name, variant, payload } => value_text(dest) + " = enum "@ + name@
            + "."@ + variant@ + match payload {
            Some(p) => "("@ + value_text(p) + ")"@,
            None => Seq::empty(),
        },
        Inst::MakeRecord { dest, name, fields } => value_text(dest) + " = record "@ + name@
            + " { "@ + record_fields_text(fields@) + " }"@,
        Inst::Field { dest, base, name } => value_text(dest) + " = field "@ + value_text(base)
            + ", "@ + name@,
        Inst::EnumTagEq { dest, value, tag } => value_text(dest) + " = enum-tag-eq "@ + value_text(
            value,
        ) + ", "@ + int_text(tag as int),
        Inst::EnumPayload { dest, value, payload_type } => value_text(dest) + " = enum-payload "@
            + value_text(value) + " as "@ + payload_type@,
        Inst::If { dest, condition, then_insts, then_result, else_insts, else_result } =>
            value_text(dest) + " = if "@ + value_text(condition) + " then ["@ + insts_text(
            then_insts@,
            floats,
        ) + "] -> "@ + result_text(then_result) + " else ["@ + insts_text(else_insts@, floats)
            + "] -> "@ + result_text(else_result),
        Inst::While { dest, condition_insts, condition, body_insts } => value_text(dest)
            + " = while ["@ + insts_text(condition_insts@, floats) + "] -> "@ + value_text(
            condition,
        ) + " ["@ + insts_text(body_insts@, floats) + "]"@,
        Inst::Repeat { dest, count, index_slot, body_insts } => value_text(dest) + " = repeat "@
            + value_text(count) + match index_slot {
            Some(slot) => " with "@ + slot_text(slot),
            None => Seq::empty(),
        } + " ["@ + insts_text(body_insts@, floats) + "]"@,
        Inst::Add { dest, left, right } => op_text(dest, "add"@, seq![left, right]),
        Inst::Sub { dest, left, right } => op_text(dest, "sub"@, seq![left, right]),
        Inst::Mul { dest, left, right } => op_text(dest, "mul"@, seq![left, right]),
        Inst::Div { dest, left, right } => op_text(dest, "div"@, seq![left, right]),
        Inst::Sqrt { dest, value } => op_text(dest, "sqrt"@, seq![value]),
        Inst::And { dest, left, right } => op_text(dest, "and"@, seq![left, right]),
        Inst::Or { dest, left, right } => op_text(dest, "or"@, seq![left, right]),
        Inst::Eq { dest, left, right } => op_text(dest, "eq"@, seq![left, right]),
        Inst::Ne { dest, left, right } => op_text(dest, "ne"@, seq![left, right]),
        Inst::Lt { dest, left, right } => op_text(dest, "lt"@, seq![left, right]),
        Inst::Le { dest, left, right } => op_text(dest, "le"@, seq![left, right]),
        Inst::Gt { dest, left, right } => op_text(dest, "gt"@, seq![left, right]),
        Inst::Ge { dest, left, right } => op_text(dest, "ge"@, seq![left, right]),
        Inst::Call { dest, callee, args } => value_text(dest) + " = call "@ + callee@ + "("@
            + operands_text(args@) + ")"@,
        Inst::Assert { condition, kind } => "assert "@ + keyword_text(kind) + " "@ + value_text(
            condition,
        ),
        Inst::Perform { dest, effect, operation, args } => value_text(dest) + " = perform "@
            + effect@ + "."@ + operation@ + "("@ + operands_text(args@) + ")"@,
        Inst::Handle { dest, body_insts, body_result, arms } => value_text(dest)
            + " = handle {\n"@ + block_lines(body_insts@, floats, "  "@) + match body_result {
            Some(r) => "  yield "@ + value_text(r) + "\n"@,
            None => Seq::empty(),
        } + "} with {\n"@ + arms_text(arms@, floats) + "}"@,
    }
}

/// Instructions rendered and joined with "; ".
pub open spec fn insts_text(insts: Seq<Inst>, floats: Seq<(u64, String)>) -> Seq<char>
    decreases insts,
{
    if insts.len() == 0 {
        Seq::empty()
    } else if insts.len() == 1 {
        inst_text(insts[0], floats)
    } else {
        insts_text(insts.subrange(0, insts.len() - 1), floats) + "; "@ + inst_text(
            insts[insts.len() - 1],
            floats,
        )
    }
}

/// One line per instruction: `pad`, the instruction with its own newlines
/// followed by `pad`, and a newline.
pub open spec fn block_lines(insts: Seq<Inst>, floats: Seq<(u64, String)>, pad: Seq<char>) -> Seq<
    char,
>
    decreases insts,
{
    if insts.len() == 0 {
        Seq::empty()
    } else {
        block_lines(insts.subrange(0, insts.len() - 1), floats, pad) + pad + indent_newlines(inst_text(insts[insts.len() - 1], floats), pad) + "\n"@
    }
}

/// The handler arms of a `handle` instruction.
pub open spec fn arms_text(arms: Seq<HandleArm>, floats: Seq<(u64, String)>) -> Seq<char>
    decreases arms,
{
    if arms.len() == 0 {
        Seq::empty()
    } else {
        arms_text(arms.subrange(0, arms.len() - 1), floats) + arm_text(
            arms[arms.len() - 1],
            floats,
        )
    }
}

pub open spec fn arm_text(arm: HandleArm, floats: Seq<(u64, String)>) -> Seq<char>
    decreases arm,
{
    "  "@ + arm.effect@ + "."@ + arm.operation@ + "("@ + string_list_text(arm.params@)
        + ") => {\n"@ + block_lines(arm.body_insts@, floats, "    "@) + match arm.body_result {
        Some(r) => "    yield "@ + value_text(r) + "\n"@,
        None => Seq::empty(),
    } + "  }\n"@
}

} // verus!

verus! {

/// `String::push` appends one character.
pub assume_specification[ String::push ](s: &mut String, ch: char)
    ensures
        final(s)@ == old(s)@.push(ch),
;

/// The joined text grows by one piece (after a separator unless it is the first).
pub proof fn lemma_join_take_step(pieces: Seq<Seq<char>>, sep: Seq<char>, i: int)
    requires
        0 <= i < pieces.len(),
    ensures
        join_seq(pieces.take(i + 1), sep) == join_seq(pieces.take(i), sep) + if i == 0 {
            Seq::<char>::empty()
        } else {
            sep
        } + pieces[i],
{
    assert(pieces.take(i + 1).drop_last() =~= pieces.take(i));
    if i == 0 {
        assert(join_seq(pieces.take(0), sep) =~= Seq::<char>::empty());
        assert(join_seq(pieces.take(1), sep) == pieces[0]);
    }
}

impl ValueId {
    /// `%` followed by the number.
    pub fn render(self) -> (r: String)
        ensures
            r@ == value_text(self),
    {
        let mut s = String::new();
        s.append("%");
        proof {
            reveal_strlit("%");
        }
        push_u64(&mut s, self.0 as u64);
        s
    }
}

impl LocalSlotId {
    /// `slot` followed by the number.
    pub fn render(self) -> (r: String)
        ensures
            r@ == slot_text(self),
    {
        let mut s = String::new();
        s.append("slot");
        push_u64(&mut s, self.0 as u64);
        s
    }
}

impl ContractKind {
    /// The source keyword of the contract clause.
    pub fn keyword(self) -> (r: &'static str)
        ensures
            r@ == keyword_text(self),
    {
        match self {
            ContractKind::Requires => "requires",
            ContractKind::Ensures => "ensures",
            ContractKind::Bounds => "bounds",
        }
    }
}

fn push_value(out: &mut String, v: ValueId)
    ensures
        final(out)@ == old(out)@ + value_text(v),
{
    let r = v.render();
    out.append(r.as_str());
}

fn push_slot(out: &mut String, s: LocalSlotId)
    ensures
        final(out)@ == old(out)@ + slot_text(s),
{
    let r = s.render();
    out.append(r.as_str());
}

fn push_result(out: &mut String, r: Option<ValueId>)
    ensures
        final(out)@ == old(out)@ + result_text(r),
{
    match r {
        Some(v) => push_value(out, v),
        None => out.append("unit"),
    }
}

fn push_operands(out: &mut String, ops: &[ValueId])
    ensures
        final(out)@ == old(out)@ + operands_text(ops@),
{
    let ghost start = out@;
    let ghost pieces = ops@.map_values(|v: ValueId| value_text(v));
    let mut i: usize = 0;
    while i < ops.len()
        invariant
            i <= ops.len(),
            pieces == ops@.map_values(|v: ValueId| value_text(v)),
            out@ == start + join_seq(pieces.take(i as int), ", "@),
        decreases ops.len() - i,
    {
        proof {
            lemma_join_take_step(pieces, ", "@, i as int);
        }
        if i > 0 {
            out.append(", ");
        }
        push_value(out, ops[i]);
        i = i + 1;
    }
    assert(pieces.take(ops.len() as int) =~= pieces);
}

fn op_line(dest: ValueId, name: &str, ops: &[ValueId]) -> (r: String)
    ensures
        r@ == op_text(dest, name@, ops@),
{
    let mut s = dest.render();
    s.append(" = ");
    s.append(name);
    if ops.len() > 0 {
        s.append(" ");
        push_operands(&mut s, ops);
    }
    proof {
        if ops.len() == 0 {
            assert(s@ =~= op_text(dest, name@, ops@));
        }
    }
    s
}

} // verus!

verus! {

fn push_indented(out: &mut String, text: &str, pad: &str)
    ensures
        final(out)@ == old(out)@ + indent_newlines(text@, pad@),
{
    broadcast use vstd::string::group_string_axioms;
    let ghost start = out@;
    for c in iter: text.chars()
        invariant
            iter.seq() == text@,
            out@ == start + indent_newlines(text@.take(iter.index() as int), pad@),
    {
        let ghost i = iter.index();
        if c == '\n' {
            out.push('\n');
            out.append(pad);
        } else {
            out.push(c);
        }
        assert(text@.take(i + 1).drop_last() =~= text@.take(i as int));
    }
    assert(text@.take(text@.len() as int) =~= text@);
}

} // verus!

verus! {

proof fn lemma_insts_text_step(insts: Seq<Inst>, floats: Seq<(u64, String)>, i: int)
    requires
        0 <= i < insts.len(),
    ensures
        insts_text(insts.subrange(0, i + 1), floats) == insts_text(insts.subrange(0, i), floats)
            + if i == 0 {
            Seq::<char>::empty()
        } else {
            "; "@
        } + inst_text(insts[i], floats),
{
    let s = insts.subrange(0, i + 1);
    assert(s.subrange(0, s.len() - 1) =~= insts.subrange(0, i));
    assert(s[s.len() - 1] == insts[i]);
    if i == 0 {
        assert(insts_text(insts.subrange(0, 0), floats) =~= Seq::<char>::empty());
    }
}

proof fn lemma_block_lines_step(insts: Seq<Inst>, floats: Seq<(u64, String)>, pad: Seq<char>, i: int)
    requires
        0 <= i < insts.len(),
    ensures
        block_lines(insts.subrange(0, i + 1), floats, pad) == block_lines(
            insts.subrange(0, i),
            floats,
            pad,
        ) + pad + indent_newlines(inst_text(insts[i], floats), pad) + "\n"@,
{
    let s = insts.subrange(0, i + 1);
    assert(s.subrange(0, s.len() - 1) =~= insts.subrange(0, i));
    assert(s[s.len() - 1] == insts[i]);
}

proof fn lemma_arms_text_step(arms: Seq<HandleArm>, floats: Seq<(u64, String)>, i: int)
    requires
        0 <= i < arms.len(),
    ensures
        arms_text(arms.subrange(0, i + 1), floats) == arms_text(arms.subrange(0, i), floats)
            + arm_text(arms[i], floats),
{
    let s = arms.subrange(0, i + 1);
    assert(s.subrange(0, s.len() - 1) =~= arms.subrange(0, i));
    assert(s[s.len() - 1] == arms[i]);
}

fn push_insts(out: &mut String, insts: &Vec<Inst>, floats: &FloatTexts)
    ensures
        final(out)@ == old(out)@ + insts_text(insts@, floats@),
    decreases insts@,
{
    let ghost start = out@;
    let mut i: usize = 0;
    assert(insts@.subrange(0, 0) =~= Seq::<Inst>::empty());
    while i < insts.len()
        invariant
            i <= insts.len(),
            out@ == start + insts_text(insts@.subrange(0, i as int), floats@),
        decreases insts.len() - i,
    {
        proof {
            lemma_insts_text_step(insts@, floats@, i as int);
        }
        if i > 0 {
            out.append("; ");
        }
        assert(decreases_to!(insts@ => insts@[i as int]));
        let t = insts[i].pretty(floats);
        out.append(t.as_str());
        i = i + 1;
    }
    assert(insts@.subrange(0, insts.len() as int) =~= insts@);
}

fn push_block_lines(out: &mut String, insts: &Vec<Inst>, floats: &FloatTexts, pad: &str)
    ensures
        final(out)@ == old(out)@ + block_lines(insts@, floats@, pad@),
    decreases insts@,
{
    let ghost start = out@;
    let mut i: usize = 0;
    assert(insts@.subrange(0, 0) =~= Seq::<Inst>::empty());
    while i < insts.len()
        invariant
            i <= insts.len(),
            out@ == start + block_lines(insts@.subrange(0, i as int), floats@, pad@),
        decreases insts.len() - i,
    {
        proof {
            lemma_block_lines_step(insts@, floats@, pad@, i as int);
        }
        out.append(pad);
        assert(decreases_to!(insts@ => insts@[i as int]));
        let t = insts[i].pretty(floats);
        push_indented(out, t.as_str(), pad);
        out.append("\n");
        i = i + 1;
    }
    assert(insts@.subrange(0, insts.len() as int) =~= insts@);
}

fn push_string_list(out: &mut String, items: &Vec<String>)
    ensures
        final(out)@ == old(out)@ + string_list_text(items@),
{
    let ghost start = out@;
    let ghost pieces = items@.map_values(|s: String| s@);
    let mut i: usize = 0;
    while i < items.len()
        invariant
            i <= items.len(),
            pieces == items@.map_values(|s: String| s@),
            out@ == start + join_seq(pieces.take(i as int), ", "@),
        decreases items.len() - i,
    {
        proof {
            lemma_join_take_step(pieces, ", "@, i as int);
        }
        if i > 0 {
            out.append(", ");
        }
        out.append(items[i].as_str());
        i = i + 1;
    }
    assert(pieces.take(items.len() as int) =~= pieces);
}

fn push_record_fields(out: &mut String, fields: &Vec<(String, ValueId)>)
    ensures
        final(out)@ == old(out)@ + record_fields_text(fields@),
{
    let ghost start = out@;
    let ghost pieces = fields@.map_values(|f: (String, ValueId)| f.0@ + ": "@ + value_text(f.1));
    let mut i: usize = 0;
    while i < fields.len()
        invariant
            i <= fields.len(),
            pieces == fields@.map_values(|f: (String, ValueId)| f.0@ + ": "@ + value_text(f.1)),
            out@ == start + join_seq(pieces.take(i as int), ", "@),
        decreases fields.len() - i,
    {
        proof {
            lemma_join_take_step(pieces, ", "@, i as int);
        }
        if i > 0 {
            out.append(", ");
        }
        out.append(fields[i].0.as_str());
        out.append(": ");
        push_value(out, fields[i].1);
        i = i + 1;
    }
    assert(pieces.take(fields.len() as int) =~= pieces);
}

fn push_arm(out: &mut String, arm: &HandleArm, floats: &FloatTexts)
    ensures
        final(out)@ == old(out)@ + arm_text(*arm, floats@),
    decreases *arm,
{
    let ghost start = out@;
    out.append("  ");
    out.append(arm.effect.as_str());
    out.append(".");
    out.append(arm.operation.as_str());
    out.append("(");
    push_string_list(out, &arm.params);
    out.append(") => {\n");
    assert(decreases_to!(*arm => arm.body_insts@));
    push_block_lines(out, &arm.body_insts, floats, "    ");
    match arm.body_result {
        Some(r) => {
            out.append("    yield ");
            push_value(out, r);
            out.append("\n");
        },
        None => {},
    }
    out.append("  }\n");
}

fn push_arms(out: &mut String, arms: &Vec<HandleArm>, floats: &FloatTexts)
    ensures
        final(out)@ == old(out)@ + arms_text(arms@, floats@),
    decreases arms@,
{
    let ghost start = out@;
    let mut i: usize = 0;
    assert(arms@.subrange(0, 0) =~= Seq::<HandleArm>::empty());
    while i < arms.len()
        invariant
            i <= arms.len(),
            out@ == start + arms_text(arms@.subrange(0, i as int), floats@),
        decreases arms.len() - i,
    {
        proof {
            lemma_arms_text_step(arms@, floats@, i as int);
        }
        assert(decreases_to!(arms@ => arms@[i as int]));
        push_arm(out, &arms[i], floats);
        i = i + 1;
    }
    assert(arms@.subrange(0, arms.len() as int) =~= arms@);
}

} // verus!

verus! {

impl Inst {
    /// One-line (or, for `handle`, multi-line) rendering of the instruction.
    #[verifier::rlimit(60)]
    pub fn pretty(&self, floats: &FloatTexts) -> (r: String)
        ensures
            r@ == inst_text(*self, floats@),
        decreases *self,
    {
        match self {
            Inst::LoadParam { dest, index } => {
                let mut s = dest.render();
                s.append(" = param ");
                push_u64(&mut s, *index as u64);
                s
            },
            Inst::LoadLocal { dest, slot } => {
                let mut s = dest.render();
                s.append(" = load ");
                push_slot(&mut s, *slot);
                s
            },
            Inst::StoreLocal { slot, src } => {
                let mut s = String::new();
                s.append("store ");
                push_slot(&mut s, *slot);
                s.append(", ");
                push_value(&mut s, *src);
                s
            },
            Inst::ConstInt { dest, value } => {
                let mut s = dest.render();
                s.append(" = int ");
                push_i64(&mut s, *value);
                s
            },
            Inst::ConstF64 { dest, bits } => {
                let mut s = dest.render();
                s.append(" = f64 ");
                s.append(lookup_float_text(floats, *bits));
                s
            },
            Inst::ConstBool { dest, value } => {
                let mut s = dest.render();
                s.append(" = bool ");
                if *value {
                    s.append("true");
                } else {
                    s.append("false");
                }
                s
            },
            Inst::ConstText { dest, value } => {
                let mut s = dest.render();
                s.append(" = text ");
                let d = debug_text(value.as_str());
                s.append(d.as_str());
                s
            },
            Inst::TextBuilderNew { dest } => op_line(*dest, "text-builder-new", &[]),
            Inst::TextBuilderAppend { dest, builder, text } => op_line(
                *dest,
                "text-builder-append",
                &[*builder, *text],
            ),
            Inst::TextBuilderAppendCodepoint { dest, builder, codepoint } => op_line(
                *dest,
                "text-builder-append-codepoint",
                &[*builder, *codepoint],
            ),
            Inst::TextBuilderFinish { dest, builder } => op_line(
                *dest,
                "text-builder-finish",
                &[*builder],
            ),
            Inst::ListNew { dest, len, value } => op_line(*dest, "list-new", &[*len, *value]),
            Inst::ListLen { dest, list } => op_line(*dest, "list-len", &[*list]),
            Inst::ListGet { dest, list, index } => op_line(*dest, "list-get", &[*list, *index]),
            Inst::ListSet { dest, list, index, value } => op_line(
                *dest,
                "list-set",
                &[*list, *index, *value],
            ),
            Inst::F64FromI32 { dest, value } => op_line(*dest, "f64-from-i32", &[*value]),
            Inst::TextLen { dest, text } => op_line(*dest, "text-len", &[*text]),
            Inst::TextConcat { dest, left, right } => op_line(
                *dest,
                "text-concat",
                &[*left, *right],
            ),
            Inst::TextSlice { dest, text, start, end } => op_line(
                *dest,
                "text-slice",
                &[*text, *start, *end],
            ),
            Inst::TextByte { dest, text, index } => op_line(*dest, "text-byte", &[*text, *index]),
            Inst::TextCmp { dest, left, right } => op_line(*dest, "text-cmp", &[*left, *right]),
            Inst::TextEqRange { dest, source, start, end, expected } => op_line(
                *dest,
                "text-eq-range",
                &[*source, *start, *end, *expected],
            ),
            Inst::TextFindByteRange { dest, source, start, end, byte } => op_line(
                *dest,
                "text-find-byte-range",
                &[*source, *start, *end, *byte],
            ),
            Inst::TextFromF64Fixed { dest, value, digits } => op_line(
                *dest,
                "text-from-f64-fixed",
                &[*value, *digits],
            ),
            Inst::ArgCount { dest } => op_line(*dest, "arg-count", &[]),
            Inst::AllocPush => {
                let mut s = String::new();
                s.append("alloc-push");
                s
            },
            Inst::AllocPop => {
                let mut s = String::new();
                s.append("alloc-pop");
                s
            },
            Inst::ArgText { dest, index } => op_line(*dest, "arg-text", &[*index]),
            Inst::StdinText { dest } => op_line(*dest, "stdin-text", &[]),
            Inst::StdoutWrite { text } => {
                let mut s = String::new();
                s.append("stdout-write ");
                push_value(&mut s, *text);
                s
            },
            Inst::ParseI32 { dest, text } => op_line(*dest, "parse-i32", &[*text]),
            Inst::ParseI32Range { dest, text, start, end } => op_line(
                *dest,
                "parse-i32-range",
                &[*text, *start, *end],
            ),
            Inst::ParseF64 { dest, text } => op_line(*dest, "parse-f64", &[*text]),
            Inst::MakeEnum { dest, name, variant, payload } => {
                let mut s = dest.render();
                s.append(" = enum ");
                s.append(name.as_str());
                s.append(".");
                s.append(variant.as_str());
                match payload {
                    Some(p) => {
                        s.append("(");
                        push_value(&mut s, *p);
                        s.append(")");
                    },
                    None => {},
                }
                s
            },
            Inst::MakeRecord { dest, name, fields } => {
                let mut s = dest.render();
                s.append(" = record ");
                s.append(name.as_str());
                s.append(" { ");
                push_record_fields(&mut s, fields);
                s.append(" }");
                s
            },
            Inst::Field { dest, base, name } => {
                let mut s = dest.render();
                s.append(" = field ");
                push_value(&mut s, *base);
                s.append(", ");
                s.append(name.as_str());
                s
            },
            Inst::EnumTagEq { dest, value, tag } => {
                let mut s = dest.render();
                s.append(" = enum-tag-eq ");
                push_value(&mut s, *value);
                s.append(", ");
                push_i64(&mut s, *tag);
                s
            },
            Inst::EnumPayload { dest, value, payload_type } => {
                let mut s = dest.render();
                s.append(" = enum-payload ");
                push_value(&mut s, *value);
                s.append(" as ");
                s.append(payload_type.as_str());
                s
            },
            Inst::If { dest, condition, then_insts, then_result, else_insts, else_result } => {
                let mut s = dest.render();
                s.append(" = if ");
                push_value(&mut s, *condition);
                s.append(" then [");
                push_insts(&mut s, then_insts, floats);
                s.append("] -> ");
                push_result(&mut s, *then_result);
                s.append(" else [");
                push_insts(&mut s, else_insts, floats);
                s.append("] -> ");
                push_result(&mut s, *else_result);
                s
            },
            Inst::While { dest, condition_insts, condition, body_insts } => {
                let mut s = dest.render();
                s.append(" = while [");
                push_insts(&mut s, condition_insts, floats);
                s.append("] -> ");
                push_value(&mut s, *condition);
                s.append(" [");
                push_insts(&mut s, body_insts, floats);
                s.append("]");
                s
            },
            Inst::Repeat { dest, count, index_slot, body_insts } => {
                let mut s = dest.render();
                s.append(" = repeat ");
                push_value(&mut s, *count);
                match index_slot {
                    Some(slot) => {
                        s.append(" with ");
                        push_slot(&mut s, *slot);
                    },
                    None => {},
                }
                s.append(" [");
                push_insts(&mut s, body_insts, floats);
                s.append("]");
                s
            },
            Inst::Add { dest, left, right } => op_line(*dest, "add", &[*left, *right]),
            Inst::Sub { dest, left, right } => op_line(*dest, "sub", &[*left, *right]),
            Inst::Mul { dest, left, right } => op_line(*dest, "mul", &[*left, *right]),
            Inst::Div { dest, left, right } => op_line(*dest, "div", &[*left, *right]),
            Inst::Sqrt { dest, value } => op_line(*dest, "sqrt", &[*value]),
            Inst::And { dest, left, right } => op_line(*dest, "and", &[*left, *right]),
            Inst::Or { dest, left, right } => op_line(*dest, "or", &[*left, *right]),
            Inst::Eq { dest, left, right } => op_line(*dest, "eq", &[*left, *right]),
            Inst::Ne { dest, left, right } => op_line(*dest, "ne", &[*left, *right]),
            Inst::Lt { dest, left, right } => op_line(*dest, "lt", &[*left, *right]),
            Inst::Le { dest, left, right } => op_line(*dest, "le", &[*left, *right]),
            Inst::Gt { dest, left, right } => op_line(*dest, "gt", &[*left, *right]),
            Inst::Ge { dest, left, right } => op_line(*dest, "ge", &[*left, *right]),
            Inst::Call { dest, callee, args } => {
                let mut s = dest.render();
                s.append(" = call ");
                s.append(callee.as_str());
                s.append("(");
                push_operands(&mut s, args.as_slice());
                s.append(")");
                s
            },
            Inst::Assert { condition, kind } => {
                let mut s = String::new();
                s.append("assert ");
                s.append(kind.keyword());
                s.append(" ");
                push_value(&mut s, *condition);
                s
            },
            Inst::Perform { dest, effect, operation, args } => {
                let mut s = dest.render();
                s.append(" = perform ");
                s.append(effect.as_str());
                s.append(".");
                s.append(operation.as_str());
                s.append("(");
                push_operands(&mut s, args.as_slice());
                s.append(")");
                s
            },
            Inst::Handle { dest, body_insts, body_result, arms } => {
                let mut s = dest.render();
                s.append(" = handle {\n");
                push_block_lines(&mut s, body_insts, floats, "  ");
                match body_result {
                    Some(r) => {
                        s.append("  yield ");
                        push_value(&mut s, *r);
                        s.append("\n");
                    },
                    None => {},
                }
                s.append("} with {\n");
                push_arms(&mut s, arms, floats);
                s.append("}");
                s
            },
        }
    }
}

} // verus!

verus! {

/// Concatenation of all pieces.
pub open spec fn concat_text(pieces: Seq<Seq<char>>) -> Seq<char> {
    join_seq(pieces, Seq::empty())
}

pub open spec fn variant_text(name: Seq<char>, payload: Option<String>) -> Seq<char> {
    match payload {
        Some(p) => name + "("@ + p@ + ")"@,
        None => name,
    }
}

pub open spec fn enum_line(e: EnumType) -> Seq<char> {
    "  enum "@ + e.name@ + " { "@ + join_seq(
        e.variants@.map_values(|v: crate::mir::EnumVariantType| variant_text(v.name@, v.payload_type)),
        ", "@,
    ) + " }\n"@
}

pub open spec fn struct_line(s: StructType) -> Seq<char> {
    "  struct "@ + s.name@ + " { "@ + join_seq(
        s.fields@.map_values(|f: crate::mir::StructField| f.name@ + ": "@ + f.ty@),
        ", "@,
    ) + " }\n"@
}

pub open spec fn params_text(params: Seq<Param>) -> Seq<char> {
    join_seq(params.map_values(|p: Param| p.name@ + ": "@ + p.ty@), ", "@)
}

pub open spec fn local_line(l: MutableLocal) -> Seq<char> {
    "    "@ + (if l.mutable {
        "mut "@ + slot_text(l.slot)
    } else {
        slot_text(l.slot)
    }) + " "@ + l.name@ + ": "@ + l.ty@ + "\n"@
}

pub open spec fn function_text(f: Function, floats: Seq<(u64, String)>) -> Seq<char> {
    function_header(f) + locals_text(f) + body_lines_text(f, floats) + "    return "@
        + result_text(f.result) + "\n"@
}

/// The printer's rendering of a whole program.
pub open spec fn program_text(p: Program, floats: Seq<(u64, String)>) -> Seq<char> {
    "MIR\n"@ + concat_text(p.enums@.map_values(|e: EnumType| enum_line(e))) + concat_text(
        p.structs@.map_values(|s: StructType| struct_line(s)),
    ) + concat_text(p.functions@.map_values(|f: Function| function_text(f, floats)))
}

fn push_enum_line(out: &mut String, e: &EnumType)
    ensures
        final(out)@ == old(out)@ + enum_line(*e),
{
    out.append("  enum ");
    out.append(e.name.as_str());
    out.append(" { ");
    let ghost start = out@;
    let ghost pieces = e.variants@.map_values(
        |v: crate::mir::EnumVariantType| variant_text(v.name@, v.payload_type),
    );
    let mut i: usize = 0;
    while i < e.variants.len()
        invariant
            i <= e.variants.len(),
            pieces == e.variants@.map_values(
                |v: crate::mir::EnumVariantType| variant_text(v.name@, v.payload_type),
            ),
            out@ == start + join_seq(pieces.take(i as int), ", "@),
        decreases e.variants.len() - i,
    {
        proof {
            lemma_join_take_step(pieces, ", "@, i as int);
        }
        if i > 0 {
            out.append(", ");
        }
        let v = &e.variants[i];
        out.append(v.name.as_str());
        match &v.payload_type {
            Some(p) => {
                out.append("(");
                out.append(p.as_str());
                out.append(")");
            },
            None => {},
        }
        i = i + 1;
    }
    assert(pieces.take(e.variants.len() as int) =~= pieces);
    out.append(" }\n");
}

fn push_struct_line(out: &mut String, s: &StructType)
    ensures
        final(out)@ == old(out)@ + struct_line(*s),
{
    out.append("  struct ");
    out.append(s.name.as_str());
    out.append(" { ");
    let ghost start = out@;
    let ghost pieces = s.fields@.map_values(|f: crate::mir::StructField| f.name@ + ": "@ + f.ty@);
    let mut i: usize = 0;
    while i < s.fields.len()
        invariant
            i <= s.fields.len(),
            pieces == s.fields@.map_values(|f: crate::mir::StructField| f.name@ + ": "@ + f.ty@),
            out@ == start + join_seq(pieces.take(i as int), ", "@),
        decreases s.fields.len() - i,
    {
        proof {
            lemma_join_take_step(pieces, ", "@, i as int);
        }
        if i > 0 {
            out.append(", ");
        }
        out.append(s.fields[i].name.as_str());
        out.append(": ");
        out.append(s.fields[i].ty.as_str());
        i = i + 1;
    }
    assert(pieces.take(s.fields.len() as int) =~= pieces);
    out.append(" }\n");
}

fn push_params(out: &mut String, params: &Vec<Param>)
    ensures
        final(out)@ == old(out)@ + params_text(params@),
{
    let ghost start = out@;
    let ghost pieces = params@.map_values(|p: Param| p.name@ + ": "@ + p.ty@);
    let mut i: usize = 0;
    while i < params.len()
        invariant
            i <= params.len(),
            pieces == params@.map_values(|p: Param| p.name@ + ": "@ + p.ty@),
            out@ == start + join_seq(pieces.take(i as int), ", "@),
        decreases params.len() - i,
    {
        proof {
            lemma_join_take_step(pieces, ", "@, i as int);
        }
        if i > 0 {
            out.append(", ");
        }
        out.append(params[i].name.as_str());
        out.append(": ");
        out.append(params[i].ty.as_str());
        i = i + 1;
    }
    assert(pieces.take(params.len() as int) =~= pieces);
}

pub open spec fn function_header(f: Function) -> Seq<char> {
    "  fn "@ + f.name@ + "("@ + params_text(f.params@) + ")"@ + match f.return_type {
        Some(t) => " -> "@ + t@,
        None => Seq::empty(),
    } + "\n"@
}

pub open spec fn locals_text(f: Function) -> Seq<char> {
    concat_text(f.mutable_locals@.map_values(|l: MutableLocal| local_line(l)))
}

pub open spec fn body_lines_text(f: Function, floats: Seq<(u64, String)>) -> Seq<char> {
    concat_text(f.instructions@.map_values(|i: Inst| "    "@ + inst_text(i, floats) + "\n"@))
}

fn push_function_header(out: &mut String, f: &Function)
    ensures
        final(out)@ == old(out)@ + function_header(*f),
{
    out.append("  fn ");
    out.append(f.name.as_str());
    out.append("(");
    push_params(out, &f.params);
    out.append(")");
    match &f.return_type {
        Some(t) => {
            out.append(" -> ");
            out.append(t.as_str());
        },
        None => {},
    }
    out.append("\n");
}

fn push_locals(out: &mut String, f: &Function)
    ensures
        final(out)@ == old(out)@ + locals_text(*f),
{
    let ghost s1 = out@;
    let ghost locals = f.mutable_locals@.map_values(|l: MutableLocal| local_line(l));
    let mut i: usize = 0;
    while i < f.mutable_locals.len()
        invariant
            i <= f.mutable_locals.len(),
            locals == f.mutable_locals@.map_values(|l: MutableLocal| local_line(l)),
            out@ == s1 + concat_text(locals.take(i as int)),
        decreases f.mutable_locals.len() - i,
    {
        proof {
            lemma_join_take_step(locals, Seq::empty(), i as int);
        }
        let l = &f.mutable_locals[i];
        out.append("    ");
        if l.mutable {
            out.append("mut ");
        }
        push_slot(out, l.slot);
        out.append(" ");
        out.append(l.name.as_str());
        out.append(": ");
        out.append(l.ty.as_str());
        out.append("\n");
        i = i + 1;
    }
    assert(locals.take(f.mutable_locals.len() as int) =~= locals);
}

fn push_body_lines(out: &mut String, f: &Function, floats: &FloatTexts)
    ensures
        final(out)@ == old(out)@ + body_lines_text(*f, floats@),
{
    let ghost s2 = out@;
    let ghost lines = f.instructions@.map_values(
        |inst: Inst| "    "@ + inst_text(inst, floats@) + "\n"@,
    );
    let mut j: usize = 0;
    while j < f.instructions.len()
        invariant
            j <= f.instructions.len(),
            lines == f.instructions@.map_values(
                |inst: Inst| "    "@ + inst_text(inst, floats@) + "\n"@,
            ),
            out@ == s2 + concat_text(lines.take(j as int)),
        decreases f.instructions.len() - j,
    {
        proof {
            lemma_join_take_step(lines, Seq::empty(), j as int);
        }
        out.append("    ");
        let t = f.instructions[j].pretty(floats);
        out.append(t.as_str());
        out.append("\n");
        j = j + 1;
    }
    assert(lines.take(f.instructions.len() as int) =~= lines);
}

fn push_function(out: &mut String, f: &Function, floats: &FloatTexts)
    ensures
        final(out)@ == old(out)@ + function_text(*f, floats@),
{
    push_function_header(out, f);
    push_locals(out, f);
    push_body_lines(out, f, floats);
    out.append("    return ");
    push_result(out, f.result);
    out.append("\n");
}

impl Program {
    /// The textual dump of the program: its enums, structs and functions.
    pub fn pretty(&self, floats: &FloatTexts) -> (r: String)
        ensures
            r@ == program_text(*self, floats@),
    {
        let mut out = String::new();
        out.append("MIR\n");
        let ghost s0 = out@;
        let ghost el = self.enums@.map_values(|e: EnumType| enum_line(e));
        let mut i: usize = 0;
        while i < self.enums.len()
            invariant
                i <= self.enums.len(),
                el == self.enums@.map_values(|e: EnumType| enum_line(e)),
                out@ == s0 + concat_text(el.take(i as int)),
            decreases self.enums.len() - i,
        {
            proof {
                lemma_join_take_step(el, Seq::empty(), i as int);
            }
            push_enum_line(&mut out, &self.enums[i]);
            i = i + 1;
        }
        assert(el.take(self.enums.len() as int) =~= el);
        let ghost s1 = out@;
        let ghost sl = self.structs@.map_values(|s: StructType| struct_line(s));
        let mut j: usize = 0;
        while j < self.structs.len()
            invariant
                j <= self.structs.len(),
                sl == self.structs@.map_values(|s: StructType| struct_line(s)),
                out@ == s1 + concat_text(sl.take(j as int)),
            decreases self.structs.len() - j,
        {
            proof {
                lemma_join_take_step(sl, Seq::empty(), j as int);
            }
            push_struct_line(&mut out, &self.structs[j]);
            j = j + 1;
        }
        assert(sl.take(self.structs.len() as int) =~= sl);
        let ghost s2 = out@;
        let ghost fl = self.functions@.map_values(|f: Function| function_text(f, floats@));
        let mut k: usize = 0;
        while k < self.functions.len()
            invariant
                k <= self.functions.len(),
                fl == self.functions@.map_values(|f: Function| function_text(f, floats@)),
                out@ == s2 + concat_text(fl.take(k as int)),
            decreases self.functions.len() - k,
        {
            proof {
                lemma_join_take_step(fl, Seq::empty(), k as int);
            }
            push_function(&mut out, &self.functions[k], floats);
            k = k + 1;
        }
        assert(fl.take(self.functions.len() as int) =~= fl);
        out
    }
}

} // verus!
