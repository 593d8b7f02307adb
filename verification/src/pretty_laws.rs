//! Laws of the MIR printer: each instruction prints under its own
//! mnemonic, and different instructions print differently.
use vstd::prelude::*;

use crate::mir::{Inst, ValueId};
use crate::pretty::{inst_text, op_text, operands_text, value_text};
use crate::text::{int_text, join_seq, nat_text};

verus! {

/// The text of two operands: the first, a comma and a space, the second.
proof fn lemma_two_operands(l: ValueId, r: ValueId)
    ensures
        operands_text(seq![l, r]) == value_text(l) + ", "@ + value_text(r),
{
    let ps = seq![l, r].map_values(|v: ValueId| value_text(v));
    assert(ps.drop_last() =~= seq![value_text(l)]);
    assert(join_seq(ps.drop_last(), ", "@) == value_text(l));
}

/// The binary instruction of kind `k` (add, sub, mul, div, and, or, eq, ne,
/// lt, le, gt, ge, in that order) on the given operands.
pub open spec fn binary_inst(k: int, dest: ValueId, left: ValueId, right: ValueId) -> Inst {
    if k == 0 {
        Inst::Add { dest, left, right }
    } else if k == 1 {
        Inst::Sub { dest, left, right }
    } else if k == 2 {
        Inst::Mul { dest, left, right }
    } else if k == 3 {
        Inst::Div { dest, left, right }
    } else if k == 4 {
        Inst::And { dest, left, right }
    } else if k == 5 {
        Inst::Or { dest, left, right }
    } else if k == 6 {
        Inst::Eq { dest, left, right }
    } else if k == 7 {
        Inst::Ne { dest, left, right }
    } else if k == 8 {
        Inst::Lt { dest, left, right }
    } else if k == 9 {
        Inst::Le { dest, left, right }
    } else if k == 10 {
        Inst::Gt { dest, left, right }
    } else {
        Inst::Ge { dest, left, right }
    }
}

/// The mnemonic of the binary instruction of kind `k` (see `binary_inst`).
pub open spec fn binary_mnemonic(k: int) -> Seq<char> {
    if k == 0 {
        "add"@
    } else if k == 1 {
        "sub"@
    } else if k == 2 {
        "mul"@
    } else if k == 3 {
        "div"@
    } else if k == 4 {
        "and"@
    } else if k == 5 {
        "or"@
    } else if k == 6 {
        "eq"@
    } else if k == 7 {
        "ne"@
    } else if k == 8 {
        "lt"@
    } else if k == 9 {
        "le"@
    } else if k == 10 {
        "gt"@
    } else {
        "ge"@
    }
}

/// The binary instruction of kind `k` prints as `<dest> = <mnemonic>
/// <left>, <right>`.
#[verifier::spinoff_prover]
pub proof fn lemma_binary_text(k: int, dest: ValueId, left: ValueId, right: ValueId, floats: Seq<(u64, String)>)
    requires
        0 <= k < 12,
    ensures
        inst_text(binary_inst(k, dest, left, right), floats) == value_text(dest) + " = "@ + binary_mnemonic(k) + " "@
            + value_text(left) + ", "@ + value_text(right),
{
    lemma_two_operands(left, right);
    let ops = seq![left, right];
    assert(ops.len() == 2);
    assert(op_text(dest, binary_mnemonic(k), ops) =~= value_text(dest) + " = "@ + binary_mnemonic(k) + " "@
        + value_text(left) + ", "@ + value_text(right));
}

/// The mnemonics of two different binary instructions differ in their first
/// or their second character.
proof fn lemma_mnemonics_differ(k1: int, k2: int)
    requires
        0 <= k1 < 12,
        0 <= k2 < 12,
        k1 != k2,
    ensures
        binary_mnemonic(k1).len() >= 2 && binary_mnemonic(k2).len() >= 2,
        binary_mnemonic(k1)[0] != binary_mnemonic(k2)[0] || binary_mnemonic(k1)[1] != binary_mnemonic(k2)[1],
{
    reveal_strlit("add");
    reveal_strlit("sub");
    reveal_strlit("mul");
    reveal_strlit("div");
    reveal_strlit("and");
    reveal_strlit("or");
    reveal_strlit("eq");
    reveal_strlit("ne");
    reveal_strlit("lt");
    reveal_strlit("le");
    reveal_strlit("gt");
    reveal_strlit("ge");
}

/// Two binary instructions of different kinds on the same operands never
/// print the same text.
pub proof fn lemma_binary_texts_differ(k1: int, k2: int, dest: ValueId, left: ValueId, right: ValueId, floats: Seq<(u64, String)>)
    requires
        0 <= k1 < 12,
        0 <= k2 < 12,
        k1 != k2,
    ensures
        inst_text(binary_inst(k1, dest, left, right), floats) != inst_text(binary_inst(k2, dest, left, right), floats),
{
    lemma_binary_text(k1, dest, left, right, floats);
    lemma_binary_text(k2, dest, left, right, floats);
    lemma_mnemonics_differ(k1, k2);
    let p = value_text(dest) + " = "@;
    let q = " "@ + value_text(left) + ", "@ + value_text(right);
    assert(inst_text(binary_inst(k1, dest, left, right), floats) =~= p + binary_mnemonic(k1) + q);
    assert(inst_text(binary_inst(k2, dest, left, right), floats) =~= p + binary_mnemonic(k2) + q);
    let i: int = if binary_mnemonic(k1)[0] != binary_mnemonic(k2)[0] { 0 } else { 1 };
    crate::text::lemma_texts_differ(p, binary_mnemonic(k1), binary_mnemonic(k2), q, q, i);
}

/// The arithmetic and ordering instructions print under their own
/// mnemonics: `<dest> = add <left>, <right>` for `Add`, `sub` for `Sub`,
/// `mul` for `Mul`, `div` for `Div`, and `lt`, `le`, `gt`, `ge` for the
/// comparisons.
pub proof fn lemma_arithmetic_texts(dest: ValueId, left: ValueId, right: ValueId, floats: Seq<(u64, String)>)
    ensures
        inst_text(Inst::Add { dest, left, right }, floats) == value_text(dest) + " = "@ + "add"@ + " "@ + value_text(left)
            + ", "@ + value_text(right),
        inst_text(Inst::Sub { dest, left, right }, floats) == value_text(dest) + " = "@ + "sub"@ + " "@ + value_text(left)
            + ", "@ + value_text(right),
        inst_text(Inst::Mul { dest, left, right }, floats) == value_text(dest) + " = "@ + "mul"@ + " "@ + value_text(left)
            + ", "@ + value_text(right),
        inst_text(Inst::Div { dest, left, right }, floats) == value_text(dest) + " = "@ + "div"@ + " "@ + value_text(left)
            + ", "@ + value_text(right),
        inst_text(Inst::Lt { dest, left, right }, floats) == value_text(dest) + " = "@ + "lt"@ + " "@ + value_text(left)
            + ", "@ + value_text(right),
        inst_text(Inst::Le { dest, left, right }, floats) == value_text(dest) + " = "@ + "le"@ + " "@ + value_text(left)
            + ", "@ + value_text(right),
        inst_text(Inst::Gt { dest, left, right }, floats) == value_text(dest) + " = "@ + "gt"@ + " "@ + value_text(left)
            + ", "@ + value_text(right),
        inst_text(Inst::Ge { dest, left, right }, floats) == value_text(dest) + " = "@ + "ge"@ + " "@ + value_text(left)
            + ", "@ + value_text(right),
{
    lemma_binary_text(0, dest, left, right, floats);
    lemma_binary_text(1, dest, left, right, floats);
    lemma_binary_text(2, dest, left, right, floats);
    lemma_binary_text(3, dest, left, right, floats);
    lemma_binary_text(8, dest, left, right, floats);
    lemma_binary_text(9, dest, left, right, floats);
    lemma_binary_text(10, dest, left, right, floats);
    lemma_binary_text(11, dest, left, right, floats);
}

/// The text of one operand is that operand's text.
proof fn lemma_one_operand(x: ValueId)
    ensures
        operands_text(seq![x]) == value_text(x),
{
    let ps = seq![x].map_values(|v: ValueId| value_text(v));
    assert(ps.len() == 1);
    assert(ps[0] == value_text(x));
}

/// More instructions print under their own mnemonics: the logic and
/// equality instructions (`and`, `or`, `eq`, `ne`), `sqrt`, `f64-from-i32`,
/// the text queries (`text-len`, `text-concat`, `text-byte`, `text-cmp`),
/// the list operations (`list-new`, `list-len`, `list-get`), and loads of a
/// parameter (`param` and its index) and constants (`int` and the integer,
/// `bool` and the truth value).
pub proof fn lemma_operation_texts(dest: ValueId, a: ValueId, b: ValueId, n: u32, k: i64, t: bool, floats: Seq<(u64, String)>)
    ensures
        inst_text(Inst::And { dest, left: a, right: b }, floats) == value_text(dest) + " = "@ + "and"@ + " "@
            + value_text(a) + ", "@ + value_text(b),
        inst_text(Inst::Or { dest, left: a, right: b }, floats) == value_text(dest) + " = "@ + "or"@ + " "@ + value_text(
            a,
        ) + ", "@ + value_text(b),
        inst_text(Inst::Eq { dest, left: a, right: b }, floats) == value_text(dest) + " = "@ + "eq"@ + " "@ + value_text(
            a,
        ) + ", "@ + value_text(b),
        inst_text(Inst::Ne { dest, left: a, right: b }, floats) == value_text(dest) + " = "@ + "ne"@ + " "@ + value_text(
            a,
        ) + ", "@ + value_text(b),
        inst_text(Inst::TextConcat { dest, left: a, right: b }, floats) == value_text(dest) + " = "@ + "text-concat"@
            + " "@ + value_text(a) + ", "@ + value_text(b),
        inst_text(Inst::TextByte { dest, text: a, index: b }, floats) == value_text(dest) + " = "@ + "text-byte"@ + " "@
            + value_text(a) + ", "@ + value_text(b),
        inst_text(Inst::TextCmp { dest, left: a, right: b }, floats) == value_text(dest) + " = "@ + "text-cmp"@ + " "@
            + value_text(a) + ", "@ + value_text(b),
        inst_text(Inst::ListNew { dest, len: a, value: b }, floats) == value_text(dest) + " = "@ + "list-new"@ + " "@
            + value_text(a) + ", "@ + value_text(b),
        inst_text(Inst::ListGet { dest, list: a, index: b }, floats) == value_text(dest) + " = "@ + "list-get"@ + " "@
            + value_text(a) + ", "@ + value_text(b),
        inst_text(Inst::Sqrt { dest, value: a }, floats) == value_text(dest) + " = "@ + "sqrt"@ + " "@ + value_text(a),
        inst_text(Inst::F64FromI32 { dest, value: a }, floats) == value_text(dest) + " = "@ + "f64-from-i32"@ + " "@
            + value_text(a),
        inst_text(Inst::TextLen { dest, text: a }, floats) == value_text(dest) + " = "@ + "text-len"@ + " "@ + value_text(
            a,
        ),
        inst_text(Inst::ListLen { dest, list: a }, floats) == value_text(dest) + " = "@ + "list-len"@ + " "@ + value_text(
            a,
        ),
        inst_text(Inst::LoadParam { dest, index: n as usize }, floats) == value_text(dest) + " = param "@ + nat_text(
            n as nat,
        ),
        inst_text(Inst::ConstInt { dest, value: k }, floats) == value_text(dest) + " = int "@ + int_text(k as int),
        inst_text(Inst::ConstBool { dest, value: t }, floats) == value_text(dest) + " = bool "@ + (if t {
            "true"@
        } else {
            "false"@
        }),
{
    lemma_two_operands(a, b);
    lemma_one_operand(a);
    lemma_binary_text(4, dest, a, b, floats);
    lemma_binary_text(5, dest, a, b, floats);
    lemma_binary_text(6, dest, a, b, floats);
    lemma_binary_text(7, dest, a, b, floats);
    let two = seq![a, b];
    let one = seq![a];
    assert(two.len() == 2 && one.len() == 1);
    assert(op_text(dest, "text-concat"@, two) =~= value_text(dest) + " = "@ + "text-concat"@ + " "@ + value_text(a)
        + ", "@ + value_text(b));
    assert(op_text(dest, "text-byte"@, two) =~= value_text(dest) + " = "@ + "text-byte"@ + " "@ + value_text(a) + ", "@
        + value_text(b));
    assert(op_text(dest, "text-cmp"@, two) =~= value_text(dest) + " = "@ + "text-cmp"@ + " "@ + value_text(a) + ", "@
        + value_text(b));
    assert(op_text(dest, "list-new"@, two) =~= value_text(dest) + " = "@ + "list-new"@ + " "@ + value_text(a) + ", "@
        + value_text(b));
    assert(op_text(dest, "list-get"@, two) =~= value_text(dest) + " = "@ + "list-get"@ + " "@ + value_text(a) + ", "@
        + value_text(b));
    assert(op_text(dest, "sqrt"@, one) =~= value_text(dest) + " = "@ + "sqrt"@ + " "@ + value_text(a));
    assert(op_text(dest, "f64-from-i32"@, one) =~= value_text(dest) + " = "@ + "f64-from-i32"@ + " "@ + value_text(a));
    assert(op_text(dest, "text-len"@, one) =~= value_text(dest) + " = "@ + "text-len"@ + " "@ + value_text(a));
    assert(op_text(dest, "list-len"@, one) =~= value_text(dest) + " = "@ + "list-len"@ + " "@ + value_text(a));
    assert(binary_inst(4, dest, a, b) == Inst::And { dest, left: a, right: b });
    assert(binary_inst(5, dest, a, b) == Inst::Or { dest, left: a, right: b });
    assert(binary_inst(6, dest, a, b) == Inst::Eq { dest, left: a, right: b });
    assert(binary_inst(7, dest, a, b) == Inst::Ne { dest, left: a, right: b });
}

} // verus!
