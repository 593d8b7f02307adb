//! Structural queries over instruction trees.
use vstd::prelude::*;

use crate::mir::{Function, Inst, Program, ValueId};

verus! {

/// The instructions that a visit reaches, in pre-order: each instruction,
/// then those of its `then`/`else` branches, of its loop condition and body,
/// or of its repeat body. `handle` bodies are not entered.
pub open spec fn visit_order(insts: Seq<Inst>) -> Seq<Inst>
    decreases insts, 0nat,
{
    if insts.len() == 0 {
        Seq::empty()
    } else {
        visit_order(insts.subrange(0, insts.len() - 1)) + visit_tree(insts[insts.len() - 1])
    }
}

/// An instruction followed by the pre-order visit of its nested bodies.
pub open spec fn visit_tree(inst: Inst) -> Seq<Inst>
    decreases inst, 0nat,
{
    seq![inst] + match inst {
        Inst::If { then_insts, else_insts, .. } => visit_order(then_insts@) + visit_order(else_insts@),
        Inst::While { condition_insts, body_insts, .. } => visit_order(condition_insts@) + visit_order(
            body_insts@,
        ),
        Inst::Repeat { body_insts, .. } => visit_order(body_insts@),
        _ => Seq::empty(),
    }
}

/// Whether `f` was called on every instruction of `s`.
pub open spec fn called_on_all<F: FnMut(&Inst)>(f: F, s: Seq<Inst>) -> bool {
    forall|i: int| 0 <= i < s.len() ==> call_ensures(f, (&s[i],), ())
}

/// Visits every instruction in pre-order (see `visit_order`), calling `f` on
/// each. Verus sees a call of `f` as leaving `f` as it was (it admits no
/// closure that changes what it captures), so `f` ends as it started.
pub fn for_each_inst_recursive<F>(insts: &[Inst], f: &mut F) where F: FnMut(&Inst)
    requires
        forall|g: F, i: &Inst| call_requires(g, (i,)),
    ensures
        *final(f) == *old(f),
        called_on_all(*old(f), visit_order(insts@)),
    decreases insts@,
{
    broadcast use vstd::function::group_function_axioms;

    let mut k: usize = 0;
    assert(insts@.subrange(0, 0) =~= Seq::<Inst>::empty());
    while k < insts.len()
        invariant
            forall|g: F, i: &Inst| call_requires(g, (i,)),
            k <= insts@.len(),
            *f == *old(f),
            called_on_all(*old(f), visit_order(insts@.subrange(0, k as int))),
        decreases insts.len() - k,
    {
        let inst = &insts[k];
        let ghost done = visit_order(insts@.subrange(0, k as int));
        f(inst);
        assert(*f == *old(f));
        assert(call_ensures(*old(f), (inst,), ()));
        assert(decreases_to!(insts@ => insts@[k as int]));
        let ghost nested: Seq<Inst> = match inst {
            Inst::If { then_insts, else_insts, .. } => visit_order(then_insts@) + visit_order(else_insts@),
            Inst::While { condition_insts, body_insts, .. } => visit_order(condition_insts@) + visit_order(
                body_insts@,
            ),
            Inst::Repeat { body_insts, .. } => visit_order(body_insts@),
            _ => Seq::empty(),
        };
        match inst {
            Inst::If { then_insts, else_insts, .. } => {
                assert(decreases_to!(insts@ => then_insts@));
                assert(decreases_to!(insts@ => else_insts@));
                for_each_inst_recursive(then_insts.as_slice(), f);
                for_each_inst_recursive(else_insts.as_slice(), f);
            },
            Inst::While { condition_insts, body_insts, .. } => {
                assert(decreases_to!(insts@ => condition_insts@));
                assert(decreases_to!(insts@ => body_insts@));
                for_each_inst_recursive(condition_insts.as_slice(), f);
                for_each_inst_recursive(body_insts.as_slice(), f);
            },
            Inst::Repeat { body_insts, .. } => {
                assert(decreases_to!(insts@ => body_insts@));
                for_each_inst_recursive(body_insts.as_slice(), f);
            },
            _ => {},
        }
        proof {
            let pre = insts@.subrange(0, k + 1);
            assert(pre.subrange(0, pre.len() - 1) =~= insts@.subrange(0, k as int));
            assert(pre[pre.len() - 1] == insts@[k as int]);
            assert(visit_tree(insts@[k as int]) == seq![insts@[k as int]] + nested);
            let all = visit_order(pre);
            assert(all == done + (seq![insts@[k as int]] + nested));
            assert forall|i: int| 0 <= i < all.len() implies call_ensures(*old(f), (&all[i],), ()) by {
                if i < done.len() {
                    assert(all[i] == done[i]);
                } else if i == done.len() {
                    assert(all[i] == insts@[k as int]);
                } else {
                    assert(all[i] == nested[i - done.len() - 1]);
                }
            }
        }
        k = k + 1;
    }
    assert(insts@.subrange(0, insts@.len() as int) =~= insts@);
}

/// `out` followed by the bits of the float constants of `s`, in order, each
/// added only when not already there.
pub open spec fn add_f64_constants(out: Seq<u64>, s: Seq<Inst>) -> Seq<u64>
    decreases s.len(),
{
    if s.len() == 0 {
        out
    } else {
        let o = add_f64_constants(out, s.drop_last());
        match s.last() {
            Inst::ConstF64 { bits, .. } => if o.contains(bits) {
                o
            } else {
                o.push(bits)
            },
            _ => o,
        }
    }
}

proof fn lemma_add_f64_constants_concat(out: Seq<u64>, a: Seq<Inst>, b: Seq<Inst>)
    ensures
        add_f64_constants(out, a + b) == add_f64_constants(add_f64_constants(out, a), b),
    decreases b.len(),
{
    if b.len() == 0 {
        assert(a + b =~= a);
    } else {
        lemma_add_f64_constants_concat(out, a, b.drop_last());
        assert((a + b).drop_last() =~= a + b.drop_last());
        assert((a + b).last() == b.last());
    }
}

/// Adds to `out` the bits of the float constants that a visit of the
/// instructions reaches (see `visit_order`), in order, each once.
pub fn collect_f64_constants(insts: &[Inst], out: &mut Vec<u64>)
    ensures
        final(out)@ == add_f64_constants(old(out)@, visit_order(insts@)),
    decreases insts@,
{
    let mut k: usize = 0;
    assert(insts@.subrange(0, 0) =~= Seq::<Inst>::empty());
    while k < insts.len()
        invariant
            k <= insts@.len(),
            out@ == add_f64_constants(old(out)@, visit_order(insts@.subrange(0, k as int))),
        decreases insts.len() - k,
    {
        let inst = &insts[k];
        let ghost before = out@;
        let ghost done = visit_order(insts@.subrange(0, k as int));
        if let Inst::ConstF64 { bits, .. } = inst {
            let mut found = false;
            let mut j: usize = 0;
            while j < out.len()
                invariant
                    j <= out@.len(),
                    out@ == before,
                    found == exists|m: int| 0 <= m < j && out@[m] == *bits,
                decreases out.len() - j,
            {
                if out[j] == *bits {
                    found = true;
                }
                j = j + 1;
            }
            if !found {
                out.push(*bits);
            }
            proof {
                assert(add_f64_constants(before, seq![*inst]) == out@) by {
                    reveal_with_fuel(add_f64_constants, 2);
                    assert(seq![*inst].drop_last() =~= Seq::<Inst>::empty());
                    assert(seq![*inst].last() == *inst);
                    if found {
                        let m = choose|m: int| 0 <= m < before.len() && before[m] == *bits;
                        assert(before.contains(*bits));
                    } else {
                        assert(!before.contains(*bits));
                    }
                }
            }
        } else {
            proof {
                reveal_with_fuel(add_f64_constants, 2);
                assert(seq![*inst].drop_last() =~= Seq::<Inst>::empty());
                assert(seq![*inst].last() == *inst);
                assert(add_f64_constants(before, seq![*inst]) == before);
            }
        }
        let ghost after_inst = out@;
        assert(decreases_to!(insts@ => insts@[k as int]));
        let ghost nested: Seq<Inst> = match inst {
            Inst::If { then_insts, else_insts, .. } => visit_order(then_insts@) + visit_order(else_insts@),
            Inst::While { condition_insts, body_insts, .. } => visit_order(condition_insts@) + visit_order(
                body_insts@,
            ),
            Inst::Repeat { body_insts, .. } => visit_order(body_insts@),
            _ => Seq::empty(),
        };
        match inst {
            Inst::If { then_insts, else_insts, .. } => {
                assert(decreases_to!(insts@ => then_insts@));
                assert(decreases_to!(insts@ => else_insts@));
                let ghost o1 = out@;
                collect_f64_constants(then_insts.as_slice(), out);
                collect_f64_constants(else_insts.as_slice(), out);
                proof {
                    lemma_add_f64_constants_concat(o1, visit_order(then_insts@), visit_order(else_insts@));
                }
            },
            Inst::While { condition_insts, body_insts, .. } => {
                assert(decreases_to!(insts@ => condition_insts@));
                assert(decreases_to!(insts@ => body_insts@));
                let ghost o1 = out@;
                collect_f64_constants(condition_insts.as_slice(), out);
                collect_f64_constants(body_insts.as_slice(), out);
                proof {
                    lemma_add_f64_constants_concat(o1, visit_order(condition_insts@), visit_order(body_insts@));
                }
            },
            Inst::Repeat { body_insts, .. } => {
                assert(decreases_to!(insts@ => body_insts@));
                collect_f64_constants(body_insts.as_slice(), out);
            },
            _ => {},
        }
        proof {
            assert(out@ == add_f64_constants(after_inst, nested));
            let pre = insts@.subrange(0, k + 1);
            assert(pre.subrange(0, pre.len() - 1) =~= insts@.subrange(0, k as int));
            assert(pre[pre.len() - 1] == insts@[k as int]);
            assert(visit_tree(insts@[k as int]) == seq![insts@[k as int]] + nested);
            lemma_add_f64_constants_concat(old(out)@, done, visit_tree(insts@[k as int]));
            lemma_add_f64_constants_concat(add_f64_constants(old(out)@, done), seq![insts@[k as int]], nested);
        }
        k = k + 1;
    }
    assert(insts@.subrange(0, insts@.len() as int) =~= insts@);
}

/// Whether control can fall off the end of the instructions: an `if` whose
/// both branches cannot fall through stops it.
pub open spec fn falls_through(insts: Seq<Inst>) -> bool
    decreases insts,
{
    if insts.len() == 0 {
        true
    } else {
        let first_ok = match insts[0] {
            Inst::If { then_insts, else_insts, .. } => falls_through(then_insts@) || falls_through(
                else_insts@,
            ),
            _ => true,
        };
        first_ok && falls_through(insts.subrange(1, insts.len() as int))
    }
}

/// Whether control can fall off the end of the instructions: always, since
/// no instruction of the IR leaves a function early, whatever the nesting
/// (see `lemma_falls_through_always`).
pub fn insts_fall_through(instructions: &[Inst]) -> (r: bool)
    ensures
        r == falls_through(instructions@),
        r,
    decreases instructions@,
{
    proof {
        lemma_falls_through_always(instructions@);
    }
    let mut k: usize = 0;
    assert(instructions@.subrange(0, instructions@.len() as int) =~= instructions@);
    while k < instructions.len()
        invariant
            k <= instructions.len(),
            falls_through(instructions@) == falls_through(
                instructions@.subrange(k as int, instructions@.len() as int),
            ),
        decreases instructions.len() - k,
    {
        let ghost rest = instructions@.subrange(k as int, instructions@.len() as int);
        assert(rest[0] == instructions@[k as int]);
        assert(rest.subrange(1, rest.len() as int) =~= instructions@.subrange(
            k + 1,
            instructions@.len() as int,
        ));
        match &instructions[k] {
            Inst::If { then_insts, else_insts, .. } => {
                assert(decreases_to!(instructions@ => instructions@[k as int]));
                if !(insts_fall_through(then_insts.as_slice()) || insts_fall_through(
                    else_insts.as_slice(),
                )) {
                    return false;
                }
            },
            _ => {},
        }
        k = k + 1;
    }
    true
}

/// Every instruction sequence falls through (`insts_fall_through` returns
/// `true` on every slice, whatever the nesting of `if`, `while` and
/// `repeat`): no instruction of the IR ends control flow, so an `if` never
/// has two branches that both stop it.
pub proof fn lemma_falls_through_always(insts: Seq<Inst>)
    ensures
        falls_through(insts),
    decreases insts,
{
    if insts.len() > 0 {
        match insts[0] {
            Inst::If { then_insts, .. } => {
                lemma_falls_through_always(then_insts@);
            },
            _ => {},
        }
        lemma_falls_through_always(insts.subrange(1, insts.len() as int));
    }
}

/// The value an instruction defines, if any.
pub open spec fn spec_inst_dest(inst: Inst) -> Option<ValueId> {
    match inst {
        Inst::StoreLocal { .. } | Inst::StdoutWrite { .. } | Inst::AllocPush | Inst::AllocPop
        | Inst::Assert { .. } => None,
        Inst::TextBuilderNew { dest } => Some(dest),
        Inst::TextBuilderAppend { dest, .. } => Some(dest),
        Inst::TextBuilderAppendCodepoint { dest, .. } => Some(dest),
        Inst::TextBuilderFinish { dest, .. } => Some(dest),
        Inst::ListNew { dest, .. } => Some(dest),
        Inst::ListLen { dest, .. } => Some(dest),
        Inst::ListGet { dest, .. } => Some(dest),
        Inst::ListSet { dest, .. } => Some(dest),
        Inst::F64FromI32 { dest, .. } => Some(dest),
        Inst::TextLen { dest, .. } => Some(dest),
        Inst::TextConcat { dest, .. } => Some(dest),
        Inst::TextSlice { dest, .. } => Some(dest),
        Inst::TextByte { dest, .. } => Some(dest),
        Inst::TextCmp { dest, .. } => Some(dest),
        Inst::TextEqRange { dest, .. } => Some(dest),
        Inst::TextFindByteRange { dest, .. } => Some(dest),
        Inst::TextFromF64Fixed { dest, .. } => Some(dest),
        Inst::ArgCount { dest } => Some(dest),
        Inst::ArgText { dest, .. } => Some(dest),
        Inst::StdinText { dest } => Some(dest),
        Inst::ParseI32 { dest, .. } => Some(dest),
        Inst::ParseI32Range { dest, .. } => Some(dest),
        Inst::ParseF64 { dest, .. } => Some(dest),
        Inst::LoadParam { dest, .. } => Some(dest),
        Inst::LoadLocal { dest, .. } => Some(dest),
        Inst::ConstInt { dest, .. } => Some(dest),
        Inst::ConstF64 { dest, .. } => Some(dest),
        Inst::ConstBool { dest, .. } => Some(dest),
        Inst::ConstText { dest, .. } => Some(dest),
        Inst::MakeEnum { dest, .. } => Some(dest),
        Inst::MakeRecord { dest, .. } => Some(dest),
        Inst::Field { dest, .. } => Some(dest),
        Inst::EnumTagEq { dest, .. } => Some(dest),
        Inst::EnumPayload { dest, .. } => Some(dest),
        Inst::If { dest, .. } => Some(dest),
        Inst::While { dest, .. } => Some(dest),
        Inst::Repeat { dest, .. } => Some(dest),
        Inst::Add { dest, .. } => Some(dest),
        Inst::Sub { dest, .. } => Some(dest),
        Inst::Mul { dest, .. } => Some(dest),
        Inst::Div { dest, .. } => Some(dest),
        Inst::Sqrt { dest, .. } => Some(dest),
        Inst::And { dest, .. } => Some(dest),
        Inst::Or { dest, .. } => Some(dest),
        Inst::Eq { dest, .. } => Some(dest),
        Inst::Ne { dest, .. } => Some(dest),
        Inst::Lt { dest, .. } => Some(dest),
        Inst::Le { dest, .. } => Some(dest),
        Inst::Gt { dest, .. } => Some(dest),
        Inst::Ge { dest, .. } => Some(dest),
        Inst::Call { dest, .. } => Some(dest),
        Inst::Perform { dest, .. } => Some(dest),
        Inst::Handle { dest, .. } => Some(dest),
    }
}

/// The value an instruction defines, if any.
pub fn inst_dest(inst: &Inst) -> (r: Option<ValueId>)
    ensures
        r == spec_inst_dest(*inst),
{
    match inst {
        Inst::StoreLocal { .. } | Inst::StdoutWrite { .. } | Inst::AllocPush | Inst::AllocPop
        | Inst::Assert { .. } => None,
        Inst::TextBuilderNew { dest } => Some(*dest),
        Inst::TextBuilderAppend { dest, .. } => Some(*dest),
        Inst::TextBuilderAppendCodepoint { dest, .. } => Some(*dest),
        Inst::TextBuilderFinish { dest, .. } => Some(*dest),
        Inst::ListNew { dest, .. } => Some(*dest),
        Inst::ListLen { dest, .. } => Some(*dest),
        Inst::ListGet { dest, .. } => Some(*dest),
        Inst::ListSet { dest, .. } => Some(*dest),
        Inst::F64FromI32 { dest, .. } => Some(*dest),
        Inst::TextLen { dest, .. } => Some(*dest),
        Inst::TextConcat { dest, .. } => Some(*dest),
        Inst::TextSlice { dest, .. } => Some(*dest),
        Inst::TextByte { dest, .. } => Some(*dest),
        Inst::TextCmp { dest, .. } => Some(*dest),
        Inst::TextEqRange { dest, .. } => Some(*dest),
        Inst::TextFindByteRange { dest, .. } => Some(*dest),
        Inst::TextFromF64Fixed { dest, .. } => Some(*dest),
        Inst::ArgCount { dest } => Some(*dest),
        Inst::ArgText { dest, .. } => Some(*dest),
        Inst::StdinText { dest } => Some(*dest),
        Inst::ParseI32 { dest, .. } => Some(*dest),
        Inst::ParseI32Range { dest, .. } => Some(*dest),
        Inst::ParseF64 { dest, .. } => Some(*dest),
        Inst::LoadParam { dest, .. } => Some(*dest),
        Inst::LoadLocal { dest, .. } => Some(*dest),
        Inst::ConstInt { dest, .. } => Some(*dest),
        Inst::ConstF64 { dest, .. } => Some(*dest),
        Inst::ConstBool { dest, .. } => Some(*dest),
        Inst::ConstText { dest, .. } => Some(*dest),
        Inst::MakeEnum { dest, .. } => Some(*dest),
        Inst::MakeRecord { dest, .. } => Some(*dest),
        Inst::Field { dest, .. } => Some(*dest),
        Inst::EnumTagEq { dest, .. } => Some(*dest),
        Inst::EnumPayload { dest, .. } => Some(*dest),
        Inst::If { dest, .. } => Some(*dest),
        Inst::While { dest, .. } => Some(*dest),
        Inst::Repeat { dest, .. } => Some(*dest),
        Inst::Add { dest, .. } => Some(*dest),
        Inst::Sub { dest, .. } => Some(*dest),
        Inst::Mul { dest, .. } => Some(*dest),
        Inst::Div { dest, .. } => Some(*dest),
        Inst::Sqrt { dest, .. } => Some(*dest),
        Inst::And { dest, .. } => Some(*dest),
        Inst::Or { dest, .. } => Some(*dest),
        Inst::Eq { dest, .. } => Some(*dest),
        Inst::Ne { dest, .. } => Some(*dest),
        Inst::Lt { dest, .. } => Some(*dest),
        Inst::Le { dest, .. } => Some(*dest),
        Inst::Gt { dest, .. } => Some(*dest),
        Inst::Ge { dest, .. } => Some(*dest),
        Inst::Call { dest, .. } => Some(*dest),
        Inst::Perform { dest, .. } => Some(*dest),
        Inst::Handle { dest, .. } => Some(*dest),
    }
}

pub open spec fn max_nat(a: nat, b: nat) -> nat {
    if a >= b {
        a
    } else {
        b
    }
}

/// One more than the value an instruction defines (0 when it defines none).
pub open spec fn own_bound(inst: Inst) -> nat {
    match spec_inst_dest(inst) {
        Some(d) => d.0 as nat + 1,
        None => 0,
    }
}

/// One more than the largest value defined by the nested instructions of
/// `inst` (its branches, loop parts and handle body; not handler arms).
pub open spec fn nested_bound(inst: Inst) -> nat
    decreases inst,
{
    match inst {
        Inst::If { then_insts, else_insts, .. } => max_nat(
            insts_bound(then_insts@),
            insts_bound(else_insts@),
        ),
        Inst::While { condition_insts, body_insts, .. } => max_nat(
            insts_bound(condition_insts@),
            insts_bound(body_insts@),
        ),
        Inst::Repeat { body_insts, .. } => insts_bound(body_insts@),
        Inst::Handle { body_insts, .. } => insts_bound(body_insts@),
        _ => 0,
    }
}

/// One more than the largest value defined anywhere in `insts` (0 if none).
pub open spec fn insts_bound(insts: Seq<Inst>) -> nat
    decreases insts,
{
    if insts.len() == 0 {
        0
    } else {
        max_nat(
            insts_bound(insts.subrange(0, insts.len() - 1)),
            max_nat(own_bound(insts[insts.len() - 1]), nested_bound(insts[insts.len() - 1])),
        )
    }
}

/// Raises `count` to cover every value that the nested instructions define.
fn count_instructions_sub(inst: &Inst, count: &mut u32)
    requires
        nested_bound(*inst) <= u32::MAX,
    ensures
        *final(count) == max_nat(*old(count) as nat, nested_bound(*inst)),
    decreases *inst,
{
    match inst {
        Inst::If { then_insts, else_insts, .. } => {
            count_insts(then_insts, count);
            count_insts(else_insts, count);
        },
        Inst::While { condition_insts, body_insts, .. } => {
            count_insts(condition_insts, count);
            count_insts(body_insts, count);
        },
        Inst::Repeat { body_insts, .. } => {
            count_insts(body_insts, count);
        },
        Inst::Handle { body_insts, .. } => {
            count_insts(body_insts, count);
        },
        _ => {},
    }
}

fn count_insts(insts: &Vec<Inst>, count: &mut u32)
    requires
        insts_bound(insts@) <= u32::MAX,
    ensures
        *final(count) == max_nat(*old(count) as nat, insts_bound(insts@)),
    decreases insts@,
{
    let mut k: usize = 0;
    let ghost c0 = *count as nat;
    assert(insts@.subrange(0, 0) =~= Seq::<Inst>::empty());
    while k < insts.len()
        invariant
            k <= insts.len(),
            insts_bound(insts@) <= u32::MAX,
            *count == max_nat(c0, insts_bound(insts@.subrange(0, k as int))),
        decreases insts.len() - k,
    {
        let ghost pre = insts@.subrange(0, k + 1);
        assert(pre.subrange(0, pre.len() - 1) =~= insts@.subrange(0, k as int));
        assert(pre[pre.len() - 1] == insts@[k as int]);
        proof {
            lemma_bound_prefix(insts@, k + 1);
        }
        if let Some(d) = inst_dest(&insts[k]) {
            if d.0 >= *count {
                *count = d.0 + 1;
            }
        }
        assert(decreases_to!(insts@ => insts@[k as int]));
        count_instructions_sub(&insts[k], count);
        k = k + 1;
    }
    assert(insts@.subrange(0, insts.len() as int) =~= insts@);
}

/// The bound of a prefix is at most the bound of the whole sequence.
proof fn lemma_bound_prefix(insts: Seq<Inst>, n: int)
    requires
        0 <= n <= insts.len(),
    ensures
        insts_bound(insts.subrange(0, n)) <= insts_bound(insts),
        n > 0 ==> own_bound(insts[n - 1]) <= insts_bound(insts),
        n > 0 ==> nested_bound(insts[n - 1]) <= insts_bound(insts),
    decreases insts.len() - n,
{
    if n > 0 {
        let p = insts.subrange(0, n);
        assert(p[n - 1] == insts[n - 1]);
        assert(insts_bound(p) == max_nat(
            insts_bound(p.subrange(0, n - 1)),
            max_nat(own_bound(insts[n - 1]), nested_bound(insts[n - 1])),
        ));
    }
    if n < insts.len() {
        lemma_bound_prefix(insts, n + 1);
        let pre = insts.subrange(0, n + 1);
        assert(pre.subrange(0, pre.len() - 1) =~= insts.subrange(0, n));
    } else {
        assert(insts.subrange(0, n) =~= insts);
    }
}

/// The number of value ids a function needs: one more than the largest value
/// it defines (0 when it defines none).
pub fn count_instructions(func: &Function) -> (r: u32)
    requires
        insts_bound(func.instructions@) <= u32::MAX,
    ensures
        r == insts_bound(func.instructions@),
{
    let mut count: u32 = 0;
    count_insts(&func.instructions, &mut count);
    count
}

} // verus!
