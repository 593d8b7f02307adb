//! Escape analysis: finds functions with the `alloc` effect whose result may
//! reference memory of the allocation arena they run in.
use vstd::prelude::*;

use crate::mir::{Function, HandleArm, Inst, Program, Span, ValueId};
use crate::text::{contains_text, starts_with_text, text_contains, text_starts_with};

verus! {

/// Which values and which local slots may reference arena memory.
pub struct EscState {
    pub escaped: Seq<bool>,
    pub locals: Seq<bool>,
}

pub open spec fn count_false(s: Seq<bool>) -> nat
    decreases s.len(),
{
    if s.len() == 0 {
        0
    } else {
        count_false(s.drop_last()) + if s.last() {
            0nat
        } else {
            1nat
        }
    }
}

/// `b` holds every flag that `a` holds, at the same length.
pub open spec fn flags_le(a: Seq<bool>, b: Seq<bool>) -> bool {
    a.len() == b.len() && forall|i: int| 0 <= i < a.len() && #[trigger] a[i] ==> b[i]
}

pub open spec fn state_le(a: EscState, b: EscState) -> bool {
    flags_le(a.escaped, b.escaped) && flags_le(a.locals, b.locals)
}

pub open spec fn state_measure(s: EscState) -> nat {
    count_false(s.escaped) + count_false(s.locals)
}

pub proof fn lemma_count_false_le(a: Seq<bool>, b: Seq<bool>)
    requires
        flags_le(a, b),
    ensures
        count_false(b) <= count_false(a),
        a != b ==> count_false(b) < count_false(a),
    decreases a.len(),
{
    if a.len() > 0 {
        lemma_count_false_le(a.drop_last(), b.drop_last());
        if a.drop_last() == b.drop_last() && a.last() == b.last() {
            assert forall|i: int| 0 <= i < a.len() implies a[i] == b[i] by {
                if i < a.len() - 1 {
                    assert(a[i] == a.drop_last()[i]);
                    assert(b[i] == b.drop_last()[i]);
                }
            }
            assert(a =~= b);
        }
    } else {
        assert(a =~= b);
    }
}

pub proof fn lemma_state_measure_le(a: EscState, b: EscState)
    requires
        state_le(a, b),
    ensures
        state_measure(b) <= state_measure(a),
        a != b ==> state_measure(b) < state_measure(a),
{
    lemma_count_false_le(a.escaped, b.escaped);
    lemma_count_false_le(a.locals, b.locals);
}

pub proof fn lemma_count_false_bound(s: Seq<bool>)
    ensures
        count_false(s) <= s.len(),
    decreases s.len(),
{
    if s.len() > 0 {
        lemma_count_false_bound(s.drop_last());
    }
}

pub open spec fn is_esc(s: EscState, v: ValueId) -> bool {
    (v.0 as int) < s.escaped.len() && s.escaped[v.0 as int]
}

pub open spec fn mark(s: EscState, v: ValueId) -> EscState {
    if (v.0 as int) < s.escaped.len() {
        EscState { escaped: s.escaped.update(v.0 as int, true), locals: s.locals }
    } else {
        s
    }
}

pub open spec fn mark_if(s: EscState, v: ValueId, c: bool) -> EscState {
    if c {
        mark(s, v)
    } else {
        s
    }
}

pub open spec fn opt_esc(s: EscState, r: Option<ValueId>) -> bool {
    match r {
        Some(v) => is_esc(s, v),
        None => false,
    }
}

/// Locals flagged in either flag set (the length of `a` is kept).
pub open spec fn merge_flags(a: Seq<bool>, b: Seq<bool>) -> Seq<bool> {
    Seq::new(a.len(), |i: int| a[i] || (i < b.len() && b[i]))
}

/// The transfer function of one instruction. `callee` tells whether a
/// function's result may escape.
pub open spec fn analyze_inst(inst: Inst, s: EscState, callee: spec_fn(Seq<char>) -> bool) -> EscState
    decreases inst, s.escaped.len() + s.locals.len() + 2,
{
    match inst {
        Inst::TextBuilderNew { dest } | Inst::ListNew { dest, .. } | Inst::TextConcat { dest, .. }
        | Inst::TextSlice { dest, .. } | Inst::TextFromF64Fixed { dest, .. } | Inst::ArgText {
            dest,
            ..
        } | Inst::StdinText { dest } | Inst::TextBuilderAppend { dest, .. }
        | Inst::TextBuilderAppendCodepoint { dest, .. } | Inst::ListSet { dest, .. }
        | Inst::TextBuilderFinish { dest, .. } | Inst::Perform { dest, .. } => mark(s, dest),
        Inst::ListGet { dest, list, .. } => mark_if(s, dest, is_esc(s, list)),
        Inst::LoadLocal { dest, slot } => mark_if(
            s,
            dest,
            (slot.0 as int) < s.locals.len() && s.locals[slot.0 as int],
        ),
        Inst::StoreLocal { slot, src } => if is_esc(s, src) && (slot.0 as int) < s.locals.len() {
            EscState { escaped: s.escaped, locals: s.locals.update(slot.0 as int, true) }
        } else {
            s
        },
        Inst::MakeRecord { dest, fields, .. } => mark_if(
            s,
            dest,
            exists|i: int| 0 <= i < fields@.len() && is_esc(s, #[trigger] fields@[i].1),
        ),
        Inst::MakeEnum { dest, payload, .. } => mark_if(s, dest, opt_esc(s, payload)),
        Inst::Field { dest, base, .. } => mark_if(s, dest, is_esc(s, base)),
        Inst::EnumPayload { dest, value, .. } => mark_if(s, dest, is_esc(s, value)),
        Inst::Call { dest, callee: name, args } => mark_if(
            s,
            dest,
            callee(name@) || exists|i: int| 0 <= i < args@.len() && is_esc(s, #[trigger] args@[i]),
        ),
        Inst::If { dest, then_insts, then_result, else_insts, else_result, .. } => {
            let after_then = analyze_seq(then_insts@, s, callee);
            let after_else = analyze_seq(
                else_insts@,
                EscState { escaped: after_then.escaped, locals: s.locals },
                callee,
            );
            let merged = EscState {
                escaped: after_else.escaped,
                locals: merge_flags(after_else.locals, after_then.locals),
            };
            mark_if(
                merged,
                dest,
                opt_esc(merged, then_result) || opt_esc(merged, else_result),
            )
        },
        Inst::While { dest, .. } => {
            proof {
                lemma_count_false_bound(s.escaped);
                lemma_count_false_bound(s.locals);
            }
            mark(iterate(inst, s, callee), dest)
        },
        Inst::Repeat { dest, .. } => {
            proof {
                lemma_count_false_bound(s.escaped);
                lemma_count_false_bound(s.locals);
            }
            mark(iterate(inst, s, callee), dest)
        },
        Inst::Handle { dest, body_insts, body_result, arms } => {
            let after_body = analyze_seq(body_insts@, s, callee);
            let s1 = mark_if(after_body, dest, opt_esc(after_body, body_result));
            analyze_arms(arms@, s1, callee, dest)
        },
        _ => s,
    }
}

/// The transfer function of a sequence of instructions, in order.
pub open spec fn analyze_seq(insts: Seq<Inst>, s: EscState, callee: spec_fn(Seq<char>) -> bool) -> EscState
    decreases insts, 0nat,
{
    if insts.len() == 0 {
        s
    } else {
        analyze_inst(
            insts[insts.len() - 1],
            analyze_seq(insts.subrange(0, insts.len() - 1), s, callee),
            callee,
        )
    }
}

/// Handler arms, in order: each body is analyzed and the result of the
/// `handle` escapes if an arm's result does.
pub open spec fn analyze_arms(
    arms: Seq<HandleArm>,
    s: EscState,
    callee: spec_fn(Seq<char>) -> bool,
    dest: ValueId,
) -> EscState
    decreases arms, 0nat,
{
    if arms.len() == 0 {
        s
    } else {
        let before = analyze_arms(arms.subrange(0, arms.len() - 1), s, callee, dest);
        let arm = arms[arms.len() - 1];
        let after = analyze_seq(arm.body_insts@, before, callee);
        mark_if(after, dest, opt_esc(after, arm.body_result))
    }
}

/// One pass over a loop: its condition (for `while`) and its body.
pub open spec fn loop_pass(inst: Inst, s: EscState, callee: spec_fn(Seq<char>) -> bool) -> EscState
    decreases inst, 0nat,
{
    match inst {
        Inst::While { condition_insts, body_insts, .. } => analyze_seq(
            body_insts@,
            analyze_seq(condition_insts@, s, callee),
            callee,
        ),
        Inst::Repeat { body_insts, .. } => analyze_seq(body_insts@, s, callee),
        _ => s,
    }
}

/// Loop passes until the flags stop changing.
pub open spec fn iterate(inst: Inst, s: EscState, callee: spec_fn(Seq<char>) -> bool) -> EscState
    decreases inst, state_measure(s) + 1,
{
    let next = loop_pass(inst, s, callee);
    if next == s {
        s
    } else if state_le(s, next) {
        proof {
            lemma_state_measure_le(s, next);
        }
        iterate(inst, next, callee)
    } else {
        s
    }
}

} // verus!

verus! {

pub open spec fn callee_le(c1: spec_fn(Seq<char>) -> bool, c2: spec_fn(Seq<char>) -> bool) -> bool {
    forall|n: Seq<char>| #[trigger] c1(n) ==> c2(n)
}

proof fn lemma_le_trans(a: EscState, b: EscState, c: EscState)
    requires
        state_le(a, b),
        state_le(b, c),
    ensures
        state_le(a, c),
{
}

proof fn lemma_mark_grows(s: EscState, v: ValueId, c: bool)
    ensures
        state_le(s, mark_if(s, v, c)),
        state_le(s, mark(s, v)),
{
}

/// Every transfer function only adds flags.
pub proof fn lemma_inst_grows(inst: Inst, s: EscState, c: spec_fn(Seq<char>) -> bool)
    ensures
        state_le(s, analyze_inst(inst, s, c)),
    decreases inst, s.escaped.len() + s.locals.len() + 2,
{
    match inst {
        Inst::If { dest, then_insts, then_result, else_insts, else_result, .. } => {
            let t = analyze_seq(then_insts@, s, c);
            lemma_seq_grows(then_insts@, s, c);
            let e0 = EscState { escaped: t.escaped, locals: s.locals };
            lemma_seq_grows(else_insts@, e0, c);
            let e = analyze_seq(else_insts@, e0, c);
            let m = EscState { escaped: e.escaped, locals: merge_flags(e.locals, t.locals) };
            assert(flags_le(s.locals, m.locals));
            assert(state_le(s, m));
            lemma_mark_grows(m, dest, opt_esc(m, then_result) || opt_esc(m, else_result));
            assert(analyze_inst(inst, s, c) == mark_if(
                m,
                dest,
                opt_esc(m, then_result) || opt_esc(m, else_result),
            ));
            lemma_le_trans(s, m, analyze_inst(inst, s, c));
            assert(state_le(s, analyze_inst(inst, s, c)));
        },
        Inst::While { dest, .. } | Inst::Repeat { dest, .. } => {
            lemma_count_false_bound(s.escaped);
            lemma_count_false_bound(s.locals);
            lemma_iterate_grows(inst, s, c);
            let it = iterate(inst, s, c);
            lemma_mark_grows(it, dest, true);
            lemma_le_trans(s, it, mark(it, dest));
        },
        Inst::Handle { dest, body_insts, body_result, arms } => {
            let b = analyze_seq(body_insts@, s, c);
            lemma_seq_grows(body_insts@, s, c);
            let s1 = mark_if(b, dest, opt_esc(b, body_result));
            lemma_mark_grows(b, dest, opt_esc(b, body_result));
            lemma_arms_grows(arms@, s1, c, dest);
            lemma_le_trans(s, b, s1);
            lemma_le_trans(s, s1, analyze_arms(arms@, s1, c, dest));
        },
        _ => {
            assert forall|v: ValueId, b: bool| state_le(s, #[trigger] mark_if(s, v, b)) by {
                lemma_mark_grows(s, v, b);
            }
            assert forall|v: ValueId| state_le(s, #[trigger] mark(s, v)) by {
                lemma_mark_grows(s, v, true);
            }
        },
    }
}

pub proof fn lemma_seq_grows(insts: Seq<Inst>, s: EscState, c: spec_fn(Seq<char>) -> bool)
    ensures
        state_le(s, analyze_seq(insts, s, c)),
    decreases insts, 0nat,
{
    if insts.len() > 0 {
        let p = insts.subrange(0, insts.len() - 1);
        lemma_seq_grows(p, s, c);
        let mid = analyze_seq(p, s, c);
        lemma_inst_grows(insts[insts.len() - 1], mid, c);
    }
}

pub proof fn lemma_arms_grows(
    arms: Seq<HandleArm>,
    s: EscState,
    c: spec_fn(Seq<char>) -> bool,
    dest: ValueId,
)
    ensures
        state_le(s, analyze_arms(arms, s, c, dest)),
    decreases arms, 0nat,
{
    if arms.len() > 0 {
        let p = arms.subrange(0, arms.len() - 1);
        lemma_arms_grows(p, s, c, dest);
        let before = analyze_arms(p, s, c, dest);
        let arm = arms[arms.len() - 1];
        lemma_seq_grows(arm.body_insts@, before, c);
    }
}

pub proof fn lemma_pass_grows(inst: Inst, s: EscState, c: spec_fn(Seq<char>) -> bool)
    ensures
        state_le(s, loop_pass(inst, s, c)),
    decreases inst, 0nat,
{
    match inst {
        Inst::While { condition_insts, body_insts, .. } => {
            lemma_seq_grows(condition_insts@, s, c);
            lemma_seq_grows(body_insts@, analyze_seq(condition_insts@, s, c), c);
        },
        Inst::Repeat { body_insts, .. } => {
            lemma_seq_grows(body_insts@, s, c);
        },
        _ => {},
    }
}

pub proof fn lemma_iterate_grows(inst: Inst, s: EscState, c: spec_fn(Seq<char>) -> bool)
    ensures
        state_le(s, iterate(inst, s, c)),
        loop_pass(inst, iterate(inst, s, c), c) == iterate(inst, s, c),
    decreases inst, state_measure(s) + 1,
{
    let next = loop_pass(inst, s, c);
    lemma_pass_grows(inst, s, c);
    if next != s {
        lemma_state_measure_le(s, next);
        lemma_iterate_grows(inst, next, c);
    }
}

} // verus!

verus! {

proof fn lemma_mark_mono(s1: EscState, s2: EscState, v: ValueId, b1: bool, b2: bool)
    requires
        state_le(s1, s2),
        b1 ==> b2,
    ensures
        state_le(mark_if(s1, v, b1), mark_if(s2, v, b2)),
{
}

/// The analysis is monotone: more flags in, or more escaping callees, give
/// more flags out.
pub proof fn lemma_inst_mono(
    inst: Inst,
    s1: EscState,
    s2: EscState,
    c1: spec_fn(Seq<char>) -> bool,
    c2: spec_fn(Seq<char>) -> bool,
)
    requires
        state_le(s1, s2),
        callee_le(c1, c2),
    ensures
        state_le(analyze_inst(inst, s1, c1), analyze_inst(inst, s2, c2)),
    decreases inst, s1.escaped.len() + s1.locals.len() + 3,
{
    assert forall|v: ValueId| is_esc(s1, v) implies #[trigger] is_esc(s2, v) by {}
    match inst {
        Inst::TextBuilderNew { dest } | Inst::ListNew { dest, .. } | Inst::TextConcat { dest, .. }
        | Inst::TextSlice { dest, .. } | Inst::TextFromF64Fixed { dest, .. } | Inst::ArgText {
            dest,
            ..
        } | Inst::StdinText { dest } | Inst::TextBuilderAppend { dest, .. }
        | Inst::TextBuilderAppendCodepoint { dest, .. } | Inst::ListSet { dest, .. }
        | Inst::TextBuilderFinish { dest, .. } | Inst::Perform { dest, .. } => {
            lemma_mark_mono(s1, s2, dest, true, true);
        },
        Inst::ListGet { dest, list, .. } => {
            lemma_mark_mono(s1, s2, dest, is_esc(s1, list), is_esc(s2, list));
        },
        Inst::LoadLocal { dest, slot } => {
            let b1 = (slot.0 as int) < s1.locals.len() && s1.locals[slot.0 as int];
            let b2 = (slot.0 as int) < s2.locals.len() && s2.locals[slot.0 as int];
            lemma_mark_mono(s1, s2, dest, b1, b2);
        },
        Inst::StoreLocal { slot, src } => {},
        Inst::MakeRecord { dest, fields, .. } => {
            let b1 = exists|i: int| 0 <= i < fields@.len() && is_esc(s1, #[trigger] fields@[i].1);
            let b2 = exists|i: int| 0 <= i < fields@.len() && is_esc(s2, #[trigger] fields@[i].1);
            if b1 {
                let i = choose|i: int| 0 <= i < fields@.len() && is_esc(s1, #[trigger] fields@[i].1);
                assert(is_esc(s2, fields@[i].1));
            }
            lemma_mark_mono(s1, s2, dest, b1, b2);
        },
        Inst::MakeEnum { dest, payload, .. } => {
            lemma_mark_mono(s1, s2, dest, opt_esc(s1, payload), opt_esc(s2, payload));
        },
        Inst::Field { dest, base, .. } => {
            lemma_mark_mono(s1, s2, dest, is_esc(s1, base), is_esc(s2, base));
        },
        Inst::EnumPayload { dest, value, .. } => {
            lemma_mark_mono(s1, s2, dest, is_esc(s1, value), is_esc(s2, value));
        },
        Inst::Call { dest, callee: name, args } => {
            let b1 = c1(name@) || exists|i: int| 0 <= i < args@.len() && is_esc(s1, #[trigger] args@[i]);
            let b2 = c2(name@) || exists|i: int| 0 <= i < args@.len() && is_esc(s2, #[trigger] args@[i]);
            if exists|i: int| 0 <= i < args@.len() && is_esc(s1, #[trigger] args@[i]) {
                let i = choose|i: int| 0 <= i < args@.len() && is_esc(s1, #[trigger] args@[i]);
                assert(is_esc(s2, args@[i]));
            }
            lemma_mark_mono(s1, s2, dest, b1, b2);
        },
        Inst::If { dest, then_insts, then_result, else_insts, else_result, .. } => {
            lemma_seq_mono(then_insts@, s1, s2, c1, c2);
            let t1 = analyze_seq(then_insts@, s1, c1);
            let t2 = analyze_seq(then_insts@, s2, c2);
            let e01 = EscState { escaped: t1.escaped, locals: s1.locals };
            let e02 = EscState { escaped: t2.escaped, locals: s2.locals };
            lemma_seq_mono(else_insts@, e01, e02, c1, c2);
            let e1 = analyze_seq(else_insts@, e01, c1);
            let e2 = analyze_seq(else_insts@, e02, c2);
            lemma_seq_grows(then_insts@, s1, c1);
            lemma_seq_grows(then_insts@, s2, c2);
            lemma_seq_grows(else_insts@, e01, c1);
            lemma_seq_grows(else_insts@, e02, c2);
            let m1 = EscState { escaped: e1.escaped, locals: merge_flags(e1.locals, t1.locals) };
            let m2 = EscState { escaped: e2.escaped, locals: merge_flags(e2.locals, t2.locals) };
            assert(flags_le(m1.locals, m2.locals));
            assert forall|v: ValueId| is_esc(m1, v) implies #[trigger] is_esc(m2, v) by {}
            lemma_mark_mono(
                m1,
                m2,
                dest,
                opt_esc(m1, then_result) || opt_esc(m1, else_result),
                opt_esc(m2, then_result) || opt_esc(m2, else_result),
            );
        },
        Inst::While { dest, .. } | Inst::Repeat { dest, .. } => {
            lemma_iterate_mono(inst, s1, s2, c1, c2);
            lemma_mark_mono(iterate(inst, s1, c1), iterate(inst, s2, c2), dest, true, true);
        },
        Inst::Handle { dest, body_insts, body_result, arms } => {
            lemma_seq_mono(body_insts@, s1, s2, c1, c2);
            let b1 = analyze_seq(body_insts@, s1, c1);
            let b2 = analyze_seq(body_insts@, s2, c2);
            assert forall|v: ValueId| is_esc(b1, v) implies #[trigger] is_esc(b2, v) by {}
            lemma_mark_mono(b1, b2, dest, opt_esc(b1, body_result), opt_esc(b2, body_result));
            lemma_arms_mono(
                arms@,
                mark_if(b1, dest, opt_esc(b1, body_result)),
                mark_if(b2, dest, opt_esc(b2, body_result)),
                c1,
                c2,
                dest,
            );
        },
        _ => {},
    }
}

pub proof fn lemma_seq_mono(
    insts: Seq<Inst>,
    s1: EscState,
    s2: EscState,
    c1: spec_fn(Seq<char>) -> bool,
    c2: spec_fn(Seq<char>) -> bool,
)
    requires
        state_le(s1, s2),
        callee_le(c1, c2),
    ensures
        state_le(analyze_seq(insts, s1, c1), analyze_seq(insts, s2, c2)),
    decreases insts, 0nat,
{
    if insts.len() > 0 {
        let p = insts.subrange(0, insts.len() - 1);
        lemma_seq_mono(p, s1, s2, c1, c2);
        lemma_inst_mono(
            insts[insts.len() - 1],
            analyze_seq(p, s1, c1),
            analyze_seq(p, s2, c2),
            c1,
            c2,
        );
    }
}

pub proof fn lemma_arms_mono(
    arms: Seq<HandleArm>,
    s1: EscState,
    s2: EscState,
    c1: spec_fn(Seq<char>) -> bool,
    c2: spec_fn(Seq<char>) -> bool,
    dest: ValueId,
)
    requires
        state_le(s1, s2),
        callee_le(c1, c2),
    ensures
        state_le(analyze_arms(arms, s1, c1, dest), analyze_arms(arms, s2, c2, dest)),
    decreases arms, 0nat,
{
    if arms.len() > 0 {
        let p = arms.subrange(0, arms.len() - 1);
        lemma_arms_mono(p, s1, s2, c1, c2, dest);
        let a1 = analyze_arms(p, s1, c1, dest);
        let a2 = analyze_arms(p, s2, c2, dest);
        let arm = arms[arms.len() - 1];
        lemma_seq_mono(arm.body_insts@, a1, a2, c1, c2);
        let x1 = analyze_seq(arm.body_insts@, a1, c1);
        let x2 = analyze_seq(arm.body_insts@, a2, c2);
        assert forall|v: ValueId| is_esc(x1, v) implies #[trigger] is_esc(x2, v) by {}
        lemma_mark_mono(x1, x2, dest, opt_esc(x1, arm.body_result), opt_esc(x2, arm.body_result));
    }
}

pub proof fn lemma_pass_mono(
    inst: Inst,
    s1: EscState,
    s2: EscState,
    c1: spec_fn(Seq<char>) -> bool,
    c2: spec_fn(Seq<char>) -> bool,
)
    requires
        state_le(s1, s2),
        callee_le(c1, c2),
    ensures
        state_le(loop_pass(inst, s1, c1), loop_pass(inst, s2, c2)),
    decreases inst, 0nat,
{
    match inst {
        Inst::While { condition_insts, body_insts, .. } => {
            lemma_seq_mono(condition_insts@, s1, s2, c1, c2);
            lemma_seq_mono(
                body_insts@,
                analyze_seq(condition_insts@, s1, c1),
                analyze_seq(condition_insts@, s2, c2),
                c1,
                c2,
            );
        },
        Inst::Repeat { body_insts, .. } => {
            lemma_seq_mono(body_insts@, s1, s2, c1, c2);
        },
        _ => {},
    }
}

proof fn lemma_iterate_below_fix(
    inst: Inst,
    s1: EscState,
    t: EscState,
    c1: spec_fn(Seq<char>) -> bool,
    c2: spec_fn(Seq<char>) -> bool,
)
    requires
        state_le(s1, t),
        loop_pass(inst, t, c2) == t,
        callee_le(c1, c2),
    ensures
        state_le(iterate(inst, s1, c1), t),
    decreases inst, state_measure(s1) + 1,
{
    let n1 = loop_pass(inst, s1, c1);
    lemma_pass_grows(inst, s1, c1);
    if n1 != s1 {
        lemma_pass_mono(inst, s1, t, c1, c2);
        lemma_state_measure_le(s1, n1);
        lemma_iterate_below_fix(inst, n1, t, c1, c2);
    }
}

pub proof fn lemma_iterate_mono(
    inst: Inst,
    s1: EscState,
    s2: EscState,
    c1: spec_fn(Seq<char>) -> bool,
    c2: spec_fn(Seq<char>) -> bool,
)
    requires
        state_le(s1, s2),
        callee_le(c1, c2),
    ensures
        state_le(iterate(inst, s1, c1), iterate(inst, s2, c2)),
    decreases inst, s1.escaped.len() + s1.locals.len() + 2,
{
    lemma_iterate_grows(inst, s2, c2);
    let t = iterate(inst, s2, c2);
    lemma_le_trans(s1, s2, t);
    lemma_count_false_bound(s1.escaped);
    lemma_count_false_bound(s1.locals);
    lemma_iterate_below_fix(inst, s1, t, c1, c2);
}

} // verus!

verus! {

/// Whether values of the named type may reference arena memory.
pub open spec fn spec_holds_arena(ty: Seq<char>) -> bool {
    ty == "Text"@ || ty == "TextBuilder"@ || ty == "TextIndex"@ || ty == "List"@ || ty == "Bytes"@
        || starts_with_text(ty, "["@) || contains_text(ty, "Text"@) || contains_text(ty, "List"@)
        || contains_text(ty, "Bytes"@)
}

pub fn type_can_hold_arena_memory(ty: &str) -> (r: bool)
    ensures
        r == spec_holds_arena(ty@),
{
    let whole = ty.to_owned();
    let a = String::from_str("Text");
    let b = String::from_str("TextBuilder");
    let c = String::from_str("TextIndex");
    let d = String::from_str("List");
    let e = String::from_str("Bytes");
    whole == a || whole == b || whole == c || whole == d || whole == e || text_starts_with(ty, "[")
        || text_contains(ty, "Text") || text_contains(ty, "List") || text_contains(ty, "Bytes")
}

/// The result of a function named `name` may escape: some function of that
/// name is flagged.
pub open spec fn callee_flag(funcs: Seq<Function>, flags: Seq<bool>, name: Seq<char>) -> bool {
    exists|j: int| 0 <= j < funcs.len() && j < flags.len() && #[trigger] funcs[j].name@ == name && flags[j]
}

pub open spec fn callee_fn(funcs: Seq<Function>, flags: Seq<bool>) -> spec_fn(Seq<char>) -> bool {
    |n: Seq<char>| callee_flag(funcs, flags, n)
}

pub open spec fn initial_state(f: Function) -> EscState {
    EscState {
        escaped: Seq::new(f.value_count as nat, |i: int| false),
        locals: Seq::new(f.slot_count as nat, |i: int| false),
    }
}

/// The analysis of the whole body flags `v`.
pub open spec fn spec_value_may_escape(v: ValueId, f: Function, c: spec_fn(Seq<char>) -> bool) -> bool {
    is_esc(analyze_seq(f.instructions@, initial_state(f), c), v)
}

pub open spec fn has_alloc_effect(f: Function) -> bool {
    exists|i: int| 0 <= i < f.effects@.len() && #[trigger] f.effects@[i]@ == "alloc"@
}

pub open spec fn returns_arena_type(f: Function) -> bool {
    match f.return_type {
        Some(t) => spec_holds_arena(t@),
        None => false,
    }
}

/// The function has the `alloc` effect, a result, a return type that can
/// hold arena memory, and the analysis flags its result.
pub open spec fn function_escapes(f: Function, c: spec_fn(Seq<char>) -> bool) -> bool {
    match f.result {
        Some(r) => has_alloc_effect(f) && returns_arena_type(f) && spec_value_may_escape(r, f, c),
        None => false,
    }
}

/// One round of the interprocedural fixed point.
pub open spec fn escape_round(funcs: Seq<Function>, flags: Seq<bool>) -> Seq<bool> {
    Seq::new(funcs.len(), |j: int| function_escapes(funcs[j], callee_fn(funcs, flags)))
}

/// Rounds until the flags stop changing, from `flags`.
pub open spec fn escape_fix(funcs: Seq<Function>, flags: Seq<bool>) -> Seq<bool>
    decreases count_false(flags),
{
    let next = escape_round(funcs, flags);
    if next == flags {
        flags
    } else if flags_le(flags, next) {
        proof {
            lemma_count_false_le(flags, next);
        }
        escape_fix(funcs, next)
    } else {
        flags
    }
}

/// The flags the interprocedural analysis settles on.
pub open spec fn final_flags(funcs: Seq<Function>) -> Seq<bool> {
    escape_fix(funcs, Seq::new(funcs.len(), |j: int| false))
}

pub open spec fn names_distinct(funcs: Seq<Function>) -> bool {
    forall|i: int, j: int|
        0 <= i < funcs.len() && 0 <= j < funcs.len() && i != j ==> funcs[i].name@ != funcs[j].name@
}

/// A round with more flags in gives more flags out.
pub proof fn lemma_round_mono(funcs: Seq<Function>, a: Seq<bool>, b: Seq<bool>)
    requires
        flags_le(a, b),
    ensures
        flags_le(escape_round(funcs, a), escape_round(funcs, b)),
{
    let ca = callee_fn(funcs, a);
    let cb = callee_fn(funcs, b);
    assert(callee_le(ca, cb)) by {
        assert forall|n: Seq<char>| #[trigger] ca(n) implies cb(n) by {
            let j = choose|j: int|
                0 <= j < funcs.len() && j < a.len() && #[trigger] funcs[j].name@ == n && a[j];
            assert(b[j]);
        }
    }
    assert forall|j: int| 0 <= j < funcs.len() && #[trigger] escape_round(funcs, a)[j] implies escape_round(
        funcs,
        b,
    )[j] by {
        let f = funcs[j];
        let r = f.result->0;
        lemma_seq_mono(f.instructions@, initial_state(f), initial_state(f), ca, cb);
    }
}

} // verus!

verus! {

/// Per function, whether its result may escape (indexed like the program's
/// functions).
pub struct CalleeMap<'a> {
    pub functions: &'a [Function],
    pub return_escapes: Vec<bool>,
}

impl<'a> CalleeMap<'a> {
    pub open spec fn callee(&self) -> spec_fn(Seq<char>) -> bool {
        callee_fn(self.functions@, self.return_escapes@)
    }

    /// Whether some function named `name` is flagged.
    pub fn escapes(&self, name: &String) -> (r: bool)
        ensures
            r == callee_flag(self.functions@, self.return_escapes@, name@),
    {
        let mut j: usize = 0;
        while j < self.functions.len()
            invariant
                j <= self.functions.len(),
                forall|k: int|
                    0 <= k < j ==> !(k < self.return_escapes@.len() && #[trigger] self.functions@[k].name@
                        == name@ && self.return_escapes@[k]),
            decreases self.functions.len() - j,
        {
            if j < self.return_escapes.len() && self.return_escapes[j] && self.functions[j].name
                == *name {
                return true;
            }
            j = j + 1;
        }
        false
    }
}

fn copy_flags(v: &Vec<bool>) -> (r: Vec<bool>)
    ensures
        r@ == v@,
{
    let mut out: Vec<bool> = Vec::new();
    let mut i: usize = 0;
    while i < v.len()
        invariant
            i <= v.len(),
            out@ == v@.take(i as int),
        decreases v.len() - i,
    {
        out.push(v[i]);
        assert(v@.take(i + 1) =~= v@.take(i as int).push(v@[i as int]));
        i = i + 1;
    }
    assert(v@.take(v.len() as int) =~= v@);
    out
}

fn false_flags(n: usize) -> (r: Vec<bool>)
    ensures
        r@ == Seq::new(n as nat, |i: int| false),
{
    let mut out: Vec<bool> = Vec::new();
    let mut i: usize = 0;
    while i < n
        invariant
            i <= n,
            out@ == Seq::new(i as nat, |k: int| false),
        decreases n - i,
    {
        out.push(false);
        assert(out@ =~= Seq::new((i + 1) as nat, |k: int| false));
        i = i + 1;
    }
    out
}

fn flags_equal(a: &Vec<bool>, b: &Vec<bool>) -> (r: bool)
    ensures
        r == (a@ == b@),
{
    if a.len() != b.len() {
        return false;
    }
    let mut i: usize = 0;
    while i < a.len()
        invariant
            i <= a.len(),
            a.len() == b.len(),
            forall|k: int| 0 <= k < i ==> a@[k] == b@[k],
        decreases a.len() - i,
    {
        if a[i] != b[i] {
            return false;
        }
        i = i + 1;
    }
    assert(a@ =~= b@);
    true
}

/// The analysis state of one function body.
struct Env<'a> {
    escaped: Vec<bool>,
    esc_locals: Vec<bool>,
    callee_map: &'a CalleeMap<'a>,
}

impl<'a> Env<'a> {
    spec fn state(&self) -> EscState {
        EscState { escaped: self.escaped@, locals: self.esc_locals@ }
    }

    spec fn callee(&self) -> spec_fn(Seq<char>) -> bool {
        self.callee_map.callee()
    }

    fn mark(&mut self, value: ValueId)
        ensures
            final(self).state() == mark(old(self).state(), value),
            final(self).callee_map == old(self).callee_map,
    {
        let idx = value.0 as usize;
        if idx < self.escaped.len() {
            self.escaped.set(idx, true);
        }
    }

    fn is_escaped(&self, value: ValueId) -> (r: bool)
        ensures
            r == is_esc(self.state(), value),
    {
        let idx = value.0 as usize;
        idx < self.escaped.len() && self.escaped[idx]
    }

    fn is_opt_escaped(&self, value: Option<ValueId>) -> (r: bool)
        ensures
            r == opt_esc(self.state(), value),
    {
        match value {
            Some(v) => self.is_escaped(v),
            None => false,
        }
    }

    fn analyze(&mut self, insts: &[Inst])
        ensures
            final(self).state() == analyze_seq(insts@, old(self).state(), old(self).callee()),
            final(self).callee_map == old(self).callee_map,
        decreases insts@, 0nat,
    {
        let ghost s0 = self.state();
        let mut k: usize = 0;
        assert(insts@.subrange(0, 0) =~= Seq::<Inst>::empty());
        while k < insts.len()
            invariant
                k <= insts.len(),
                self.callee_map == old(self).callee_map,
                self.state() == analyze_seq(insts@.subrange(0, k as int), s0, old(self).callee()),
            decreases insts.len() - k,
        {
            let ghost p = insts@.subrange(0, k + 1);
            assert(p.subrange(0, p.len() - 1) =~= insts@.subrange(0, k as int));
            assert(p[p.len() - 1] == insts@[k as int]);
            assert(decreases_to!(insts@ => insts@[k as int]));
            self.analyze_inst(&insts[k]);
            k = k + 1;
        }
        assert(insts@.subrange(0, insts.len() as int) =~= insts@);
    }

    /// Runs loop passes until the flags stop changing.
    fn analyze_loop(&mut self, inst: &Inst)
        requires
            inst is While || inst is Repeat,
        ensures
            final(self).state() == iterate(*inst, old(self).state(), old(self).callee()),
            final(self).callee_map == old(self).callee_map,
        decreases *inst, 0nat,
    {
        let ghost s0 = self.state();
        let ghost c = self.callee();
        loop
            invariant
                self.callee_map == old(self).callee_map,
                c == self.callee(),
                inst is While || inst is Repeat,
                iterate(*inst, s0, c) == iterate(*inst, self.state(), c),
            ensures
                iterate(*inst, s0, c) == self.state(),
            decreases state_measure(self.state()),
        {
            let ghost cur = self.state();
            let old_esc = copy_flags(&self.escaped);
            let old_loc = copy_flags(&self.esc_locals);
            match inst {
                Inst::While { condition_insts, body_insts, .. } => {
                    self.analyze(condition_insts.as_slice());
                    self.analyze(body_insts.as_slice());
                },
                Inst::Repeat { body_insts, .. } => {
                    self.analyze(body_insts.as_slice());
                },
                _ => {},
            }
            assert(self.state() == loop_pass(*inst, cur, c));
            proof {
                lemma_pass_grows(*inst, cur, c);
                lemma_state_measure_le(cur, self.state());
            }
            if flags_equal(&self.escaped, &old_esc) && flags_equal(&self.esc_locals, &old_loc) {
                assert(self.state() == cur);
                break;
            }
        }
    }

    fn analyze_arm(&mut self, arm: &HandleArm, dest: ValueId)
        ensures
            final(self).state() == ({
                let after = analyze_seq(arm.body_insts@, old(self).state(), old(self).callee());
                mark_if(after, dest, opt_esc(after, arm.body_result))
            }),
            final(self).callee_map == old(self).callee_map,
        decreases *arm, 0nat,
    {
        assert(decreases_to!(*arm => arm.body_insts@));
        self.analyze(arm.body_insts.as_slice());
        if self.is_opt_escaped(arm.body_result) {
            self.mark(dest);
        }
    }

    fn analyze_arms(&mut self, arms: &Vec<HandleArm>, dest: ValueId)
        ensures
            final(self).state() == analyze_arms(arms@, old(self).state(), old(self).callee(), dest),
            final(self).callee_map == old(self).callee_map,
        decreases arms@, 0nat,
    {
        let ghost c = self.callee();
        let ghost s1 = self.state();
        let mut i: usize = 0;
        assert(arms@.subrange(0, 0) =~= Seq::<HandleArm>::empty());
        while i < arms.len()
            invariant
                i <= arms.len(),
                self.callee_map == old(self).callee_map,
                c == self.callee(),
                self.state() == analyze_arms(arms@.subrange(0, i as int), s1, c, dest),
            decreases arms.len() - i,
        {
            let ghost p = arms@.subrange(0, i + 1);
            assert(p.subrange(0, p.len() - 1) =~= arms@.subrange(0, i as int));
            assert(p[p.len() - 1] == arms@[i as int]);
            assert(decreases_to!(arms@ => arms@[i as int]));
            self.analyze_arm(&arms[i], dest);
            i = i + 1;
        }
        assert(arms@.subrange(0, arms.len() as int) =~= arms@);
    }

    fn analyze_inst(&mut self, inst: &Inst)
        ensures
            final(self).state() == analyze_inst(*inst, old(self).state(), old(self).callee()),
            final(self).callee_map == old(self).callee_map,
        decreases *inst, 1nat,
    {
        match inst {
            Inst::TextBuilderNew { dest } | Inst::ListNew { dest, .. } | Inst::TextConcat {
                dest,
                ..
            } | Inst::TextSlice { dest, .. } | Inst::TextFromF64Fixed { dest, .. }
            | Inst::ArgText { dest, .. } | Inst::StdinText { dest } | Inst::TextBuilderAppend {
                dest,
                ..
            } | Inst::TextBuilderAppendCodepoint { dest, .. } | Inst::ListSet { dest, .. }
            | Inst::TextBuilderFinish { dest, .. } | Inst::Perform { dest, .. } => {
                self.mark(*dest);
            },
            Inst::ListGet { dest, list, .. } => {
                if self.is_escaped(*list) {
                    self.mark(*dest);
                }
            },
            Inst::LoadLocal { dest, slot } => {
                let idx = slot.0 as usize;
                if idx < self.esc_locals.len() && self.esc_locals[idx] {
                    self.mark(*dest);
                }
            },
            Inst::StoreLocal { slot, src } => {
                if self.is_escaped(*src) {
                    let idx = slot.0 as usize;
                    if idx < self.esc_locals.len() {
                        self.esc_locals.set(idx, true);
                    }
                }
            },
            Inst::MakeRecord { dest, fields, .. } => {
                let mut any = false;
                let mut i: usize = 0;
                while i < fields.len()
                    invariant
                        i <= fields.len(),
                        any == exists|k: int|
                            0 <= k < i && is_esc(self.state(), #[trigger] fields@[k].1),
                    decreases fields.len() - i,
                {
                    if self.is_escaped(fields[i].1) {
                        any = true;
                    }
                    i = i + 1;
                }
                if any {
                    self.mark(*dest);
                }
            },
            Inst::MakeEnum { dest, payload, .. } => {
                if self.is_opt_escaped(*payload) {
                    self.mark(*dest);
                }
            },
            Inst::Field { dest, base, .. } => {
                if self.is_escaped(*base) {
                    self.mark(*dest);
                }
            },
            Inst::EnumPayload { dest, value, .. } => {
                if self.is_escaped(*value) {
                    self.mark(*dest);
                }
            },
            Inst::Call { dest, callee, args } => {
                let mut any = self.callee_map.escapes(callee);
                let mut i: usize = 0;
                while i < args.len()
                    invariant
                        i <= args.len(),
                        any == (callee_flag(
                            self.callee_map.functions@,
                            self.callee_map.return_escapes@,
                            callee@,
                        ) || exists|k: int| 0 <= k < i && is_esc(self.state(), #[trigger] args@[k])),
                    decreases args.len() - i,
                {
                    if self.is_escaped(args[i]) {
                        any = true;
                    }
                    i = i + 1;
                }
                if any {
                    self.mark(*dest);
                }
            },
            Inst::If { dest, then_insts, then_result, else_insts, else_result, .. } => {
                let ghost s0 = self.state();
                let ghost c = self.callee();
                let before_locals = copy_flags(&self.esc_locals);
                self.analyze(then_insts.as_slice());
                let ghost t = self.state();
                let then_locals = copy_flags(&self.esc_locals);
                self.esc_locals = before_locals;
                self.analyze(else_insts.as_slice());
                let ghost e = self.state();
                let mut i: usize = 0;
                while i < self.esc_locals.len()
                    invariant
                        i <= self.esc_locals.len(),
                        self.esc_locals@.len() == e.locals.len(),
                        self.escaped@ == e.escaped,
                        self.callee_map == old(self).callee_map,
                        then_locals@ == t.locals,
                        forall|k: int|
                            0 <= k < self.esc_locals@.len() ==> #[trigger] self.esc_locals@[k] == if k
                                < i {
                                merge_flags(e.locals, t.locals)[k]
                            } else {
                                e.locals[k]
                            },
                    decreases self.esc_locals.len() - i,
                {
                    if i < then_locals.len() && then_locals[i] {
                        self.esc_locals.set(i, true);
                    }
                    i = i + 1;
                }
                assert(self.esc_locals@ =~= merge_flags(e.locals, t.locals));
                if self.is_opt_escaped(*then_result) || self.is_opt_escaped(*else_result) {
                    self.mark(*dest);
                }
            },
            Inst::While { dest, .. } | Inst::Repeat { dest, .. } => {
                self.analyze_loop(inst);
                self.mark(*dest);
            },
            Inst::Handle { dest, body_insts, body_result, arms } => {
                let ghost c = self.callee();
                self.analyze(body_insts.as_slice());
                if self.is_opt_escaped(*body_result) {
                    self.mark(*dest);
                }
                assert(decreases_to!(*inst => arms@));
                self.analyze_arms(arms, *dest);
            },
            _ => {},
        }
    }
}

} // verus!

verus! {

/// A finding of an analysis: a stable code, a message, the span it is about
/// and an optional hint.
#[derive(Debug)]
pub struct Diagnostic {
    pub code: String,
    pub message: String,
    pub span: Span,
    pub help: Option<String>,
}

pub struct DiagnosticView {
    pub code: Seq<char>,
    pub message: Seq<char>,
    pub span: Span,
    pub help: Option<Seq<char>>,
}

impl Diagnostic {
    pub open spec fn view(&self) -> DiagnosticView {
        DiagnosticView {
            code: self.code@,
            message: self.message@,
            span: self.span,
            help: match self.help {
                Some(h) => Some(h@),
                None => None,
            },
        }
    }
}

pub open spec fn diag_views(s: Seq<Diagnostic>) -> Seq<DiagnosticView> {
    s.map_values(|d: Diagnostic| d.view())
}

pub open spec fn return_type_text(f: Function) -> Seq<char> {
    match f.return_type {
        Some(t) => t@,
        None => "Unit"@,
    }
}

pub open spec fn escape_message(f: Function) -> Seq<char> {
    "function `"@ + f.name@ + "` with `alloc` effect returns `"@ + return_type_text(f)
        + "` that may reference arena memory"@
}

pub open spec fn escape_help() -> Seq<char> {
    "Stage-1 requires all returned values to be escape-safe. If the return value does not reference arena memory, remove the `alloc` effect."@
}

pub open spec fn escape_diagnostic(f: Function) -> DiagnosticView {
    DiagnosticView {
        code: "escape.analysis.required"@,
        message: escape_message(f),
        span: f.span,
        help: Some(escape_help()),
    }
}

/// The diagnostics for the functions whose result escapes, in order.
pub open spec fn expected_diagnostics(funcs: Seq<Function>, c: spec_fn(Seq<char>) -> bool) -> Seq<
    DiagnosticView,
>
    decreases funcs.len(),
{
    if funcs.len() == 0 {
        Seq::empty()
    } else {
        let rest = expected_diagnostics(funcs.drop_last(), c);
        if function_escapes(funcs.last(), c) {
            rest.push(escape_diagnostic(funcs.last()))
        } else {
            rest
        }
    }
}

fn value_may_escape(value: ValueId, function: &Function, callee_map: &CalleeMap) -> (r: bool)
    ensures
        r == spec_value_may_escape(value, *function, callee_map.callee()),
{
    let mut env = Env {
        escaped: false_flags(function.value_count as usize),
        esc_locals: false_flags(function.slot_count as usize),
        callee_map,
    };
    assert(env.state() == initial_state(*function));
    env.analyze(function.instructions.as_slice());
    env.is_escaped(value)
}

fn has_alloc(function: &Function) -> (r: bool)
    ensures
        r == has_alloc_effect(*function),
{
    let alloc = String::from_str("alloc");
    let mut i: usize = 0;
    while i < function.effects.len()
        invariant
            i <= function.effects.len(),
            alloc@ == "alloc"@,
            forall|k: int| 0 <= k < i ==> #[trigger] function.effects@[k]@ != "alloc"@,
        decreases function.effects.len() - i,
    {
        if function.effects[i] == alloc {
            return true;
        }
        i = i + 1;
    }
    false
}

fn return_can_hold(function: &Function) -> (r: bool)
    ensures
        r == returns_arena_type(*function),
{
    match &function.return_type {
        Some(t) => type_can_hold_arena_memory(t.as_str()),
        None => false,
    }
}

fn function_may_escape(function: &Function, callee_map: &CalleeMap) -> (r: bool)
    ensures
        r == function_escapes(*function, callee_map.callee()),
{
    match function.result {
        Some(result) => has_alloc(function) && return_can_hold(function) && value_may_escape(
            result,
            function,
            callee_map,
        ),
        None => false,
    }
}

fn analyze_function(function: &Function, callee_map: &CalleeMap) -> (r: Vec<Diagnostic>)
    ensures
        diag_views(r@) == if function_escapes(
            *function,
            callee_map.callee(),
        ) {
            seq![escape_diagnostic(*function)]
        } else {
            Seq::empty()
        },
{
    let result = match function.result {
        Some(v) => v,
        None => {
            let out: Vec<Diagnostic> = Vec::new();
            assert(diag_views(out@) =~= Seq::empty());
            return out;
        },
    };
    if !has_alloc(function) || !return_can_hold(function) || !value_may_escape(
        result,
        function,
        callee_map,
    ) {
        let out: Vec<Diagnostic> = Vec::new();
        assert(diag_views(out@) =~= Seq::empty());
        return out;
    }
    let mut message = String::from_str("function `");
    message.append(function.name.as_str());
    message.append("` with `alloc` effect returns `");
    match &function.return_type {
        Some(t) => message.append(t.as_str()),
        None => message.append("Unit"),
    }
    message.append("` that may reference arena memory");
    let help = String::from_str(
        "Stage-1 requires all returned values to be escape-safe. If the return value does not reference arena memory, remove the `alloc` effect.",
    );
    let d = Diagnostic {
        code: String::from_str("escape.analysis.required"),
        message,
        span: function.span,
        help: Some(help),
    };
    let mut out: Vec<Diagnostic> = Vec::new();
    out.push(d);
    assert(diag_views(out@) =~= seq![escape_diagnostic(*function)]);
    out
}

/// Reports every function with the `alloc` effect whose returned value may
/// reference arena memory, after computing which functions' results escape
/// (a fixed point over the call graph).
pub fn analyze_escapes(program: &Program) -> (r: Vec<Diagnostic>)
    requires
        names_distinct(program.functions@),
    ensures
        diag_views(r@) == expected_diagnostics(
            program.functions@,
            callee_fn(program.functions@, final_flags(program.functions@)),
        ),
{
    let ghost funcs = program.functions@;
    let n = program.functions.len();
    let mut map = CalleeMap { functions: program.functions.as_slice(), return_escapes: false_flags(n) };
    let ghost init = map.return_escapes@;
    assert(flags_le(init, escape_round(funcs, init)));
    loop
        invariant
            map.functions@ == funcs,
            program.functions@ == funcs,
            n == funcs.len(),
            map.return_escapes@.len() == n,
            names_distinct(funcs),
            flags_le(map.return_escapes@, escape_round(funcs, map.return_escapes@)),
            escape_fix(funcs, map.return_escapes@) == escape_fix(funcs, init),
        ensures
            map.functions@ == funcs,
            map.return_escapes@ == escape_fix(funcs, init),
        decreases count_false(map.return_escapes@),
    {
        let ghost flags = map.return_escapes@;
        let snapshot = CalleeMap {
            functions: program.functions.as_slice(),
            return_escapes: copy_flags(&map.return_escapes),
        };
        let mut changed = false;
        let mut j: usize = 0;
        while j < n
            invariant
                j <= n,
                n == funcs.len(),
                flags.len() == n,
                program.functions@ == funcs,
                map.functions@ == funcs,
                snapshot.functions@ == funcs,
                snapshot.return_escapes@ == flags,
                map.return_escapes@.len() == n,
                forall|k: int| 0 <= k < j ==> map.return_escapes@[k] == escape_round(funcs, flags)[k],
                forall|k: int| j <= k < n ==> map.return_escapes@[k] == flags[k],
                changed == exists|k: int| 0 <= k < j && escape_round(funcs, flags)[k] != flags[k],
            decreases n - j,
        {
            let may_escape = function_may_escape(&program.functions[j], &snapshot);
            assert(may_escape == escape_round(funcs, flags)[j as int]);
            if map.return_escapes[j] != may_escape {
                assert(escape_round(funcs, flags)[j as int] != flags[j as int]);
                map.return_escapes.set(j, may_escape);
                changed = true;
            }
            j = j + 1;
        }
        let ghost next = escape_round(funcs, flags);
        assert(map.return_escapes@ =~= next);
        if !changed {
            assert(next =~= flags);
            break;
        }
        proof {
            lemma_count_false_le(flags, next);
            lemma_round_mono(funcs, flags, next);
        }
    }
    let mut out: Vec<Diagnostic> = Vec::new();
    let ghost c = map.callee();
    let mut j: usize = 0;
    while j < n
        invariant
            j <= n,
            n == funcs.len(),
            program.functions@ == funcs,
            map.functions@ == funcs,
            c == map.callee(),
            diag_views(out@) == expected_diagnostics(funcs.take(j as int), c),
        decreases n - j,
    {
        let mut diags = analyze_function(&program.functions[j], &map);
        let ghost before = out@;
        let ghost dv = diag_views(diags@);
        assert(dv.len() == diags@.len());
        if diags.len() > 0 {
            let d = diags.remove(0);
            assert(d.view() == dv[0]);
            assert(function_escapes(funcs[j as int], c));
            assert(d.view() == escape_diagnostic(funcs[j as int]));
            out.push(d);
            assert(out@ == before.push(d));
            assert(diag_views(out@) =~= diag_views(before).push(d.view()));
        } else {
            assert(dv.len() == 0);
            assert(!function_escapes(funcs[j as int], c));
        }
        assert(funcs.take(j + 1).drop_last() =~= funcs.take(j as int));
        assert(funcs.take(j + 1).last() == funcs[j as int]);
        let ghost e_prev = expected_diagnostics(funcs.take(j as int), c);
        assert(expected_diagnostics(funcs.take(j + 1), c) == if function_escapes(funcs[j as int], c) {
            e_prev.push(escape_diagnostic(funcs[j as int]))
        } else {
            e_prev
        });
        assert(diag_views(out@) =~= expected_diagnostics(
            funcs.take(j + 1),
            c,
        ));
        j = j + 1;
    }
    assert(funcs.take(n as int) =~= funcs);
    out
}

} // verus!

verus! {

proof fn lemma_fix_is_fixpoint(funcs: Seq<Function>, flags: Seq<bool>)
    requires
        flags.len() == funcs.len(),
        flags_le(flags, escape_round(funcs, flags)),
    ensures
        escape_round(funcs, escape_fix(funcs, flags)) == escape_fix(funcs, flags),
    decreases count_false(flags),
{
    let next = escape_round(funcs, flags);
    if next != flags {
        lemma_count_false_le(flags, next);
        lemma_round_mono(funcs, flags, next);
        lemma_fix_is_fixpoint(funcs, next);
    }
}

/// The interprocedural analysis settles on a fixed point: one more round
/// over the functions, with the flags it settled on, changes no flag.
pub proof fn lemma_final_flags_are_fixed(funcs: Seq<Function>)
    ensures
        escape_round(funcs, final_flags(funcs)) == final_flags(funcs),
{
    let start = Seq::new(funcs.len(), |j: int| false);
    assert(flags_le(start, escape_round(funcs, start)));
    lemma_fix_is_fixpoint(funcs, start);
}

/// Every instruction that makes a new value in the arena (a text builder or
/// its appends and result, a new or updated list, a concatenated or sliced
/// text, a formatted float, an argument or the standard input as text, or a
/// handled operation's result) marks its destination as escaping, whatever
/// was marked before.
pub proof fn lemma_arena_values_escape(inst: Inst, s: EscState, c: spec_fn(Seq<char>) -> bool)
    ensures
        match inst {
            Inst::TextBuilderNew { dest } | Inst::ListNew { dest, .. } | Inst::TextConcat { dest, .. }
            | Inst::TextSlice { dest, .. } | Inst::TextFromF64Fixed { dest, .. } | Inst::ArgText { dest, .. }
            | Inst::StdinText { dest } | Inst::TextBuilderAppend { dest, .. }
            | Inst::TextBuilderAppendCodepoint { dest, .. } | Inst::ListSet { dest, .. }
            | Inst::TextBuilderFinish { dest, .. } | Inst::Perform { dest, .. } => (dest.0 as int) < s.escaped.len()
                ==> analyze_inst(inst, s, c).escaped[dest.0 as int],
            _ => true,
        },
{
}

/// Concatenating texts makes an arena value: after the instruction its
/// destination escapes.
pub proof fn lemma_text_concat_escapes(dest: ValueId, left: ValueId, right: ValueId, s: EscState, c: spec_fn(Seq<char>) -> bool)
    requires
        (dest.0 as int) < s.escaped.len(),
    ensures
        is_esc(analyze_inst(Inst::TextConcat { dest, left, right }, s, c), dest),
{
}

/// How escaping flows through the instructions that do not allocate: a
/// value read out of an escaping list, record or enum (`ListGet`, `Field`,
/// `EnumPayload`) escapes; a call's result escapes when its callee's result
/// may escape or one of its arguments escapes; a local that holds an
/// escaping value makes its loads escape; constants, parameters and pure
/// integer, float and text computations mark nothing.
pub proof fn lemma_escape_flows(inst: Inst, s: EscState, c: spec_fn(Seq<char>) -> bool)
    ensures
        match inst {
            Inst::ListGet { dest, list, .. } => is_esc(s, list) && (dest.0 as int) < s.escaped.len() ==> is_esc(
                analyze_inst(inst, s, c),
                dest,
            ),
            Inst::Field { dest, base, .. } => is_esc(s, base) && (dest.0 as int) < s.escaped.len() ==> is_esc(
                analyze_inst(inst, s, c),
                dest,
            ),
            Inst::EnumPayload { dest, value, .. } => is_esc(s, value) && (dest.0 as int) < s.escaped.len() ==> is_esc(
                analyze_inst(inst, s, c),
                dest,
            ),
            Inst::Call { dest, callee, args } => (c(callee@) || exists|i: int|
                0 <= i < args@.len() && is_esc(s, #[trigger] args@[i])) && (dest.0 as int) < s.escaped.len()
                ==> is_esc(analyze_inst(inst, s, c), dest),
            Inst::LoadLocal { dest, slot } => (slot.0 as int) < s.locals.len() && s.locals[slot.0 as int] && (dest.0 as int)
                < s.escaped.len() ==> is_esc(analyze_inst(inst, s, c), dest),
            Inst::StoreLocal { slot, src } => is_esc(s, src) && (slot.0 as int) < s.locals.len() ==> analyze_inst(
                inst,
                s,
                c,
            ).locals[slot.0 as int],
            Inst::ConstInt { .. } | Inst::ConstF64 { .. } | Inst::ConstBool { .. } | Inst::LoadParam { .. }
            | Inst::Add { .. } | Inst::Sub { .. } | Inst::Mul { .. } | Inst::Div { .. } | Inst::Eq { .. }
            | Inst::Lt { .. } | Inst::TextLen { .. } | Inst::ListLen { .. } => analyze_inst(inst, s, c) == s,
            _ => true,
        },
{
}

} // verus!
