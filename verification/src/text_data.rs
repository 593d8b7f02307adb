//! The table of text constants that compiled code refers to.
use vstd::prelude::*;

use crate::mir::{Inst, Program};
use crate::text::text_eq;

verus! {

/// The text constants of instructions in pre-order: a constant, then those
/// of `if` branches, `while` condition and body, and `repeat` bodies.
pub open spec fn texts_in(insts: Seq<Inst>) -> Seq<Seq<char>>
    decreases insts, 0nat,
{
    if insts.len() == 0 {
        Seq::empty()
    } else {
        texts_in(insts.subrange(0, insts.len() - 1)) + texts_by(insts[insts.len() - 1])
    }
}

pub open spec fn texts_by(inst: Inst) -> Seq<Seq<char>>
    decreases inst, 0nat,
{
    match inst {
        Inst::ConstText { value, .. } => seq![value@],
        Inst::If { then_insts, else_insts, .. } => texts_in(then_insts@) + texts_in(else_insts@),
        Inst::While { condition_insts, body_insts, .. } => texts_in(condition_insts@) + texts_in(
            body_insts@,
        ),
        Inst::Repeat { body_insts, .. } => texts_in(body_insts@),
        _ => Seq::empty(),
    }
}

/// `acc` followed by each item not seen before, in order.
pub open spec fn add_new(acc: Seq<Seq<char>>, items: Seq<Seq<char>>) -> Seq<Seq<char>>
    decreases items.len(),
{
    if items.len() == 0 {
        acc
    } else {
        let a = add_new(acc, items.drop_last());
        if a.contains(items.last()) {
            a
        } else {
            a.push(items.last())
        }
    }
}

/// Adding two runs of items in turn adds their concatenation.
pub proof fn lemma_add_new_concat(acc: Seq<Seq<char>>, xs: Seq<Seq<char>>, ys: Seq<Seq<char>>)
    ensures
        add_new(add_new(acc, xs), ys) == add_new(acc, xs + ys),
    decreases ys.len(),
{
    if ys.len() == 0 {
        assert(xs + ys =~= xs);
    } else {
        lemma_add_new_concat(acc, xs, ys.drop_last());
        assert((xs + ys).drop_last() =~= xs + ys.drop_last());
        assert((xs + ys).last() == ys.last());
    }
}

/// The table holds each item exactly once, and every item it was given:
/// starting from a table without repeats, no text occurs twice and every
/// text that was added occurs.
pub proof fn lemma_add_new_unique_complete(acc: Seq<Seq<char>>, items: Seq<Seq<char>>)
    requires
        acc.no_duplicates(),
    ensures
        add_new(acc, items).no_duplicates(),
        forall|i: int| 0 <= i < items.len() ==> add_new(acc, items).contains(#[trigger] items[i]),
        forall|i: int| 0 <= i < acc.len() ==> add_new(acc, items)[i] == acc[i],
    decreases items.len(),
{
    if items.len() > 0 {
        let pre = items.drop_last();
        lemma_add_new_unique_complete(acc, pre);
        let a = add_new(acc, pre);
        assert forall|i: int| 0 <= i < items.len() implies add_new(acc, items).contains(#[trigger] items[i]) by {
            if i < items.len() - 1 {
                assert(pre[i] == items[i]);
                assert(a.contains(pre[i]));
                if !a.contains(items.last()) {
                    let j = choose|j: int| 0 <= j < a.len() && a[j] == pre[i];
                    assert(a.push(items.last())[j] == items[i]);
                }
            } else if !a.contains(items.last()) {
                assert(a.push(items.last())[a.len() as int] == items.last());
            }
        }
        lemma_add_new_prefix_len(acc, pre);
    }
}

proof fn lemma_add_new_prefix_len(acc: Seq<Seq<char>>, items: Seq<Seq<char>>)
    ensures
        add_new(acc, items).len() >= acc.len(),
    decreases items.len(),
{
    if items.len() > 0 {
        lemma_add_new_prefix_len(acc, items.drop_last());
    }
}

pub open spec fn string_views(v: Seq<String>) -> Seq<Seq<char>> {
    v.map_values(|s: String| s@)
}

fn table_contains(result: &Vec<String>, value: &str) -> (r: bool)
    ensures
        r == string_views(result@).contains(value@),
{
    let mut i: usize = 0;
    while i < result.len()
        invariant
            i <= result.len(),
            forall|k: int| 0 <= k < i ==> (#[trigger] result@[k])@ != value@,
        decreases result.len() - i,
    {
        if text_eq(result[i].as_str(), value) {
            assert(string_views(result@)[i as int] == value@);
            return true;
        }
        i = i + 1;
    }
    assert(!string_views(result@).contains(value@)) by {
        if string_views(result@).contains(value@) {
            let k = choose|k: int| 0 <= k < string_views(result@).len() && string_views(result@)[k] == value@;
            assert(result@[k]@ == value@);
        }
    }
    false
}

/// Appends the text constants of the instructions that the table does not
/// hold yet, in pre-order (see `texts_in`).
pub fn collect_inst_text_data(insts: &[Inst], result: &mut Vec<String>)
    ensures
        string_views(final(result)@) == add_new(string_views(old(result)@), texts_in(insts@)),
    decreases insts@,
{
    let ghost acc0 = string_views(result@);
    let mut k: usize = 0;
    assert(insts@.subrange(0, 0) =~= Seq::<Inst>::empty());
    while k < insts.len()
        invariant
            k <= insts.len(),
            string_views(result@) == add_new(acc0, texts_in(insts@.subrange(0, k as int))),
        decreases insts.len() - k,
    {
        let ghost pre = insts@.subrange(0, k + 1);
        assert(pre.subrange(0, pre.len() - 1) =~= insts@.subrange(0, k as int));
        let inst = &insts[k];
        assert(pre[pre.len() - 1] == *inst);
        let ghost before = string_views(result@);
        assert(decreases_to!(insts@ => insts@[k as int]));
        match inst {
            Inst::ConstText { value, .. } => {
                if !table_contains(result, value.as_str()) {
                    result.push(value.clone());
                    assert(string_views(result@) =~= before.push(value@));
                }
                assert(seq![value@].drop_last() =~= Seq::<Seq<char>>::empty());
                assert(seq![value@].last() == value@);
                assert(add_new(before, Seq::<Seq<char>>::empty()) == before);
                assert(string_views(result@) == add_new(before, seq![value@]));
            },
            Inst::If { then_insts, else_insts, .. } => {
                collect_inst_text_data(then_insts.as_slice(), result);
                collect_inst_text_data(else_insts.as_slice(), result);
                proof {
                    lemma_add_new_concat(before, texts_in(then_insts@), texts_in(else_insts@));
                }
            },
            Inst::While { condition_insts, body_insts, .. } => {
                collect_inst_text_data(condition_insts.as_slice(), result);
                collect_inst_text_data(body_insts.as_slice(), result);
                proof {
                    lemma_add_new_concat(before, texts_in(condition_insts@), texts_in(body_insts@));
                }
            },
            Inst::Repeat { body_insts, .. } => {
                collect_inst_text_data(body_insts.as_slice(), result);
            },
            _ => {
                assert(string_views(result@) == add_new(before, Seq::empty()));
            },
        }
        assert(string_views(result@) == add_new(before, texts_by(*inst)));
        proof {
            lemma_add_new_concat(acc0, texts_in(insts@.subrange(0, k as int)), texts_by(*inst));
        }
        k = k + 1;
    }
    assert(insts@.subrange(0, insts@.len() as int) =~= insts@);
}

/// The text constants of all functions, in order.
pub open spec fn program_texts(fs: Seq<crate::mir::Function>) -> Seq<Seq<char>>
    decreases fs.len(),
{
    if fs.len() == 0 {
        Seq::empty()
    } else {
        program_texts(fs.drop_last()) + texts_in(fs.last().instructions@)
    }
}

/// Each text constant of the program once, in order of first occurrence.
pub fn collect_text_data_strings(program: &Program) -> (r: Vec<String>)
    ensures
        string_views(r@) == add_new(Seq::empty(), program_texts(program.functions@)),
{
    let mut result: Vec<String> = Vec::new();
    let mut i: usize = 0;
    assert(string_views(result@) =~= Seq::<Seq<char>>::empty());
    assert(program.functions@.take(0) =~= Seq::<crate::mir::Function>::empty());
    while i < program.functions.len()
        invariant
            i <= program.functions.len(),
            string_views(result@) == add_new(Seq::empty(), program_texts(program.functions@.take(i as int))),
        decreases program.functions.len() - i,
    {
        let ghost before = string_views(result@);
        collect_inst_text_data(program.functions[i].instructions.as_slice(), &mut result);
        let ghost t = program.functions@.take(i + 1);
        assert(t.drop_last() =~= program.functions@.take(i as int));
        assert(t.last() == program.functions@[i as int]);
        proof {
            lemma_add_new_concat(
                Seq::empty(),
                program_texts(program.functions@.take(i as int)),
                texts_in(program.functions@[i as int].instructions@),
            );
        }
        i = i + 1;
    }
    assert(program.functions@.take(program.functions.len() as int) =~= program.functions@);
    result
}

} // verus!
