//! The list accesses inside a `repeat` body that need no bounds check: a
//! list that the body does not redefine, indexed by the loop counter.
use vstd::prelude::*;

use crate::analysis::{inst_dest, spec_inst_dest};
use crate::mir::{Inst, LocalSlotId, ValueId};

verus! {

/// A set of IR values, held in ascending order of their numbers.
pub struct ValueSet {
    pub ids: Vec<ValueId>,
}

/// The ids are in strictly ascending order of their numbers.
pub open spec fn ascending(ids: Seq<ValueId>) -> bool {
    forall|i: int, j: int| 0 <= i < j < ids.len() ==> (#[trigger] ids[i]).0 < (#[trigger] ids[j]).0
}

impl View for ValueSet {
    type V = Set<u32>;

    open spec fn view(&self) -> Set<u32> {
        Set::new(|x: u32| exists|i: int| 0 <= i < self.ids@.len() && (#[trigger] self.ids@[i]).0 == x)
    }
}

impl ValueSet {
    pub fn new() -> (r: ValueSet)
        ensures
            r@ == Set::<u32>::empty(),
            ascending(r.ids@),
    {
        let r = ValueSet { ids: Vec::new() };
        assert(r@ =~= Set::<u32>::empty());
        r
    }

    pub fn contains(&self, v: ValueId) -> (r: bool)
        ensures
            r == self@.contains(v.0),
    {
        let mut i: usize = 0;
        while i < self.ids.len()
            invariant
                i <= self.ids.len(),
                forall|k: int| 0 <= k < i ==> (#[trigger] self.ids@[k]).0 != v.0,
            decreases self.ids.len() - i,
        {
            if self.ids[i].0 == v.0 {
                assert(self@.contains(v.0));
                return true;
            }
            i = i + 1;
        }
        false
    }

    /// Adds `v`, keeping the ids in ascending order.
    pub fn insert(&mut self, v: ValueId)
        ensures
            final(self)@ == old(self)@.insert(v.0),
            ascending(old(self).ids@) ==> ascending(final(self).ids@),
    {
        if !self.contains(v) {
            let ghost before = self.ids@;
            let mut p: usize = 0;
            while p < self.ids.len() && self.ids[p].0 < v.0
                invariant
                    p <= self.ids@.len(),
                    self.ids@ == before,
                    forall|k: int| 0 <= k < p ==> (#[trigger] before[k]).0 < v.0,
                decreases self.ids@.len() - p,
            {
                p = p + 1;
            }
            assert(p < before.len() ==> before[p as int].0 >= v.0);
            self.ids.insert(p, v);
            assert(self.ids@ == before.insert(p as int, v));
            assert forall|x: u32| #[trigger] self@.contains(x) == old(self)@.insert(v.0).contains(x) by {
                if x != v.0 && self@.contains(x) {
                    let i = choose|i: int| 0 <= i < self.ids@.len() && (#[trigger] self.ids@[i]).0 == x;
                    if i < p {
                        assert(before[i].0 == x);
                    } else {
                        assert(i != p);
                        assert(before[i - 1].0 == x);
                    }
                }
                if old(self)@.contains(x) {
                    let i = choose|i: int| 0 <= i < before.len() && (#[trigger] before[i]).0 == x;
                    if i < p {
                        assert(self.ids@[i].0 == x);
                    } else {
                        assert(self.ids@[i + 1].0 == x);
                    }
                }
                if x == v.0 {
                    assert(self.ids@[p as int].0 == x);
                }
            }
            proof {
            if ascending(before) {
                assert forall|i: int, j: int| 0 <= i < j < self.ids@.len() implies (#[trigger] self.ids@[i]).0 < (
                #[trigger] self.ids@[j]).0 by {
                    if p < before.len() {
                        assert(before[p as int].0 != v.0) by {
                            assert(!old(self)@.contains(v.0));
                            if before[p as int].0 == v.0 {
                                assert(old(self)@.contains(v.0));
                            }
                        }
                    }
                    if j < p {
                    } else if j == p {
                    } else if i < p {
                        assert(self.ids@[j] == before[j - 1]);
                        if p < before.len() {
                            assert(before[p as int].0 <= before[j - 1].0 || j - 1 == p);
                        }
                    } else if i == p {
                        assert(self.ids@[j] == before[j - 1]);
                        assert(before[p as int].0 <= before[j - 1].0 || j - 1 == p);
                    } else {
                        assert(self.ids@[i] == before[i - 1]);
                        assert(self.ids@[j] == before[j - 1]);
                    }
                }
            }
            }
            assert(self@ =~= old(self)@.insert(v.0));
        } else {
            assert(self@ =~= old(self)@.insert(v.0));
        }
    }
}

/// The values that instructions define, with those defined in nested
/// `if`, `while` and `repeat` blocks.
pub open spec fn defined_in(insts: Seq<Inst>) -> Set<u32>
    decreases insts, 0nat,
{
    if insts.len() == 0 {
        Set::empty()
    } else {
        defined_in(insts.subrange(0, insts.len() - 1)).union(defined_by(insts[insts.len() - 1]))
    }
}

pub open spec fn defined_by(inst: Inst) -> Set<u32>
    decreases inst, 0nat,
{
    let own = match spec_inst_dest(inst) {
        Some(d) => set![d.0],
        None => Set::empty(),
    };
    own.union(
        match inst {
            Inst::If { then_insts, else_insts, .. } => defined_in(then_insts@).union(
                defined_in(else_insts@),
            ),
            Inst::While { condition_insts, body_insts, .. } => defined_in(condition_insts@).union(
                defined_in(body_insts@),
            ),
            Inst::Repeat { body_insts, .. } => defined_in(body_insts@),
            _ => Set::empty(),
        },
    )
}

/// The values loaded from the loop counter's slot, also inside nested `if`
/// and `while` blocks.
pub open spec fn index_loads_in(insts: Seq<Inst>, slot: LocalSlotId) -> Set<u32>
    decreases insts, 0nat,
{
    if insts.len() == 0 {
        Set::empty()
    } else {
        index_loads_in(insts.subrange(0, insts.len() - 1), slot).union(
            index_loads_by(insts[insts.len() - 1], slot),
        )
    }
}

pub open spec fn index_loads_by(inst: Inst, slot: LocalSlotId) -> Set<u32>
    decreases inst, 0nat,
{
    match inst {
        Inst::LoadLocal { dest, slot: s } => if s == slot {
            set![dest.0]
        } else {
            Set::empty()
        },
        Inst::If { then_insts, else_insts, .. } => index_loads_in(then_insts@, slot).union(
            index_loads_in(else_insts@, slot),
        ),
        Inst::While { condition_insts, body_insts, .. } => index_loads_in(condition_insts@, slot).union(
            index_loads_in(body_insts@, slot),
        ),
        _ => Set::empty(),
    }
}

/// The (list, index) pairs of list reads and writes whose index is a loop
/// counter load and whose list is not defined in the body, also inside
/// nested `if` and `while` blocks.
pub open spec fn pairs_in(insts: Seq<Inst>, defined: Set<u32>, loads: Set<u32>) -> Set<(u32, u32)>
    decreases insts, 0nat,
{
    if insts.len() == 0 {
        Set::empty()
    } else {
        pairs_in(insts.subrange(0, insts.len() - 1), defined, loads).union(
            pairs_by(insts[insts.len() - 1], defined, loads),
        )
    }
}

pub open spec fn trusted_pair(list: ValueId, index: ValueId, defined: Set<u32>, loads: Set<u32>) -> Set<
    (u32, u32),
> {
    if loads.contains(index.0) && !defined.contains(list.0) {
        set![(list.0, index.0)]
    } else {
        Set::empty()
    }
}

pub open spec fn pairs_by(inst: Inst, defined: Set<u32>, loads: Set<u32>) -> Set<(u32, u32)>
    decreases inst, 0nat,
{
    match inst {
        Inst::ListGet { list, index, .. } => trusted_pair(list, index, defined, loads),
        Inst::ListSet { list, index, .. } => trusted_pair(list, index, defined, loads),
        Inst::If { then_insts, else_insts, .. } => pairs_in(then_insts@, defined, loads).union(
            pairs_in(else_insts@, defined, loads),
        ),
        Inst::While { condition_insts, body_insts, .. } => pairs_in(condition_insts@, defined, loads).union(
            pairs_in(body_insts@, defined, loads),
        ),
        _ => Set::empty(),
    }
}

/// Adds the values that the instructions define (see `defined_in`).
pub fn collect_defined_values(instructions: &[Inst], defined: &mut ValueSet)
    ensures
        final(defined)@ == old(defined)@.union(defined_in(instructions@)),
    decreases instructions@,
{
    let ghost start = defined@;
    let mut k: usize = 0;
    assert(instructions@.subrange(0, 0) =~= Seq::<Inst>::empty());
    assert(start.union(Set::empty()) =~= start);
    while k < instructions.len()
        invariant
            k <= instructions.len(),
            defined@ == start.union(defined_in(instructions@.subrange(0, k as int))),
        decreases instructions.len() - k,
    {
        let ghost pre = instructions@.subrange(0, k + 1);
        assert(pre.subrange(0, pre.len() - 1) =~= instructions@.subrange(0, k as int));
        let inst = &instructions[k];
        assert(pre[pre.len() - 1] == *inst);
        let ghost mid = defined@;
        if let Some(d) = inst_dest(inst) {
            defined.insert(d);
        }
        assert(decreases_to!(instructions@ => instructions@[k as int]));
        match inst {
            Inst::If { then_insts, else_insts, .. } => {
                collect_defined_values(then_insts.as_slice(), defined);
                collect_defined_values(else_insts.as_slice(), defined);
            },
            Inst::While { condition_insts, body_insts, .. } => {
                collect_defined_values(condition_insts.as_slice(), defined);
                collect_defined_values(body_insts.as_slice(), defined);
            },
            Inst::Repeat { body_insts, .. } => {
                collect_defined_values(body_insts.as_slice(), defined);
            },
            _ => {},
        }
        assert(defined@ =~= mid.union(defined_by(*inst)));
        assert(defined@ =~= start.union(defined_in(pre)));
        k = k + 1;
    }
    assert(instructions@.subrange(0, instructions@.len() as int) =~= instructions@);
}

/// Adds the values loaded from `index_slot` (see `index_loads_in`).
pub fn collect_loop_index_values(instructions: &[Inst], index_slot: LocalSlotId, loop_index_values: &mut ValueSet)
    ensures
        final(loop_index_values)@ == old(loop_index_values)@.union(index_loads_in(instructions@, index_slot)),
    decreases instructions@,
{
    let ghost start = loop_index_values@;
    let mut k: usize = 0;
    assert(instructions@.subrange(0, 0) =~= Seq::<Inst>::empty());
    assert(start.union(Set::empty()) =~= start);
    while k < instructions.len()
        invariant
            k <= instructions.len(),
            loop_index_values@ == start.union(index_loads_in(instructions@.subrange(0, k as int), index_slot)),
        decreases instructions.len() - k,
    {
        let ghost pre = instructions@.subrange(0, k + 1);
        assert(pre.subrange(0, pre.len() - 1) =~= instructions@.subrange(0, k as int));
        let inst = &instructions[k];
        assert(pre[pre.len() - 1] == *inst);
        let ghost mid = loop_index_values@;
        assert(decreases_to!(instructions@ => instructions@[k as int]));
        match inst {
            Inst::LoadLocal { dest, slot } => {
                if *slot == index_slot {
                    loop_index_values.insert(*dest);
                }
            },
            Inst::If { then_insts, else_insts, .. } => {
                collect_loop_index_values(then_insts.as_slice(), index_slot, loop_index_values);
                collect_loop_index_values(else_insts.as_slice(), index_slot, loop_index_values);
            },
            Inst::While { condition_insts, body_insts, .. } => {
                collect_loop_index_values(condition_insts.as_slice(), index_slot, loop_index_values);
                collect_loop_index_values(body_insts.as_slice(), index_slot, loop_index_values);
            },
            _ => {},
        }
        assert(loop_index_values@ =~= mid.union(index_loads_by(*inst, index_slot)));
        assert(loop_index_values@ =~= start.union(index_loads_in(pre, index_slot)));
        k = k + 1;
    }
    assert(instructions@.subrange(0, instructions@.len() as int) =~= instructions@);
}

/// A set of (list, index) pairs of IR values.
pub struct PairSet {
    pub pairs: Vec<(ValueId, ValueId)>,
}

impl View for PairSet {
    type V = Set<(u32, u32)>;

    open spec fn view(&self) -> Set<(u32, u32)> {
        Set::new(
            |p: (u32, u32)|
                exists|i: int|
                    0 <= i < self.pairs@.len() && (#[trigger] self.pairs@[i]).0.0 == p.0
                        && self.pairs@[i].1.0 == p.1,
        )
    }
}

impl PairSet {
    pub fn new() -> (r: PairSet)
        ensures
            r@ == Set::<(u32, u32)>::empty(),
    {
        let r = PairSet { pairs: Vec::new() };
        assert(r@ =~= Set::<(u32, u32)>::empty());
        r
    }

    pub fn contains(&self, list: ValueId, index: ValueId) -> (r: bool)
        ensures
            r == self@.contains((list.0, index.0)),
    {
        let mut i: usize = 0;
        while i < self.pairs.len()
            invariant
                i <= self.pairs.len(),
                forall|k: int|
                    0 <= k < i ==> !((#[trigger] self.pairs@[k]).0.0 == list.0 && self.pairs@[k].1.0
                        == index.0),
            decreases self.pairs.len() - i,
        {
            if self.pairs[i].0.0 == list.0 && self.pairs[i].1.0 == index.0 {
                assert(self@.contains((list.0, index.0)));
                return true;
            }
            i = i + 1;
        }
        false
    }

    pub fn insert(&mut self, list: ValueId, index: ValueId)
        ensures
            final(self)@ == old(self)@.insert((list.0, index.0)),
    {
        if !self.contains(list, index) {
            let ghost before = self.pairs@;
            self.pairs.push((list, index));
            assert forall|p: (u32, u32)| #[trigger] self@.contains(p) == old(self)@.insert(
                (list.0, index.0),
            ).contains(p) by {
                if p != (list.0, index.0) && self@.contains(p) {
                    let i = choose|i: int|
                        0 <= i < self.pairs@.len() && (#[trigger] self.pairs@[i]).0.0 == p.0
                            && self.pairs@[i].1.0 == p.1;
                    assert(i < before.len());
                    assert(before[i] == self.pairs@[i]);
                }
                if old(self)@.contains(p) {
                    let i = choose|i: int|
                        0 <= i < before.len() && (#[trigger] before[i]).0.0 == p.0 && before[i].1.0 == p.1;
                    assert(self.pairs@[i] == before[i]);
                }
                if p == (list.0, index.0) {
                    assert(self.pairs@[before.len() as int] == (list, index));
                }
            }
            assert(self@ =~= old(self)@.insert((list.0, index.0)));
        } else {
            assert(self@ =~= old(self)@.insert((list.0, index.0)));
        }
    }
}

/// Adds the trusted pairs of the instructions (see `pairs_in`).
pub fn collect_trusted_list_pairs(
    instructions: &[Inst],
    body_defined_values: &ValueSet,
    loop_index_values: &ValueSet,
    pairs: &mut PairSet,
)
    ensures
        final(pairs)@ == old(pairs)@.union(
            pairs_in(instructions@, body_defined_values@, loop_index_values@),
        ),
    decreases instructions@,
{
    let ghost start = pairs@;
    let ghost d = body_defined_values@;
    let ghost l = loop_index_values@;
    let mut k: usize = 0;
    assert(instructions@.subrange(0, 0) =~= Seq::<Inst>::empty());
    assert(start.union(Set::empty()) =~= start);
    while k < instructions.len()
        invariant
            k <= instructions.len(),
            d == body_defined_values@,
            l == loop_index_values@,
            pairs@ == start.union(pairs_in(instructions@.subrange(0, k as int), d, l)),
        decreases instructions.len() - k,
    {
        let ghost pre = instructions@.subrange(0, k + 1);
        assert(pre.subrange(0, pre.len() - 1) =~= instructions@.subrange(0, k as int));
        let inst = &instructions[k];
        assert(pre[pre.len() - 1] == *inst);
        let ghost mid = pairs@;
        assert(decreases_to!(instructions@ => instructions@[k as int]));
        match inst {
            Inst::ListGet { list, index, .. } | Inst::ListSet { list, index, .. } => {
                if loop_index_values.contains(*index) && !body_defined_values.contains(*list) {
                    pairs.insert(*list, *index);
                }
            },
            Inst::If { then_insts, else_insts, .. } => {
                collect_trusted_list_pairs(then_insts.as_slice(), body_defined_values, loop_index_values, pairs);
                collect_trusted_list_pairs(else_insts.as_slice(), body_defined_values, loop_index_values, pairs);
            },
            Inst::While { condition_insts, body_insts, .. } => {
                collect_trusted_list_pairs(
                    condition_insts.as_slice(),
                    body_defined_values,
                    loop_index_values,
                    pairs,
                );
                collect_trusted_list_pairs(body_insts.as_slice(), body_defined_values, loop_index_values, pairs);
            },
            _ => {},
        }
        assert(pairs@ =~= mid.union(pairs_by(*inst, d, l)));
        assert(pairs@ =~= start.union(pairs_in(pre, d, l)));
        k = k + 1;
    }
    assert(instructions@.subrange(0, instructions@.len() as int) =~= instructions@);
}

/// The list accesses of a `repeat` body that are in bounds by construction.
pub struct TrustedListAccesses {
    pub pairs: PairSet,
}

impl TrustedListAccesses {
    pub fn contains(&self, list: ValueId, index: ValueId) -> (r: bool)
        ensures
            r == self.pairs@.contains((list.0, index.0)),
    {
        self.pairs.contains(list, index)
    }

    /// The lists of the pairs, in ascending order.
    pub fn unique_vecs(&self) -> (r: ValueSet)
        ensures
            r@ == self.pairs@.map(|p: (u32, u32)| p.0),
            ascending(r.ids@),
    {
        let mut out = ValueSet::new();
        let mut i: usize = 0;
        while i < self.pairs.pairs.len()
            invariant
                i <= self.pairs.pairs.len(),
                ascending(out.ids@),
                forall|x: u32|
                    #[trigger] out@.contains(x) <==> exists|k: int|
                        0 <= k < i && (#[trigger] self.pairs.pairs@[k]).0.0 == x,
            decreases self.pairs.pairs.len() - i,
        {
            let ghost before = out@;
            out.insert(self.pairs.pairs[i].0);
            assert forall|x: u32| #[trigger] out@.contains(x) <==> exists|k: int|
                0 <= k < i + 1 && (#[trigger] self.pairs.pairs@[k]).0.0 == x by {
                if out@.contains(x) && x != self.pairs.pairs@[i as int].0.0 {
                    assert(before.contains(x));
                }
                if exists|k: int| 0 <= k < i + 1 && (#[trigger] self.pairs.pairs@[k]).0.0 == x {
                    let k = choose|k: int| 0 <= k < i + 1 && (#[trigger] self.pairs.pairs@[k]).0.0 == x;
                    if k < i {
                        assert(before.contains(x));
                    }
                }
            }
            i = i + 1;
        }
        assert forall|x: u32| #[trigger] out@.contains(x) == self.pairs@.map(|p: (u32, u32)| p.0).contains(x) by {
            if out@.contains(x) {
                let k = choose|k: int| 0 <= k < self.pairs.pairs@.len() && (#[trigger] self.pairs.pairs@[k]).0.0 == x;
                let p = (x, self.pairs.pairs@[k].1.0);
                assert(self.pairs@.contains(p));
            }
            if self.pairs@.map(|p: (u32, u32)| p.0).contains(x) {
                let p = choose|p: (u32, u32)| self.pairs@.contains(p) && p.0 == x;
                let k = choose|k: int|
                    0 <= k < self.pairs.pairs@.len() && (#[trigger] self.pairs.pairs@[k]).0.0 == p.0
                        && self.pairs.pairs@[k].1.0 == p.1;
            }
        }
        assert(out@ =~= self.pairs@.map(|p: (u32, u32)| p.0));
        out
    }
}

/// The trusted accesses of a `repeat` body whose counter lives in
/// `index_slot`.
pub fn collect_trusted_repeat_list_accesses(instructions: &[Inst], index_slot: LocalSlotId) -> (r: TrustedListAccesses)
    ensures
        r.pairs@ == pairs_in(
            instructions@,
            defined_in(instructions@),
            index_loads_in(instructions@, index_slot),
        ),
{
    let mut body_defined_values = ValueSet::new();
    collect_defined_values(instructions, &mut body_defined_values);
    let mut loop_index_values = ValueSet::new();
    collect_loop_index_values(instructions, index_slot, &mut loop_index_values);
    let mut pairs = PairSet::new();
    collect_trusted_list_pairs(instructions, &body_defined_values, &loop_index_values, &mut pairs);
    assert(Set::<u32>::empty().union(defined_in(instructions@)) =~= defined_in(instructions@));
    assert(Set::<u32>::empty().union(index_loads_in(instructions@, index_slot)) =~= index_loads_in(
        instructions@,
        index_slot,
    ));
    assert(pairs@ =~= pairs_in(instructions@, body_defined_values@, loop_index_values@));
    TrustedListAccesses { pairs }
}

} // verus!

verus! {

/// Every trusted pair indexes by a loop counter load a list that the body
/// does not define.
pub proof fn lemma_trusted_pairs_sound(insts: Seq<Inst>, defined: Set<u32>, loads: Set<u32>, list: u32, index: u32)
    requires
        pairs_in(insts, defined, loads).contains((list, index)),
    ensures
        loads.contains(index),
        !defined.contains(list),
    decreases insts, 0nat,
{
    if insts.len() > 0 {
        let pre = insts.subrange(0, insts.len() - 1);
        if pairs_in(pre, defined, loads).contains((list, index)) {
            lemma_trusted_pairs_sound(pre, defined, loads, list, index);
        } else {
            lemma_trusted_pair_by_sound(insts[insts.len() - 1], defined, loads, list, index);
        }
    }
}

proof fn lemma_trusted_pair_by_sound(inst: Inst, defined: Set<u32>, loads: Set<u32>, list: u32, index: u32)
    requires
        pairs_by(inst, defined, loads).contains((list, index)),
    ensures
        loads.contains(index),
        !defined.contains(list),
    decreases inst, 0nat,
{
    match inst {
        Inst::If { then_insts, else_insts, .. } => {
            if pairs_in(then_insts@, defined, loads).contains((list, index)) {
                lemma_trusted_pairs_sound(then_insts@, defined, loads, list, index);
            } else {
                lemma_trusted_pairs_sound(else_insts@, defined, loads, list, index);
            }
        },
        Inst::While { condition_insts, body_insts, .. } => {
            if pairs_in(condition_insts@, defined, loads).contains((list, index)) {
                lemma_trusted_pairs_sound(condition_insts@, defined, loads, list, index);
            } else {
                lemma_trusted_pairs_sound(body_insts@, defined, loads, list, index);
            }
        },
        _ => {},
    }
}

} // verus!
