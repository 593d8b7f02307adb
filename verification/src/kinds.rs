//! Maps from IR values to their value kinds.
use vstd::prelude::*;

use crate::mir::{CodegenValueKind, ValueId};
use crate::native::{clone_kind, kind_view, KindView};

verus! {

/// The kinds given to values so far; a later entry for a value replaces an
/// earlier one.
#[derive(Debug)]
pub struct KindMap {
    pub entries: Vec<(ValueId, CodegenValueKind)>,
}

/// The map that a list of entries stands for (later entries win).
pub open spec fn entries_map(entries: Seq<(ValueId, CodegenValueKind)>) -> Map<u32, KindView>
    decreases entries.len(),
{
    if entries.len() == 0 {
        Map::empty()
    } else {
        entries_map(entries.drop_last()).insert(entries.last().0.0, kind_view(entries.last().1))
    }
}

impl View for KindMap {
    type V = Map<u32, KindView>;

    open spec fn view(&self) -> Map<u32, KindView> {
        entries_map(self.entries@)
    }
}

impl KindMap {

    pub fn new() -> (r: KindMap)
        ensures
            r@ == Map::<u32, KindView>::empty(),
    {
        KindMap { entries: Vec::new() }
    }

    /// Gives `value` the kind `kind`.
    pub fn insert(&mut self, value: ValueId, kind: CodegenValueKind)
        ensures
            final(self)@ == old(self)@.insert(value.0, kind_view(kind)),
    {
        let ghost old_entries = self.entries@;
        self.entries.push((value, kind));
        assert(self.entries@.drop_last() =~= old_entries);
    }

    /// The kind of `value`, if it has one.
    pub fn get(&self, value: ValueId) -> (r: Option<&CodegenValueKind>)
        ensures
            match r {
                Some(k) => self@.contains_key(value.0) && self@[value.0] == kind_view(*k),
                None => !self@.contains_key(value.0),
            },
    {
        let mut i: usize = self.entries.len();
        assert(self.entries@.take(i as int) =~= self.entries@);
        while i > 0
            invariant
                i <= self.entries.len(),
                entries_map(self.entries@).contains_key(value.0) == entries_map(
                    self.entries@.take(i as int),
                ).contains_key(value.0),
                entries_map(self.entries@.take(i as int)).contains_key(value.0)
                    ==> entries_map(self.entries@)[value.0] == entries_map(
                    self.entries@.take(i as int),
                )[value.0],
            decreases i,
        {
            let ghost t = self.entries@.take(i as int);
            assert(t.drop_last() =~= self.entries@.take(i - 1));
            assert(t.last() == self.entries@[i - 1]);
            if self.entries[i - 1].0.0 == value.0 {
                return Some(&self.entries[i - 1].1);
            }
            i = i - 1;
        }
        assert(self.entries@.take(0) =~= Seq::<(ValueId, CodegenValueKind)>::empty());
        None
    }

    /// A copy of the kind of `value`, if it has one.
    pub fn get_cloned(&self, value: ValueId) -> (r: Option<CodegenValueKind>)
        ensures
            match r {
                Some(k) => self@.contains_key(value.0) && self@[value.0] == kind_view(k),
                None => !self@.contains_key(value.0),
            },
    {
        match self.get(value) {
            Some(k) => Some(clone_kind(k)),
            None => None,
        }
    }
}

} // verus!

verus! {

/// After an entry for a value is added, the map gives the value that kind,
/// and every other value the kind it had.
pub proof fn lemma_read_after_write(entries: Seq<(ValueId, CodegenValueKind)>, v: ValueId, k: CodegenValueKind, w: u32)
    ensures
        entries_map(entries.push((v, k))).contains_key(v.0),
        entries_map(entries.push((v, k)))[v.0] == kind_view(k),
        w != v.0 ==> entries_map(entries.push((v, k))).contains_key(w) == entries_map(entries).contains_key(w),
        w != v.0 && entries_map(entries).contains_key(w) ==> entries_map(entries.push((v, k)))[w] == entries_map(
            entries,
        )[w],
{
    assert(entries.push((v, k)).drop_last() =~= entries);
}

} // verus!
