//! The interpreter's bindings of IR values and of mutable local slots to
//! runtime values.
use vstd::prelude::*;

use crate::interp::{copy_value, is_copy};
use crate::mir::{LocalSlotId, ValueId};
use crate::values::RuntimeValue;

verus! {

/// A key of bindings: an id with a number.
pub trait BindingKey: Copy {
    spec fn key_number(&self) -> u32;

    fn number(&self) -> (r: u32)
        ensures
            r == self.key_number(),
    ;
}

impl BindingKey for ValueId {
    open spec fn key_number(&self) -> u32 {
        self.0
    }

    fn number(&self) -> (r: u32) {
        self.0
    }
}

impl BindingKey for LocalSlotId {
    open spec fn key_number(&self) -> u32 {
        self.0
    }

    fn number(&self) -> (r: u32) {
        self.0
    }
}

/// Values bound to ids; a later binding of an id replaces an earlier one.
pub struct Bindings<K> {
    pub entries: Vec<(K, RuntimeValue)>,
}

/// The map that the entries make: a later entry of a number replaces an
/// earlier one.
pub open spec fn bound_map<K: BindingKey>(entries: Seq<(K, RuntimeValue)>) -> Map<u32, RuntimeValue>
    decreases entries.len(),
{
    if entries.len() == 0 {
        Map::empty()
    } else {
        bound_map(entries.drop_last()).insert(entries.last().0.key_number(), entries.last().1)
    }
}

/// `ys` holds a copy of each value of `xs`, under the same number.
pub open spec fn copied_map(xs: Map<u32, RuntimeValue>, ys: Map<u32, RuntimeValue>) -> bool {
    &&& ys.dom() == xs.dom()
    &&& forall|k: u32| #[trigger] xs.contains_key(k) ==> is_copy(xs[k], ys[k])
}

proof fn lemma_copied_entries<K: BindingKey>(xs: Seq<(K, RuntimeValue)>, ys: Seq<(K, RuntimeValue)>)
    requires
        xs.len() == ys.len(),
        forall|i: int| 0 <= i < xs.len() ==> (#[trigger] xs[i]).0.key_number() == ys[i].0.key_number() && is_copy(xs[i].1, ys[i].1),
    ensures
        copied_map(bound_map(xs), bound_map(ys)),
    decreases xs.len(),
{
    if xs.len() > 0 {
        let (xp, yp) = (xs.drop_last(), ys.drop_last());
        assert forall|i: int| 0 <= i < xp.len() implies (#[trigger] xp[i]).0.key_number() == yp[i].0.key_number() && is_copy(xp[i].1, yp[i].1) by {
            assert(xp[i] == xs[i]);
            assert(yp[i] == ys[i]);
        }
        lemma_copied_entries(xp, yp);
        let n = xs.len() - 1;
        assert(xs[n].0.key_number() == ys[n].0.key_number() && is_copy(xs[n].1, ys[n].1));
        assert(bound_map(ys).dom() =~= bound_map(xs).dom());
    }
}

impl<K: BindingKey> Bindings<K> {
    pub open spec fn view(&self) -> Map<u32, RuntimeValue> {
        bound_map(self.entries@)
    }

    /// No bindings.
    pub fn new() -> (r: Bindings<K>)
        ensures
            r.view() == Map::<u32, RuntimeValue>::empty(),
    {
        Bindings { entries: Vec::new() }
    }

    /// Binds `key` to `value`.
    pub fn insert(&mut self, key: K, value: RuntimeValue)
        ensures
            final(self).view() == old(self).view().insert(key.key_number(), value),
    {
        let ghost before = self.entries@;
        self.entries.push((key, value));
        assert(self.entries@.drop_last() =~= before);
    }

    /// The value bound to `key`, if any.
    pub fn get(&self, key: &K) -> (r: Option<&RuntimeValue>)
        ensures
            match r {
                Some(x) => self.view().contains_key(key.key_number()) && self.view()[key.key_number()] == *x,
                None => !self.view().contains_key(key.key_number()),
            },
    {
        let n = key.number();
        let mut i: usize = self.entries.len();
        assert(self.entries@.take(i as int) =~= self.entries@);
        while i > 0
            invariant
                i <= self.entries.len(),
                n == key.key_number(),
                bound_map(self.entries@).contains_key(n) == bound_map(self.entries@.take(i as int)).contains_key(n),
                bound_map(self.entries@.take(i as int)).contains_key(n) ==> bound_map(self.entries@)[n] == bound_map(
                    self.entries@.take(i as int),
                )[n],
            decreases i,
        {
            let ghost t = self.entries@.take(i as int);
            assert(t.drop_last() =~= self.entries@.take(i - 1));
            assert(t.last() == self.entries@[i - 1]);
            if self.entries[i - 1].0.number() == n {
                return Some(&self.entries[i - 1].1);
            }
            i = i - 1;
        }
        assert(self.entries@.take(0) =~= Seq::<(K, RuntimeValue)>::empty());
        None
    }

    /// The value bound to `key`, if any, taken out of the bindings, which
    /// are used up.
    pub fn take(self, key: &K) -> (r: Option<RuntimeValue>)
        ensures
            match r {
                Some(x) => self.view().contains_key(key.key_number()) && self.view()[key.key_number()] == x,
                None => !self.view().contains_key(key.key_number()),
            },
    {
        let n = key.number();
        let mut i: usize = self.entries.len();
        assert(self.entries@.take(i as int) =~= self.entries@);
        while i > 0
            invariant
                i <= self.entries.len(),
                n == key.key_number(),
                bound_map(self.entries@).contains_key(n) == bound_map(self.entries@.take(i as int)).contains_key(n),
                bound_map(self.entries@.take(i as int)).contains_key(n) ==> bound_map(self.entries@)[n] == bound_map(
                    self.entries@.take(i as int),
                )[n],
            decreases i,
        {
            let ghost t = self.entries@.take(i as int);
            assert(t.drop_last() =~= self.entries@.take(i - 1));
            assert(t.last() == self.entries@[i - 1]);
            if self.entries[i - 1].0.number() == n {
                let ghost found = self.entries@[i - 1].1;
                let mut entries = self.entries;
                let (_, v) = entries.remove(i - 1);
                assert(v == found);
                return Some(v);
            }
            i = i - 1;
        }
        assert(self.entries@.take(0) =~= Seq::<(K, RuntimeValue)>::empty());
        None
    }

    /// A copy of the bindings: the same ids, each bound to a copy of its
    /// value.
    pub fn copy(&self) -> (r: Bindings<K>)
        ensures
            copied_map(self.view(), r.view()),
    {
        let mut entries: Vec<(K, RuntimeValue)> = Vec::new();
        let mut i: usize = 0;
        while i < self.entries.len()
            invariant
                i <= self.entries@.len(),
                entries@.len() == i,
                forall|j: int| 0 <= j < i ==> (#[trigger] self.entries@[j]).0.key_number() == entries@[j].0.key_number()
                    && is_copy(self.entries@[j].1, entries@[j].1),
            decreases self.entries@.len() - i,
        {
            let k = self.entries[i].0;
            let v = copy_value(&self.entries[i].1);
            entries.push((k, v));
            i = i + 1;
        }
        proof {
            lemma_copied_entries(self.entries@, entries@);
        }
        Bindings { entries }
    }
}

/// The message of an `if` whose branch did not bind its result.
pub open spec fn missing_branch_result_msg(function: Seq<char>, result: ValueId) -> Seq<char> {
    "missing conditional branch result in `"@ + function + "` for "@ + crate::pretty::value_text(result)
}

/// The end of an `if` in `function` whose branch ran on copies of the
/// bindings: the locals that the branch left become the frame's, and the
/// `if`'s destination is bound to the branch result's value (taken out of
/// the branch's values), or to the unit for a branch without a result; a
/// result that the branch did not bind is an error.
pub fn finish_branch(
    values: &mut Bindings<ValueId>,
    slots: &mut Bindings<LocalSlotId>,
    branch_values: Bindings<ValueId>,
    branch_slots: Bindings<LocalSlotId>,
    result: Option<ValueId>,
    dest: ValueId,
    function: &str,
) -> (r: Result<(), crate::values::RuntimeError>)
    ensures
        final(slots).view() == branch_slots.view(),
        match result {
            None => r is Ok && final(values).view() == old(values).view().insert(dest.0, RuntimeValue::Unit),
            Some(res) => if branch_values.view().contains_key(res.0) {
                r is Ok && final(values).view() == old(values).view().insert(dest.0, branch_values.view()[res.0])
            } else {
                crate::interp::fails_with(r, missing_branch_result_msg(function@, res)) && final(values).view() == old(
                    values,
                ).view()
            },
        },
{
    *slots = branch_slots;
    let value = match result {
        None => RuntimeValue::Unit,
        Some(res) => match branch_values.take(&res) {
            Some(v) => v,
            None => {
                let mut m = String::from_str("missing conditional branch result in `");
                m.append(function);
                m.append("` for ");
                let t = res.render();
                m.append(t.as_str());
                return Err(crate::values::RuntimeError::new(m));
            },
        },
    };
    values.insert(dest, value);
    Ok(())
}

/// The message of a read of an unbound value.
pub open spec fn unknown_value_msg(v: ValueId) -> Seq<char> {
    "unknown value "@ + crate::pretty::value_text(v)
}

/// A copy of the value bound to `v`, or the error of an unbound value.
pub fn read_value(values: &Bindings<ValueId>, v: ValueId) -> (r: Result<RuntimeValue, crate::values::RuntimeError>)
    ensures
        match r {
            Ok(x) => values.view().contains_key(v.0) && is_copy(values.view()[v.0], x),
            Err(_) => !values.view().contains_key(v.0) && crate::interp::fails_with(r, unknown_value_msg(v)),
        },
{
    match values.get(&v) {
        Some(x) => Ok(copy_value(x)),
        None => {
            let mut m = String::from_str("unknown value ");
            let t = v.render();
            m.append(t.as_str());
            Err(crate::values::RuntimeError::new(m))
        },
    }
}

/// `LoadLocal` in `function`: binds `dest` to a copy of the local's value,
/// or fails when the local has none.
pub fn load_local(
    values: &mut Bindings<ValueId>,
    slots: &Bindings<LocalSlotId>,
    dest: ValueId,
    slot: LocalSlotId,
    function: &str,
) -> (r: Result<(), crate::values::RuntimeError>)
    ensures
        if slots.view().contains_key(slot.0) {
            r is Ok && final(values).view().dom() == old(values).view().dom().insert(dest.0) && is_copy(
                slots.view()[slot.0],
                final(values).view()[dest.0],
            ) && forall|k: u32| k != dest.0 && #[trigger] old(values).view().contains_key(k) ==> final(values).view()[k]
                == old(values).view()[k]
        } else {
            crate::interp::fails_with(r, "mutable local "@ + crate::pretty::slot_text(slot) + " is unavailable in `"@
                + function@ + "`"@) && final(values).view() == old(values).view()
        },
{
    match slots.get(&slot) {
        Some(x) => {
            let c = copy_value(x);
            values.insert(dest, c);
            Ok(())
        },
        None => {
            let mut m = String::from_str("mutable local ");
            let t = slot.render();
            m.append(t.as_str());
            m.append(" is unavailable in `");
            m.append(function);
            m.append("`");
            Err(crate::values::RuntimeError::new(m))
        },
    }
}

/// `StoreLocal`: binds the local to a copy of the value of `src`, or fails
/// when `src` is unbound.
pub fn store_local(slots: &mut Bindings<LocalSlotId>, values: &Bindings<ValueId>, slot: LocalSlotId, src: ValueId) -> (r: Result<
    (),
    crate::values::RuntimeError,
>)
    ensures
        if values.view().contains_key(src.0) {
            r is Ok && final(slots).view().dom() == old(slots).view().dom().insert(slot.0) && is_copy(
                values.view()[src.0],
                final(slots).view()[slot.0],
            ) && forall|k: u32| k != slot.0 && #[trigger] old(slots).view().contains_key(k) ==> final(slots).view()[k]
                == old(slots).view()[k]
        } else {
            crate::interp::fails_with(r, unknown_value_msg(src)) && final(slots).view() == old(slots).view()
        },
{
    let v = read_value(values, src)?;
    slots.insert(slot, v);
    Ok(())
}

/// The arguments of a call: copies of the values of `args`, in order, or
/// the error of the first one that is unbound.
pub fn call_arguments(values: &Bindings<ValueId>, args: &[ValueId]) -> (r: Result<Vec<RuntimeValue>, crate::values::RuntimeError>)
    ensures
        match r {
            Ok(xs) => xs@.len() == args@.len() && forall|i: int| 0 <= i < args@.len() ==> values.view().contains_key(
                (#[trigger] args@[i]).0,
            ) && is_copy(values.view()[args@[i].0], xs@[i]),
            Err(_) => exists|i: int| 0 <= i < args@.len() && !values.view().contains_key((#[trigger] args@[i]).0)
                && crate::interp::fails_with(r, unknown_value_msg(args@[i])) && forall|j: int| 0 <= j < i ==> values.view().contains_key(
                (#[trigger] args@[j]).0,
            ),
        },
{
    let mut out: Vec<RuntimeValue> = Vec::new();
    let mut i: usize = 0;
    while i < args.len()
        invariant
            i <= args@.len(),
            out@.len() == i,
            forall|j: int| 0 <= j < i ==> values.view().contains_key((#[trigger] args@[j]).0) && is_copy(
                values.view()[args@[j].0],
                out@[j],
            ),
        decreases args@.len() - i,
    {
        let v = match read_value(values, args[i]) {
            Ok(v) => v,
            Err(e) => {
                return Err(e);
            },
        };
        out.push(v);
        i = i + 1;
    }
    Ok(out)
}

/// What a handler arm or a `handle` body gives, after its instructions ran
/// on its own bindings without returning: the value of its result (taken
/// out of those bindings), or the unit without one; a result that the body
/// did not bind fails with `missing`.
pub fn body_result(local_values: Bindings<ValueId>, result: Option<ValueId>, missing: &str) -> (r: Result<
    RuntimeValue,
    crate::values::RuntimeError,
>)
    ensures
        match result {
            None => r == Ok::<RuntimeValue, crate::values::RuntimeError>(RuntimeValue::Unit),
            Some(res) => if local_values.view().contains_key(res.0) {
                r == Ok::<RuntimeValue, crate::values::RuntimeError>(local_values.view()[res.0])
            } else {
                crate::interp::fails_with(r, missing@)
            },
        },
{
    match result {
        None => Ok(RuntimeValue::Unit),
        Some(res) => match local_values.take(&res) {
            Some(v) => Ok(v),
            None => Err(crate::values::RuntimeError::new(String::from_str(missing))),
        },
    }
}

/// `n` copies of a value (the items of a new list).
pub fn copies(value: &RuntimeValue, n: usize) -> (r: Vec<RuntimeValue>)
    ensures
        r@.len() == n,
        forall|i: int| 0 <= i < n ==> is_copy(*value, #[trigger] r@[i]),
{
    let mut out: Vec<RuntimeValue> = Vec::new();
    let mut i: usize = 0;
    while i < n
        invariant
            i <= n,
            out@.len() == i,
            forall|j: int| 0 <= j < i ==> is_copy(*value, #[trigger] out@[j]),
        decreases n - i,
    {
        out.push(copy_value(value));
        i = i + 1;
    }
    out
}

} // verus!
