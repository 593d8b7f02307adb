//! The lists of the native runtime: a sequence of 64-bit slots, one per
//! element, so that a list's length is its number of elements.
use vstd::prelude::*;

verus! {

/// A runtime list: its elements.
pub struct RuntimeList {
    pub slots: Vec<i64>,
}

/// The number of elements a new list gets: the requested length, or none
/// when it is negative.
pub open spec fn new_length(len: int) -> nat {
    if len < 0 {
        0
    } else {
        len as nat
    }
}

/// The elements after a push of `value` at position `used`: the element
/// there is replaced, or the value is appended when `used` is the length.
pub open spec fn pushed(s: Seq<i64>, used: int, value: i64) -> Seq<i64> {
    if used < s.len() {
        s.update(used, value)
    } else {
        s.push(value)
    }
}

/// The element at `index`, or 0 when `index` is outside the list.
pub open spec fn slot_at(s: Seq<i64>, index: int) -> i64 {
    if 0 <= index < s.len() {
        s[index]
    } else {
        0
    }
}

/// The slots of a list handle; a null handle has none.
pub open spec fn list_slots(list: Option<&RuntimeList>) -> Seq<i64> {
    match list {
        Some(l) => l.slots@,
        None => Seq::empty(),
    }
}

/// A list of `len` elements (none when `len` is negative), each `fill`.
pub fn sarif_list_new(len: i64, fill: i64) -> (r: RuntimeList)
    requires
        len <= usize::MAX,
    ensures
        r.slots@ == Seq::new(new_length(len as int), |i: int| fill),
{
    let n: usize = if len < 0 {
        0
    } else {
        len as usize
    };
    let mut slots: Vec<i64> = Vec::new();
    let mut i: usize = 0;
    while i < n
        invariant
            i <= n,
            n == new_length(len as int),
            slots@ == Seq::new(i as nat, |k: int| fill),
        decreases n - i,
    {
        slots.push(fill);
        assert(slots@ =~= Seq::new((i + 1) as nat, |k: int| fill));
        i = i + 1;
    }
    RuntimeList { slots }
}

/// Writes `value` at position `used`, appending it when `used` is the
/// length. A `used` beyond the length is left out: there the runtime writes
/// past its buffer.
pub fn sarif_list_push(list: &mut RuntimeList, used: i64, value: i64)
    requires
        0 <= used <= old(list).slots@.len(),
    ensures
        final(list).slots@ == pushed(old(list).slots@, used as int, value),
{
    let len = list.slots.len();
    let u = used as usize;
    if u < len {
        list.slots.set(u, value);
    } else {
        list.slots.push(value);
    }
}

/// The element at `index`; 0 for a null list or an index outside the list.
pub fn sarif_list_get(list: Option<&RuntimeList>, index: i64) -> (r: i64)
    ensures
        r == slot_at(list_slots(list), index as int),
{
    match list {
        None => 0,
        Some(l) => {
            if index < 0 || index as u64 >= l.slots.len() as u64 {
                0
            } else {
                l.slots[index as usize]
            }
        },
    }
}

/// The number of elements; 0 for a null list.
pub fn sarif_list_len(list: Option<&RuntimeList>) -> (r: i64)
    requires
        list matches Some(l) ==> l.slots@.len() <= i64::MAX,
    ensures
        r == list_slots(list).len(),
{
    match list {
        None => 0,
        Some(l) => l.slots.len() as i64,
    }
}

/// A push followed by a read of the pushed position gives the pushed value;
/// the other elements keep their values, and the list never shrinks.
pub proof fn lemma_get_after_push(s: Seq<i64>, used: int, value: i64, j: int)
    requires
        0 <= used <= s.len(),
    ensures
        slot_at(pushed(s, used, value), used) == value,
        0 <= j < s.len() && j != used ==> slot_at(pushed(s, used, value), j) == s[j],
        pushed(s, used, value).len() == if used < s.len() { s.len() } else { s.len() + 1 },
{
}

} // verus!
