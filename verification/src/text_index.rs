//! The runtime's text index: an open-addressing hash table from 64-bit keys
//! (text handles) to 64-bit values, with linear probing and FNV-1a hashing.
use vstd::prelude::*;

use crate::runtime::{fnv_prefix, text_index_hash};

verus! {

/// A slot of the table.
#[derive(Clone, Copy, Debug)]
pub struct TextIndexEntry {
    pub key: u64,
    pub value: i64,
    pub hash: u32,
    pub occupied: bool,
}

/// The table: `len` occupied slots among `entries`.
#[derive(Debug)]
pub struct TextIndex {
    pub len: usize,
    pub entries: Vec<TextIndexEntry>,
}

/// The hash of a key.
pub open spec fn hash_of(key: u64) -> u32 {
    fnv_prefix(key, 8)
}

/// The slot where the probe for a hash starts: the hash masked by
/// `cap - 1`, which for a power-of-two capacity is the hash modulo `cap`.
pub open spec fn home(h: u32, cap: int) -> int {
    (h as int) % cap
}

/// How many steps the probe takes from slot `a` to slot `b`.
pub open spec fn dist(a: int, b: int, cap: int) -> int {
    if a <= b {
        b - a
    } else {
        b + cap - a
    }
}

/// The slot `d` steps after slot `a`.
pub open spec fn step(a: int, d: int, cap: int) -> int {
    (a + d) % cap
}

/// The number of occupied slots.
pub open spec fn occupied_count(es: Seq<TextIndexEntry>) -> nat
    decreases es.len(),
{
    if es.len() == 0 {
        0
    } else {
        occupied_count(es.drop_last()) + if es.last().occupied {
            1nat
        } else {
            0nat
        }
    }
}

/// Whether some occupied slot holds the key.
pub open spec fn holds(es: Seq<TextIndexEntry>, key: u64) -> bool {
    exists|s: int| 0 <= s < es.len() && es[s].occupied && es[s].key == key
}

/// The map that the slots stand for.
pub open spec fn slots_map(es: Seq<TextIndexEntry>) -> Map<u64, i64> {
    Map::new(
        |k: u64| holds(es, k),
        |k: u64| es[choose|s: int| 0 <= s < es.len() && es[s].occupied && es[s].key == k].value,
    )
}

/// No two occupied slots hold the same key.
pub open spec fn keys_unique(es: Seq<TextIndexEntry>) -> bool {
    forall|s1: int, s2: int|
        0 <= s1 < es.len() && 0 <= s2 < es.len() && s1 != s2 && (#[trigger] es[s1]).occupied && (#[trigger] es[s2]).occupied
            ==> es[s1].key != es[s2].key
}

/// The slots form a valid table: occupied slots hold their key's hash and
/// distinct keys, and every slot on the probe path from a key's home slot to
/// the slot holding it is occupied.
pub open spec fn slots_ok(es: Seq<TextIndexEntry>) -> bool {
    let cap = es.len() as int;
    &&& cap > 0
    &&& forall|s: int| 0 <= s < cap && (#[trigger] es[s]).occupied ==> es[s].hash == hash_of(es[s].key)
    &&& keys_unique(es)
    &&& forall|s: int, d: int|
        0 <= s < cap && (#[trigger] es[s]).occupied && 0 <= d < dist(home(es[s].hash, cap), s, cap)
            ==> (#[trigger] es[step(home(es[s].hash, cap), d, cap)]).occupied
}

impl View for TextIndex {
    type V = Map<u64, i64>;

    open spec fn view(&self) -> Map<u64, i64> {
        slots_map(self.entries@)
    }
}

impl TextIndex {
    /// The table is valid, has at least 8 slots, and counts its occupied
    /// slots; it is at most three quarters full, but for the slot that the
    /// last insertion may have taken.
    pub open spec fn wf(&self) -> bool {
        &&& slots_ok(self.entries@)
        &&& self.entries@.len() >= 8
        &&& self.len as nat == occupied_count(self.entries@)
        &&& 4 * self.len <= 3 * self.entries@.len() + 4
    }
}

/// The count of occupied slots is at most the number of slots, and equals
/// it only when every slot is occupied.
pub proof fn lemma_count_bound(es: Seq<TextIndexEntry>)
    ensures
        occupied_count(es) <= es.len(),
        occupied_count(es) == es.len() ==> forall|s: int| 0 <= s < es.len() ==> (#[trigger] es[s]).occupied,
    decreases es.len(),
{
    if es.len() > 0 {
        lemma_count_bound(es.drop_last());
        assert forall|s: int| 0 <= s < es.len() && occupied_count(es) == es.len() implies (#[trigger] es[s]).occupied by {
            if s < es.len() - 1 {
                assert(es[s] == es.drop_last()[s]);
            }
        }
    }
}

/// Occupying a free slot adds one to the count.
pub proof fn lemma_count_update(es: Seq<TextIndexEntry>, s: int, e: TextIndexEntry)
    requires
        0 <= s < es.len(),
        !es[s].occupied,
        e.occupied,
    ensures
        occupied_count(es.update(s, e)) == occupied_count(es) + 1,
    decreases es.len(),
{
    let u = es.update(s, e);
    if s == es.len() - 1 {
        assert(u.drop_last() =~= es.drop_last());
    } else {
        lemma_count_update(es.drop_last(), s, e);
        assert(u.drop_last() =~= es.drop_last().update(s, e));
    }
}

/// A slot is `dist(a, b)` steps after `a`.
pub proof fn lemma_step_dist(a: int, b: int, cap: int)
    requires
        0 <= a < cap,
        0 <= b < cap,
    ensures
        0 <= dist(a, b, cap) < cap,
        step(a, dist(a, b, cap), cap) == b,
{
    if a <= b {
        vstd::arithmetic::div_mod::lemma_small_mod(b as nat, cap as nat);
    } else {
        assert(a + (b + cap - a) == b + cap);
        vstd::arithmetic::div_mod::lemma_mod_add_multiples_vanish(b, cap);
        vstd::arithmetic::div_mod::lemma_small_mod(b as nat, cap as nat);
    }
}

/// The slot `d` steps after `a`, for `d` below the capacity, is `d` steps
/// away from `a`.
pub proof fn lemma_dist_step(a: int, d: int, cap: int)
    requires
        0 <= a < cap,
        0 <= d < cap,
    ensures
        0 <= step(a, d, cap) < cap,
        dist(a, step(a, d, cap), cap) == d,
{
    if a + d < cap {
        vstd::arithmetic::div_mod::lemma_small_mod((a + d) as nat, cap as nat);
    } else {
        vstd::arithmetic::div_mod::lemma_mod_sub_multiples_vanish(a + d, cap);
        vstd::arithmetic::div_mod::lemma_small_mod((a + d - cap) as nat, cap as nat);
    }
}

/// The next slot: one after the current, wrapping to 0.
pub proof fn lemma_step_next(a: int, d: int, cap: int)
    requires
        0 <= a < cap,
        0 <= d < cap,
    ensures
        step(a, d + 1, cap) == if step(a, d, cap) + 1 == cap {
            0
        } else {
            step(a, d, cap) + 1
        },
{
    if a + d < cap {
        vstd::arithmetic::div_mod::lemma_small_mod((a + d) as nat, cap as nat);
        if a + d + 1 < cap {
            vstd::arithmetic::div_mod::lemma_small_mod((a + d + 1) as nat, cap as nat);
        } else {
            vstd::arithmetic::div_mod::lemma_mod_self_0(cap);
        }
    } else {
        vstd::arithmetic::div_mod::lemma_mod_sub_multiples_vanish(a + d, cap);
        vstd::arithmetic::div_mod::lemma_small_mod((a + d - cap) as nat, cap as nat);
        vstd::arithmetic::div_mod::lemma_mod_sub_multiples_vanish(a + d + 1, cap);
        if a + d + 1 - cap < cap {
            vstd::arithmetic::div_mod::lemma_small_mod((a + d + 1 - cap) as nat, cap as nat);
        } else {
            vstd::arithmetic::div_mod::lemma_mod_self_0(cap);
        }
    }
}

/// A valid table with fewer occupied slots than slots has a free slot.
pub proof fn lemma_free_slot(es: Seq<TextIndexEntry>, len: nat)
    requires
        len == occupied_count(es),
        len < es.len(),
    ensures
        exists|s: int| 0 <= s < es.len() && !(#[trigger] es[s]).occupied,
{
    lemma_count_bound(es);
    if forall|s: int| 0 <= s < es.len() ==> (#[trigger] es[s]).occupied {
        lemma_all_occupied_count(es);
    }
}

proof fn lemma_all_occupied_count(es: Seq<TextIndexEntry>)
    requires
        forall|s: int| 0 <= s < es.len() ==> (#[trigger] es[s]).occupied,
    ensures
        occupied_count(es) == es.len(),
    decreases es.len(),
{
    if es.len() > 0 {
        assert forall|s: int| 0 <= s < es.drop_last().len() implies (#[trigger] es.drop_last()[s]).occupied by {
            assert(es.drop_last()[s] == es[s]);
        }
        lemma_all_occupied_count(es.drop_last());
        assert(es.last() == es[es.len() - 1]);
    }
}

/// The probe for `key` from its home slot: either the slot holding it, or
/// the first free slot on its path, every slot before which is occupied.
pub open spec fn probe_result(es: Seq<TextIndexEntry>, key: u64, r: (bool, usize)) -> bool {
    let cap = es.len() as int;
    let home_slot = home(hash_of(key), cap);
    &&& r.1 < cap
    &&& r.0 ==> es[r.1 as int].occupied && es[r.1 as int].key == key
    &&& !r.0 ==> !holds(es, key) && !es[r.1 as int].occupied && forall|d: int|
        0 <= d < dist(home_slot, r.1 as int, cap) ==> (#[trigger] es[step(home_slot, d, cap)]).occupied
}

impl TextIndex {
    /// The home slot of a key's hash.
    fn home_slot(&self, h: u32) -> (r: usize)
        requires
            self.entries@.len() > 0,
        ensures
            r as int == home(h, self.entries@.len() as int),
    {
        (h as usize) % self.entries.len()
    }

    /// Looks for `key` along its probe path (see `probe_result`).
    fn probe(&self, key: u64) -> (r: (bool, usize))
        requires
            self.wf(),
        ensures
            probe_result(self.entries@, key, r),
    {
        let ghost es = self.entries@;
        let cap = self.entries.len();
        let h = text_index_hash(key);
        let start = self.home_slot(h);
        let mut i = start;
        let mut t: usize = 0;
        proof {
            lemma_count_bound(es);
            lemma_free_slot(es, self.len as nat);
            vstd::arithmetic::div_mod::lemma_small_mod(start as nat, cap as nat);
        }
        while t < cap
            invariant
                es == self.entries@,
                cap == es.len(),
                self.wf(),
                start as int == home(hash_of(key), cap as int),
                h == hash_of(key),
                t <= cap,
                t < cap ==> i as int == step(start as int, t as int, cap as int) && i < cap,
                forall|d: int| 0 <= d < t ==> (#[trigger] es[step(start as int, d, cap as int)]).occupied
                    && es[step(start as int, d, cap as int)].key != key,
            decreases cap - t,
        {
            proof {
                lemma_dist_step(start as int, t as int, cap as int);
            }
            let e = self.entries[i];
            if !e.occupied {
                proof {
                    assert(dist(start as int, i as int, cap as int) == t);
                    if holds(es, key) {
                        let s = choose|s: int| 0 <= s < es.len() && es[s].occupied && es[s].key == key;
                        lemma_step_dist(start as int, s, cap as int);
                        let dd = dist(start as int, s, cap as int);
                        if dd < t {
                            assert(es[step(start as int, dd, cap as int)].key != key);
                        } else if dd > t {
                            assert(es[step(start as int, t as int, cap as int)].occupied);
                        }
                    }
                }
                return (false, i);
            }
            if e.hash == h && e.key == key {
                return (true, i);
            }
            proof {
                lemma_step_next(start as int, t as int, cap as int);
            }
            i = if i + 1 == cap { 0 } else { i + 1 };
            t = t + 1;
        }
        proof {
            assert forall|s: int| 0 <= s < cap implies (#[trigger] es[s]).occupied by {
                lemma_step_dist(start as int, s, cap as int);
                assert(es[step(start as int, dist(start as int, s, cap as int), cap as int)].occupied);
            }
            lemma_all_occupied_count(es);
        }
        (false, 0)
    }

    /// The value stored for `key`, or 0 when there is none.
    pub fn get(&self, key: u64) -> (r: i64)
        requires
            self.wf(),
        ensures
            r == index_lookup(self@, key),
    {
        let (found, slot) = self.probe(key);
        if found {
            proof {
                lemma_slot_value(self.entries@, slot as int);
            }
            self.entries[slot].value
        } else {
            0
        }
    }

    /// 1 when the table holds `key`, else 0.
    pub fn contains(&self, key: u64) -> (r: i64)
        requires
            self.wf(),
        ensures
            r == if self@.contains_key(key) {
                1i64
            } else {
                0i64
            },
    {
        let (found, _) = self.probe(key);
        if found {
            1
        } else {
            0
        }
    }
}

/// What looking a key up gives: its value, or 0 when it has none.
pub open spec fn index_lookup(m: Map<u64, i64>, key: u64) -> i64 {
    if m.contains_key(key) {
        m[key]
    } else {
        0
    }
}

/// The value that the map gives a key is that of the slot holding it.
pub proof fn lemma_slot_value(es: Seq<TextIndexEntry>, s: int)
    requires
        keys_unique(es),
        0 <= s < es.len(),
        es[s].occupied,
    ensures
        slots_map(es).contains_key(es[s].key),
        slots_map(es)[es[s].key] == es[s].value,
{
    let k = es[s].key;
    assert(holds(es, k));
    let c = choose|c: int| 0 <= c < es.len() && es[c].occupied && es[c].key == k;
    if c != s {
        assert(es[c].key != es[s].key);
    }
}

/// Occupying the free slot that the probe for a new key found, with that
/// key, keeps the table valid and adds the key to its map.
pub proof fn lemma_occupy(es: Seq<TextIndexEntry>, slot_index: usize, key: u64, value: i64)
    requires
        slots_ok(es),
        probe_result(es, key, (false, slot_index)),
    ensures
        ({
            let e = TextIndexEntry { key, value, hash: hash_of(key), occupied: true };
            &&& slots_ok(es.update(slot_index as int, e))
            &&& slots_map(es.update(slot_index as int, e)) == slots_map(es).insert(key, value)
            &&& occupied_count(es.update(slot_index as int, e)) == occupied_count(es) + 1
        }),
{
    let slot = slot_index as int;
    let e = TextIndexEntry { key, value, hash: hash_of(key), occupied: true };
    let n = es.update(slot, e);
    let cap = es.len() as int;
    let hk = home(hash_of(key), cap);
    lemma_count_update(es, slot, e);
    assert forall|t: int, d: int|
        0 <= t < cap && (#[trigger] n[t]).occupied && 0 <= d < dist(home(n[t].hash, cap), t, cap)
            implies (#[trigger] n[step(home(n[t].hash, cap), d, cap)]).occupied by {
        let ht = home(n[t].hash, cap);
        vstd::arithmetic::div_mod::lemma_mod_pos_bound(n[t].hash as int, cap);
        lemma_dist_step(ht, d, cap);
        if t == slot {
            assert(es[step(hk, d, cap)].occupied);
        } else {
            assert(es[step(ht, d, cap)].occupied);
        }
    }
    assert forall|s1: int, s2: int|
        0 <= s1 < cap && 0 <= s2 < cap && s1 != s2 && (#[trigger] n[s1]).occupied && (#[trigger] n[s2]).occupied
            implies n[s1].key != n[s2].key by {
        if s1 == slot {
            assert(!holds(es, key));
            assert(es[s2].occupied && es[s2].key == n[s2].key);
        } else if s2 == slot {
            assert(!holds(es, key));
            assert(es[s1].occupied && es[s1].key == n[s1].key);
        }
    }
    assert(slots_ok(n));
    assert forall|k: u64| #[trigger] slots_map(n).contains_key(k) == slots_map(es).insert(key, value).contains_key(k) by {
        if holds(n, k) && k != key {
            let t = choose|t: int| 0 <= t < n.len() && n[t].occupied && n[t].key == k;
            assert(es[t].occupied && es[t].key == k);
        }
        if holds(es, k) {
            let t = choose|t: int| 0 <= t < es.len() && es[t].occupied && es[t].key == k;
            assert(t != slot);
            assert(n[t].occupied && n[t].key == k);
        }
        if k == key {
            assert(n[slot].occupied && n[slot].key == k);
        }
    }
    assert forall|k: u64| #[trigger] slots_map(n).contains_key(k) implies slots_map(n)[k] == slots_map(es).insert(key, value)[k] by {
        if k == key {
            lemma_slot_value(n, slot);
        } else {
            let t = choose|t: int| 0 <= t < n.len() && n[t].occupied && n[t].key == k;
            assert(es[t] == n[t]);
            lemma_slot_value(n, t);
            lemma_slot_value(es, t);
        }
    }
    assert(slots_map(n) =~= slots_map(es).insert(key, value));
}

/// Storing a new value in the slot that holds a key changes that key's
/// value only.
pub proof fn lemma_overwrite(es: Seq<TextIndexEntry>, slot: int, value: i64)
    requires
        slots_ok(es),
        0 <= slot < es.len(),
        es[slot].occupied,
    ensures
        ({
            let e = TextIndexEntry { value, ..es[slot] };
            &&& slots_ok(es.update(slot, e))
            &&& slots_map(es.update(slot, e)) == slots_map(es).insert(es[slot].key, value)
            &&& occupied_count(es.update(slot, e)) == occupied_count(es)
        }),
{
    let e = TextIndexEntry { value, ..es[slot] };
    let n = es.update(slot, e);
    let key = es[slot].key;
    let cap = es.len() as int;
    lemma_count_same(es, slot, e);
    assert forall|t: int, d: int|
        0 <= t < cap && (#[trigger] n[t]).occupied && 0 <= d < dist(home(n[t].hash, cap), t, cap)
            implies (#[trigger] n[step(home(n[t].hash, cap), d, cap)]).occupied by {
        let ht = home(n[t].hash, cap);
        vstd::arithmetic::div_mod::lemma_mod_pos_bound(n[t].hash as int, cap);
        lemma_dist_step(ht, d, cap);
        assert(es[step(ht, d, cap)].occupied);
    }
    assert forall|s1: int, s2: int|
        0 <= s1 < cap && 0 <= s2 < cap && s1 != s2 && (#[trigger] n[s1]).occupied && (#[trigger] n[s2]).occupied
            implies n[s1].key != n[s2].key by {
        assert(es[s1].occupied && es[s2].occupied);
    }
    assert(slots_ok(n));
    assert forall|k: u64| #[trigger] slots_map(n).contains_key(k) == slots_map(es).insert(key, value).contains_key(k) by {
        if holds(n, k) {
            let t = choose|t: int| 0 <= t < n.len() && n[t].occupied && n[t].key == k;
            assert(es[t].occupied && es[t].key == k);
        }
        if holds(es, k) {
            let t = choose|t: int| 0 <= t < es.len() && es[t].occupied && es[t].key == k;
            assert(n[t].occupied && n[t].key == k);
        }
    }
    assert forall|k: u64| #[trigger] slots_map(n).contains_key(k) implies slots_map(n)[k] == slots_map(es).insert(key, value)[k] by {
        if k == key {
            lemma_slot_value(n, slot);
        } else {
            let t = choose|t: int| 0 <= t < n.len() && n[t].occupied && n[t].key == k;
            assert(es[t] == n[t]);
            lemma_slot_value(n, t);
            lemma_slot_value(es, t);
        }
    }
    assert(slots_map(n) =~= slots_map(es).insert(key, value));
}

proof fn lemma_count_same(es: Seq<TextIndexEntry>, s: int, e: TextIndexEntry)
    requires
        0 <= s < es.len(),
        es[s].occupied == e.occupied,
    ensures
        occupied_count(es.update(s, e)) == occupied_count(es),
    decreases es.len(),
{
    let u = es.update(s, e);
    if s == es.len() - 1 {
        assert(u.drop_last() =~= es.drop_last());
    } else {
        lemma_count_same(es.drop_last(), s, e);
        assert(u.drop_last() =~= es.drop_last().update(s, e));
    }
}

/// Taking one more slot of a table with distinct keys adds that slot's
/// key and value, when it is occupied, to the map of the slots taken.
pub proof fn lemma_map_take_step(es: Seq<TextIndexEntry>, s: int)
    requires
        keys_unique(es),
        0 <= s < es.len(),
    ensures
        keys_unique(es.take(s)),
        keys_unique(es.take(s + 1)),
        es[s].occupied ==> !holds(es.take(s), es[s].key),
        slots_map(es.take(s + 1)) == if es[s].occupied {
            slots_map(es.take(s)).insert(es[s].key, es[s].value)
        } else {
            slots_map(es.take(s))
        },
        occupied_count(es.take(s + 1)) == occupied_count(es.take(s)) + if es[s].occupied {
            1nat
        } else {
            0nat
        },
{
    let a = es.take(s);
    let b = es.take(s + 1);
    assert(b.drop_last() =~= a);
    assert(b.last() == es[s]);
    assert forall|s1: int, s2: int|
        0 <= s1 < a.len() && 0 <= s2 < a.len() && s1 != s2 && (#[trigger] a[s1]).occupied && (#[trigger] a[s2]).occupied
            implies a[s1].key != a[s2].key by {
        assert(a[s1] == es[s1] && a[s2] == es[s2]);
    }
    assert forall|s1: int, s2: int|
        0 <= s1 < b.len() && 0 <= s2 < b.len() && s1 != s2 && (#[trigger] b[s1]).occupied && (#[trigger] b[s2]).occupied
            implies b[s1].key != b[s2].key by {
        assert(b[s1] == es[s1] && b[s2] == es[s2]);
    }
    if es[s].occupied && holds(a, es[s].key) {
        let t = choose|t: int| 0 <= t < a.len() && a[t].occupied && a[t].key == es[s].key;
        assert(a[t] == es[t]);
    }
    let target = if es[s].occupied {
        slots_map(a).insert(es[s].key, es[s].value)
    } else {
        slots_map(a)
    };
    assert forall|k: u64| #[trigger] slots_map(b).contains_key(k) == target.contains_key(k) by {
        if holds(b, k) {
            let t = choose|t: int| 0 <= t < b.len() && b[t].occupied && b[t].key == k;
            if t < s {
                assert(a[t] == b[t]);
            }
        }
        if holds(a, k) {
            let t = choose|t: int| 0 <= t < a.len() && a[t].occupied && a[t].key == k;
            assert(b[t] == a[t]);
        }
        if es[s].occupied && k == es[s].key {
            assert(b[s].occupied && b[s].key == k);
        }
    }
    assert forall|k: u64| #[trigger] slots_map(b).contains_key(k) implies slots_map(b)[k] == target[k] by {
        let t = choose|t: int| 0 <= t < b.len() && b[t].occupied && b[t].key == k;
        lemma_slot_value(b, t);
        if t < s {
            assert(a[t] == b[t]);
            lemma_slot_value(a, t);
        }
    }
    assert(slots_map(b) =~= target);
}

/// Puts an entry whose key the table does not hold into the first free slot
/// of its probe path.
fn place(fresh: &mut Vec<TextIndexEntry>, e: TextIndexEntry)
    requires
        slots_ok(old(fresh)@),
        e.occupied,
        e.hash == hash_of(e.key),
        !holds(old(fresh)@, e.key),
        occupied_count(old(fresh)@) < old(fresh)@.len(),
    ensures
        final(fresh)@.len() == old(fresh)@.len(),
        slots_ok(final(fresh)@),
        slots_map(final(fresh)@) == slots_map(old(fresh)@).insert(e.key, e.value),
        occupied_count(final(fresh)@) == occupied_count(old(fresh)@) + 1,
{
    let ghost es = fresh@;
    let cap = fresh.len();
    let start = (e.hash as usize) % cap;
    let mut i = start;
    let mut t: usize = 0;
    proof {
        vstd::arithmetic::div_mod::lemma_small_mod(start as nat, cap as nat);
        lemma_free_slot(es, occupied_count(es));
    }
    while t < cap
        invariant
            es == fresh@,
            es == old(fresh)@,
            cap == es.len(),
            slots_ok(es),
            e.occupied,
            e.hash == hash_of(e.key),
            !holds(es, e.key),
            occupied_count(es) < es.len(),
            start as int == home(e.hash, cap as int),
            t <= cap,
            t < cap ==> i as int == step(start as int, t as int, cap as int) && i < cap,
            forall|d: int| 0 <= d < t ==> (#[trigger] es[step(start as int, d, cap as int)]).occupied,
        decreases cap - t,
    {
        proof {
            lemma_dist_step(start as int, t as int, cap as int);
        }
        if !fresh[i].occupied {
            proof {
                assert(dist(start as int, i as int, cap as int) == t);
                assert(probe_result(es, e.key, (false, i)));
                lemma_occupy(es, i, e.key, e.value);
            }
            fresh.set(i, e);
            return;
        }
        proof {
            lemma_step_next(start as int, t as int, cap as int);
        }
        i = if i + 1 == cap { 0 } else { i + 1 };
        t = t + 1;
    }
    proof {
        assert forall|s: int| 0 <= s < cap implies (#[trigger] es[s]).occupied by {
            lemma_step_dist(start as int, s, cap as int);
            assert(es[step(start as int, dist(start as int, s, cap as int), cap as int)].occupied);
        }
        lemma_all_occupied_count(es);
    }
}

/// `n` free slots.
fn free_slots(n: usize) -> (r: Vec<TextIndexEntry>)
    ensures
        r@.len() == n,
        forall|s: int| 0 <= s < n ==> !(#[trigger] r@[s]).occupied,
        slots_map(r@) == Map::<u64, i64>::empty(),
        occupied_count(r@) == 0,
{
    let mut r: Vec<TextIndexEntry> = Vec::new();
    while r.len() < n
        invariant
            r@.len() <= n,
            forall|s: int| 0 <= s < r@.len() ==> !(#[trigger] r@[s]).occupied,
            occupied_count(r@) == 0,
        decreases n - r@.len(),
    {
        let ghost before = r@;
        r.push(TextIndexEntry { key: 0, value: 0, hash: 0, occupied: false });
        assert(r@.drop_last() =~= before);
    }
    assert(slots_map(r@) =~= Map::<u64, i64>::empty());
    r
}

impl TextIndex {
    /// An empty table of 8 slots.
    pub fn new() -> (r: TextIndex)
        ensures
            r.wf(),
            r@ == Map::<u64, i64>::empty(),
            r.entries@.len() == 8,
    {
        TextIndex { len: 0, entries: free_slots(8) }
    }

    /// Doubles the slots, putting every entry back at the first free slot
    /// of its probe path (taking the old slots in order).
    fn grow(&mut self)
        requires
            old(self).wf(),
            old(self).entries@.len() * 2 <= usize::MAX,
        ensures
            final(self).entries@.len() == 2 * old(self).entries@.len(),
            final(self).len == old(self).len,
            slots_ok(final(self).entries@),
            occupied_count(final(self).entries@) == old(self).len,
            final(self)@ == old(self)@,
    {
        let ghost old_es = self.entries@;
        let cap = self.entries.len();
        let new_cap = cap * 2;
        let mut fresh = free_slots(new_cap);
        assert(old_es.take(0) =~= Seq::<TextIndexEntry>::empty());
        assert(slots_map(old_es.take(0)) =~= Map::<u64, i64>::empty());
        assert(slots_ok(fresh@));
        let mut s: usize = 0;
        while s < cap
            invariant
                old_es == self.entries@,
                cap == old_es.len(),
                new_cap == 2 * cap,
                slots_ok(old_es),
                s <= cap,
                fresh@.len() == new_cap,
                slots_ok(fresh@),
                slots_map(fresh@) == slots_map(old_es.take(s as int)),
                occupied_count(fresh@) == occupied_count(old_es.take(s as int)),
            decreases cap - s,
        {
            proof {
                lemma_map_take_step(old_es, s as int);
                lemma_count_bound(old_es.take(s as int));
            }
            let e = self.entries[s];
            if e.occupied {
                proof {
                    if holds(fresh@, e.key) {
                        assert(slots_map(fresh@).contains_key(e.key));
                    }
                }
                place(&mut fresh, e);
            }
            s = s + 1;
        }
        assert(old_es.take(cap as int) =~= old_es);
        self.entries = fresh;
    }
}

/// The keys of the occupied slots, in slot order.
pub open spec fn keys_in(es: Seq<TextIndexEntry>) -> Seq<u64>
    decreases es.len(),
{
    if es.len() == 0 {
        Seq::empty()
    } else if es.last().occupied {
        keys_in(es.drop_last()).push(es.last().key)
    } else {
        keys_in(es.drop_last())
    }
}

impl TextIndex {
    /// Puts a new key into the free slot that its probe found.
    fn insert_new(&mut self, slot: usize, key: u64, value: i64)
        requires
            slots_ok(old(self).entries@),
            old(self).entries@.len() >= 8,
            old(self).len as nat == occupied_count(old(self).entries@),
            4 * old(self).len <= 3 * old(self).entries@.len(),
            probe_result(old(self).entries@, key, (false, slot)),
        ensures
            final(self).wf(),
            final(self).entries@.len() == old(self).entries@.len(),
            final(self)@ == old(self)@.insert(key, value),
    {
        let h = text_index_hash(key);
        let cap = self.entries.len();
        proof {
            lemma_occupy(self.entries@, slot, key, value);
            lemma_count_bound(self.entries@.update(slot as int, TextIndexEntry { key, value, hash: h, occupied: true }));
        }
        self.entries.set(slot, TextIndexEntry { key, value, hash: h, occupied: true });
        assert(self.len + 1 <= cap);
        self.len = self.len + 1;
    }

    /// Gives `key` the value `value` (a new key may first double the slots,
    /// when more than three quarters are taken).
    pub fn set(&mut self, key: u64, value: i64)
        requires
            old(self).wf(),
            old(self).entries@.len() * 2 <= usize::MAX,
        ensures
            final(self).wf(),
            final(self)@ == old(self)@.insert(key, value),
    {
        let (found, slot) = self.probe(key);
        if found {
            let e = self.entries[slot];
            proof {
                lemma_overwrite(self.entries@, slot as int, value);
                lemma_slot_value(self.entries@, slot as int);
            }
            self.entries.set(slot, TextIndexEntry { value, ..e });
            return;
        }
        if (self.len as u128) * 4 > (self.entries.len() as u128) * 3 {
            self.grow();
            let (found2, slot2) = self.probe(key);
            if found2 {
                proof {
                    lemma_slot_value(self.entries@, slot2 as int);
                }
                return;
            }
            self.insert_new(slot2, key, value);
        } else {
            self.insert_new(slot, key, value);
        }
    }

    /// The value of `key`; a key that the table does not hold is first
    /// given `default_value` (see `set`).
    pub fn get_or_insert(&mut self, key: u64, default_value: i64) -> (r: i64)
        requires
            old(self).wf(),
            old(self).entries@.len() * 2 <= usize::MAX,
        ensures
            final(self).wf(),
            old(self)@.contains_key(key) ==> r == old(self)@[key] && final(self)@ == old(self)@,
            !old(self)@.contains_key(key) ==> r == default_value && final(self)@ == old(self)@.insert(key, default_value),
    {
        let (found, slot) = self.probe(key);
        if found {
            proof {
                lemma_slot_value(self.entries@, slot as int);
            }
            return self.entries[slot].value;
        }
        if (self.len as u128) * 4 > (self.entries.len() as u128) * 3 {
            self.grow();
            let (found2, slot2) = self.probe(key);
            if found2 {
                proof {
                    lemma_slot_value(self.entries@, slot2 as int);
                }
                return self.entries[slot2].value;
            }
            self.insert_new(slot2, key, default_value);
        } else {
            self.insert_new(slot, key, default_value);
        }
        default_value
    }

    /// The keys of the table, in slot order.
    pub fn keys(&self) -> (r: Vec<u64>)
        ensures
            r@ == keys_in(self.entries@),
    {
        let mut r: Vec<u64> = Vec::new();
        let mut i: usize = 0;
        assert(self.entries@.take(0) =~= Seq::<TextIndexEntry>::empty());
        while i < self.entries.len()
            invariant
                i <= self.entries@.len(),
                r@ == keys_in(self.entries@.take(i as int)),
            decreases self.entries@.len() - i,
        {
            let ghost t = self.entries@.take(i + 1);
            assert(t.drop_last() =~= self.entries@.take(i as int));
            if self.entries[i].occupied {
                r.push(self.entries[i].key);
            }
            i = i + 1;
        }
        assert(self.entries@.take(self.entries@.len() as int) =~= self.entries@);
        r
    }
}

/// A looked-up key gives the value last set for it, and setting a key
/// leaves every other key's lookup as it was.
pub proof fn lemma_get_after_set(m: Map<u64, i64>, key: u64, value: i64, other: u64)
    ensures
        index_lookup(m.insert(key, value), key) == value,
        other != key ==> index_lookup(m.insert(key, value), other) == index_lookup(m, other),
{
}

/// Asking for a key with a default twice gives the same value: after the
/// first call the table holds the key, so the second call returns the value
/// that the first one returned and changes nothing.
pub proof fn lemma_get_or_insert_stable(m: Map<u64, i64>, key: u64, default_value: i64, other_default: i64)
    ensures
        ({
            let (m1, r1) = if m.contains_key(key) {
                (m, m[key])
            } else {
                (m.insert(key, default_value), default_value)
            };
            &&& m1.contains_key(key)
            &&& m1[key] == r1
            &&& index_lookup(m1, key) == r1
        }),
{
}

/// The keys listed are the keys of the map, each once.
pub proof fn lemma_keys_are_domain(es: Seq<TextIndexEntry>)
    requires
        keys_unique(es),
    ensures
        keys_in(es).no_duplicates(),
        forall|k: u64| #[trigger] keys_in(es).contains(k) <==> slots_map(es).contains_key(k),
    decreases es.len(),
{
    if es.len() > 0 {
        let pre = es.drop_last();
        let last = es.last();
        assert(last == es[es.len() - 1]);
        assert forall|s1: int, s2: int|
            0 <= s1 < pre.len() && 0 <= s2 < pre.len() && s1 != s2 && (#[trigger] pre[s1]).occupied && (#[trigger] pre[s2]).occupied
                implies pre[s1].key != pre[s2].key by {
            assert(pre[s1] == es[s1] && pre[s2] == es[s2]);
        }
        lemma_keys_are_domain(pre);
        assert forall|k: u64| holds(es, k) <==> (holds(pre, k) || (last.occupied && last.key == k)) by {
            if holds(pre, k) {
                let t = choose|t: int| 0 <= t < pre.len() && pre[t].occupied && pre[t].key == k;
                assert(es[t] == pre[t]);
            }
            if holds(es, k) {
                let t = choose|t: int| 0 <= t < es.len() && es[t].occupied && es[t].key == k;
                if t < es.len() - 1 {
                    assert(pre[t] == es[t]);
                }
            }
        }
        if last.occupied {
            let ks = keys_in(pre);
            assert(keys_in(es) == ks.push(last.key));
            assert forall|k: u64| #[trigger] ks.push(last.key).contains(k) <==> (ks.contains(k) || k == last.key) by {
                if ks.push(last.key).contains(k) {
                    let i = choose|i: int| 0 <= i < ks.push(last.key).len() && ks.push(last.key)[i] == k;
                    if i < ks.len() {
                        assert(ks[i] == k);
                    }
                }
                if ks.contains(k) {
                    let i = choose|i: int| 0 <= i < ks.len() && ks[i] == k;
                    assert(ks.push(last.key)[i] == k);
                }
                if k == last.key {
                    assert(ks.push(last.key)[ks.len() as int] == k);
                }
            }
            if holds(pre, last.key) {
                let t = choose|t: int| 0 <= t < pre.len() && pre[t].occupied && pre[t].key == last.key;
                assert(es[t] == pre[t]);
            }
            assert(!ks.contains(last.key));
            assert forall|i: int, j: int| 0 <= i < ks.push(last.key).len() && 0 <= j < ks.push(last.key).len() && i != j
                implies ks.push(last.key)[i] != ks.push(last.key)[j] by {
                if i < ks.len() && j < ks.len() {
                } else if i < ks.len() {
                    assert(ks.contains(ks[i]));
                } else if j < ks.len() {
                    assert(ks.contains(ks[j]));
                }
            }
        }
    }
}

} // verus!
