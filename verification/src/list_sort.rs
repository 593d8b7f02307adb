//! The list sorts of the native runtime. Each sorts the first `logical_len`
//! items of a list stably: items of equal rank keep their order. Texts are
//! ranked by byte order with the null text first; records by one field, with
//! the null record first.
use vstd::prelude::*;
use crate::runtime::{lex_order, text_order, sarif_text_cmp, opt_bytes};

verus! {

/// A strict weak order on the items of a list.
pub trait SortRank: Sized {
    /// Whether `self` ranks strictly below `other`.
    spec fn rank_lt(self, other: Self) -> bool;

    proof fn lemma_strict_weak(a: Self, b: Self, c: Self)
        ensures
            !a.rank_lt(a),
            a.rank_lt(b) && b.rank_lt(c) ==> a.rank_lt(c),
            !a.rank_lt(b) && !b.rank_lt(c) ==> !a.rank_lt(c),
    ;

    fn lt(&self, other: &Self) -> (r: bool)
        ensures
            r == self.rank_lt(*other),
    ;
}

/// Whether two items have the same rank.
pub open spec fn same_rank<T: SortRank>(a: T, b: T) -> bool {
    !a.rank_lt(b) && !b.rank_lt(a)
}

/// Whether no item ranks below an item before it.
pub open spec fn sorted_by_rank<T: SortRank>(s: Seq<T>) -> bool {
    forall|i: int, j: int| 0 <= i < j < s.len() ==> !s[j].rank_lt(s[i])
}

/// Whether an item has the same rank as `r`.
pub open spec fn rank_pred<T: SortRank>(r: T) -> spec_fn(T) -> bool {
    |e: T| same_rank(e, r)
}

/// The items of `s` of the same rank as `r`, in their order in `s`.
pub open spec fn rank_class<T: SortRank>(s: Seq<T>, r: T) -> Seq<T> {
    s.filter(rank_pred(r))
}

/// Whether `out` is `input` sorted stably: ordered by rank, and holding, for
/// every rank, the items of that rank in their input order.
pub open spec fn is_stable_sort<T: SortRank>(input: Seq<T>, out: Seq<T>) -> bool {
    &&& out.len() == input.len()
    &&& sorted_by_rank(out)
    &&& forall|r: T| #[trigger] rank_class(out, r) == rank_class(input, r)
}

/// A record of a list, by its handle (0 for a null record) and the value of
/// the integer field it is sorted by.
#[derive(Clone, Copy, Debug, PartialEq, Eq)]
pub struct IntFieldEntry {
    pub record: u64,
    pub field: i64,
}

impl SortRank for IntFieldEntry {
    /// The null record ranks first; other records by the field.
    open spec fn rank_lt(self, other: Self) -> bool {
        other.record != 0 && (self.record == 0 || self.field < other.field)
    }

    proof fn lemma_strict_weak(a: Self, b: Self, c: Self) {
    }

    fn lt(&self, other: &Self) -> (r: bool) {
        other.record != 0 && (self.record == 0 || self.field < other.field)
    }
}

/// A record of a list, by its handle (0 for a null record) and the text
/// field it is sorted by (`None` for a null text).
#[derive(Clone, Debug)]
pub struct TextFieldEntry {
    pub record: u64,
    pub field: Option<Vec<u8>>,
}

/// The bytes of an owned text handle.
pub open spec fn owned_bytes(t: Option<Vec<u8>>) -> Option<Seq<u8>> {
    match t {
        Some(v) => Some(v@),
        None => None,
    }
}

fn borrow_text(t: &Option<Vec<u8>>) -> (r: Option<&[u8]>)
    ensures
        opt_bytes(r) == owned_bytes(*t),
{
    match t {
        Some(v) => Some(v.as_slice()),
        None => None,
    }
}

impl SortRank for TextFieldEntry {
    /// The null record ranks first; other records by the text field.
    open spec fn rank_lt(self, other: Self) -> bool {
        other.record != 0 && (self.record == 0 || text_order(owned_bytes(self.field), owned_bytes(other.field)) < 0)
    }

    proof fn lemma_strict_weak(a: Self, b: Self, c: Self) {
        lemma_text_order_weak(owned_bytes(a.field), owned_bytes(b.field), owned_bytes(c.field));
    }

    fn lt(&self, other: &Self) -> (r: bool) {
        if other.record == 0 {
            return false;
        }
        if self.record == 0 {
            return true;
        }
        sarif_text_cmp(borrow_text(&self.field), borrow_text(&other.field)) < 0
    }
}

/// A text of a list (`None` for a null text).
#[derive(Clone, Debug)]
pub struct TextEntry {
    pub text: Option<Vec<u8>>,
}

impl SortRank for TextEntry {
    /// Texts rank by byte order, the null text first.
    open spec fn rank_lt(self, other: Self) -> bool {
        text_order(owned_bytes(self.text), owned_bytes(other.text)) < 0
    }

    proof fn lemma_strict_weak(a: Self, b: Self, c: Self) {
        lemma_text_order_weak(owned_bytes(a.text), owned_bytes(b.text), owned_bytes(c.text));
    }

    fn lt(&self, other: &Self) -> (r: bool) {
        sarif_text_cmp(borrow_text(&self.text), borrow_text(&other.text)) < 0
    }
}

/// Byte order is a total order: reflexive, antisymmetric and transitive.
pub proof fn lemma_lex_order_total(a: Seq<u8>, b: Seq<u8>, c: Seq<u8>)
    ensures
        lex_order(a, a) == 0,
        lex_order(a, b) == -lex_order(b, a),
        -1 <= lex_order(a, b) <= 1,
        lex_order(a, b) == 0 ==> a == b,
        lex_order(a, b) < 0 && lex_order(b, c) < 0 ==> lex_order(a, c) < 0,
    decreases a.len(),
{
    if a.len() > 0 && b.len() > 0 && c.len() > 0 {
        lemma_lex_order_total(a.drop_first(), b.drop_first(), c.drop_first());
        if lex_order(a, b) == 0 {
            assert(a =~= seq![a[0]] + a.drop_first());
            assert(b =~= seq![b[0]] + b.drop_first());
        }
    } else if a.len() > 0 && b.len() > 0 {
        lemma_lex_order_total(a.drop_first(), b.drop_first(), a.drop_first());
        if lex_order(a, b) == 0 {
            assert(a =~= seq![a[0]] + a.drop_first());
            assert(b =~= seq![b[0]] + b.drop_first());
        }
    } else if a.len() > 0 {
        lemma_lex_order_total(a.drop_first(), a.drop_first(), a.drop_first());
    }
}

/// Text order (null first, then byte order) is a strict weak order.
pub proof fn lemma_text_order_weak(a: Option<Seq<u8>>, b: Option<Seq<u8>>, c: Option<Seq<u8>>)
    ensures
        !(text_order(a, a) < 0),
        text_order(a, b) < 0 && text_order(b, c) < 0 ==> text_order(a, c) < 0,
        !(text_order(a, b) < 0) && !(text_order(b, c) < 0) ==> !(text_order(a, c) < 0),
{
    match (a, b, c) {
        (Some(x), Some(y), Some(z)) => {
            lemma_lex_order_total(x, y, z);
            lemma_lex_order_total(y, z, x);
            lemma_lex_order_total(z, x, y);
            lemma_lex_order_total(x, z, y);
            lemma_lex_order_total(y, x, z);
            lemma_lex_order_total(z, y, x);
        },
        (Some(x), Some(y), None) => {
            lemma_lex_order_total(x, y, x);
        },
        (Some(x), None, Some(z)) => {
            lemma_lex_order_total(x, z, x);
        },
        (None, Some(y), Some(z)) => {
            lemma_lex_order_total(y, z, y);
        },
        (Some(x), None, None) => {
            lemma_lex_order_total(x, x, x);
        },
        (None, Some(y), None) => {
            lemma_lex_order_total(y, y, y);
        },
        (None, None, Some(z)) => {
            lemma_lex_order_total(z, z, z);
        },
        (None, None, None) => {},
    }
}

/// Filtering keeps nothing when no item passes.
proof fn lemma_filter_none<A>(s: Seq<A>, pred: spec_fn(A) -> bool)
    requires
        forall|i: int| 0 <= i < s.len() ==> !pred(s[i]),
    ensures
        s.filter(pred) == Seq::<A>::empty(),
    decreases s.len(),
{
    reveal(Seq::filter);
    if s.len() > 0 {
        lemma_filter_none(s.drop_last(), pred);
    }
}

/// Filtering a single item.
proof fn lemma_filter_single<A>(x: A, pred: spec_fn(A) -> bool)
    ensures
        seq![x].filter(pred) == if pred(x) { seq![x] } else { Seq::<A>::empty() },
{
    reveal_with_fuel(Seq::filter, 2);
    assert(seq![x].drop_last() =~= Seq::<A>::empty());
    assert(seq![x].last() == x);
    assert(Seq::<A>::empty().filter(pred) =~= Seq::<A>::empty());
    assert(Seq::<A>::empty().push(x) =~= seq![x]);
}

/// Inserting the next input item after every item that does not rank above
/// it keeps a stable sort.
proof fn lemma_insert_keeps_stable<T: SortRank>(input: Seq<T>, p: Seq<T>, x: T, pos: int)
    requires
        is_stable_sort(input, p),
        0 <= pos <= p.len(),
        forall|k: int| pos <= k < p.len() ==> x.rank_lt(#[trigger] p[k]),
        pos > 0 ==> !x.rank_lt(p[pos - 1]),
    ensures
        is_stable_sort(input.push(x), p.subrange(0, pos) + seq![x] + p.subrange(pos, p.len() as int)),
{
    let lo = p.subrange(0, pos);
    let hi = p.subrange(pos, p.len() as int);
    let q = lo + seq![x] + hi;
    assert(lo + hi =~= p);
    assert forall|i: int, j: int| 0 <= i < j < q.len() implies !q[j].rank_lt(q[i]) by {
        if j < pos {
            assert(q[i] == p[i] && q[j] == p[j]);
        } else if i > pos {
            assert(q[i] == p[i - 1] && q[j] == p[j - 1]);
        } else if j == pos {
            assert(q[i] == p[i] && q[j] == x);
            T::lemma_strict_weak(x, p[pos - 1], p[i]);
        } else if i == pos {
            assert(q[i] == x && q[j] == p[j - 1]);
            assert(x.rank_lt(p[j - 1]));
            T::lemma_strict_weak(x, p[j - 1], x);
        } else {
            assert(q[i] == p[i] && q[j] == p[j - 1]);
        }
    }
    assert forall|r: T| #[trigger] rank_class(q, r) == rank_class(input.push(x), r) by {
        let pred = rank_pred(r);
        assert(rank_class(p, r) == rank_class(input, r));
        Seq::filter_distributes_over_add(lo + seq![x], hi, pred);
        Seq::filter_distributes_over_add(lo, seq![x], pred);
        Seq::filter_distributes_over_add(lo, hi, pred);
        input.lemma_filter_push(x, pred);
        lemma_filter_single(x, pred);
        assert(p.filter(pred) == lo.filter(pred) + hi.filter(pred));
        assert(q.filter(pred) == lo.filter(pred) + seq![x].filter(pred) + hi.filter(pred));
        if same_rank(x, r) {
            assert(pred(x));
            assert forall|k: int| 0 <= k < hi.len() implies !pred(hi[k]) by {
                assert(hi[k] == p[pos + k]);
                assert(x.rank_lt(p[pos + k]));
                T::lemma_strict_weak(x, r, hi[k]);
            }
            lemma_filter_none(hi, pred);
            assert(p.filter(pred) =~= lo.filter(pred));
            assert(q.filter(pred) =~= lo.filter(pred).push(x));
            assert(input.push(x).filter(pred) == input.filter(pred).push(x));
        } else {
            assert(!pred(x));
            assert(q.filter(pred) =~= lo.filter(pred) + hi.filter(pred));
            assert(input.push(x).filter(pred) == input.filter(pred));
        }
    }
}

/// Sorts the first `n` items stably by rank, by insertion; the other items
/// stay.
fn stable_sort_prefix<T: SortRank>(items: &mut Vec<T>, n: usize)
    requires
        n <= old(items)@.len(),
    ensures
        sorts_prefix(old(items)@, final(items)@, n as int),
{
    let ghost orig = items@;
    let len = items.len();
    let mut i: usize = 0;
    proof {
        assert(orig.subrange(0, 0) =~= Seq::<T>::empty());
        assert(items@.subrange(0, 0) =~= Seq::<T>::empty());
        assert forall|r: T| #[trigger] rank_class(items@.subrange(0, 0), r) == rank_class(orig.subrange(0, 0), r) by {
        }
    }
    while i < n
        invariant
            i <= n <= orig.len(),
            len == orig.len(),
            items@.len() == orig.len(),
            items@.subrange(i as int, len as int) == orig.subrange(i as int, len as int),
            is_stable_sort(orig.subrange(0, i as int), items@.subrange(0, i as int)),
        decreases n - i,
    {
        let ghost p = items@.subrange(0, i as int);
        let ghost before = items@;
        assert(before[i as int] == orig.subrange(i as int, len as int)[0]);
        let x = items.remove(i);
        assert(items@.subrange(0, i as int) =~= p);
        let mut pos: usize = i;
        while pos > 0
            invariant
                pos <= i < n <= orig.len(),
                items@.len() == orig.len() - 1,
                items@.subrange(0, i as int) == p,
                forall|k: int| pos <= k < i ==> x.rank_lt(#[trigger] p[k]),
            ensures
                pos <= i,
                forall|k: int| pos <= k < i ==> x.rank_lt(#[trigger] p[k]),
                pos > 0 ==> !x.rank_lt(p[pos - 1]),
            decreases pos,
        {
            assert(items@[pos - 1] == p[pos - 1]);
            let above = x.lt(&items[pos - 1]);
            if !above {
                break;
            }
            pos = pos - 1;
        }
        let ghost removed = items@;
        assert(removed =~= p + before.subrange(i + 1, len as int));
        items.insert(pos, x);
        proof {
            assert(items@ =~= p.subrange(0, pos as int) + seq![x] + p.subrange(pos as int, p.len() as int)
                + before.subrange(i + 1, len as int));
            lemma_insert_keeps_stable(orig.subrange(0, i as int), p, x, pos as int);
            assert(orig.subrange(0, i as int).push(x) =~= orig.subrange(0, i + 1));
            assert(items@.subrange(0, i + 1) =~= p.subrange(0, pos as int) + seq![x] + p.subrange(pos as int, p.len() as int));
            assert forall|k: int| i + 1 <= k < len implies before[k] == orig[k] by {
                assert(before.subrange(i as int, len as int)[k - i] == orig.subrange(i as int, len as int)[k - i]);
            }
            assert(items@.subrange(i + 1, len as int) =~= orig.subrange(i + 1, len as int));
        }
        i = i + 1;
    }
}

/// `new` is `old` with its first `n` items sorted stably by rank.
pub open spec fn sorts_prefix<T: SortRank>(old: Seq<T>, new: Seq<T>, n: int) -> bool {
    &&& new.len() == old.len()
    &&& new.subrange(n, new.len() as int) == old.subrange(n, old.len() as int)
    &&& is_stable_sort(old.subrange(0, n), new.subrange(0, n))
}

/// Sorts the first `logical_len` texts of a list by byte order, null texts
/// first, keeping equal texts in their order.
pub fn sarif_list_sort_text(list: &mut Vec<TextEntry>, logical_len: i64)
    requires
        0 <= logical_len <= old(list)@.len(),
    ensures
        sorts_prefix(old(list)@, final(list)@, logical_len as int),
{
    let len = list.len();
    assert(logical_len as usize <= len);
    stable_sort_prefix(list, logical_len as usize);
}

/// Sorts the first `logical_len` records of a list by a text field (byte
/// order, null texts first), null records first, keeping records of equal
/// rank in their order.
pub fn sarif_list_sort_by_text_field(list: &mut Vec<TextFieldEntry>, logical_len: i64)
    requires
        0 <= logical_len <= old(list)@.len(),
    ensures
        sorts_prefix(old(list)@, final(list)@, logical_len as int),
{
    let len = list.len();
    assert(logical_len as usize <= len);
    stable_sort_prefix(list, logical_len as usize);
}

/// Sorts the first `logical_len` records of a list by an integer field,
/// null records first, keeping records of equal rank in their order.
pub fn sarif_list_sort_by_i32_field(list: &mut Vec<IntFieldEntry>, logical_len: i64)
    requires
        0 <= logical_len <= old(list)@.len(),
    ensures
        sorts_prefix(old(list)@, final(list)@, logical_len as int),
{
    let len = list.len();
    assert(logical_len as usize <= len);
    stable_sort_prefix(list, logical_len as usize);
}

} // verus!
