//! The mathematical model of a cache: a sequence of (key, payload) pairs, most
//! recently used first, and what each operation does to it.

use vstd::prelude::*;
use crate::cache::LimitType;

verus! {

/// An entry seen as its key and its payload bytes.
pub type EntryView = (Seq<char>, Seq<u8>);

/// The sum of the payload lengths of `s`.
pub open spec fn total_size(s: Seq<EntryView>) -> nat
    decreases s.len(),
{
    if s.len() == 0 {
        0
    } else {
        total_size(s.drop_last()) + s.last().1.len()
    }
}

/// What is left of `s` after dropping entries from the back, one at a time,
/// until the total size is at most `room`.
pub open spec fn fit_within(s: Seq<EntryView>, room: nat) -> Seq<EntryView>
    decreases s.len(),
{
    if s.len() == 0 || total_size(s) <= room {
        s
    } else {
        fit_within(s.drop_last(), room)
    }
}

/// Some entry of `s` has key `k`.
pub open spec fn has_key(s: Seq<EntryView>, k: Seq<char>) -> bool {
    exists|i: int| 0 <= i < s.len() && #[trigger] s[i].0 == k
}

/// No two entries of `s` share a key.
pub open spec fn keys_unique(s: Seq<EntryView>) -> bool {
    forall|i: int, j: int|
        0 <= i < s.len() && 0 <= j < s.len() && i != j ==> #[trigger] s[i].0 != #[trigger] s[j].0
}

/// `s` respects the bound that `policy` and `limit` set.
pub open spec fn within_bound(policy: LimitType, limit: nat, s: Seq<EntryView>) -> bool {
    match policy {
        LimitType::Capacity => s.len() <= limit,
        LimitType::Size => total_size(s) <= limit,
    }
}

/// Adding `(k, v)` to `s` is refused: the key is new and the payload alone
/// exceeds a size limit.
pub open spec fn add_rejected(policy: LimitType, limit: nat, s: Seq<EntryView>, k: Seq<char>, v: Seq<u8>) -> bool {
    !has_key(s, k) && policy == LimitType::Size && v.len() > limit
}

/// The entries after adding `(k, v)` to `s`. A key already present leaves `s`
/// as it is, as does a refused payload. Otherwise the new entry goes to the
/// front, after evicting from the back: one entry when a capacity limit is
/// reached, and as many as needed for the payload to fit under a size limit.
/// Under a capacity limit of zero the new entry is evicted at once.
pub open spec fn add_model(policy: LimitType, limit: nat, s: Seq<EntryView>, k: Seq<char>, v: Seq<u8>) -> Seq<EntryView> {
    if has_key(s, k) || add_rejected(policy, limit, s, k, v) {
        s
    } else {
        match policy {
            LimitType::Capacity => {
                if limit == 0 {
                    s
                } else if s.len() == limit {
                    seq![(k, v)] + s.drop_last()
                } else {
                    seq![(k, v)] + s
                }
            },
            LimitType::Size => seq![(k, v)] + fit_within(s, (limit - v.len()) as nat),
        }
    }
}

/// The entries after a lookup of `k` in `s`: the entry with key `k` moves to
/// the front and the others keep their order. Without such an entry, `s`.
pub open spec fn promote(s: Seq<EntryView>, k: Seq<char>) -> Seq<EntryView> {
    if has_key(s, k) {
        let i = choose|i: int| 0 <= i < s.len() && #[trigger] s[i].0 == k;
        seq![s[i]] + s.remove(i)
    } else {
        s
    }
}

pub proof fn lemma_total_size_concat(a: Seq<EntryView>, b: Seq<EntryView>)
    ensures
        total_size(a + b) == total_size(a) + total_size(b),
    decreases b.len(),
{
    if b.len() == 0 {
        assert(a + b =~= a);
    } else {
        assert((a + b).drop_last() =~= a + b.drop_last());
        assert((a + b).last() == b.last());
        lemma_total_size_concat(a, b.drop_last());
    }
}

pub proof fn lemma_total_size_push_front(x: EntryView, s: Seq<EntryView>)
    ensures
        total_size(seq![x] + s) == x.1.len() + total_size(s),
{
    assert(seq![x].drop_last() =~= Seq::<EntryView>::empty());
    assert(total_size(Seq::<EntryView>::empty()) == 0);
    lemma_total_size_concat(seq![x], s);
}

/// A prefix is no larger than the whole.
pub proof fn lemma_total_size_prefix(s: Seq<EntryView>, n: int)
    requires
        0 <= n <= s.len(),
    ensures
        total_size(s.take(n)) <= total_size(s),
{
    assert(s =~= s.take(n) + s.skip(n));
    lemma_total_size_concat(s.take(n), s.skip(n));
}

/// Moving the entry at `i` to the front keeps the keys unique, the length and
/// the total size.
pub proof fn lemma_move_to_front(s: Seq<EntryView>, i: int)
    requires
        0 <= i < s.len(),
        keys_unique(s),
    ensures
        keys_unique(seq![s[i]] + s.remove(i)),
        (seq![s[i]] + s.remove(i)).len() == s.len(),
        total_size(seq![s[i]] + s.remove(i)) == total_size(s),
{
    let t = seq![s[i]] + s.remove(i);
    assert forall|k: int| 0 <= k < t.len() implies #[trigger] t[k] == s[
        if k == 0 {
            i
        } else if k - 1 < i {
            k - 1
        } else {
            k
        }
    ] by {}
    assert forall|p: int, q: int| 0 <= p < t.len() && 0 <= q < t.len() && p != q implies #[trigger] t[p].0
        != #[trigger] t[q].0 by {
        let ip = if p == 0 { i } else if p - 1 < i { p - 1 } else { p };
        let iq = if q == 0 { i } else if q - 1 < i { q - 1 } else { q };
        assert(t[p] == s[ip]);
        assert(t[q] == s[iq]);
    }
    assert(s =~= s.take(i) + seq![s[i]] + s.skip(i + 1));
    assert(s.remove(i) =~= s.take(i) + s.skip(i + 1));
    lemma_total_size_concat(s.take(i) + seq![s[i]], s.skip(i + 1));
    lemma_total_size_concat(s.take(i), seq![s[i]]);
    lemma_total_size_concat(s.take(i), s.skip(i + 1));
    lemma_total_size_push_front(s[i], s.remove(i));
    lemma_total_size_push_front(s[i], Seq::<EntryView>::empty());
    assert(seq![s[i]] + Seq::<EntryView>::empty() =~= seq![s[i]]);
}

pub proof fn lemma_fit_within_prefix(s: Seq<EntryView>, room: nat)
    ensures
        fit_within(s, room).len() <= s.len(),
        fit_within(s, room) =~= s.subrange(0, fit_within(s, room).len() as int),
        total_size(fit_within(s, room)) <= room,
    decreases s.len(),
{
    if s.len() == 0 || total_size(s) <= room {
    } else {
        lemma_fit_within_prefix(s.drop_last(), room);
    }
}

} // verus!
