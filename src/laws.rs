//! Properties of the cache that relate several operations, stated over the
//! model that the operations' contracts use.

use vstd::prelude::*;
use crate::cache::{Cache, LimitType};
use crate::model::{
    EntryView, total_size, fit_within, has_key, within_bound, add_rejected, add_model,
    lemma_total_size_push_front, lemma_fit_within_prefix,
};

verus! {

/// The entries after adding each `(key, payload)` of `ops` to `s`, in order.
pub open spec fn add_each(policy: LimitType, limit: nat, s: Seq<EntryView>, ops: Seq<EntryView>) -> Seq<EntryView>
    decreases ops.len(),
{
    if ops.len() == 0 {
        s
    } else {
        let prev = add_each(policy, limit, s, ops.drop_last());
        add_model(policy, limit, prev, ops.last().0, ops.last().1)
    }
}

/// One addition keeps the bound.
pub proof fn lemma_add_within_bound(policy: LimitType, limit: nat, s: Seq<EntryView>, k: Seq<char>, v: Seq<u8>)
    requires
        within_bound(policy, limit, s),
    ensures
        within_bound(policy, limit, add_model(policy, limit, s, k, v)),
{
    if !has_key(s, k) && !add_rejected(policy, limit, s, k, v) && policy == LimitType::Size {
        let room = (limit - v.len()) as nat;
        lemma_fit_within_prefix(s, room);
        lemma_total_size_push_front((k, v), fit_within(s, room));
    }
}

/// Any run of additions keeps the bound.
pub proof fn lemma_add_each_within_bound(policy: LimitType, limit: nat, s: Seq<EntryView>, ops: Seq<EntryView>)
    requires
        within_bound(policy, limit, s),
    ensures
        within_bound(policy, limit, add_each(policy, limit, s, ops)),
    decreases ops.len(),
{
    if ops.len() > 0 {
        lemma_add_each_within_bound(policy, limit, s, ops.drop_last());
        lemma_add_within_bound(policy, limit, add_each(policy, limit, s, ops.drop_last()), ops.last().0, ops.last().1);
    }
}

/// Under a capacity limit, after any run of additions to a cache within its
/// limit, the number of entries is at most the limit.
pub proof fn lemma_capacity_bound(limit: nat, s: Seq<EntryView>, ops: Seq<EntryView>)
    requires
        s.len() <= limit,
    ensures
        add_each(LimitType::Capacity, limit, s, ops).len() <= limit,
{
    lemma_add_each_within_bound(LimitType::Capacity, limit, s, ops);
}

/// Under a size limit, after any run of additions to a cache within its
/// limit, the payloads add up to at most the limit.
pub proof fn lemma_size_bound(limit: nat, s: Seq<EntryView>, ops: Seq<EntryView>)
    requires
        total_size(s) <= limit,
    ensures
        total_size(add_each(LimitType::Size, limit, s, ops)) <= limit,
{
    lemma_add_each_within_bound(LimitType::Size, limit, s, ops);
}

/// Adding a key a second time, with another payload, changes nothing: the
/// first payload stays, and so does its place at the front.
pub proof fn lemma_duplicate_add_keeps_first(
    policy: LimitType,
    limit: nat,
    s: Seq<EntryView>,
    k: Seq<char>,
    v1: Seq<u8>,
    v2: Seq<u8>,
)
    requires
        !has_key(s, k),
        !add_rejected(policy, limit, s, k, v1),
        !(policy == LimitType::Capacity && limit == 0),
    ensures
        add_model(policy, limit, s, k, v1)[0] == (k, v1),
        add_model(policy, limit, add_model(policy, limit, s, k, v1), k, v2) == add_model(policy, limit, s, k, v1),
{
    let t = add_model(policy, limit, s, k, v1);
    assert(t[0] == (k, v1));
    assert(t[0].0 == k);
    assert(has_key(t, k));
}

/// Clearing leaves no entry, and clearing again gives the same state.
pub proof fn lemma_clear_idempotent(a: Cache, b: Cache, c: Cache)
    requires
        Cache::cleared(a, b),
        Cache::cleared(b, c),
    ensures
        b@.len() == 0,
        c@ == b@,
        c.policy() == b.policy(),
        c.bound() == b.bound(),
{
}

} // verus!
