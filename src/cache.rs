//! The cache: one ordered collection of entries under a fixed bounding policy.

use std::collections::VecDeque;
use vstd::prelude::*;
use crate::entry::Entry;
use crate::model::{
    EntryView, total_size, fit_within, has_key, keys_unique, within_bound, add_rejected,
    add_model, promote, lemma_total_size_push_front,
    lemma_total_size_prefix, lemma_move_to_front,
};
use crate::payload::byte_content;

verus! {

/// How a cache bounds what it holds.
#[derive(Debug, Clone, Copy, PartialEq, Eq, Structural)]
pub enum LimitType {
    /// At most `limit` entries.
    Capacity,
    /// At most `limit` payload bytes in all.
    Size,
}

/// A payload longer than the size limit of the cache it was offered to.
#[derive(Debug, Clone, Copy, PartialEq, Eq, Structural)]
pub struct Error {
    /// The length of the refused payload.
    pub size: usize,
    /// The size limit of the cache.
    pub limit: usize,
}

/// A bounded store of entries, most recently used first.
#[derive(Debug)]
pub struct Cache {
    items: VecDeque<Entry>,
    limit_type: LimitType,
    limit: usize,
}

impl View for Cache {
    type V = Seq<EntryView>;

    /// The entries, front (most recently used) first.
    closed spec fn view(&self) -> Seq<EntryView> {
        self.items@.map_values(|e: Entry| e@)
    }
}

impl Cache {
    /// The bounding policy, fixed at construction.
    pub closed spec fn policy(&self) -> LimitType {
        self.limit_type
    }

    /// The bound, in entries or in bytes according to the policy.
    pub closed spec fn bound(&self) -> nat {
        self.limit as nat
    }

    /// Keys are unique and the bound holds.
    pub open spec fn wf(&self) -> bool {
        &&& keys_unique(self@)
        &&& within_bound(self.policy(), self.bound(), self@)
    }

    pub fn with_capacity(capacity: usize) -> (r: Self)
        ensures
            r.wf(),
            r@ == Seq::<EntryView>::empty(),
            r.policy() == LimitType::Capacity,
            r.bound() == capacity,
    {
        let r = Cache { items: VecDeque::new(), limit_type: LimitType::Capacity, limit: capacity };
        assert(r@ =~= Seq::<EntryView>::empty());
        r
    }

    pub fn with_size(size: usize) -> (r: Self)
        ensures
            r.wf(),
            r@ == Seq::<EntryView>::empty(),
            r.policy() == LimitType::Size,
            r.bound() == size,
    {
        let r = Cache { items: VecDeque::new(), limit_type: LimitType::Size, limit: size };
        assert(r@ =~= Seq::<EntryView>::empty());
        r
    }

    /// A cache bounded to `size` KiB of payload.
    pub fn with_size_kb(size: usize) -> (r: Self)
        requires
            size * 1024 <= usize::MAX,
        ensures
            r.wf(),
            r@ == Seq::<EntryView>::empty(),
            r.policy() == LimitType::Size,
            r.bound() == size * 1024,
    {
        Self::with_size(size * 1024)
    }

    /// A cache bounded to `size` MiB of payload.
    pub fn with_size_mb(size: usize) -> (r: Self)
        requires
            size * 1024 * 1024 <= usize::MAX,
        ensures
            r.wf(),
            r@ == Seq::<EntryView>::empty(),
            r.policy() == LimitType::Size,
            r.bound() == size * 1024 * 1024,
    {
        Self::with_size_kb(size * 1024)
    }

    /// A cache bounded to `size` GiB of payload.
    pub fn with_size_gb(size: usize) -> (r: Self)
        requires
            size * 1024 * 1024 * 1024 <= usize::MAX,
        ensures
            r.wf(),
            r@ == Seq::<EntryView>::empty(),
            r.policy() == LimitType::Size,
            r.bound() == size * 1024 * 1024 * 1024,
    {
        Self::with_size_mb(size * 1024)
    }

    /// The number of entries.
    pub fn len(&self) -> (r: usize)
        ensures
            r == self@.len(),
    {
        self.items.len()
    }

    pub fn is_empty(&self) -> (r: bool)
        ensures
            r == (self@.len() == 0),
    {
        self.items.len() == 0
    }

    /// The index of the entry with key `key`, scanning from the front.
    fn position(&self, key: &String) -> (r: Option<usize>)
        ensures
            match r {
                Some(i) => i < self@.len() && self@[i as int].0 == key@,
                None => !has_key(self@, key@),
            },
    {
        let n = self.items.len();
        let mut i: usize = 0;
        while i < n
            invariant
                n == self@.len(),
                n == self.items@.len(),
                i <= n,
                forall|j: int| 0 <= j < i ==> #[trigger] self@[j].0 != key@,
            decreases n - i,
        {
            if self.items[i].matches_key(key) {
                return Some(i);
            }
            i += 1;
        }
        None
    }

    /// The total payload size, summed over the entries.
    fn len_size(&self) -> (r: usize)
        requires
            self.wf(),
            self.policy() == LimitType::Size,
        ensures
            r == total_size(self@),
    {
        let n = self.items.len();
        let mut sum: usize = 0;
        let mut i: usize = 0;
        while i < n
            invariant
                self.wf(),
                self.policy() == LimitType::Size,
                n == self@.len(),
                n == self.items@.len(),
                i <= n,
                sum == total_size(self@.take(i as int)),
            decreases n - i,
        {
            proof {
                assert(self@.take(i + 1).drop_last() =~= self@.take(i as int));
                lemma_total_size_prefix(self@, i + 1);
            }
            sum = sum + self.items[i].size();
            i += 1;
        }
        assert(self@.take(n as int) =~= self@);
        sum
    }

    /// Stores `value` under `key` at the front, evicting from the back as the
    /// policy demands. A key already present is left as it is, neither replaced
    /// nor promoted. Under a size limit, a payload longer than the limit is
    /// refused and the cache left untouched.
    pub fn add(&mut self, key: &str, value: bytes::Bytes) -> (r: Result<(), Error>)
        requires
            old(self).wf(),
        ensures
            final(self).wf(),
            final(self).policy() == old(self).policy(),
            final(self).bound() == old(self).bound(),
            final(self)@ == add_model(
                old(self).policy(),
                old(self).bound(),
                old(self)@,
                key@,
                byte_content(value),
            ),
            r is Err <==> add_rejected(
                old(self).policy(),
                old(self).bound(),
                old(self)@,
                key@,
                byte_content(value),
            ),
            r is Err ==> r == Err::<(), Error>(
                (Error { size: byte_content(value).len() as usize, limit: old(self).bound() as usize }),
            ) && *final(self) == *old(self),
    {
        let owned: String = key.to_owned();
        if let Some(i) = self.position(&owned) {
            assert(self@[i as int].0 == key@);
            return Ok(());
        }
        let ghost before = self@;
        match self.limit_type {
            LimitType::Capacity => {
                if self.limit == 0 {
                    // the new entry would be evicted at once
                    return Ok(());
                }
                if self.items.len() == self.limit {
                    self.items.pop_back();
                    assert(self@ =~= before.drop_last());
                }
                assert(self@ =~= before.take(self@.len() as int));
            },
            LimitType::Size => {
                let size = value.len();
                if size > self.limit {
                    return Err(Error { size, limit: self.limit });
                }
                let room = self.limit - size;
                let mut total = self.len_size();
                while total > room
                    invariant
                        self.limit_type == LimitType::Size,
                        self.limit == old(self).limit,
                        room == self.limit - size,
                        total == total_size(self@),
                        fit_within(self@, room as nat) == fit_within(before, room as nat),
                        self@.len() <= before.len(),
                        self@ =~= before.take(self@.len() as int),
                    decreases self@.len(),
                {
                    let ghost cur = self@;
                    assert(cur.len() > 0) by {
                        if cur.len() == 0 {
                            assert(total_size(cur) == 0);
                        }
                    }
                    let last = self.items.pop_back();
                    assert(self@ =~= cur.drop_last());
                    match last {
                        Some(e) => {
                            total = total - e.size();
                        },
                        None => {},
                    }
                }
                assert(fit_within(self@, room as nat) == self@);
            },
        }
        let entry = Entry::new(owned, value);
        let ghost kept = self@;
        self.items.push_front(entry);
        assert(self@ =~= seq![entry@] + kept);
        proof {
            assert forall|j: int| 0 <= j < kept.len() implies #[trigger] kept[j].0 != key@ by {
                assert(kept[j] == before[j]);
            }
            if self.limit_type == LimitType::Size {
                lemma_total_size_push_front(entry@, kept);
            }
        }
        Ok(())
    }

    /// Looks `key` up. A hit moves its entry to the front, the others keeping
    /// their order, and returns it.
    pub fn get(&mut self, key: &str) -> (r: Option<&Entry>)
        requires
            old(self).wf(),
        ensures
            final(self).wf(),
            final(self).policy() == old(self).policy(),
            final(self).bound() == old(self).bound(),
            final(self)@ == promote(old(self)@, key@),
            r is Some <==> has_key(old(self)@, key@),
            r matches Some(e) ==> e@ == final(self)@[0] && e@.0 == key@,
    {
        let owned: String = key.to_owned();
        match self.position(&owned) {
            None => None,
            Some(i) => {
                let ghost before = self@;
                proof {
                    let j = choose|j: int| 0 <= j < before.len() && #[trigger] before[j].0 == key@;
                    assert(before[i as int].0 == key@);
                    assert(j == i);
                    lemma_move_to_front(before, i as int);
                }
                if i != 0 {
                    let found = self.items.remove(i);
                    if let Some(e) = found {
                        self.items.push_front(e);
                    }
                    assert(self@ =~= seq![before[i as int]] + before.remove(i as int));
                } else {
                    assert(before =~= seq![before[0]] + before.remove(0));
                }
                Some(&self.items[0])
            },
        }
    }

    /// Like `get`, returning only the payload.
    pub fn get_bytes(&mut self, key: &str) -> (r: Option<&bytes::Bytes>)
        requires
            old(self).wf(),
        ensures
            final(self).wf(),
            final(self).policy() == old(self).policy(),
            final(self).bound() == old(self).bound(),
            final(self)@ == promote(old(self)@, key@),
            r is Some <==> has_key(old(self)@, key@),
            r matches Some(b) ==> byte_content(*b) == final(self)@[0].1 && final(self)@[0].0 == key@,
    {
        match self.get(key) {
            Some(e) => Some(e.value()),
            None => None,
        }
    }

    /// `after` holds no entry, under the policy and bound of `before`.
    pub open spec fn cleared(before: Cache, after: Cache) -> bool {
        &&& after@ == Seq::<EntryView>::empty()
        &&& after.policy() == before.policy()
        &&& after.bound() == before.bound()
    }

    /// Removes every entry; the policy and the bound stay.
    pub fn clear(&mut self)
        ensures
            final(self).wf(),
            Cache::cleared(*old(self), *final(self)),
    {
        self.items.clear();
        assert(self@ =~= Seq::<EntryView>::empty());
    }

    /// The keys, front (most recently used) first.
    pub fn keys(&self) -> (r: Vec<String>)
        ensures
            r@.len() == self@.len(),
            forall|i: int| 0 <= i < r@.len() ==> #[trigger] r@[i]@ == self@[i].0,
    {
        let n = self.items.len();
        let mut r: Vec<String> = Vec::new();
        let mut i: usize = 0;
        while i < n
            invariant
                n == self@.len(),
                n == self.items@.len(),
                i <= n,
                r@.len() == i,
                forall|j: int| 0 <= j < i ==> #[trigger] r@[j]@ == self@[j].0,
            decreases n - i,
        {
            r.push(self.items[i].key().to_owned());
            i += 1;
        }
        r
    }

} // impl Cache

} // verus!
