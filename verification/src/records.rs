//! The per-node record store: a mapping from identifier to stored item,
//! ordered by identifier, with the insert-or-merge write the protocol uses.
//!
//! The store is modelled by a sequence of entries strictly sorted by key
//! value; every operation is specified against a recursive functional model
//! (`store_find`, `store_merge`, `store_remove`, ...) over that sequence.

use vstd::prelude::*;
use crate::id::HashType;
use crate::id::id_val;
use crate::ranges::Range;
use crate::ranges::RangeV;
use crate::ranges::range_has;

verus! {

/// The mathematical reading of an [`Item`].
pub ghost struct ItemV {
    pub title: Seq<char>,
    pub value: Seq<char>,
    pub replica_idx: int,
    pub pending: bool,
    pub timestamp: int,
}

/// One stored record: the user key, its payload, the copy's distance from
/// the primary, and the chain-replication commit flag.
#[derive(Debug)]
pub struct Item {
    pub title: String,
    pub value: String,
    pub replica_idx: u8,
    pub pending: bool,
    pub timestamp: i64,
}

impl View for Item {
    type V = ItemV;

    open spec fn view(&self) -> ItemV {
        ItemV {
            title: self.title@,
            value: self.value@,
            replica_idx: self.replica_idx as int,
            pending: self.pending,
            timestamp: self.timestamp as int,
        }
    }
}

impl Clone for Item {
    fn clone(&self) -> (r: Self)
        ensures
            r@ == self@,
    {
        Item {
            title: self.title.clone(),
            value: self.value.clone(),
            replica_idx: self.replica_idx,
            pending: self.pending,
            timestamp: self.timestamp,
        }
    }
}

/// Relies on `chrono::Utc::now` for a creation timestamp; nothing is
/// promised of the value.
#[verifier::external_body]
fn now_millis() -> i64 {
    chrono::Utc::now().timestamp_millis()
}

impl Item {
    /// A fresh record with the given fields and the current time as its
    /// timestamp.
    pub fn new(title: &str, value: &str, replica_idx: u8, pending: bool) -> (r: Item)
        ensures
            r@.title == title@,
            r@.value == value@,
            r@.replica_idx == replica_idx as int,
            r@.pending == pending,
    {
        Item {
            title: String::from_str(title),
            value: String::from_str(value),
            replica_idx,
            pending,
            timestamp: now_millis(),
        }
    }
}

/// One entry of the store model: a key value and the item under it.
pub ghost struct EntryV {
    pub key: int,
    pub item: ItemV,
}

/// Entries strictly ascending by key: each key occurs once.
pub open spec fn store_sorted(s: Seq<EntryV>) -> bool {
    forall|i: int, j: int| 0 <= i < j < s.len() ==> s[i].key < s[j].key
}

/// The item under `key`, if any.
pub open spec fn store_find(s: Seq<EntryV>, key: int) -> Option<ItemV>
    decreases s.len(),
{
    if s.len() == 0 {
        None
    } else if s.first().key == key {
        Some(s.first().item)
    } else {
        store_find(s.drop_first(), key)
    }
}

/// The merge of a new write into an existing item: payloads concatenate and
/// the pending flags disjoin; everything else keeps the existing record.
pub open spec fn merge_item(exist: ItemV, new: ItemV) -> ItemV {
    ItemV { value: exist.value + new.value, pending: exist.pending || new.pending, ..exist }
}

/// The store after an insert-or-merge of `it` under `key`, keeping the
/// entries sorted.
pub open spec fn store_merge(s: Seq<EntryV>, key: int, it: ItemV) -> Seq<EntryV>
    decreases s.len(),
{
    if s.len() == 0 {
        seq![EntryV { key, item: it }]
    } else if key < s.first().key {
        seq![EntryV { key, item: it }] + s
    } else if key == s.first().key {
        seq![EntryV { key, item: merge_item(s.first().item, it) }] + s.drop_first()
    } else {
        seq![s.first()] + store_merge(s.drop_first(), key, it)
    }
}

/// The store with the entry under `key` removed, if it was there.
pub open spec fn store_remove(s: Seq<EntryV>, key: int) -> Seq<EntryV>
    decreases s.len(),
{
    if s.len() == 0 {
        s
    } else if s.first().key == key {
        s.drop_first()
    } else {
        seq![s.first()] + store_remove(s.drop_first(), key)
    }
}

/// The store with the pending flag of the entry under `key` set to `p`.
pub open spec fn store_set_pending(s: Seq<EntryV>, key: int, p: bool) -> Seq<EntryV>
    decreases s.len(),
{
    if s.len() == 0 {
        s
    } else if s.first().key == key {
        seq![EntryV { key, item: ItemV { pending: p, ..s.first().item } }] + s.drop_first()
    } else {
        seq![s.first()] + store_set_pending(s.drop_first(), key, p)
    }
}

/// The per-node record store: entries strictly sorted by key value.
#[derive(Debug)]
pub struct RecordStore {
    pub entries: Vec<(HashType, Item)>,
}

impl View for RecordStore {
    type V = Seq<EntryV>;

    open spec fn view(&self) -> Seq<EntryV> {
        self.entries@.map_values(|p: (HashType, Item)| EntryV { key: id_val(p.0), item: p.1@ })
    }
}

impl RecordStore {
    /// The store's invariant: keys strictly ascending.
    pub open spec fn wf(&self) -> bool {
        store_sorted(self@)
    }

    /// An empty store.
    pub fn new() -> (r: RecordStore)
        ensures
            r@ =~= Seq::<EntryV>::empty(),
            r.wf(),
    {
        RecordStore { entries: Vec::new() }
    }

    /// How many records the store holds.
    pub fn len(&self) -> (r: usize)
        ensures
            r == self@.len(),
    {
        self.entries.len()
    }

    /// The key at position `i` of the ascending order.
    pub fn key_at(&self, i: usize) -> (r: HashType)
        requires
            i < self@.len(),
        ensures
            id_val(r) == self@[i as int].key,
    {
        self.entries[i].0
    }

    /// A copy of the item at position `i` of the ascending order.
    pub fn item_at(&self, i: usize) -> (r: Item)
        requires
            i < self@.len(),
        ensures
            r@ == self@[i as int].item,
    {
        self.entries[i].1.clone()
    }

    /// A copy of the item under `key`, if any.
    pub fn get(&self, key: &HashType) -> (r: Option<Item>)
        ensures
            match r {
                Some(it) => store_find(self@, id_val(*key)) == Some(it@),
                None => store_find(self@, id_val(*key)) is None,
            },
    {
        let mut i: usize = 0;
        let n = self.entries.len();
        proof {
            assert(self@.skip(0) =~= self@);
        }
        while i < n
            invariant
                0 <= i <= n,
                n == self@.len(),
                store_find(self@, id_val(*key)) == store_find(self@.skip(i as int), id_val(*key)),
            decreases n - i,
        {
            proof {
                assert(self@[i as int].key == id_val(self.entries@[i as int].0));
                lemma_store_find_step(self@, id_val(*key), i as int);
            }
            if self.entries[i].0.equals(key) {
                return Some(self.entries[i].1.clone());
            }
            i += 1;
        }
        proof {
            assert(self@.skip(n as int) =~= Seq::<EntryV>::empty());
        }
        None
    }

    /// The scan position of `key`: the count of entries with smaller keys.
    fn lower_bound(&self, key: &HashType) -> (i: usize)
        ensures
            0 <= i <= self@.len(),
            forall|j: int| 0 <= j < i ==> self@[j].key < id_val(*key),
            i < self@.len() ==> id_val(*key) <= self@[i as int].key,
    {
        let mut i: usize = 0;
        let n = self.entries.len();
        while i < n
            invariant
                0 <= i <= n,
                n == self@.len(),
                forall|j: int| 0 <= j < i ==> self@[j].key < id_val(*key),
            decreases n - i,
        {
            proof {
                assert(self@[i as int].key == id_val(self.entries@[i as int].0));
            }
            if !self.entries[i].0.less_than(key) {
                return i;
            }
            i += 1;
        }
        i
    }

    /// Inserts `new` under `key`, or merges it into the existing record:
    /// payloads concatenate, pending flags disjoin.
    pub fn insert_or_merge(&mut self, key: HashType, new: &Item)
        requires
            old(self).wf(),
        ensures
            final(self).wf(),
            final(self)@ =~= store_merge(old(self)@, id_val(key), new@),
    {
        let ghost k = id_val(key);
        let n = self.entries.len();
        let i = self.lower_bound(&key);
        proof {
            lemma_store_merge_at(self@, k, new@, i as int);
        }
        if i < n && self.entries[i].0.equals(&key) {
            let (k0, exist) = self.entries.remove(i);
            let mut merged = exist;
            merged.value.append(new.value.as_str());
            merged.pending = merged.pending || new.pending;
            self.entries.insert(i, (k0, merged));
            proof {
                assert(self@ =~= store_merge(old(self)@, k, new@));
                lemma_sorted_update(old(self)@, self@, i as int);
            }
        } else {
            self.entries.insert(i, (key, new.clone()));
            proof {
                assert(self@ =~= store_merge(old(self)@, k, new@));
                lemma_sorted_insert(old(self)@, final(self)@, i as int, k);
            }
        }
    }

    /// Removes and returns the record under `key`, if any.
    pub fn remove(&mut self, key: &HashType) -> (r: Option<Item>)
        requires
            old(self).wf(),
        ensures
            final(self).wf(),
            final(self)@ =~= store_remove(old(self)@, id_val(*key)),
            match r {
                Some(it) => store_find(old(self)@, id_val(*key)) == Some(it@),
                None => store_find(old(self)@, id_val(*key)) is None,
            },
    {
        let ghost k = id_val(*key);
        let mut i: usize = 0;
        let n = self.entries.len();
        while i < n
            invariant
                0 <= i <= n,
                n == self@.len(),
                self == old(self),
                old(self).wf(),
                k == id_val(*key),
                forall|j: int| 0 <= j < i ==> self@[j].key != k,
            decreases n - i,
        {
            if self.entries[i].0.equals(key) {
                proof {
                    assert(self@[i as int].key == id_val(self.entries@[i as int].0));
                    lemma_store_remove_at(self@, k, i as int, true);
                    lemma_store_find_at(self@, k, i as int, true);
                }
                let (_, it) = self.entries.remove(i);
                proof {
                    assert(self@ =~= store_remove(old(self)@, k));
                    lemma_sorted_remove(old(self)@, self@, i as int);
                }
                return Some(it);
            }
            i += 1;
        }
        proof {
            lemma_store_remove_at(self@, k, n as int, false);
            lemma_store_find_at(self@, k, n as int, false);
            assert(self@ =~= store_remove(old(self)@, k));
        }
        None
    }

    /// Sets the pending flag of the record under `key`; reports whether the
    /// record was there.
    pub fn set_pending(&mut self, key: &HashType, p: bool) -> (found: bool)
        requires
            old(self).wf(),
        ensures
            final(self).wf(),
            final(self)@ =~= store_set_pending(old(self)@, id_val(*key), p),
            found <==> store_find(old(self)@, id_val(*key)) is Some,
    {
        let ghost k = id_val(*key);
        let mut i: usize = 0;
        let n = self.entries.len();
        while i < n
            invariant
                0 <= i <= n,
                n == self@.len(),
                self == old(self),
                old(self).wf(),
                k == id_val(*key),
                forall|j: int| 0 <= j < i ==> self@[j].key != k,
            decreases n - i,
        {
            if self.entries[i].0.equals(key) {
                proof {
                    assert(self@[i as int].key == id_val(self.entries@[i as int].0));
                    lemma_store_set_pending_at(self@, k, p, i as int, true);
                    lemma_store_find_at(self@, k, i as int, true);
                }
                let (k0, mut it) = self.entries.remove(i);
                it.pending = p;
                self.entries.insert(i, (k0, it));
                proof {
                    assert(self@ =~= store_set_pending(old(self)@, k, p));
                    lemma_sorted_update(old(self)@, self@, i as int);
                }
                return true;
            }
            i += 1;
        }
        proof {
            lemma_store_set_pending_at(self@, k, p, n as int, false);
            lemma_store_find_at(self@, k, n as int, false);
            assert(self@ =~= store_set_pending(old(self)@, k, p));
        }
        false
    }

    /// Empties the store.
    pub fn clear(&mut self)
        ensures
            final(self).wf(),
            final(self)@ =~= Seq::<EntryV>::empty(),
    {
        self.entries.clear();
    }
}

/// Whether a membership shift on join bumps this entry's replica index: a
/// replica strictly between primary and tail, or a primary copy whose key
/// left the node's primary interval (`keep`, when given).
pub open spec fn join_bumped(e: EntryV, k: int, keep: Option<RangeV>) -> bool {
    (0 < e.item.replica_idx < k) || (e.item.replica_idx == 0 && match keep {
        Some(r) => !range_has(r, e.key),
        None => false,
    })
}

/// The store after the index shift a join causes: tail copies (index `k`)
/// drop out, bumped entries move one farther from the primary, the rest
/// stand.
pub open spec fn shift_up_entries(s: Seq<EntryV>, k: int, keep: Option<RangeV>) -> Seq<EntryV>
    decreases s.len(),
{
    if s.len() == 0 {
        s
    } else {
        let front = shift_up_entries(s.drop_last(), k, keep);
        let e = s.last();
        if e.item.replica_idx == k {
            front
        } else if join_bumped(e, k, keep) {
            front + seq![
                EntryV { key: e.key, item: ItemV { replica_idx: e.item.replica_idx + 1, ..e.item } },
            ]
        } else {
            front + seq![e]
        }
    }
}

/// An entry after the index shift a depart causes: one step closer to the
/// primary, floored at the primary itself.
pub open spec fn shift_down_item(it: ItemV) -> ItemV {
    if it.replica_idx > 0 {
        ItemV { replica_idx: it.replica_idx - 1, ..it }
    } else {
        it
    }
}

/// The items whose replica index is exactly `k`, in store order.
pub open spec fn items_at_idx(s: Seq<EntryV>, k: int) -> Seq<ItemV>
    decreases s.len(),
{
    if s.len() == 0 {
        Seq::empty()
    } else {
        let front = items_at_idx(s.drop_last(), k);
        if s.last().item.replica_idx == k {
            front + seq![s.last().item]
        } else {
            front
        }
    }
}

/// The committed primary copies, in store order: replica index zero and not
/// pending.
pub open spec fn primary_items(s: Seq<EntryV>) -> Seq<ItemV>
    decreases s.len(),
{
    if s.len() == 0 {
        Seq::empty()
    } else {
        let front = primary_items(s.drop_last());
        if s.last().item.replica_idx == 0 && !s.last().item.pending {
            front + seq![s.last().item]
        } else {
            front
        }
    }
}

/// What a join at this node hands to the new predecessor, in store order:
/// every replica copy, every primary copy whose key left the primary
/// interval `npr`, and — when `wrap` — every remaining primary copy as a
/// first replica.
pub open spec fn join_transfer_items(s: Seq<EntryV>, npr: RangeV, wrap: bool) -> Seq<ItemV>
    decreases s.len(),
{
    if s.len() == 0 {
        Seq::empty()
    } else {
        let front = join_transfer_items(s.drop_last(), npr, wrap);
        let e = s.last();
        if e.item.replica_idx > 0 || (e.item.replica_idx == 0 && !range_has(npr, e.key)) {
            front + seq![e.item]
        } else if wrap && e.item.replica_idx == 0 && range_has(npr, e.key) {
            front + seq![ItemV { replica_idx: 1, ..e.item }]
        } else {
            front
        }
    }
}

impl RecordStore {
    /// Applies the join shift: drops tail copies, bumps the entries that
    /// [`join_bumped`] selects one index up.
    pub fn shift_up(&mut self, k: u8, keep: Option<&Range>)
        requires
            old(self).wf(),
        ensures
            final(self).wf(),
            final(self)@ =~= shift_up_entries(
                old(self)@,
                k as int,
                match keep {
                    Some(r) => Some(r@),
                    None => None,
                },
            ),
    {
        let ghost keepv: Option<RangeV> = match keep {
            Some(r) => Some(r@),
            None => None,
        };
        let n = self.entries.len();
        let mut out: Vec<(HashType, Item)> = Vec::new();
        let mut i: usize = 0;
        while i < n
            invariant
                0 <= i <= n,
                n == self@.len(),
                self == old(self),
                old(self).wf(),
                keepv == (match keep {
                    Some(r) => Some(r@),
                    None => None,
                }),
                view_entries(out@) =~= shift_up_entries(self@.take(i as int), k as int, keepv),
                forall|m: int| 0 <= m < out@.len()
                    ==> exists|j: int| 0 <= j < i && id_val(#[trigger] out@[m].0) == self@[j].key,
            decreases n - i,
        {
            proof {
                assert(self@.take(i + 1).drop_last() =~= self@.take(i as int));
                assert(self@.take(i + 1).last() == self@[i as int]);
                assert(self@[i as int].key == id_val(self.entries@[i as int].0));
            }
            let key = self.entries[i].0;
            let item = self.entries[i].1.clone();
            if item.replica_idx == k {
                // the tail copy leaves the store
            } else {
                let bump = if item.replica_idx > 0 && item.replica_idx < k {
                    true
                } else if item.replica_idx == 0 {
                    match keep {
                        Some(r) => {
                            let in_keep = if r.lower.less_than(&r.upper) {
                                r.in_range(key)
                            } else {
                                r.lower.less_than(&key) || key.less_eq(&r.upper)
                            };
                            !in_keep
                        },
                        None => false,
                    }
                } else {
                    false
                };
                let mut moved = item;
                if bump {
                    moved.replica_idx = moved.replica_idx + 1;
                }
                out.push((key, moved));
                proof {
                    assert(view_entries(out@) =~= shift_up_entries(
                        self@.take(i + 1),
                        k as int,
                        keepv,
                    ));
                }
            }
            i += 1;
        }
        proof {
            assert(self@.take(n as int) =~= self@);
        }
        self.entries = out;
        proof {
            assert(self@ =~= shift_up_entries(old(self)@, k as int, keepv));
            assert forall|a: int, b: int| 0 <= a < b < self@.len() implies self@[a].key
                < self@[b].key by {
                lemma_shift_up_order(old(self)@, k as int, keepv, a, b);
            }
        }
    }

    /// Applies the depart shift: every replica copy moves one index closer
    /// to the primary.
    pub fn shift_down(&mut self)
        requires
            old(self).wf(),
        ensures
            final(self).wf(),
            final(self)@ =~= old(self)@.map_values(
                |e: EntryV| EntryV { key: e.key, item: shift_down_item(e.item) },
            ),
    {
        let n = self.entries.len();
        let mut i: usize = 0;
        while i < n
            invariant
                0 <= i <= n,
                n == self@.len(),
                self@.len() == old(self)@.len(),
                forall|j: int| i <= j < n ==> #[trigger] self@[j] == old(self)@[j],
                forall|j: int| 0 <= j < i ==> #[trigger] self@[j] == (EntryV {
                    key: old(self)@[j].key,
                    item: shift_down_item(old(self)@[j].item),
                }),
                old(self).wf(),
            decreases n - i,
        {
            let ghost pre = self.entries@;
            let (k0, mut it) = self.entries.remove(i);
            if it.replica_idx > 0 {
                it.replica_idx = it.replica_idx - 1;
            }
            self.entries.insert(i, (k0, it));
            proof {
                assert(self.entries@ =~= pre.update(i as int, self.entries@[i as int]));
                assert(view_entries(pre)[i as int] == old(self)@[i as int]);
                assert(self@[i as int] == EntryV {
                    key: id_val(self.entries@[i as int].0),
                    item: self.entries@[i as int].1@,
                });
                assert(id_val(self.entries@[i as int].0) == old(self)@[i as int].key);
                assert(self.entries@[i as int].1@ == shift_down_item(old(self)@[i as int].item));
                assert forall|j: int| 0 <= j < n && j != i implies #[trigger] self@[j]
                    == view_entries(pre)[j] by {
                    assert(self.entries@[j] == pre[j]);
                }
            }
            i += 1;
        }
        proof {
            let target = old(self)@.map_values(
                |e: EntryV| EntryV { key: e.key, item: shift_down_item(e.item) },
            );
            assert forall|j: int| 0 <= j < n implies self@[j] == target[j] by {
                assert(target[j] == EntryV {
                    key: old(self)@[j].key,
                    item: shift_down_item(old(self)@[j].item),
                });
            }
            assert(self@ =~= target);
            assert forall|a: int, b: int| 0 <= a < b < self@.len() implies self@[a].key
                < self@[b].key by {
                assert(old(self)@[a].key < old(self)@[b].key);
            }
        }
    }

    /// The items whose replica index is exactly `k`, in store order.
    pub fn collect_at(&self, k: u8) -> (r: Vec<Item>)
        ensures
            view_items(r@) =~= items_at_idx(self@, k as int),
    {
        let n = self.entries.len();
        let mut out: Vec<Item> = Vec::new();
        let mut i: usize = 0;
        while i < n
            invariant
                0 <= i <= n,
                n == self@.len(),
                view_items(out@) =~= items_at_idx(self@.take(i as int), k as int),
            decreases n - i,
        {
            proof {
                assert(self@.take(i + 1).drop_last() =~= self@.take(i as int));
                assert(self@.take(i + 1).last() == self@[i as int]);
            }
            if self.entries[i].1.replica_idx == k {
                out.push(self.entries[i].1.clone());
            }
            i += 1;
        }
        proof {
            assert(self@.take(n as int) =~= self@);
        }
        out
    }

    /// The committed primary copies, in store order.
    pub fn primaries(&self) -> (r: Vec<Item>)
        ensures
            view_items(r@) =~= primary_items(self@),
    {
        let n = self.entries.len();
        let mut out: Vec<Item> = Vec::new();
        let mut i: usize = 0;
        while i < n
            invariant
                0 <= i <= n,
                n == self@.len(),
                view_items(out@) =~= primary_items(self@.take(i as int)),
            decreases n - i,
        {
            proof {
                assert(self@.take(i + 1).drop_last() =~= self@.take(i as int));
                assert(self@.take(i + 1).last() == self@[i as int]);
            }
            if self.entries[i].1.replica_idx == 0 && !self.entries[i].1.pending {
                out.push(self.entries[i].1.clone());
            }
            i += 1;
        }
        proof {
            assert(self@.take(n as int) =~= self@);
        }
        out
    }

    /// The items a join at this node hands to the new predecessor, given
    /// the node's primary interval after the join and whether the wrap copy
    /// is included.
    pub fn collect_for_join(&self, npr: &Range, wrap: bool) -> (r: Vec<Item>)
        ensures
            view_items(r@) =~= join_transfer_items(self@, npr@, wrap),
    {
        let n = self.entries.len();
        let mut out: Vec<Item> = Vec::new();
        let mut i: usize = 0;
        while i < n
            invariant
                0 <= i <= n,
                n == self@.len(),
                view_items(out@) =~= join_transfer_items(self@.take(i as int), npr@, wrap),
            decreases n - i,
        {
            proof {
                assert(self@.take(i + 1).drop_last() =~= self@.take(i as int));
                assert(self@.take(i + 1).last() == self@[i as int]);
                assert(self@[i as int].key == id_val(self.entries@[i as int].0));
            }
            let key = self.entries[i].0;
            let item = &self.entries[i].1;
            let in_npr = if npr.lower.less_than(&npr.upper) {
                npr.in_range(key)
            } else {
                npr.lower.less_than(&key) || key.less_eq(&npr.upper)
            };
            if item.replica_idx > 0 || (item.replica_idx == 0 && !in_npr) {
                out.push(item.clone());
            } else if wrap && item.replica_idx == 0 && in_npr {
                let mut copy = item.clone();
                copy.replica_idx = 1;
                out.push(copy);
            }
            i += 1;
        }
        proof {
            assert(self@.take(n as int) =~= self@);
        }
        out
    }
}

/// A merge is visible to a lookup of its key: the merged record when the
/// key was present, the new record when it was not; other keys see the
/// store unchanged.
pub proof fn lemma_find_merge(s: Seq<EntryV>, key: int, it: ItemV, other: int)
    requires
        store_sorted(s),
    ensures
        store_find(s, key) is None ==> store_find(store_merge(s, key, it), key) == Some(it),
        store_find(s, key) matches Some(e) ==> store_find(store_merge(s, key, it), key) == Some(
            merge_item(e, it),
        ),
        other != key ==> store_find(store_merge(s, key, it), other) == store_find(s, other),
    decreases s.len(),
{
    if s.len() == 0 {
        let m = seq![EntryV { key, item: it }];
        assert(m.first() == EntryV { key, item: it });
        assert(m.drop_first() =~= Seq::<EntryV>::empty());
        assert(store_merge(s, key, it) == m);
        assert(store_find(s, key) is None);
        assert(m.len() == 1);
        assert(store_find(m, key) == Some(it));
        assert(other != key ==> store_find(m, other) == store_find(m.drop_first(), other));
        assert(other != key ==> store_find(m, other) is None);
    } else if key < s.first().key {
        let m = seq![EntryV { key, item: it }] + s;
        assert(m.first() == EntryV { key, item: it });
        assert(m.drop_first() =~= s);
        assert forall|i: int| 0 <= i < s.len() implies s[i].key != key by {
            assert(s[0].key <= s[i].key);
        }
        lemma_find_none(s, key);
    } else if key == s.first().key {
        let m = seq![EntryV { key, item: merge_item(s.first().item, it) }] + s.drop_first();
        assert(m.first() == EntryV { key, item: merge_item(s.first().item, it) });
        assert(m.drop_first() =~= s.drop_first());
        assert(store_merge(s, key, it) == m);
        assert(store_find(s, key) == Some(s.first().item));
        assert(store_find(m, key) == Some(merge_item(s.first().item, it)));
    } else {
        lemma_find_merge(s.drop_first(), key, it, other);
        let m = seq![s.first()] + store_merge(s.drop_first(), key, it);
        assert(m.first() == s.first());
        assert(m.len() > 0);
        assert(m.drop_first() =~= store_merge(s.drop_first(), key, it));
        assert(store_merge(s, key, it) == m);
        assert(store_find(s, key) == store_find(s.drop_first(), key));
        assert(store_find(m, key) == store_find(store_merge(s.drop_first(), key, it), key));
    }
}

/// A key held by no entry is found by no lookup.
proof fn lemma_find_none(s: Seq<EntryV>, key: int)
    requires
        forall|i: int| 0 <= i < s.len() ==> s[i].key != key,
    ensures
        store_find(s, key) is None,
    decreases s.len(),
{
    if s.len() > 0 {
        assert(forall|i: int| 0 <= i < s.drop_first().len()
            ==> s.drop_first()[i].key != key);
        lemma_find_none(s.drop_first(), key);
    }
}

/// The model reading of a vector of keyed entries.
pub open spec fn view_entries(s: Seq<(HashType, Item)>) -> Seq<EntryV> {
    s.map_values(|p: (HashType, Item)| EntryV { key: id_val(p.0), item: p.1@ })
}

/// The model reading of a vector of items.
pub open spec fn view_items(s: Seq<Item>) -> Seq<ItemV> {
    s.map_values(|it: Item| it@)
}

/// The join shift keeps each surviving entry's key, and keys keep their
/// relative order: position `a` before `b` in the result come from
/// positions in that order in the source.
proof fn lemma_shift_up_order(s: Seq<EntryV>, k: int, keep: Option<RangeV>, a: int, b: int)
    requires
        store_sorted(s),
        0 <= a < b < shift_up_entries(s, k, keep).len(),
    ensures
        shift_up_entries(s, k, keep)[a].key < shift_up_entries(s, k, keep)[b].key,
    decreases s.len(),
{
    if s.len() > 0 {
        let front = shift_up_entries(s.drop_last(), k, keep);
        let r = shift_up_entries(s, k, keep);
        assert(store_sorted(s.drop_last()));
        if r.len() > front.len() {
            // the last source entry survived as the last result entry
            if b < front.len() {
                lemma_shift_up_order(s.drop_last(), k, keep, a, b);
            } else {
                lemma_shift_up_key_bound(s.drop_last(), k, keep, a);
                assert(s.drop_last()[choose|j: int|
                    0 <= j < s.drop_last().len() && front[a].key == s.drop_last()[j].key].key < s.last().key);
            }
        } else {
            lemma_shift_up_order(s.drop_last(), k, keep, a, b);
        }
    }
}

/// Every key of the join shift's result is a key of the source.
proof fn lemma_shift_up_key_bound(s: Seq<EntryV>, k: int, keep: Option<RangeV>, a: int)
    requires
        0 <= a < shift_up_entries(s, k, keep).len(),
    ensures
        exists|j: int| 0 <= j < s.len()
            && shift_up_entries(s, k, keep)[a].key == #[trigger] s[j].key,
    decreases s.len(),
{
    if s.len() > 0 {
        let front = shift_up_entries(s.drop_last(), k, keep);
        if a < front.len() {
            lemma_shift_up_key_bound(s.drop_last(), k, keep, a);
            let j = choose|j: int| 0 <= j < s.drop_last().len() && front[a].key
                == s.drop_last()[j].key;
            assert(shift_up_entries(s, k, keep)[a].key == s[j].key);
        } else {
            assert(shift_up_entries(s, k, keep)[a].key == s[s.len() - 1].key);
        }
    }
}

proof fn lemma_store_find_step(s: Seq<EntryV>, key: int, i: int)
    requires
        0 <= i < s.len(),
    ensures
        s[i].key == key ==> store_find(s.skip(i), key) == Some(s[i].item),
        s[i].key != key ==> store_find(s.skip(i), key) == store_find(s.skip(i + 1), key),
{
    assert(s.skip(i).first() == s[i]);
    assert(s.skip(i).drop_first() =~= s.skip(i + 1));
}

/// `store_find` answers by the position of the key among the entries: found
/// at position `i`, or absent when no position holds it.
proof fn lemma_store_find_at(s: Seq<EntryV>, key: int, i: int, present: bool)
    requires
        0 <= i <= s.len(),
        forall|j: int| 0 <= j < i ==> s[j].key != key,
        present ==> i < s.len() && s[i].key == key,
        !present ==> i == s.len(),
    ensures
        present ==> store_find(s, key) == Some(s[i].item),
        !present ==> store_find(s, key) is None,
    decreases i,
{
    if i > 0 {
        assert(s.first().key != key);
        lemma_store_find_at(s.drop_first(), key, i - 1, present);
    }
}

/// `store_merge` rewrites the store at the scan position: entries below the
/// key stand unchanged, and the entry is merged in place or inserted there.
proof fn lemma_store_merge_at(s: Seq<EntryV>, key: int, it: ItemV, i: int)
    requires
        0 <= i <= s.len(),
        forall|j: int| 0 <= j < i ==> s[j].key < key,
        i < s.len() ==> key <= s[i].key,
    ensures
        i < s.len() && s[i].key == key ==> store_merge(s, key, it) =~= s.update(
            i,
            EntryV { key, item: merge_item(s[i].item, it) },
        ),
        !(i < s.len() && s[i].key == key) ==> store_merge(s, key, it) =~= s.take(i) + seq![
            EntryV { key, item: it },
        ] + s.skip(i),
    decreases i,
{
    if i == 0 {
        if s.len() == 0 {
        } else if key < s.first().key {
            assert(s.take(0) =~= Seq::<EntryV>::empty());
            assert(s.skip(0) =~= s);
        } else if key == s.first().key {
            assert(seq![EntryV { key, item: merge_item(s.first().item, it) }] + s.drop_first()
                =~= s.update(0, EntryV { key, item: merge_item(s[0].item, it) }));
        }
    } else {
        lemma_store_merge_at(s.drop_first(), key, it, i - 1);
        assert(s.first().key < key);
        let t = s.drop_first();
        if i < s.len() && s[i].key == key {
            assert(t[i - 1].key == key);
            assert(seq![s.first()] + t.update(i - 1, EntryV { key, item: merge_item(t[i - 1].item, it) })
                =~= s.update(i, EntryV { key, item: merge_item(s[i].item, it) }));
        } else {
            assert(seq![s.first()] + (t.take(i - 1) + seq![EntryV { key, item: it }] + t.skip(i - 1))
                =~= s.take(i) + seq![EntryV { key, item: it }] + s.skip(i));
        }
    }
}

/// `store_remove` deletes exactly the scan position, or nothing when the
/// key is absent.
proof fn lemma_store_remove_at(s: Seq<EntryV>, key: int, i: int, present: bool)
    requires
        0 <= i <= s.len(),
        forall|j: int| 0 <= j < i ==> s[j].key != key,
        present ==> i < s.len() && s[i].key == key,
        !present ==> i == s.len(),
    ensures
        present ==> store_remove(s, key) =~= s.remove(i),
        !present ==> store_remove(s, key) =~= s,
    decreases i,
{
    if i == 0 {
        if present {
            assert(s.drop_first() =~= s.remove(0));
        }
    } else {
        lemma_store_remove_at(s.drop_first(), key, i - 1, present);
        if present {
            assert(seq![s.first()] + s.drop_first().remove(i - 1) =~= s.remove(i));
        } else {
            assert(seq![s.first()] + s.drop_first() =~= s);
        }
    }
}

/// `store_set_pending` rewrites exactly the scan position, or nothing when
/// the key is absent.
proof fn lemma_store_set_pending_at(s: Seq<EntryV>, key: int, p: bool, i: int, present: bool)
    requires
        0 <= i <= s.len(),
        forall|j: int| 0 <= j < i ==> s[j].key != key,
        present ==> i < s.len() && s[i].key == key,
        !present ==> i == s.len(),
    ensures
        present ==> store_set_pending(s, key, p) =~= s.update(
            i,
            EntryV { key, item: ItemV { pending: p, ..s[i].item } },
        ),
        !present ==> store_set_pending(s, key, p) =~= s,
    decreases i,
{
    if i == 0 {
        if present {
            assert(seq![EntryV { key, item: ItemV { pending: p, ..s.first().item } }]
                + s.drop_first() =~= s.update(0, EntryV { key, item: ItemV { pending: p, ..s[0].item } }));
        }
    } else {
        lemma_store_set_pending_at(s.drop_first(), key, p, i - 1, present);
        if present {
            assert(seq![s.first()] + s.drop_first().update(i - 1, EntryV { key, item: ItemV { pending: p, ..s[i].item } })
                =~= s.update(i, EntryV { key, item: ItemV { pending: p, ..s[i].item } }));
        } else {
            assert(seq![s.first()] + s.drop_first() =~= s);
        }
    }
}

/// Replacing one entry's item leaves the keys, and so the order, alone.
proof fn lemma_sorted_update(s0: Seq<EntryV>, s1: Seq<EntryV>, i: int)
    requires
        store_sorted(s0),
        0 <= i < s0.len(),
        s1.len() == s0.len(),
        forall|j: int| 0 <= j < s0.len() && j != i ==> s1[j] == s0[j],
        s1[i].key == s0[i].key,
    ensures
        store_sorted(s1),
{
}

/// Inserting a key between its neighbours keeps the order strict.
proof fn lemma_sorted_insert(s0: Seq<EntryV>, s1: Seq<EntryV>, i: int, key: int)
    requires
        store_sorted(s0),
        0 <= i <= s0.len(),
        forall|j: int| 0 <= j < i ==> s0[j].key < key,
        i < s0.len() ==> key < s0[i].key,
        s1 =~= s0.take(i) + seq![EntryV { key, item: s1[i].item }] + s0.skip(i),
    ensures
        store_sorted(s1),
{
    assert forall|a: int, b: int| 0 <= a < b < s1.len() implies s1[a].key < s1[b].key by {
        if a < i && b > i {
            assert(s1[a].key == s0[a].key);
            assert(s1[b].key == s0[b - 1].key);
        }
    }
}

/// Dropping one entry keeps the remaining order strict.
proof fn lemma_sorted_remove(s0: Seq<EntryV>, s1: Seq<EntryV>, i: int)
    requires
        store_sorted(s0),
        0 <= i < s0.len(),
        s1 =~= s0.remove(i),
    ensures
        store_sorted(s1),
{
}

} // verus!
