//! Half-open identifier intervals and the ordered union of intervals that
//! records a node's replica coverage.
//!
//! A node keeps, tail-first, the primary intervals of its `k` predecessors
//! that it currently replicates. Joins split one interval at the new node's
//! identifier; departs merge two back into one.

use vstd::prelude::*;
use crate::id::HashType;
use crate::id::id_val;

verus! {

/// The mathematical reading of a [`Range`]: bounds as identifier values,
/// with inclusion flags.
pub ghost struct RangeV {
    pub lower: int,
    pub upper: int,
    pub lc: bool,
    pub uc: bool,
}

/// An interval of identifiers with independently inclusive or exclusive
/// bounds.
#[derive(Clone, Copy, Debug)]
pub struct Range {
    pub lower: HashType,
    pub upper: HashType,
    pub lc: bool,
    pub uc: bool,
}

impl View for Range {
    type V = RangeV;

    open spec fn view(&self) -> RangeV {
        RangeV { lower: id_val(self.lower), upper: id_val(self.upper), lc: self.lc, uc: self.uc }
    }
}

/// Membership in an interval read with its flags, without ring wrap: on the
/// lower bound when `lc`, on the upper bound when `uc`, or strictly between.
pub open spec fn range_contains(r: RangeV, x: int) -> bool {
    (r.lc && x == r.lower) || (r.uc && x == r.upper) || (r.lower < x && x < r.upper)
}

/// Membership read on the ring: an interval whose lower bound is not below
/// its upper bound wraps around the top of the identifier space.
pub open spec fn range_has(r: RangeV, x: int) -> bool {
    if r.lower < r.upper {
        range_contains(r, x)
    } else {
        x > r.lower || x <= r.upper
    }
}

/// The 1-based tail distance of the first interval, scanning from the
/// tail, that holds `x` on the ring; `-1` when none does.
pub open spec fn subset_dist(s: Seq<RangeV>, x: int) -> int
    decreases s.len(),
{
    if s.len() == 0 {
        -1
    } else if range_has(s.last(), x) {
        1
    } else {
        let r = subset_dist(s.drop_last(), x);
        if r == -1 {
            -1
        } else {
            r + 1
        }
    }
}

/// `subset_dist` is the value the tail-first scan characterizes: `-1` when
/// no interval holds `x`, else the tail distance of the nearest hit.
pub proof fn lemma_subset_dist_char(s: Seq<RangeV>, x: int, d: int)
    requires
        (d == -1 && forall|i: int| 0 <= i < s.len() ==> !range_has(#[trigger] s[i], x)) || (1 <= d
            <= s.len() && range_has(s[s.len() - d], x) && forall|i: int|
            s.len() - d < i < s.len() ==> !range_has(#[trigger] s[i], x)),
    ensures
        subset_dist(s, x) == d,
    decreases s.len(),
{
    let n = s.len() as int;
    if n == 0 {
        assert(d == -1);
    } else if range_has(s[n - 1], x) {
        if d == -1 {
            assert(!range_has(s[n - 1], x));
            assert(false);
        } else if d >= 2 {
            assert(n - d < n - 1 < n);
            assert(!range_has(s[n - 1], x));
            assert(false);
        }
    } else {
        assert(s.last() == s[n - 1]);
        let t = s.drop_last();
        if d == -1 {
            assert(forall|i: int| 0 <= i < t.len() ==> !range_has(#[trigger] t[i], x));
            lemma_subset_dist_char(t, x, -1);
        } else {
            assert(d != 1);
            assert(range_has(t[t.len() - (d - 1)], x));
            assert(forall|i: int| t.len() - (d - 1) < i < t.len()
                ==> !range_has(#[trigger] t[i], x));
            lemma_subset_dist_char(t, x, d - 1);
        }
    }
}

impl Range {
    /// An interval with the given bounds and inclusion flags.
    pub fn new(lower: HashType, upper: HashType, lc: bool, uc: bool) -> (r: Range)
        ensures
            r@ == (RangeV { lower: id_val(lower), upper: id_val(upper), lc, uc }),
    {
        Range { lower, upper, lc, uc }
    }

    /// Whether `number` lies in this interval, read without wrap.
    pub fn in_range(&self, number: HashType) -> (r: bool)
        ensures
            r == range_contains(self@, id_val(number)),
    {
        (self.lc && number.equals(&self.lower)) || (self.uc && number.equals(&self.upper))
            || (self.lower.less_than(&number) && number.less_than(&self.upper))
    }

    /// Replaces the lower bound.
    pub fn set_lower(&mut self, lower: HashType)
        ensures
            final(self)@ == (RangeV { lower: id_val(lower), ..old(self)@ }),
    {
        self.lower = lower;
    }

    /// Replaces the upper bound.
    pub fn set_upper(&mut self, upper: HashType)
        ensures
            final(self)@ == (RangeV { upper: id_val(upper), ..old(self)@ }),
    {
        self.upper = upper;
    }

    /// The two bounds, lower first.
    pub fn get_bounds(&self) -> (r: (HashType, HashType))
        ensures
            id_val(r.0) == self@.lower,
            id_val(r.1) == self@.upper,
    {
        (self.lower, self.upper)
    }
}

/// An ordered sequence of intervals: a node's replica coverage, tail-first
/// towards the most recent predecessor.
#[derive(Clone, Debug)]
pub struct UnionRange {
    pub replication_vector: Vec<Range>,
}

impl View for UnionRange {
    type V = Seq<RangeV>;

    open spec fn view(&self) -> Seq<RangeV> {
        self.replication_vector@.map_values(|r: Range| r@)
    }
}

impl UnionRange {
    /// An empty union.
    pub fn new() -> (r: UnionRange)
        ensures
            r@ =~= Seq::<RangeV>::empty(),
    {
        UnionRange { replication_vector: Vec::new() }
    }

    /// The interval at the head.
    pub fn get_head(&self) -> (r: Range)
        requires
            self@.len() > 0,
        ensures
            r@ == self@[0],
    {
        self.replication_vector[0]
    }

    /// The interval at the tail.
    pub fn get_tail(&self) -> (r: Range)
        requires
            self@.len() > 0,
        ensures
            r@ == self@[self@.len() - 1],
    {
        self.replication_vector[self.replication_vector.len() - 1]
    }

    /// Appends an interval at the tail.
    pub fn insert(&mut self, range: Range)
        ensures
            final(self)@ =~= old(self)@ + seq![range@],
    {
        self.replication_vector.push(range);
    }

    /// Prepends an interval at the head.
    pub fn insert_head(&mut self, range: Range)
        ensures
            final(self)@ =~= seq![range@] + old(self)@,
    {
        self.replication_vector.insert(0, range);
    }

    /// Drops the head interval.
    pub fn pop_head(&mut self)
        requires
            old(self)@.len() > 0,
        ensures
            final(self)@ =~= old(self)@.drop_first(),
    {
        self.replication_vector.remove(0);
    }

    /// Drops the tail interval; an empty union stays empty.
    pub fn pop_tail(&mut self)
        ensures
            old(self)@.len() > 0 ==> final(self)@ =~= old(self)@.drop_last(),
            old(self)@.len() == 0 ==> final(self)@ =~= old(self)@,
    {
        if self.replication_vector.len() > 0 {
            self.replication_vector.pop();
        }
    }

    /// A copy of the union, interval by interval.
    pub fn duplicate(&self) -> (r: UnionRange)
        ensures
            r@ =~= self@,
    {
        let n = self.replication_vector.len();
        let mut out: Vec<Range> = Vec::new();
        let mut i: usize = 0;
        while i < n
            invariant
                0 <= i <= n,
                n == self.replication_vector@.len(),
                out@ =~= self.replication_vector@.take(i as int),
            decreases n - i,
        {
            out.push(self.replication_vector[i]);
            i += 1;
        }
        proof {
            assert(out@ =~= self.replication_vector@);
        }
        UnionRange { replication_vector: out }
    }

    /// How many intervals the union holds.
    pub fn get_size(&self) -> (r: usize)
        ensures
            r == self@.len(),
    {
        self.replication_vector.len()
    }

    /// Empties the union.
    pub fn clear(&mut self)
        ensures
            final(self)@ =~= Seq::<RangeV>::empty(),
    {
        self.replication_vector.clear();
    }

    /// Scans from the tail and returns the 1-based tail distance of the
    /// first interval that holds `element` on the ring, or `-1` when none
    /// does. The tail distance is the `replica_idx` of a record whose key
    /// falls in that interval.
    pub fn is_subset(&self, element: HashType) -> (r: i16)
        requires
            self@.len() < 0x7fff,
        ensures
            r == -1 <==> (forall|i: int| 0 <= i < self@.len()
                ==> !range_has(#[trigger] self@[i], id_val(element))),
            r != -1 ==> {
                &&& 1 <= r <= self@.len()
                &&& range_has(self@[self@.len() - r], id_val(element))
                &&& forall|i: int| self@.len() - r < i < self@.len()
                    ==> !range_has(#[trigger] self@[i], id_val(element))
            },
    {
        let len = self.replication_vector.len();
        let mut j: usize = len;
        while j > 0
            invariant
                0 <= j <= len,
                len == self@.len(),
                len < 0x7fff,
                forall|i: int| j <= i < len
                    ==> !range_has(#[trigger] self@[i], id_val(element)),
            decreases j,
        {
            j -= 1;
            let set = &self.replication_vector[j];
            let hit = if set.lower.less_than(&set.upper) {
                set.in_range(element)
            } else {
                set.lower.less_than(&element) || element.less_eq(&set.upper)
            };
            if hit {
                proof {
                    assert(self@[j as int] == set@);
                    assert(range_has(self@[j as int], id_val(element)));
                    assert(1 <= len - j <= 0x7ffe);
                }
                return (len - j) as i16;
            }
        }
        -1
    }

    /// Fuses the intervals at `idx - 1` and `idx` into one spanning both,
    /// keeping the outer bounds and flags. At the head only the head is
    /// dropped; past the tail nothing changes.
    pub fn merge_at(&mut self, idx: usize)
        ensures
            idx == 0 && old(self)@.len() > 0 ==> final(self)@ =~= old(self)@.drop_first(),
            idx == 0 && old(self)@.len() == 0 ==> final(self)@ =~= old(self)@,
            0 < idx < old(self)@.len() ==> final(self)@ =~= old(self)@.take(idx - 1) + seq![
                RangeV {
                    lower: old(self)@[idx - 1].lower,
                    upper: old(self)@[idx as int].upper,
                    lc: old(self)@[idx - 1].lc,
                    uc: old(self)@[idx as int].uc,
                },
            ] + old(self)@.skip(idx + 1),
            idx >= old(self)@.len() && idx > 0 ==> final(self)@ =~= old(self)@,
    {
        if idx == 0 {
            if self.replication_vector.len() > 0 {
                self.replication_vector.remove(0);
            }
            return;
        }
        if idx >= self.replication_vector.len() {
            return;
        }
        let prev = self.replication_vector[idx - 1];
        let cur = self.replication_vector[idx];
        let merged = Range::new(prev.lower, cur.upper, prev.lc, cur.uc);
        self.replication_vector.remove(idx);
        self.replication_vector.remove(idx - 1);
        self.replication_vector.insert(idx - 1, merged);
    }

    /// Splits the first interval that holds `new_key` on the ring into two
    /// half-open intervals meeting at `new_key`: the left keeps the old
    /// lower flag and closes at `new_key`; the right opens after `new_key`
    /// and keeps the old upper flag.
    pub fn split_range(&mut self, new_key: HashType)
        requires
            exists|i: int| 0 <= i < old(self)@.len()
                && range_has(#[trigger] old(self)@[i], id_val(new_key)),
        ensures
            exists|i: int| {
                &&& 0 <= i < old(self)@.len()
                &&& range_has(#[trigger] old(self)@[i], id_val(new_key))
                &&& forall|j: int| 0 <= j < i
                    ==> !range_has(#[trigger] old(self)@[j], id_val(new_key))
                &&& final(self)@ =~= old(self)@.take(i) + seq![
                    RangeV {
                        lower: old(self)@[i].lower,
                        upper: id_val(new_key),
                        lc: old(self)@[i].lc,
                        uc: true,
                    },
                    RangeV {
                        lower: id_val(new_key),
                        upper: old(self)@[i].upper,
                        lc: false,
                        uc: old(self)@[i].uc,
                    },
                ] + old(self)@.skip(i + 1)
            },
    {
        let len = self.replication_vector.len();
        let mut i: usize = 0;
        while i < len
            invariant
                0 <= i <= len,
                len == self@.len(),
                self == old(self),
                exists|k: int| i <= k < self@.len()
                    && range_has(#[trigger] self@[k], id_val(new_key)),
                forall|j: int| 0 <= j < i
                    ==> !range_has(#[trigger] self@[j], id_val(new_key)),
            decreases len - i,
        {
            let range = self.replication_vector[i];
            let hit = if range.lower.less_than(&range.upper) {
                range.in_range(new_key)
            } else {
                range.lower.less_than(&new_key) || new_key.less_eq(&range.upper)
            };
            if hit {
                let split_left = Range::new(range.lower, new_key, range.lc, true);
                let split_right = Range::new(new_key, range.upper, false, range.uc);
                let ghost s0 = self@;
                self.replication_vector.remove(i);
                self.replication_vector.insert(i, split_right);
                self.replication_vector.insert(i, split_left);
                proof {
                    let pieces = s0.take(i as int) + seq![split_left@, split_right@]
                        + s0.skip(i as int + 1);
                    assert(self@.len() == s0.len() + 1);
                    assert forall|m: int| 0 <= m < self@.len() implies self@[m] == pieces[m] by {
                        if m < i {
                        } else if m == i {
                        } else if m == i + 1 {
                        } else {
                        }
                    }
                    assert(self@ =~= pieces);
                    assert(range_has(s0[i as int], id_val(new_key)));
                }
                return;
            }
            i += 1;
        }
    }
}

} // verus!
