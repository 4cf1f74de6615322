//! Access footprints: which slots a parameter or a whole system reads and
//! writes, and when two footprints may be live at the same time.
//!
//! Two coordinate systems coexist. The fine one is keyed by logical
//! component/resource identifiers and carries filter context
//! ([`FilteredAccess`], [`FilteredAccessSet`]); the coarse one is keyed by
//! physical storage-location identifiers and is what the scheduler consults
//! ([`Access`]). Both are extended in lockstep as parameters register.

use vstd::prelude::*;

verus! {

/// A set of read and written slot identifiers, with sentinels for
/// whole-store reads and writes. The identifier lists are kept
/// duplicate-free, so the footprint is a true set.
#[derive(Debug)]
pub struct Access {
    pub reads: Vec<usize>,
    pub writes: Vec<usize>,
    pub reads_all: bool,
    pub writes_all: bool,
}

fn vec_contains(v: &Vec<usize>, x: usize) -> (r: bool)
    ensures
        r == v@.contains(x),
{
    let mut i: usize = 0;
    while i < v.len()
        invariant
            i <= v@.len(),
            forall|j: int| 0 <= j < i ==> v@[j] != x,
        decreases v@.len() - i,
    {
        if v[i] == x {
            return true;
        }
        i += 1;
    }
    false
}

/// Taking one more element of a sequence grows the taken prefix's members
/// by exactly that element.
proof fn lemma_take_one_more<A>(s: Seq<A>, i: int)
    requires
        0 <= i < s.len(),
    ensures
        forall|y: A| #[trigger] s.take(i + 1).contains(y) <==> s.take(i).contains(y) || y == s[i],
{
    assert forall|y: A| #[trigger] s.take(i + 1).contains(y) <==> s.take(i).contains(y) || y
        == s[i] by {
        if s.take(i + 1).contains(y) {
            let j = choose|j: int| 0 <= j < i + 1 && #[trigger] s.take(i + 1)[j] == y;
            if j < i {
                assert(s.take(i)[j] == y);
            }
        }
        if s.take(i).contains(y) {
            let j = choose|j: int| 0 <= j < i && #[trigger] s.take(i)[j] == y;
            assert(s.take(i + 1)[j] == y);
        }
        if y == s[i] {
            assert(s.take(i + 1)[i] == y);
        }
    }
}

/// Adds `x` to a duplicate-free list unless it is already there.
fn insert_id(v: &mut Vec<usize>, x: usize)
    requires
        old(v)@.no_duplicates(),
    ensures
        final(v)@.no_duplicates(),
        forall|y: usize|
            #![trigger final(v)@.contains(y)]
            #![trigger old(v)@.contains(y)]
            final(v)@.contains(y) <==> old(v)@.contains(y) || y == x,
        old(v)@.contains(x) ==> final(v)@ == old(v)@,
        !old(v)@.contains(x) ==> final(v)@ == old(v)@.push(x),
{
    if !vec_contains(v, x) {
        v.push(x);
        proof {
            broadcast use vstd::seq_lib::lemma_seq_contains_after_push;

            assert(v@ =~= old(v)@.push(x));
            assert forall|i: int, j: int|
                0 <= i < v@.len() && 0 <= j < v@.len() && i != j implies v@[i] != v@[j] by {
                if i == old(v)@.len() && 0 <= j < old(v)@.len() {
                    assert(old(v)@.contains(old(v)@[j]));
                } else if j == old(v)@.len() && 0 <= i < old(v)@.len() {
                    assert(old(v)@.contains(old(v)@[i]));
                }
            }
        }
    }
}

/// True when each id of `ws` occurs neither in `a` nor in `b`.
fn ids_disjoint_from(ws: &Vec<usize>, a: &Vec<usize>, b: &Vec<usize>) -> (r: bool)
    ensures
        r == forall|i: int| 0 <= i < ws@.len() ==> !a@.contains(ws@[i]) && !b@.contains(ws@[i]),
{
    let mut i: usize = 0;
    while i < ws.len()
        invariant
            i <= ws@.len(),
            forall|j: int| 0 <= j < i ==> !a@.contains(ws@[j]) && !b@.contains(ws@[j]),
        decreases ws@.len() - i,
    {
        if vec_contains(a, ws[i]) || vec_contains(b, ws[i]) {
            return false;
        }
        i += 1;
    }
    true
}

impl Access {
    /// The identifier lists hold no duplicates.
    pub open spec fn inv(self) -> bool {
        self.reads@.no_duplicates() && self.writes@.no_duplicates()
    }

    /// The footprint names `id` explicitly (sentinels aside).
    pub open spec fn sp_mentions(self, id: usize) -> bool {
        self.reads@.contains(id) || self.writes@.contains(id)
    }

    /// The footprint claims mutable access to `id`.
    pub open spec fn sp_has_write(self, id: usize) -> bool {
        self.writes_all || self.writes@.contains(id)
    }

    /// The footprint touches `id` at all; writers also read.
    pub open spec fn sp_has_read(self, id: usize) -> bool {
        self.reads_all || self.writes_all || self.reads@.contains(id) || self.writes@.contains(id)
    }

    /// The footprint touches nothing.
    pub open spec fn sp_is_empty(self) -> bool {
        !self.reads_all && !self.writes_all && self.reads@.len() == 0 && self.writes@.len() == 0
    }

    /// One side writes `id` while the other touches it.
    pub open spec fn sp_slot_conflict(self, other: Access, id: usize) -> bool {
        (self.sp_has_write(id) && other.sp_has_read(id)) || (other.sp_has_write(id)
            && self.sp_has_read(id))
    }

    /// No slot is written by one side and touched by the other: the two
    /// footprints may be exercised concurrently.
    pub open spec fn sp_compatible(self, other: Access) -> bool {
        forall|id: usize| !self.sp_slot_conflict(other, id)
    }

    pub fn new() -> (r: Access)
        ensures
            r.inv(),
            r.sp_is_empty(),
            r.reads@.len() == 0,
            r.writes@.len() == 0,
            !r.reads_all,
            !r.writes_all,
    {
        Access { reads: Vec::new(), writes: Vec::new(), reads_all: false, writes_all: false }
    }

    /// Records a read of `id`; repeating a read changes nothing.
    pub fn add_read(&mut self, id: usize)
        requires
            old(self).inv(),
        ensures
            final(self).inv(),
            final(self).writes@ == old(self).writes@,
            final(self).reads_all == old(self).reads_all,
            final(self).writes_all == old(self).writes_all,
            forall|y: usize|
                #![trigger final(self).reads@.contains(y)]
                #![trigger old(self).reads@.contains(y)]
                final(self).reads@.contains(y) <==> old(self).reads@.contains(y) || y == id,
            old(self).reads@.contains(id) ==> final(self).reads@ == old(self).reads@,
    {
        insert_id(&mut self.reads, id);
    }

    /// Records a write of `id`; repeating a write changes nothing here (the
    /// conflict checker, not this set, rejects double writes).
    pub fn add_write(&mut self, id: usize)
        requires
            old(self).inv(),
        ensures
            final(self).inv(),
            final(self).reads@ == old(self).reads@,
            final(self).reads_all == old(self).reads_all,
            final(self).writes_all == old(self).writes_all,
            forall|y: usize|
                #![trigger final(self).writes@.contains(y)]
                #![trigger old(self).writes@.contains(y)]
                final(self).writes@.contains(y) <==> old(self).writes@.contains(y) || y == id,
            old(self).writes@.contains(id) ==> final(self).writes@ == old(self).writes@,
    {
        insert_id(&mut self.writes, id);
    }

    /// Claims a read of the entire store.
    pub fn read_all(&mut self)
        requires
            old(self).inv(),
        ensures
            final(self).inv(),
            *final(self) == (Access { reads_all: true, ..*old(self) }),
    {
        self.reads_all = true;
    }

    /// Claims a write of the entire store.
    pub fn write_all(&mut self)
        requires
            old(self).inv(),
        ensures
            final(self).inv(),
            *final(self) == (Access { writes_all: true, ..*old(self) }),
    {
        self.writes_all = true;
    }

    pub fn has_read(&self, id: usize) -> (r: bool)
        ensures
            r == self.sp_has_read(id),
    {
        self.reads_all || self.writes_all || vec_contains(&self.reads, id) || vec_contains(
            &self.writes,
            id,
        )
    }

    pub fn has_write(&self, id: usize) -> (r: bool)
        ensures
            r == self.sp_has_write(id),
    {
        self.writes_all || vec_contains(&self.writes, id)
    }

    pub fn is_empty(&self) -> (r: bool)
        ensures
            r == self.sp_is_empty(),
    {
        !self.reads_all && !self.writes_all && self.reads.len() == 0 && self.writes.len() == 0
    }

    pub fn slot_conflict(&self, other: &Access, id: usize) -> (r: bool)
        ensures
            r == self.sp_slot_conflict(*other, id),
    {
        (self.has_write(id) && other.has_read(id)) || (other.has_write(id) && self.has_read(id))
    }

    /// Unions `other` into `self`. Extending by a footprint already covered
    /// leaves the lists untouched, so repeated extension cannot pile up
    /// duplicate entries.
    #[verifier::loop_isolation(false)]
    pub fn extend(&mut self, other: &Access)
        requires
            old(self).inv(),
            other.inv(),
        ensures
            final(self).inv(),
            final(self).reads_all == (old(self).reads_all || other.reads_all),
            final(self).writes_all == (old(self).writes_all || other.writes_all),
            forall|y: usize|
                #![trigger final(self).reads@.contains(y)]
                #![trigger old(self).reads@.contains(y)]
                final(self).reads@.contains(y) <==> old(self).reads@.contains(y)
                    || other.reads@.contains(y),
            forall|y: usize|
                #![trigger final(self).writes@.contains(y)]
                #![trigger old(self).writes@.contains(y)]
                final(self).writes@.contains(y) <==> old(self).writes@.contains(y)
                    || other.writes@.contains(y),
            (forall|y: usize| other.reads@.contains(y) ==> old(self).reads@.contains(y))
                ==> final(self).reads@ == old(self).reads@,
            (forall|y: usize| other.writes@.contains(y) ==> old(self).writes@.contains(y))
                ==> final(self).writes@ == old(self).writes@,
    {
        let ghost base = *self;
        self.reads_all = self.reads_all || other.reads_all;
        self.writes_all = self.writes_all || other.writes_all;
        let mut i: usize = 0;
        while i < other.reads.len()
            invariant
                self.inv(),
                i <= other.reads@.len(),
                self.writes@ == base.writes@,
                self.reads_all == (base.reads_all || other.reads_all),
                self.writes_all == (base.writes_all || other.writes_all),
                forall|y: usize|
                    self.reads@.contains(y) <==> base.reads@.contains(y) || other.reads@.take(
                        i as int,
                    ).contains(y),
                (forall|y: usize| other.reads@.contains(y) ==> base.reads@.contains(y))
                    ==> self.reads@ == base.reads@,
            decreases other.reads@.len() - i,
        {
            let ghost pre = self.reads@;
            proof {
                assert(forall|y: usize|
                    pre.contains(y) <==> base.reads@.contains(y) || other.reads@.take(
                        i as int,
                    ).contains(y));
                assert(other.reads@.contains(other.reads@[i as int]));
            }
            insert_id(&mut self.reads, other.reads[i]);
            proof {
                let x = other.reads@[i as int];
                lemma_take_one_more(other.reads@, i as int);
                assert(forall|y: usize| self.reads@.contains(y) <==> pre.contains(y) || y == x);
                assert forall|y: usize|
                    self.reads@.contains(y) <==> base.reads@.contains(y) || other.reads@.take(
                        i + 1,
                    ).contains(y) by {
                    assert(pre.contains(y) <==> base.reads@.contains(y) || other.reads@.take(
                        i as int,
                    ).contains(y));
                }
                if forall|y: usize| other.reads@.contains(y) ==> base.reads@.contains(y) {
                    assert(base.reads@.contains(x));
                    assert(pre == base.reads@);
                    assert(pre.contains(x));
                    assert(self.reads@ == pre);
                }
            }
            i += 1;
        }
        proof {
            assert(other.reads@.take(other.reads@.len() as int) == other.reads@);
        }
        let ghost mid_reads = self.reads@;
        let mut k: usize = 0;
        while k < other.writes.len()
            invariant
                self.inv(),
                k <= other.writes@.len(),
                self.reads@ == mid_reads,
                self.reads_all == (base.reads_all || other.reads_all),
                self.writes_all == (base.writes_all || other.writes_all),
                forall|y: usize|
                    self.writes@.contains(y) <==> base.writes@.contains(y) || other.writes@.take(
                        k as int,
                    ).contains(y),
                (forall|y: usize| other.writes@.contains(y) ==> base.writes@.contains(y))
                    ==> self.writes@ == base.writes@,
            decreases other.writes@.len() - k,
        {
            let ghost pre = self.writes@;
            proof {
                assert(forall|y: usize|
                    pre.contains(y) <==> base.writes@.contains(y) || other.writes@.take(
                        k as int,
                    ).contains(y));
                assert(other.writes@.contains(other.writes@[k as int]));
            }
            insert_id(&mut self.writes, other.writes[k]);
            proof {
                let x = other.writes@[k as int];
                lemma_take_one_more(other.writes@, k as int);
                assert(forall|y: usize| self.writes@.contains(y) <==> pre.contains(y) || y == x);
                assert forall|y: usize|
                    self.writes@.contains(y) <==> base.writes@.contains(y) || other.writes@.take(
                        k + 1,
                    ).contains(y) by {
                    assert(pre.contains(y) <==> base.writes@.contains(y) || other.writes@.take(
                        k as int,
                    ).contains(y));
                }
                if forall|y: usize| other.writes@.contains(y) ==> base.writes@.contains(y) {
                    assert(base.writes@.contains(x));
                    assert(pre == base.writes@);
                    assert(pre.contains(x));
                    assert(self.writes@ == pre);
                }
            }
            k += 1;
        }
        proof {
            assert(base == *old(self));
            assert(other.writes@.take(other.writes@.len() as int) == other.writes@);
            assert(forall|y: usize|
                self.reads@.contains(y) <==> base.reads@.contains(y) || other.reads@.contains(y));
            assert forall|y: usize|
                self.writes@.contains(y) <==> base.writes@.contains(y) || other.writes@.contains(
                    y,
                ) by {
                assert(k == other.writes@.len());
                assert(self.writes@.contains(y) <==> base.writes@.contains(y)
                    || other.writes@.take(k as int).contains(y));
            }
        }
    }

    /// Decides [`Access::sp_compatible`].
    pub fn is_compatible(&self, other: &Access) -> (r: bool)
        ensures
            r == self.sp_compatible(*other),
    {
        let c1: bool = if self.writes_all {
            other.is_empty()
        } else if other.reads_all || other.writes_all {
            self.writes.len() == 0
        } else {
            ids_disjoint_from(&self.writes, &other.reads, &other.writes)
        };
        let c2: bool = if other.writes_all {
            self.is_empty()
        } else if self.reads_all || self.writes_all {
            other.writes.len() == 0
        } else {
            ids_disjoint_from(&other.writes, &self.reads, &self.writes)
        };
        let r = c1 && c2;
        proof {
            if r {
                assert forall|id: usize| !self.sp_slot_conflict(*other, id) by {
                    if self.sp_has_write(id) && other.sp_has_read(id) {
                        if !self.writes_all {
                            let i = choose|i: int|
                                0 <= i < self.writes@.len() && self.writes@[i] == id;
                            assert(!(other.reads@.contains(id) || other.writes@.contains(id)));
                        }
                    }
                    if other.sp_has_write(id) && self.sp_has_read(id) {
                        if !other.writes_all {
                            let i = choose|i: int|
                                0 <= i < other.writes@.len() && other.writes@[i] == id;
                            assert(!(self.reads@.contains(id) || self.writes@.contains(id)));
                        }
                    }
                }
            } else {
                if !c1 {
                    if self.writes_all {
                        if other.reads_all || other.writes_all {
                            assert(self.sp_slot_conflict(*other, 0));
                        } else if other.reads@.len() > 0 {
                            let id = other.reads@[0];
                            assert(other.reads@.contains(id));
                            assert(self.sp_slot_conflict(*other, id));
                        } else {
                            let id = other.writes@[0];
                            assert(other.writes@.contains(id));
                            assert(self.sp_slot_conflict(*other, id));
                        }
                    } else if other.reads_all || other.writes_all {
                        let id = self.writes@[0];
                        assert(self.writes@.contains(id));
                        assert(self.sp_slot_conflict(*other, id));
                    } else {
                        let i = choose|i: int|
                            0 <= i < self.writes@.len() && (other.reads@.contains(self.writes@[i])
                                || other.writes@.contains(self.writes@[i]));
                        let id = self.writes@[i];
                        assert(self.writes@.contains(id));
                        assert(self.sp_slot_conflict(*other, id));
                    }
                } else {
                    if other.writes_all {
                        if self.reads_all || self.writes_all {
                            assert(self.sp_slot_conflict(*other, 0));
                        } else if self.reads@.len() > 0 {
                            let id = self.reads@[0];
                            assert(self.reads@.contains(id));
                            assert(self.sp_slot_conflict(*other, id));
                        } else {
                            let id = self.writes@[0];
                            assert(self.writes@.contains(id));
                            assert(self.sp_slot_conflict(*other, id));
                        }
                    } else if self.reads_all || self.writes_all {
                        let id = other.writes@[0];
                        assert(other.writes@.contains(id));
                        assert(self.sp_slot_conflict(*other, id));
                    } else {
                        let i = choose|i: int|
                            0 <= i < other.writes@.len() && (self.reads@.contains(other.writes@[i])
                                || self.writes@.contains(other.writes@[i]));
                        let id = other.writes@[i];
                        assert(other.writes@.contains(id));
                        assert(self.sp_slot_conflict(*other, id));
                    }
                }
            }
        }
        r
    }

    /// The slots that witness an incompatibility: written by one side and
    /// touched by the other, restricted to slots either side names.
    pub fn get_conflicts(&self, other: &Access) -> (r: Vec<usize>)
        requires
            self.inv(),
            other.inv(),
        ensures
            r@.no_duplicates(),
            forall|id: usize|
                #![trigger r@.contains(id)]
                #![trigger self.sp_slot_conflict(*other, id)]
                r@.contains(id) <==> self.sp_slot_conflict(*other, id) && (self.sp_mentions(id)
                    || other.sp_mentions(id)),
    {
        let mut out: Vec<usize> = Vec::new();
        collect_conflicts(&self.reads, self, other, &mut out);
        collect_conflicts(&self.writes, self, other, &mut out);
        collect_conflicts(&other.reads, self, other, &mut out);
        collect_conflicts(&other.writes, self, other, &mut out);
        out
    }
}

#[verifier::loop_isolation(false)]
fn collect_conflicts(cands: &Vec<usize>, a: &Access, b: &Access, out: &mut Vec<usize>)
    requires
        old(out)@.no_duplicates(),
    ensures
        final(out)@.no_duplicates(),
        forall|id: usize|
            #![trigger final(out)@.contains(id)]
            #![trigger old(out)@.contains(id)]
            final(out)@.contains(id) <==> old(out)@.contains(id) || (cands@.contains(id)
                && a.sp_slot_conflict(*b, id)),
{
    let ghost base = out@;
    let mut i: usize = 0;
    while i < cands.len()
        invariant
            out@.no_duplicates(),
            i <= cands@.len(),
            forall|id: usize|
                out@.contains(id) <==> base.contains(id) || (cands@.take(i as int).contains(id)
                    && a.sp_slot_conflict(*b, id)),
        decreases cands@.len() - i,
    {
        let ghost pre = out@;
        proof {
            assert(forall|id: usize|
                pre.contains(id) <==> base.contains(id) || (cands@.take(i as int).contains(id)
                    && a.sp_slot_conflict(*b, id)));
        }
        let c = a.slot_conflict(b, cands[i]);
        if c {
            insert_id(out, cands[i]);
        }
        proof {
            lemma_take_one_more(cands@, i as int);
            if c {
                assert(forall|id: usize|
                    out@.contains(id) <==> pre.contains(id) || id == cands@[i as int]);
            } else {
                assert(out@ == pre);
            }
            assert forall|id: usize|
                out@.contains(id) <==> base.contains(id) || (cands@.take(i + 1).contains(id)
                    && a.sp_slot_conflict(*b, id)) by {
                assert(pre.contains(id) <==> base.contains(id) || (cands@.take(
                    i as int,
                ).contains(id) && a.sp_slot_conflict(*b, id)));
            }
        }
        i += 1;
    }
    proof {
        assert(base == old(out)@);
        assert(cands@.take(cands@.len() as int) == cands@);
        assert(i == cands@.len());
        assert forall|id: usize|
            out@.contains(id) <==> old(out)@.contains(id) || (cands@.contains(id)
                && a.sp_slot_conflict(*b, id)) by {
            assert(out@.contains(id) <==> base.contains(id) || (cands@.take(
                cands@.len() as int,
            ).contains(id) && a.sp_slot_conflict(*b, id)));
        }
    }
}

/// Compatibility of footprints does not depend on which side asks:
/// `a.is_compatible(b)` and `b.is_compatible(a)` always agree.
pub proof fn lemma_compatible_symmetric(a: Access, b: Access)
    ensures
        a.sp_compatible(b) == b.sp_compatible(a),
{
    if a.sp_compatible(b) {
        assert forall|id: usize| !b.sp_slot_conflict(a, id) by {
            assert(!a.sp_slot_conflict(b, id));
        }
    }
    if b.sp_compatible(a) {
        assert forall|id: usize| !a.sp_slot_conflict(b, id) by {
            assert(!b.sp_slot_conflict(a, id));
        }
    }
}


/// An [`Access`] together with filter context: a query that reads component
/// `T` only applies to rows that have `T` (`with_filters`), and may exclude
/// rows that have some other component (`without_filters`). Two filtered
/// footprints whose filters can never hold of the same row are compatible
/// even where their raw accesses clash.
#[derive(Debug)]
pub struct FilteredAccess {
    pub access: Access,
    pub with_filters: Vec<usize>,
    pub without_filters: Vec<usize>,
}

/// True when some id occurs in both lists.
fn lists_intersect(a: &Vec<usize>, b: &Vec<usize>) -> (r: bool)
    ensures
        r == exists|id: usize| a@.contains(id) && b@.contains(id),
{
    let mut i: usize = 0;
    while i < a.len()
        invariant
            i <= a@.len(),
            forall|j: int| 0 <= j < i ==> !b@.contains(a@[j]),
        decreases a@.len() - i,
    {
        if vec_contains(b, a[i]) {
            proof {
                assert(a@.contains(a@[i as int]));
            }
            return true;
        }
        i += 1;
    }
    proof {
        if exists|id: usize| a@.contains(id) && b@.contains(id) {
            let id = choose|id: usize| a@.contains(id) && b@.contains(id);
            let j = choose|j: int| 0 <= j < a@.len() && a@[j] == id;
            assert(!b@.contains(a@[j]));
        }
    }
    false
}

impl FilteredAccess {
    pub open spec fn inv(self) -> bool {
        self.access.inv() && self.with_filters@.no_duplicates()
            && self.without_filters@.no_duplicates()
    }

    /// One side requires a component the other side rules out: the two can
    /// never apply to the same row.
    pub open spec fn sp_filters_disjoint(self, other: FilteredAccess) -> bool {
        ||| exists|id: usize|
            self.with_filters@.contains(id) && other.without_filters@.contains(id)
        ||| exists|id: usize|
            self.without_filters@.contains(id) && other.with_filters@.contains(id)
    }

    /// Raw accesses compatible, or filters provably disjoint.
    pub open spec fn sp_compatible(self, other: FilteredAccess) -> bool {
        self.access.sp_compatible(other.access) || self.sp_filters_disjoint(other)
    }

    pub fn new() -> (r: FilteredAccess)
        ensures
            r.inv(),
            r.access.sp_is_empty(),
            r.access.reads@.len() == 0,
            r.access.writes@.len() == 0,
            !r.access.reads_all,
            !r.access.writes_all,
            r.with_filters@.len() == 0,
            r.without_filters@.len() == 0,
    {
        FilteredAccess {
            access: Access::new(),
            with_filters: Vec::new(),
            without_filters: Vec::new(),
        }
    }

    /// Records a read of `id` and the implied requirement that a matching
    /// row holds `id`.
    pub fn add_read(&mut self, id: usize)
        requires
            old(self).inv(),
        ensures
            final(self).inv(),
            final(self).access.writes@ == old(self).access.writes@,
            final(self).access.reads_all == old(self).access.reads_all,
            final(self).access.writes_all == old(self).access.writes_all,
            forall|y: usize|
                #![trigger final(self).access.reads@.contains(y)]
                #![trigger old(self).access.reads@.contains(y)]
                final(self).access.reads@.contains(y) <==> old(self).access.reads@.contains(y) || y
                    == id,
            forall|y: usize|
                #![trigger final(self).with_filters@.contains(y)]
                #![trigger old(self).with_filters@.contains(y)]
                final(self).with_filters@.contains(y) <==> old(self).with_filters@.contains(y) || y
                    == id,
            final(self).without_filters@ == old(self).without_filters@,
    {
        self.access.add_read(id);
        insert_id(&mut self.with_filters, id);
    }

    /// Records a write of `id` and the implied `with` filter.
    pub fn add_write(&mut self, id: usize)
        requires
            old(self).inv(),
        ensures
            final(self).inv(),
            final(self).access.reads@ == old(self).access.reads@,
            final(self).access.reads_all == old(self).access.reads_all,
            final(self).access.writes_all == old(self).access.writes_all,
            forall|y: usize|
                #![trigger final(self).access.writes@.contains(y)]
                #![trigger old(self).access.writes@.contains(y)]
                final(self).access.writes@.contains(y) <==> old(self).access.writes@.contains(y)
                    || y == id,
            forall|y: usize|
                #![trigger final(self).with_filters@.contains(y)]
                #![trigger old(self).with_filters@.contains(y)]
                final(self).with_filters@.contains(y) <==> old(self).with_filters@.contains(y) || y
                    == id,
            final(self).without_filters@ == old(self).without_filters@,
    {
        self.access.add_write(id);
        insert_id(&mut self.with_filters, id);
    }

    /// Requires matching rows to hold `id` without accessing it.
    pub fn add_with(&mut self, id: usize)
        requires
            old(self).inv(),
        ensures
            final(self).inv(),
            final(self).access == old(self).access,
            forall|y: usize|
                #![trigger final(self).with_filters@.contains(y)]
                #![trigger old(self).with_filters@.contains(y)]
                final(self).with_filters@.contains(y) <==> old(self).with_filters@.contains(y) || y
                    == id,
            final(self).without_filters@ == old(self).without_filters@,
    {
        insert_id(&mut self.with_filters, id);
    }

    /// Excludes rows that hold `id`.
    pub fn add_without(&mut self, id: usize)
        requires
            old(self).inv(),
        ensures
            final(self).inv(),
            final(self).access == old(self).access,
            forall|y: usize|
                #![trigger final(self).without_filters@.contains(y)]
                #![trigger old(self).without_filters@.contains(y)]
                final(self).without_filters@.contains(y) <==> old(self).without_filters@.contains(
                    y,
                ) || y == id,
            final(self).with_filters@ == old(self).with_filters@,
    {
        insert_id(&mut self.without_filters, id);
    }

    /// Claims a read of the entire store.
    pub fn read_all(&mut self)
        requires
            old(self).inv(),
        ensures
            final(self).inv(),
            final(self).access == (Access { reads_all: true, ..old(self).access }),
            final(self).with_filters@ == old(self).with_filters@,
            final(self).without_filters@ == old(self).without_filters@,
    {
        self.access.read_all();
    }

    /// Decides [`FilteredAccess::sp_compatible`].
    pub fn is_compatible(&self, other: &FilteredAccess) -> (r: bool)
        ensures
            r == self.sp_compatible(*other),
    {
        self.access.is_compatible(&other.access) || lists_intersect(
            &self.with_filters,
            &other.without_filters,
        ) || lists_intersect(&self.without_filters, &other.with_filters)
    }

    /// The slots witnessing an incompatibility; empty when the footprints
    /// are compatible.
    pub fn get_conflicts(&self, other: &FilteredAccess) -> (r: Vec<usize>)
        requires
            self.inv(),
            other.inv(),
        ensures
            r@.no_duplicates(),
            self.sp_compatible(*other) ==> r@.len() == 0,
            !self.sp_compatible(*other) ==> (forall|id: usize|
                #![trigger r@.contains(id)]
                #![trigger self.access.sp_slot_conflict(other.access, id)]
                r@.contains(id) <==> self.access.sp_slot_conflict(other.access, id) && (
                self.access.sp_mentions(id) || other.access.sp_mentions(id))),
    {
        if self.is_compatible(other) {
            Vec::new()
        } else {
            let r = self.access.get_conflicts(&other.access);
            proof {
                assert(forall|id: usize|
                    r@.contains(id) <==> self.access.sp_slot_conflict(other.access, id) && (
                    self.access.sp_mentions(id) || other.access.sp_mentions(id)));
            }
            r
        }
    }
}

/// The fine-grained accumulated footprint of one system: every parameter's
/// [`FilteredAccess`] plus their union, kept in lockstep.
#[derive(Debug)]
pub struct FilteredAccessSet {
    pub combined_access: Access,
    pub filtered_accesses: Vec<FilteredAccess>,
}

impl FilteredAccessSet {
    /// The union access covers every member's raw access.
    pub open spec fn inv(self) -> bool {
        &&& self.combined_access.inv()
        &&& forall|j: int|
            0 <= j < self.filtered_accesses@.len() ==> (#[trigger] self.filtered_accesses@[j]).inv()
        &&& forall|j: int, id: usize|
            0 <= j < self.filtered_accesses@.len() && (#[trigger] self.filtered_accesses@[j].access.sp_has_read(id)) ==> self.combined_access.sp_has_read(id)
        &&& forall|j: int, id: usize|
            0 <= j < self.filtered_accesses@.len() && (#[trigger] self.filtered_accesses@[j].access.sp_has_write(id)) ==> self.combined_access.sp_has_write(id)
        &&& forall|j: int, id: usize|
            0 <= j < self.filtered_accesses@.len() && (#[trigger] self.filtered_accesses@[j].access.sp_mentions(id)) ==> self.combined_access.sp_mentions(id)
        &&& forall|id: usize|
            #[trigger] self.combined_access.writes@.contains(id) ==> exists|j: int|
                0 <= j < self.filtered_accesses@.len()
                    && (#[trigger] self.filtered_accesses@[j]).access.writes@.contains(id)
    }

    /// Member `m` is incompatible with `current` and clashes with it on
    /// slot `id`.
    pub open spec fn sp_member_clash(self, current: FilteredAccess, m: int, id: usize) -> bool {
        &&& !self.filtered_accesses@[m].sp_compatible(current)
        &&& self.filtered_accesses@[m].access.sp_slot_conflict(current.access, id)
        &&& (self.filtered_accesses@[m].access.sp_mentions(id) || current.access.sp_mentions(id))
    }

    /// Some already-registered member is incompatible with `current` and
    /// clashes with it on slot `id`.
    pub open spec fn sp_conflicts_with(self, current: FilteredAccess, id: usize) -> bool {
        exists|m: int|
            0 <= m < self.filtered_accesses@.len() && #[trigger] self.sp_member_clash(
                current,
                m,
                id,
            )
    }

    pub fn new() -> (r: FilteredAccessSet)
        ensures
            r.inv(),
            r.combined_access.sp_is_empty(),
            r.combined_access.reads@.len() == 0,
            r.combined_access.writes@.len() == 0,
            !r.combined_access.reads_all,
            !r.combined_access.writes_all,
            r.filtered_accesses@.len() == 0,
    {
        FilteredAccessSet { combined_access: Access::new(), filtered_accesses: Vec::new() }
    }

    pub fn combined_access(&self) -> (r: &Access)
        ensures
            *r == self.combined_access,
    {
        &self.combined_access
    }

    /// Adds one parameter's filtered footprint, extending the union in
    /// lockstep.
    pub fn add(&mut self, filtered: FilteredAccess)
        requires
            old(self).inv(),
            filtered.inv(),
        ensures
            final(self).inv(),
            final(self).filtered_accesses@ == old(self).filtered_accesses@.push(filtered),
            final(self).combined_access.reads_all == (old(self).combined_access.reads_all
                || filtered.access.reads_all),
            final(self).combined_access.writes_all == (old(self).combined_access.writes_all
                || filtered.access.writes_all),
            forall|y: usize|
                #![trigger final(self).combined_access.reads@.contains(y)]
                #![trigger old(self).combined_access.reads@.contains(y)]
                final(self).combined_access.reads@.contains(y) <==> old(
                    self,
                ).combined_access.reads@.contains(y) || filtered.access.reads@.contains(y),
            forall|y: usize|
                #![trigger final(self).combined_access.writes@.contains(y)]
                #![trigger old(self).combined_access.writes@.contains(y)]
                final(self).combined_access.writes@.contains(y) <==> old(
                    self,
                ).combined_access.writes@.contains(y) || filtered.access.writes@.contains(y),
            filtered.access.reads@.len() == 0 ==> final(self).combined_access.reads@ == old(
                self,
            ).combined_access.reads@,
            filtered.access.writes@.len() == 0 ==> final(self).combined_access.writes@ == old(
                self,
            ).combined_access.writes@,
    {
        self.combined_access.extend(&filtered.access);
        self.filtered_accesses.push(filtered);
        proof {
            assert(self.filtered_accesses@[old(self).filtered_accesses@.len() as int]
                == filtered);
            assert forall|id: usize|
                #[trigger] self.combined_access.writes@.contains(id) implies exists|j: int|
                0 <= j < self.filtered_accesses@.len()
                    && (#[trigger] self.filtered_accesses@[j]).access.writes@.contains(id) by {
                if old(self).combined_access.writes@.contains(id) {
                    let j = choose|j: int|
                        0 <= j < old(self).filtered_accesses@.len() && (#[trigger] old(
                            self,
                        ).filtered_accesses@[j]).access.writes@.contains(id);
                    assert(self.filtered_accesses@[j] == old(self).filtered_accesses@[j]);
                    assert(self.filtered_accesses@[j].access.writes@.contains(id));
                } else {
                    assert(filtered.access.writes@.contains(id));
                    assert(self.filtered_accesses@[old(self).filtered_accesses@.len() as int].access.writes@.contains(id));
                }
            }
            assert forall|j: int, id: usize|
                0 <= j < self.filtered_accesses@.len() && (#[trigger] self.filtered_accesses@[j].access.sp_has_read(id)) implies self.combined_access.sp_has_read(id) by {
                if j < old(self).filtered_accesses@.len() {
                    assert(old(self).filtered_accesses@[j].access.sp_has_read(id));
                    assert(old(self).combined_access.sp_has_read(id));
                    if !(old(self).combined_access.reads_all || old(
                        self,
                    ).combined_access.writes_all) {
                        if old(self).combined_access.reads@.contains(id) {
                            assert(self.combined_access.reads@.contains(id));
                        } else {
                            assert(old(self).combined_access.writes@.contains(id));
                            assert(self.combined_access.writes@.contains(id));
                        }
                    }
                } else {
                    assert(self.filtered_accesses@[j] == filtered);
                    assert(filtered.access.sp_has_read(id));
                    if !(filtered.access.reads_all || filtered.access.writes_all) {
                        if filtered.access.reads@.contains(id) {
                            assert(self.combined_access.reads@.contains(id));
                        } else {
                            assert(filtered.access.writes@.contains(id));
                            assert(self.combined_access.writes@.contains(id));
                        }
                    }
                }
            }
            assert forall|j: int, id: usize|
                0 <= j < self.filtered_accesses@.len() && (#[trigger] self.filtered_accesses@[j].access.sp_mentions(id)) implies self.combined_access.sp_mentions(id) by {
                if j < old(self).filtered_accesses@.len() {
                    assert(old(self).filtered_accesses@[j].access.sp_mentions(id));
                    assert(old(self).combined_access.sp_mentions(id));
                    if old(self).combined_access.reads@.contains(id) {
                        assert(self.combined_access.reads@.contains(id));
                    } else {
                        assert(old(self).combined_access.writes@.contains(id));
                        assert(self.combined_access.writes@.contains(id));
                    }
                } else {
                    assert(self.filtered_accesses@[j] == filtered);
                    assert(filtered.access.sp_mentions(id));
                    if filtered.access.reads@.contains(id) {
                        assert(self.combined_access.reads@.contains(id));
                    } else {
                        assert(filtered.access.writes@.contains(id));
                        assert(self.combined_access.writes@.contains(id));
                    }
                }
            }
            assert forall|j: int, id: usize|
                0 <= j < self.filtered_accesses@.len() && (#[trigger] self.filtered_accesses@[j].access.sp_has_write(id)) implies self.combined_access.sp_has_write(id) by {
                if j < old(self).filtered_accesses@.len() {
                    assert(old(self).filtered_accesses@[j].access.sp_has_write(id));
                    assert(old(self).combined_access.sp_has_write(id));
                    if !old(self).combined_access.writes_all {
                        assert(old(self).combined_access.writes@.contains(id));
                        assert(self.combined_access.writes@.contains(id));
                    }
                } else {
                    assert(self.filtered_accesses@[j] == filtered);
                    assert(filtered.access.sp_has_write(id));
                    if !filtered.access.writes_all {
                        assert(filtered.access.writes@.contains(id));
                        assert(self.combined_access.writes@.contains(id));
                    }
                }
            }
        }
    }

    /// Registers a plain read of `id`, with no filter context.
    pub fn add_unfiltered_read(&mut self, id: usize)
        requires
            old(self).inv(),
        ensures
            final(self).inv(),
            final(self).filtered_accesses@.len() == old(self).filtered_accesses@.len() + 1,
            final(self).combined_access.reads_all == old(self).combined_access.reads_all,
            final(self).combined_access.writes_all == old(self).combined_access.writes_all,
            final(self).combined_access.writes@ == old(self).combined_access.writes@,
            forall|y: usize|
                #![trigger final(self).combined_access.reads@.contains(y)]
                #![trigger old(self).combined_access.reads@.contains(y)]
                final(self).combined_access.reads@.contains(y) <==> old(
                    self,
                ).combined_access.reads@.contains(y) || y == id,
    {
        let mut filtered = FilteredAccess::new();
        filtered.access.add_read(id);
        proof {
            assert(forall|y: usize| filtered.access.reads@.contains(y) <==> y == id);
            assert(forall|y: usize| !filtered.access.writes@.contains(y));
        }
        self.add(filtered);
    }

    /// Registers a plain write of `id`, with no filter context.
    pub fn add_unfiltered_write(&mut self, id: usize)
        requires
            old(self).inv(),
        ensures
            final(self).inv(),
            final(self).filtered_accesses@.len() == old(self).filtered_accesses@.len() + 1,
            final(self).combined_access.reads_all == old(self).combined_access.reads_all,
            final(self).combined_access.writes_all == old(self).combined_access.writes_all,
            final(self).combined_access.reads@ == old(self).combined_access.reads@,
            forall|y: usize|
                #![trigger final(self).combined_access.writes@.contains(y)]
                #![trigger old(self).combined_access.writes@.contains(y)]
                final(self).combined_access.writes@.contains(y) <==> old(
                    self,
                ).combined_access.writes@.contains(y) || y == id,
    {
        let mut filtered = FilteredAccess::new();
        filtered.access.add_write(id);
        proof {
            assert(forall|y: usize| filtered.access.writes@.contains(y) <==> y == id);
            assert(forall|y: usize| !filtered.access.reads@.contains(y));
        }
        self.add(filtered);
    }

    /// The slots on which some registered member clashes with `current`.
    /// Compatible members contribute nothing, so a set whose union is
    /// compatible with `current` yields an empty answer.
    #[verifier::loop_isolation(false)]
    pub fn get_conflicts_single(&self, current: &FilteredAccess) -> (r: Vec<usize>)
        requires
            self.inv(),
            current.inv(),
        ensures
            r@.no_duplicates(),
            forall|id: usize|
                #![trigger r@.contains(id)]
                #![trigger self.sp_conflicts_with(*current, id)]
                r@.contains(id) <==> self.sp_conflicts_with(*current, id),
    {
        if self.combined_access.is_compatible(&current.access) {
            proof {
                assert forall|id: usize| !self.sp_conflicts_with(*current, id) by {
                    if self.sp_conflicts_with(*current, id) {
                        let m = choose|m: int|
                            0 <= m < self.filtered_accesses@.len()
                                && #[trigger] self.sp_member_clash(*current, m, id);
                        assert(self.filtered_accesses@[m].access.sp_slot_conflict(
                            current.access,
                            id,
                        ));
                        assert(self.combined_access.sp_slot_conflict(current.access, id));
                    }
                }
            }
            return Vec::new();
        }
        let mut out: Vec<usize> = Vec::new();
        let mut j: usize = 0;
        while j < self.filtered_accesses.len()
            invariant
                out@.no_duplicates(),
                j <= self.filtered_accesses@.len(),
                forall|id: usize|
                    #![trigger out@.contains(id)]
                    out@.contains(id) <==> exists|m: int|
                        0 <= m < j && #[trigger] self.sp_member_clash(*current, m, id),
            decreases self.filtered_accesses@.len() - j,
        {
            let ghost pre = out@;
            proof {
                assert(forall|id: usize|
                    #![trigger pre.contains(id)]
                    pre.contains(id) <==> exists|m: int|
                        0 <= m < j && #[trigger] self.sp_member_clash(*current, m, id));
            }
            let member_conflicts = self.filtered_accesses[j].get_conflicts(current);
            let mut t: usize = 0;
            while t < member_conflicts.len()
                invariant
                    out@.no_duplicates(),
                    t <= member_conflicts@.len(),
                    forall|id: usize|
                        #![trigger out@.contains(id)]
                        out@.contains(id) <==> pre.contains(id) || member_conflicts@.take(
                            t as int,
                        ).contains(id),
                decreases member_conflicts@.len() - t,
            {
                let ghost mid = out@;
                proof {
                    assert(member_conflicts@.contains(member_conflicts@[t as int]));
                    assert(forall|id: usize|
                        #![trigger mid.contains(id)]
                        mid.contains(id) <==> pre.contains(id) || member_conflicts@.take(
                            t as int,
                        ).contains(id));
                }
                insert_id(&mut out, member_conflicts[t]);
                proof {
                    lemma_take_one_more(member_conflicts@, t as int);
                    assert(forall|id: usize|
                        out@.contains(id) <==> mid.contains(id) || id == member_conflicts@[t as int]);
                    assert forall|id: usize|
                        out@.contains(id) <==> pre.contains(id) || member_conflicts@.take(
                            t + 1,
                        ).contains(id) by {
                        assert(mid.contains(id) <==> pre.contains(id) || member_conflicts@.take(
                            t as int,
                        ).contains(id));
                    }
                }
                t += 1;
            }
            proof {
                assert(t == member_conflicts@.len());
                assert(member_conflicts@.take(t as int) == member_conflicts@);
                assert(forall|id: usize|
                    #![trigger out@.contains(id)]
                    out@.contains(id) <==> pre.contains(id) || member_conflicts@.contains(id));
                assert forall|id: usize|
                    out@.contains(id) <==> exists|m: int|
                        0 <= m < j + 1 && #[trigger] self.sp_member_clash(*current, m, id) by {
                    if out@.contains(id) {
                        if pre.contains(id) {
                            let m = choose|m: int|
                                0 <= m < j && #[trigger] self.sp_member_clash(*current, m, id);
                            assert(0 <= m < j + 1 && self.sp_member_clash(*current, m, id));
                        } else {
                            assert(member_conflicts@.contains(id));
                            assert(member_conflicts@.len() > 0);
                            assert(!self.filtered_accesses@[j as int].sp_compatible(*current));
                            assert(self.filtered_accesses@[j as int].access.sp_slot_conflict(
                                current.access,
                                id,
                            ));
                            assert(self.filtered_accesses@[j as int].access.sp_mentions(id)
                                || current.access.sp_mentions(id));
                            assert(self.sp_member_clash(*current, j as int, id));
                            assert(0 <= (j as int) < j + 1);
                        }
                    }
                    if exists|m: int|
                        0 <= m < j + 1 && #[trigger] self.sp_member_clash(*current, m, id) {
                        let m = choose|m: int|
                            0 <= m < j + 1 && #[trigger] self.sp_member_clash(*current, m, id);
                        if m < j {
                            assert(pre.contains(id));
                        } else {
                            assert(!self.filtered_accesses@[j as int].sp_compatible(*current));
                            assert(member_conflicts@.contains(id));
                        }
                    }
                }
            }
            j += 1;
        }
        proof {
            assert forall|id: usize|
                out@.contains(id) <==> self.sp_conflicts_with(*current, id) by {
                assert(out@.contains(id) <==> exists|m: int|
                    0 <= m < j && #[trigger] self.sp_member_clash(*current, m, id));
                assert(j == self.filtered_accesses@.len());
            }
        }
        out
    }
}


/// Copies a list of slot identifiers.
fn copy_ids(src: &Vec<usize>) -> (r: Vec<usize>)
    ensures
        r@ == src@,
{
    let mut r: Vec<usize> = Vec::new();
    let mut i: usize = 0;
    while i < src.len()
        invariant
            i <= src@.len(),
            r@ == src@.take(i as int),
        decreases src@.len() - i,
    {
        r.push(src[i]);
        proof {
            assert(r@ =~= src@.take(i + 1));
        }
        i += 1;
    }
    proof {
        assert(src@.take(src@.len() as int) == src@);
    }
    r
}

impl Access {
    /// A fresh footprint holding exactly the same entries and sentinels.
    pub fn duplicate(&self) -> (r: Access)
        ensures
            r.reads@ == self.reads@,
            r.writes@ == self.writes@,
            r.reads_all == self.reads_all,
            r.writes_all == self.writes_all,
    {
        Access {
            reads: copy_ids(&self.reads),
            writes: copy_ids(&self.writes),
            reads_all: self.reads_all,
            writes_all: self.writes_all,
        }
    }
}

impl FilteredAccess {
    /// A fresh filtered footprint holding exactly the same entries.
    pub fn duplicate(&self) -> (r: FilteredAccess)
        ensures
            r.access.reads@ == self.access.reads@,
            r.access.writes@ == self.access.writes@,
            r.access.reads_all == self.access.reads_all,
            r.access.writes_all == self.access.writes_all,
            r.with_filters@ == self.with_filters@,
            r.without_filters@ == self.without_filters@,
            self.inv() ==> r.inv(),
    {
        FilteredAccess {
            access: self.access.duplicate(),
            with_filters: copy_ids(&self.with_filters),
            without_filters: copy_ids(&self.without_filters),
        }
    }
}

} // verus!
