//! The on-board passenger store: a fixed array of slots, each empty or
//! holding a boarded passenger with a destination and a patience countdown.
//! Batch boarding fills the first free slots and then re-sorts the occupied
//! slots by destination; passengers beyond the free capacity are dropped (a
//! documented loss the callers pre-check against).

use vstd::prelude::*;
use vstd::multiset::Multiset;
use vstd::seq_lib::lemma_multiset_commutative;
use crate::timer::SimTimer;

verus! {

/// Number of slots the lift is built with.
pub const DEFAULT_LIFT_CAPACITY: usize = 6;

/// Patience granted to a passenger on boarding, in milliseconds.
pub const DEFAULT_PATIENCE_MS: u64 = 10_000;

/// The kinds of passenger the building knows.
#[derive(Clone, Copy, Debug, Eq, PartialEq, Structural)]
pub enum HumanKind {
    Simon,
}

/// A boarded passenger: where they want to go and how long they will
/// tolerate the ride.
#[derive(Clone, Copy, Debug, Eq, PartialEq, Structural)]
pub struct StoredHuman {
    pub destination_floor: i32,
    pub patience_timer: SimTimer,
    pub kind: HumanKind,
}

/// One slot of the store, empty or occupied.
#[derive(Clone, Copy, Debug, Eq, PartialEq, Structural)]
pub struct StoredHumanSlot(pub Option<StoredHuman>);

/// The lift's capacity-bounded passenger store.
#[derive(Clone, Debug)]
pub struct LiftHumanStore {
    pub slots: Vec<StoredHumanSlot>,
    pub max_size: usize,
}

/// The fresh record boarding a passenger creates.
pub open spec fn spec_boarded(floor: i32, patience_ms: u64) -> StoredHuman {
    StoredHuman {
        destination_floor: floor,
        patience_timer: SimTimer { elapsed_ms: 0, duration_ms: patience_ms },
        kind: HumanKind::Simon,
    }
}

/// Number of empty slots.
pub open spec fn count_free(slots: Seq<StoredHumanSlot>) -> int
    decreases slots.len(),
{
    if slots.len() == 0 {
        0
    } else {
        count_free(slots.drop_last()) + if slots.last().0 is None {
            1int
        } else {
            0int
        }
    }
}

/// The boarded passengers, as a bag: slot order carries no meaning beyond
/// presentation.
pub open spec fn humans_of(slots: Seq<StoredHumanSlot>) -> Multiset<StoredHuman>
    decreases slots.len(),
{
    if slots.len() == 0 {
        Multiset::empty()
    } else {
        match slots.last().0 {
            Some(h) => humans_of(slots.drop_last()).insert(h),
            None => humans_of(slots.drop_last()),
        }
    }
}

/// Sort key: destination floor, with empty slots at the very end.
pub open spec fn slot_key(s: StoredHumanSlot) -> int {
    match s.0 {
        Some(h) => h.destination_floor as int,
        None => i32::MAX as int,
    }
}

/// Keys never decrease along the slots.
pub open spec fn sorted_slots(slots: Seq<StoredHumanSlot>) -> bool {
    forall|i: int, j: int|
        0 <= i < j < slots.len() ==> slot_key(#[trigger] slots[i]) <= slot_key(
            #[trigger] slots[j],
        )
}

/// Stable ascending insertion by slot key.
pub open spec fn insert_slot(slots: Seq<StoredHumanSlot>, x: StoredHumanSlot) -> Seq<
    StoredHumanSlot,
>
    decreases slots.len(),
{
    if slots.len() == 0 {
        seq![x]
    } else if slot_key(slots[0]) <= slot_key(x) {
        seq![slots[0]] + insert_slot(slots.drop_first(), x)
    } else {
        seq![x] + slots
    }
}

/// Stable sort of the slots by destination key.
pub open spec fn spec_sort_slots(slots: Seq<StoredHumanSlot>) -> Seq<StoredHumanSlot>
    decreases slots.len(),
{
    if slots.len() == 0 {
        Seq::empty()
    } else {
        insert_slot(spec_sort_slots(slots.drop_last()), slots.last())
    }
}

/// Fill the first empty slot with `h`; unchanged when no slot is free.
pub open spec fn spec_fill_first(slots: Seq<StoredHumanSlot>, h: StoredHuman) -> Seq<
    StoredHumanSlot,
>
    decreases slots.len(),
{
    if slots.len() == 0 {
        slots
    } else if slots.first().0 is None {
        seq![StoredHumanSlot(Some(h))] + slots.drop_first()
    } else {
        seq![slots.first()] + spec_fill_first(slots.drop_first(), h)
    }
}

/// Clear every slot whose passenger is destined for `floor`.
pub open spec fn spec_clear_floor(slots: Seq<StoredHumanSlot>, floor: i32) -> Seq<
    StoredHumanSlot,
> {
    slots.map_values(
        |s: StoredHumanSlot|
            match s.0 {
                Some(h) => if h.destination_floor == floor {
                    StoredHumanSlot(None)
                } else {
                    s
                },
                None => s,
            },
    )
}

/// The remaining patience of the passengers destined for `floor`, in slot
/// order.
pub open spec fn spec_taken_patience(slots: Seq<StoredHumanSlot>, floor: i32) -> Seq<u64>
    decreases slots.len(),
{
    if slots.len() == 0 {
        Seq::empty()
    } else {
        let rest = spec_taken_patience(slots.drop_last(), floor);
        match slots.last().0 {
            Some(h) => if h.destination_floor == floor {
                rest.push((h.patience_timer.duration_ms - h.patience_timer.elapsed_ms) as u64)
            } else {
                rest
            },
            None => rest,
        }
    }
}

proof fn lemma_count_free_concat(a: Seq<StoredHumanSlot>, b: Seq<StoredHumanSlot>)
    ensures
        count_free(a + b) == count_free(a) + count_free(b),
    decreases b.len(),
{
    if b.len() == 0 {
        assert(a + b =~= a);
    } else {
        assert((a + b).drop_last() =~= a + b.drop_last());
        assert((a + b).last() == b.last());
        lemma_count_free_concat(a, b.drop_last());
    }
}

proof fn lemma_humans_of_concat(a: Seq<StoredHumanSlot>, b: Seq<StoredHumanSlot>)
    ensures
        humans_of(a + b) =~= humans_of(a).add(humans_of(b)),
    decreases b.len(),
{
    if b.len() == 0 {
        assert(a + b =~= a);
    } else {
        assert((a + b).drop_last() =~= a + b.drop_last());
        assert((a + b).last() == b.last());
        lemma_humans_of_concat(a, b.drop_last());
    }
}

/// Inserting a slot at the position the key scan found is the stable
/// insertion, and it keeps the free count, the passenger bag, and
/// sortedness.
proof fn lemma_slot_insert_at(s: Seq<StoredHumanSlot>, x: StoredHumanSlot, p: int)
    requires
        0 <= p <= s.len(),
        forall|k: int| 0 <= k < p ==> slot_key(#[trigger] s[k]) <= slot_key(x),
        p < s.len() ==> slot_key(s[p]) > slot_key(x),
    ensures
        insert_slot(s, x) == s.take(p) + seq![x] + s.skip(p),
    decreases p,
{
    if p == 0 {
        if s.len() == 0 {
            assert(insert_slot(s, x) =~= s.take(0) + seq![x] + s.skip(0));
        } else {
            assert(slot_key(s[0]) > slot_key(x));
            assert(insert_slot(s, x) =~= s.take(0) + seq![x] + s.skip(0));
        }
    } else {
        assert(slot_key(s[0]) <= slot_key(x));
        let t = s.drop_first();
        lemma_slot_insert_at(t, x, p - 1);
        assert(insert_slot(s, x) == seq![s[0]] + (t.take(p - 1) + seq![x] + t.skip(p - 1)));
        assert(insert_slot(s, x) =~= s.take(p) + seq![x] + s.skip(p));
    }
}

proof fn lemma_slot_insert_props(s: Seq<StoredHumanSlot>, x: StoredHumanSlot, p: int)
    requires
        sorted_slots(s),
        0 <= p <= s.len(),
        forall|k: int| 0 <= k < p ==> slot_key(#[trigger] s[k]) <= slot_key(x),
        p < s.len() ==> slot_key(s[p]) > slot_key(x),
    ensures
        sorted_slots(s.take(p) + seq![x] + s.skip(p)),
        count_free(s.take(p) + seq![x] + s.skip(p)) == count_free(s) + count_free(seq![x]),
        humans_of(s.take(p) + seq![x] + s.skip(p)) =~= humans_of(s).add(humans_of(seq![x])),
        (s.take(p) + seq![x] + s.skip(p)).len() == s.len() + 1,
        forall|i: int|
            0 <= i < (s.take(p) + seq![x] + s.skip(p)).len() ==> (exists|j: int|
                0 <= j < s.len() && (s.take(p) + seq![x] + s.skip(p))[i] == #[trigger] s[j]) || (
            s.take(p) + seq![x] + s.skip(p))[i] == x,
{
    let r = s.take(p) + seq![x] + s.skip(p);
    assert forall|i: int, j: int| 0 <= i < j < r.len() implies slot_key(#[trigger] r[i])
        <= slot_key(#[trigger] r[j]) by {
        if i < p {
            assert(r[i] == s[i]);
        } else if i == p {
            assert(r[i] == x);
        } else {
            assert(r[i] == s[i - 1]);
        }
        if j < p {
            assert(r[j] == s[j]);
        } else if j == p {
            assert(r[j] == x);
        } else {
            assert(r[j] == s[j - 1]);
        }
    }
    lemma_count_free_concat(s.take(p) + seq![x], s.skip(p));
    lemma_count_free_concat(s.take(p), seq![x]);
    lemma_count_free_concat(s.take(p), s.skip(p));
    lemma_humans_of_concat(s.take(p) + seq![x], s.skip(p));
    lemma_humans_of_concat(s.take(p), seq![x]);
    lemma_humans_of_concat(s.take(p), s.skip(p));
    assert(s.take(p) + s.skip(p) =~= s);
    assert forall|i: int| 0 <= i < r.len() implies (exists|j: int|
        0 <= j < s.len() && r[i] == #[trigger] s[j]) || r[i] == x by {
        if i < p {
            assert(r[i] == s[i]);
        } else if i == p {
            assert(r[i] == x);
        } else {
            assert(r[i] == s[i - 1]);
        }
    }
}

proof fn lemma_count_free_nonneg(s: Seq<StoredHumanSlot>)
    ensures
        count_free(s) >= 0,
    decreases s.len(),
{
    if s.len() > 0 {
        lemma_count_free_nonneg(s.drop_last());
    }
}

/// A store with every slot occupied has no free capacity.
proof fn lemma_count_free_zero(s: Seq<StoredHumanSlot>)
    requires
        forall|i: int| 0 <= i < s.len() ==> (#[trigger] s[i]).0 is Some,
    ensures
        count_free(s) == 0,
    decreases s.len(),
{
    if s.len() > 0 {
        lemma_count_free_zero(s.drop_last());
    }
}

/// Filling the first free slot, found at `idx`, is a point update.
proof fn lemma_fill_first_at(s: Seq<StoredHumanSlot>, h: StoredHuman, idx: int)
    requires
        0 <= idx < s.len(),
        s[idx].0 is None,
        forall|k: int| 0 <= k < idx ==> (#[trigger] s[k]).0 is Some,
    ensures
        spec_fill_first(s, h) == s.update(idx, StoredHumanSlot(Some(h))),
    decreases idx,
{
    if idx == 0 {
        assert(spec_fill_first(s, h) =~= s.update(0, StoredHumanSlot(Some(h))));
    } else {
        let t = s.drop_first();
        lemma_fill_first_at(t, h, idx - 1);
        assert(spec_fill_first(s, h) == seq![s.first()] + t.update(
            idx - 1,
            StoredHumanSlot(Some(h)),
        ));
        assert(spec_fill_first(s, h) =~= s.update(idx, StoredHumanSlot(Some(h))));
    }
}

/// With no free slot, filling changes nothing.
proof fn lemma_fill_first_full(s: Seq<StoredHumanSlot>, h: StoredHuman)
    requires
        forall|i: int| 0 <= i < s.len() ==> (#[trigger] s[i]).0 is Some,
    ensures
        spec_fill_first(s, h) == s,
    decreases s.len(),
{
    if s.len() > 0 {
        lemma_fill_first_full(s.drop_first(), h);
        assert(spec_fill_first(s, h) =~= s);
    } else {
        assert(spec_fill_first(s, h) =~= s);
    }
}

/// Free count and passenger bag of a single slot.
proof fn lemma_singleton_slot(x: StoredHumanSlot)
    ensures
        count_free(seq![x]) == if x.0 is None {
            1int
        } else {
            0int
        },
        humans_of(seq![x]) =~= match x.0 {
            Some(h) => Multiset::<StoredHuman>::empty().insert(h),
            None => Multiset::<StoredHuman>::empty(),
        },
{
    assert(seq![x].drop_last() =~= Seq::<StoredHumanSlot>::empty());
    assert(count_free(Seq::<StoredHumanSlot>::empty()) == 0);
    assert(humans_of(Seq::<StoredHumanSlot>::empty()) =~= Multiset::<StoredHuman>::empty());
}

/// Filling a store with no free slot changes nothing.
proof fn lemma_fill_first_noop(s: Seq<StoredHumanSlot>, h: StoredHuman)
    requires
        count_free(s) == 0,
    ensures
        spec_fill_first(s, h) == s,
    decreases s.len(),
{
    if s.len() > 0 {
        assert(s =~= seq![s.first()] + s.drop_first());
        lemma_count_free_concat(seq![s.first()], s.drop_first());
        lemma_singleton_slot(s.first());
        lemma_count_free_nonneg(s.drop_first());
        assert(!(s.first().0 is None));
        lemma_fill_first_noop(s.drop_first(), h);
        assert(spec_fill_first(s, h) =~= s);
    } else {
        assert(spec_fill_first(s, h) =~= s);
    }
}

/// A point update's effect on the free count and the passenger bag.
proof fn lemma_point_update(s: Seq<StoredHumanSlot>, idx: int, x: StoredHumanSlot)
    requires
        0 <= idx < s.len(),
    ensures
        count_free(s.update(idx, x)) == count_free(s) + count_free(seq![x]) - count_free(
            seq![s[idx]],
        ),
        humans_of(s.update(idx, x)) =~= humans_of(s).sub(humans_of(seq![s[idx]])).add(
            humans_of(seq![x]),
        ),
{
    let r = s.update(idx, x);
    assert(r =~= s.take(idx) + seq![x] + s.skip(idx + 1));
    assert(s =~= s.take(idx) + seq![s[idx]] + s.skip(idx + 1));
    lemma_count_free_concat(s.take(idx) + seq![x], s.skip(idx + 1));
    lemma_count_free_concat(s.take(idx), seq![x]);
    lemma_count_free_concat(s.take(idx) + seq![s[idx]], s.skip(idx + 1));
    lemma_count_free_concat(s.take(idx), seq![s[idx]]);
    lemma_humans_of_concat(s.take(idx) + seq![x], s.skip(idx + 1));
    lemma_humans_of_concat(s.take(idx), seq![x]);
    lemma_humans_of_concat(s.take(idx) + seq![s[idx]], s.skip(idx + 1));
    lemma_humans_of_concat(s.take(idx), seq![s[idx]]);
    broadcast use vstd::multiset::group_multiset_axioms;

}

impl LiftHumanStore {
    /// The slot array has the configured size and every boarded passenger's
    /// patience timer is consistent.
    pub open spec fn wf(self) -> bool {
        &&& self.slots@.len() == self.max_size
        &&& forall|i: int|
            0 <= i < self.slots@.len() ==> match (#[trigger] self.slots@[i]).0 {
                Some(h) => h.patience_timer.wf(),
                None => true,
            }
    }

    /// An empty store with the default capacity.
    pub fn create() -> (r: LiftHumanStore)
        ensures
            r.wf(),
            r.max_size == DEFAULT_LIFT_CAPACITY,
            r.slots@.len() == DEFAULT_LIFT_CAPACITY,
            count_free(r.slots@) == DEFAULT_LIFT_CAPACITY,
            humans_of(r.slots@) =~= Multiset::<StoredHuman>::empty(),
    {
        let mut slots: Vec<StoredHumanSlot> = Vec::new();
        let mut i: usize = 0;
        while i < DEFAULT_LIFT_CAPACITY
            invariant
                i <= DEFAULT_LIFT_CAPACITY,
                slots@.len() == i,
                count_free(slots@) == i,
                humans_of(slots@) =~= Multiset::<StoredHuman>::empty(),
                forall|k: int| 0 <= k < i ==> (#[trigger] slots@[k]).0 is None,
            decreases DEFAULT_LIFT_CAPACITY - i,
        {
            proof {
                assert(slots@.push(StoredHumanSlot(None)).drop_last() =~= slots@);
            }
            slots.push(StoredHumanSlot(None));
            i = i + 1;
        }
        LiftHumanStore { slots, max_size: DEFAULT_LIFT_CAPACITY }
    }

    /// Count of empty slots.
    pub fn free_capacity(&self) -> (r: usize)
        ensures
            r == count_free(self.slots@),
    {
        let n = self.slots.len();
        let mut count: usize = 0;
        let mut i: usize = 0;
        while i < n
            invariant
                n == self.slots@.len(),
                i <= n,
                count == count_free(self.slots@.take(i as int)),
                count <= i,
            decreases n - i,
        {
            proof {
                assert(self.slots@.take(i + 1).drop_last() =~= self.slots@.take(i as int));
                assert(self.slots@.take(i + 1).last() == self.slots@[i as int]);
            }
            if self.slots[i].0.is_none() {
                count = count + 1;
            }
            i = i + 1;
        }
        proof {
            assert(self.slots@.take(n as int) =~= self.slots@);
        }
        count
    }

    /// Re-sort the occupied slots by ascending destination floor, empty
    /// slots last (stable on ties; a presentation aid only).
    fn sort_slots(&mut self)
        requires
            old(self).wf(),
        ensures
            final(self).wf(),
            final(self).max_size == old(self).max_size,
            final(self).slots@ == spec_sort_slots(old(self).slots@),
            sorted_slots(final(self).slots@),
            count_free(final(self).slots@) == count_free(old(self).slots@),
            humans_of(final(self).slots@) =~= humans_of(old(self).slots@),
    {
        let n = self.slots.len();
        let mut sorted: Vec<StoredHumanSlot> = Vec::new();
        proof {
            assert(sorted@ =~= self.slots@.take(0));
            assert(humans_of(sorted@) =~= humans_of(self.slots@.take(0)));
        }
        let mut i: usize = 0;
        while i < n
            invariant
                old(self).wf(),
                self == old(self),
                n == self.slots@.len(),
                i <= n,
                sorted@ == spec_sort_slots(self.slots@.take(i as int)),
                sorted@.len() == i,
                sorted_slots(sorted@),
                count_free(sorted@) == count_free(self.slots@.take(i as int)),
                humans_of(sorted@) =~= humans_of(self.slots@.take(i as int)),
                forall|k: int|
                    0 <= k < i ==> match (#[trigger] sorted@[k]).0 {
                        Some(h) => h.patience_timer.wf(),
                        None => true,
                    },
            decreases n - i,
        {
            let x = self.slots[i];
            let ghost s0 = sorted@;
            let mut p: usize = 0;
            while p < sorted.len() && slot_key_below(&sorted[p], &x)
                invariant
                    sorted@ == s0,
                    p <= sorted@.len(),
                    forall|k: int| 0 <= k < p ==> slot_key(#[trigger] sorted@[k]) <= slot_key(x),
                decreases sorted@.len() - p,
            {
                p = p + 1;
            }
            proof {
                lemma_slot_insert_at(s0, x, p as int);
                lemma_slot_insert_props(s0, x, p as int);
                assert(self.slots@.take(i + 1).drop_last() =~= self.slots@.take(i as int));
                assert(self.slots@.take(i + 1).last() == self.slots@[i as int]);
                assert(self.slots@.take(i + 1) =~= self.slots@.take(i as int) + seq![x]);
                lemma_count_free_concat(self.slots@.take(i as int), seq![x]);
                lemma_humans_of_concat(self.slots@.take(i as int), seq![x]);
            }
            sorted.insert(p, x);
            proof {
                assert(sorted@ =~= s0.take(p as int) + seq![x] + s0.skip(p as int));
                assert(sorted@ == insert_slot(s0, x));
            }
            i = i + 1;
        }
        proof {
            assert(self.slots@.take(n as int) =~= self.slots@);
        }
        self.slots = sorted;
    }

    /// Board one passenger into the first free slot; false when the store is
    /// full. When asked, re-sorts the slots after a successful insertion.
    fn add_single_(&mut self, floor: i32, patience_ms: u64, sort_on_insert: bool) -> (inserted:
        bool)
        requires
            old(self).wf(),
        ensures
            final(self).wf(),
            final(self).max_size == old(self).max_size,
            inserted == (count_free(old(self).slots@) > 0),
            ({
                let filled = spec_fill_first(old(self).slots@, spec_boarded(floor, patience_ms));
                final(self).slots@ == if inserted && sort_on_insert {
                    spec_sort_slots(filled)
                } else {
                    filled
                }
            }),
            count_free(final(self).slots@) == count_free(old(self).slots@) - if inserted {
                1int
            } else {
                0int
            },
            humans_of(final(self).slots@) =~= if inserted {
                humans_of(old(self).slots@).insert(spec_boarded(floor, patience_ms))
            } else {
                humans_of(old(self).slots@)
            },
    {
        let h = StoredHuman {
            destination_floor: floor,
            patience_timer: SimTimer::new(patience_ms),
            kind: HumanKind::Simon,
        };
        let n = self.slots.len();
        let mut idx: usize = 0;
        while idx < n && self.slots[idx].0.is_some()
            invariant
                self == old(self),
                n == self.slots@.len(),
                idx <= n,
                forall|k: int| 0 <= k < idx ==> (#[trigger] self.slots@[k]).0 is Some,
            decreases n - idx,
        {
            idx = idx + 1;
        }
        if idx == n {
            proof {
                lemma_count_free_zero(self.slots@);
                lemma_fill_first_full(self.slots@, h);
            }
            return false;
        }
        proof {
            lemma_fill_first_at(self.slots@, h, idx as int);
            lemma_point_update(self.slots@, idx as int, StoredHumanSlot(Some(h)));
            lemma_count_free_nonneg(self.slots@.update(idx as int, StoredHumanSlot(Some(h))));
            lemma_singleton_slot(self.slots@[idx as int]);
            lemma_singleton_slot(StoredHumanSlot(Some(h)));
            broadcast use vstd::multiset::group_multiset_axioms;

        }
        self.slots[idx] = StoredHumanSlot(Some(h));
        if sort_on_insert {
            self.sort_slots();
        }
        true
    }

    /// Board one passenger, keeping the slots sorted; false when there was
    /// no space.
    pub fn add_single(&mut self, floor: i32, patience_ms: u64) -> (inserted: bool)
        requires
            old(self).wf(),
        ensures
            final(self).wf(),
            final(self).max_size == old(self).max_size,
            inserted == (count_free(old(self).slots@) > 0),
            final(self).slots@ == if inserted {
                spec_sort_slots(spec_fill_first(old(self).slots@, spec_boarded(floor, patience_ms)))
            } else {
                old(self).slots@
            },
            count_free(final(self).slots@) == count_free(old(self).slots@) - if inserted {
                1int
            } else {
                0int
            },
            humans_of(final(self).slots@) =~= if inserted {
                humans_of(old(self).slots@).insert(spec_boarded(floor, patience_ms))
            } else {
                humans_of(old(self).slots@)
            },
    {
        let r = self.add_single_(floor, patience_ms, true);
        proof {
            if !r {
                lemma_count_free_nonneg(old(self).slots@);
                lemma_fill_first_noop(old(self).slots@, spec_boarded(floor, patience_ms));
            }
        }
        r
    }
}

/// Fill the first free slots with the given destinations, in order;
/// destinations beyond the free capacity leave the slots unchanged.
pub open spec fn spec_fill_all(slots: Seq<StoredHumanSlot>, floors: Seq<i32>) -> Seq<
    StoredHumanSlot,
>
    decreases floors.len(),
{
    if floors.len() == 0 {
        slots
    } else {
        spec_fill_first(
            spec_fill_all(slots, floors.drop_last()),
            spec_boarded(floors.last(), DEFAULT_PATIENCE_MS),
        )
    }
}

/// The bag of freshly boarded passengers a batch of destinations produces.
pub open spec fn humans_from(floors: Seq<i32>) -> Multiset<StoredHuman>
    decreases floors.len(),
{
    if floors.len() == 0 {
        Multiset::empty()
    } else {
        humans_from(floors.drop_last()).insert(spec_boarded(floors.last(), DEFAULT_PATIENCE_MS))
    }
}

impl LiftHumanStore {
    /// Board a batch of passengers, one per destination floor, then re-sort
    /// the slots by destination. Destinations beyond the free capacity are
    /// dropped; when the batch fits the free capacity (as the transfer
    /// protocol pre-checks), nobody is lost and the free capacity drops by
    /// exactly the batch size.
    pub fn add(&mut self, floors: Vec<i32>)
        requires
            old(self).wf(),
        ensures
            final(self).wf(),
            final(self).max_size == old(self).max_size,
            final(self).slots@ == spec_sort_slots(spec_fill_all(old(self).slots@, floors@)),
            sorted_slots(final(self).slots@),
            count_free(final(self).slots@) == if floors@.len() <= count_free(old(self).slots@) {
                count_free(old(self).slots@) - floors@.len()
            } else {
                0int
            },
            floors@.len() <= count_free(old(self).slots@) ==> humans_of(final(self).slots@)
                =~= humans_of(old(self).slots@).add(humans_from(floors@)),
    {
        let n = floors.len();
        let mut i: usize = 0;
        proof {
            lemma_count_free_nonneg(self.slots@);
            assert(floors@.take(0) =~= Seq::<i32>::empty());
            assert(humans_of(self.slots@) =~= humans_of(self.slots@).add(
                humans_from(floors@.take(0)),
            )) by {
                broadcast use vstd::multiset::group_multiset_axioms;

            }
        }
        while i < n
            invariant
                old(self).wf(),
                self.wf(),
                n == floors@.len(),
                i <= n,
                self.max_size == old(self).max_size,
                self.slots@ == spec_fill_all(old(self).slots@, floors@.take(i as int)),
                count_free(self.slots@) == if i as int <= count_free(old(self).slots@) {
                    count_free(old(self).slots@) - i
                } else {
                    0int
                },
                i as int <= count_free(old(self).slots@) ==> humans_of(self.slots@) =~= humans_of(
                    old(self).slots@,
                ).add(humans_from(floors@.take(i as int))),
            decreases n - i,
        {
            let ghost pre = self.slots@;
            let f = floors[i];
            let inserted = self.add_single_(f, DEFAULT_PATIENCE_MS, false);
            proof {
                assert(floors@.take(i + 1).drop_last() =~= floors@.take(i as int));
                assert(floors@.take(i + 1).last() == floors@[i as int]);
                lemma_count_free_nonneg(pre);
                if i as int + 1 <= count_free(old(self).slots@) {
                    assert(inserted);
                    broadcast use vstd::multiset::group_multiset_axioms;

                }
            }
            i = i + 1;
        }
        proof {
            assert(floors@.take(n as int) =~= floors@);
        }
        self.sort_slots();
    }

    /// Deliver: clear every slot whose passenger is destined for
    /// `floor_num`, exactly those, and return the passengers' remaining
    /// patience in slot order.
    pub fn take_for_floor(&mut self, floor_num: i32) -> (taken: Vec<u64>)
        requires
            old(self).wf(),
        ensures
            final(self).wf(),
            final(self).max_size == old(self).max_size,
            final(self).slots@ == spec_clear_floor(old(self).slots@, floor_num),
            taken@ == spec_taken_patience(old(self).slots@, floor_num),
            count_free(final(self).slots@) == count_free(old(self).slots@) + taken@.len(),
    {
        let n = self.slots.len();
        let mut taken: Vec<u64> = Vec::new();
        let mut i: usize = 0;
        proof {
            assert(self.slots@.take(0) =~= Seq::<StoredHumanSlot>::empty());
        }
        while i < n
            invariant
                old(self).wf(),
                n == self.slots@.len(),
                old(self).slots@.len() == n,
                i <= n,
                self.max_size == old(self).max_size,
                forall|k: int|
                    i <= k < n ==> #[trigger] self.slots@[k] == old(self).slots@[k],
                forall|k: int|
                    0 <= k < i ==> #[trigger] self.slots@[k] == spec_clear_floor(
                        old(self).slots@,
                        floor_num,
                    )[k],
                taken@ == spec_taken_patience(old(self).slots@.take(i as int), floor_num),
                count_free(self.slots@) == count_free(old(self).slots@) + taken@.len(),
            decreases n - i,
        {
            proof {
                assert(old(self).slots@.take(i + 1).drop_last() =~= old(self).slots@.take(
                    i as int,
                ));
                assert(old(self).slots@.take(i + 1).last() == old(self).slots@[i as int]);
            }
            let slot = self.slots[i];
            match slot.0 {
                Some(h) => {
                    if h.destination_floor == floor_num {
                        taken.push(h.patience_timer.remaining_ms());
                        proof {
                            lemma_point_update(self.slots@, i as int, StoredHumanSlot(None));
                            lemma_singleton_slot(self.slots@[i as int]);
                            lemma_singleton_slot(StoredHumanSlot(None));
                        }
                        self.slots[i] = StoredHumanSlot(None);
                    }
                },
                None => {},
            }
            i = i + 1;
        }
        proof {
            assert(old(self).slots@.take(n as int) =~= old(self).slots@);
            assert(final(self).slots@ =~= spec_clear_floor(old(self).slots@, floor_num));
        }
        taken
    }

    /// Advance every boarded passenger's patience countdown by one tick.
    pub fn tick_patience(&mut self, delta_ms: u64)
        requires
            old(self).wf(),
        ensures
            final(self).wf(),
            final(self).max_size == old(self).max_size,
            final(self).slots@.len() == old(self).slots@.len(),
            forall|k: int|
                0 <= k < old(self).slots@.len() ==> #[trigger] final(self).slots@[k] == (match old(
                    self,
                ).slots@[k].0 {
                    Some(h) => StoredHumanSlot(
                        Some(
                            StoredHuman {
                                destination_floor: h.destination_floor,
                                patience_timer: SimTimer {
                                    elapsed_ms: (if h.patience_timer.elapsed_ms + delta_ms
                                        >= h.patience_timer.duration_ms {
                                        h.patience_timer.duration_ms as int
                                    } else {
                                        h.patience_timer.elapsed_ms + delta_ms
                                    }) as u64,
                                    duration_ms: h.patience_timer.duration_ms,
                                },
                                kind: h.kind,
                            },
                        ),
                    ),
                    None => old(self).slots@[k],
                }),
    {
        let n = self.slots.len();
        let mut i: usize = 0;
        while i < n
            invariant
                old(self).wf(),
                n == self.slots@.len(),
                old(self).slots@.len() == n,
                i <= n,
                self.max_size == old(self).max_size,
                forall|k: int|
                    i <= k < n ==> #[trigger] self.slots@[k] == old(self).slots@[k],
                forall|k: int|
                    0 <= k < i ==> #[trigger] self.slots@[k] == (match old(self).slots@[k].0 {
                        Some(h) => StoredHumanSlot(
                            Some(
                                StoredHuman {
                                    destination_floor: h.destination_floor,
                                    patience_timer: SimTimer {
                                        elapsed_ms: (if h.patience_timer.elapsed_ms + delta_ms
                                            >= h.patience_timer.duration_ms {
                                            h.patience_timer.duration_ms as int
                                        } else {
                                            h.patience_timer.elapsed_ms + delta_ms
                                        }) as u64,
                                        duration_ms: h.patience_timer.duration_ms,
                                    },
                                    kind: h.kind,
                                },
                            ),
                        ),
                        None => old(self).slots@[k],
                    }),
            decreases n - i,
        {
            let slot = self.slots[i];
            match slot.0 {
                Some(h) => {
                    let mut timer = h.patience_timer;
                    timer.tick(delta_ms);
                    self.slots[i] = StoredHumanSlot(
                        Some(
                            StoredHuman {
                                destination_floor: h.destination_floor,
                                patience_timer: timer,
                                kind: h.kind,
                            },
                        ),
                    );
                },
                None => {},
            }
            i = i + 1;
        }
    }
}

/// Key comparison the sorting scan uses.
fn slot_key_below(a: &StoredHumanSlot, b: &StoredHumanSlot) -> (r: bool)
    ensures
        r == (slot_key(*a) <= slot_key(*b)),
{
    let ka: i64 = match a.0 {
        Some(h) => h.destination_floor as i64,
        None => i32::MAX as i64,
    };
    let kb: i64 = match b.0 {
        Some(h) => h.destination_floor as i64,
        None => i32::MAX as i64,
    };
    ka <= kb
}

} // verus!
