//! The floor transfer protocol, run on the tick whose dwell completion
//! opened the doors: deliver every on-board passenger destined for the
//! docked floor, then pick up waiting passengers — highest position index
//! first — up to the lift's free capacity, so that none of the picked-up
//! passengers is ever dropped.

use vstd::prelude::*;
use crate::human_store::{spec_removed_desires, HowMany, HumanStore};
use crate::lift_store::{
    count_free, humans_from, humans_of, sorted_slots, spec_clear_floor, spec_fill_all,
    spec_sort_slots, spec_taken_patience, LiftHumanStore,
};

verus! {

/// Deliver to and pick up from `floor_num`. Returns the remaining patience
/// of each delivered passenger (metrics only). Pick-up count is the lift's
/// free capacity after delivery, so boarding loses nobody.
pub fn transfer_at_floor(held: &mut LiftHumanStore, floor_store: &mut HumanStore, floor_num: i32)
    -> (delivered: Vec<u64>)
    requires
        old(held).wf(),
        old(floor_store).wf(),
    ensures
        final(held).wf(),
        final(floor_store).wf(),
        final(held).max_size == old(held).max_size,
        final(floor_store).max_humans == old(floor_store).max_humans,
        delivered@ == spec_taken_patience(old(held).slots@, floor_num),
        ({
            let cleared = spec_clear_floor(old(held).slots@, floor_num);
            let cap = count_free(cleared);
            let waiting = old(floor_store).humans@.len() as int;
            let n_picked = if cap <= waiting {
                cap
            } else {
                waiting
            };
            let picked = spec_removed_desires(old(floor_store).humans@, n_picked);
            &&& final(floor_store).humans@ == old(floor_store).humans@.take(waiting - n_picked)
            &&& final(held).slots@ == spec_sort_slots(spec_fill_all(cleared, picked))
            &&& sorted_slots(final(held).slots@)
            &&& count_free(final(held).slots@) == cap - n_picked
            &&& humans_of(final(held).slots@) =~= humans_of(cleared).add(humans_from(picked))
        }),
{
    let delivered = held.take_for_floor(floor_num);
    let capacity = held.free_capacity();
    let picked = floor_store.remove_humans(HowMany::N(capacity));
    held.add(picked);
    delivered
}

} // verus!
