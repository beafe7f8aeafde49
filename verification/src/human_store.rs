//! The floor-side waiting room: each waiting passenger holds a dense
//! position index (its visual slot) and a destination desire. New arrivals
//! take the next index; removals take the passengers with the highest
//! indices first, so the remaining indices stay dense from zero.

use vstd::prelude::*;

verus! {

/// A waiting passenger's dense ordinal within its store, deciding its visual
/// slot and its removal priority.
#[derive(Clone, Copy, Debug, Eq, PartialEq, Structural, Hash)]
pub struct PositionIndex(pub usize);

/// The floor a passenger wants to travel to.
#[derive(Clone, Copy, Debug, Eq, PartialEq, Structural)]
pub struct FloorDesire {
    pub floor_num: i32,
}

/// One waiting passenger.
#[derive(Clone, Copy, Debug, Eq, PartialEq, Structural)]
pub struct WaitingHuman {
    pub position_index: PositionIndex,
    pub floor_desire: FloorDesire,
}

/// How many passengers a removal should take.
#[derive(Clone, Copy, Debug, Eq, PartialEq, Structural)]
pub enum HowMany {
    All,
    N(usize),
}

/// A floor's waiting-passenger store.
#[derive(Clone, Debug)]
pub struct HumanStore {
    pub max_humans: usize,
    pub humans: Vec<WaitingHuman>,
}

/// The desires a removal returns: those of the `n` passengers with the
/// highest position indices, highest first.
pub open spec fn spec_removed_desires(humans: Seq<WaitingHuman>, n: int) -> Seq<i32> {
    Seq::new(n as nat, |i: int| humans[humans.len() - 1 - i].floor_desire.floor_num)
}

impl HumanStore {
    /// Position indices are dense from zero: the passenger at position `i`
    /// of the store carries index `i`.
    pub open spec fn wf(self) -> bool {
        forall|i: int|
            0 <= i < self.humans@.len() ==> (#[trigger] self.humans@[i]).position_index.0 == i
    }

    /// An empty waiting room with the given capacity.
    pub fn new(max_humans: usize) -> (r: HumanStore)
        ensures
            r.wf(),
            r.max_humans == max_humans,
            r.humans@.len() == 0,
    {
        HumanStore { max_humans, humans: Vec::new() }
    }

    /// Whether a new arrival may be accepted; the capacity gate the spawn
    /// consumer checks before adding.
    pub fn has_capacity(&self) -> (r: bool)
        ensures
            r == (self.humans@.len() < self.max_humans),
    {
        self.humans.len() < self.max_humans
    }

    /// Append a waiting passenger with the next position index (one past the
    /// highest in use, or zero in an empty store) and the given desire. Does
    /// not check capacity: that is the caller's gate.
    pub fn add_human_to_store(&mut self, desired_floor: i32)
        requires
            old(self).wf(),
            old(self).humans@.len() < usize::MAX,
        ensures
            final(self).wf(),
            final(self).max_humans == old(self).max_humans,
            final(self).humans@ == old(self).humans@.push(
                WaitingHuman {
                    position_index: PositionIndex(old(self).humans@.len() as usize),
                    floor_desire: FloorDesire { floor_num: desired_floor },
                },
            ),
    {
        let next_index = self.humans.len();
        self.humans.push(
            WaitingHuman {
                position_index: PositionIndex(next_index),
                floor_desire: FloorDesire { floor_num: desired_floor },
            },
        );
    }

    /// Accept a new arrival only when the store has capacity; returns
    /// whether the passenger was admitted.
    pub fn spawn_arrival(&mut self, desired_floor: i32) -> (admitted: bool)
        requires
            old(self).wf(),
            old(self).humans@.len() < usize::MAX,
        ensures
            final(self).wf(),
            final(self).max_humans == old(self).max_humans,
            admitted == (old(self).humans@.len() < old(self).max_humans),
            final(self).humans@ == if admitted {
                old(self).humans@.push(
                    WaitingHuman {
                        position_index: PositionIndex(old(self).humans@.len() as usize),
                        floor_desire: FloorDesire { floor_num: desired_floor },
                    },
                )
            } else {
                old(self).humans@
            },
    {
        if self.has_capacity() {
            self.add_human_to_store(desired_floor);
            true
        } else {
            false
        }
    }

    /// Remove the `count` waiting passengers with the highest position
    /// indices (all of them when asked for more than are waiting, or for
    /// `All`), returning their desires highest-index first. The survivors
    /// keep their dense indices.
    pub fn remove_humans(&mut self, num_humans: HowMany) -> (desires: Vec<i32>)
        requires
            old(self).wf(),
        ensures
            final(self).wf(),
            final(self).max_humans == old(self).max_humans,
            ({
                let n = match num_humans {
                    HowMany::All => old(self).humans@.len() as int,
                    HowMany::N(k) => if k <= old(self).humans@.len() {
                        k as int
                    } else {
                        old(self).humans@.len() as int
                    },
                };
                &&& final(self).humans@ == old(self).humans@.take(old(self).humans@.len() - n)
                &&& desires@ == spec_removed_desires(old(self).humans@, n)
            }),
    {
        let len = self.humans.len();
        let n: usize = match num_humans {
            HowMany::All => len,
            HowMany::N(k) => if k <= len {
                k
            } else {
                len
            },
        };
        let mut desires: Vec<i32> = Vec::new();
        let mut i: usize = 0;
        while i < n
            invariant
                old(self).wf(),
                len == old(self).humans@.len(),
                n <= len,
                i <= n,
                self.max_humans == old(self).max_humans,
                self.humans@ == old(self).humans@.take(len - i),
                desires@.len() == i,
                forall|k: int|
                    0 <= k < i ==> #[trigger] desires@[k] == old(self).humans@[len - 1
                        - k].floor_desire.floor_num,
            decreases n - i,
        {
            proof {
                assert(self.humans@.len() == len - i);
                assert(self.humans@[len - i - 1] == old(self).humans@[len - i - 1]);
            }
            let h = match self.humans.pop() {
                Some(h) => h,
                None => {
                    proof {
                        assert(false);
                    }
                    return desires;
                },
            };
            desires.push(h.floor_desire.floor_num);
            proof {
                assert(self.humans@ =~= old(self).humans@.take(len - (i + 1)));
            }
            i = i + 1;
        }
        proof {
            assert(desires@ =~= spec_removed_desires(old(self).humans@, n as int));
        }
        desires
    }
}

} // verus!
