//! Static floor layout facts: floor numbers, each floor's world-space height,
//! and the search for the floor closest to the lift car.

use vstd::prelude::*;

verus! {

/// Upper bound on the magnitude of a world-space coordinate, in milli-units.
/// Keeps distance computations within `i64` range.
pub const MAX_POS: i64 = 1_000_000_000_000;

/// Signed floor number; 0 is the ground floor.
#[derive(Clone, Copy, Debug, PartialEq, Eq, Structural, Hash)]
pub struct FloorNum(pub i32);

/// Floor index to world-space height (milli-units), built once at level
/// construction and read-only thereafter.
#[derive(Clone, Debug)]
pub struct Floors {
    pub floor_y_positions: Vec<(i32, i64)>,
}

/// Distance between two heights.
pub open spec fn dist(a: int, b: int) -> int {
    if a >= b {
        a - b
    } else {
        b - a
    }
}

/// The entry nearest to `y`, scanning left to right; an entry wins over the
/// ones before it only by a strictly smaller distance, so the earliest of
/// equally near floors is kept.
pub open spec fn spec_closest(s: Seq<(i32, i64)>, y: int) -> Option<(i32, i64)>
    decreases s.len(),
{
    if s.len() == 0 {
        None
    } else {
        match spec_closest(s.drop_last(), y) {
            None => Some(s.last()),
            Some(best) => if dist(s.last().1 as int, y) < dist(best.1 as int, y) {
                Some(s.last())
            } else {
                Some(best)
            },
        }
    }
}

impl Floors {
    pub open spec fn wf(self) -> bool {
        forall|i: int|
            0 <= i < self.floor_y_positions@.len() ==> -MAX_POS
                <= (#[trigger] self.floor_y_positions@[i]).1 <= MAX_POS
    }

    /// The floor whose height is closest to `lift_y`; on a tie the earliest
    /// entry wins. Returns nothing only when no floors exist.
    pub fn closest_floor(&self, lift_y: i64) -> (r: Option<(i32, i64)>)
        requires
            self.wf(),
            -MAX_POS <= lift_y <= MAX_POS,
        ensures
            r == spec_closest(self.floor_y_positions@, lift_y as int),
            match r {
                None => self.floor_y_positions@.len() == 0,
                Some(best) => exists|i: int|
                    {
                        &&& 0 <= i < self.floor_y_positions@.len()
                        &&& #[trigger] self.floor_y_positions@[i] == best
                        &&& forall|j: int|
                            0 <= j < i ==> dist((#[trigger] self.floor_y_positions@[j]).1 as int,
                                lift_y as int) > dist(best.1 as int, lift_y as int)
                        &&& forall|j: int|
                            0 <= j < self.floor_y_positions@.len() ==> dist(
                                (#[trigger] self.floor_y_positions@[j]).1 as int,
                                lift_y as int,
                            ) >= dist(best.1 as int, lift_y as int)
                    },
            },
    {
        let n = self.floor_y_positions.len();
        if n == 0 {
            return None;
        }
        let mut best_idx: usize = 0;
        let mut best_dist: i64 = abs_diff(self.floor_y_positions[0].1, lift_y);
        proof {
            assert(self.floor_y_positions@.take(1).drop_last() =~= self.floor_y_positions@.take(
                0,
            ));
            assert(self.floor_y_positions@.take(0).len() == 0);
            assert(spec_closest(self.floor_y_positions@.take(0), lift_y as int) is None);
            assert(self.floor_y_positions@.take(1).last() == self.floor_y_positions@[0]);
        }
        let mut k: usize = 1;
        while k < n
            invariant
                self.wf(),
                -MAX_POS <= lift_y <= MAX_POS,
                n == self.floor_y_positions@.len(),
                1 <= k <= n,
                best_idx < k,
                best_dist == dist(self.floor_y_positions@[best_idx as int].1 as int, lift_y as int),
                spec_closest(self.floor_y_positions@.take(k as int), lift_y as int) == Some(
                    self.floor_y_positions@[best_idx as int],
                ),
                forall|j: int|
                    0 <= j < best_idx ==> dist(
                        (#[trigger] self.floor_y_positions@[j]).1 as int,
                        lift_y as int,
                    ) > best_dist,
                forall|j: int|
                    0 <= j < k ==> dist(
                        (#[trigger] self.floor_y_positions@[j]).1 as int,
                        lift_y as int,
                    ) >= best_dist,
            decreases n - k,
        {
            proof {
                assert(self.floor_y_positions@.take(k + 1).drop_last()
                    =~= self.floor_y_positions@.take(k as int));
                assert(self.floor_y_positions@.take(k + 1).last()
                    == self.floor_y_positions@[k as int]);
            }
            let d = abs_diff(self.floor_y_positions[k].1, lift_y);
            if d < best_dist {
                best_idx = k;
                best_dist = d;
            }
            k = k + 1;
        }
        proof {
            assert(self.floor_y_positions@.take(n as int) =~= self.floor_y_positions@);
        }
        Some(self.floor_y_positions[best_idx])
    }
}

/// Absolute difference of two bounded heights.
fn abs_diff(a: i64, b: i64) -> (r: i64)
    requires
        -MAX_POS <= a <= MAX_POS,
        -MAX_POS <= b <= MAX_POS,
    ensures
        r == dist(a as int, b as int),
{
    if a >= b {
        a - b
    } else {
        b - a
    }
}

} // verus!
