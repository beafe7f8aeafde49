//! Level construction: from the tile grid parameters, compute the static
//! world-space layout facts the simulation consumes — each floor's latch
//! height, the shaft centre, the lift's travel bounds — plus every floor's
//! spawn configuration and an empty waiting store per floor.

use vstd::prelude::*;
use crate::floor_config::RawFloorConfig;
use crate::floors::{FloorNum, Floors, MAX_POS};
use crate::human_store::HumanStore;
use crate::lift::LiftLimits;
use crate::lift::ShaftCentreX;
use crate::prefabs::generate_config_of_floor_num;

verus! {

/// How many waiting passengers one floor's vestibule holds.
pub const FLOOR_STORE_CAPACITY: usize = 3;

/// Upper bound on the number of rows a map can be built with.
pub const MAX_ROWS: usize = 1000;

/// Upper bound on a tile edge, in milli-units.
pub const MAX_TILE_SIZE: i64 = 1_000_000;

/// Upper bound on the magnitude of the map origin, in milli-units.
pub const MAX_ORIGIN: i64 = 100_000_000_000;

/// The latch heights of the floors, bottom to top, in milli-units.
#[derive(Clone, Debug, Default)]
pub struct FloorLatchYPositions(pub Vec<i64>);

/// Everything level construction hands the simulation: geometry, per-floor
/// spawn configuration, and the floors' empty waiting stores.
pub struct FloorLayout {
    pub floor_latch_y_positions: FloorLatchYPositions,
    pub floors: Floors,
    pub shaft_centre_x: ShaftCentreX,
    pub lift_limits: LiftLimits,
    pub floor_configs: Vec<(FloorNum, RawFloorConfig)>,
    pub floor_stores: Vec<(i32, HumanStore)>,
}

/// Build the world-space layout of a map with `num_regular_floors` regular
/// rows between a base row and a roof row, on tiles `tile_size` across,
/// with the map's lower-left corner at (`origin_x`, `origin_y`) and the
/// shaft `shaft_x` tiles in. Floor `i` latches at `origin_y + i *
/// tile_size`; the lift travels between the first row above the base and
/// the row below the roof.
pub fn build_floor_layout(
    num_regular_floors: usize,
    shaft_x: usize,
    tile_size: i64,
    origin_x: i64,
    origin_y: i64,
) -> (r: FloorLayout)
    requires
        1 <= num_regular_floors,
        num_regular_floors + 2 <= MAX_ROWS,
        shaft_x <= MAX_ROWS,
        1 <= tile_size <= MAX_TILE_SIZE,
        -MAX_ORIGIN <= origin_x <= MAX_ORIGIN,
        -MAX_ORIGIN <= origin_y <= MAX_ORIGIN,
    ensures
        ({
            let num_rows = num_regular_floors + 2;
            &&& r.floor_latch_y_positions.0@.len() == num_rows
            &&& forall|i: int|
                0 <= i < num_rows ==> #[trigger] r.floor_latch_y_positions.0@[i] == origin_y + i
                    * tile_size
            &&& r.floors.floor_y_positions@.len() == num_rows
            &&& forall|i: int|
                0 <= i < num_rows ==> #[trigger] r.floors.floor_y_positions@[i] == (
                i as i32,
                (origin_y + i * tile_size) as i64,
            )
            &&& r.floors.wf()
            &&& r.shaft_centre_x.0 == origin_x + shaft_x * tile_size
            &&& r.lift_limits.min == origin_y + tile_size
            &&& r.lift_limits.max == origin_y + (num_rows - 1) * tile_size - tile_size
            &&& r.lift_limits.wf()
            &&& r.floor_configs@.len() == num_rows
            &&& forall|i: int|
                0 <= i < num_rows ==> (#[trigger] r.floor_configs@[i]).0 == FloorNum(i as i32)
                    && r.floor_configs@[i].1.wf()
            &&& r.floor_stores@.len() == num_rows
            &&& forall|i: int|
                0 <= i < num_rows ==> (#[trigger] r.floor_stores@[i]).0 == i as i32
                    && r.floor_stores@[i].1.wf() && r.floor_stores@[i].1.max_humans
                    == FLOOR_STORE_CAPACITY && r.floor_stores@[i].1.humans@.len() == 0
        }),
{
    let num_rows = num_regular_floors + 2;
    let mut latch_ys: Vec<i64> = Vec::new();
    let mut floor_positions: Vec<(i32, i64)> = Vec::new();
    let mut floor_configs: Vec<(FloorNum, RawFloorConfig)> = Vec::new();
    let mut floor_stores: Vec<(i32, HumanStore)> = Vec::new();
    let mut i: usize = 0;
    while i < num_rows
        invariant
            num_rows <= MAX_ROWS,
            1 <= tile_size <= MAX_TILE_SIZE,
            -MAX_ORIGIN <= origin_y <= MAX_ORIGIN,
            i <= num_rows,
            latch_ys@.len() == i,
            forall|k: int| 0 <= k < i ==> #[trigger] latch_ys@[k] == origin_y + k * tile_size,
            floor_positions@.len() == i,
            forall|k: int|
                0 <= k < i ==> #[trigger] floor_positions@[k] == (
                k as i32,
                (origin_y + k * tile_size) as i64,
            ),
            floor_configs@.len() == i,
            forall|k: int|
                0 <= k < i ==> (#[trigger] floor_configs@[k]).0 == FloorNum(k as i32)
                    && floor_configs@[k].1.wf(),
            floor_stores@.len() == i,
            forall|k: int|
                0 <= k < i ==> (#[trigger] floor_stores@[k]).0 == k as i32
                    && floor_stores@[k].1.wf() && floor_stores@[k].1.max_humans
                    == FLOOR_STORE_CAPACITY && floor_stores@[k].1.humans@.len() == 0,
        decreases num_rows - i,
    {
        proof {
            assert(0 <= (i as int) * tile_size <= 1000 * 1_000_000) by (nonlinear_arith)
                requires
                    0 <= i <= 1000,
                    1 <= tile_size <= 1_000_000,
            ;
        }
        let y = origin_y + (i as i64) * tile_size;
        latch_ys.push(y);
        floor_positions.push((i as i32, y));
        floor_configs.push((FloorNum(i as i32), generate_config_of_floor_num(i as i32)));
        floor_stores.push((i as i32, HumanStore::new(FLOOR_STORE_CAPACITY)));
        i = i + 1;
    }
    proof {
        assert(0 <= (shaft_x as int) * tile_size <= 1000 * 1_000_000) by (nonlinear_arith)
            requires
                0 <= shaft_x <= 1000,
                1 <= tile_size <= 1_000_000,
        ;
        assert(0 <= ((num_rows - 1) as int) * tile_size <= 1000 * 1_000_000) by (nonlinear_arith)
            requires
                0 <= num_rows - 1 <= 1000,
                1 <= tile_size <= 1_000_000,
        ;
    }
    let shaft_centre_x = ShaftCentreX(origin_x + (shaft_x as i64) * tile_size);
    let lift_limits = LiftLimits {
        min: origin_y + tile_size,
        max: origin_y + ((num_rows - 1) as i64) * tile_size - tile_size,
    };
    proof {
        assert forall|i2: int| 0 <= i2 < floor_positions@.len() implies -MAX_POS <= (
        #[trigger] floor_positions@[i2]).1 <= MAX_POS by {
            assert(0 <= i2 * tile_size <= 1000 * 1_000_000) by (nonlinear_arith)
                requires
                    0 <= i2 <= 1000,
                    1 <= tile_size <= 1_000_000,
            ;
        }
        assert(2 * tile_size <= ((num_rows - 1) as int) * tile_size) by (nonlinear_arith)
            requires
                num_rows >= 3,
                1 <= tile_size,
        ;
    }
    FloorLayout {
        floor_latch_y_positions: FloorLatchYPositions(latch_ys),
        floors: Floors { floor_y_positions: floor_positions },
        shaft_centre_x,
        lift_limits,
        floor_configs,
        floor_stores,
    }
}

} // verus!
