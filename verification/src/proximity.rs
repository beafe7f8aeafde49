//! The floor-proximity docking detector: per tick it finds the floor closest
//! to the lift, and while the lift stays near that same floor below the speed
//! threshold it advances a dwell timer. The timer's completion opens the
//! doors and triggers exactly one passenger transfer; any break in the
//! conditions re-arms the timer and frees the lift.

use vstd::prelude::*;
use crate::floors::{dist, spec_closest, Floors, MAX_POS};
use crate::lift::{LiftMode, MAX_VEL};
use crate::timer::SimTimer;

verus! {

/// Immutable per-lift docking thresholds.
#[derive(Clone, Copy, Debug, Eq, PartialEq, Structural)]
pub struct FloorProximitySensor {
    /// How near (milli-units) the lift must be to a floor to dock there.
    pub abs_distance_threshold: i64,
    /// How slow (milli-units per second) the lift must move to dock.
    pub max_velocity: i64,
    /// How long (milliseconds) the conditions must hold before the doors
    /// open.
    pub floor_timer_duration_ms: u64,
}

/// The floor currently being tracked and the dwell progress against it.
#[derive(Clone, Copy, Debug, Eq, PartialEq, Structural)]
pub struct FloorProximity {
    pub floor_num: i32,
    pub time_in_proximity: SimTimer,
}

pub open spec fn close_enough(sensor: FloorProximitySensor, lift_y: int, floor_y: int) -> bool {
    dist(lift_y, floor_y) < sensor.abs_distance_threshold
}

pub open spec fn slow_enough(sensor: FloorProximitySensor, velocity: int) -> bool {
    dist(velocity, 0) < sensor.max_velocity
}

/// One transition of the docking state machine: the new tracked proximity,
/// the new lift mode, and whether this tick completed the dwell (the one-shot
/// transfer trigger). `None` for the mode means the tick leaves it untouched,
/// which happens only on the tick that first attaches a proximity.
pub open spec fn spec_proximity_step(
    prox: Option<FloorProximity>,
    closest: Option<(i32, i64)>,
    sensor: FloorProximitySensor,
    lift_y: int,
    velocity: int,
    delta_ms: u64,
) -> (Option<FloorProximity>, Option<LiftMode>, bool) {
    match closest {
        None => (prox, Some(LiftMode::Free), false),
        Some(cf) => match prox {
            None => (
                Some(
                    FloorProximity {
                        floor_num: cf.0,
                        time_in_proximity: SimTimer {
                            elapsed_ms: 0,
                            duration_ms: sensor.floor_timer_duration_ms,
                        },
                    },
                ),
                None,
                false,
            ),
            Some(p) => {
                if p.floor_num == cf.0 && close_enough(sensor, lift_y, cf.1 as int) && slow_enough(
                    sensor,
                    velocity,
                ) {
                    let dur = p.time_in_proximity.duration_ms;
                    let ticked = if p.time_in_proximity.elapsed_ms + delta_ms >= dur {
                        dur as int
                    } else {
                        p.time_in_proximity.elapsed_ms + delta_ms
                    };
                    (
                        Some(
                            FloorProximity {
                                floor_num: p.floor_num,
                                time_in_proximity: SimTimer {
                                    elapsed_ms: ticked as u64,
                                    duration_ms: dur,
                                },
                            },
                        ),
                        Some(if ticked >= dur { LiftMode::Open } else { LiftMode::Opening }),
                        p.time_in_proximity.elapsed_ms < dur && ticked >= dur,
                    )
                } else {
                    (
                        Some(
                            FloorProximity {
                                floor_num: cf.0,
                                time_in_proximity: SimTimer {
                                    elapsed_ms: 0,
                                    duration_ms: p.time_in_proximity.duration_ms,
                                },
                            },
                        ),
                        Some(LiftMode::Free),
                        false,
                    )
                }
            },
        },
    }
}

/// One tick of the docking detector, exactly the transition
/// `spec_proximity_step` describes. Returns true on the single tick whose
/// dwell completion should trigger the floor transfer.
pub fn floor_proximity_step(
    proximity: &mut Option<FloorProximity>,
    lift_mode: &mut LiftMode,
    floors: &Floors,
    sensor: &FloorProximitySensor,
    lift_y: i64,
    velocity: i64,
    delta_ms: u64,
) -> (transfer: bool)
    requires
        floors.wf(),
        -MAX_POS <= lift_y <= MAX_POS,
        -MAX_VEL <= velocity <= MAX_VEL,
        (*old(proximity)) is Some ==> (*old(proximity))->Some_0.time_in_proximity.wf(),
    ensures
        ({
            let (p2, m2, t2) = spec_proximity_step(
                *old(proximity),
                spec_closest(floors.floor_y_positions@, lift_y as int),
                *sensor,
                lift_y as int,
                velocity as int,
                delta_ms,
            );
            &&& *final(proximity) == p2
            &&& *final(lift_mode) == (match m2 {
                Some(m) => m,
                None => *old(lift_mode),
            })
            &&& transfer == t2
        }),
        (*final(proximity)) is Some ==> (*final(proximity))->Some_0.time_in_proximity.wf(),
{
    match floors.closest_floor(lift_y) {
        Some(cf) => {
            let closest_floor = cf.0;
            let closest_floor_y = cf.1;
            match proximity {
                Some(floor_proximity) => {
                    let d = if lift_y >= closest_floor_y {
                        lift_y - closest_floor_y
                    } else {
                        closest_floor_y - lift_y
                    };
                    let close = d < sensor.abs_distance_threshold;
                    let v_mag = if velocity >= 0 {
                        velocity
                    } else {
                        -velocity
                    };
                    let slow = v_mag < sensor.max_velocity;
                    let same_floor = floor_proximity.floor_num == closest_floor;
                    if same_floor && close && slow {
                        let crossed = floor_proximity.time_in_proximity.tick(delta_ms);
                        *lift_mode = if floor_proximity.time_in_proximity.finished() {
                            LiftMode::Open
                        } else {
                            LiftMode::Opening
                        };
                        crossed
                    } else {
                        floor_proximity.floor_num = closest_floor;
                        floor_proximity.time_in_proximity.reset();
                        *lift_mode = LiftMode::Free;
                        false
                    }
                },
                None => {
                    *proximity = Some(
                        FloorProximity {
                            floor_num: closest_floor,
                            time_in_proximity: SimTimer::new(sensor.floor_timer_duration_ms),
                        },
                    );
                    false
                },
            }
        },
        None => {
            *lift_mode = LiftMode::Free;
            false
        },
    }
}

/// Total of a run of tick durations.
pub open spec fn sum_ms(deltas: Seq<u64>) -> int
    decreases deltas.len(),
{
    if deltas.len() == 0 {
        0
    } else {
        deltas.first() + sum_ms(deltas.drop_first())
    }
}

proof fn lemma_sum_ms_nonneg(deltas: Seq<u64>)
    ensures
        sum_ms(deltas) >= 0,
    decreases deltas.len(),
{
    if deltas.len() > 0 {
        lemma_sum_ms_nonneg(deltas.drop_first());
    }
}

/// Run the docking state machine over a sequence of ticks against a fixed
/// closest floor and fixed conditions; the third component counts the ticks
/// that triggered a transfer.
pub open spec fn spec_dwell_run(
    prox: Option<FloorProximity>,
    mode: LiftMode,
    closest: Option<(i32, i64)>,
    sensor: FloorProximitySensor,
    lift_y: int,
    velocity: int,
    deltas: Seq<u64>,
) -> (Option<FloorProximity>, LiftMode, int)
    decreases deltas.len(),
{
    if deltas.len() == 0 {
        (prox, mode, 0)
    } else {
        let (p1, m1, t1) = spec_proximity_step(
            prox,
            closest,
            sensor,
            lift_y,
            velocity,
            deltas.first(),
        );
        let mode1 = match m1 {
            Some(m) => m,
            None => mode,
        };
        let (p2, m2, c) = spec_dwell_run(
            p1,
            mode1,
            closest,
            sensor,
            lift_y,
            velocity,
            deltas.drop_first(),
        );
        (p2, m2, c + if t1 { 1int } else { 0int })
    }
}

proof fn lemma_dwell_run_from_armed(
    p: FloorProximity,
    mode: LiftMode,
    cf: (i32, i64),
    sensor: FloorProximitySensor,
    lift_y: int,
    velocity: int,
    deltas: Seq<u64>,
)
    requires
        p.floor_num == cf.0,
        close_enough(sensor, lift_y, cf.1 as int),
        slow_enough(sensor, velocity),
        p.time_in_proximity.wf(),
        p.time_in_proximity.duration_ms >= 1,
    ensures
        ({
            let (p2, m2, c) = spec_dwell_run(
                Some(p),
                mode,
                Some(cf),
                sensor,
                lift_y,
                velocity,
                deltas,
            );
            let dur = p.time_in_proximity.duration_ms as int;
            let e0 = p.time_in_proximity.elapsed_ms as int;
            let e2 = if e0 + sum_ms(deltas) >= dur {
                dur
            } else {
                e0 + sum_ms(deltas)
            };
            &&& p2 is Some
            &&& p2->Some_0.floor_num == cf.0
            &&& p2->Some_0.time_in_proximity.duration_ms == dur
            &&& p2->Some_0.time_in_proximity.elapsed_ms == e2
            &&& c == if e0 < dur && e0 + sum_ms(deltas) >= dur {
                1int
            } else {
                0int
            }
            &&& m2 == if deltas.len() == 0 {
                mode
            } else if e2 >= dur {
                LiftMode::Open
            } else {
                LiftMode::Opening
            }
        }),
    decreases deltas.len(),
{
    if deltas.len() == 0 {
    } else {
        let d0 = deltas.first();
        let dur = p.time_in_proximity.duration_ms;
        let e0 = p.time_in_proximity.elapsed_ms;
        let e1: int = if e0 + d0 >= dur {
            dur as int
        } else {
            e0 + d0
        };
        let p1 = FloorProximity {
            floor_num: p.floor_num,
            time_in_proximity: SimTimer { elapsed_ms: e1 as u64, duration_ms: dur },
        };
        lemma_dwell_run_from_armed(p1, (if e1 >= dur {
            LiftMode::Open
        } else {
            LiftMode::Opening
        }), cf, sensor, lift_y, velocity, deltas.drop_first());
        lemma_sum_ms_nonneg(deltas.drop_first());
    }
}

/// Dwell law: starting untracked, if the lift stays close to and slow
/// against one fixed closest floor across a run of ticks whose total
/// duration (after the arming tick) reaches the dwell duration, the doors
/// end the run open and exactly one transfer fires during it.
pub proof fn lemma_dwell_completes(
    mode0: LiftMode,
    cf: (i32, i64),
    sensor: FloorProximitySensor,
    lift_y: int,
    velocity: int,
    deltas: Seq<u64>,
)
    requires
        close_enough(sensor, lift_y, cf.1 as int),
        slow_enough(sensor, velocity),
        sensor.floor_timer_duration_ms >= 1,
        deltas.len() >= 1,
        sum_ms(deltas.drop_first()) >= sensor.floor_timer_duration_ms,
    ensures
        ({
            let (p2, m2, c) = spec_dwell_run(
                None,
                mode0,
                Some(cf),
                sensor,
                lift_y,
                velocity,
                deltas,
            );
            &&& m2 == LiftMode::Open
            &&& c == 1
            &&& p2 is Some
            &&& p2->Some_0.floor_num == cf.0
            &&& p2->Some_0.time_in_proximity.spec_finished()
        }),
{
    let fresh = FloorProximity {
        floor_num: cf.0,
        time_in_proximity: SimTimer {
            elapsed_ms: 0,
            duration_ms: sensor.floor_timer_duration_ms,
        },
    };
    lemma_dwell_run_from_armed(
        fresh,
        mode0,
        cf,
        sensor,
        lift_y,
        velocity,
        deltas.drop_first(),
    );
    if deltas.drop_first().len() == 0 {
        assert(sum_ms(deltas.drop_first()) == 0);
        assert(false);
    }
}

} // verus!
