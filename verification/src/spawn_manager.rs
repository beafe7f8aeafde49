//! Owns every floor's raw configuration and the current per-hour rate
//! snapshot; re-resolves the snapshot exactly when the clock's hour of day
//! moves away from the hour the snapshot was built for.

use vstd::prelude::*;
use crate::floors::FloorNum;
use crate::floor_config::{HourOfDay, RawFloorConfig, ResolvedFloorConfig};
use crate::game_clock::{GameTime, MAX_TIME_PER_DAY_MS};
use crate::rng::SimRng;
use crate::spawn_rates::{
    distinct_floor_nums, spec_chance_saturated, spec_dest_weight, spec_rates_list, sinks_of,
    sort_desc, FloorSpawnRates, MAX_FLOORS,
};

verus! {

/// Every floor configuration resolved at one hour, in input order.
pub open spec fn spec_resolve_all(
    floors: Seq<(FloorNum, RawFloorConfig)>,
    hour: HourOfDay,
) -> Seq<ResolvedFloorConfig> {
    Seq::new(
        floors.len(),
        |i: int|
            ResolvedFloorConfig {
                sink_or_source: floors[i].1.sink_or_source@[hour.0 as int],
                strength: floors[i].1.strength@[hour.0 as int],
                floor_num: floors[i].0,
            },
    )
}

/// Resolve every owned floor configuration at the given hour.
fn resolve_all(floors: &Vec<(FloorNum, RawFloorConfig)>, time_range: HourOfDay) -> (r: Vec<
    ResolvedFloorConfig,
>)
    requires
        forall|i: int| 0 <= i < floors@.len() ==> (#[trigger] floors@[i]).1.wf(),
        time_range.0 < 24,
    ensures
        r@ == spec_resolve_all(floors@, time_range),
{
    let n = floors.len();
    let mut out: Vec<ResolvedFloorConfig> = Vec::new();
    let mut i: usize = 0;
    while i < n
        invariant
            n == floors@.len(),
            i <= n,
            time_range.0 < 24,
            forall|k: int| 0 <= k < floors@.len() ==> (#[trigger] floors@[k]).1.wf(),
            out@.len() == i,
            forall|k: int|
                0 <= k < i ==> #[trigger] out@[k] == spec_resolve_all(floors@, time_range)[k],
        decreases n - i,
    {
        let entry = &floors[i];
        out.push(entry.1.resolve(time_range, entry.0));
        i = i + 1;
    }
    proof {
        assert(out@ =~= spec_resolve_all(floors@, time_range));
    }
    out
}

/// The spawn engine: raw per-floor configurations plus the rate snapshot for
/// the hour most recently seen.
pub struct FloorSpawnManager {
    pub floor_spawn_rates: FloorSpawnRates,
    pub raw_floors: Vec<(FloorNum, RawFloorConfig)>,
}

impl FloorSpawnManager {
    /// The rate snapshot the manager holds when it was last resolved at
    /// `hour` over `floors`.
    pub open spec fn rates_match(rates: FloorSpawnRates, floors: Seq<(FloorNum, RawFloorConfig)>,
        hour: HourOfDay) -> bool {
        &&& rates.resolved_for_hour == hour
        &&& rates.sinks.0@ == sort_desc(sinks_of(spec_resolve_all(floors, hour)))
        &&& rates.floors_with_rates@ == spec_rates_list(spec_resolve_all(floors, hour))
    }

    /// The configurations form a mapping (each floor number once), every
    /// configuration is well-formed, the rate snapshot is well-formed, and
    /// the snapshot really is the one the owned configurations resolve to at
    /// its hour.
    pub open spec fn wf(self) -> bool {
        &&& self.raw_floors@.len() <= MAX_FLOORS
        &&& forall|i: int| 0 <= i < self.raw_floors@.len() ==> (#[trigger] self.raw_floors@[i]).1.wf()
        &&& forall|i: int, j: int|
            0 <= i < j < self.raw_floors@.len() ==> (#[trigger] self.raw_floors@[i]).0 != (
            #[trigger] self.raw_floors@[j]).0
        &&& self.floor_spawn_rates.wf()
        &&& Self::rates_match(
            self.floor_spawn_rates,
            self.raw_floors@,
            self.floor_spawn_rates.resolved_for_hour,
        )
    }

    /// A pair the spawn engine over `floors` can emit at `hour`: the origin
    /// carries a positive rate there, and the destination is a sink that
    /// carried positive weight for that origin.
    pub open spec fn spec_spawn_pair_ok_for(
        floors: Seq<(FloorNum, RawFloorConfig)>,
        hour: HourOfDay,
        pair: (FloorNum, FloorNum),
    ) -> bool {
        let resolved = spec_resolve_all(floors, hour);
        let rates = spec_rates_list(resolved);
        let sinks = sort_desc(sinks_of(resolved));
        &&& exists|i: int|
            0 <= i < rates.len() && (#[trigger] rates[i]).0 == pair.0 && rates[i].1.num > 0
        &&& exists|i: int|
            0 <= i < sinks.len() && (#[trigger] sinks[i]).floor_num == pair.1 && spec_dest_weight(
                sinks[i],
                pair.0,
            ) > 0
    }

    /// At `hour`, some configured floor's spawn chance saturates for a tick
    /// of `delta_ms` (every roll fires) and some sink carries positive
    /// weight for it: a tick at that hour is guaranteed to emit a spawn.
    pub open spec fn spec_always_spawns(
        floors: Seq<(FloorNum, RawFloorConfig)>,
        hour: HourOfDay,
        delta_ms: u64,
        day_ms: u64,
    ) -> bool {
        let resolved = spec_resolve_all(floors, hour);
        let rates = spec_rates_list(resolved);
        let sinks = sort_desc(sinks_of(resolved));
        exists|i: int|
            0 <= i < rates.len() && spec_chance_saturated((#[trigger] rates[i]).1, delta_ms, day_ms)
                && (exists|t: int|
                0 <= t < sinks.len() && spec_dest_weight(#[trigger] sinks[t], rates[i].0) > 0)
    }

    /// Start the engine with the rates resolved for the first hour of the
    /// day.
    pub fn new(raw_floors: Vec<(FloorNum, RawFloorConfig)>) -> (r: FloorSpawnManager)
        requires
            raw_floors@.len() <= MAX_FLOORS,
            forall|i: int| 0 <= i < raw_floors@.len() ==> (#[trigger] raw_floors@[i]).1.wf(),
            forall|i: int, j: int|
                0 <= i < j < raw_floors@.len() ==> (#[trigger] raw_floors@[i]).0 != (
                #[trigger] raw_floors@[j]).0,
        ensures
            r.wf(),
            r.raw_floors@ == raw_floors@,
            Self::rates_match(r.floor_spawn_rates, raw_floors@, HourOfDay(0)),
    {
        let hour = HourOfDay(0);
        let resolved = resolve_all(&raw_floors, hour);
        proof {
            assert(distinct_floor_nums(resolved@));
        }
        let floor_spawn_rates = FloorSpawnRates::get_rates(resolved, hour);
        FloorSpawnManager { floor_spawn_rates, raw_floors }
    }

    /// Advance one tick: re-resolve the rates if the clock's hour differs
    /// from the snapshot's hour (at most once per call), then roll spawns
    /// against the current rates.
    pub fn tick(&mut self, game_time: &GameTime, delta_ms: u64, rng: &mut SimRng) -> (spawns: Vec<
        (FloorNum, FloorNum),
    >)
        requires
            old(self).wf(),
            game_time.wf(),
            game_time.spec_elapsed_ms() < game_time.spec_day_ms(),
            delta_ms <= MAX_TIME_PER_DAY_MS,
        ensures
            final(self).wf(),
            final(self).raw_floors@ == old(self).raw_floors@,
            final(self).floor_spawn_rates.resolved_for_hour.0 == game_time.spec_hour(),
            old(self).floor_spawn_rates.resolved_for_hour.0 == game_time.spec_hour()
                ==> final(self).floor_spawn_rates == old(self).floor_spawn_rates,
            old(self).floor_spawn_rates.resolved_for_hour.0 != game_time.spec_hour()
                ==> Self::rates_match(
                final(self).floor_spawn_rates,
                old(self).raw_floors@,
                HourOfDay(game_time.spec_hour() as u8),
            ),
            spawns@.len() <= final(self).floor_spawn_rates.floors_with_rates@.len(),
            forall|k: int|
                0 <= k < spawns@.len() ==> final(self).floor_spawn_rates.spawn_pair_ok(
                    #[trigger] spawns@[k],
                ),
            forall|k1: int, k2: int|
                0 <= k1 < k2 < spawns@.len() ==> (#[trigger] spawns@[k1]).0 != (
                #[trigger] spawns@[k2]).0,
            forall|k: int|
                0 <= k < spawns@.len() ==> Self::spec_spawn_pair_ok_for(
                    old(self).raw_floors@,
                    final(self).floor_spawn_rates.resolved_for_hour,
                    #[trigger] spawns@[k],
                ),
            forall|i: int|
                0 <= i < final(self).floor_spawn_rates.floors_with_rates@.len()
                    && spec_chance_saturated(
                    (#[trigger] final(self).floor_spawn_rates.floors_with_rates@[i]).1,
                    delta_ms,
                    game_time.spec_day_ms(),
                ) && (exists|t: int|
                    0 <= t < final(self).floor_spawn_rates.sinks.0@.len() && spec_dest_weight(
                        #[trigger] final(self).floor_spawn_rates.sinks.0@[t],
                        final(self).floor_spawn_rates.floors_with_rates@[i].0,
                    ) > 0) ==> exists|k: int|
                    0 <= k < spawns@.len() && (#[trigger] spawns@[k]).0
                        == final(self).floor_spawn_rates.floors_with_rates@[i].0,
            Self::spec_always_spawns(
                old(self).raw_floors@,
                final(self).floor_spawn_rates.resolved_for_hour,
                delta_ms,
                game_time.spec_day_ms(),
            ) ==> spawns@.len() >= 1,
    {
        let tod = game_time.to_game_time_of_day();
        let hour = HourOfDay::of_time_ofday(&tod);
        if !(hour == self.floor_spawn_rates.resolved_for_hour) {
            let resolved = resolve_all(&self.raw_floors, hour);
            self.floor_spawn_rates = FloorSpawnRates::get_rates(resolved, hour);
        }
        let spawns = self.floor_spawn_rates.tick(game_time, delta_ms, rng);
        proof {
            let resolved_hour = self.floor_spawn_rates.resolved_for_hour;
            let resolved = spec_resolve_all(old(self).raw_floors@, resolved_hour);
            assert(self.floor_spawn_rates.floors_with_rates@ == spec_rates_list(resolved));
            assert(self.floor_spawn_rates.sinks.0@ == sort_desc(sinks_of(resolved)));
            assert forall|k: int| 0 <= k < spawns@.len() implies Self::spec_spawn_pair_ok_for(
                old(self).raw_floors@,
                resolved_hour,
                #[trigger] spawns@[k],
            ) by {
                assert(self.floor_spawn_rates.spawn_pair_ok(spawns@[k]));
            }
            if Self::spec_always_spawns(
                old(self).raw_floors@,
                resolved_hour,
                delta_ms,
                game_time.spec_day_ms(),
            ) {
                let i = choose|i: int|
                    0 <= i < spec_rates_list(resolved).len() && spec_chance_saturated(
                        (#[trigger] spec_rates_list(resolved)[i]).1,
                        delta_ms,
                        game_time.spec_day_ms(),
                    ) && (exists|t: int|
                        0 <= t < sort_desc(sinks_of(resolved)).len() && spec_dest_weight(
                            #[trigger] sort_desc(sinks_of(resolved))[t],
                            spec_rates_list(resolved)[i].0,
                        ) > 0);
                assert(spec_chance_saturated(
                    self.floor_spawn_rates.floors_with_rates@[i].1,
                    delta_ms,
                    game_time.spec_day_ms(),
                ));
                let t = choose|t: int|
                    0 <= t < sort_desc(sinks_of(resolved)).len() && spec_dest_weight(
                        #[trigger] sort_desc(sinks_of(resolved))[t],
                        spec_rates_list(resolved)[i].0,
                    ) > 0;
                assert(spec_dest_weight(
                    self.floor_spawn_rates.sinks.0@[t],
                    self.floor_spawn_rates.floors_with_rates@[i].0,
                ) > 0);
            }
        }
        spawns
    }
}

} // verus!
