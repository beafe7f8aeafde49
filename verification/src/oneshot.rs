//! Offline batch mode for the spawn engine: run the spawn simulation to the
//! end of one simulated day at a fixed tick size and collect every spawn
//! event with the elapsed second it happened at. The caller writes the
//! records out.

use vstd::prelude::*;
use crate::floor_config::HourOfDay;
use crate::floors::FloorNum;
use crate::game_clock::GameTime;
use crate::rng::SimRng;
use crate::spawn_manager::FloorSpawnManager;

verus! {

/// One spawn event of the day run: the elapsed whole seconds when it fired,
/// the origin floor and the destination floor.
#[derive(Clone, Copy, Debug, PartialEq, Eq, Structural)]
pub struct SpawnRecord {
    pub elapsed_secs: u64,
    pub origin: FloorNum,
    pub destination: FloorNum,
}

/// The record's (origin, destination) pair is one the spawn engine over the
/// given floor configurations can emit at some hour of the day.
pub open spec fn record_pair_possible(
    floors: Seq<(FloorNum, crate::floor_config::RawFloorConfig)>,
    rec: SpawnRecord,
) -> bool {
    exists|h: int|
        0 <= h < 24 && #[trigger] FloorSpawnManager::spec_spawn_pair_ok_for(
            floors,
            HourOfDay(h as u8),
            (rec.origin, rec.destination),
        )
}

/// Run the spawn engine tick by tick until the clock completes its day,
/// recording every spawn with the elapsed seconds at the start of its tick.
/// Records carry non-decreasing timestamps within the day.
pub fn run_spawn_day(
    manager: &mut FloorSpawnManager,
    game_clock: &mut GameTime,
    tick_ms: u64,
    rng: &mut SimRng,
) -> (records: Vec<SpawnRecord>)
    requires
        old(manager).wf(),
        old(game_clock).wf(),
        old(game_clock).spec_elapsed_ms() == 0,
        1 <= tick_ms <= old(game_clock).spec_day_ms(),
    ensures
        final(manager).wf(),
        final(game_clock).wf(),
        final(game_clock).spec_elapsed_ms() == final(game_clock).spec_day_ms(),
        final(manager).raw_floors@ == old(manager).raw_floors@,
        forall|k: int|
            0 <= k < records@.len() ==> record_pair_possible(
                old(manager).raw_floors@,
                #[trigger] records@[k],
            ),
        forall|k: int|
            0 <= k < records@.len() ==> (#[trigger] records@[k]).elapsed_secs <= old(
                game_clock,
            ).spec_day_ms() / 1000,
        forall|k1: int, k2: int|
            0 <= k1 <= k2 < records@.len() ==> (#[trigger] records@[k1]).elapsed_secs <= (
            #[trigger] records@[k2]).elapsed_secs,
        (forall|h: int|
            0 <= h < 24 ==> #[trigger] FloorSpawnManager::spec_always_spawns(
                old(manager).raw_floors@,
                HourOfDay(h as u8),
                tick_ms,
                old(game_clock).spec_day_ms(),
            )) ==> records@.len() * tick_ms >= old(game_clock).spec_day_ms(),
{
    let mut records: Vec<SpawnRecord> = Vec::new();
    loop
        invariant_except_break
            game_clock.spec_elapsed_ms() < game_clock.spec_day_ms(),
        invariant
            manager.wf(),
            game_clock.wf(),
            game_clock.config == old(game_clock).config,
            manager.raw_floors@ == old(manager).raw_floors@,
            1 <= tick_ms <= game_clock.spec_day_ms(),
            game_clock.spec_elapsed_ms() <= game_clock.spec_day_ms(),
            forall|k: int|
                0 <= k < records@.len() ==> record_pair_possible(
                    old(manager).raw_floors@,
                    #[trigger] records@[k],
                ),
            forall|k: int|
                0 <= k < records@.len() ==> (#[trigger] records@[k]).elapsed_secs
                    <= game_clock.spec_elapsed_ms() / 1000,
            forall|k1: int, k2: int|
                0 <= k1 <= k2 < records@.len() ==> (#[trigger] records@[k1]).elapsed_secs <= (
                #[trigger] records@[k2]).elapsed_secs,
            game_clock.spec_day_ms() == old(game_clock).spec_day_ms(),
            (forall|h: int|
                0 <= h < 24 ==> #[trigger] FloorSpawnManager::spec_always_spawns(
                    old(manager).raw_floors@,
                    HourOfDay(h as u8),
                    tick_ms,
                    old(game_clock).spec_day_ms(),
                )) ==> records@.len() * tick_ms >= game_clock.spec_elapsed_ms(),
        ensures
            game_clock.spec_elapsed_ms() == game_clock.spec_day_ms(),
            game_clock.config == old(game_clock).config,
            manager.wf(),
            game_clock.wf(),
            manager.raw_floors@ == old(manager).raw_floors@,
            forall|k: int|
                0 <= k < records@.len() ==> record_pair_possible(
                    old(manager).raw_floors@,
                    #[trigger] records@[k],
                ),
            forall|k: int|
                0 <= k < records@.len() ==> (#[trigger] records@[k]).elapsed_secs
                    <= game_clock.spec_day_ms() / 1000,
            forall|k1: int, k2: int|
                0 <= k1 <= k2 < records@.len() ==> (#[trigger] records@[k1]).elapsed_secs <= (
                #[trigger] records@[k2]).elapsed_secs,
            (forall|h: int|
                0 <= h < 24 ==> #[trigger] FloorSpawnManager::spec_always_spawns(
                    old(manager).raw_floors@,
                    HourOfDay(h as u8),
                    tick_ms,
                    old(game_clock).spec_day_ms(),
                )) ==> records@.len() * tick_ms >= game_clock.spec_day_ms(),
        decreases game_clock.spec_day_ms() - game_clock.spec_elapsed_ms(),
    {
        let elapsed_secs = game_clock.elapsed_ms() / 1000;
        proof {
            assert(game_clock.spec_elapsed_ms() / 1000 <= game_clock.spec_day_ms() / 1000)
                by (nonlinear_arith)
                requires
                    0 <= game_clock.spec_elapsed_ms() <= game_clock.spec_day_ms(),
            ;
        }
        let ghost raw_pre = manager.raw_floors@;
        let spawns = manager.tick(game_clock, tick_ms, rng);
        let ghost hcur = manager.floor_spawn_rates.resolved_for_hour;
        let ghost r0 = records@.len();
        let mut j: usize = 0;
        while j < spawns.len()
            invariant
                j <= spawns@.len(),
                records@.len() == r0 + j,
                hcur.0 < 24,
                forall|k2: int|
                    0 <= k2 < spawns@.len() ==> FloorSpawnManager::spec_spawn_pair_ok_for(
                        old(manager).raw_floors@,
                        hcur,
                        #[trigger] spawns@[k2],
                    ),
                forall|k: int|
                    0 <= k < records@.len() ==> record_pair_possible(
                        old(manager).raw_floors@,
                        #[trigger] records@[k],
                    ),
                forall|k: int|
                    0 <= k < records@.len() ==> (#[trigger] records@[k]).elapsed_secs
                        <= elapsed_secs,
                forall|k1: int, k2: int|
                    0 <= k1 <= k2 < records@.len() ==> (#[trigger] records@[k1]).elapsed_secs <= (
                    #[trigger] records@[k2]).elapsed_secs,
            decreases spawns@.len() - j,
        {
            let s = spawns[j];
            records.push(SpawnRecord { elapsed_secs, origin: s.0, destination: s.1 });
            proof {
                let h = hcur.0 as int;
                let rec = SpawnRecord { elapsed_secs, origin: s.0, destination: s.1 };
                assert(HourOfDay(h as u8) == hcur);
                assert(rec.origin == s.0 && rec.destination == s.1);
                assert(FloorSpawnManager::spec_spawn_pair_ok_for(
                    old(manager).raw_floors@,
                    HourOfDay(h as u8),
                    (rec.origin, rec.destination),
                ));
                assert(record_pair_possible(old(manager).raw_floors@, rec));
            }
            j = j + 1;
        }
        let ghost pre_elapsed = game_clock.spec_elapsed_ms();
        let done = game_clock.tick(tick_ms);
        proof {
            assert(game_clock.spec_elapsed_ms() / 1000 >= pre_elapsed / 1000
                && game_clock.spec_elapsed_ms() / 1000 <= game_clock.spec_day_ms() / 1000)
                by (nonlinear_arith)
                requires
                    0 <= pre_elapsed <= game_clock.spec_elapsed_ms() <= game_clock.spec_day_ms(),
            ;
            if forall|h: int|
                0 <= h < 24 ==> #[trigger] FloorSpawnManager::spec_always_spawns(
                    old(manager).raw_floors@,
                    HourOfDay(h as u8),
                    tick_ms,
                    old(game_clock).spec_day_ms(),
                ) {
                let h = hcur.0 as int;
                assert(HourOfDay(h as u8) == hcur);
                assert(FloorSpawnManager::spec_always_spawns(
                    raw_pre,
                    hcur,
                    tick_ms,
                    old(game_clock).spec_day_ms(),
                ));
                assert(spawns@.len() >= 1);
                assert(records@.len() >= r0 + 1);
                assert(records@.len() * tick_ms >= game_clock.spec_elapsed_ms())
                    by (nonlinear_arith)
                    requires
                        records@.len() >= r0 + 1,
                        r0 * tick_ms >= pre_elapsed,
                        game_clock.spec_elapsed_ms() <= pre_elapsed + tick_ms,
                        tick_ms >= 0,
                        r0 >= 0,
                ;
            }
        }
        if done {
            break ;
        }
    }
    records
}

} // verus!
