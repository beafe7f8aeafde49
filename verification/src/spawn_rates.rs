//! Per-hour spawn rates: partition the resolved floor configurations into
//! sinks and sources, give each source an exact rational rate (strength per
//! simulated hour divided by the number of sinks), and roll weighted
//! stochastic spawns against those rates each tick.

use vstd::prelude::*;
use vstd::seq_lib::lemma_multiset_commutative;
use vstd::multiset::Multiset;
use crate::floors::FloorNum;
use crate::floor_config::{HourOfDay, ResolvedFloorConfig, SinkOrSource, MAX_STRENGTH};
use crate::game_clock::{GameTime, MAX_TIME_PER_DAY_MS};
use crate::rng::SimRng;

verus! {

/// Upper bound on how many floors one building can configure; keeps the
/// weight sums and chance comparisons within integer range.
pub const MAX_FLOORS: usize = 1_000_000;

/// Granularity of one stochastic roll: rolls are drawn uniformly below this.
pub const ROLL_SPACE: u64 = 4_294_967_296;

/// Expected passengers per simulated hour for one source floor, as the exact
/// rational `num / den`.
#[derive(Clone, Copy, Debug, Eq, PartialEq, Structural)]
pub struct SpawnRate {
    pub num: u64,
    pub den: u64,
}

/// The sink floors of the resolved hour, sorted descending by strength.
#[derive(Clone, Debug)]
pub struct Sinks(pub Vec<ResolvedFloorConfig>);

/// The spawn-rate snapshot for one resolved hour.
#[derive(Clone, Debug)]
pub struct FloorSpawnRates {
    pub floors_with_rates: Vec<(FloorNum, SpawnRate)>,
    pub sinks: Sinks,
    pub resolved_for_hour: HourOfDay,
}

/// The sink-tagged configurations, in input order.
pub open spec fn sinks_of(floors: Seq<ResolvedFloorConfig>) -> Seq<ResolvedFloorConfig>
    decreases floors.len(),
{
    if floors.len() == 0 {
        Seq::empty()
    } else {
        let rest = sinks_of(floors.drop_last());
        if floors.last().sink_or_source == SinkOrSource::Sink {
            rest.push(floors.last())
        } else {
            rest
        }
    }
}

/// The source-tagged configurations, in input order.
pub open spec fn sources_of(floors: Seq<ResolvedFloorConfig>) -> Seq<ResolvedFloorConfig>
    decreases floors.len(),
{
    if floors.len() == 0 {
        Seq::empty()
    } else {
        let rest = sources_of(floors.drop_last());
        if floors.last().sink_or_source == SinkOrSource::Source {
            rest.push(floors.last())
        } else {
            rest
        }
    }
}

/// Strengths never increase along the sequence.
pub open spec fn sorted_desc(s: Seq<ResolvedFloorConfig>) -> bool {
    forall|i: int, j: int|
        0 <= i < j < s.len() ==> (#[trigger] s[i]).strength >= (#[trigger] s[j]).strength
}

/// Insert `x` behind every element at least as strong: the insertion step of
/// a stable descending sort.
pub open spec fn insert_desc(s: Seq<ResolvedFloorConfig>, x: ResolvedFloorConfig) -> Seq<
    ResolvedFloorConfig,
>
    decreases s.len(),
{
    if s.len() == 0 {
        seq![x]
    } else if s[0].strength >= x.strength {
        seq![s[0]] + insert_desc(s.drop_first(), x)
    } else {
        seq![x] + s
    }
}

/// Stable descending sort by strength: equal strengths keep their input
/// order.
pub open spec fn sort_desc(s: Seq<ResolvedFloorConfig>) -> Seq<ResolvedFloorConfig>
    decreases s.len(),
{
    if s.len() == 0 {
        Seq::empty()
    } else {
        insert_desc(sort_desc(s.drop_last()), s.last())
    }
}

/// The rate a source of the given strength receives when `n_sinks` sinks are
/// resolved; with no sinks the rate is forced to zero rather than dividing by
/// zero.
pub open spec fn spec_source_rate(strength: usize, n_sinks: nat) -> SpawnRate {
    if n_sinks == 0 {
        SpawnRate { num: 0, den: 1 }
    } else {
        SpawnRate { num: strength as u64, den: n_sinks as u64 }
    }
}

/// The full rate list for one resolved hour: the sorted sinks at rate zero,
/// then every source at its own rate.
pub open spec fn spec_rates_list(floors: Seq<ResolvedFloorConfig>) -> Seq<(FloorNum, SpawnRate)> {
    sort_desc(sinks_of(floors)).map_values(
        |f: ResolvedFloorConfig| (f.floor_num, SpawnRate { num: 0, den: 1 }),
    ) + sources_of(floors).map_values(
        |f: ResolvedFloorConfig|
            (f.floor_num, spec_source_rate(f.strength, sinks_of(floors).len())),
    )
}

/// A roll drawn uniformly below `ROLL_SPACE` fires a spawn when it falls
/// under the rate scaled by the elapsed share of the simulated day:
/// `roll / ROLL_SPACE < (num / den) * (delta * 24 / day)`.
pub open spec fn spec_roll_hits(rate: SpawnRate, delta_ms: u64, day_ms: u64, roll: u64) -> bool {
    (roll as int) * (rate.den as int) * (day_ms as int) < (rate.num as int) * (delta_ms as int) * 24
        * (ROLL_SPACE as int)
}

/// The chance saturates for this tick: every roll the generator can draw
/// fires the spawn.
pub open spec fn spec_chance_saturated(rate: SpawnRate, delta_ms: u64, day_ms: u64) -> bool {
    ((ROLL_SPACE - 1) as int) * (rate.den as int) * (day_ms as int) < (rate.num as int) * (
    delta_ms as int) * 24 * (ROLL_SPACE as int)
}

/// The weight a sink gets when a source picks its destination: its strength
/// (doubled, to keep weights integral) unless the sink is the source's own or
/// an adjacent floor, which get the fixed half-strength-of-one weight.
pub open spec fn spec_dest_weight(sink: ResolvedFloorConfig, origin: FloorNum) -> int {
    if -1 <= sink.floor_num.0 - origin.0 <= 1 {
        1
    } else {
        2 * sink.strength
    }
}

/// Total of a weight list.
pub open spec fn sum_weights(s: Seq<u64>) -> int
    decreases s.len(),
{
    if s.len() == 0 {
        0
    } else {
        sum_weights(s.drop_last()) + s.last()
    }
}

/// No two entries carry the same floor number: the sequence is a mapping
/// keyed by floor.
pub open spec fn distinct_floor_nums(s: Seq<ResolvedFloorConfig>) -> bool {
    forall|i: int, j: int|
        0 <= i < j < s.len() ==> (#[trigger] s[i]).floor_num != (#[trigger] s[j]).floor_num
}

/// Partitioning a floor-keyed mapping keeps each side floor-keyed, and each
/// side's entries are entries of the input.
proof fn lemma_partition_keys(s: Seq<ResolvedFloorConfig>)
    requires
        distinct_floor_nums(s),
    ensures
        distinct_floor_nums(sinks_of(s)),
        distinct_floor_nums(sources_of(s)),
        forall|i: int|
            0 <= i < sinks_of(s).len() ==> exists|j: int|
                0 <= j < s.len() && #[trigger] sinks_of(s)[i] == s[j],
        forall|i: int|
            0 <= i < sources_of(s).len() ==> exists|j: int|
                0 <= j < s.len() && #[trigger] sources_of(s)[i] == s[j],
    decreases s.len(),
{
    if s.len() > 0 {
        let t = s.drop_last();
        let x = s.last();
        assert(distinct_floor_nums(t)) by {
            assert forall|i: int, j: int| 0 <= i < j < t.len() implies (#[trigger] t[i]).floor_num
                != (#[trigger] t[j]).floor_num by {
                assert(t[i] == s[i] && t[j] == s[j]);
            }
        }
        lemma_partition_keys(t);
        assert forall|i: int| 0 <= i < sinks_of(s).len() implies exists|j: int|
            0 <= j < s.len() && #[trigger] sinks_of(s)[i] == s[j] by {
            if i < sinks_of(t).len() {
                assert(sinks_of(s)[i] == sinks_of(t)[i]);
                let j = choose|j: int| 0 <= j < t.len() && sinks_of(t)[i] == t[j];
                assert(sinks_of(s)[i] == s[j]);
            } else {
                assert(sinks_of(s)[i] == x);
                assert(sinks_of(s)[i] == s[s.len() - 1]);
            }
        }
        assert forall|i: int| 0 <= i < sources_of(s).len() implies exists|j: int|
            0 <= j < s.len() && #[trigger] sources_of(s)[i] == s[j] by {
            if i < sources_of(t).len() {
                assert(sources_of(s)[i] == sources_of(t)[i]);
                let j = choose|j: int| 0 <= j < t.len() && sources_of(t)[i] == t[j];
                assert(sources_of(s)[i] == s[j]);
            } else {
                assert(sources_of(s)[i] == x);
                assert(sources_of(s)[i] == s[s.len() - 1]);
            }
        }
        assert forall|i: int, j: int| 0 <= i < j < sinks_of(s).len() implies (
        #[trigger] sinks_of(s)[i]).floor_num != (#[trigger] sinks_of(s)[j]).floor_num by {
            if j < sinks_of(t).len() {
                assert(sinks_of(s)[i] == sinks_of(t)[i] && sinks_of(s)[j] == sinks_of(t)[j]);
            } else {
                assert(sinks_of(s)[j] == x);
                assert(sinks_of(s)[i] == sinks_of(t)[i]);
                let ji = choose|ji: int| 0 <= ji < t.len() && sinks_of(t)[i] == t[ji];
                assert(s[ji] == t[ji]);
                assert(s[ji].floor_num != s[s.len() - 1].floor_num);
            }
        }
        assert forall|i: int, j: int| 0 <= i < j < sources_of(s).len() implies (
        #[trigger] sources_of(s)[i]).floor_num != (#[trigger] sources_of(s)[j]).floor_num by {
            if j < sources_of(t).len() {
                assert(sources_of(s)[i] == sources_of(t)[i]);
                assert(sources_of(s)[j] == sources_of(t)[j]);
            } else {
                assert(sources_of(s)[j] == x);
                assert(sources_of(s)[i] == sources_of(t)[i]);
                let ji = choose|ji: int| 0 <= ji < t.len() && sources_of(t)[i] == t[ji];
                assert(s[ji] == t[ji]);
                assert(s[ji].floor_num != s[s.len() - 1].floor_num);
            }
        }
    }
}

/// A permutation of a floor-keyed mapping is still floor-keyed.
proof fn lemma_permutation_keys_distinct(orig: Seq<ResolvedFloorConfig>, perm: Seq<
    ResolvedFloorConfig,
>)
    requires
        distinct_floor_nums(orig),
        perm.to_multiset() == orig.to_multiset(),
    ensures
        distinct_floor_nums(perm),
{
    orig.to_multiset_ensures();
    perm.to_multiset_ensures();
    assert forall|i: int, j: int| 0 <= i < j < perm.len() implies (#[trigger] perm[i]).floor_num
        != (#[trigger] perm[j]).floor_num by {
        if perm[i].floor_num == perm[j].floor_num {
            if perm[i] == perm[j] {
                let s0 = perm.subrange(0, j);
                let s1 = perm.subrange(j, perm.len() as int);
                assert(perm =~= s0 + s1);
                lemma_multiset_commutative(s0, s1);
                s0.to_multiset_ensures();
                s1.to_multiset_ensures();
                assert(s0[i] == perm[i]);
                assert(s0.contains(perm[i]));
                assert(s1[0] == perm[j]);
                assert(s1.contains(perm[j]));
                assert(perm.to_multiset().count(perm[i]) >= 2);
                assert(orig.no_duplicates()) by {
                    assert forall|a: int, b: int|
                        0 <= a < orig.len() && 0 <= b < orig.len() && a != b implies orig[a]
                        != orig[b] by {
                        if a < b {
                            assert(orig[a].floor_num != orig[b].floor_num);
                        } else {
                            assert(orig[b].floor_num != orig[a].floor_num);
                        }
                    }
                }
                orig.lemma_multiset_has_no_duplicates();
                assert(orig.to_multiset().contains(perm[i]));
                assert(false);
            } else {
                assert(perm.contains(perm[i]));
                assert(perm.contains(perm[j]));
                assert(orig.to_multiset().count(perm[i]) > 0);
                assert(orig.to_multiset().count(perm[j]) > 0);
                assert(orig.contains(perm[i]));
                assert(orig.contains(perm[j]));
                let a = choose|a: int| 0 <= a < orig.len() && orig[a] == perm[i];
                let b = choose|b: int| 0 <= b < orig.len() && orig[b] == perm[j];
                assert(a != b);
                if a < b {
                    assert(orig[a].floor_num != orig[b].floor_num);
                } else {
                    assert(orig[b].floor_num != orig[a].floor_num);
                }
                assert(false);
            }
        }
    }
}

proof fn lemma_sinks_sources_elements(floors: Seq<ResolvedFloorConfig>, bound: usize)
    requires
        forall|i: int| 0 <= i < floors.len() ==> (#[trigger] floors[i]).strength <= bound,
    ensures
        sinks_of(floors).len() <= floors.len(),
        sources_of(floors).len() <= floors.len(),
        forall|i: int|
            0 <= i < sinks_of(floors).len() ==> (#[trigger] sinks_of(floors)[i]).strength <= bound
                && sinks_of(floors)[i].sink_or_source == SinkOrSource::Sink,
        forall|i: int|
            0 <= i < sources_of(floors).len() ==> (#[trigger] sources_of(floors)[i]).strength
                <= bound && sources_of(floors)[i].sink_or_source == SinkOrSource::Source,
    decreases floors.len(),
{
    if floors.len() > 0 {
        lemma_sinks_sources_elements(floors.drop_last(), bound);
        assert(floors.last() == floors[floors.len() - 1]);
    }
}

/// Where the scan stopped is exactly where the stable insertion lands.
proof fn lemma_insert_desc_at(s: Seq<ResolvedFloorConfig>, x: ResolvedFloorConfig, p: int)
    requires
        0 <= p <= s.len(),
        forall|k: int| 0 <= k < p ==> (#[trigger] s[k]).strength >= x.strength,
        p < s.len() ==> s[p].strength < x.strength,
    ensures
        insert_desc(s, x) == s.take(p) + seq![x] + s.skip(p),
    decreases p,
{
    if p == 0 {
        if s.len() == 0 {
            assert(insert_desc(s, x) =~= s.take(0) + seq![x] + s.skip(0));
        } else {
            assert(s[0].strength < x.strength);
            assert(insert_desc(s, x) =~= s.take(0) + seq![x] + s.skip(0));
        }
    } else {
        assert(s[0].strength >= x.strength);
        let t = s.drop_first();
        lemma_insert_desc_at(t, x, p - 1);
        assert(insert_desc(s, x) == seq![s[0]] + (t.take(p - 1) + seq![x] + t.skip(p - 1)));
        assert(insert_desc(s, x) =~= s.take(p) + seq![x] + s.skip(p));
    }
}

/// Inserting into a position found by the scan keeps the sequence sorted and
/// only adds the one element.
proof fn lemma_sorted_insert_at(s: Seq<ResolvedFloorConfig>, x: ResolvedFloorConfig, p: int)
    requires
        sorted_desc(s),
        0 <= p <= s.len(),
        forall|k: int| 0 <= k < p ==> (#[trigger] s[k]).strength >= x.strength,
        p < s.len() ==> s[p].strength < x.strength,
    ensures
        sorted_desc(s.take(p) + seq![x] + s.skip(p)),
        (s.take(p) + seq![x] + s.skip(p)).to_multiset() == s.to_multiset().insert(x),
        (s.take(p) + seq![x] + s.skip(p)).len() == s.len() + 1,
{
    let r = s.take(p) + seq![x] + s.skip(p);
    assert forall|i: int, j: int| 0 <= i < j < r.len() implies (#[trigger] r[i]).strength
        >= (#[trigger] r[j]).strength by {
        if i < p {
            assert(r[i] == s[i]);
        } else if i == p {
            assert(r[i] == x);
        } else {
            assert(r[i] == s[i - 1]);
        }
        if j < p {
            assert(r[j] == s[j]);
        } else if j == p {
            assert(r[j] == x);
        } else {
            assert(r[j] == s[j - 1]);
        }
    }
    lemma_multiset_commutative(s.take(p) + seq![x], s.skip(p));
    lemma_multiset_commutative(s.take(p), seq![x]);
    lemma_multiset_commutative(s.take(p), s.skip(p));
    assert(s.take(p) + s.skip(p) =~= s);
    assert(seq![x].to_multiset() == Multiset::<ResolvedFloorConfig>::empty().insert(x)) by {
        assert(seq![x] =~= Seq::<ResolvedFloorConfig>::empty().push(x));
        Seq::<ResolvedFloorConfig>::empty().to_multiset_ensures();
    }
    assert(r.to_multiset() =~= s.to_multiset().insert(x));
}

proof fn lemma_sum_weights_prefix(s: Seq<u64>, i: int)
    requires
        0 <= i <= s.len(),
    ensures
        0 <= sum_weights(s.take(i)) <= sum_weights(s),
        i < s.len() ==> sum_weights(s.take(i + 1)) == sum_weights(s.take(i)) + s[i],
    decreases s.len() - i,
{
    if i < s.len() {
        assert(s.take(i + 1).drop_last() =~= s.take(i));
        assert(s.take(i + 1).last() == s[i]);
        lemma_sum_weights_prefix(s, i + 1);
        lemma_sum_weights_nonneg(s.take(i));
    } else {
        assert(s.take(i) =~= s);
        lemma_sum_weights_nonneg(s);
    }
}

proof fn lemma_sum_weights_nonneg(s: Seq<u64>)
    ensures
        sum_weights(s) >= 0,
    decreases s.len(),
{
    if s.len() > 0 {
        lemma_sum_weights_nonneg(s.drop_last());
    }
}

/// Whether one stochastic roll fires a spawn for the given rate over the
/// given share of the simulated day. Exact fixed-point comparison: no
/// rounding is involved.
pub fn spawn_fires(rate: &SpawnRate, delta_ms: u64, day_ms: u64, roll: u64) -> (r: bool)
    requires
        rate.num <= MAX_STRENGTH as u64,
        1 <= rate.den <= MAX_FLOORS as u64,
        1 <= day_ms <= MAX_TIME_PER_DAY_MS,
        delta_ms <= MAX_TIME_PER_DAY_MS,
        roll < ROLL_SPACE,
    ensures
        r == spec_roll_hits(*rate, delta_ms, day_ms, roll),
        r ==> rate.num > 0,
{
    proof {
        assert((roll as int) * (rate.den as int) <= 4_294_967_296 * 1_000_000) by (nonlinear_arith)
            requires
                0 <= roll < 4_294_967_296,
                0 <= rate.den <= 1_000_000,
        ;
    }
    let a: u128 = (roll as u128) * (rate.den as u128);
    proof {
        assert((a as int) * (day_ms as int) <= 4_294_967_296_000_000 * 1_000_000_000_000)
            by (nonlinear_arith)
            requires
                0 <= a <= 4_294_967_296_000_000,
                0 <= day_ms <= 1_000_000_000_000,
        ;
    }
    let lhs: u128 = a * (day_ms as u128);
    proof {
        assert((rate.num as int) * (delta_ms as int) <= 1_000_000_000 * 1_000_000_000_000)
            by (nonlinear_arith)
            requires
                0 <= rate.num <= 1_000_000_000,
                0 <= delta_ms <= 1_000_000_000_000,
        ;
    }
    let b: u128 = (rate.num as u128) * (delta_ms as u128);
    let c: u128 = b * 24;
    proof {
        assert((c as int) * (ROLL_SPACE as int) <= 24_000_000_000_000_000_000_000 * 4_294_967_296)
            by (nonlinear_arith)
            requires
                0 <= c <= 24_000_000_000_000_000_000_000,
                ROLL_SPACE == 4_294_967_296,
        ;
    }
    let rhs: u128 = c * (ROLL_SPACE as u128);
    proof {
        if rate.num == 0 {
            assert(rhs == 0);
        }
        assert(lhs >= 0);
    }
    lhs < rhs
}

/// The weight one sink carries for a spawn at `origin`.
pub fn dest_weight(sink: &ResolvedFloorConfig, origin: FloorNum) -> (r: u64)
    requires
        sink.strength <= MAX_STRENGTH,
    ensures
        r as int == spec_dest_weight(*sink, origin),
        r <= 2 * MAX_STRENGTH as u64,
{
    let d: i64 = sink.floor_num.0 as i64 - origin.0 as i64;
    if -1 <= d && d <= 1 {
        1
    } else {
        2 * (sink.strength as u64)
    }
}

/// The index a roll below the total weight selects: the unique position
/// whose cumulative-weight window contains the roll. Only positive-weight
/// entries can be selected.
pub fn pick_weighted_index(weights: &Vec<u64>, roll: u64) -> (idx: usize)
    requires
        sum_weights(weights@) <= u64::MAX,
        roll < sum_weights(weights@),
    ensures
        idx < weights@.len(),
        weights@[idx as int] > 0,
        sum_weights(weights@.take(idx as int)) <= roll < sum_weights(weights@.take(idx as int))
            + weights@[idx as int],
{
    let n = weights.len();
    let mut acc: u64 = 0;
    let mut i: usize = 0;
    while i < n
        invariant
            n == weights@.len(),
            i <= n,
            sum_weights(weights@) <= u64::MAX,
            roll < sum_weights(weights@),
            acc == sum_weights(weights@.take(i as int)),
            acc <= roll,
        decreases n - i,
    {
        proof {
            lemma_sum_weights_prefix(weights@, i as int);
            lemma_sum_weights_prefix(weights@, i + 1);
        }
        let w = weights[i];
        if roll < acc + w {
            return i;
        }
        acc = acc + w;
        i = i + 1;
    }
    proof {
        assert(weights@.take(n as int) =~= weights@);
        assert(false);
    }
    0
}

impl FloorSpawnRates {
    /// Bounds that every snapshot built by `get_rates` meets.
    pub open spec fn wf(self) -> bool {
        &&& self.sinks.0@.len() <= MAX_FLOORS
        &&& forall|i: int|
            0 <= i < self.sinks.0@.len() ==> (#[trigger] self.sinks.0@[i]).strength <= MAX_STRENGTH
        &&& forall|i: int|
            0 <= i < self.floors_with_rates@.len() ==> (#[trigger] self.floors_with_rates@[i]).1.num
                <= MAX_STRENGTH && 1 <= self.floors_with_rates@[i].1.den <= MAX_FLOORS
        &&& forall|i: int, j: int|
            0 <= i < j < self.floors_with_rates@.len() ==> (#[trigger] self.floors_with_rates@[i]).0
                != (#[trigger] self.floors_with_rates@[j]).0
        &&& self.resolved_for_hour.0 < 24
    }

    /// Partition the resolved floors into sinks and sources, sort the sinks
    /// descending by strength (stable on ties), and give every source the
    /// rate `strength / count(sinks)` and every sink the rate zero. With no
    /// sinks at all, source rates are forced to zero.
    pub fn get_rates(floors: Vec<ResolvedFloorConfig>, time_range: HourOfDay) -> (r:
        FloorSpawnRates)
        requires
            floors@.len() <= MAX_FLOORS,
            forall|i: int| 0 <= i < floors@.len() ==> (#[trigger] floors@[i]).strength
                <= MAX_STRENGTH,
            distinct_floor_nums(floors@),
            time_range.0 < 24,
        ensures
            r.resolved_for_hour == time_range,
            r.sinks.0@ == sort_desc(sinks_of(floors@)),
            r.floors_with_rates@ == spec_rates_list(floors@),
            r.wf(),
            sorted_desc(r.sinks.0@),
            r.sinks.0@.to_multiset() == sinks_of(floors@).to_multiset(),
    {
        let n = floors.len();
        let mut sinks_unsorted: Vec<ResolvedFloorConfig> = Vec::new();
        let mut sources: Vec<ResolvedFloorConfig> = Vec::new();
        let mut i: usize = 0;
        while i < n
            invariant
                n == floors@.len(),
                i <= n,
                sinks_unsorted@ == sinks_of(floors@.take(i as int)),
                sources@ == sources_of(floors@.take(i as int)),
            decreases n - i,
        {
            proof {
                assert(floors@.take(i + 1).drop_last() =~= floors@.take(i as int));
                assert(floors@.take(i + 1).last() == floors@[i as int]);
            }
            let f = floors[i];
            match f.sink_or_source {
                SinkOrSource::Sink => {
                    sinks_unsorted.push(f);
                },
                SinkOrSource::Source => {
                    sources.push(f);
                },
            }
            i = i + 1;
        }
        proof {
            assert(floors@.take(n as int) =~= floors@);
            lemma_sinks_sources_elements(floors@, MAX_STRENGTH);
        }
        // Stable insertion sort, strongest first.
        let m = sinks_unsorted.len();
        let mut sinks: Vec<ResolvedFloorConfig> = Vec::new();
        proof {
            assert(sinks@ =~= sinks_unsorted@.take(0));
        }
        let mut i: usize = 0;
        while i < m
            invariant
                m == sinks_unsorted@.len(),
                i <= m,
                sinks@ == sort_desc(sinks_unsorted@.take(i as int)),
                sorted_desc(sinks@),
                sinks@.to_multiset() == sinks_unsorted@.take(i as int).to_multiset(),
                sinks@.len() == i,
            decreases m - i,
        {
            let x = sinks_unsorted[i];
            let ghost s0 = sinks@;
            let mut p: usize = 0;
            while p < sinks.len() && sinks[p].strength >= x.strength
                invariant
                    sinks@ == s0,
                    p <= sinks@.len(),
                    forall|k: int| 0 <= k < p ==> (#[trigger] sinks@[k]).strength >= x.strength,
                decreases sinks@.len() - p,
            {
                p = p + 1;
            }
            proof {
                lemma_insert_desc_at(s0, x, p as int);
                lemma_sorted_insert_at(s0, x, p as int);
                assert(sinks_unsorted@.take(i + 1).drop_last() =~= sinks_unsorted@.take(i as int));
                assert(sinks_unsorted@.take(i + 1).last() == sinks_unsorted@[i as int]);
                assert(sinks_unsorted@.take(i + 1).to_multiset() == sinks_unsorted@.take(
                    i as int,
                ).to_multiset().insert(x)) by {
                    assert(sinks_unsorted@.take(i + 1) =~= sinks_unsorted@.take(i as int).push(x));
                    sinks_unsorted@.take(i as int).to_multiset_ensures();
                }
            }
            sinks.insert(p, x);
            proof {
                assert(sinks@ =~= s0.take(p as int) + seq![x] + s0.skip(p as int));
                assert(sinks@ == insert_desc(s0, x));
            }
            i = i + 1;
        }
        proof {
            assert(sinks_unsorted@.take(m as int) =~= sinks_unsorted@);
        }
        let n_sinks = sinks.len();
        proof {
            sinks_unsorted@.to_multiset_ensures();
            sinks@.to_multiset_ensures();
            assert(sinks@.len() == sinks_unsorted@.len());
        }
        let mut floors_with_rates: Vec<(FloorNum, SpawnRate)> = Vec::new();
        let mut i: usize = 0;
        while i < n_sinks
            invariant
                n_sinks == sinks@.len(),
                i <= n_sinks,
                floors_with_rates@.len() == i,
                forall|k: int|
                    0 <= k < i ==> #[trigger] floors_with_rates@[k] == (
                    sinks@[k].floor_num,
                    SpawnRate { num: 0, den: 1 },
                ),
            decreases n_sinks - i,
        {
            floors_with_rates.push((sinks[i].floor_num, SpawnRate { num: 0, den: 1 }));
            i = i + 1;
        }
        let n_sources = sources.len();
        let mut i: usize = 0;
        while i < n_sources
            invariant
                n_sources == sources@.len(),
                n_sinks == sinks@.len(),
                forall|k: int|
                    0 <= k < sources@.len() ==> (#[trigger] sources@[k]).strength <= MAX_STRENGTH,
                i <= n_sources,
                floors_with_rates@.len() == n_sinks + i,
                forall|k: int|
                    0 <= k < n_sinks ==> #[trigger] floors_with_rates@[k] == (
                    sinks@[k].floor_num,
                    SpawnRate { num: 0, den: 1 },
                ),
                forall|k: int|
                    0 <= k < i ==> #[trigger] floors_with_rates@[n_sinks + k] == (
                    sources@[k].floor_num,
                    spec_source_rate(sources@[k].strength, n_sinks as nat),
                ),
            decreases n_sources - i,
        {
            let f = sources[i];
            let rate = if n_sinks == 0 {
                SpawnRate { num: 0, den: 1 }
            } else {
                SpawnRate { num: f.strength as u64, den: n_sinks as u64 }
            };
            floors_with_rates.push((f.floor_num, rate));
            i = i + 1;
        }
        proof {
            lemma_sinks_sources_elements(floors@, MAX_STRENGTH);
            let zero_part = sort_desc(sinks_of(floors@)).map_values(
                |f: ResolvedFloorConfig| (f.floor_num, SpawnRate { num: 0, den: 1 }),
            );
            let source_part = sources_of(floors@).map_values(
                |f: ResolvedFloorConfig|
                    (f.floor_num, spec_source_rate(f.strength, sinks_of(floors@).len())),
            );
            assert(sinks@ == sort_desc(sinks_of(floors@)));
            assert(floors_with_rates@.len() == zero_part.len() + source_part.len());
            assert forall|k: int| 0 <= k < floors_with_rates@.len() implies floors_with_rates@[k]
                == (zero_part + source_part)[k] by {
                if k < n_sinks {
                    assert((zero_part + source_part)[k] == zero_part[k]);
                    assert(zero_part[k] == (sinks@[k].floor_num, SpawnRate { num: 0, den: 1 }));
                } else {
                    let k2 = k - n_sinks;
                    assert(floors_with_rates@[n_sinks + k2] == (
                        sources@[k2].floor_num,
                        spec_source_rate(sources@[k2].strength, n_sinks as nat),
                    ));
                    assert((zero_part + source_part)[k] == source_part[k2]);
                    assert(source_part[k2] == (
                        sources@[k2].floor_num,
                        spec_source_rate(sources@[k2].strength, sinks_of(floors@).len()),
                    ));
                    assert(n_sinks as nat == sinks_of(floors@).len());
                }
            }
            assert(floors_with_rates@ =~= spec_rates_list(floors@));
            assert forall|i: int| 0 <= i < sinks@.len() implies (#[trigger] sinks@[i]).strength
                <= MAX_STRENGTH by {
                sinks@.to_multiset_ensures();
                sinks_of(floors@).to_multiset_ensures();
                assert(sinks@.contains(sinks@[i]));
                assert(sinks@.to_multiset().count(sinks@[i]) > 0);
                assert(sinks_of(floors@).contains(sinks@[i]));
                let j = choose|j: int|
                    0 <= j < sinks_of(floors@).len() && sinks_of(floors@)[j] == sinks@[i];
                assert(sinks_of(floors@)[j].strength <= MAX_STRENGTH);
            }
            assert forall|k: int| 0 <= k < floors_with_rates@.len() implies (
            #[trigger] floors_with_rates@[k]).1.num <= MAX_STRENGTH && 1
                <= floors_with_rates@[k].1.den <= MAX_FLOORS by {
                if k >= n_sinks {
                    assert(floors_with_rates@[k] == (
                        sources@[k - n_sinks].floor_num,
                        spec_source_rate(sources@[k - n_sinks].strength, n_sinks as nat),
                    ));
                    assert(sources@[k - n_sinks].strength <= MAX_STRENGTH);
                }
            }
            lemma_partition_keys(floors@);
            lemma_permutation_keys_distinct(sinks_of(floors@), sinks@);
            assert forall|k1: int, k2: int|
                0 <= k1 < k2 < floors_with_rates@.len() implies (
            #[trigger] floors_with_rates@[k1]).0 != (#[trigger] floors_with_rates@[k2]).0 by {
                if k2 < n_sinks {
                    assert(floors_with_rates@[k1].0 == sinks@[k1].floor_num);
                    assert(floors_with_rates@[k2].0 == sinks@[k2].floor_num);
                } else if k1 >= n_sinks {
                    assert(floors_with_rates@[k1].0 == sources@[k1 - n_sinks].floor_num);
                    assert(floors_with_rates@[k2].0 == sources@[k2 - n_sinks].floor_num);
                } else {
                    // One key from the sink side, one from the source side:
                    // each names an input entry; equal keys would make the
                    // same input entry both a sink and a source.
                    let a = sinks@[k1];
                    let b = sources@[k2 - n_sinks];
                    if a.floor_num == b.floor_num {
                        sinks@.to_multiset_ensures();
                        sinks_of(floors@).to_multiset_ensures();
                        assert(sinks@.contains(a));
                        assert(sinks@.to_multiset().count(a) > 0);
                        assert(sinks_of(floors@).contains(a));
                        let ia = choose|ia: int|
                            0 <= ia < sinks_of(floors@).len() && sinks_of(floors@)[ia] == a;
                        let ja = choose|ja: int|
                            0 <= ja < floors@.len() && sinks_of(floors@)[ia] == floors@[ja];
                        let jb = choose|jb: int|
                            0 <= jb < floors@.len() && sources_of(floors@)[k2 - n_sinks]
                                == floors@[jb];
                        lemma_sinks_sources_elements(floors@, MAX_STRENGTH);
                        assert(floors@[ja].sink_or_source == SinkOrSource::Sink);
                        assert(floors@[jb].sink_or_source == SinkOrSource::Source);
                        assert(ja != jb);
                        if ja < jb {
                            assert(floors@[ja].floor_num != floors@[jb].floor_num);
                        } else {
                            assert(floors@[jb].floor_num != floors@[ja].floor_num);
                        }
                        assert(false);
                    }
                }
            }
        }
        FloorSpawnRates { floors_with_rates, sinks: Sinks(sinks), resolved_for_hour: time_range }
    }

    /// A spawn event this snapshot can emit: the origin is a configured floor
    /// with a positive rate, and the destination is a sink that carried
    /// positive weight for that origin.
    pub open spec fn origin_ok(self, f: FloorNum) -> bool {
        exists|i: int|
            0 <= i < self.floors_with_rates@.len() && (#[trigger] self.floors_with_rates@[i]).0
                == f && self.floors_with_rates@[i].1.num > 0
    }

    pub open spec fn spawn_pair_ok(self, pair: (FloorNum, FloorNum)) -> bool {
        &&& self.origin_ok(pair.0)
        &&& exists|i: int|
            0 <= i < self.sinks.0@.len() && (#[trigger] self.sinks.0@[i]).floor_num == pair.1
                && spec_dest_weight(self.sinks.0@[i], pair.0) > 0
    }

    /// Roll one spawn chance per configured floor, scaled by the elapsed
    /// share of the simulated day, then draw a weighted destination sink for
    /// each firing floor. A floor whose rate is zero never fires; a spawn
    /// whose sinks all carry zero weight is dropped rather than picking an
    /// arbitrary destination.
    pub fn tick(&self, game_time: &GameTime, delta_ms: u64, rng: &mut SimRng) -> (spawns: Vec<
        (FloorNum, FloorNum),
    >)
        requires
            self.wf(),
            game_time.wf(),
            delta_ms <= MAX_TIME_PER_DAY_MS,
        ensures
            spawns@.len() <= self.floors_with_rates@.len(),
            forall|k: int|
                0 <= k < spawns@.len() ==> self.spawn_pair_ok(#[trigger] spawns@[k]),
            forall|k1: int, k2: int|
                0 <= k1 < k2 < spawns@.len() ==> (#[trigger] spawns@[k1]).0 != (
                #[trigger] spawns@[k2]).0,
            forall|i: int|
                0 <= i < self.floors_with_rates@.len() && spec_chance_saturated(
                    (#[trigger] self.floors_with_rates@[i]).1,
                    delta_ms,
                    game_time.spec_day_ms(),
                ) && (exists|t: int|
                    0 <= t < self.sinks.0@.len() && spec_dest_weight(
                        #[trigger] self.sinks.0@[t],
                        self.floors_with_rates@[i].0,
                    ) > 0) ==> exists|k: int|
                    0 <= k < spawns@.len() && (#[trigger] spawns@[k]).0
                        == self.floors_with_rates@[i].0,
    {
        let day_ms = game_time.config.time_per_day_ms;
        let n = self.floors_with_rates.len();
        let mut spawn_floors: Vec<FloorNum> = Vec::new();
        let mut i: usize = 0;
        while i < n
            invariant
                self.wf(),
                1 <= day_ms <= MAX_TIME_PER_DAY_MS,
                delta_ms <= MAX_TIME_PER_DAY_MS,
                n == self.floors_with_rates@.len(),
                i <= n,
                spawn_floors@.len() <= i,
                forall|k: int|
                    0 <= k < spawn_floors@.len() ==> self.origin_ok(#[trigger] spawn_floors@[k]),
                forall|k: int|
                    0 <= k < spawn_floors@.len() ==> exists|idx: int|
                        0 <= idx < i && (#[trigger] spawn_floors@[k]) == (
                        #[trigger] self.floors_with_rates@[idx]).0,
                forall|k1: int, k2: int|
                    0 <= k1 < k2 < spawn_floors@.len() ==> #[trigger] spawn_floors@[k1]
                        != #[trigger] spawn_floors@[k2],
                day_ms == game_time.spec_day_ms(),
                forall|i2: int|
                    0 <= i2 < i && spec_chance_saturated(
                        (#[trigger] self.floors_with_rates@[i2]).1,
                        delta_ms,
                        day_ms,
                    ) ==> exists|k: int|
                        0 <= k < spawn_floors@.len() && #[trigger] spawn_floors@[k]
                            == self.floors_with_rates@[i2].0,
            decreases n - i,
        {
            let entry = self.floors_with_rates[i];
            let roll = rng.below(ROLL_SPACE);
            proof {
                if spec_chance_saturated(entry.1, delta_ms, day_ms) {
                    assert(spec_roll_hits(entry.1, delta_ms, day_ms, roll)) by (nonlinear_arith)
                        requires
                            0 <= roll <= (ROLL_SPACE - 1) as int,
                            0 <= entry.1.den,
                            0 <= day_ms,
                            ((ROLL_SPACE - 1) as int) * (entry.1.den as int) * (day_ms as int) < (
                            entry.1.num as int) * (delta_ms as int) * 24 * (ROLL_SPACE as int),
                    ;
                }
            }
            let fired = spawn_fires(&entry.1, delta_ms, day_ms, roll);
            let ghost sf0 = spawn_floors@;
            if fired {
                spawn_floors.push(entry.0);
                proof {
                    let newlen = spawn_floors@.len() as int;
                    assert forall|k1: int, k2: int|
                        0 <= k1 < k2 < newlen implies #[trigger] spawn_floors@[k1]
                        != #[trigger] spawn_floors@[k2] by {
                        if k2 == newlen - 1 {
                            let idx = choose|idx: int|
                                0 <= idx < i && spawn_floors@[k1] == (
                                #[trigger] self.floors_with_rates@[idx]).0;
                            assert(self.floors_with_rates@[idx].0
                                != self.floors_with_rates@[i as int].0);
                        }
                    }
                }
            }
            proof {
                assert forall|i2: int|
                    0 <= i2 <= i as int && spec_chance_saturated(
                        (#[trigger] self.floors_with_rates@[i2]).1,
                        delta_ms,
                        day_ms,
                    ) implies exists|k: int|
                    0 <= k < spawn_floors@.len() && #[trigger] spawn_floors@[k]
                        == self.floors_with_rates@[i2].0 by {
                    if i2 == i as int {
                        assert(fired);
                        assert(spawn_floors@[sf0.len() as int]
                            == self.floors_with_rates@[i as int].0);
                    } else {
                        let k0 = choose|k0: int|
                            0 <= k0 < sf0.len() && sf0[k0] == self.floors_with_rates@[i2].0;
                        assert(spawn_floors@[k0] == self.floors_with_rates@[i2].0);
                    }
                }
            }
            i = i + 1;
        }
        let n_sinks = self.sinks.0.len();
        let mut spawns: Vec<(FloorNum, FloorNum)> = Vec::new();
        let mut j: usize = 0;
        while j < spawn_floors.len()
            invariant
                self.wf(),
                n_sinks == self.sinks.0@.len(),
                j <= spawn_floors@.len(),
                spawn_floors@.len() <= self.floors_with_rates@.len(),
                spawns@.len() <= j,
                forall|k: int|
                    0 <= k < spawn_floors@.len() ==> self.origin_ok(#[trigger] spawn_floors@[k]),
                forall|k1: int, k2: int|
                    0 <= k1 < k2 < spawn_floors@.len() ==> #[trigger] spawn_floors@[k1]
                        != #[trigger] spawn_floors@[k2],
                forall|k: int|
                    0 <= k < spawns@.len() ==> self.spawn_pair_ok(#[trigger] spawns@[k]),
                forall|k: int|
                    0 <= k < spawns@.len() ==> exists|jj: int|
                        0 <= jj < j && (#[trigger] spawns@[k]).0 == #[trigger] spawn_floors@[jj],
                forall|k1: int, k2: int|
                    0 <= k1 < k2 < spawns@.len() ==> (#[trigger] spawns@[k1]).0 != (
                    #[trigger] spawns@[k2]).0,
                forall|jj2: int|
                    0 <= jj2 < j && (exists|t: int|
                        0 <= t < self.sinks.0@.len() && spec_dest_weight(
                            #[trigger] self.sinks.0@[t],
                            spawn_floors@[jj2],
                        ) > 0) ==> exists|k: int|
                        0 <= k < spawns@.len() && (#[trigger] spawns@[k]).0
                            == #[trigger] spawn_floors@[jj2],
            decreases spawn_floors@.len() - j,
        {
            let origin = spawn_floors[j];
            let mut weights: Vec<u64> = Vec::new();
            let mut total: u64 = 0;
            let mut k: usize = 0;
            while k < n_sinks
                invariant
                    self.wf(),
                    n_sinks == self.sinks.0@.len(),
                    k <= n_sinks,
                    weights@.len() == k,
                    forall|t: int|
                        0 <= t < k ==> #[trigger] weights@[t] as int == spec_dest_weight(
                            self.sinks.0@[t],
                            origin,
                        ),
                    total == sum_weights(weights@),
                    total <= (k as int) * 2_000_000_000,
                decreases n_sinks - k,
            {
                let w = dest_weight(&self.sinks.0[k], origin);
                proof {
                    assert(weights@.push(w).drop_last() =~= weights@);
                }
                weights.push(w);
                proof {
                    assert(total + w <= (k as int + 1) * 2_000_000_000 && (k as int + 1)
                        * 2_000_000_000 <= 2_000_000_000_000_000) by (nonlinear_arith)
                        requires
                            total <= (k as int) * 2_000_000_000,
                            w <= 2_000_000_000,
                            0 <= k as int + 1 <= 1_000_000,
                    ;
                }
                total = total + w;
                k = k + 1;
            }
            let ghost sp0 = spawns@;
            if total > 0 {
                let roll2 = rng.below(total);
                let idx = pick_weighted_index(&weights, roll2);
                let dest = self.sinks.0[idx].floor_num;
                proof {
                    assert(spec_dest_weight(self.sinks.0@[idx as int], origin) > 0);
                    assert(self.spawn_pair_ok((origin, dest)));
                }
                spawns.push((origin, dest));
                proof {
                    let newlen = spawns@.len() as int;
                    assert forall|k1: int, k2: int| 0 <= k1 < k2 < newlen implies (
                    #[trigger] spawns@[k1]).0 != (#[trigger] spawns@[k2]).0 by {
                        if k2 == newlen - 1 {
                            let jj = choose|jj: int|
                                0 <= jj < j && spawns@[k1].0 == #[trigger] spawn_floors@[jj];
                            assert(spawn_floors@[jj] != spawn_floors@[j as int]);
                        }
                    }
                }
            }
            proof {
                assert forall|jj2: int|
                    0 <= jj2 <= j as int && (exists|t: int|
                        0 <= t < self.sinks.0@.len() && spec_dest_weight(
                            #[trigger] self.sinks.0@[t],
                            spawn_floors@[jj2],
                        ) > 0) implies exists|k: int|
                    0 <= k < spawns@.len() && (#[trigger] spawns@[k]).0
                        == #[trigger] spawn_floors@[jj2] by {
                    if jj2 == j as int {
                        if total == 0 {
                            let t = choose|t: int|
                                0 <= t < self.sinks.0@.len() && spec_dest_weight(
                                    self.sinks.0@[t],
                                    spawn_floors@[jj2],
                                ) > 0;
                            lemma_sum_weights_prefix(weights@, t);
                            lemma_sum_weights_prefix(weights@, t + 1);
                            assert(weights@[t] as int == spec_dest_weight(
                                self.sinks.0@[t],
                                origin,
                            ));
                            assert(false);
                        } else {
                            assert(spawns@[sp0.len() as int].0 == spawn_floors@[j as int]);
                        }
                    } else {
                        let k0 = choose|k0: int|
                            0 <= k0 < sp0.len() && sp0[k0].0 == spawn_floors@[jj2];
                        assert(spawns@[k0].0 == spawn_floors@[jj2]);
                    }
                }
            }
            j = j + 1;
        }
        proof {
            assert forall|i: int|
                0 <= i < self.floors_with_rates@.len() && spec_chance_saturated(
                    (#[trigger] self.floors_with_rates@[i]).1,
                    delta_ms,
                    game_time.spec_day_ms(),
                ) && (exists|t: int|
                    0 <= t < self.sinks.0@.len() && spec_dest_weight(
                        #[trigger] self.sinks.0@[t],
                        self.floors_with_rates@[i].0,
                    ) > 0) implies exists|k: int|
                0 <= k < spawns@.len() && (#[trigger] spawns@[k]).0
                    == self.floors_with_rates@[i].0 by {
                let kf = choose|kf: int|
                    0 <= kf < spawn_floors@.len() && #[trigger] spawn_floors@[kf]
                        == self.floors_with_rates@[i].0;
                let t = choose|t: int|
                    0 <= t < self.sinks.0@.len() && spec_dest_weight(
                        #[trigger] self.sinks.0@[t],
                        self.floors_with_rates@[i].0,
                    ) > 0;
                assert(spec_dest_weight(self.sinks.0@[t], spawn_floors@[kf]) > 0);
                let k2 = choose|k2: int|
                    0 <= k2 < spawns@.len() && (#[trigger] spawns@[k2]).0 == spawn_floors@[kf];
                assert(spawns@[k2].0 == self.floors_with_rates@[i].0);
            }
        }
        spawns
    }
}

} // verus!
