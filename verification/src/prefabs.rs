//! Ready-made floor configurations: the ground-floor commuter pattern,
//! morning and afternoon sinks, a two-hourly alternating pattern, and the
//! working-hours strength curve. Each one tiles the 24-hour day exactly, so
//! building a floor configuration from it cannot fail.

use vstd::prelude::*;
use core::ops::Range;
use crate::floor_config::{
    pair_covers, ranges_in_day, tiles_exactly, value_at, RawFloorConfig, SinkOrSource,
    lemma_exact_tiling_accepted, lemma_value_at_unique_cover, covered_by_prefix,
};

verus! {

pub open spec fn ground_floor_tag(h: int) -> SinkOrSource {
    if h < 10 {
        SinkOrSource::Source
    } else if h < 16 {
        SinkOrSource::Sink
    } else if h < 17 {
        SinkOrSource::Source
    } else {
        SinkOrSource::Sink
    }
}

pub open spec fn morning_sink_tag(h: int) -> SinkOrSource {
    if h < 12 {
        SinkOrSource::Sink
    } else {
        SinkOrSource::Source
    }
}

pub open spec fn afternoon_sink_tag(h: int) -> SinkOrSource {
    if h < 12 {
        SinkOrSource::Source
    } else {
        SinkOrSource::Sink
    }
}

pub open spec fn alternating_tag(mode: bool, h: int) -> SinkOrSource {
    if (h / 2) % 2 == 0 {
        if mode {
            SinkOrSource::Sink
        } else {
            SinkOrSource::Source
        }
    } else {
        if mode {
            SinkOrSource::Source
        } else {
            SinkOrSource::Sink
        }
    }
}

pub open spec fn normal_hours_strength(out_of_hours: usize, in_hours: usize, h: int) -> usize {
    if h < 9 {
        out_of_hours
    } else if h < 18 {
        in_hours
    } else {
        out_of_hours
    }
}

/// A source through the morning and the early-evening rush hour, a sink
/// otherwise: the commuter ground floor.
pub fn ground_floor_source() -> (r: Vec<(Range<u8>, SinkOrSource)>)
    ensures
        ranges_in_day(r@),
        tiles_exactly(r@),
        forall|h: int| 0 <= h < 24 ==> value_at(r@, h) == ground_floor_tag(h),
{
    let mut v: Vec<(Range<u8>, SinkOrSource)> = Vec::new();
    v.push((0u8..10u8, SinkOrSource::Source));
    v.push((10u8..16u8, SinkOrSource::Sink));
    v.push((16u8..17u8, SinkOrSource::Source));
    v.push((17u8..24u8, SinkOrSource::Sink));
    proof {
        assert forall|h: int| 0 <= h < 24 implies covered_by_prefix(v@, v@.len() as int, h) by {
            if h < 10 {
                assert(pair_covers(v@[0], h));
            } else if h < 16 {
                assert(pair_covers(v@[1], h));
            } else if h < 17 {
                assert(pair_covers(v@[2], h));
            } else {
                assert(pair_covers(v@[3], h));
            }
        }
        assert(tiles_exactly(v@));
        assert forall|h: int| 0 <= h < 24 implies value_at(v@, h) == ground_floor_tag(h) by {
            if h < 10 {
                lemma_value_at_unique_cover(v@, 0, h);
            } else if h < 16 {
                lemma_value_at_unique_cover(v@, 1, h);
            } else if h < 17 {
                lemma_value_at_unique_cover(v@, 2, h);
            } else {
                lemma_value_at_unique_cover(v@, 3, h);
            }
        }
    }
    v
}

/// The working-hours strength curve: `in_hours` strength from 09 to 18,
/// `out_of_hours` for the rest of the day.
pub fn normal_hours(out_of_hours: usize, in_hours: usize) -> (r: Vec<(Range<u8>, usize)>)
    ensures
        ranges_in_day(r@),
        tiles_exactly(r@),
        forall|h: int|
            0 <= h < 24 ==> value_at(r@, h) == normal_hours_strength(out_of_hours, in_hours, h),
        forall|j: int|
            0 <= j < r@.len() ==> ((#[trigger] r@[j]).1 == out_of_hours || r@[j].1 == in_hours),
{
    let mut v: Vec<(Range<u8>, usize)> = Vec::new();
    v.push((0u8..9u8, out_of_hours));
    v.push((9u8..18u8, in_hours));
    v.push((18u8..24u8, out_of_hours));
    proof {
        assert forall|h: int| 0 <= h < 24 implies covered_by_prefix(v@, v@.len() as int, h) by {
            if h < 9 {
                assert(pair_covers(v@[0], h));
            } else if h < 18 {
                assert(pair_covers(v@[1], h));
            } else {
                assert(pair_covers(v@[2], h));
            }
        }
        assert(tiles_exactly(v@));
        assert forall|h: int| 0 <= h < 24 implies value_at(v@, h) == normal_hours_strength(
            out_of_hours,
            in_hours,
            h,
        ) by {
            if h < 9 {
                lemma_value_at_unique_cover(v@, 0, h);
            } else if h < 18 {
                lemma_value_at_unique_cover(v@, 1, h);
            } else {
                lemma_value_at_unique_cover(v@, 2, h);
            }
        }
    }
    v
}

/// One value for the whole day.
pub fn always<T: Copy>(val: T) -> (r: Vec<(Range<u8>, T)>)
    ensures
        ranges_in_day(r@),
        tiles_exactly(r@),
        forall|h: int| 0 <= h < 24 ==> value_at(r@, h) == val,
        r@.len() == 1,
        r@[0].0.start == 0,
        r@[0].0.end == 24,
        r@[0].1 == val,
{
    let mut v: Vec<(Range<u8>, T)> = Vec::new();
    v.push((0u8..24u8, val));
    proof {
        assert forall|h: int| 0 <= h < 24 implies covered_by_prefix(v@, v@.len() as int, h) by {
            assert(pair_covers(v@[0], h));
        }
        assert(tiles_exactly(v@));
        assert forall|h: int| 0 <= h < 24 implies value_at(v@, h) == val by {
            lemma_value_at_unique_cover(v@, 0, h);
        }
    }
    v
}

/// A sink before noon, a source after.
pub fn morning_sink() -> (r: Vec<(Range<u8>, SinkOrSource)>)
    ensures
        ranges_in_day(r@),
        tiles_exactly(r@),
        forall|h: int| 0 <= h < 24 ==> value_at(r@, h) == morning_sink_tag(h),
{
    let mut v: Vec<(Range<u8>, SinkOrSource)> = Vec::new();
    v.push((0u8..12u8, SinkOrSource::Sink));
    v.push((12u8..24u8, SinkOrSource::Source));
    proof {
        assert forall|h: int| 0 <= h < 24 implies covered_by_prefix(v@, v@.len() as int, h) by {
            if h < 12 {
                assert(pair_covers(v@[0], h));
            } else {
                assert(pair_covers(v@[1], h));
            }
        }
        assert(tiles_exactly(v@));
        assert forall|h: int| 0 <= h < 24 implies value_at(v@, h) == morning_sink_tag(h) by {
            if h < 12 {
                lemma_value_at_unique_cover(v@, 0, h);
            } else {
                lemma_value_at_unique_cover(v@, 1, h);
            }
        }
    }
    v
}

/// A source before noon, a sink after.
pub fn afternoon_sink() -> (r: Vec<(Range<u8>, SinkOrSource)>)
    ensures
        ranges_in_day(r@),
        tiles_exactly(r@),
        forall|h: int| 0 <= h < 24 ==> value_at(r@, h) == afternoon_sink_tag(h),
{
    let mut v: Vec<(Range<u8>, SinkOrSource)> = Vec::new();
    v.push((0u8..12u8, SinkOrSource::Source));
    v.push((12u8..24u8, SinkOrSource::Sink));
    proof {
        assert forall|h: int| 0 <= h < 24 implies covered_by_prefix(v@, v@.len() as int, h) by {
            if h < 12 {
                assert(pair_covers(v@[0], h));
            } else {
                assert(pair_covers(v@[1], h));
            }
        }
        assert(tiles_exactly(v@));
        assert forall|h: int| 0 <= h < 24 implies value_at(v@, h) == afternoon_sink_tag(h) by {
            if h < 12 {
                lemma_value_at_unique_cover(v@, 0, h);
            } else {
                lemma_value_at_unique_cover(v@, 1, h);
            }
        }
    }
    v
}

/// Sink and source alternate every two hours; `mode` picks which goes
/// first.
pub fn alternating_sink(mode: bool) -> (r: Vec<(Range<u8>, SinkOrSource)>)
    ensures
        ranges_in_day(r@),
        tiles_exactly(r@),
        forall|h: int| 0 <= h < 24 ==> value_at(r@, h) == alternating_tag(mode, h),
{
    let a = if mode {
        SinkOrSource::Sink
    } else {
        SinkOrSource::Source
    };
    let b = if mode {
        SinkOrSource::Source
    } else {
        SinkOrSource::Sink
    };
    let mut v: Vec<(Range<u8>, SinkOrSource)> = Vec::new();
    let mut i: u8 = 0;
    while i < 12
        invariant
            i <= 12,
            v@.len() == i,
            a == if mode {
                SinkOrSource::Sink
            } else {
                SinkOrSource::Source
            },
            b == if mode {
                SinkOrSource::Source
            } else {
                SinkOrSource::Sink
            },
            forall|j: int|
                0 <= j < i ==> {
                    &&& (#[trigger] v@[j]).0.start == 2 * j
                    &&& v@[j].0.end == 2 * j + 2
                    &&& v@[j].1 == alternating_tag(mode, 2 * j)
                },
        decreases 12 - i,
    {
        let value = if i % 2 == 0 {
            a
        } else {
            b
        };
        v.push((2 * i..2 * i + 2, value));
        proof {
            assert((2 * (i as int)) / 2 == i as int) by (nonlinear_arith);
            if i % 2 == 0 {
                assert((i as int) % 2 == 0);
            } else {
                assert((i as int) % 2 == 1);
            }
            assert(alternating_tag(mode, 2 * (i as int)) == value);
            assert(v@[i as int].0.start == 2 * (i as int));
            assert(v@[i as int].0.end == 2 * (i as int) + 2);
        }
        i = i + 1;
    }
    proof {
        assert forall|h: int| 0 <= h < 24 implies covered_by_prefix(v@, v@.len() as int, h) by {
            assert(pair_covers(v@[h / 2], h));
        }
        assert forall|j1: int, j2: int, h: int|
            0 <= j1 < v@.len() && 0 <= j2 < v@.len() && #[trigger] pair_covers(v@[j1], h)
                && #[trigger] pair_covers(v@[j2], h) implies j1 == j2 by {
            assert(2 * j1 <= h < 2 * j1 + 2);
            assert(2 * j2 <= h < 2 * j2 + 2);
        }
        assert(tiles_exactly(v@));
        assert forall|h: int| 0 <= h < 24 implies value_at(v@, h) == alternating_tag(mode, h) by {
            lemma_value_at_unique_cover(v@, h / 2, h);
        }
    }
    v
}

/// The building's default configuration for one floor: basements and high
/// floors fill up in the afternoon, the ground floor follows the commuter
/// pattern at high strength, and the tower floors alternate.
pub fn generate_config_of_floor_num(floor_num: i32) -> (r: RawFloorConfig)
    ensures
        r.wf(),
        forall|h: int|
            0 <= h < 24 ==> #[trigger] r.sink_or_source@[h] == spec_floor_tag(floor_num as int, h),
        forall|h: int|
            0 <= h < 24 ==> #[trigger] r.strength@[h] == spec_floor_strength(floor_num as int, h),
{
    let (sink_or_source, strength) = if floor_num <= -1 {
        (afternoon_sink(), normal_hours(1, 2))
    } else if floor_num == 0 {
        (ground_floor_source(), normal_hours(2, 15))
    } else if floor_num <= 12 {
        (alternating_sink(floor_num % 2 == 0), normal_hours(2, 3))
    } else {
        (afternoon_sink(), normal_hours(1, 2))
    };
    proof {
        lemma_exact_tiling_accepted(sink_or_source@);
        lemma_exact_tiling_accepted(strength@);
    }
    match RawFloorConfig::new(sink_or_source, strength) {
        Ok(config) => config,
        Err(_) => {
            proof {
                assert(false);
            }
            RawFloorConfig { sink_or_source: Vec::new(), strength: Vec::new() }
        },
    }
}

/// The tag the default configuration assigns a floor at an hour.
pub open spec fn spec_floor_tag(floor_num: int, h: int) -> SinkOrSource {
    if floor_num <= -1 {
        afternoon_sink_tag(h)
    } else if floor_num == 0 {
        ground_floor_tag(h)
    } else if floor_num <= 12 {
        alternating_tag(floor_num % 2 == 0, h)
    } else {
        afternoon_sink_tag(h)
    }
}

/// The strength the default configuration assigns a floor at an hour.
pub open spec fn spec_floor_strength(floor_num: int, h: int) -> usize {
    if floor_num <= -1 {
        normal_hours_strength(1, 2, h)
    } else if floor_num == 0 {
        normal_hours_strength(2, 15, h)
    } else if floor_num <= 12 {
        normal_hours_strength(2, 3, h)
    } else {
        normal_hours_strength(1, 2, h)
    }
}

} // verus!
