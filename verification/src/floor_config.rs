//! Per-floor supply/demand configuration: for each hour of the day a floor is
//! either a passenger sink or a passenger source, with a strength. A
//! configuration is built from half-open hour ranges that must tile [0,24)
//! exactly: any hour set twice is a range overlap, any hour left unset is a
//! range gap, and construction reports the first offending hour in scan order.

use vstd::prelude::*;
use core::ops::Range;
use crate::floors::FloorNum;
use crate::game_clock::TimeOfDay;

verus! {

/// Upper bound on a configured strength; keeps spawn-chance arithmetic within
/// integer range.
pub const MAX_STRENGTH: usize = 1_000_000_000;

/// An hour on the 24-hour clock, in [0,24).
#[derive(Clone, Copy, Debug, Eq, PartialEq, Structural)]
pub struct HourOfDay(pub u8);

impl HourOfDay {
    pub fn of_time_ofday(time_ofday: &TimeOfDay) -> (r: HourOfDay)
        ensures
            r.0 == time_ofday.hour,
    {
        HourOfDay(time_ofday.hour)
    }
}

/// Whether passengers want to arrive at a floor (sink) or originate there
/// (source).
#[derive(Clone, Copy, Debug, Eq, PartialEq, Structural)]
pub enum SinkOrSource {
    Sink,
    Source,
}

/// Why a floor configuration was rejected: the hour set twice, or the hour
/// left unset.
#[derive(Clone, Copy, Debug, Eq, PartialEq, Structural)]
pub enum FloorConfigError {
    RangeOverlap(u8),
    RangeGap(u8),
}

/// The pair assigns a value to hour `h`.
pub open spec fn pair_covers<T>(p: (Range<u8>, T), h: int) -> bool {
    p.0.start <= h < p.0.end
}

/// Some pair among the first `n` assigns a value to hour `h`.
pub open spec fn covered_by_prefix<T>(rs: Seq<(Range<u8>, T)>, n: int, h: int) -> bool {
    exists|j: int| 0 <= j < n && pair_covers(#[trigger] rs[j], h)
}

/// Scanning pair `j`'s hours upward from `a`: the first hour already assigned
/// by an earlier pair, if any.
pub open spec fn first_dup_from<T>(rs: Seq<(Range<u8>, T)>, j: int, a: int) -> Option<int>
    decreases rs[j].0.end - a,
{
    if a >= rs[j].0.end {
        None
    } else if covered_by_prefix(rs, j, a) {
        Some(a)
    } else {
        first_dup_from(rs, j, a + 1)
    }
}

/// Scanning pairs upward from `j`: the first hour set twice, in the order the
/// construction scan visits hours.
pub open spec fn first_overlap_from<T>(rs: Seq<(Range<u8>, T)>, j: int) -> Option<int>
    decreases rs.len() - j,
{
    if j < 0 || j >= rs.len() {
        None
    } else {
        match first_dup_from(rs, j, rs[j].0.start as int) {
            Some(h) => Some(h),
            None => first_overlap_from(rs, j + 1),
        }
    }
}

/// Scanning hours upward from `a`: the first hour of the day no pair assigns.
pub open spec fn first_gap_from<T>(rs: Seq<(Range<u8>, T)>, a: int) -> Option<int>
    decreases 24 - a,
{
    if a >= 24 {
        None
    } else if !covered_by_prefix(rs, rs.len() as int, a) {
        Some(a)
    } else {
        first_gap_from(rs, a + 1)
    }
}

/// Index of the first pair at or after `j` that assigns hour `h`, or the
/// sequence length when none does.
pub open spec fn first_cover_index<T>(rs: Seq<(Range<u8>, T)>, j: int, h: int) -> int
    decreases rs.len() - j,
{
    if j < 0 || j >= rs.len() {
        rs.len() as int
    } else if pair_covers(rs[j], h) {
        j
    } else {
        first_cover_index(rs, j + 1, h)
    }
}

/// The value the range list assigns to hour `h` (meaningful when some pair
/// covers `h`).
pub open spec fn value_at<T>(rs: Seq<(Range<u8>, T)>, h: int) -> T {
    rs[first_cover_index(rs, 0, h)].1
}

/// The error that validating the range list reports, if any.
pub open spec fn validation_error<T>(rs: Seq<(Range<u8>, T)>) -> Option<FloorConfigError> {
    match first_overlap_from(rs, 0) {
        Some(h) => Some(FloorConfigError::RangeOverlap(h as u8)),
        None => match first_gap_from(rs, 0) {
            Some(h) => Some(FloorConfigError::RangeGap(h as u8)),
            None => None,
        },
    }
}

/// No range end exceeds the 24-hour clock (ranges that are already empty are
/// harmless whatever their bounds say).
pub open spec fn ranges_in_day<T>(rs: Seq<(Range<u8>, T)>) -> bool {
    forall|j: int|
        0 <= j < rs.len() && (#[trigger] rs[j]).0.start < rs[j].0.end ==> rs[j].0.end <= 24
}

proof fn lemma_first_dup_from_char<T>(rs: Seq<(Range<u8>, T)>, j: int, a: int)
    ensures
        match first_dup_from(rs, j, a) {
            None => forall|h: int|
                a <= h < rs[j].0.end ==> !(#[trigger] covered_by_prefix(rs, j, h)),
            Some(h) => {
                &&& a <= h < rs[j].0.end
                &&& covered_by_prefix(rs, j, h)
                &&& forall|h2: int| a <= h2 < h ==> !(#[trigger] covered_by_prefix(rs, j, h2))
            },
        },
    decreases rs[j].0.end - a,
{
    if a >= rs[j].0.end {
    } else if covered_by_prefix(rs, j, a) {
    } else {
        lemma_first_dup_from_char(rs, j, a + 1);
    }
}

proof fn lemma_first_overlap_from_char<T>(rs: Seq<(Range<u8>, T)>, j: int)
    requires
        0 <= j,
    ensures
        match first_overlap_from(rs, j) {
            None => forall|j2: int|
                j <= j2 < rs.len() ==> (#[trigger] first_dup_from(
                    rs,
                    j2,
                    rs[j2].0.start as int,
                )) is None,
            Some(h) => exists|j2: int|
                {
                    &&& j <= j2 < rs.len()
                    &&& #[trigger] first_dup_from(rs, j2, rs[j2].0.start as int) == Some(h)
                    &&& forall|j3: int|
                        j <= j3 < j2 ==> (#[trigger] first_dup_from(
                            rs,
                            j3,
                            rs[j3].0.start as int,
                        )) is None
                },
        },
    decreases rs.len() - j,
{
    if j < 0 || j >= rs.len() {
    } else {
        match first_dup_from(rs, j, rs[j].0.start as int) {
            Some(h) => {
                assert(first_dup_from(rs, j, rs[j].0.start as int) == Some(h));
            },
            None => {
                lemma_first_overlap_from_char(rs, j + 1);
                match first_overlap_from(rs, j + 1) {
                    None => {},
                    Some(h) => {
                        let j2 = choose|j2: int|
                            {
                                &&& j + 1 <= j2 < rs.len()
                                &&& #[trigger] first_dup_from(rs, j2, rs[j2].0.start as int)
                                    == Some(h)
                                &&& forall|j3: int|
                                    j + 1 <= j3 < j2 ==> (#[trigger] first_dup_from(
                                        rs,
                                        j3,
                                        rs[j3].0.start as int,
                                    )) is None
                            };
                        assert(forall|j3: int|
                            j <= j3 < j2 ==> (#[trigger] first_dup_from(
                                rs,
                                j3,
                                rs[j3].0.start as int,
                            )) is None);
                        assert(first_dup_from(rs, j2, rs[j2].0.start as int) == Some(h));
                    },
                }
            },
        }
    }
}

proof fn lemma_first_gap_from_char<T>(rs: Seq<(Range<u8>, T)>, a: int)
    ensures
        match first_gap_from(rs, a) {
            None => forall|h: int|
                a <= h < 24 ==> #[trigger] covered_by_prefix(rs, rs.len() as int, h),
            Some(h) => {
                &&& a <= h < 24
                &&& !covered_by_prefix(rs, rs.len() as int, h)
                &&& forall|h2: int|
                    a <= h2 < h ==> #[trigger] covered_by_prefix(rs, rs.len() as int, h2)
            },
        },
    decreases 24 - a,
{
    if a >= 24 {
    } else if !covered_by_prefix(rs, rs.len() as int, a) {
    } else {
        lemma_first_gap_from_char(rs, a + 1);
    }
}

proof fn lemma_first_cover_index_char<T>(rs: Seq<(Range<u8>, T)>, j: int, h: int)
    requires
        0 <= j <= rs.len(),
    ensures
        ({
            let i = first_cover_index(rs, j, h);
            &&& j <= i <= rs.len()
            &&& (i < rs.len() ==> pair_covers(rs[i], h))
            &&& forall|j2: int| j <= j2 < i ==> !pair_covers(#[trigger] rs[j2], h)
            &&& (i == rs.len() ==> forall|j2: int|
                j <= j2 < rs.len() ==> !pair_covers(#[trigger] rs[j2], h))
        }),
    decreases rs.len() - j,
{
    if j >= rs.len() {
    } else if pair_covers(rs[j], h) {
    } else {
        lemma_first_cover_index_char(rs, j + 1, h);
    }
}

/// Exactly one pair assigns each hour of the day: full coverage with no hour
/// assigned twice.
pub open spec fn tiles_exactly<T>(rs: Seq<(Range<u8>, T)>) -> bool {
    &&& forall|h: int| 0 <= h < 24 ==> covered_by_prefix(rs, rs.len() as int, h)
    &&& forall|j1: int, j2: int, h: int|
        0 <= j1 < rs.len() && 0 <= j2 < rs.len() && #[trigger] pair_covers(rs[j1], h)
            && #[trigger] pair_covers(rs[j2], h) ==> j1 == j2
}

/// Range lists that tile the day exactly are accepted by validation.
pub proof fn lemma_exact_tiling_accepted<T>(rs: Seq<(Range<u8>, T)>)
    requires
        tiles_exactly(rs),
    ensures
        validation_error(rs) is None,
        first_overlap_from(rs, 0) is None,
        first_gap_from(rs, 0) is None,
{
    lemma_first_overlap_from_char(rs, 0);
    match first_overlap_from(rs, 0) {
        None => {},
        Some(h) => {
            let j2 = choose|j2: int|
                {
                    &&& 0 <= j2 < rs.len()
                    &&& #[trigger] first_dup_from(rs, j2, rs[j2].0.start as int) == Some(h)
                    &&& forall|j3: int|
                        0 <= j3 < j2 ==> (#[trigger] first_dup_from(
                            rs,
                            j3,
                            rs[j3].0.start as int,
                        )) is None
                };
            lemma_first_dup_from_char(rs, j2, rs[j2].0.start as int);
            assert(pair_covers(rs[j2], h));
            assert(covered_by_prefix(rs, j2, h));
            let j1 = choose|j1: int| 0 <= j1 < j2 && pair_covers(#[trigger] rs[j1], h);
            assert(pair_covers(rs[j1], h));
            assert(false);
        },
    }
    lemma_first_gap_from_char(rs, 0);
    match first_gap_from(rs, 0) {
        None => {},
        Some(h) => {
            assert(covered_by_prefix(rs, rs.len() as int, h));
            assert(false);
        },
    }
}

/// In an exactly tiling range list, the value assigned to an hour is the value
/// of the pair that covers it.
pub proof fn lemma_value_at_unique_cover<T>(rs: Seq<(Range<u8>, T)>, j: int, h: int)
    requires
        tiles_exactly(rs),
        0 <= j < rs.len(),
        pair_covers(rs[j], h),
    ensures
        value_at(rs, h) == rs[j].1,
{
    lemma_first_cover_index_char(rs, 0, h);
    let i = first_cover_index(rs, 0, h);
    if i == rs.len() {
        assert(!pair_covers(rs[j], h));
        assert(false);
    }
    assert(pair_covers(rs[i], h));
    assert(i == j);
}

/// A range list without double assignment but with an unassigned hour is
/// rejected as a gap at the first such hour.
pub proof fn lemma_gap_rejected<T>(rs: Seq<(Range<u8>, T)>, h0: int)
    requires
        forall|j1: int, j2: int, h: int|
            0 <= j1 < rs.len() && 0 <= j2 < rs.len() && #[trigger] pair_covers(rs[j1], h)
                && #[trigger] pair_covers(rs[j2], h) ==> j1 == j2,
        0 <= h0 < 24,
        !covered_by_prefix(rs, rs.len() as int, h0),
        forall|h: int| 0 <= h < h0 ==> #[trigger] covered_by_prefix(rs, rs.len() as int, h),
    ensures
        validation_error(rs) == Some(FloorConfigError::RangeGap(h0 as u8)),
{
    lemma_first_overlap_from_char(rs, 0);
    match first_overlap_from(rs, 0) {
        None => {},
        Some(h) => {
            let j2 = choose|j2: int|
                {
                    &&& 0 <= j2 < rs.len()
                    &&& #[trigger] first_dup_from(rs, j2, rs[j2].0.start as int) == Some(h)
                    &&& forall|j3: int|
                        0 <= j3 < j2 ==> (#[trigger] first_dup_from(
                            rs,
                            j3,
                            rs[j3].0.start as int,
                        )) is None
                };
            lemma_first_dup_from_char(rs, j2, rs[j2].0.start as int);
            assert(pair_covers(rs[j2], h));
            assert(covered_by_prefix(rs, j2, h));
            let j1 = choose|j1: int| 0 <= j1 < j2 && pair_covers(#[trigger] rs[j1], h);
            assert(pair_covers(rs[j1], h));
            assert(false);
        },
    }
    lemma_first_gap_from_char(rs, 0);
    match first_gap_from(rs, 0) {
        None => {
            assert(covered_by_prefix(rs, rs.len() as int, h0));
            assert(false);
        },
        Some(g) => {
            if g < h0 {
                assert(covered_by_prefix(rs, rs.len() as int, g));
                assert(false);
            } else if g > h0 {
                assert(covered_by_prefix(rs, rs.len() as int, h0));
                assert(false);
            }
        },
    }
}

/// A range list that assigns some hour twice is rejected as an overlap, and
/// the reported hour really is assigned by two distinct pairs.
pub proof fn lemma_overlap_rejected<T>(rs: Seq<(Range<u8>, T)>, j1: int, j2: int, h: int) -> (hr:
    u8)
    requires
        ranges_in_day(rs),
        0 <= j1 < j2 < rs.len(),
        pair_covers(rs[j1], h),
        pair_covers(rs[j2], h),
    ensures
        validation_error(rs) == Some(FloorConfigError::RangeOverlap(hr)),
        hr < 24,
        exists|a: int, b: int|
            0 <= a < b < rs.len() && #[trigger] pair_covers(rs[a], hr as int)
                && #[trigger] pair_covers(rs[b], hr as int),
{
    lemma_first_overlap_from_char(rs, 0);
    match first_overlap_from(rs, 0) {
        None => {
            assert(first_dup_from(rs, j2, rs[j2].0.start as int) is None);
            lemma_first_dup_from_char(rs, j2, rs[j2].0.start as int);
            assert(covered_by_prefix(rs, j2, h));
            assert(false);
            0
        },
        Some(ho) => {
            let jx = choose|jx: int|
                {
                    &&& 0 <= jx < rs.len()
                    &&& #[trigger] first_dup_from(rs, jx, rs[jx].0.start as int) == Some(ho)
                    &&& forall|j3: int|
                        0 <= j3 < jx ==> (#[trigger] first_dup_from(
                            rs,
                            j3,
                            rs[j3].0.start as int,
                        )) is None
                };
            lemma_first_dup_from_char(rs, jx, rs[jx].0.start as int);
            assert(pair_covers(rs[jx], ho));
            assert(covered_by_prefix(rs, jx, ho));
            let ja = choose|ja: int| 0 <= ja < jx && pair_covers(#[trigger] rs[ja], ho);
            assert(0 <= ho < 24) by {
                assert(rs[jx].0.start <= ho < rs[jx].0.end);
                assert(rs[jx].0.start < rs[jx].0.end);
                assert(rs[jx].0.end <= 24);
            }
            let hr = ho as u8;
            assert(pair_covers(rs[ja], hr as int));
            assert(pair_covers(rs[jx], hr as int));
            hr
        },
    }
}

/// Resolve a list of (hour range, value) pairs onto the 24 hourly slots,
/// rejecting the first hour set twice or left unset.
pub fn resolve_and_validate_range<T: Copy>(vec: Vec<(Range<u8>, T)>) -> (r: Result<
    Vec<T>,
    FloorConfigError,
>)
    requires
        ranges_in_day(vec@),
    ensures
        match r {
            Ok(table) => {
                &&& first_overlap_from(vec@, 0) is None
                &&& first_gap_from(vec@, 0) is None
                &&& table@.len() == 24
                &&& forall|h: int| 0 <= h < 24 ==> #[trigger] table@[h] == value_at(vec@, h)
            },
            Err(FloorConfigError::RangeOverlap(h)) => first_overlap_from(vec@, 0) == Some(h as int),
            Err(FloorConfigError::RangeGap(h)) => {
                &&& first_overlap_from(vec@, 0) is None
                &&& first_gap_from(vec@, 0) == Some(h as int)
            },
        },
{
    let mut resolved: Vec<Option<T>> = Vec::new();
    let mut k: usize = 0;
    while k < 24
        invariant
            resolved@.len() == k,
            k <= 24,
            forall|h: int| 0 <= h < k ==> #[trigger] resolved@[h] is None,
        decreases 24 - k,
    {
        resolved.push(None);
        k = k + 1;
    }
    let n = vec.len();
    let mut jj: usize = 0;
    while jj < n
        invariant
            ranges_in_day(vec@),
            n == vec@.len(),
            jj <= n,
            resolved@.len() == 24,
            forall|j2: int, h: int|
                0 <= j2 < jj && #[trigger] pair_covers(vec@[j2], h) ==> !covered_by_prefix(
                    vec@,
                    j2,
                    h,
                ),
            forall|h: int|
                0 <= h < 24 ==> #[trigger] resolved@[h] == (if covered_by_prefix(
                    vec@,
                    jj as int,
                    h,
                ) {
                    Some(value_at(vec@, h))
                } else {
                    None::<T>
                }),
        decreases n - jj,
    {
        let start = vec[jj].0.start;
        let end = vec[jj].0.end;
        let value = vec[jj].1;
        if start < end {
            let mut i = start;
            while i < end
                invariant
                    ranges_in_day(vec@),
                    n == vec@.len(),
                    jj < n,
                    start == vec@[jj as int].0.start,
                    end == vec@[jj as int].0.end,
                    value == vec@[jj as int].1,
                    start <= i <= end,
                    end <= 24,
                    resolved@.len() == 24,
                    forall|j2: int, h: int|
                        0 <= j2 < jj && #[trigger] pair_covers(vec@[j2], h) ==> !covered_by_prefix(
                            vec@,
                            j2,
                            h,
                        ),
                    forall|h: int|
                        start <= h < i ==> !(#[trigger] covered_by_prefix(vec@, jj as int, h)),
                    forall|h: int|
                        0 <= h < 24 ==> #[trigger] resolved@[h] == (if covered_by_prefix(
                            vec@,
                            jj as int,
                            h,
                        ) || (start <= h < i) {
                            Some(value_at(vec@, h))
                        } else {
                            None::<T>
                        }),
                decreases end - i,
            {
                if resolved[i as usize].is_some() {
                    proof {
                        assert(covered_by_prefix(vec@, jj as int, i as int));
                        lemma_first_dup_from_char(vec@, jj as int, start as int);
                        match first_dup_from(vec@, jj as int, start as int) {
                            None => {
                                assert(false);
                            },
                            Some(hd) => {
                                assert(hd == i as int);
                            },
                        }
                        lemma_first_overlap_from_char(vec@, 0);
                        match first_overlap_from(vec@, 0) {
                            None => {
                                assert(false);
                            },
                            Some(ho) => {
                                let j2 = choose|j2: int|
                                    {
                                        &&& 0 <= j2 < vec@.len()
                                        &&& #[trigger] first_dup_from(
                                            vec@,
                                            j2,
                                            vec@[j2].0.start as int,
                                        ) == Some(ho)
                                        &&& forall|j3: int|
                                            0 <= j3 < j2 ==> (#[trigger] first_dup_from(
                                                vec@,
                                                j3,
                                                vec@[j3].0.start as int,
                                            )) is None
                                    };
                                if j2 < jj as int {
                                    lemma_first_dup_from_char(vec@, j2, vec@[j2].0.start as int);
                                    assert(pair_covers(vec@[j2], ho));
                                    assert(covered_by_prefix(vec@, j2, ho));
                                    assert(false);
                                } else if j2 > jj as int {
                                    assert(first_dup_from(
                                        vec@,
                                        jj as int,
                                        vec@[jj as int].0.start as int,
                                    ) is None);
                                    assert(false);
                                }
                                assert(ho == i as int);
                            },
                        }
                    }
                    return Err(FloorConfigError::RangeOverlap(i));
                }
                resolved[i as usize] = Some(value);
                proof {
                    lemma_first_cover_index_char(vec@, 0, i as int);
                    let i0 = first_cover_index(vec@, 0, i as int);
                    assert(pair_covers(vec@[jj as int], i as int));
                    if i0 < jj as int {
                        assert(covered_by_prefix(vec@, jj as int, i as int));
                        assert(false);
                    }
                    assert(i0 == jj as int);
                    assert(value_at(vec@, i as int) == value);
                }
                i = i + 1;
            }
            proof {
                assert forall|h: int| 0 <= h < 24 implies #[trigger] resolved@[h]
                    == (if covered_by_prefix(vec@, jj as int + 1, h) {
                    Some(value_at(vec@, h))
                } else {
                    None::<T>
                }) by {
                    if covered_by_prefix(vec@, jj as int + 1, h) {
                        let j2 = choose|j2: int|
                            0 <= j2 < jj as int + 1 && pair_covers(#[trigger] vec@[j2], h);
                        if j2 < jj as int {
                            assert(covered_by_prefix(vec@, jj as int, h));
                        } else {
                            assert(pair_covers(vec@[jj as int], h));
                            assert(start <= h < i);
                        }
                    } else {
                        assert(!covered_by_prefix(vec@, jj as int, h)) by {
                            if covered_by_prefix(vec@, jj as int, h) {
                                let j2 = choose|j2: int|
                                    0 <= j2 < jj as int && pair_covers(#[trigger] vec@[j2], h);
                                assert(pair_covers(vec@[j2], h));
                            }
                        }
                        assert(!(start <= h < i)) by {
                            if start <= h < i {
                                assert(pair_covers(vec@[jj as int], h));
                            }
                        }
                    }
                }
            }
        } else {
            proof {
                assert forall|h: int| 0 <= h < 24 implies #[trigger] resolved@[h]
                    == (if covered_by_prefix(vec@, jj as int + 1, h) {
                    Some(value_at(vec@, h))
                } else {
                    None::<T>
                }) by {
                    if covered_by_prefix(vec@, jj as int + 1, h) && !covered_by_prefix(
                        vec@,
                        jj as int,
                        h,
                    ) {
                        let j2 = choose|j2: int|
                            0 <= j2 < jj as int + 1 && pair_covers(#[trigger] vec@[j2], h);
                        assert(j2 == jj as int);
                        assert(false);
                    }
                }
            }
        }
        jj = jj + 1;
    }
    proof {
        assert forall|j2: int| 0 <= j2 < vec@.len() implies (#[trigger] first_dup_from(
            vec@,
            j2,
            vec@[j2].0.start as int,
        )) is None by {
            lemma_first_dup_from_char(vec@, j2, vec@[j2].0.start as int);
            match first_dup_from(vec@, j2, vec@[j2].0.start as int) {
                None => {},
                Some(hd) => {
                    assert(pair_covers(vec@[j2], hd));
                    assert(false);
                },
            }
        }
        lemma_first_overlap_from_char(vec@, 0);
        match first_overlap_from(vec@, 0) {
            None => {},
            Some(h) => {
                assert(false);
            },
        }
    }
    let mut h: usize = 0;
    let mut table: Vec<T> = Vec::new();
    while h < 24
        invariant
            resolved@.len() == 24,
            h <= 24,
            table@.len() == h,
            first_overlap_from(vec@, 0) is None,
            forall|x: int|
                0 <= x < 24 ==> #[trigger] resolved@[x] == (if covered_by_prefix(
                    vec@,
                    vec@.len() as int,
                    x,
                ) {
                    Some(value_at(vec@, x))
                } else {
                    None::<T>
                }),
            forall|x: int| 0 <= x < h ==> #[trigger] table@[x] == value_at(vec@, x),
            forall|x: int| 0 <= x < h ==> #[trigger] covered_by_prefix(vec@, vec@.len() as int, x),
        decreases 24 - h,
    {
        match resolved[h] {
            Some(v) => {
                table.push(v);
            },
            None => {
                proof {
                    lemma_first_gap_from_char(vec@, 0);
                    match first_gap_from(vec@, 0) {
                        None => {
                            assert(false);
                        },
                        Some(g) => {
                            if g < h as int {
                                assert(covered_by_prefix(vec@, vec@.len() as int, g));
                                assert(false);
                            } else if g > h as int {
                                assert(covered_by_prefix(vec@, vec@.len() as int, h as int));
                                assert(false);
                            }
                        },
                    }
                }
                return Err(FloorConfigError::RangeGap(h as u8));
            },
        }
        h = h + 1;
    }
    proof {
        lemma_first_gap_from_char(vec@, 0);
        match first_gap_from(vec@, 0) {
            None => {},
            Some(g) => {
                assert(covered_by_prefix(vec@, vec@.len() as int, g));
                assert(false);
            },
        }
    }
    Ok(table)
}

/// A floor's full-day configuration: for each of the 24 hours, its
/// sink-or-source tag and its strength.
#[derive(Clone, Debug)]
pub struct RawFloorConfig {
    pub sink_or_source: Vec<SinkOrSource>,
    pub strength: Vec<usize>,
}

/// A `RawFloorConfig` evaluated at one hour of the day for one floor.
#[derive(Clone, Copy, Debug, Eq, PartialEq, Structural)]
pub struct ResolvedFloorConfig {
    pub sink_or_source: SinkOrSource,
    pub strength: usize,
    pub floor_num: FloorNum,
}

impl RawFloorConfig {
    /// Both hourly tables are fully populated, with bounded strengths.
    pub open spec fn wf(self) -> bool {
        &&& self.sink_or_source@.len() == 24
        &&& self.strength@.len() == 24
        &&& forall|h: int| 0 <= h < 24 ==> #[trigger] self.strength@[h] <= MAX_STRENGTH
    }

    /// Build a configuration from independent (hour range, value) lists for
    /// the tag and the strength. Fails on the first hour assigned twice or
    /// left unassigned, checking the tag list first.
    pub fn new(sink_or_source: Vec<(Range<u8>, SinkOrSource)>, strength: Vec<(Range<u8>, usize)>)
        -> (r: Result<RawFloorConfig, FloorConfigError>)
        requires
            ranges_in_day(sink_or_source@),
            ranges_in_day(strength@),
            forall|j: int|
                0 <= j < strength@.len() ==> (#[trigger] strength@[j]).1 <= MAX_STRENGTH,
        ensures
            match r {
                Ok(c) => {
                    &&& validation_error(sink_or_source@) is None
                    &&& validation_error(strength@) is None
                    &&& c.wf()
                    &&& forall|h: int|
                        0 <= h < 24 ==> #[trigger] c.sink_or_source@[h] == value_at(
                            sink_or_source@,
                            h,
                        )
                    &&& forall|h: int|
                        0 <= h < 24 ==> #[trigger] c.strength@[h] == value_at(strength@, h)
                },
                Err(e) => validation_error(sink_or_source@) == Some(e) || (validation_error(
                    sink_or_source@,
                ) is None && validation_error(strength@) == Some(e)),
            },
    {
        let sink_or_source = match resolve_and_validate_range(sink_or_source) {
            Ok(table) => table,
            Err(e) => {
                return Err(e);
            },
        };
        let strength_vec = match resolve_and_validate_range(strength) {
            Ok(table) => table,
            Err(e) => {
                return Err(e);
            },
        };
        proof {
            assert forall|h: int| 0 <= h < 24 implies #[trigger] strength_vec@[h]
                <= MAX_STRENGTH by {
                lemma_first_gap_from_char(strength@, 0);
                assert(covered_by_prefix(strength@, strength@.len() as int, h));
                lemma_first_cover_index_char(strength@, 0, h);
                let i = first_cover_index(strength@, 0, h);
                if i == strength@.len() {
                    let jw = choose|jw: int|
                        0 <= jw < strength@.len() && pair_covers(#[trigger] strength@[jw], h);
                    assert(!pair_covers(strength@[jw], h));
                    assert(false);
                }
            }
        }
        Ok(RawFloorConfig { sink_or_source, strength: strength_vec })
    }

    /// Look up the configuration at one hour, tagged with the floor number.
    pub fn resolve(&self, hour_of_day: HourOfDay, floor_num: FloorNum) -> (r: ResolvedFloorConfig)
        requires
            self.wf(),
            hour_of_day.0 < 24,
        ensures
            r.sink_or_source == self.sink_or_source@[hour_of_day.0 as int],
            r.strength == self.strength@[hour_of_day.0 as int],
            r.floor_num == floor_num,
            r.strength <= MAX_STRENGTH,
    {
        let sink_or_source = self.sink_or_source[hour_of_day.0 as usize];
        let strength = self.strength[hour_of_day.0 as usize];
        ResolvedFloorConfig { sink_or_source, strength, floor_num }
    }
}

} // verus!
