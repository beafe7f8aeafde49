//! Building-level world generation: a level kind and a class pick a floor
//! count range, and a level is a run of sequentially numbered floors drawn
//! from that range.

use vstd::prelude::*;
use core::ops::Range;
use crate::rng::SimRng;

verus! {

/// Quality class of a level; higher classes carry more floors.
#[derive(Clone, Copy, Debug, PartialEq, Eq, Structural)]
pub enum Class {
    One,
    Two,
    Three,
    Four,
}

/// What the level is used as.
#[derive(Clone, Copy, Debug, PartialEq, Eq, Structural)]
pub enum LevelKind {
    Hotel,
}

/// What one floor of a level is used as.
#[derive(Clone, Copy, Debug, PartialEq, Eq, Structural)]
pub enum FloorKind {
    Regular,
    Lobby,
}

/// One floor of a generated level.
#[derive(Clone, Copy, Debug, PartialEq, Eq, Structural)]
pub struct Floor {
    pub kind: FloorKind,
    pub number: usize,
}

/// A generated building level.
#[derive(Clone, Debug, PartialEq)]
pub struct Level {
    pub kind: LevelKind,
    pub floors: Vec<Floor>,
    pub class: Class,
}

/// The half-open floor-count range a kind and class allow.
pub open spec fn spec_floor_count_bounds(kind: LevelKind, class: Class) -> (int, int) {
    match kind {
        LevelKind::Hotel => match class {
            Class::One => (5, 10),
            Class::Two => (7, 20),
            Class::Three => (17, 50),
            Class::Four => (40, 100),
        },
    }
}

impl LevelKind {
    /// How many floors a level of this kind and class may have.
    pub fn to_floor_count_of_class(&self, class: Class) -> (r: Range<usize>)
        ensures
            r.start == spec_floor_count_bounds(*self, class).0,
            r.end == spec_floor_count_bounds(*self, class).1,
            r.start < r.end,
    {
        match self {
            LevelKind::Hotel => match class {
                Class::One => 5..10,
                Class::Two => 7..20,
                Class::Three => 17..50,
                Class::Four => 40..100,
            },
        }
    }
}

impl Floor {
    pub fn new(number: usize, kind: FloorKind) -> (r: Floor)
        ensures
            r.number == number,
            r.kind == kind,
    {
        Floor { kind, number }
    }
}

impl Level {
    /// Draw a floor count from the kind/class range and build that many
    /// sequentially numbered regular floors.
    pub fn create(kind: LevelKind, class: Class, rng: &mut SimRng) -> (r: Level)
        ensures
            r.kind == kind,
            r.class == class,
            spec_floor_count_bounds(kind, class).0 <= r.floors@.len() < spec_floor_count_bounds(
                kind,
                class,
            ).1,
            forall|i: int|
                0 <= i < r.floors@.len() ==> #[trigger] r.floors@[i] == (Floor {
                    kind: FloorKind::Regular,
                    number: i as usize,
                }),
    {
        let possible_floor_range = kind.to_floor_count_of_class(class);
        let width = (possible_floor_range.end - possible_floor_range.start) as u64;
        let floor_count = possible_floor_range.start + rng.below(width) as usize;
        let mut floors: Vec<Floor> = Vec::new();
        let mut i: usize = 0;
        while i < floor_count
            invariant
                i <= floor_count,
                floors@.len() == i,
                forall|k: int|
                    0 <= k < i ==> #[trigger] floors@[k] == (Floor {
                        kind: FloorKind::Regular,
                        number: k as usize,
                    }),
            decreases floor_count - i,
        {
            floors.push(Floor::new(i, FloorKind::Regular));
            i = i + 1;
        }
        Level { kind, floors, class }
    }
}

} // verus!
