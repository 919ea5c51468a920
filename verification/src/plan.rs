//! A compiled layout's sides, as the fight reads them: what each side
//! carries, and where each of its placements stands.

use vstd::prelude::*;

verus! {

/// What a placement is in the build: a unit formation of some type id, a
/// construction of some id, or something else.
#[derive(Debug, Clone, Copy, PartialEq, Eq, Structural)]
pub enum NativeFormation {
    Unit(i32),
    Construction(i32),
    Other,
}

/// Where a placement stands on its side's half of the board, in whole metres.
#[derive(Debug, Clone, Copy, PartialEq, Eq, Structural)]
pub struct Position {
    pub x: i32,
    pub y: i32,
}

/// One placement of a side: a formation of units, or a construction.
#[derive(Debug, Clone)]
pub struct Placement {
    pub name: String,
    pub native: NativeFormation,
    /// The footprint the layout declares, in whole metres, width then depth.
    pub footprint: Option<(i64, i64)>,
    pub position: Position,
    pub index: Option<i32>,
    pub level: Option<i32>,
    pub rotated: bool,
    /// The equipment the formation wears, by id.
    pub equipment: Vec<i32>,
    pub travelling: bool,
}

/// One side of a compiled layout.
#[derive(Debug, Clone)]
pub struct SidePlan {
    /// The officers the side holds, by id.
    pub officers: Vec<i32>,
    /// The unit technologies the side holds, by id.
    pub unit_technologies: Vec<i32>,
    pub energy_tower_skills: usize,
    pub tower_strengthen_levels: Vec<i32>,
    pub battle_skills: usize,
    pub constructions: Vec<Placement>,
    pub contraptions: usize,
    pub airdrop_shields: usize,
    pub terrains: usize,
    pub units: Vec<Placement>,
}

} // verus!
