//! Deterministic fixed-point battle rules: the arithmetic, the random stream,
//! the target search tree and the loadout tables a fight is built from.

pub mod fixed;
pub mod trig;
pub mod motion;
pub mod random;
pub mod quadtree;
pub mod data;
pub mod text;
pub mod rules;
pub mod modifier;
pub mod plan;
pub mod module;
pub mod layout;
pub mod kernel;
pub mod compile;
pub mod formation;
pub mod buildings;
pub mod order;
pub mod attack;
pub mod engagement;
pub mod hits;
pub mod targeting;
pub mod lock;
pub mod trees;
pub mod projectile;
pub mod group;
pub mod releases;
pub mod skill;
pub mod search;
pub mod cooling;
pub mod ending;
pub mod burst;
pub mod run;
pub mod fight;

use vstd::prelude::*;

verus! {

/// Why a layout, a table or a fight was refused.
#[derive(Debug)]
pub struct Error {
    pub message: String,
}

impl Error {
    /// An error that says `message`.
    pub fn new(message: String) -> (error: Self)
        ensures
            error.message@ == message@,
    {
        Error { message }
    }
}

} // verus!
