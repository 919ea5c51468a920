//! What a unit's officers, technologies, equipment and level write onto it
//! before the fight begins.
//!
//! [`effects`] is what every table writes; [`officers`], [`technologies`],
//! [`equipment`] and [`levels`] each hold their own table, and [`targets`]
//! says which units a row's targeting category reaches.

pub mod effects;
pub mod targets;
pub mod officers;
pub mod technologies;
pub mod equipment;
pub mod levels;
