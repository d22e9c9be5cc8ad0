//! Pragmatic-format helpers for vehicle routing problems: a multi dimensional
//! capacity type, the plain problem and solution model read by the solution
//! checker, the checker's rules, violation code mapping and geojson colors.

pub mod capacity;
pub mod checker;
pub mod collections;
pub mod datetime;
pub mod format;
pub mod model;
pub mod text;
