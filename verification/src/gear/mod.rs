//! Gear mode: the telescope and eyepiece catalogue, its settings and
//! files, and the rules of its two lists.

pub mod data;
pub mod ui;
