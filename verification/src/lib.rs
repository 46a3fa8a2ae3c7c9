//! The verified core of astro: the calendar behind a night's date, the
//! gear catalogue's selection rules, the plan's target list and the text
//! helpers that the screens are built from.

pub mod calendar;
pub mod gear;
pub mod plan;
pub mod sky;
pub mod text;
