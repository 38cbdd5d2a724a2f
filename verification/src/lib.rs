//! Tag-weighted task sampling and a work/break cycle state machine.
//!
//! A pool of tasks, each carrying a tag and an optional due instant, is
//! sampled in two stages: a categorical draw over tags, then a draw over the
//! chosen tag's tasks, weighted either uniformly or by deadline urgency.
//! A timer state machine sequences task time, short breaks and an occasional
//! long break, and says when a fresh task must be drawn.
//!
//! All probability mass is held in exact integer parts per million, so every
//! distribution sums to exactly [`mass::WEIGHT_SCALE`] and the stated
//! conservation laws are proved, not approximated.

pub mod assignment_utils;
pub mod balance;
pub mod cycle;
pub mod errors;
pub mod event;
pub mod mass;
pub mod rand_utils;
pub mod select;
pub mod settings_util;
pub mod urgency;
pub mod weighttable;
