//! Audio cutting, subtitle timing and capture-scheduling logic.

pub mod text;
pub mod decimal;
pub mod duration;
pub mod timestamp;
pub mod pattern;
pub mod probe;
pub mod ffopt;
pub mod combine;
pub mod input;
pub mod span_bound;
pub mod capture;
