//! Built-in bitmap fonts.

pub mod limited_3x5;
pub mod standard_6x7;
