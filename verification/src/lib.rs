//! A signed fixed-point number packed into three 32-bit words, tagged with the
//! number of magnitude bits that are considered significant.

pub mod decimal;
pub mod laws;
pub mod render;
