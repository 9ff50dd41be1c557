//! Target back ends.

pub mod urcl;
