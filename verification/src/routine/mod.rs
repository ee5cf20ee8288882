//! The maintenance routines.

pub mod daily;
