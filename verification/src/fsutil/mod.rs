//! Filesystem-facing helpers: path names, copy bookkeeping and write-stability checks.
pub mod copy;
pub mod paths;
pub mod stability;
