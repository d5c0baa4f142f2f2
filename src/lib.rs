//! Witness and fixed-column generation for stepped circuits: per-step
//! assignment records, the ordered trace witness with row padding, a reusable
//! trace generator, and a zero-filled fixed-column context.

pub mod fixed;
pub mod signal;
pub mod step;
pub mod text;
pub mod trace;
