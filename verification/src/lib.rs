//! A batch kernel for Kepler's equation, `E - e sin(E) = M`.
//!
//! The kernel works on the bit patterns of binary floating-point numbers. It
//! owns every decision of the solver (the starting estimate, the convergence
//! test, the iteration cap, the shape of a batch) and the order in which the
//! arithmetic is applied; the arithmetic itself is supplied by the caller.

pub mod batch;
pub mod binary;
pub mod precision;
pub mod registry;
pub mod solver;
