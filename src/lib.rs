//! Dense square matrix multiplication, verified: CPU reference formulations
//! that provably agree element for element, and the plan and decisions of a
//! GPU compute run (job validation, command sequence, readback protocol).
pub mod dispatch;
pub mod kernel;
pub mod laws;
pub mod session;
