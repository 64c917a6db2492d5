//! Runtime architecture dispatch for sub-pixel motion compensation.
//!
//! Given a prediction block, a fractional pixel offset and a pair of
//! interpolation filter selections, this crate produces a full interpolated
//! prediction (`mc::put_8tap`), an intermediate high-precision prediction
//! buffer (`mc::prep_8tap`), and the final averaged prediction from two such
//! buffers (`mc::mc_avg`).  The `dispatch` module resolves, for a CPU
//! capability level and a filter-mode pair, which vector kernel (if any) an
//! unverified shell may invoke in place of the portable routines, and offers
//! comparison gates that hold any such kernel to the portable result.

pub mod cpu;
pub mod dispatch;
pub mod filter;
pub mod laws;
pub mod mc;
pub mod pixel;
pub mod plane;
