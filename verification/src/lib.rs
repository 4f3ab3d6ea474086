//! A verified interpreter for a two-dimensional, stack-based esoteric
//! language executed on a fixed-size toroidal playfield.
//!
//! The playfield is a 25 x 80 grid of bytes. An instruction pointer walks
//! the grid in one of four directions, wrapping at every edge, and each cell
//! it visits is dispatched as an instruction over a growable stack of signed
//! 64-bit integers. The grid itself is mutable at run time, so programs can
//! rewrite themselves.
//!
//! The `semantics` module gives the mathematical model: the machine state and
//! the single-step transition function. The `b93` module holds the executable
//! machine, proved to follow that model step for step. The `numeric` module
//! holds the verified text conversions used by the input and output
//! instructions.

pub mod b93;
pub mod numeric;
pub mod semantics;
