//! A cycle-level model of an out-of-order, speculative processor for a
//! subset of the ARM Thumb instruction set, with its contracts proved.
//!
//! - `binary`: bit-field helpers.
//! - `instr`, `decoder`, `expand`: instruction records, the Thumb decoder,
//!   and the expansion of multi-register forms into micro-operations.
//! - `registers`, `memory`, `image`: architectural state and program images.
//! - `alu`: the ALU and shifter.
//! - `rob`, `rs`: the reorder buffer with its register-status table, and
//!   the reservation stations.
//! - `ooo`: the out-of-order core and its per-cycle `tick`.
//! - `reference`: an in-order machine over the same state, to compare with.
//! - `btb`: a counter-based branch predictor.
//! - `laws`: properties that hold of every reachable state.

pub mod alu;
pub mod binary;
pub mod btb;
pub mod decoder;
pub mod expand;
pub mod image;
pub mod instr;
pub mod laws;
pub mod memory;
pub mod ooo;
pub mod reference;
pub mod registers;
pub mod rob;
pub mod rs;
