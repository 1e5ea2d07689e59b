//! Frame information and trap symbolication for a WebAssembly runtime.
//!
//! Given a raw machine program counter observed during a trap or a stack
//! walk, this library reconstructs a WebAssembly-level frame: the module
//! the counter falls in, the function inside that module, and the byte
//! offset in the original module binary that the trapping instruction was
//! compiled from.  It does so with compact sorted side-tables kept in a
//! registry of module address ranges; per-function tables arrive either
//! decoded or as a serialised blob that is decoded on first use.

pub mod address_map;
pub mod backtrace;
pub mod codec;
pub mod debug_cell;
pub mod frame;
pub mod laws;
pub mod metadata;
pub mod registry;
pub mod trap_points;
