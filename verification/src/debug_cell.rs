//! The lazy per-function debug cell: either an opaque serialised blob
//! or the decoded `(address map, trap points)` pair.  A cell moves from
//! serialised to decoded at most once and never back.

use vstd::prelude::*;

use crate::address_map::AddressMap;
use crate::codec::{FrameTables, blob_ok, blob_tables};
use crate::trap_points::{TrapPoint, traps_sorted};

verus! {

/// A function's debug side-tables, decoded on first use.  While
/// serialised, the blob is opaque: read paths never look inside it.
#[derive(Debug)]
pub enum FunctionDebug {
    /// The tables in their serialised wire form.
    Serialised(Vec<u8>),
    /// The decoded tables.
    Decoded(AddressMap, Vec<TrapPoint>),
}

impl FunctionDebug {
    /// A serialised cell holds a valid blob; a decoded cell holds well
    /// formed tables.  Decoding preserves this.
    pub open spec fn wf(&self) -> bool {
        match self {
            FunctionDebug::Serialised(b) => blob_ok(b@),
            FunctionDebug::Decoded(am, traps) => am.wf() && traps_sorted(traps@),
        }
    }

    /// The tables the cell carries, the same before and after decoding:
    /// what a serialised cell's blob decodes to, or the decoded pair.
    pub open spec fn tables(&self) -> FrameTables {
        match self {
            FunctionDebug::Serialised(b) => blob_tables(b@),
            FunctionDebug::Decoded(am, traps) => FrameTables {
                start_src: am.start_src,
                instructions: am.instructions@,
                traps: traps@,
            },
        }
    }

    /// Whether the cell still awaits decoding.
    pub fn is_serialised(&self) -> (r: bool)
        ensures
            r == (self is Serialised),
    {
        match self {
            FunctionDebug::Serialised(_) => true,
            FunctionDebug::Decoded(_, _) => false,
        }
    }
}

} // verus!
