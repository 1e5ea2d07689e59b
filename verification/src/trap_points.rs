//! Per-function trap points: sorted tables classifying the machine-code
//! offsets at which the compiler emitted a deterministic trap.

use vstd::prelude::*;

verus! {

/// The reason a compiler-declared trap site traps.
#[derive(Clone, Copy, PartialEq, Eq, Structural, Debug)]
pub enum TrapKind {
    /// A `unreachable` instruction was executed.
    UnreachableCodeReached,
    /// The call stack was exhausted.
    StackOverflow,
    /// A memory access was out of bounds.
    HeapAccessOutOfBounds,
    /// A memory access was misaligned.
    HeapMisaligned,
    /// A table access was out of bounds.
    TableAccessOutOfBounds,
    /// An indirect call hit a null table entry.
    IndirectCallToNull,
    /// An indirect call's signature did not match the callee.
    BadSignature,
    /// Integer arithmetic overflowed.
    IntegerOverflow,
    /// An integer division by zero.
    IntegerDivisionByZero,
    /// A float-to-integer conversion had no representable result.
    BadConversionToInteger,
}

/// One trap site: the machine-code offset of the trapping instruction,
/// relative to the function start, and the kind of trap it raises.
#[derive(Clone, Copy, PartialEq, Eq, Structural, Debug)]
pub struct TrapPoint {
    /// Offset of the trap site, relative to the function start.
    pub code_offset: u32,
    /// The reason this site traps.
    pub kind: TrapKind,
}

/// Trap points are strictly ascending by `code_offset`, so each offset
/// classifies at most one site.
pub open spec fn traps_sorted(rows: Seq<TrapPoint>) -> bool {
    forall|i: int, j: int| #![trigger rows[i], rows[j]]
        0 <= i < j < rows.len() ==> rows[i].code_offset < rows[j].code_offset
}

/// Index of the trap point whose offset is exactly `rel`, if any.
/// Lookups use exact match: an offset that merely falls inside a
/// trapping instruction is not a declared trap site.
pub open spec fn trap_index(rows: Seq<TrapPoint>, rel: int) -> Option<int> {
    if exists|i: int| 0 <= i < rows.len() && (#[trigger] rows[i]).code_offset == rel {
        Some(choose|i: int| 0 <= i < rows.len() && (#[trigger] rows[i]).code_offset == rel)
    } else {
        None
    }
}

/// Binary search for the trap point recorded at exactly offset `rel`.
pub fn find_trap(rows: &Vec<TrapPoint>, rel: usize) -> (r: Option<usize>)
    requires
        traps_sorted(rows@),
    ensures
        match r {
            Some(i) => i < rows@.len() && rows@[i as int].code_offset == rel
                && trap_index(rows@, rel as int) == Some(i as int),
            None => trap_index(rows@, rel as int) is None,
        },
{
    let mut lo: usize = 0;
    let mut hi: usize = rows.len();
    while lo < hi
        invariant
            lo <= hi <= rows@.len(),
            traps_sorted(rows@),
            forall|k: int| 0 <= k < lo ==> (#[trigger] rows@[k]).code_offset < rel,
            forall|k: int| hi <= k < rows@.len() ==> (#[trigger] rows@[k]).code_offset > rel,
        decreases hi - lo,
    {
        let mid = lo + (hi - lo) / 2;
        let off = rows[mid].code_offset as usize;
        if off < rel {
            lo = mid + 1;
        } else if off > rel {
            hi = mid;
        } else {
            proof {
                let w = choose|i: int| 0 <= i < rows@.len()
                    && (#[trigger] rows@[i]).code_offset == rel as int;
                assert(rows@[mid as int].code_offset == rel);
                if w != mid {
                    assert(rows@[w].code_offset != rows@[mid as int].code_offset);
                }
            }
            return Some(mid);
        }
    }
    None
}

} // verus!
