//! Per-function address maps: sorted tables translating machine-code
//! offsets inside a compiled function to byte offsets in the original
//! module binary.

use vstd::prelude::*;

verus! {

/// One row of a function's address map: the machine-code bytes in
/// `[code_offset, code_offset + code_len)` were compiled from the
/// instruction at byte `src_offset` of the original module.
#[derive(Clone, Copy, PartialEq, Eq, Structural, Debug)]
pub struct InstructionMapEntry {
    /// Offset of the machine instruction, relative to the function start.
    pub code_offset: u32,
    /// Length in bytes of the machine code for this instruction.
    pub code_len: u32,
    /// Byte offset of the source instruction in the original module.
    pub src_offset: u32,
}

/// Per-function table mapping machine-code offsets to source offsets,
/// plus the byte offset where the function itself begins in the
/// original module.
#[derive(Debug)]
pub struct AddressMap {
    /// Byte offset in the original module where the function body begins.
    pub start_src: u32,
    /// Rows sorted strictly ascending by `code_offset`, pairwise
    /// non-overlapping.
    pub instructions: Vec<InstructionMapEntry>,
}

/// The rows are strictly ascending by `code_offset`, their machine-code
/// ranges do not overlap, and no range wraps past `u32::MAX`.
pub open spec fn entries_sorted(rows: Seq<InstructionMapEntry>) -> bool {
    &&& forall|i: int| 0 <= i < rows.len()
            ==> (#[trigger] rows[i]).code_offset + rows[i].code_len <= u32::MAX
    &&& forall|i: int, j: int| #![trigger rows[i], rows[j]]
            0 <= i < j < rows.len()
            ==> rows[i].code_offset < rows[j].code_offset
                && rows[i].code_offset + rows[i].code_len <= rows[j].code_offset
}

/// Every row's source offset lies at or after the function's own start
/// offset, so a frame's function-relative offset never underflows.
pub open spec fn entries_src_bounded(rows: Seq<InstructionMapEntry>, start_src: u32) -> bool {
    forall|i: int| 0 <= i < rows.len() ==> start_src <= (#[trigger] rows[i]).src_offset
}

impl AddressMap {
    /// Well-formedness of a whole address map.
    pub open spec fn wf(&self) -> bool {
        &&& entries_sorted(self.instructions@)
        &&& entries_src_bounded(self.instructions@, self.start_src)
    }
}

/// Whether a row covers the function-relative offset `rel`: either the
/// row starts exactly at `rel`, or `rel` falls strictly inside the row's
/// machine-code range.  The first disjunct matters for zero-length rows,
/// which still answer an exact hit.
pub open spec fn entry_matches(e: InstructionMapEntry, rel: int) -> bool {
    e.code_offset == rel || (e.code_offset <= rel && rel < e.code_offset + e.code_len)
}

/// Index of the row covering `rel`, if any.  Under `entries_sorted`
/// there is at most one such row.
pub open spec fn match_index(rows: Seq<InstructionMapEntry>, rel: int) -> Option<int> {
    if exists|i: int| 0 <= i < rows.len() && entry_matches(#[trigger] rows[i], rel) {
        Some(choose|i: int| 0 <= i < rows.len() && entry_matches(#[trigger] rows[i], rel))
    } else {
        None
    }
}

/// The source offset reported for the function-relative offset `rel`:
/// the covering row's source offset, or the function's start offset when
/// no row covers `rel`.
pub open spec fn resolved_src(start_src: u32, rows: Seq<InstructionMapEntry>, rel: int) -> u32 {
    match match_index(rows, rel) {
        Some(i) => rows[i].src_offset,
        None => start_src,
    }
}

/// In a sorted table at most one row covers any offset.
pub proof fn lemma_match_unique(rows: Seq<InstructionMapEntry>, rel: int, i: int, j: int)
    requires
        entries_sorted(rows),
        0 <= i < rows.len(),
        0 <= j < rows.len(),
        entry_matches(rows[i], rel),
        entry_matches(rows[j], rel),
    ensures
        i == j,
{
    if i < j {
        assert(rows[i].code_offset + rows[i].code_len <= rows[j].code_offset);
        assert(false);
    }
    if j < i {
        assert(rows[j].code_offset + rows[j].code_len <= rows[i].code_offset);
        assert(false);
    }
}

/// Binary search for the row covering the function-relative offset
/// `rel`.  A miss at position `n` still consults row `n - 1`, because a
/// program counter captured one byte into an instruction (for example
/// `pc - 1` computed from a return address) must resolve to the row it
/// falls inside rather than to an exact key.
pub fn find_instruction(rows: &Vec<InstructionMapEntry>, rel: usize) -> (r: Option<usize>)
    requires
        entries_sorted(rows@),
    ensures
        match r {
            Some(i) => i < rows@.len() && entry_matches(rows@[i as int], rel as int)
                && match_index(rows@, rel as int) == Some(i as int),
            None => match_index(rows@, rel as int) is None,
        },
{
    let mut lo: usize = 0;
    let mut hi: usize = rows.len();
    while lo < hi
        invariant
            lo <= hi <= rows@.len(),
            entries_sorted(rows@),
            forall|k: int| 0 <= k < lo ==> (#[trigger] rows@[k]).code_offset <= rel,
            forall|k: int| hi <= k < rows@.len() ==> (#[trigger] rows@[k]).code_offset > rel,
        decreases hi - lo,
    {
        let mid = lo + (hi - lo) / 2;
        if (rows[mid].code_offset as usize) <= rel {
            lo = mid + 1;
        } else {
            hi = mid;
        }
    }
    if lo == 0 {
        proof {
            assert forall|k: int| 0 <= k < rows@.len()
                implies !entry_matches(rows@[k], rel as int) by {
                assert(rows@[k].code_offset > rel);
            }
        }
        return None;
    }
    let e = rows[lo - 1];
    let off = e.code_offset as usize;
    if off == rel || (off <= rel && rel - off < (e.code_len as usize)) {
        proof {
            assert(entry_matches(rows@[lo - 1], rel as int));
            let w = choose|i: int| 0 <= i < rows@.len()
                && entry_matches(#[trigger] rows@[i], rel as int);
            lemma_match_unique(rows@, rel as int, w, lo - 1);
        }
        Some(lo - 1)
    } else {
        proof {
            assert forall|k: int| 0 <= k < rows@.len()
                implies !entry_matches(rows@[k], rel as int) by {
                if k < lo - 1 {
                    assert(rows@[k].code_offset < rows@[lo - 1].code_offset);
                    assert(rows@[k].code_offset + rows@[k].code_len
                        <= rows@[lo - 1].code_offset);
                    assert(rows@[lo - 1].code_offset <= rel);
                } else if k >= lo {
                    assert(rows@[k].code_offset > rel);
                }
            }
        }
        None
    }
}

} // verus!
