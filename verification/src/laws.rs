//! The registry's guarantees, stated and proved in one place: range
//! disjointness, which frame a counter in a function resolves to, the
//! fallback at a function's boundaries, idempotence and transparency
//! of lazy decoding, and what deregistration removes.

use vstd::prelude::*;

use crate::address_map::{entry_matches, lemma_match_unique, match_index, resolved_src};
use crate::codec::FrameTables;
use crate::debug_cell::FunctionDebug;
use crate::frame::FrameSpec;
use crate::registry::{
    GlobalFrameInfo, ModuleInfoFrameInfo, function_lookup, is_first_end_geq,
    lemma_first_end_geq_unique,
};

verus! {

/// Any two registered modules occupy disjoint host-address ranges.
pub proof fn lemma_registered_ranges_disjoint(r: GlobalFrameInfo, i: int, j: int)
    requires
        r.wf(),
        0 <= i < r.ranges@.len(),
        0 <= j < r.ranges@.len(),
        i != j,
    ensures
        r.ranges@[i].end < r.ranges@[j].start || r.ranges@[j].end < r.ranges@[i].start,
{
}

/// A frame looked up at an address inside a registered module's range
/// either does not resolve or names that very module.
pub proof fn lemma_frame_names_containing_module(r: GlobalFrameInfo, pc: usize, i: int)
    requires
        r.wf(),
        0 <= i < r.ranges@.len(),
        r.ranges@[i].contains(pc),
    ensures
        match r.frame_at(pc) {
            Some(f) => f.module_name == r.ranges@[i].module.name@,
            None => true,
        },
{
    r.lemma_module_index_of(pc, i);
}

/// No registered module's range holds `pc`: every lookup yields
/// nothing.
pub proof fn lemma_unmapped_pc_resolves_nothing(r: GlobalFrameInfo, pc: usize)
    requires
        r.wf(),
        forall|i: int| 0 <= i < r.ranges@.len() ==> !(#[trigger] r.ranges@[i]).contains(pc),
    ensures
        r.frame_at(pc) is None,
        r.trap_at(pc) is None,
        r.serialised_at(pc) is None,
{
    if r.module_index_of(pc) is Some {
        let w = choose|w: int| 0 <= w < r.ranges@.len()
            && (#[trigger] r.ranges@[w]).contains(pc);
        assert(!r.ranges@[w].contains(pc));
    }
}

/// The function at position `j` shares no address with any other
/// function of its module, not even a boundary address.
pub open spec fn function_isolated(m: ModuleInfoFrameInfo, j: int) -> bool {
    forall|k: int|
        0 <= k < m.functions@.len() && k != j
            ==> ((#[trigger] m.functions@[k]).end < m.functions@[j].start
                || m.functions@[j].end < m.functions@[k].start)
}

/// The debug tables of the function at position `j` of module `i`.
pub open spec fn tables_of(r: GlobalFrameInfo, i: int, j: int) -> FrameTables {
    r.ranges@[i].frame_infos@[r.ranges@[i].functions@[j].local_index as int].tables()
}

/// The descriptor every counter inside an isolated function resolves
/// to: the function's module and promoted index, with the instruction
/// source offset read from its address map at the counter's
/// function-relative offset.
pub proof fn lemma_frame_at_rel(r: GlobalFrameInfo, i: int, j: int, rel: int)
    requires
        r.wf(),
        0 <= i < r.ranges@.len(),
        0 <= j < r.ranges@[i].functions@.len(),
        function_isolated(r.ranges@[i], j),
        0 <= rel <= r.ranges@[i].functions@[j].end - r.ranges@[i].functions@[j].start,
    ensures
        r.frame_at((r.ranges@[i].functions@[j].start + rel) as usize) == Some(
            (FrameSpec {
                module_name: r.ranges@[i].module.name@,
                func_index: (r.ranges@[i].module.imported_function_count
                    + r.ranges@[i].functions@[j].local_index) as u32,
                function_name: r.ranges@[i].module.name_of(
                    (r.ranges@[i].module.imported_function_count
                        + r.ranges@[i].functions@[j].local_index) as u32,
                ),
                func_start: tables_of(r, i, j).start_src,
                instr: resolved_src(
                    tables_of(r, i, j).start_src,
                    tables_of(r, i, j).instructions,
                    rel,
                ),
            }),
        ),
{
    let m = r.ranges@[i];
    let f = m.functions@[j];
    let pc = (f.start + rel) as usize;
    assert(m.contains(pc));
    r.lemma_module_index_of(pc, i);
    assert(is_first_end_geq(m.functions@, pc, j)) by {
        assert forall|k: int| 0 <= k < j implies (#[trigger] m.functions@[k]).end < pc by {
            assert(m.functions@[k].end < m.functions@[j].end);
            assert(m.functions@[k].start <= m.functions@[k].end);
        }
    }
    assert forall|w: int| is_first_end_geq(m.functions@, pc, w) implies w == j by {
        lemma_first_end_geq_unique(m.functions@, pc, w, j);
    }
    assert(function_lookup(m.functions@, pc) == Some(j));
    assert(pc - f.start == rel);
}

/// A counter that lands on an address-map row — exactly on its key or
/// anywhere inside its machine-code range, as a return-address-biased
/// counter does — reports that row's source offset.
pub proof fn lemma_frame_at_covered_rel(r: GlobalFrameInfo, i: int, j: int, rel: int, k: int)
    requires
        r.wf(),
        0 <= i < r.ranges@.len(),
        0 <= j < r.ranges@[i].functions@.len(),
        function_isolated(r.ranges@[i], j),
        0 <= rel <= r.ranges@[i].functions@[j].end - r.ranges@[i].functions@[j].start,
        0 <= k < tables_of(r, i, j).instructions.len(),
        entry_matches(tables_of(r, i, j).instructions[k], rel),
    ensures
        match r.frame_at((r.ranges@[i].functions@[j].start + rel) as usize) {
            Some(f) => {
                &&& f.instr == tables_of(r, i, j).instructions[k].src_offset
                &&& f.func_index == (r.ranges@[i].module.imported_function_count
                    + r.ranges@[i].functions@[j].local_index) as u32
                &&& f.func_start <= f.instr
            },
            None => false,
        },
{
    lemma_frame_at_rel(r, i, j, rel);
    let t = tables_of(r, i, j);
    lemma_tables_wf(r, i, j);
    assert forall|w: int| 0 <= w < t.instructions.len()
        && entry_matches(#[trigger] t.instructions[w], rel) implies w == k by {
        lemma_match_unique(t.instructions, rel, w, k);
    }
    assert(match_index(t.instructions, rel) == Some(k));
}

/// A well-formed registry holds only well-formed debug tables.
pub proof fn lemma_tables_wf(r: GlobalFrameInfo, i: int, j: int)
    requires
        r.wf(),
        0 <= i < r.ranges@.len(),
        0 <= j < r.ranges@[i].functions@.len(),
    ensures
        tables_of(r, i, j).wf(),
{
    let m = r.ranges@[i];
    let li = m.functions@[j].local_index as int;
    assert(m.frame_infos@[li].wf());
    match m.frame_infos@[li] {
        FunctionDebug::Serialised(_) => {},
        FunctionDebug::Decoded(_, _) => {},
    }
}

/// A counter at an isolated function's start that no address-map row
/// covers, or that the row at machine-code offset zero maps back to
/// the function's own start offset, reports a zero function-relative
/// offset: the round trip from function start to descriptor and back.
pub proof fn lemma_frame_at_function_start(r: GlobalFrameInfo, i: int, j: int)
    requires
        r.wf(),
        0 <= i < r.ranges@.len(),
        0 <= j < r.ranges@[i].functions@.len(),
        function_isolated(r.ranges@[i], j),
        match match_index(tables_of(r, i, j).instructions, 0) {
            Some(k) => tables_of(r, i, j).instructions[k].src_offset == tables_of(
                r,
                i,
                j,
            ).start_src,
            None => true,
        },
    ensures
        match r.frame_at(r.ranges@[i].functions@[j].start) {
            Some(f) => f.instr == f.func_start,
            None => false,
        },
{
    lemma_frame_at_rel(r, i, j, 0);
    assert(((r.ranges@[i].functions@[j].start + 0) as usize)
        == r.ranges@[i].functions@[j].start);
}

/// A counter equal to the module's lowest address resolves to the
/// function that starts there; when that function's first address-map
/// row begins at machine-code offset zero, the row covers the counter
/// and its source offset is reported.
pub proof fn lemma_frame_at_module_low(r: GlobalFrameInfo, i: int, j: int)
    requires
        r.wf(),
        0 <= i < r.ranges@.len(),
        0 <= j < r.ranges@[i].functions@.len(),
        function_isolated(r.ranges@[i], j),
        r.ranges@[i].functions@[j].start == r.ranges@[i].start,
        tables_of(r, i, j).instructions.len() > 0,
        tables_of(r, i, j).instructions[0].code_offset == 0,
    ensures
        match r.frame_at(r.ranges@[i].start) {
            Some(f) => f.instr == tables_of(r, i, j).instructions[0].src_offset,
            None => false,
        },
{
    assert(entry_matches(tables_of(r, i, j).instructions[0], 0));
    lemma_frame_at_covered_rel(r, i, j, 0, 0);
    assert(((r.ranges@[i].functions@[j].start + 0) as usize) == r.ranges@[i].start);
}

/// A counter equal to the module's highest address resolves to the
/// function that ends there; when the function's last address-map row
/// covers its final machine-code offset, that row's source offset is
/// reported.
pub proof fn lemma_frame_at_module_high(r: GlobalFrameInfo, i: int, j: int, k: int)
    requires
        r.wf(),
        0 <= i < r.ranges@.len(),
        0 <= j < r.ranges@[i].functions@.len(),
        function_isolated(r.ranges@[i], j),
        r.ranges@[i].functions@[j].end == r.ranges@[i].end,
        0 <= k < tables_of(r, i, j).instructions.len(),
        entry_matches(
            tables_of(r, i, j).instructions[k],
            r.ranges@[i].functions@[j].end - r.ranges@[i].functions@[j].start,
        ),
    ensures
        match r.frame_at(r.ranges@[i].end) {
            Some(f) => f.instr == tables_of(r, i, j).instructions[k].src_offset,
            None => false,
        },
{
    let f = r.ranges@[i].functions@[j];
    lemma_frame_at_covered_rel(r, i, j, f.end - f.start, k);
    assert(((f.start + (f.end - f.start)) as usize) == r.ranges@[i].end);
}

/// Decoding is idempotent: a second decode transition at the same
/// counter leaves the registry exactly as the first left it.
pub proof fn lemma_decode_idempotent(
    r0: GlobalFrameInfo,
    r1: GlobalFrameInfo,
    r2: GlobalFrameInfo,
    pc: usize,
)
    requires
        r0.wf(),
        r1.wf(),
        GlobalFrameInfo::decode_step(r0, r1, pc),
        GlobalFrameInfo::decode_step(r1, r2, pc),
    ensures
        r2 == r1,
{
    let (i1, j1) = choose|i: int, j: int|
        {
            &&& 0 <= i < r0.ranges@.len()
            &&& r0.ranges@[i].contains(pc)
            &&& function_lookup(r0.ranges@[i].functions@, pc) == Some(j)
            &&& #[trigger] GlobalFrameInfo::decode_step_at(
                r0,
                r1,
                i,
                r0.ranges@[i].functions@[j].local_index as int,
            )
        };
    let (i2, j2) = choose|i: int, j: int|
        {
            &&& 0 <= i < r1.ranges@.len()
            &&& r1.ranges@[i].contains(pc)
            &&& function_lookup(r1.ranges@[i].functions@, pc) == Some(j)
            &&& #[trigger] GlobalFrameInfo::decode_step_at(
                r1,
                r2,
                i,
                r1.ranges@[i].functions@[j].local_index as int,
            )
        };
    let li1 = r0.ranges@[i1].functions@[j1].local_index as int;
    assert(r1.ranges@[i1].contains(pc));
    if i1 < i2 {
        assert(r1.ranges@[i1].end < r1.ranges@[i2].start);
        assert(false);
    }
    if i2 < i1 {
        assert(r1.ranges@[i2].end < r1.ranges@[i1].start);
        assert(false);
    }
    assert(r1.ranges@[i1].functions == r0.ranges@[i1].functions);
    assert(function_lookup(r1.ranges@[i2].functions@, pc)
        == function_lookup(r0.ranges@[i1].functions@, pc));
    assert(j2 == j1);
    assert(!(r1.ranges@[i1].frame_infos@[li1] is Serialised));
}

/// Deregistering a module clears every lookup in its range: no
/// counter formerly inside it resolves to anything afterwards.
pub proof fn lemma_unregister_clears_range(
    pre: GlobalFrameInfo,
    post: GlobalFrameInfo,
    i: int,
    pc: usize,
)
    requires
        pre.wf(),
        0 <= i < pre.ranges@.len(),
        post.ranges@ == pre.ranges@.remove(i),
        pre.ranges@[i].contains(pc),
    ensures
        post.frame_at(pc) is None,
        post.trap_at(pc) is None,
        post.serialised_at(pc) is None,
{
    pre.ranges@.remove_ensures(i);
    assert forall|w: int| 0 <= w < post.ranges@.len()
        implies !(#[trigger] post.ranges@[w]).contains(pc) by {
        if w < i {
            assert(post.ranges@[w] == pre.ranges@[w]);
            assert(pre.ranges@[w].end < pre.ranges@[i].start);
        } else {
            assert(post.ranges@[w] == pre.ranges@[w + 1]);
            assert(pre.ranges@[i].end < pre.ranges@[w + 1].start);
        }
    }
    if post.module_index_of(pc) is Some {
        let w = choose|w: int| 0 <= w < post.ranges@.len()
            && (#[trigger] post.ranges@[w]).contains(pc);
        assert(false);
    }
}

} // verus!
