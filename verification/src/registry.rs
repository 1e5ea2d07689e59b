//! The process-wide frame-information registry: module records ordered
//! by their highest host address, with address-to-module,
//! address-to-function, address-to-source-offset and
//! address-to-trap-kind lookup, lazy decoding of per-function debug
//! cells, and registration with strict non-overlap of module ranges.

use vstd::prelude::*;

use crate::address_map::resolved_src;
use crate::codec::decode_frame_data;
use crate::debug_cell::FunctionDebug;
use crate::frame::{FrameInfo, FrameSpec};
use crate::metadata::ModuleMetadata;
use crate::trap_points::{TrapPoint, trap_index};

verus! {

/// The host span one compiled function body occupies: `len` bytes
/// beginning at host address `start`.
#[derive(Clone, Copy, PartialEq, Eq, Structural, Debug)]
pub struct FunctionExtent {
    /// Host address of the first byte of the function body.
    pub start: usize,
    /// Length in bytes of the function body.
    pub len: usize,
}

/// One function of a registered module: its host address range and its
/// local-function index.  `end` is `start` plus the body length; a
/// program counter equal to `end` still resolves to this function,
/// because counters derived from return addresses may point one past
/// the last instruction.
#[derive(Clone, Copy, PartialEq, Eq, Structural, Debug)]
pub struct FunctionInfo {
    /// Host address of the function body's first byte.
    pub start: usize,
    /// `start` plus the body length.
    pub end: usize,
    /// Index among the module's locally defined functions.
    pub local_index: usize,
}

/// Frame information for one registered module: its host-address
/// bounds, its functions sorted by end address, its metadata, and one
/// debug cell per local function.
#[derive(Debug)]
pub struct ModuleInfoFrameInfo {
    /// Lowest host address of the module's compiled code.
    pub start: usize,
    /// Highest host address of the module's compiled code; the
    /// registry's key for this record.
    pub end: usize,
    /// The module's functions, sorted strictly ascending by `end`.
    pub functions: Vec<FunctionInfo>,
    /// The module's static metadata.
    pub module: ModuleMetadata,
    /// Debug cells, indexed by local-function index.
    pub frame_infos: Vec<FunctionDebug>,
}

/// The functions' end addresses are strictly ascending, so iterating
/// by end address iterates by host address.
pub open spec fn functions_sorted(fs: Seq<FunctionInfo>) -> bool {
    forall|i: int, j: int| #![trigger fs[i], fs[j]]
        0 <= i < j < fs.len() ==> fs[i].end < fs[j].end
}

/// `j` is the first position whose function's end address is at least
/// `pc`.  In a sorted table there is at most one such position.
pub open spec fn is_first_end_geq(fs: Seq<FunctionInfo>, pc: usize, j: int) -> bool {
    &&& 0 <= j < fs.len()
    &&& fs[j].end >= pc
    &&& forall|k: int| 0 <= k < j ==> (#[trigger] fs[k]).end < pc
}

/// The function a program counter resolves to inside one module: the
/// first function whose end address is at least `pc`, provided that
/// function's range actually contains `pc`.
pub open spec fn function_lookup(fs: Seq<FunctionInfo>, pc: usize) -> Option<int> {
    if exists|j: int| is_first_end_geq(fs, pc, j) {
        let j = choose|j: int| is_first_end_geq(fs, pc, j);
        if fs[j].start <= pc {
            Some(j)
        } else {
            None
        }
    } else {
        None
    }
}

/// The first position with end address at least `pc` is unique.
pub proof fn lemma_first_end_geq_unique(fs: Seq<FunctionInfo>, pc: usize, j1: int, j2: int)
    requires
        is_first_end_geq(fs, pc, j1),
        is_first_end_geq(fs, pc, j2),
    ensures
        j1 == j2,
{
    if j1 < j2 {
        assert(fs[j1].end < pc);
    }
    if j2 < j1 {
        assert(fs[j2].end < pc);
    }
}

impl ModuleInfoFrameInfo {
    /// Well-formedness of one module record.
    pub open spec fn wf(&self) -> bool {
        &&& self.start <= self.end
        &&& 0 < self.functions@.len()
        &&& self.functions@.len() == self.frame_infos@.len()
        &&& functions_sorted(self.functions@)
        &&& forall|i: int| 0 <= i < self.functions@.len()
                ==> (#[trigger] self.functions@[i]).start <= self.functions@[i].end
        &&& forall|i: int| 0 <= i < self.functions@.len()
                ==> self.start <= (#[trigger] self.functions@[i]).start
                    && self.functions@[i].end <= self.end
        &&& forall|i: int| 0 <= i < self.functions@.len()
                ==> (#[trigger] self.functions@[i]).local_index < self.frame_infos@.len()
        &&& (exists|i: int| 0 <= i < self.functions@.len()
                && (#[trigger] self.functions@[i]).start == self.start)
        &&& self.functions@[self.functions@.len() - 1].end == self.end
        &&& forall|i: int| 0 <= i < self.frame_infos@.len()
                ==> (#[trigger] self.frame_infos@[i]).wf()
        &&& self.module.wf()
        &&& self.module.imported_function_count + self.functions@.len() <= u32::MAX
    }

    /// Whether `pc` falls in this module's host-address range; both
    /// bounds are inclusive.
    pub open spec fn contains(&self, pc: usize) -> bool {
        self.start <= pc <= self.end
    }

    /// Finds the function containing `pc`: binary search for the first
    /// end address at least `pc`, then a containment check.
    fn locate_function(&self, pc: usize) -> (r: Option<usize>)
        requires
            self.wf(),
        ensures
            match r {
                Some(j) => j < self.functions@.len()
                    && function_lookup(self.functions@, pc) == Some(j as int),
                None => function_lookup(self.functions@, pc) is None,
            },
    {
        let mut lo: usize = 0;
        let mut hi: usize = self.functions.len();
        while lo < hi
            invariant
                lo <= hi <= self.functions@.len(),
                functions_sorted(self.functions@),
                forall|k: int| 0 <= k < lo ==> (#[trigger] self.functions@[k]).end < pc,
                forall|k: int| hi <= k < self.functions@.len()
                    ==> (#[trigger] self.functions@[k]).end >= pc,
            decreases hi - lo,
        {
            let mid = lo + (hi - lo) / 2;
            if self.functions[mid].end < pc {
                lo = mid + 1;
            } else {
                hi = mid;
            }
        }
        if lo == self.functions.len() {
            proof {
                if exists|j: int| is_first_end_geq(self.functions@, pc, j) {
                    let j = choose|j: int| is_first_end_geq(self.functions@, pc, j);
                    assert(self.functions@[j].end < pc);
                }
            }
            return None;
        }
        proof {
            assert(is_first_end_geq(self.functions@, pc, lo as int));
            let j = choose|j: int| is_first_end_geq(self.functions@, pc, j);
            lemma_first_end_geq_unique(self.functions@, pc, j, lo as int);
        }
        if self.functions[lo].start <= pc {
            Some(lo)
        } else {
            None
        }
    }
}

/// Host end address of an extent: its start plus its length.
pub open spec fn extent_end(e: FunctionExtent) -> int {
    e.start + e.len
}

/// `v` is the lowest start address among the extents.
pub open spec fn is_low(fs: Seq<FunctionExtent>, v: int) -> bool {
    &&& forall|k: int| 0 <= k < fs.len() ==> v <= (#[trigger] fs[k]).start
    &&& exists|k: int| 0 <= k < fs.len() && v == (#[trigger] fs[k]).start
}

/// `v` is the highest end address among the extents.
pub open spec fn is_high(fs: Seq<FunctionExtent>, v: int) -> bool {
    &&& forall|k: int| 0 <= k < fs.len() ==> extent_end(#[trigger] fs[k]) <= v
    &&& exists|k: int| 0 <= k < fs.len() && v == extent_end(#[trigger] fs[k])
}

/// Two distinct extents share an end address, so the end-keyed
/// function table cannot be built.
pub open spec fn has_end_collision(fs: Seq<FunctionExtent>) -> bool {
    exists|i: int, j: int| #![trigger fs[i], fs[j]]
        0 <= i < j < fs.len() && extent_end(fs[i]) == extent_end(fs[j])
}

/// Some registered module's range intersects the extents' hull
/// `[lowest start, highest end]`.
pub open spec fn hull_overlaps(pre: GlobalFrameInfo, fs: Seq<FunctionExtent>) -> bool {
    exists|i: int|
        {
            &&& 0 <= i < pre.ranges@.len()
            &&& exists|k: int| 0 <= k < fs.len()
                && (#[trigger] pre.ranges@[i]).start <= extent_end(#[trigger] fs[k])
            &&& exists|k: int| 0 <= k < fs.len()
                && (#[trigger] fs[k]).start <= pre.ranges@[i].end
        }
}

/// The function record built from extent `k`: its host span, with the
/// extent's position as the local-function index.
pub open spec fn mk_function_info(fs: Seq<FunctionExtent>, k: int) -> FunctionInfo {
    FunctionInfo {
        start: fs[k].start,
        end: (fs[k].start + fs[k].len) as usize,
        local_index: k as usize,
    }
}

/// `funcs` holds exactly one record per extent position below `n`, in
/// some order.
pub open spec fn functions_match_extents(
    funcs: Seq<FunctionInfo>,
    fs: Seq<FunctionExtent>,
    n: int,
) -> bool {
    &&& forall|t: int| 0 <= t < funcs.len()
            ==> ((#[trigger] funcs[t]).local_index as int) < n
                && funcs[t] == mk_function_info(fs, funcs[t].local_index as int)
    &&& forall|k: int| 0 <= k < n
            ==> exists|t: int| 0 <= t < funcs.len()
                && funcs[t] == #[trigger] mk_function_info(fs, k)
}

/// How a successful registration changes the registry: the new record
/// is spliced in at position `p`, sorted, with the extents' hull as
/// its bounds, one function per extent, the given metadata, and the
/// given debug cells; the returned key is the hull's upper end.
pub open spec fn registered_at(
    pre: GlobalFrameInfo,
    post: GlobalFrameInfo,
    p: int,
    module: ModuleMetadata,
    fs: Seq<FunctionExtent>,
    cells: Seq<FunctionDebug>,
    key: usize,
) -> bool {
    let m = post.ranges@[p];
    &&& 0 <= p <= pre.ranges@.len()
    &&& post.ranges@ == pre.ranges@.insert(p, m)
    &&& is_low(fs, m.start as int)
    &&& is_high(fs, m.end as int)
    &&& key == m.end
    &&& m.module == module
    &&& m.frame_infos@ == cells
    &&& m.functions@.len() == fs.len()
    &&& functions_match_extents(m.functions@, fs, fs.len() as int)
}

/// A successful registration: the record went in at some sorted
/// position.
pub open spec fn registered(
    pre: GlobalFrameInfo,
    post: GlobalFrameInfo,
    module: ModuleMetadata,
    fs: Seq<FunctionExtent>,
    cells: Seq<FunctionDebug>,
    key: usize,
) -> bool {
    exists|p: int| registered_at(pre, post, p, module, fs, cells, key)
}

/// Why a registration was refused.  Both cases are invariant
/// violations on the part of the compiler or engine handing in the
/// module, not user errors; callers treat them as fatal.
#[derive(Clone, Copy, PartialEq, Eq, Structural, Debug)]
pub enum RegisterError {
    /// The module's address hull intersects an already registered
    /// module's range.
    ModuleOverlap,
    /// Two of the module's functions end at the same host address.
    FunctionEndCollision,
}

/// An RAII-style token for one registration: releasing it through
/// [`GlobalFrameInfo::unregister`] removes the module record stored
/// under the key.
#[derive(Debug)]
pub struct GlobalFrameInfoRegistration {
    /// The registry key — the registered module's highest host address.
    pub key: usize,
}

/// The frame-information registry: module records sorted by their
/// highest host address, with pairwise disjoint address ranges.
#[derive(Debug)]
pub struct GlobalFrameInfo {
    /// The module records, sorted strictly ascending by `end`; the
    /// range of an earlier record ends strictly before the range of a
    /// later one begins.
    pub ranges: Vec<ModuleInfoFrameInfo>,
}

impl GlobalFrameInfo {
    /// Well-formedness of the whole registry: every record is well
    /// formed and the records' address ranges are strictly separated
    /// in order.
    pub open spec fn wf(&self) -> bool {
        &&& forall|i: int| 0 <= i < self.ranges@.len() ==> (#[trigger] self.ranges@[i]).wf()
        &&& forall|i: int, j: int| #![trigger self.ranges@[i], self.ranges@[j]]
                0 <= i < j < self.ranges@.len()
                ==> self.ranges@[i].end < self.ranges@[j].start
    }

    /// Index of the module record containing `pc`, if any.  Under
    /// `wf`, at most one record contains any address.
    pub open spec fn module_index_of(&self, pc: usize) -> Option<int> {
        if exists|i: int| 0 <= i < self.ranges@.len()
            && (#[trigger] self.ranges@[i]).contains(pc) {
            Some(
                choose|i: int| 0 <= i < self.ranges@.len()
                    && (#[trigger] self.ranges@[i]).contains(pc),
            )
        } else {
            None
        }
    }

    /// A containing record's index is the looked-up one.
    pub proof fn lemma_module_index_of(&self, pc: usize, i: int)
        requires
            self.wf(),
            0 <= i < self.ranges@.len(),
            self.ranges@[i].contains(pc),
        ensures
            self.module_index_of(pc) == Some(i),
    {
        let w = choose|w: int| 0 <= w < self.ranges@.len()
            && (#[trigger] self.ranges@[w]).contains(pc);
        if w < i {
            assert(self.ranges@[w].end < self.ranges@[i].start);
        }
        if i < w {
            assert(self.ranges@[i].end < self.ranges@[w].start);
        }
    }

    /// Whether `pc` resolves to a module and a function inside it.
    pub open spec fn resolves(&self, pc: usize) -> bool {
        match self.module_index_of(pc) {
            Some(i) => function_lookup(self.ranges@[i].functions@, pc) is Some,
            None => false,
        }
    }

    /// The frame a program counter describes, if it resolves: the
    /// containing module's name, the promoted function index and the
    /// function's recorded name, and the source offsets read from the
    /// function's debug tables — whether those tables are currently
    /// decoded or still serialised.
    pub open spec fn frame_at(&self, pc: usize) -> Option<FrameSpec> {
        match self.module_index_of(pc) {
            None => None,
            Some(i) => {
                let m = self.ranges@[i];
                match function_lookup(m.functions@, pc) {
                    None => None,
                    Some(j) => {
                        let f = m.functions@[j];
                        let t = m.frame_infos@[f.local_index as int].tables();
                        let fi = (m.module.imported_function_count + f.local_index) as u32;
                        Some(FrameSpec {
                            module_name: m.module.name@,
                            func_index: fi,
                            function_name: m.module.name_of(fi),
                            func_start: t.start_src,
                            instr: resolved_src(t.start_src, t.instructions, pc - f.start),
                        })
                    },
                }
            },
        }
    }

    /// The trap point a program counter describes: the trap recorded
    /// at exactly that machine-code offset, if any.
    pub open spec fn trap_at(&self, pc: usize) -> Option<TrapPoint> {
        match self.module_index_of(pc) {
            None => None,
            Some(i) => {
                let m = self.ranges@[i];
                match function_lookup(m.functions@, pc) {
                    None => None,
                    Some(j) => {
                        let f = m.functions@[j];
                        let t = m.frame_infos@[f.local_index as int].tables();
                        match trap_index(t.traps, pc - f.start) {
                            Some(k) => Some(t.traps[k]),
                            None => None,
                        }
                    },
                }
            },
        }
    }

    /// Whether the debug cell a program counter resolves to still
    /// awaits decoding; not resolving gives nothing.
    pub open spec fn serialised_at(&self, pc: usize) -> Option<bool> {
        match self.module_index_of(pc) {
            None => None,
            Some(i) => {
                let m = self.ranges@[i];
                match function_lookup(m.functions@, pc) {
                    None => None,
                    Some(j) => Some(
                        m.frame_infos@[m.functions@[j].local_index as int] is Serialised,
                    ),
                }
            },
        }
    }

    /// Read-path precondition: if `pc` resolves, its debug cell is
    /// already decoded.
    pub open spec fn decoded_for(&self, pc: usize) -> bool {
        self.serialised_at(pc) != Some(true)
    }

    /// An empty registry.
    pub fn new() -> (r: Self)
        ensures
            r.wf(),
            r.ranges@.len() == 0,
    {
        GlobalFrameInfo { ranges: Vec::new() }
    }

    /// Finds the module record containing `pc`: binary search for the
    /// first end address at least `pc`, then a containment check.
    fn locate_module(&self, pc: usize) -> (r: Option<usize>)
        requires
            self.wf(),
        ensures
            match r {
                Some(i) => i < self.ranges@.len() && self.module_index_of(pc) == Some(i as int),
                None => self.module_index_of(pc) is None,
            },
    {
        proof {
            assert forall|i: int, j: int|
                0 <= i < j < self.ranges@.len() implies (#[trigger] self.ranges@[i]).end
                < (#[trigger] self.ranges@[j]).end by {
                assert(self.ranges@[j].wf());
            }
        }
        let mut lo: usize = 0;
        let mut hi: usize = self.ranges.len();
        while lo < hi
            invariant
                lo <= hi <= self.ranges@.len(),
                self.wf(),
                forall|i: int, j: int| #![trigger self.ranges@[i].end, self.ranges@[j].end]
                    0 <= i < j < self.ranges@.len()
                    ==> self.ranges@[i].end < self.ranges@[j].end,
                forall|k: int| 0 <= k < lo ==> (#[trigger] self.ranges@[k]).end < pc,
                forall|k: int| hi <= k < self.ranges@.len()
                    ==> (#[trigger] self.ranges@[k]).end >= pc,
            decreases hi - lo,
        {
            let mid = lo + (hi - lo) / 2;
            if self.ranges[mid].end < pc {
                lo = mid + 1;
            } else {
                hi = mid;
            }
        }
        if lo == self.ranges.len() {
            proof {
                if self.module_index_of(pc) is Some {
                    let w = choose|i: int| 0 <= i < self.ranges@.len()
                        && (#[trigger] self.ranges@[i]).contains(pc);
                    assert(self.ranges@[w].end < pc);
                }
            }
            return None;
        }
        let candidate = &self.ranges[lo];
        if candidate.start <= pc && pc <= candidate.end {
            proof {
                self.lemma_module_index_of(pc, lo as int);
            }
            Some(lo)
        } else {
            proof {
                if self.module_index_of(pc) is Some {
                    let w = choose|i: int| 0 <= i < self.ranges@.len()
                        && (#[trigger] self.ranges@[i]).contains(pc);
                    if w < lo as int {
                        assert(self.ranges@[w].end < pc);
                    } else if w > lo as int {
                        assert(self.ranges@[lo as int].end < self.ranges@[w].start);
                        assert(self.ranges@[lo as int].end >= pc);
                    }
                }
            }
            None
        }
    }

    /// Fetches frame information about a program counter, as captured
    /// in a backtrace.  Gives nothing exactly when `pc` lies in no
    /// registered module or outside every function of its module.  The
    /// function's debug cell must already be decoded; probe with
    /// [`Self::should_process_frame`] and decode with
    /// [`Self::maybe_process_frame`] first.
    pub fn lookup_frame_info(&self, pc: usize) -> (r: Option<FrameInfo>)
        requires
            self.wf(),
            self.decoded_for(pc),
        ensures
            match r {
                Some(f) => self.frame_at(pc) == Some(f@) && f.wf(),
                None => self.frame_at(pc) is None,
            },
    {
        let i = match self.locate_module(pc) {
            Some(i) => i,
            None => {
                return None;
            },
        };
        let m = &self.ranges[i];
        let j = match m.locate_function(pc) {
            Some(j) => j,
            None => {
                return None;
            },
        };
        let f = m.functions[j];
        let rel = pc - f.start;
        match &m.frame_infos[f.local_index] {
            FunctionDebug::Decoded(am, _) => {
                let idx = crate::address_map::find_instruction(&am.instructions, rel);
                let instr = match idx {
                    Some(p) => am.instructions[p].src_offset,
                    None => am.start_src,
                };
                let fi = m.module.imported_function_count + (f.local_index as u32);
                let function_name = m.module.lookup_name(fi);
                Some(FrameInfo {
                    module_name: m.module.name.clone(),
                    func_index: fi,
                    function_name,
                    func_start: am.start_src,
                    instr,
                })
            },
            FunctionDebug::Serialised(_) => {
                proof {
                    assert(self.serialised_at(pc) == Some(true));
                    assert(false);
                }
                None
            },
        }
    }

    /// Fetches the trap point recorded for a program counter, matched
    /// exactly.  Absence means the counter is no compiler-declared
    /// trap site, never a lookup error.  The function's debug cell
    /// must already be decoded.
    pub fn lookup_trap_info(&self, pc: usize) -> (r: Option<TrapPoint>)
        requires
            self.wf(),
            self.decoded_for(pc),
        ensures
            r == self.trap_at(pc),
    {
        let i = match self.locate_module(pc) {
            Some(i) => i,
            None => {
                return None;
            },
        };
        let m = &self.ranges[i];
        let j = match m.locate_function(pc) {
            Some(j) => j,
            None => {
                return None;
            },
        };
        let f = m.functions[j];
        let rel = pc - f.start;
        match &m.frame_infos[f.local_index] {
            FunctionDebug::Decoded(_, traps) => {
                match crate::trap_points::find_trap(traps, rel) {
                    Some(k) => Some(traps[k]),
                    None => None,
                }
            },
            FunctionDebug::Serialised(_) => {
                proof {
                    assert(self.serialised_at(pc) == Some(true));
                    assert(false);
                }
                None
            },
        }
    }

    /// One cell's decode transition, located by module position `i`
    /// and local-function index `li`: everything stays as it was
    /// except that one cell, which ends up decoded while still
    /// carrying the same tables.  A registry whose cell was already
    /// decoded is left untouched entirely.
    pub open spec fn decode_step_at(
        pre: GlobalFrameInfo,
        post: GlobalFrameInfo,
        i: int,
        li: int,
    ) -> bool {
        let pm = pre.ranges@[i];
        let qm = post.ranges@[i];
        &&& 0 <= i < pre.ranges@.len()
        &&& 0 <= li < pm.frame_infos@.len()
        &&& post.ranges@.len() == pre.ranges@.len()
        &&& forall|k: int| 0 <= k < pre.ranges@.len() && k != i
                ==> #[trigger] post.ranges@[k] == pre.ranges@[k]
        &&& qm.start == pm.start
        &&& qm.end == pm.end
        &&& qm.functions == pm.functions
        &&& qm.module == pm.module
        &&& qm.frame_infos@.len() == pm.frame_infos@.len()
        &&& forall|k: int| 0 <= k < pm.frame_infos@.len() && k != li
                ==> #[trigger] qm.frame_infos@[k] == pm.frame_infos@[k]
        &&& !(qm.frame_infos@[li] is Serialised)
        &&& qm.frame_infos@[li].tables() == pm.frame_infos@[li].tables()
        &&& qm.frame_infos@[li].wf()
        &&& (!(pm.frame_infos@[li] is Serialised) ==> post == pre)
    }

    /// How [`Self::maybe_process_frame`] is allowed to change the
    /// registry: a decode transition of the cell `pc` resolves to.
    pub open spec fn decode_step(pre: GlobalFrameInfo, post: GlobalFrameInfo, pc: usize) -> bool {
        exists|i: int, j: int|
            {
                &&& 0 <= i < pre.ranges@.len()
                &&& pre.ranges@[i].contains(pc)
                &&& function_lookup(pre.ranges@[i].functions@, pc) == Some(j)
                &&& #[trigger] Self::decode_step_at(
                    pre,
                    post,
                    i,
                    pre.ranges@[i].functions@[j].local_index as int,
                )
            }
    }

    /// Decodes the debug cell `pc` resolves to, in place, if it is not
    /// already decoded; a transition happens at most once per cell and
    /// is never reverted.  Gives nothing exactly when `pc` does not
    /// resolve, and then changes nothing.
    pub fn maybe_process_frame(&mut self, pc: usize) -> (r: Option<()>)
        requires
            old(self).wf(),
        ensures
            final(self).wf(),
            r is Some <==> old(self).resolves(pc),
            r is None ==> *final(self) == *old(self),
            r is Some ==> Self::decode_step(*old(self), *final(self), pc),
    {
        let i = match self.locate_module(pc) {
            Some(i) => i,
            None => {
                return None;
            },
        };
        let j = match self.ranges[i].locate_function(pc) {
            Some(j) => j,
            None => {
                return None;
            },
        };
        let li = self.ranges[i].functions[j].local_index;
        proof {
            assert forall|w: int|
                0 <= w < self.ranges@.len() && (#[trigger] self.ranges@[w]).contains(pc)
                implies w == i as int by {
                if w < i as int {
                    assert(self.ranges@[w].end < self.ranges@[i as int].start);
                }
                if (i as int) < w {
                    assert(self.ranges@[i as int].end < self.ranges@[w].start);
                }
            }
            assert(self.ranges@[i as int].contains(pc));
            assert forall|w: int| is_first_end_geq(self.ranges@[i as int].functions@, pc, w)
                implies w == j as int by {
                lemma_first_end_geq_unique(self.ranges@[i as int].functions@, pc, w, j as int);
            }
            assert(is_first_end_geq(self.ranges@[i as int].functions@, pc, j as int));
        }
        let decoded = match &self.ranges[i].frame_infos[li] {
            FunctionDebug::Decoded(_, _) => None,
            FunctionDebug::Serialised(bytes) => Some(decode_frame_data(bytes)),
        };
        match decoded {
            None => {
                proof {
                    assert(Self::decode_step_at(*old(self), *self, i as int, li as int));
                    assert(Self::decode_step(*old(self), *self, pc));
                }
                Some(())
            },
            Some(None) => {
                proof {
                    assert(self.ranges@[i as int].frame_infos@[li as int].wf());
                    assert(false);
                }
                Some(())
            },
            Some(Some((am, traps))) => {
                let record = &mut self.ranges[i];
                record.frame_infos[li] = FunctionDebug::Decoded(am, traps);
                proof {
                    assert(Self::decode_step_at(*old(self), *self, i as int, li as int));
                    assert(Self::decode_step(*old(self), *self, pc));
                }
                Some(())
            },
        }
    }

    /// A decode transition is invisible to every lookup: module and
    /// function resolution read only addresses, which the transition
    /// leaves alone, and the decoded cell carries exactly the tables
    /// its blob carried.  Afterwards the cell at the decoded counter
    /// no longer awaits decoding, and no cell reverts.
    #[verifier::rlimit(100)]
    pub proof fn lemma_decode_step_preserves(
        pre: GlobalFrameInfo,
        post: GlobalFrameInfo,
        dpc: usize,
    )
        requires
            pre.wf(),
            post.wf(),
            Self::decode_step(pre, post, dpc),
        ensures
            forall|pc: usize| #![trigger post.module_index_of(pc)]
                post.module_index_of(pc) == pre.module_index_of(pc),
            forall|pc: usize| #![trigger post.frame_at(pc)]
                post.frame_at(pc) == pre.frame_at(pc),
            forall|pc: usize| #![trigger post.trap_at(pc)]
                post.trap_at(pc) == pre.trap_at(pc),
            forall|pc: usize| #![trigger post.resolves(pc)]
                post.resolves(pc) == pre.resolves(pc),
            forall|pc: usize| #![trigger post.decoded_for(pc)]
                pre.decoded_for(pc) ==> post.decoded_for(pc),
            post.decoded_for(dpc),
    {
        let (i, j) = choose|i: int, j: int|
            {
                &&& 0 <= i < pre.ranges@.len()
                &&& pre.ranges@[i].contains(dpc)
                &&& function_lookup(pre.ranges@[i].functions@, dpc) == Some(j)
                &&& #[trigger] Self::decode_step_at(
                    pre,
                    post,
                    i,
                    pre.ranges@[i].functions@[j].local_index as int,
                )
            };
        let li = pre.ranges@[i].functions@[j].local_index as int;
        assert(Self::decode_step_at(pre, post, i, li));
        assert forall|k: int| 0 <= k < pre.ranges@.len() implies {
            &&& (#[trigger] post.ranges@[k]).start == pre.ranges@[k].start
            &&& post.ranges@[k].end == pre.ranges@[k].end
            &&& post.ranges@[k].functions == pre.ranges@[k].functions
            &&& post.ranges@[k].module == pre.ranges@[k].module
        } by {
            if k != i {
                assert(post.ranges@[k] == pre.ranges@[k]);
            }
        }
        assert forall|pc: usize| #![trigger post.module_index_of(pc)]
            post.module_index_of(pc) == pre.module_index_of(pc) by {
            if exists|w: int| 0 <= w < post.ranges@.len()
                && (#[trigger] post.ranges@[w]).contains(pc) {
                let w2 = choose|w: int| 0 <= w < post.ranges@.len()
                    && (#[trigger] post.ranges@[w]).contains(pc);
                assert(pre.ranges@[w2].contains(pc));
                pre.lemma_module_index_of(pc, w2);
                assert forall|w: int|
                    0 <= w < post.ranges@.len() && (#[trigger] post.ranges@[w]).contains(pc)
                    implies w == w2 by {
                    assert(pre.ranges@[w].contains(pc));
                    if w < w2 {
                        assert(pre.ranges@[w].end < pre.ranges@[w2].start);
                    }
                    if w2 < w {
                        assert(pre.ranges@[w2].end < pre.ranges@[w].start);
                    }
                }
                assert(post.module_index_of(pc) == Some(w2));
            } else {
                if pre.module_index_of(pc) is Some {
                    let w1 = choose|w: int| 0 <= w < pre.ranges@.len()
                        && (#[trigger] pre.ranges@[w]).contains(pc);
                    assert(post.ranges@[w1].contains(pc));
                    assert(false);
                }
            }
        }
        assert forall|pc: usize|
            {
                &&& #[trigger] post.frame_at(pc) == pre.frame_at(pc)
                &&& post.trap_at(pc) == pre.trap_at(pc)
                &&& post.resolves(pc) == pre.resolves(pc)
                &&& (pre.decoded_for(pc) ==> post.decoded_for(pc))
            } by {
            assert(post.module_index_of(pc) == pre.module_index_of(pc));
            match pre.module_index_of(pc) {
                None => {},
                Some(mi) => {
                    assert(post.ranges@[mi].functions == pre.ranges@[mi].functions);
                    assert(function_lookup(post.ranges@[mi].functions@, pc)
                        == function_lookup(pre.ranges@[mi].functions@, pc));
                    match function_lookup(pre.ranges@[mi].functions@, pc) {
                        None => {},
                        Some(jj) => {
                            let lj = pre.ranges@[mi].functions@[jj].local_index as int;
                            if mi == i && lj == li {
                                assert(post.ranges@[mi].frame_infos@[lj].tables()
                                    == pre.ranges@[mi].frame_infos@[lj].tables());
                                assert(!(post.ranges@[mi].frame_infos@[lj] is Serialised));
                            } else if mi == i {
                                assert(post.ranges@[mi].frame_infos@[lj]
                                    == pre.ranges@[mi].frame_infos@[lj]);
                            } else {
                                assert(post.ranges@[mi] == pre.ranges@[mi]);
                            }
                        },
                    }
                },
            }
        }
        assert(post.decoded_for(dpc)) by {
            pre.lemma_module_index_of(dpc, i);
            assert(pre.module_index_of(dpc) == Some(i));
            assert(!(post.ranges@[i].frame_infos@[li] is Serialised));
        }
    }

    /// Cheap read-only probe: whether the debug cell `pc` resolves to
    /// still awaits decoding.  Gives nothing when `pc` does not
    /// resolve.
    pub fn should_process_frame(&self, pc: usize) -> (r: Option<bool>)
        requires
            self.wf(),
        ensures
            r == self.serialised_at(pc),
    {
        let i = match self.locate_module(pc) {
            Some(i) => i,
            None => {
                return None;
            },
        };
        let m = &self.ranges[i];
        let j = match m.locate_function(pc) {
            Some(j) => j,
            None => {
                return None;
            },
        };
        let f = m.functions[j];
        Some(m.frame_infos[f.local_index].is_serialised())
    }
    /// Removes the module record registered under the token's key, if
    /// it is still present; the sole deregistration path.  Addresses
    /// in the removed range no longer resolve afterwards.
    pub fn unregister(&mut self, registration: GlobalFrameInfoRegistration)
        requires
            old(self).wf(),
        ensures
            final(self).wf(),
            forall|i: int|
                0 <= i < old(self).ranges@.len()
                    && (#[trigger] old(self).ranges@[i]).end == registration.key
                    ==> final(self).ranges@ == old(self).ranges@.remove(i),
            (forall|i: int| 0 <= i < old(self).ranges@.len()
                ==> (#[trigger] old(self).ranges@[i]).end != registration.key)
                ==> *final(self) == *old(self),
    {
        let key = registration.key;
        proof {
            assert forall|i: int, j: int|
                0 <= i < j < self.ranges@.len() implies (#[trigger] self.ranges@[i]).end
                < (#[trigger] self.ranges@[j]).end by {
                assert(self.ranges@[j].wf());
            }
        }
        let mut lo: usize = 0;
        let mut hi: usize = self.ranges.len();
        while lo < hi
            invariant
                lo <= hi <= self.ranges@.len(),
                self.wf(),
                forall|i: int, j: int| #![trigger self.ranges@[i].end, self.ranges@[j].end]
                    0 <= i < j < self.ranges@.len()
                    ==> self.ranges@[i].end < self.ranges@[j].end,
                forall|k: int| 0 <= k < lo ==> (#[trigger] self.ranges@[k]).end < key,
                forall|k: int| hi <= k < self.ranges@.len()
                    ==> (#[trigger] self.ranges@[k]).end > key
                        || self.ranges@[k].end == key,
            decreases hi - lo,
        {
            let mid = lo + (hi - lo) / 2;
            if self.ranges[mid].end < key {
                lo = mid + 1;
            } else {
                hi = mid;
            }
        }
        if lo == self.ranges.len() {
            return;
        }
        if self.ranges[lo].end != key {
            proof {
                assert forall|i: int|
                    0 <= i < self.ranges@.len() implies (#[trigger] self.ranges@[i]).end
                    != key by {
                    if i > lo as int {
                        assert(self.ranges@[lo as int].end < self.ranges@[i].end);
                    }
                }
            }
            return;
        }
        let ghost pre = self.ranges@;
        self.ranges.remove(lo);
        proof {
            assert forall|i: int|
                0 <= i < pre.len() && (#[trigger] pre[i]).end == key
                implies self.ranges@ == pre.remove(i) by {
                if i != lo as int {
                    assert(pre[lo as int].end != pre[i].end);
                }
            }
            assert forall|i: int, j: int| #![trigger self.ranges@[i], self.ranges@[j]]
                0 <= i < j < self.ranges@.len() implies self.ranges@[i].wf()
                && self.ranges@[i].end < self.ranges@[j].start by {
                assert(self.ranges@[i] == if i < lo as int { pre[i] } else { pre[i + 1] });
                assert(self.ranges@[j] == if j < lo as int { pre[j] } else { pre[j + 1] });
            }
            assert forall|i: int| 0 <= i < self.ranges@.len()
                implies (#[trigger] self.ranges@[i]).wf() by {
                assert(self.ranges@[i] == if i < lo as int { pre[i] } else { pre[i + 1] });
            }
        }
    }
}

impl Default for GlobalFrameInfo {
    /// An empty registry, as [`GlobalFrameInfo::new`] builds it.
    fn default() -> (r: Self)
        ensures
            r.wf(),
            r.ranges@.len() == 0,
    {
        GlobalFrameInfo::new()
    }
}

/// Registers a new compiled module's frame information: one host
/// extent and one debug cell per local function, both indexed by
/// local-function index, plus the module's metadata.
///
/// A module with no local functions registers nothing and returns no
/// token.  Otherwise the module's hull `[lowest start, highest end]`
/// is checked against every registered module — ranges must be
/// strictly disjoint — and the record is entered under its highest
/// address, to be removed again by passing the returned token to
/// [`GlobalFrameInfo::unregister`].  A hull that intersects a
/// registered range, or two functions ending at the same address, is
/// an invariant violation reported as an error, with the registry left
/// unchanged.
/// A sorted-position hit on an equal end address exposes two extents
/// sharing an end.
proof fn lemma_end_collision(funcs: Seq<FunctionInfo>, fs: Seq<FunctionExtent>, idx: int, lo: int)
    requires
        fs.len() <= usize::MAX,
        0 <= idx < fs.len(),
        funcs.len() == idx,
        functions_match_extents(funcs, fs, idx),
        0 <= lo < funcs.len(),
        funcs[lo].end == mk_function_info(fs, idx).end,
        forall|k: int| 0 <= k < fs.len() ==> extent_end(#[trigger] fs[k]) <= usize::MAX,
    ensures
        has_end_collision(fs),
{
    let k0 = funcs[lo].local_index as int;
    assert(funcs[lo] == mk_function_info(fs, k0));
    assert(0 <= k0 < idx && extent_end(fs[k0]) == extent_end(fs[idx]));
}

/// Inserting the next extent's record at its sorted position keeps
/// the table sorted and matching the extents.
proof fn lemma_function_insert(
    fpre: Seq<FunctionInfo>,
    fpost: Seq<FunctionInfo>,
    fs: Seq<FunctionExtent>,
    idx: int,
    lo: int,
    newf: FunctionInfo,
)
    requires
        fs.len() <= usize::MAX,
        0 <= idx < fs.len(),
        fpre.len() == idx,
        0 <= lo <= fpre.len(),
        functions_sorted(fpre),
        functions_match_extents(fpre, fs, idx),
        newf == mk_function_info(fs, idx),
        forall|k: int| 0 <= k < lo ==> (#[trigger] fpre[k]).end < newf.end,
        forall|k: int| lo <= k < fpre.len() ==> (#[trigger] fpre[k]).end >= newf.end,
        lo < fpre.len() ==> fpre[lo].end != newf.end,
        fpost == fpre.insert(lo, newf),
    ensures
        functions_sorted(fpost),
        functions_match_extents(fpost, fs, idx + 1),
{
    fpre.insert_ensures(lo, newf);
    assert forall|a: int, b: int| #![trigger fpost[a], fpost[b]]
        0 <= a < b < fpost.len() implies fpost[a].end < fpost[b].end by {
        assert(fpost[a] == if a < lo { fpre[a] } else if a == lo { newf } else { fpre[a - 1] });
        assert(fpost[b] == if b < lo { fpre[b] } else if b == lo { newf } else { fpre[b - 1] });
        if a == lo && b - 1 > lo {
            assert(fpre[lo].end < fpre[b - 1].end);
        }
    }
    assert forall|k: int| 0 <= k < idx + 1 implies exists|t: int|
        0 <= t < fpost.len() && fpost[t] == #[trigger] mk_function_info(fs, k) by {
        if k < idx {
            let t0 = choose|t: int| 0 <= t < fpre.len() && fpre[t] == mk_function_info(fs, k);
            let t1: int = if t0 < lo { t0 } else { t0 + 1 };
            assert(fpost[t1] == fpre[t0]);
        } else {
            assert(fpost[lo] == newf);
        }
    }
    assert forall|t: int| 0 <= t < fpost.len() implies ((#[trigger] fpost[t]).local_index as int)
        < idx + 1 && fpost[t] == mk_function_info(fs, fpost[t].local_index as int) by {
        if t < lo {
            assert(fpost[t] == fpre[t]);
        } else if t == lo {
            assert(fpost[t] == newf);
        } else {
            assert(fpost[t] == fpre[t - 1]);
        }
    }
}

/// A complete end-keyed table certifies that no two extents share an
/// end address.
proof fn lemma_no_end_collision(funcs: Seq<FunctionInfo>, fs: Seq<FunctionExtent>)
    requires
        fs.len() <= usize::MAX,
        funcs.len() == fs.len(),
        functions_sorted(funcs),
        functions_match_extents(funcs, fs, fs.len() as int),
        forall|k: int| 0 <= k < fs.len() ==> extent_end(#[trigger] fs[k]) <= usize::MAX,
    ensures
        !has_end_collision(fs),
{
    assert forall|a: int, b: int| #![trigger fs[a], fs[b]]
        0 <= a < b < fs.len() implies extent_end(fs[a]) != extent_end(fs[b]) by {
        if extent_end(fs[a]) == extent_end(fs[b]) {
            let ma = mk_function_info(fs, a);
            let mb = mk_function_info(fs, b);
            let ta = choose|t: int| 0 <= t < funcs.len() && funcs[t] == mk_function_info(fs, a);
            let tb = choose|t: int| 0 <= t < funcs.len() && funcs[t] == mk_function_info(fs, b);
            if ta < tb {
                assert(funcs[ta].end < funcs[tb].end);
            }
            if tb < ta {
                assert(funcs[tb].end < funcs[ta].end);
            }
            assert(ta == tb);
            assert(ma.local_index == mb.local_index);
            assert(false);
        }
    }
}

#[verifier::rlimit(100)]
pub fn register(
    info: &mut GlobalFrameInfo,
    module: ModuleMetadata,
    finished_functions: &Vec<FunctionExtent>,
    frame_infos: Vec<FunctionDebug>,
) -> (r: Result<Option<GlobalFrameInfoRegistration>, RegisterError>)
    requires
        old(info).wf(),
        module.wf(),
        finished_functions@.len() == frame_infos@.len(),
        forall|k: int| 0 <= k < frame_infos@.len() ==> (#[trigger] frame_infos@[k]).wf(),
        forall|k: int| 0 <= k < finished_functions@.len()
            ==> extent_end(#[trigger] finished_functions@[k]) <= usize::MAX,
        module.imported_function_count + finished_functions@.len() <= u32::MAX,
    ensures
        final(info).wf(),
        match r {
            Ok(token) => match token {
                None => finished_functions@.len() == 0 && *final(info) == *old(info),
                Some(h) => {
                    &&& finished_functions@.len() > 0
                    &&& !has_end_collision(finished_functions@)
                    &&& !hull_overlaps(*old(info), finished_functions@)
                    &&& registered(
                        *old(info),
                        *final(info),
                        module,
                        finished_functions@,
                        frame_infos@,
                        h.key,
                    )
                },
            },
            Err(e) => {
                &&& *final(info) == *old(info)
                &&& finished_functions@.len() > 0
                &&& match e {
                    RegisterError::FunctionEndCollision => has_end_collision(finished_functions@),
                    RegisterError::ModuleOverlap => !has_end_collision(finished_functions@)
                        && hull_overlaps(*old(info), finished_functions@),
                }
            },
        },
{
    let n = finished_functions.len();
    if n == 0 {
        return Ok(None);
    }
    let ghost fs = finished_functions@;
    let mut functions: Vec<FunctionInfo> = Vec::new();
    let mut min_start: usize = finished_functions[0].start;
    let mut max_end: usize = 0;
    let mut idx: usize = 0;
    while idx < n
        invariant
            0 < n == fs.len(),
            fs == finished_functions@,
            idx <= n,
            *info == *old(info),
            info.wf(),
            forall|k: int| 0 <= k < fs.len() ==> extent_end(#[trigger] fs[k]) <= usize::MAX,
            functions@.len() == idx,
            functions_sorted(functions@),
            functions_match_extents(functions@, fs, idx as int),
            idx == 0 ==> min_start == fs[0].start && max_end == 0,
            idx > 0 ==> (forall|k: int| 0 <= k < idx ==> min_start <= (#[trigger] fs[k]).start),
            idx > 0 ==> (exists|k: int| 0 <= k < idx && min_start == (#[trigger] fs[k]).start),
            idx > 0 ==> (forall|k: int| 0 <= k < idx ==> extent_end(#[trigger] fs[k]) <= max_end),
            idx > 0 ==> (exists|k: int| 0 <= k < idx && max_end == extent_end(#[trigger] fs[k])),
        decreases n - idx,
    {
        let e = finished_functions[idx];
        let end = e.start + e.len;
        if e.start < min_start {
            min_start = e.start;
        }
        if end > max_end {
            max_end = end;
        }
        let mut lo: usize = 0;
        let mut hi: usize = functions.len();
        while lo < hi
            invariant
                lo <= hi <= functions@.len(),
                functions_sorted(functions@),
                forall|k: int| 0 <= k < lo ==> (#[trigger] functions@[k]).end < end,
                forall|k: int| hi <= k < functions@.len()
                    ==> (#[trigger] functions@[k]).end >= end,
            decreases hi - lo,
        {
            let mid = lo + (hi - lo) / 2;
            if functions[mid].end < end {
                lo = mid + 1;
            } else {
                hi = mid;
            }
        }
        if lo < functions.len() && functions[lo].end == end {
            proof {
                assert(end == mk_function_info(fs, idx as int).end);
                lemma_end_collision(functions@, fs, idx as int, lo as int);
            }
            return Err(RegisterError::FunctionEndCollision);
        }
        let newf = FunctionInfo { start: e.start, end, local_index: idx };
        let ghost fpre = functions@;
        functions.insert(lo, newf);
        proof {
            assert(newf == mk_function_info(fs, idx as int));
            lemma_function_insert(fpre, functions@, fs, idx as int, lo as int, newf);
        }
        idx = idx + 1;
    }
    proof {
        lemma_no_end_collision(functions@, fs);
        assert forall|i: int, j: int|
            0 <= i < j < info.ranges@.len() implies (#[trigger] info.ranges@[i]).end
            < (#[trigger] info.ranges@[j]).end by {
            assert(info.ranges@[j].wf());
        }
    }
    let mut lo: usize = 0;
    let mut hi: usize = info.ranges.len();
    while lo < hi
        invariant
            lo <= hi <= info.ranges@.len(),
            *info == *old(info),
            info.wf(),
            forall|i: int, j: int| #![trigger info.ranges@[i].end, info.ranges@[j].end]
                0 <= i < j < info.ranges@.len() ==> info.ranges@[i].end < info.ranges@[j].end,
            forall|k: int| 0 <= k < lo ==> (#[trigger] info.ranges@[k]).end < min_start,
            forall|k: int| hi <= k < info.ranges@.len()
                ==> (#[trigger] info.ranges@[k]).end >= min_start,
        decreases hi - lo,
    {
        let mid = lo + (hi - lo) / 2;
        if info.ranges[mid].end < min_start {
            lo = mid + 1;
        } else {
            hi = mid;
        }
    }
    if lo < info.ranges.len() {
        let overlap = info.ranges[lo].start <= max_end;
        if overlap {
            proof {
                let klo = choose|k: int| 0 <= k < fs.len() && min_start == (#[trigger] fs[k]).start;
                let khi = choose|k: int| 0 <= k < fs.len() && max_end == extent_end(#[trigger] fs[k]);
                assert(info.ranges@[lo as int].start <= extent_end(fs[khi]));
                assert(fs[klo].start <= info.ranges@[lo as int].end);
                assert(hull_overlaps(*info, fs));
            }
            return Err(RegisterError::ModuleOverlap);
        }
    }
    proof {
        assert forall|w: int|
            0 <= w < info.ranges@.len() implies info.ranges@[w].start > max_end as int
                || info.ranges@[w].end < min_start as int by {
            if w < lo as int {
                assert(info.ranges@[w].end < min_start);
            } else {
                assert(info.ranges@[w].end >= min_start);
                if w > lo as int {
                    assert(info.ranges@[lo as int].end < info.ranges@[w].start);
                    assert(info.ranges@[lo as int].wf());
                    assert(info.ranges@[lo as int].start > max_end);
                }
            }
        }
        assert(!hull_overlaps(*info, fs)) by {
            if hull_overlaps(*info, fs) {
                let w = choose|i: int|
                    {
                        &&& 0 <= i < info.ranges@.len()
                        &&& exists|k: int| 0 <= k < fs.len()
                            && (#[trigger] info.ranges@[i]).start <= extent_end(#[trigger] fs[k])
                        &&& exists|k: int| 0 <= k < fs.len()
                            && (#[trigger] fs[k]).start <= info.ranges@[i].end
                    };
                if info.ranges@[w].start > max_end as int {
                    let k1 = choose|k: int|
                        0 <= k < fs.len()
                            && (#[trigger] info.ranges@[w]).start <= extent_end(#[trigger] fs[k]);
                    assert(extent_end(fs[k1]) <= max_end);
                } else {
                    let k2 = choose|k: int|
                        0 <= k < fs.len() && (#[trigger] fs[k]).start <= info.ranges@[w].end;
                    assert(min_start <= fs[k2].start);
                }
            }
        }
    }
    let record = ModuleInfoFrameInfo {
        start: min_start,
        end: max_end,
        functions,
        module,
        frame_infos,
    };
    proof {
        assert(record.wf()) by {
            assert forall|i: int| 0 <= i < record.functions@.len() implies {
                &&& (#[trigger] record.functions@[i]).start <= record.functions@[i].end
                &&& record.start <= record.functions@[i].start
                &&& record.functions@[i].end <= record.end
                &&& record.functions@[i].local_index < record.frame_infos@.len()
            } by {
                let k = record.functions@[i].local_index as int;
                assert(record.functions@[i] == mk_function_info(fs, k));
                assert(min_start <= fs[k].start);
                assert(extent_end(fs[k]) <= max_end);
            }
            let klo = choose|k: int| 0 <= k < fs.len() && min_start == (#[trigger] fs[k]).start;
            let tlo = choose|t: int|
                0 <= t < fs.len() && record.functions@[t] == mk_function_info(fs, klo);
            assert(record.functions@[tlo] == mk_function_info(fs, klo));
            assert(record.functions@[tlo].start == record.start);
            let khi = choose|k: int| 0 <= k < fs.len() && max_end == extent_end(#[trigger] fs[k]);
            let thi = choose|t: int|
                0 <= t < fs.len() && record.functions@[t] == mk_function_info(fs, khi);
            assert(record.functions@[thi] == mk_function_info(fs, khi));
            assert(record.functions@[thi].end == record.end);
            let last = record.functions@.len() - 1;
            if thi < last {
                assert(record.functions@[thi].end < record.functions@[last].end);
            }
            assert(record.functions@[last].end <= record.end) by {
                let kk = record.functions@[last].local_index as int;
                assert(record.functions@[last] == mk_function_info(fs, kk));
                assert(extent_end(fs[kk]) <= max_end);
            }
        }
    }
    let ghost pre = info.ranges@;
    info.ranges.insert(lo, record);
    proof {
        pre.insert_ensures(lo as int, record);
        assert forall|a: int, b: int| #![trigger info.ranges@[a], info.ranges@[b]]
            0 <= a < b < info.ranges@.len() implies info.ranges@[a].wf()
            && info.ranges@[a].end < info.ranges@[b].start by {
            let av = if a < lo as int { pre[a] } else if a == lo as int { record } else {
                pre[a - 1]
            };
            let bv = if b < lo as int { pre[b] } else if b == lo as int { record } else {
                pre[b - 1]
            };
            assert(info.ranges@[a] == av);
            assert(info.ranges@[b] == bv);
            if b == lo as int {
                assert(pre[a].end < min_start);
            }
            if a == lo as int {
                assert(pre[b - 1].start > max_end || pre[b - 1].end < min_start);
                assert(pre[b - 1].end >= min_start);
            }
            if a < lo as int && b > lo as int {
                assert(pre[a].end < pre[b - 1].start || pre[a].end < min_start);
            }
        }
        assert forall|i: int| 0 <= i < info.ranges@.len()
            implies (#[trigger] info.ranges@[i]).wf() by {
            assert(info.ranges@[i] == if i < lo as int { pre[i] } else if i == lo as int {
                record
            } else {
                pre[i - 1]
            });
        }
        assert(registered_at(
            *old(info),
            *info,
            lo as int,
            module,
            finished_functions@,
            frame_infos@,
            max_end,
        ));
        assert(registered(
            *old(info),
            *info,
            module,
            finished_functions@,
            frame_infos@,
            max_end,
        ));
    }
    Ok(Some(GlobalFrameInfoRegistration { key: max_end }))
}

} // verus!
