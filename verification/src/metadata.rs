//! Static module metadata consulted when a frame is described: the
//! module's name, the width of its imported-function prefix, and its
//! table of function names.

use vstd::prelude::*;

verus! {

/// The name recorded for one module-wide function index.
#[derive(Debug)]
pub struct FunctionName {
    /// Index in the module-wide function index space.
    pub index: u32,
    /// The recorded name.
    pub name: String,
}

/// What the frame registry needs to know about a module besides its
/// compiled code: its name, how many of its functions are imported
/// (local function indices are promoted past them), and the name table.
#[derive(Debug)]
pub struct ModuleMetadata {
    /// The module's name; may be empty.
    pub name: String,
    /// Number of imported functions preceding the local ones in the
    /// module-wide function index space.
    pub imported_function_count: u32,
    /// Names of functions, sorted strictly ascending by function index.
    pub function_names: Vec<FunctionName>,
}

/// The name table is keyed by strictly ascending function index, so
/// each index carries at most one name.
pub open spec fn names_sorted(rows: Seq<FunctionName>) -> bool {
    forall|i: int, j: int| #![trigger rows[i], rows[j]]
        0 <= i < j < rows.len() ==> rows[i].index < rows[j].index
}

impl ModuleMetadata {
    /// Well-formedness: the name table is sorted.
    pub open spec fn wf(&self) -> bool {
        names_sorted(self.function_names@)
    }

    /// The name recorded for `idx`, if any.
    pub open spec fn name_of(&self, idx: u32) -> Option<Seq<char>> {
        if exists|i: int| 0 <= i < self.function_names@.len()
            && (#[trigger] self.function_names@[i]).index == idx {
            Some(
                self.function_names@[choose|i: int| 0 <= i < self.function_names@.len()
                    && (#[trigger] self.function_names@[i]).index == idx].name@,
            )
        } else {
            None
        }
    }

    /// Looks up the name recorded for the function index `idx`.
    pub fn lookup_name(&self, idx: u32) -> (r: Option<String>)
        requires
            self.wf(),
        ensures
            match r {
                Some(s) => self.name_of(idx) == Some(s@),
                None => self.name_of(idx) is None,
            },
    {
        let mut lo: usize = 0;
        let mut hi: usize = self.function_names.len();
        while lo < hi
            invariant
                lo <= hi <= self.function_names@.len(),
                names_sorted(self.function_names@),
                forall|k: int| 0 <= k < lo
                    ==> (#[trigger] self.function_names@[k]).index < idx,
                forall|k: int| hi <= k < self.function_names@.len()
                    ==> (#[trigger] self.function_names@[k]).index > idx,
            decreases hi - lo,
        {
            let mid = lo + (hi - lo) / 2;
            let cur = self.function_names[mid].index;
            if cur < idx {
                lo = mid + 1;
            } else if cur > idx {
                hi = mid;
            } else {
                proof {
                    assert(self.function_names@[mid as int].index == idx);
                    assert forall|w: int|
                        0 <= w < self.function_names@.len()
                            && (#[trigger] self.function_names@[w]).index == idx
                        implies w == mid as int by {
                        if w != mid as int {
                            assert(self.function_names@[w].index
                                != self.function_names@[mid as int].index);
                        }
                    }
                }
                return Some(self.function_names[mid].name.clone());
            }
        }
        None
    }
}

} // verus!
