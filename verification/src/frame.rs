//! The public, immutable result of a frame lookup.

use vstd::prelude::*;

verus! {

/// Spec-level content of a frame descriptor.
pub ghost struct FrameSpec {
    /// The containing module's name.
    pub module_name: Seq<char>,
    /// Index in the module-wide function index space.
    pub func_index: u32,
    /// The function's recorded name, if any.
    pub function_name: Option<Seq<char>>,
    /// Byte offset in the original module where the function begins.
    pub func_start: u32,
    /// Byte offset in the original module of the frame's instruction.
    pub instr: u32,
}

/// Description of one frame in a backtrace: which module and function a
/// captured program counter belongs to, and where in the original
/// module binary its instruction lies.  Descriptors are owned values:
/// they stay meaningful after the module they describe is deregistered.
#[derive(Debug)]
pub struct FrameInfo {
    /// The containing module's name; may be empty.
    pub module_name: String,
    /// Index in the module-wide function index space.
    pub func_index: u32,
    /// The function's recorded name, if any.
    pub function_name: Option<String>,
    /// Byte offset in the original module where the function begins.
    pub func_start: u32,
    /// Byte offset in the original module of the frame's instruction.
    pub instr: u32,
}

impl View for FrameInfo {
    type V = FrameSpec;

    open spec fn view(&self) -> FrameSpec {
        FrameSpec {
            module_name: self.module_name@,
            func_index: self.func_index,
            function_name: match self.function_name {
                Some(s) => Some(s@),
                None => None,
            },
            func_start: self.func_start,
            instr: self.instr,
        }
    }
}

impl FrameInfo {
    /// The instruction offset never precedes the function's start
    /// offset; lookups only produce such descriptors.
    pub open spec fn wf(&self) -> bool {
        self.func_start <= self.instr
    }

    /// The frame's index in the module-wide function index space,
    /// imported functions included.
    pub fn func_index(&self) -> (r: u32)
        ensures
            r == self@.func_index,
    {
        self.func_index
    }

    /// The name of the module this frame belongs to; empty when the
    /// module carries no name.
    pub fn module_name(&self) -> (r: &str)
        ensures
            r@ == self@.module_name,
    {
        self.module_name.as_str()
    }

    /// The recorded name of the frame's function, if one is known.
    pub fn function_name(&self) -> (r: Option<&str>)
        ensures
            match r {
                Some(s) => self@.function_name == Some(s@),
                None => self@.function_name is None,
            },
    {
        match &self.function_name {
            Some(s) => Some(s.as_str()),
            None => None,
        }
    }

    /// Byte offset of the frame's instruction from the beginning of the
    /// original module.
    pub fn module_offset(&self) -> (r: usize)
        ensures
            r == self@.instr,
    {
        self.instr as usize
    }

    /// Byte offset of the frame's instruction from the beginning of its
    /// defining function in the original module.
    pub fn func_offset(&self) -> (r: usize)
        requires
            self.wf(),
        ensures
            r == self@.instr - self@.func_start,
    {
        (self.instr - self.func_start) as usize
    }
}

} // verus!
