//! Backtrace assembly: turning the raw program counters captured at
//! trap time into owned frame descriptors, plus the trap kind of the
//! originating counter.  This is the only caller that writes to the
//! registry, and only to decode debug cells on first use.

use vstd::prelude::*;

use crate::frame::{FrameInfo, FrameSpec};
use crate::registry::GlobalFrameInfo;
use crate::trap_points::TrapKind;

verus! {

/// The assembled result of symbolicating one trap: the resolved
/// frames, innermost first, and the trap kind recorded at the
/// originating counter, if any.  Both are owned values and survive
/// deregistration of the modules they describe.
#[derive(Debug)]
pub struct Backtrace {
    /// One descriptor per captured counter that resolved; counters in
    /// host code resolve to nothing and are dropped.
    pub frames: Vec<FrameInfo>,
    /// The trap kind recorded at the originating counter; absence
    /// means the site is no compiler-declared trap site.
    pub trap_reason: Option<TrapKind>,
}

/// The descriptors the captured counters resolve to, in capture
/// order, with unresolved counters dropped.
pub open spec fn frames_of(r: GlobalFrameInfo, pcs: Seq<usize>) -> Seq<FrameSpec>
    decreases pcs.len(),
{
    if pcs.len() == 0 {
        Seq::empty()
    } else {
        let rest = frames_of(r, pcs.drop_last());
        match r.frame_at(pcs.last()) {
            Some(f) => rest.push(f),
            None => rest,
        }
    }
}

/// The spec contents of a vector of descriptors.
pub open spec fn frame_views(v: Seq<FrameInfo>) -> Seq<FrameSpec> {
    Seq::new(v.len(), |i: int| v[i]@)
}

/// Symbolicates one trap: decodes the debug cells the counters touch
/// — the only mutation, invisible to lookups — then resolves each
/// counter to a descriptor and classifies the originating counter.
pub fn assemble_backtrace(
    info: &mut GlobalFrameInfo,
    pcs: &Vec<usize>,
    trap_pc: usize,
) -> (r: Backtrace)
    requires
        old(info).wf(),
    ensures
        final(info).wf(),
        frame_views(r.frames@) == frames_of(*old(info), pcs@),
        r.trap_reason == match old(info).trap_at(trap_pc) {
            Some(tp) => Some(tp.kind),
            None => None::<TrapKind>,
        },
        forall|pc: usize| #![trigger final(info).frame_at(pc)]
            final(info).frame_at(pc) == old(info).frame_at(pc),
        forall|pc: usize| #![trigger final(info).trap_at(pc)]
            final(info).trap_at(pc) == old(info).trap_at(pc),
{
    let mut k: usize = 0;
    while k < pcs.len()
        invariant
            old(info).wf(),
            info.wf(),
            k <= pcs@.len(),
            forall|pc: usize| #![trigger info.frame_at(pc)]
                info.frame_at(pc) == old(info).frame_at(pc),
            forall|pc: usize| #![trigger info.trap_at(pc)]
                info.trap_at(pc) == old(info).trap_at(pc),
            forall|pc: usize| #![trigger info.resolves(pc)]
                info.resolves(pc) == old(info).resolves(pc),
            forall|t: int| 0 <= t < k ==> info.decoded_for(#[trigger] pcs@[t]),
        decreases pcs@.len() - k,
    {
        let pc = pcs[k];
        decode_for(info, pc);
        k = k + 1;
    }
    decode_for(info, trap_pc);
    let mut frames: Vec<FrameInfo> = Vec::new();
    let mut t: usize = 0;
    while t < pcs.len()
        invariant
            old(info).wf(),
            info.wf(),
            t <= pcs@.len(),
            forall|pc: usize| #![trigger info.frame_at(pc)]
                info.frame_at(pc) == old(info).frame_at(pc),
            forall|pc: usize| #![trigger info.trap_at(pc)]
                info.trap_at(pc) == old(info).trap_at(pc),
            forall|q: int| 0 <= q < pcs@.len() ==> info.decoded_for(#[trigger] pcs@[q]),
            info.decoded_for(trap_pc),
            frame_views(frames@) == frames_of(*old(info), pcs@.take(t as int)),
        decreases pcs@.len() - t,
    {
        let pc = pcs[t];
        let ghost fpre = frames@;
        match info.lookup_frame_info(pc) {
            Some(f) => {
                frames.push(f);
            },
            None => {},
        }
        proof {
            assert(pcs@.take(t as int + 1).drop_last() =~= pcs@.take(t as int));
            assert(pcs@.take(t as int + 1).last() == pcs@[t as int]);
            match info.frame_at(pc) {
                Some(fv) => {
                    assert(frames@ == fpre.push(frames@.last()));
                    assert(frame_views(frames@) =~= frame_views(fpre).push(fv));
                },
                None => {},
            }
        }
        t = t + 1;
    }
    proof {
        assert(pcs@.take(pcs@.len() as int) =~= pcs@);
    }
    let trap_reason = match info.lookup_trap_info(trap_pc) {
        Some(tp) => Some(tp.kind),
        None => None,
    };
    Backtrace { frames, trap_reason }
}

/// Decodes the debug cell `pc` resolves to, if it still awaits
/// decoding; afterwards the counter is safe for read lookups, and no
/// lookup result anywhere has changed.
fn decode_for(info: &mut GlobalFrameInfo, pc: usize)
    requires
        old(info).wf(),
    ensures
        final(info).wf(),
        final(info).decoded_for(pc),
        forall|q: usize| #![trigger final(info).frame_at(q)]
            final(info).frame_at(q) == old(info).frame_at(q),
        forall|q: usize| #![trigger final(info).trap_at(q)]
            final(info).trap_at(q) == old(info).trap_at(q),
        forall|q: usize| #![trigger final(info).resolves(q)]
            final(info).resolves(q) == old(info).resolves(q),
        forall|q: usize| #![trigger final(info).decoded_for(q)]
            old(info).decoded_for(q) ==> final(info).decoded_for(q),
{
    let probe = info.should_process_frame(pc);
    let needs = match probe {
        Some(b) => b,
        None => false,
    };
    if needs {
        let r = info.maybe_process_frame(pc);
        proof {
            assert(r is Some);
            GlobalFrameInfo::lemma_decode_step_preserves(*old(info), *info, pc);
        }
    } else {
        proof {
            assert(info.decoded_for(pc));
        }
    }
}

} // verus!
