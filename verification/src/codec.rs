//! The wire form of a function's debug tables.
//!
//! A serialised debug cell holds one blob: the function's start source
//! offset, its address-map rows, and its trap points, all as
//! little-endian 32-bit words.  Layout, with `n` address-map rows and
//! `m` trap points:
//!
//! | bytes                 | content                                  |
//! |-----------------------|------------------------------------------|
//! | `[0, 4)`              | `start_src`                              |
//! | `[4, 8)`              | `n`                                      |
//! | `[8, 8 + 12n)`        | rows: `code_offset`, `code_len`, `src_offset` |
//! | `[8 + 12n, 12 + 12n)` | `m`                                      |
//! | 8 bytes per trap      | `code_offset`, trap-kind tag             |
//!
//! A blob is valid only if the tables it carries are well formed:
//! decoding rejects unsorted or overlapping rows, so a decoded cell
//! always satisfies the table invariants.

use vstd::prelude::*;

use crate::address_map::{AddressMap, InstructionMapEntry, entries_sorted, entries_src_bounded};
use crate::trap_points::{TrapKind, TrapPoint, traps_sorted};

verus! {

/// Spec-level content of a function's debug tables, independent of
/// whether they currently sit in a cell decoded or serialised.
pub ghost struct FrameTables {
    /// Byte offset in the original module where the function begins.
    pub start_src: u32,
    /// The address-map rows.
    pub instructions: Seq<InstructionMapEntry>,
    /// The trap points.
    pub traps: Seq<TrapPoint>,
}

impl FrameTables {
    /// Both tables sorted and consistent with the start offset.
    pub open spec fn wf(&self) -> bool {
        &&& entries_sorted(self.instructions)
        &&& entries_src_bounded(self.instructions, self.start_src)
        &&& traps_sorted(self.traps)
    }
}

/// The little-endian 32-bit word stored at byte position `pos`.
pub open spec fn le32_at(b: Seq<u8>, pos: int) -> u32 {
    (b[pos] as u32) | ((b[pos + 1] as u32) << 8) | ((b[pos + 2] as u32) << 16)
        | ((b[pos + 3] as u32) << 24)
}

/// The tag a trap kind is serialised as.
pub open spec fn tag_of_kind(k: TrapKind) -> u32 {
    match k {
        TrapKind::UnreachableCodeReached => 0,
        TrapKind::StackOverflow => 1,
        TrapKind::HeapAccessOutOfBounds => 2,
        TrapKind::HeapMisaligned => 3,
        TrapKind::TableAccessOutOfBounds => 4,
        TrapKind::IndirectCallToNull => 5,
        TrapKind::BadSignature => 6,
        TrapKind::IntegerOverflow => 7,
        TrapKind::IntegerDivisionByZero => 8,
        TrapKind::BadConversionToInteger => 9,
    }
}

/// Whether a serialised tag denotes a trap kind.
pub open spec fn tag_valid(t: u32) -> bool {
    t <= 9
}

/// The trap kind a valid tag denotes.
pub open spec fn kind_of_tag(t: u32) -> TrapKind {
    if t == 0 {
        TrapKind::UnreachableCodeReached
    } else if t == 1 {
        TrapKind::StackOverflow
    } else if t == 2 {
        TrapKind::HeapAccessOutOfBounds
    } else if t == 3 {
        TrapKind::HeapMisaligned
    } else if t == 4 {
        TrapKind::TableAccessOutOfBounds
    } else if t == 5 {
        TrapKind::IndirectCallToNull
    } else if t == 6 {
        TrapKind::BadSignature
    } else if t == 7 {
        TrapKind::IntegerOverflow
    } else if t == 8 {
        TrapKind::IntegerDivisionByZero
    } else {
        TrapKind::BadConversionToInteger
    }
}

/// Serialising a trap kind and reading the tag back gives the kind.
pub proof fn lemma_tag_roundtrip(k: TrapKind)
    ensures
        tag_valid(tag_of_kind(k)),
        kind_of_tag(tag_of_kind(k)) == k,
{
}

/// Number of address-map rows a blob declares.
pub open spec fn blob_n(b: Seq<u8>) -> int {
    le32_at(b, 4) as int
}

/// Number of trap points a blob declares.
pub open spec fn blob_m(b: Seq<u8>) -> int {
    le32_at(b, 8 + 12 * blob_n(b)) as int
}

/// The `k`-th address-map row of a blob.
pub open spec fn blob_entry(b: Seq<u8>, k: int) -> InstructionMapEntry {
    InstructionMapEntry {
        code_offset: le32_at(b, 8 + 12 * k),
        code_len: le32_at(b, 8 + 12 * k + 4),
        src_offset: le32_at(b, 8 + 12 * k + 8),
    }
}

/// The serialised tag of the `k`-th trap point of a blob.
pub open spec fn blob_trap_tag(b: Seq<u8>, k: int) -> u32 {
    le32_at(b, 12 + 12 * blob_n(b) + 8 * k + 4)
}

/// The `k`-th trap point of a blob.
pub open spec fn blob_trap(b: Seq<u8>, k: int) -> TrapPoint {
    TrapPoint {
        code_offset: le32_at(b, 12 + 12 * blob_n(b) + 8 * k),
        kind: kind_of_tag(blob_trap_tag(b, k)),
    }
}

/// The blob's length agrees exactly with the counts it declares.
pub open spec fn blob_len_ok(b: Seq<u8>) -> bool {
    &&& b.len() >= 12
    &&& b.len() >= 12 + 12 * blob_n(b)
    &&& b.len() == 12 + 12 * blob_n(b) + 8 * blob_m(b)
}

/// The tables a blob carries.
pub open spec fn blob_tables(b: Seq<u8>) -> FrameTables {
    FrameTables {
        start_src: le32_at(b, 0),
        instructions: Seq::new(blob_n(b) as nat, |k: int| blob_entry(b, k)),
        traps: Seq::new(blob_m(b) as nat, |k: int| blob_trap(b, k)),
    }
}

/// A valid blob: the length agrees with the declared counts, every
/// trap tag denotes a kind, and the carried tables are well formed.
pub open spec fn blob_ok(b: Seq<u8>) -> bool {
    &&& blob_len_ok(b)
    &&& forall|k: int| 0 <= k < blob_m(b) ==> tag_valid(#[trigger] blob_trap_tag(b, k))
    &&& blob_tables(b).wf()
}

/// Reads the little-endian 32-bit word at `pos`.
pub fn read_le32(b: &Vec<u8>, pos: usize) -> (r: u32)
    requires
        pos + 4 <= b.len(),
    ensures
        r == le32_at(b@, pos as int),
{
    (b[pos] as u32) | ((b[pos + 1] as u32) << 8) | ((b[pos + 2] as u32) << 16)
        | ((b[pos + 3] as u32) << 24)
}

/// Appends `x` to `v` as a little-endian 32-bit word.  Words already
/// written are not disturbed.
pub fn push_le32(v: &mut Vec<u8>, x: u32)
    requires
        old(v).len() + 4 <= usize::MAX,
    ensures
        final(v)@.len() == old(v)@.len() + 4,
        forall|i: int| 0 <= i < old(v)@.len() ==> final(v)@[i] == old(v)@[i],
        forall|p: int| 0 <= p && p + 4 <= old(v)@.len()
            ==> #[trigger] le32_at(final(v)@, p) == le32_at(old(v)@, p),
        le32_at(final(v)@, old(v)@.len() as int) == x,
{
    let b0 = (x & 0xff) as u8;
    let b1 = ((x >> 8) & 0xff) as u8;
    let b2 = ((x >> 16) & 0xff) as u8;
    let b3 = ((x >> 24) & 0xff) as u8;
    v.push(b0);
    v.push(b1);
    v.push(b2);
    v.push(b3);
    proof {
        let l = old(v)@.len() as int;
        assert(v@[l] == b0 && v@[l + 1] == b1 && v@[l + 2] == b2 && v@[l + 3] == b3);
        assert(((x & 0xff) as u8 as u32) | ((((x >> 8) & 0xff) as u8 as u32) << 8)
            | ((((x >> 16) & 0xff) as u8 as u32) << 16)
            | ((((x >> 24) & 0xff) as u8 as u32) << 24) == x) by (bit_vector);
    }
}

/// Maps a trap kind to its serialised tag.
pub fn kind_to_tag(k: TrapKind) -> (t: u32)
    ensures
        t == tag_of_kind(k),
{
    match k {
        TrapKind::UnreachableCodeReached => 0,
        TrapKind::StackOverflow => 1,
        TrapKind::HeapAccessOutOfBounds => 2,
        TrapKind::HeapMisaligned => 3,
        TrapKind::TableAccessOutOfBounds => 4,
        TrapKind::IndirectCallToNull => 5,
        TrapKind::BadSignature => 6,
        TrapKind::IntegerOverflow => 7,
        TrapKind::IntegerDivisionByZero => 8,
        TrapKind::BadConversionToInteger => 9,
    }
}

/// Maps a serialised tag back to the trap kind it denotes.
pub fn tag_to_kind(t: u32) -> (r: Option<TrapKind>)
    ensures
        tag_valid(t) ==> r == Some(kind_of_tag(t)),
        !tag_valid(t) ==> r is None,
{
    if t > 9 {
        return None;
    }
    Some(
        if t == 0 {
            TrapKind::UnreachableCodeReached
        } else if t == 1 {
            TrapKind::StackOverflow
        } else if t == 2 {
            TrapKind::HeapAccessOutOfBounds
        } else if t == 3 {
            TrapKind::HeapMisaligned
        } else if t == 4 {
            TrapKind::TableAccessOutOfBounds
        } else if t == 5 {
            TrapKind::IndirectCallToNull
        } else if t == 6 {
            TrapKind::BadSignature
        } else if t == 7 {
            TrapKind::IntegerOverflow
        } else if t == 8 {
            TrapKind::IntegerDivisionByZero
        } else {
            TrapKind::BadConversionToInteger
        },
    )
}

/// Decodes a serialised debug cell.  Returns the tables exactly when
/// the blob is valid; a blob with a bad length, an unsorted or
/// overlapping table, or an unknown trap tag is rejected.
pub fn decode_frame_data(bytes: &Vec<u8>) -> (r: Option<(AddressMap, Vec<TrapPoint>)>)
    ensures
        r is Some <==> blob_ok(bytes@),
        match r {
            Some(p) => {
                &&& p.0.wf()
                &&& traps_sorted(p.1@)
                &&& p.0.start_src == blob_tables(bytes@).start_src
                &&& p.0.instructions@ == blob_tables(bytes@).instructions
                &&& p.1@ == blob_tables(bytes@).traps
            },
            None => true,
        },
{
    if bytes.len() < 12 {
        return None;
    }
    let start_src = read_le32(bytes, 0);
    let n = read_le32(bytes, 4) as usize;
    let mut rows: Vec<InstructionMapEntry> = Vec::new();
    let mut pos: usize = 8;
    let mut k: usize = 0;
    while k < n
        invariant
            bytes@.len() >= 12,
            k <= n,
            n == blob_n(bytes@),
            pos == 8 + 12 * k,
            pos <= bytes@.len(),
            start_src == le32_at(bytes@, 0),
            rows@.len() == k,
            forall|t: int| 0 <= t < k ==> #[trigger] rows@[t] == blob_entry(bytes@, t),
            entries_sorted(rows@),
            entries_src_bounded(rows@, start_src),
        decreases n - k,
    {
        if bytes.len() - pos < 12 {
            // A valid blob would have room for all `n` rows.
            return None;
        }
        let off = read_le32(bytes, pos);
        let len = read_le32(bytes, pos + 4);
        let src = read_le32(bytes, pos + 8);
        proof {
            assert(InstructionMapEntry { code_offset: off, code_len: len, src_offset: src }
                == blob_entry(bytes@, k as int));
            if blob_ok(bytes@) {
                assert(blob_tables(bytes@).instructions[k as int] == blob_entry(bytes@, k as int));
                if k > 0 {
                    assert(blob_tables(bytes@).instructions[k as int - 1]
                        == blob_entry(bytes@, k as int - 1));
                }
            }
        }
        if off > u32::MAX - len {
            return None;
        }
        if src < start_src {
            return None;
        }
        if k > 0 {
            let prev = rows[k - 1];
            if !(prev.code_offset < off) || !(prev.code_offset + prev.code_len <= off) {
                return None;
            }
        }
        rows.push(InstructionMapEntry { code_offset: off, code_len: len, src_offset: src });
        proof {
            assert forall|i: int, j: int|
                0 <= i < j < rows@.len() implies (#[trigger] rows@[i]).code_offset
                < (#[trigger] rows@[j]).code_offset && rows@[i].code_offset + rows@[i].code_len
                <= rows@[j].code_offset by {
                if j == k as int && i < k as int - 1 {
                    assert(rows@[i].code_offset + rows@[i].code_len
                        <= rows@[k as int - 1].code_offset);
                }
            }
        }
        pos = pos + 12;
        k = k + 1;
    }
    if bytes.len() - pos < 4 {
        return None;
    }
    let m = read_le32(bytes, pos) as usize;
    pos = pos + 4;
    let mut traps: Vec<TrapPoint> = Vec::new();
    let mut j: usize = 0;
    while j < m
        invariant
            bytes@.len() >= 12,
            j <= m,
            n == blob_n(bytes@),
            m == blob_m(bytes@),
            pos == 12 + 12 * n + 8 * j,
            pos <= bytes@.len(),
            traps@.len() == j,
            forall|t: int| 0 <= t < j ==> #[trigger] traps@[t] == blob_trap(bytes@, t),
            forall|t: int| 0 <= t < j ==> tag_valid(#[trigger] blob_trap_tag(bytes@, t)),
            traps_sorted(traps@),
        decreases m - j,
    {
        if bytes.len() - pos < 8 {
            return None;
        }
        let off = read_le32(bytes, pos);
        let tag = read_le32(bytes, pos + 4);
        proof {
            assert(tag == blob_trap_tag(bytes@, j as int));
            if blob_ok(bytes@) {
                assert(tag_valid(blob_trap_tag(bytes@, j as int)));
                assert(blob_tables(bytes@).traps[j as int] == blob_trap(bytes@, j as int));
                if j > 0 {
                    assert(blob_tables(bytes@).traps[j as int - 1]
                        == blob_trap(bytes@, j as int - 1));
                }
            }
        }
        let kind = match tag_to_kind(tag) {
            Some(kd) => kd,
            None => {
                return None;
            },
        };
        if j > 0 {
            let prev = traps[j - 1];
            if prev.code_offset >= off {
                return None;
            }
        }
        proof {
            assert(TrapPoint { code_offset: off, kind } == blob_trap(bytes@, j as int));
        }
        traps.push(TrapPoint { code_offset: off, kind });
        proof {
            assert forall|a: int, b: int|
                0 <= a < b < traps@.len() implies (#[trigger] traps@[a]).code_offset
                < (#[trigger] traps@[b]).code_offset by {
                if b == j as int && a < j as int - 1 {
                    assert(traps@[a].code_offset < traps@[j as int - 1].code_offset);
                }
            }
        }
        pos = pos + 8;
        j = j + 1;
    }
    if pos != bytes.len() {
        return None;
    }
    proof {
        assert(rows@ =~= blob_tables(bytes@).instructions);
        assert(traps@ =~= blob_tables(bytes@).traps);
    }
    Some((AddressMap { start_src, instructions: rows }, traps))
}

/// Serialises a function's debug tables.  The produced blob is valid
/// and decodes to exactly the given tables.
pub fn encode_frame_data(map: &AddressMap, traps: &Vec<TrapPoint>) -> (r: Vec<u8>)
    requires
        map.wf(),
        traps_sorted(traps@),
        map.instructions@.len() <= u32::MAX,
        traps@.len() <= u32::MAX,
        12 + 12 * map.instructions@.len() + 8 * traps@.len() <= usize::MAX,
    ensures
        blob_ok(r@),
        blob_tables(r@) == (FrameTables {
            start_src: map.start_src,
            instructions: map.instructions@,
            traps: traps@,
        }),
{
    let n = map.instructions.len();
    let m = traps.len();
    let mut out: Vec<u8> = Vec::new();
    push_le32(&mut out, map.start_src);
    push_le32(&mut out, n as u32);
    let mut k: usize = 0;
    while k < n
        invariant
            k <= n,
            n == map.instructions@.len(),
            m == traps@.len(),
            n <= u32::MAX,
            m <= u32::MAX,
            12 + 12 * n + 8 * m <= usize::MAX,
            out@.len() == 8 + 12 * k,
            le32_at(out@, 0) == map.start_src,
            le32_at(out@, 4) == n as u32,
            forall|t: int| 0 <= t < k ==> #[trigger] blob_entry(out@, t) == map.instructions@[t],
        decreases n - k,
    {
        let ghost o0 = out@;
        let e = map.instructions[k];
        push_le32(&mut out, e.code_offset);
        let ghost o1 = out@;
        push_le32(&mut out, e.code_len);
        let ghost o2 = out@;
        push_le32(&mut out, e.src_offset);
        proof {
            assert(le32_at(out@, 0) == le32_at(o0, 0));
            assert(le32_at(out@, 4) == le32_at(o0, 4));
            assert(le32_at(out@, 8 + 12 * k as int) == le32_at(o1, 8 + 12 * k as int));
            assert(le32_at(out@, 8 + 12 * k as int + 4) == le32_at(o2, 8 + 12 * k as int + 4));
            assert(blob_entry(out@, k as int) == map.instructions@[k as int]);
            assert forall|t: int| 0 <= t < k + 1 implies #[trigger] blob_entry(out@, t)
                == map.instructions@[t] by {
                if t < k {
                    assert(le32_at(out@, 8 + 12 * t) == le32_at(o0, 8 + 12 * t));
                    assert(le32_at(out@, 8 + 12 * t + 4) == le32_at(o0, 8 + 12 * t + 4));
                    assert(le32_at(out@, 8 + 12 * t + 8) == le32_at(o0, 8 + 12 * t + 8));
                    assert(blob_entry(o0, t) == map.instructions@[t]);
                }
            }
        }
        k = k + 1;
    }
    let ghost oe = out@;
    push_le32(&mut out, m as u32);
    proof {
        assert(le32_at(out@, 0) == le32_at(oe, 0));
        assert(le32_at(out@, 4) == le32_at(oe, 4));
        assert forall|t: int| 0 <= t < n implies #[trigger] blob_entry(out@, t)
            == map.instructions@[t] by {
            assert(le32_at(out@, 8 + 12 * t) == le32_at(oe, 8 + 12 * t));
            assert(le32_at(out@, 8 + 12 * t + 4) == le32_at(oe, 8 + 12 * t + 4));
            assert(le32_at(out@, 8 + 12 * t + 8) == le32_at(oe, 8 + 12 * t + 8));
            assert(blob_entry(oe, t) == map.instructions@[t]);
        }
    }
    let mut j: usize = 0;
    while j < m
        invariant
            j <= m,
            n == map.instructions@.len(),
            m == traps@.len(),
            n <= u32::MAX,
            m <= u32::MAX,
            12 + 12 * n + 8 * m <= usize::MAX,
            out@.len() == 12 + 12 * n + 8 * j,
            le32_at(out@, 0) == map.start_src,
            le32_at(out@, 4) == n as u32,
            le32_at(out@, 8 + 12 * n as int) == m as u32,
            forall|t: int| 0 <= t < n ==> #[trigger] blob_entry(out@, t) == map.instructions@[t],
            forall|t: int| 0 <= t < j ==> #[trigger] blob_trap(out@, t) == traps@[t],
            forall|t: int| 0 <= t < j ==> tag_valid(#[trigger] blob_trap_tag(out@, t)),
        decreases m - j,
    {
        let ghost o0 = out@;
        let p = traps[j];
        push_le32(&mut out, p.code_offset);
        let ghost o1 = out@;
        let tag = kind_to_tag(p.kind);
        push_le32(&mut out, tag);
        proof {
            lemma_tag_roundtrip(traps@[j as int].kind);
            let base = 12 + 12 * n as int;
            assert(le32_at(out@, 0) == le32_at(o0, 0));
            assert(le32_at(out@, 4) == le32_at(o0, 4));
            assert(le32_at(out@, 8 + 12 * n as int) == le32_at(o0, 8 + 12 * n as int));
            assert(o0.len() == base + 8 * j as int);
            assert(o1.len() == base + 8 * j as int + 4);
            assert(out@.len() == base + 8 * j as int + 8);
            assert(le32_at(o1, base + 8 * j as int) == traps@[j as int].code_offset);
            assert(le32_at(out@, base + 8 * j as int) == le32_at(o1, base + 8 * j as int));
            assert(blob_n(out@) == n);
            assert(blob_trap_tag(out@, j as int) == tag);
            assert(blob_trap(out@, j as int) == traps@[j as int]);
            assert forall|t: int| 0 <= t < n implies #[trigger] blob_entry(out@, t)
                == map.instructions@[t] by {
                assert(le32_at(out@, 8 + 12 * t) == le32_at(o0, 8 + 12 * t));
                assert(le32_at(out@, 8 + 12 * t + 4) == le32_at(o0, 8 + 12 * t + 4));
                assert(le32_at(out@, 8 + 12 * t + 8) == le32_at(o0, 8 + 12 * t + 8));
                assert(blob_entry(o0, t) == map.instructions@[t]);
            }
            assert forall|t: int| 0 <= t < j + 1 implies #[trigger] blob_trap(out@, t)
                == traps@[t] by {
                if t < j {
                    assert(le32_at(out@, base + 8 * t) == le32_at(o0, base + 8 * t));
                    assert(le32_at(out@, base + 8 * t + 4) == le32_at(o0, base + 8 * t + 4));
                    assert(blob_n(o0) == n);
                    assert(blob_trap(o0, t) == traps@[t]);
                }
            }
            assert forall|t: int| 0 <= t < j + 1 implies tag_valid(
                #[trigger] blob_trap_tag(out@, t),
            ) by {
                if t < j {
                    assert(le32_at(out@, base + 8 * t + 4) == le32_at(o0, base + 8 * t + 4));
                    assert(blob_n(o0) == n);
                    assert(blob_trap_tag(o0, t) == blob_trap_tag(out@, t));
                    assert(tag_valid(blob_trap_tag(o0, t)));
                }
            }
        }
        j = j + 1;
    }
    proof {
        assert(blob_n(out@) == n);
        assert(blob_m(out@) == m);
        assert(blob_tables(out@).instructions =~= map.instructions@);
        assert(blob_tables(out@).traps =~= traps@);
    }
    out
}

} // verus!
