//! End-to-end exercises of the frame registry: registration and its
//! invariant checks, frame and trap lookups at and around boundaries,
//! lazy decoding, deregistration, backtrace assembly, and the wire
//! form of serialised debug cells.

use frame_info::address_map::{AddressMap, InstructionMapEntry};
use frame_info::backtrace::assemble_backtrace;
use frame_info::codec::{decode_frame_data, encode_frame_data};
use frame_info::debug_cell::FunctionDebug;
use frame_info::metadata::{FunctionName, ModuleMetadata};
use frame_info::registry::{register, FunctionExtent, GlobalFrameInfo, RegisterError};
use frame_info::trap_points::{TrapKind, TrapPoint};

fn am(start_src: u32, rows: &[(u32, u32, u32)]) -> AddressMap {
    AddressMap {
        start_src,
        instructions: rows
            .iter()
            .map(|&(code_offset, code_len, src_offset)| InstructionMapEntry {
                code_offset,
                code_len,
                src_offset,
            })
            .collect(),
    }
}

fn tps(rows: &[(u32, TrapKind)]) -> Vec<TrapPoint> {
    rows.iter()
        .map(|&(code_offset, kind)| TrapPoint { code_offset, kind })
        .collect()
}

fn meta(name: &str, imported: u32, names: &[(u32, &str)]) -> ModuleMetadata {
    ModuleMetadata {
        name: name.to_string(),
        imported_function_count: imported,
        function_names: names
            .iter()
            .map(|&(index, name)| FunctionName {
                index,
                name: name.to_string(),
            })
            .collect(),
    }
}

fn cell(serialised: bool, map: AddressMap, traps: Vec<TrapPoint>) -> FunctionDebug {
    if serialised {
        FunctionDebug::Serialised(encode_frame_data(&map, &traps))
    } else {
        FunctionDebug::Decoded(map, traps)
    }
}

/// A module shaped like the symbolication scenario: four local
/// functions `die`, unnamed, `foo`, unnamed, each with one trapping
/// instruction at machine offset 4 mapping to source offsets 0x23,
/// 0x27, 0x2c, 0x31; `die` carries an `unreachable` trap point.
fn scenario_module(
    name: &str,
    base: usize,
    serialised: bool,
) -> (ModuleMetadata, Vec<FunctionExtent>, Vec<FunctionDebug>) {
    let metadata = meta(name, 0, &[(0, "die"), (2, "foo")]);
    let extents = vec![
        FunctionExtent { start: base, len: 16 },
        FunctionExtent { start: base + 100, len: 16 },
        FunctionExtent { start: base + 200, len: 16 },
        FunctionExtent { start: base + 300, len: 16 },
    ];
    let cells = vec![
        cell(
            serialised,
            am(0x20, &[(4, 4, 0x23)]),
            tps(&[(4, TrapKind::UnreachableCodeReached)]),
        ),
        cell(serialised, am(0x24, &[(4, 4, 0x27)]), tps(&[])),
        cell(serialised, am(0x29, &[(4, 4, 0x2c)]), tps(&[])),
        cell(serialised, am(0x2e, &[(4, 4, 0x31)]), tps(&[])),
    ];
    (metadata, extents, cells)
}

fn register_scenario(
    registry: &mut GlobalFrameInfo,
    name: &str,
    base: usize,
    serialised: bool,
) -> frame_info::registry::GlobalFrameInfoRegistration {
    let (metadata, extents, cells) = scenario_module(name, base, serialised);
    register(registry, metadata, &extents, cells)
        .expect("registration must be accepted")
        .expect("module has functions")
}

#[test]
fn register_empty_module_yields_no_handle() {
    let mut registry = GlobalFrameInfo::new();
    let outcome = register(&mut registry, meta("empty", 0, &[]), &Vec::new(), Vec::new());
    assert!(matches!(outcome, Ok(None)));
    assert!(registry.lookup_frame_info(0).is_none());
}

#[test]
fn register_rejects_overlapping_module() {
    let mut registry = GlobalFrameInfo::new();
    let a = register(
        &mut registry,
        meta("a", 0, &[]),
        &vec![FunctionExtent { start: 100, len: 100 }],
        vec![cell(false, am(0, &[]), tps(&[]))],
    );
    assert!(matches!(a, Ok(Some(_))));
    let b = register(
        &mut registry,
        meta("b", 0, &[]),
        &vec![FunctionExtent { start: 150, len: 100 }],
        vec![cell(false, am(0, &[]), tps(&[]))],
    );
    assert!(matches!(b, Err(RegisterError::ModuleOverlap)));
    // The registry still answers for the first module.
    assert!(registry.lookup_frame_info(150).is_some());
}

#[test]
fn register_rejects_contained_module() {
    let mut registry = GlobalFrameInfo::new();
    let outer = register(
        &mut registry,
        meta("outer", 0, &[]),
        &vec![FunctionExtent { start: 100, len: 100 }],
        vec![cell(false, am(0, &[]), tps(&[]))],
    );
    assert!(matches!(outer, Ok(Some(_))));
    let inner = register(
        &mut registry,
        meta("inner", 0, &[]),
        &vec![FunctionExtent { start: 120, len: 10 }],
        vec![cell(false, am(0, &[]), tps(&[]))],
    );
    assert!(matches!(inner, Err(RegisterError::ModuleOverlap)));
}

#[test]
fn register_rejects_equal_function_ends() {
    let mut registry = GlobalFrameInfo::new();
    let outcome = register(
        &mut registry,
        meta("m", 0, &[]),
        &vec![
            FunctionExtent { start: 10, len: 10 },
            FunctionExtent { start: 15, len: 5 },
        ],
        vec![
            cell(false, am(0, &[]), tps(&[])),
            cell(false, am(0, &[]), tps(&[])),
        ],
    );
    assert!(matches!(outcome, Err(RegisterError::FunctionEndCollision)));
    assert!(registry.lookup_frame_info(15).is_none());
}

#[test]
fn lookup_frame_reports_module_and_function() {
    let mut registry = GlobalFrameInfo::new();
    let _handle = register_scenario(&mut registry, "m", 1000, false);
    let frame = registry.lookup_frame_info(1004).expect("die_pc resolves");
    assert_eq!(frame.module_name(), "m");
    assert_eq!(frame.func_index(), 0);
    assert_eq!(frame.function_name(), Some("die"));
    assert_eq!(frame.module_offset(), 0x23);
    assert_eq!(frame.func_offset(), 3);
}

#[test]
fn lookup_frame_exact_code_offset() {
    let mut registry = GlobalFrameInfo::new();
    let _handle = register_scenario(&mut registry, "m", 1000, false);
    // Each function's single row sits at machine offset 4.
    assert_eq!(registry.lookup_frame_info(1004).unwrap().module_offset(), 0x23);
    assert_eq!(registry.lookup_frame_info(1104).unwrap().module_offset(), 0x27);
    assert_eq!(registry.lookup_frame_info(1204).unwrap().module_offset(), 0x2c);
    assert_eq!(registry.lookup_frame_info(1304).unwrap().module_offset(), 0x31);
}

#[test]
fn lookup_frame_minus_one_bias() {
    let mut registry = GlobalFrameInfo::new();
    let _handle = register_scenario(&mut registry, "m", 1000, false);
    // A counter one byte into the row — as `pc - 1` computed from a
    // return address lands — still resolves to the row.
    let frame = registry.lookup_frame_info(1007).expect("biased pc resolves");
    assert_eq!(frame.module_offset(), 0x23);
    // One byte before the row's key falls outside it: the fallback
    // reports the function's start offset.
    let before = registry.lookup_frame_info(1003).expect("pc resolves");
    assert_eq!(before.module_offset(), 0x20);
}

#[test]
fn lookup_frame_falls_back_to_function_start() {
    let mut registry = GlobalFrameInfo::new();
    let _handle = register_scenario(&mut registry, "m", 1000, false);
    // No row covers machine offset 12.
    let frame = registry.lookup_frame_info(1012).expect("pc resolves");
    assert_eq!(frame.module_offset(), 0x20);
    assert_eq!(frame.func_offset(), 0);
}

#[test]
fn module_boundaries_resolve() {
    let mut registry = GlobalFrameInfo::new();
    let outcome = register(
        &mut registry,
        meta("edge", 0, &[(0, "only")]),
        &vec![FunctionExtent { start: 1000, len: 16 }],
        vec![cell(false, am(0x40, &[(0, 4, 0x41), (12, 8, 0x4d)]), tps(&[]))],
    );
    let _handle = outcome.unwrap().unwrap();
    // The lowest address is covered by the first row.
    let low = registry.lookup_frame_info(1000).expect("low bound resolves");
    assert_eq!(low.module_offset(), 0x41);
    // The highest address (start + len) is covered by the last row.
    let high = registry.lookup_frame_info(1016).expect("high bound resolves");
    assert_eq!(high.module_offset(), 0x4d);
}

#[test]
fn outside_module_bounds_resolve_nothing() {
    let mut registry = GlobalFrameInfo::new();
    let outcome = register(
        &mut registry,
        meta("edge", 0, &[]),
        &vec![FunctionExtent { start: 1000, len: 16 }],
        vec![cell(false, am(0x40, &[(0, 4, 0x41)]), tps(&[]))],
    );
    let _handle = outcome.unwrap().unwrap();
    assert!(registry.lookup_frame_info(999).is_none());
    assert!(registry.lookup_frame_info(1017).is_none());
    assert!(registry.lookup_trap_info(999).is_none());
    assert!(registry.lookup_trap_info(1017).is_none());
}

#[test]
fn disjoint_modules_answer_separately() {
    let mut registry = GlobalFrameInfo::new();
    let _a = register_scenario(&mut registry, "a", 1000, false);
    let _b = register_scenario(&mut registry, "b", 5000, false);
    assert_eq!(registry.lookup_frame_info(1004).unwrap().module_name(), "a");
    assert_eq!(registry.lookup_frame_info(5004).unwrap().module_name(), "b");
    // The gap between the two modules belongs to neither.
    assert!(registry.lookup_frame_info(2500).is_none());
}

#[test]
fn lazy_decode_on_first_use() {
    let mut registry = GlobalFrameInfo::new();
    let _handle = register_scenario(&mut registry, "m", 1000, true);
    assert_eq!(registry.should_process_frame(1004), Some(true));
    assert_eq!(registry.maybe_process_frame(1004), Some(()));
    assert_eq!(registry.should_process_frame(1004), Some(false));
    let frame = registry.lookup_frame_info(1004).expect("decoded pc resolves");
    assert_eq!(frame.function_name(), Some("die"));
    assert_eq!(frame.module_offset(), 0x23);
    // Other cells are untouched until their own first use.
    assert_eq!(registry.should_process_frame(1104), Some(true));
}

#[test]
fn decode_twice_is_idempotent() {
    let mut registry = GlobalFrameInfo::new();
    let _handle = register_scenario(&mut registry, "m", 1000, true);
    assert_eq!(registry.maybe_process_frame(1004), Some(()));
    let first = registry.lookup_frame_info(1004).expect("resolves");
    assert_eq!(registry.maybe_process_frame(1004), Some(()));
    assert_eq!(registry.should_process_frame(1004), Some(false));
    let second = registry.lookup_frame_info(1004).expect("still resolves");
    assert_eq!(first.module_name(), second.module_name());
    assert_eq!(first.func_index(), second.func_index());
    assert_eq!(first.module_offset(), second.module_offset());
    assert_eq!(first.func_offset(), second.func_offset());
}

#[test]
fn decode_outside_any_module_reports_nothing() {
    let mut registry = GlobalFrameInfo::new();
    let _handle = register_scenario(&mut registry, "m", 1000, true);
    assert_eq!(registry.should_process_frame(99), None);
    assert_eq!(registry.maybe_process_frame(99), None);
}

#[test]
fn lookup_after_deregistration_fails() {
    let mut registry = GlobalFrameInfo::new();
    let handle = register_scenario(&mut registry, "m", 1000, false);
    assert!(registry.lookup_frame_info(1004).is_some());
    registry.unregister(handle);
    assert!(registry.lookup_frame_info(1004).is_none());
    assert!(registry.lookup_trap_info(1004).is_none());
    assert!(registry.should_process_frame(1004).is_none());
}

#[test]
fn descriptors_survive_deregistration() {
    let mut registry = GlobalFrameInfo::new();
    let handle = register_scenario(&mut registry, "m", 1000, false);
    let frame = registry.lookup_frame_info(1004).expect("resolves");
    registry.unregister(handle);
    // The descriptor is an owned copy and stays meaningful.
    assert_eq!(frame.module_name(), "m");
    assert_eq!(frame.module_offset(), 0x23);
}

#[test]
fn trap_lookup_is_exact_match() {
    let mut registry = GlobalFrameInfo::new();
    let _handle = register_scenario(&mut registry, "m", 1000, false);
    let trap = registry.lookup_trap_info(1004).expect("declared trap site");
    assert_eq!(trap.kind, TrapKind::UnreachableCodeReached);
    assert_eq!(trap.code_offset, 4);
    // One byte past the site is no declared trap, even though the
    // frame lookup still resolves there.
    assert!(registry.lookup_trap_info(1005).is_none());
    assert!(registry.lookup_frame_info(1005).is_some());
}

#[test]
fn backtrace_symbolicates_unreachable_trap() {
    let mut registry = GlobalFrameInfo::new();
    let _handle = register_scenario(&mut registry, "m", 1000, true);
    let pcs = vec![1004usize, 1104, 1204, 1304];
    let backtrace = assemble_backtrace(&mut registry, &pcs, 1004);
    assert_eq!(backtrace.frames.len(), 4);
    let expected: [(Option<&str>, usize); 4] = [
        (Some("die"), 0x23),
        (None, 0x27),
        (Some("foo"), 0x2c),
        (None, 0x31),
    ];
    for (frame, &(name, offset)) in backtrace.frames.iter().zip(expected.iter()) {
        assert_eq!(frame.module_name(), "m");
        assert_eq!(frame.function_name(), name);
        assert_eq!(frame.module_offset(), offset);
    }
    assert_eq!(backtrace.trap_reason, Some(TrapKind::UnreachableCodeReached));
}

#[test]
fn backtrace_stack_overflow_repeats_frame() {
    let mut registry = GlobalFrameInfo::new();
    let outcome = register(
        &mut registry,
        meta("rec_mod", 0, &[(0, "run")]),
        &vec![FunctionExtent { start: 4000, len: 32 }],
        vec![cell(
            true,
            am(0x10, &[(8, 4, 0x15)]),
            tps(&[(8, TrapKind::StackOverflow)]),
        )],
    );
    let _handle = outcome.unwrap().unwrap();
    let pcs: Vec<usize> = (0..40).map(|_| 4008usize).collect();
    let backtrace = assemble_backtrace(&mut registry, &pcs, 4008);
    assert!(backtrace.frames.len() >= 32);
    for frame in &backtrace.frames {
        assert_eq!(frame.module_name(), "rec_mod");
        assert_eq!(frame.func_index(), 0);
        assert_eq!(frame.function_name(), Some("run"));
    }
    assert_eq!(backtrace.trap_reason, Some(TrapKind::StackOverflow));
}

#[test]
fn backtrace_spans_multiple_modules() {
    let mut registry = GlobalFrameInfo::new();
    let _a = register_scenario(&mut registry, "a", 1000, true);
    let b_meta = meta("b", 0, &[(0, "middle")]);
    let b_extents = vec![
        FunctionExtent { start: 9000, len: 16 },
        FunctionExtent { start: 9100, len: 16 },
    ];
    let b_cells = vec![
        cell(true, am(0x50, &[(4, 4, 0x53)]), tps(&[])),
        cell(true, am(0x58, &[(4, 4, 0x5b)]), tps(&[])),
    ];
    let _b = register(&mut registry, b_meta, &b_extents, b_cells)
        .unwrap()
        .unwrap();
    let pcs = vec![1004usize, 1104, 1204, 1304, 9004, 9104];
    let backtrace = assemble_backtrace(&mut registry, &pcs, 1004);
    let names: Vec<&str> = backtrace.frames.iter().map(|f| f.module_name()).collect();
    assert_eq!(names, vec!["a", "a", "a", "a", "b", "b"]);
    assert_eq!(backtrace.frames[4].function_name(), Some("middle"));
    assert_eq!(backtrace.frames[5].function_name(), None);
    assert_eq!(backtrace.trap_reason, Some(TrapKind::UnreachableCodeReached));
}

#[test]
fn backtrace_drops_host_frames() {
    let mut registry = GlobalFrameInfo::new();
    let _handle = register_scenario(&mut registry, "m", 1000, false);
    // Counters in unregistered territory are host frames: dropped,
    // not errors.
    let pcs = vec![77usize, 1004, 60000];
    let backtrace = assemble_backtrace(&mut registry, &pcs, 77);
    assert_eq!(backtrace.frames.len(), 1);
    assert_eq!(backtrace.frames[0].function_name(), Some("die"));
    assert_eq!(backtrace.trap_reason, None);
}

#[test]
fn codec_round_trip() {
    let map = am(0x20, &[(0, 2, 0x21), (4, 4, 0x23), (12, 0, 0x2f)]);
    let traps = tps(&[
        (4, TrapKind::UnreachableCodeReached),
        (8, TrapKind::IntegerDivisionByZero),
    ]);
    let bytes = encode_frame_data(&map, &traps);
    let (dmap, dtraps) = decode_frame_data(&bytes).expect("valid blob decodes");
    assert_eq!(dmap.start_src, 0x20);
    assert_eq!(dmap.instructions, map.instructions);
    assert_eq!(dtraps, traps);
}

#[test]
fn codec_rejects_truncated_blob() {
    let map = am(0x20, &[(4, 4, 0x23)]);
    let traps = tps(&[(4, TrapKind::UnreachableCodeReached)]);
    let mut bytes = encode_frame_data(&map, &traps);
    bytes.pop();
    assert!(decode_frame_data(&bytes).is_none());
    assert!(decode_frame_data(&vec![0u8; 5]).is_none());
}

#[test]
fn codec_rejects_trailing_bytes() {
    let map = am(0x20, &[(4, 4, 0x23)]);
    let mut bytes = encode_frame_data(&map, &tps(&[]));
    bytes.push(0);
    assert!(decode_frame_data(&bytes).is_none());
}

#[test]
fn codec_rejects_unknown_trap_tag() {
    let map = am(0x20, &[]);
    let traps = tps(&[(4, TrapKind::BadConversionToInteger)]);
    let mut bytes = encode_frame_data(&map, &traps);
    // The tag of the only trap point is the last word of the blob.
    let n = bytes.len();
    bytes[n - 4] = 0xff;
    assert!(decode_frame_data(&bytes).is_none());
}

#[test]
fn codec_rejects_unsorted_rows() {
    // Two rows with descending machine offsets cannot be a valid
    // table: build the valid blob for the ascending order, then write
    // the first row's offset above the second's.
    let map = am(0x20, &[(0, 2, 0x21), (8, 2, 0x29)]);
    let mut bytes = encode_frame_data(&map, &tps(&[]));
    // The first row's code_offset is the word at bytes 8..12.
    bytes[8] = 50;
    assert!(decode_frame_data(&bytes).is_none());
}

#[test]
fn codec_rejects_overlapping_rows() {
    let map = am(0x20, &[(0, 2, 0x21), (8, 2, 0x29)]);
    let mut bytes = encode_frame_data(&map, &tps(&[]));
    // Stretch the first row's code_len (the word at bytes 12..16)
    // over the second row's offset.
    bytes[12] = 9;
    assert!(decode_frame_data(&bytes).is_none());
}

#[test]
fn function_index_promotion_skips_imports() {
    let mut registry = GlobalFrameInfo::new();
    // Three imported functions precede the local ones: local index 0
    // is function index 3.
    let outcome = register(
        &mut registry,
        meta("imp", 3, &[(3, "first_local")]),
        &vec![FunctionExtent { start: 2000, len: 8 }],
        vec![cell(false, am(0x60, &[(0, 8, 0x61)]), tps(&[]))],
    );
    let _handle = outcome.unwrap().unwrap();
    let frame = registry.lookup_frame_info(2004).expect("resolves");
    assert_eq!(frame.func_index(), 3);
    assert_eq!(frame.function_name(), Some("first_local"));
}

#[test]
fn unnamed_functions_resolve_without_name() {
    let mut registry = GlobalFrameInfo::new();
    let _handle = register_scenario(&mut registry, "m", 1000, false);
    let frame = registry.lookup_frame_info(1104).expect("resolves");
    assert_eq!(frame.func_index(), 1);
    assert_eq!(frame.function_name(), None);
}

#[test]
fn registered_ranges_are_disjoint() {
    let mut registry = GlobalFrameInfo::new();
    let _a = register_scenario(&mut registry, "a", 1000, false);
    let _b = register_scenario(&mut registry, "b", 5000, false);
    assert_eq!(registry.ranges.len(), 2);
    assert!(registry.ranges[0].end < registry.ranges[1].start);
}

#[test]
fn frame_at_function_start_round_trip() {
    let mut registry = GlobalFrameInfo::new();
    let _handle = register_scenario(&mut registry, "m", 1000, false);
    // No row covers machine offset zero, so the function's own start
    // offset is reported and the function-relative offset is zero.
    let frame = registry.lookup_frame_info(1000).expect("function start resolves");
    assert_eq!(frame.func_offset(), 0);
    assert_eq!(frame.module_offset(), 0x20);
}

#[test]
fn adjacent_module_is_accepted() {
    let mut registry = GlobalFrameInfo::new();
    let a = register(
        &mut registry,
        meta("a", 0, &[]),
        &vec![FunctionExtent { start: 100, len: 100 }],
        vec![cell(false, am(0, &[]), tps(&[]))],
    );
    assert!(matches!(a, Ok(Some(_))));
    // The next module may begin one past the previous one's highest
    // address.
    let c = register(
        &mut registry,
        meta("c", 0, &[]),
        &vec![FunctionExtent { start: 201, len: 9 }],
        vec![cell(false, am(0, &[]), tps(&[]))],
    );
    assert!(matches!(c, Ok(Some(_))));
    assert_eq!(registry.lookup_frame_info(200).unwrap().module_name(), "a");
    assert_eq!(registry.lookup_frame_info(201).unwrap().module_name(), "c");
}

#[test]
fn touching_module_is_rejected() {
    let mut registry = GlobalFrameInfo::new();
    let a = register(
        &mut registry,
        meta("a", 0, &[]),
        &vec![FunctionExtent { start: 100, len: 100 }],
        vec![cell(false, am(0, &[]), tps(&[]))],
    );
    assert!(matches!(a, Ok(Some(_))));
    // A module that begins exactly at the previous one's highest
    // address shares that address: both bounds are inclusive.
    let b = register(
        &mut registry,
        meta("b", 0, &[]),
        &vec![FunctionExtent { start: 200, len: 10 }],
        vec![cell(false, am(0, &[]), tps(&[]))],
    );
    assert!(matches!(b, Err(RegisterError::ModuleOverlap)));
}
