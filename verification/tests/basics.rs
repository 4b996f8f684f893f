use debugger_sh::bytes::{copy_bytes, put_bytes, read_le, read_signed_le, read_window, write_le};
use debugger_sh::debug::dwarf::die::DieReference;
use debugger_sh::debug::formatters::scalar::{format_scalar, Rendered};
use debugger_sh::debug::formatters::ChildCounts;
use debugger_sh::debug::types::NamespaceHierarchy;
use debugger_sh::error::{Child, DebugError, Needed};
use debugger_sh::path::{extension, is_absolute, join_path, parts_of_path, same_path};
use debugger_sh::text::{
    contains, hex_text, join, lower, padded_hex_text, replace, signed_text, split, starts_with,
    unsigned_text,
};
use debugger_sh::types::{
    BreakpointMode, CodeOffset, DebugFrameEntry, DebugFunction, MemoryDescriptor, MemoryOffset,
    StdoutMode, WasmLocation,
};

fn strings(v: &[&str]) -> Vec<String> {
    v.iter().map(|s| s.to_string()).collect()
}

#[test]
fn numbers_are_written() {
    assert_eq!(unsigned_text(0), "0");
    assert_eq!(unsigned_text(u64::MAX), u64::MAX.to_string());
    assert_eq!(signed_text(-42), "-42");
    assert_eq!(signed_text(i64::MIN), i64::MIN.to_string());
    assert_eq!(hex_text(0), "0");
    assert_eq!(hex_text(0xdeadbeef), "deadbeef");
    assert_eq!(padded_hex_text(0x1f, 8), "0000001f");
    assert_eq!(MemoryOffset(0x1f).to_text(), "0x1f");
    assert_eq!(CodeOffset(0).to_text(), "0x0");
}

#[test]
fn texts_are_searched() {
    assert!(starts_with("std::__2", "std"));
    assert!(!starts_with("st", "std"));
    assert!(contains("vector<int>", "or<"));
    assert!(!contains("vector", "map"));
    assert_eq!(replace("std::__2::vector<std::__2::string>", "std::__2::", "std::"), "std::vector<std::string>");
    assert_eq!(replace("aaa", "aa", "b"), "ba");
    assert_eq!(split("a::b::", "::"), strings(&["a", "b", ""]));
    assert_eq!(join(&strings(&["a", "b", "c"]), "/"), "a/b/c");
    assert_eq!(lower("C++ \u{c9}"), "c++ \u{c9}");
}

#[test]
fn paths_are_joined_and_compared() {
    assert!(is_absolute("/main.cpp"));
    assert!(!is_absolute("main.cpp"));
    assert_eq!(join_path("/src", "main.cpp"), "/src/main.cpp");
    assert_eq!(join_path("/src/", "main.cpp"), "/src/main.cpp");
    assert_eq!(join_path("", "main.cpp"), "main.cpp");
    assert_eq!(join_path("/src", "/abs.cpp"), "/abs.cpp");
    assert_eq!(parts_of_path("/a//b/./c/"), strings(&["a", "b", "c"]));
    assert!(same_path("/a//b/./c", "/a/b/c/"));
    assert!(!same_path("/a/b", "/a/c"));
    assert_eq!(extension("/a/main.CPP"), Some("CPP".to_string()));
    assert_eq!(extension("/a/.hidden"), None);
    assert_eq!(extension("/a/none"), None);
    assert_eq!(extension("/a/archive.tar.gz"), Some("gz".to_string()));
}

#[test]
fn bytes_round_trip() {
    assert_eq!(write_le(0x0102_0304, 4), vec![4, 3, 2, 1]);
    assert_eq!(read_le(&vec![4, 3, 2, 1]), 0x0102_0304);
    assert_eq!(read_signed_le(&vec![0xff, 0xff]), -1);
    assert_eq!(read_signed_le(&vec![0xff, 0x7f]), 0x7fff);
    for n in [0u64, 1, 0xff, 0x1_0000, 0xffff_ffff, u64::MAX] {
        assert_eq!(read_le(&write_le(n, 8)), n);
    }
}

#[test]
fn windows_stop_at_the_end() {
    let data = vec![1u8, 2, 3, 4];
    assert_eq!(read_window(&data, 1, 2), vec![2, 3]);
    assert_eq!(copy_bytes(&data), data);
    let mut target = vec![0u8; 4];
    put_bytes(&mut target, 1, &vec![7, 8]);
    assert_eq!(target, vec![0, 7, 8, 0]);
    put_bytes(&mut target, 3, &vec![9, 9]);
    assert_eq!(target, vec![0, 7, 8, 9]);
    put_bytes(&mut target, 9, &vec![1]);
    assert_eq!(target, vec![0, 7, 8, 9]);
}

#[test]
fn written_bytes_are_read_back() {
    let mut data = vec![0u8; 16];
    put_bytes(&mut data, 4, &write_le(0xcafe, 4));
    put_bytes(&mut data, 8, &write_le(77, 4));
    assert_eq!(read_le(&read_window(&data, 4, 4)), 0xcafe);
    assert_eq!(read_le(&read_window(&data, 8, 4)), 77);
    assert_eq!(read_le(&read_window(&data, 0, 4)), 0);
}

#[test]
fn the_null_address_is_null() {
    assert!(MemoryOffset(0).is_null());
    assert!(!MemoryOffset(1).is_null());
    assert_eq!(MemoryOffset::default(), MemoryOffset(0));
    assert_eq!(CodeOffset::default(), CodeOffset(0));
}

#[test]
fn modes_have_numbers() {
    for (mode, n) in [
        (BreakpointMode::Normal, 0),
        (BreakpointMode::StepInto, 1),
        (BreakpointMode::StepOver, 2),
        (BreakpointMode::StepOut, 3),
    ] {
        assert_eq!(i32::from(mode), n);
        assert_eq!(BreakpointMode::try_from(n), Ok(mode));
    }
    assert_eq!(BreakpointMode::try_from(4), Err(()));
    assert_eq!(BreakpointMode::try_from(-1), Err(()));
    assert_eq!(StdoutMode::Out.code(), 1);
    assert_eq!(StdoutMode::Error.code(), 2);
}

#[test]
fn memories_are_read() {
    let mut memory = MemoryDescriptor::new(1, 16);
    assert_eq!(memory.byte_size(), 65536);
    assert_eq!(memory.ty.minimum, 1);
    assert_eq!(memory.ty.maximum, Some(16));
    memory.bytes[10] = 0x34;
    memory.bytes[11] = 0x12;
    assert_eq!(memory.read(MemoryOffset(10), 2), vec![0x34, 0x12]);
    assert_eq!(memory.read_u32(MemoryOffset(10)), 0x1234);
    assert_eq!(memory.read_u64(MemoryOffset(9)), 0x123400);
}

fn function(low: u64, high: u64) -> DebugFunction {
    DebugFunction {
        low_pc: CodeOffset(low),
        high_pc: CodeOffset(high),
        die_ref: DieReference { unit_index: 0, unit_ofs: 0 },
        size: 4,
        layout: vec![],
    }
}

#[test]
fn frames_are_laid_out_without_overlap() {
    let mut f = function(10, 20);
    assert_eq!(f.place(WasmLocation::Local(3)), 4);
    assert_eq!(f.place(WasmLocation::Operand(0)), 12);
    assert_eq!(f.place(WasmLocation::Global(0)), 20);
    assert_eq!(f.place(WasmLocation::Local(3)), 4);
    assert_eq!(f.size, 28);
    assert_eq!(
        f.find(WasmLocation::Operand(0)),
        Some(DebugFrameEntry { offset: 12, location: WasmLocation::Operand(0) })
    );
    assert_eq!(f.find(WasmLocation::Local(0)), None);
    f.reset();
    assert_eq!(f.size, 4);
    assert!(f.layout.is_empty());
}

#[test]
fn functions_cover_their_addresses() {
    let f = function(10, 20);
    assert!(!f.contains(CodeOffset(9)));
    assert!(f.contains(CodeOffset(10)));
    assert!(f.contains(CodeOffset(19)));
    assert!(!f.contains(CodeOffset(20)));
}

#[test]
fn children_are_counted() {
    let c = ChildCounts::mixed(2, 3);
    assert_eq!((c.indexed, c.named, c.total()), (2, 3, 5));
    assert_eq!(ChildCounts::indexed(4), ChildCounts { indexed: 4, named: 0 });
    assert_eq!(ChildCounts::named(4), ChildCounts { indexed: 0, named: 4 });
    assert!(ChildCounts::none().is_empty());
    assert!(ChildCounts::default().is_empty());
    assert!(!ChildCounts::named(1).is_empty());
}

#[test]
fn namespaces_qualify_names() {
    let mut ns = NamespaceHierarchy::new();
    assert_eq!(ns.qualify("main"), "main");
    assert!(!ns.matches("std"));
    ns.push("std".to_string());
    ns.push("__2".to_string());
    assert_eq!(ns.qualify("vector"), "std::vector");
    assert!(ns.matches("std"));
    assert!(ns.matches("std::__2"));
    assert!(!ns.matches("std::__2::x"));
    assert!(!ns.matches("__2"));
    assert!(!ns.matches(""));
    ns.pop();
    assert_eq!(ns.qualify("vector"), "std::vector");
    ns.pop();
    ns.pop();
    assert_eq!(ns.qualify("vector"), "vector");
}

fn shown(r: Rendered) -> String {
    match r {
        Rendered::Text(t) => t,
        Rendered::Float32(b) => f32::from_bits(b).to_string(),
        Rendered::Float64(b) => f64::from_bits(b).to_string(),
    }
}

#[test]
fn scalars_are_shown() {
    assert_eq!(shown(format_scalar(&vec![0xff], 0x05)), "-1");
    assert_eq!(shown(format_scalar(&vec![0xff, 0xff], 0x07)), "65535");
    assert_eq!(shown(format_scalar(&vec![0x9c, 0xff, 0xff, 0xff], 0x05)), "-100");
    assert_eq!(shown(format_scalar(&vec![1, 0, 0, 0, 0, 0, 0, 0], 0x07)), "1");
    assert_eq!(shown(format_scalar(&vec![0x41], 0x08)), "65");
    assert_eq!(shown(format_scalar(&vec![0x41], 0x06)), "65");
    assert_eq!(shown(format_scalar(&vec![0], 0x02)), "false");
    assert_eq!(shown(format_scalar(&vec![0, 1], 0x02)), "true");
    assert_eq!(shown(format_scalar(&1.5f32.to_le_bytes().to_vec(), 0x04)), "1.5");
    assert_eq!(shown(format_scalar(&(-2.25f64).to_le_bytes().to_vec(), 0x04)), "-2.25");
    assert_eq!(shown(format_scalar(&vec![b'a'], 0x10)), "'a'");
    assert_eq!(shown(format_scalar(&vec![b'\n'], 0x12)), "'\\n'");
    assert_eq!(shown(format_scalar(&vec![1, 2, 3], 0x05)), "<unsupported size>");
    assert_eq!(shown(format_scalar(&vec![1, 2, 3], 0x07)), "<unsupported size>");
    assert_eq!(shown(format_scalar(&vec![1, 2, 3], 0x04)), "<unsupported float size>");
    assert_eq!(shown(format_scalar(&vec![1, 2], 0x10)), "<unsupported char size>");
    assert_eq!(shown(format_scalar(&vec![1], 0x01)), "<unsupported encoding>");
}

#[test]
fn failures_have_messages() {
    assert_eq!(DebugError::UnitOutOfBounds.message(), "Unit index out of bounds");
    assert_eq!(
        DebugError::FrameNotFound(7).message(),
        "Could not find frame offset for frame 7",
    );
    assert_eq!(
        DebugError::FunctionNotFound(CodeOffset(0x1f)).message(),
        "Could not find function for pc 0x1f",
    );
    assert_eq!(DebugError::NoPieces.message(), "Evaluation resulted in no pieces");
    assert_eq!(DebugError::NotScalar.message(), "Cannot format non-scalar value");
    assert_eq!(DebugError::ChildMissing(Child::End).message(), "No child named '__end_'");
    assert_eq!(
        DebugError::Unavailable(Needed::ElementSize).message(),
        "std::vector element size is unavailable",
    );
    assert_eq!(DebugError::NotImplemented.message(), "not implemented");
}
