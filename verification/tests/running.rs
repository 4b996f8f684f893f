use debugger_sh::debug::dwarf::die::DieReference;
use debugger_sh::debug::dwarf::sections::Sections;
use debugger_sh::debug::dwarf::unit::Location;
use debugger_sh::debug::dwarf::Dwarf;
use debugger_sh::types::{
    CodeOffset, DebugFunction, DebugInfo, FsNode, MemoryDescriptor, PauseReason, StdoutMode,
};
use debugger_sh::worker::debuggee::Debuggee;
use debugger_sh::worker::execution::{ran_well, Binary, Ending, RunAction, Step};
use debugger_sh::worker::host_device::{
    check_mailboxes, publish, write_step, DeviceRead, DeviceWrite, HostDeviceFile, StreamError,
    CAPACITY,
};
use debugger_sh::worker::io::{stdin_step, StdinStep, Stdout};
use debugger_sh::worker::sources::{collect_dir_sources, create_user_dir, sort, start, FsAction};
use debugger_sh::worker::sysroot::extract_tar_gz;
use debugger_sh::worker::tarball::sizes_can_be_counted;
use std::io::Write;

fn strings(v: &[&str]) -> Vec<String> {
    v.iter().map(|s| s.to_string()).collect()
}

fn location(address: u64, line: usize) -> Location {
    Location { address: CodeOffset(address), file_index: 0, line, column: 1 }
}

fn info(locations: Vec<Location>) -> DebugInfo {
    let flags = locations.len();
    DebugInfo {
        functions: vec![DebugFunction {
            low_pc: CodeOffset(0),
            high_pc: CodeOffset(100),
            die_ref: DieReference { unit_index: 0, unit_ofs: 0 },
            size: 4,
            layout: vec![],
        }],
        locations,
        breakpoints: vec![0; 8 + flags],
        memory: MemoryDescriptor::new(1, 1),
        stack: MemoryDescriptor::new(1, 1),
        separate_stack: true,
        dwarf: Dwarf::from_sections(&Sections::new()).unwrap(),
    }
}

fn set_mode(d: &mut Debuggee, mode: u8) {
    d.info.breakpoints[4] = mode;
}

#[test]
fn breakpoints_pause_in_normal_mode() {
    let mut d = Debuggee::new(info(vec![location(0x11, 1), location(0x22, 2)]));
    assert_eq!(d.bkpt(1, 500), None);
    d.info.breakpoints[8 + 1] = 1;
    assert!(d.bkpt_enabled(1));
    assert!(!d.bkpt_enabled(0));
    assert!(!d.bkpt_enabled(99));
    assert_eq!(d.bkpt(0, 500), None);
    assert_eq!(d.bkpt(1, 500), Some(PauseReason::Breakpoint));
    assert_eq!(d.info.get_bp_state(), (500, 0));
    assert_eq!(&d.info.stack.bytes[500..504], &[0x22, 0, 0, 0]);
    assert_eq!(d.last_sp, 500);
    assert_eq!(d.wait_for_resume(), Some(500));
}

#[test]
fn a_fresh_program_waits_at_the_end_of_its_stack() {
    let d = Debuggee::new(info(vec![]));
    assert_eq!(d.info.get_bp_state(), (65536, 0));
    assert_eq!(d.wait_for_resume(), Some(65536));
    let mut running = d;
    running.info.breakpoints[0..4].copy_from_slice(&[0; 4]);
    assert_eq!(running.wait_for_resume(), None);
}

#[test]
fn steps_pause_by_the_frame() {
    let mut d = Debuggee::new(info(vec![location(0x11, 1)]));
    set_mode(&mut d, 1);
    assert_eq!(d.bkpt(0, 400), Some(PauseReason::Step));
    // stepping over: the same or an older frame
    set_mode(&mut d, 2);
    assert_eq!(d.bkpt(0, 390), None);
    assert_eq!(d.info.get_bp_state().1, 2);
    assert_eq!(d.bkpt(0, 400), Some(PauseReason::Step));
    assert_eq!(d.info.get_bp_state(), (400, 0));
    // stepping out: an older frame
    set_mode(&mut d, 3);
    assert_eq!(d.bkpt(0, 400), None);
    assert_eq!(d.bkpt(0, 410), Some(PauseReason::Step));
    // an unknown mode pauses at breakpoints
    set_mode(&mut d, 9);
    assert_eq!(d.bkpt(0, 400), None);
    d.info.breakpoints[8] = 1;
    assert_eq!(d.bkpt(0, 400), Some(PauseReason::Breakpoint));
}

#[test]
fn unknown_locations_are_passed_over() {
    let mut d = Debuggee::new(info(vec![location(0x11, 1)]));
    set_mode(&mut d, 1);
    assert_eq!(d.bkpt(1, 400), None);
    assert_eq!(d.info.get_bp_state(), (65536, 1));
    assert_eq!(d.last_sp, 0);
}

#[test]
fn stdin_is_read_round_the_ring() {
    assert_eq!(stdin_step(3, 3, 8, 10), StdinStep::Wait);
    assert_eq!(stdin_step(1, 5, 8, 10), StdinStep::Take { from: 1, count: 4, next: 5 });
    assert_eq!(stdin_step(1, 5, 8, 2), StdinStep::Take { from: 1, count: 2, next: 3 });
    assert_eq!(stdin_step(6, 2, 8, 10), StdinStep::Take { from: 6, count: 2, next: 0 });
    assert_eq!(stdin_step(0, 2, 8, 10), StdinStep::Take { from: 0, count: 2, next: 2 });
}

#[test]
fn empty_reads_are_done_at_once() {
    assert_eq!(stdin_step(3, 3, 8, 0), StdinStep::Take { from: 3, count: 0, next: 3 });
    assert_eq!(stdin_step(1, 5, 8, 0), StdinStep::Take { from: 1, count: 0, next: 1 });
}

#[test]
fn output_streams_have_numbers() {
    assert_eq!(Stdout::new(StdoutMode::Out).special_fd(), 1);
    assert_eq!(Stdout::new(StdoutMode::Error).special_fd(), 2);
}

#[test]
fn mailboxes_are_checked() {
    assert_eq!(check_mailboxes(65540, 65540, false), Ok(()));
    assert_eq!(check_mailboxes(65540, 65540, true), Err(StreamError::InvalidInput));
    assert_eq!(check_mailboxes(65536, 65540, false), Err(StreamError::InvalidInput));
    assert_eq!(check_mailboxes(65540, 0, false), Err(StreamError::InvalidInput));
}

#[test]
fn slots_are_read_in_pieces() {
    let mut f = HostDeviceFile::new();
    assert_eq!(f.read_step(10, 0), DeviceRead::Nothing);
    assert_eq!(f.read_step(0, 4), DeviceRead::Wait);
    assert_eq!(f.read_step(10, 4), DeviceRead::Take { from: 0, count: 4, emptied: false });
    assert_eq!(f.read_step(10, 4), DeviceRead::Take { from: 4, count: 4, emptied: false });
    assert_eq!(f.read_step(10, 4), DeviceRead::Take { from: 8, count: 2, emptied: true });
    assert_eq!(f.read_offset, 0);
    assert_eq!(f.read_step(-1, 4), DeviceRead::Nothing);
}

#[test]
fn slots_are_written_when_empty() {
    assert_eq!(write_step(0, 0), DeviceWrite::Nothing);
    assert_eq!(write_step(-1, 4), DeviceWrite::Broken);
    assert_eq!(write_step(5, 4), DeviceWrite::Wait);
    assert_eq!(write_step(0, 4), DeviceWrite::Put(4));
    assert_eq!(write_step(0, 70000), DeviceWrite::Put(CAPACITY));
}

#[test]
fn a_closed_slot_stays_closed() {
    assert_eq!(publish(0, 0), Ok(()));
    assert_eq!(publish(-1, 0), Err(StreamError::BrokenPipe));
    assert_eq!(publish(-1, 10), Err(StreamError::BrokenPipe));
}

fn file(name: &str, text: &str) -> (String, FsNode) {
    (name.to_string(), FsNode::File(text.to_string()))
}

fn some_files() -> Vec<(String, FsNode)> {
    vec![
        file("main.cpp", "int main() {}"),
        file("notes.txt", "x"),
        ("lib".to_string(), FsNode::Dir(vec![file("b.CC", ""), file("a.c", ""), file("h.hpp", "")])),
    ]
}

#[test]
fn sources_are_compiled_in_order() {
    let steps = start(&some_files(), false).unwrap();
    assert_eq!(steps.len(), 3);
    assert_eq!(steps[0].name, "clang");
    assert!(steps[0].user_files);
    let args = &steps[0].args;
    assert_eq!(args.len(), 22 + 3);
    assert_eq!(args[0], "-cc1");
    assert_eq!(args[21], "/main.o");
    assert_eq!(&args[22..], &strings(&["/lib/a.c", "/lib/b.CC", "/main.cpp"])[..]);
    assert_eq!(steps[1].name, "wasm-ld");
    assert_eq!(steps[1].args.len(), 12);
    assert_eq!(steps[1].args[11], "/main.wasm");
    assert_eq!(steps[2].name, "main");
    assert_eq!(steps[2].binary, Some("/main.wasm".to_string()));
    assert!(!steps[2].debug);
}

#[test]
fn debug_builds_keep_debug_information() {
    let steps = start(&some_files(), true).unwrap();
    assert_eq!(
        &steps[0].args[22..25],
        &strings(&["-O0", "-debug-info-kind=standalone", "-dwarf-version=5"])[..]
    );
    assert_eq!(steps[0].args.len(), 28);
    assert!(!steps[0].debug);
    assert!(steps[2].debug);
}

#[test]
fn nothing_is_built_without_sources() {
    assert!(start(&vec![file("notes.txt", "x")], false).is_none());
    assert!(start(&vec![], true).is_none());
}

#[test]
fn texts_are_sorted() {
    assert_eq!(
        sort(strings(&["b", "a", "ab", "", "B", "\u{e9}"])),
        strings(&["", "B", "a", "ab", "b", "\u{e9}"])
    );
}

fn told(actions: &[FsAction]) -> Vec<String> {
    actions
        .iter()
        .map(|a| match a {
            FsAction::CreateDir(p) => format!("dir {p}"),
            FsAction::WriteText(p, t) => format!("text {p} {t}"),
            FsAction::WriteBytes(p, b) => format!("bytes {p} {b:?}"),
        })
        .collect()
}

#[test]
fn user_files_are_created() {
    let mut actions = vec![];
    create_user_dir("/", &some_files(), &mut actions);
    assert_eq!(
        told(&actions),
        strings(&[
            "dir /",
            "text /main.cpp int main() {}",
            "text /notes.txt x",
            "dir /lib",
            "text /lib/b.CC ",
            "text /lib/a.c ",
            "text /lib/h.hpp ",
        ])
    );
}

fn run_told(step: &Step) -> Vec<String> {
    step.run().unwrap().iter().map(|a| format!("{a:?}")).collect()
}

#[test]
fn steps_without_a_binary_fail() {
    assert_eq!(Step::new("x").run().err(), Some("No binary specified"));
}

#[test]
fn local_binaries_are_instrumented_when_debugged() {
    let step = Step::new("main").binary("/main.wasm").debug(true);
    assert_eq!(
        run_told(&step),
        strings(&[
            "ReadBinary(\"/main.wasm\")",
            "Publish(\"pre.wasm\", Read)",
            "Instrument",
            "Publish(\"post.wasm\", Instrumented)",
            "CreateModule(Instrumented)",
            "Preopen",
            "BuildEnvironment",
            "CreateImports",
            "Attach",
            "InstantiateWithImports",
            "Initialize",
            "FindStart",
            "Call",
        ])
    );
    let plain = Step::new("main").binary("/main.wasm");
    assert_eq!(
        run_told(&plain),
        strings(&[
            "ReadBinary(\"/main.wasm\")",
            "CreateModule(Read)",
            "Preopen",
            "Instantiate",
            "FindStart",
            "Call",
        ])
    );
}

#[test]
fn fetched_binaries_get_their_files() {
    let step = Step::new("clang").binary("https://x/llvm").sysroot("https://x/root").fs().debug(true);
    assert_eq!(
        run_told(&step),
        strings(&[
            "FetchBinary(\"https://x/llvm\")",
            "CreateModule(Fetched)",
            "FetchSysroot(\"https://x/root\")",
            "UnpackSysroot",
            "AddUserFiles",
            "Preopen",
            "Instantiate",
            "FindStart",
            "Call",
        ])
    );
}

#[test]
fn failures_say_what_failed() {
    assert_eq!(
        RunAction::CreateModule(Binary::Read).ensure("bad magic"),
        "Created WASM module: bad magic",
    );
    assert_eq!(RunAction::FindStart.ensure("Missing"), "Found _start export: Missing");
    assert_eq!(RunAction::Call.ensure("trap"), "trap");
}

#[test]
fn exit_zero_is_no_error() {
    assert!(ran_well(Ending::Returned));
    assert!(ran_well(Ending::Exit(0)));
    assert!(!ran_well(Ending::Exit(1)));
    assert!(!ran_well(Ending::Failed));
}

fn tarball(entries: &[(&str, Option<&[u8]>)]) -> Vec<u8> {
    let mut builder = tar::Builder::new(Vec::new());
    for (path, contents) in entries {
        let mut header = tar::Header::new_gnu();
        match contents {
            None => {
                header.set_entry_type(tar::EntryType::Directory);
                header.set_size(0);
                header.set_cksum();
                builder.append_data(&mut header, path, std::io::empty()).unwrap();
            }
            Some(bytes) => {
                header.set_entry_type(tar::EntryType::Regular);
                header.set_size(bytes.len() as u64);
                header.set_cksum();
                builder.append_data(&mut header, path, *bytes).unwrap();
            }
        }
    }
    zipped(&builder.into_inner().unwrap())
}

fn zipped(data: &[u8]) -> Vec<u8> {
    let mut encoder = flate2::write::GzEncoder::new(Vec::new(), flate2::Compression::default());
    encoder.write_all(data).unwrap();
    encoder.finish().unwrap()
}

#[test]
fn tarballs_are_unpacked() {
    let data = tarball(&[
        ("include/stdio.h", Some(b"hi")),
        ("include/", None),
        ("lib/a/b.o", Some(&[1, 2, 3])),
        ("top", Some(b"")),
    ]);
    let actions = extract_tar_gz(data).unwrap();
    assert_eq!(
        told(&actions),
        strings(&[
            "dir /include",
            "bytes /include/stdio.h [104, 105]",
            "dir /include/",
            "dir /lib/a",
            "bytes /lib/a/b.o [1, 2, 3]",
            "dir /",
            "bytes /top []",
        ])
    );
}

#[test]
fn broken_tarballs_are_refused() {
    assert!(extract_tar_gz(vec![1, 2, 3]).is_err());
    let mut data = tarball(&[("a", Some(&[7; 4000]))]);
    data.truncate(data.len() / 2);
    assert!(extract_tar_gz(data).is_err());
}

/// The head of a member, in a block of its own.
fn member(path: &str, kind: tar::EntryType, size: u64) -> Vec<u8> {
    let mut header = tar::Header::new_gnu();
    header.set_path(path).unwrap();
    header.set_entry_type(kind);
    header.set_size(size);
    header.set_cksum();
    header.as_bytes().to_vec()
}

/// The head of a sparse file whose map goes on behind it.
fn sparse_member(path: &str, size: u64, real_size: u64) -> Vec<u8> {
    let mut header = tar::Header::new_gnu();
    header.set_path(path).unwrap();
    header.set_entry_type(tar::EntryType::GNUSparse);
    header.set_size(size);
    header.as_gnu_mut().unwrap().set_real_size(real_size);
    header.as_gnu_mut().unwrap().set_is_extended(true);
    header.set_cksum();
    header.as_bytes().to_vec()
}

/// A block that goes on with the map of a sparse file, with these parts in it.
fn map_block(parts: &[(u64, u64)], more: bool) -> Vec<u8> {
    let mut block = vec![0; 512];
    for (i, (offset, len)) in parts.iter().enumerate() {
        block[24 * i..24 * i + 12].copy_from_slice(format!("{offset:011o}\0").as_bytes());
        block[24 * i + 12..24 * i + 24].copy_from_slice(format!("{len:011o}\0").as_bytes());
    }
    block[504] = more as u8;
    block
}

/// Bytes in whole blocks.
fn padded(bytes: &[u8]) -> Vec<u8> {
    let mut blocks = bytes.to_vec();
    blocks.resize(bytes.len().div_ceil(512) * 512, 0);
    blocks
}

/// A size whose end can be told, but not that of two blocks behind it.
const HUGE: u64 = u64::MAX - 1535;

#[test]
fn sparse_files_are_unpacked() {
    let archive = [
        sparse_member("a", 512, 2048),
        map_block(&[(512, 512)], true),
        map_block(&[(2048, 0)], false),
        vec![7; 512],
        member("b", tar::EntryType::Regular, 2),
        padded(b"hi"),
        vec![0; 1024],
    ]
    .concat();
    assert!(sizes_can_be_counted(&archive));
    let actions = extract_tar_gz(zipped(&archive)).unwrap();
    assert_eq!(actions.len(), 4);
    match &actions[1] {
        FsAction::WriteBytes(path, bytes) => {
            assert_eq!(path, "/a");
            assert_eq!(bytes, &[vec![0; 512], vec![7; 512], vec![0; 1024]].concat());
        }
        other => panic!("{other:?}"),
    }
    assert_eq!(told(&actions)[3], "bytes /b [104, 105]");
}

#[test]
fn sizes_that_cannot_be_counted_are_refused() {
    let map = [map_block(&[], true), map_block(&[], true), map_block(&[], false)].concat();
    let huge = [sparse_member("a", HUGE, 0), map.clone(), vec![0; 1024]].concat();
    assert!(!sizes_can_be_counted(&huge));
    assert!(extract_tar_gz(zipped(&huge)).is_err());
    // behind another sparse file, whose map takes two blocks
    let first = [
        sparse_member("a", 512, 512),
        map_block(&[], true),
        map_block(&[(0, 512)], false),
        vec![7; 512],
    ]
    .concat();
    let behind = [first, huge].concat();
    assert!(!sizes_can_be_counted(&behind));
    assert!(extract_tar_gz(zipped(&behind)).is_err());
    // a size that is told by the member before
    let record = b"29 size=18446744073709550080\n";
    let described = [
        member("x", tar::EntryType::XHeader, record.len() as u64),
        padded(record),
        member("long", tar::EntryType::GNULongName, 4),
        padded(b"name"),
        sparse_member("a", 0, 0),
        map,
        vec![0; 1024],
    ]
    .concat();
    assert!(!sizes_can_be_counted(&described));
    assert!(extract_tar_gz(zipped(&described)).is_err());
}

#[test]
fn sizes_are_described_for_one_member() {
    let record = b"12 size=600\n";
    let archive = [
        member("x", tar::EntryType::XHeader, record.len() as u64),
        padded(record),
        member("a", tar::EntryType::Regular, 0),
        padded(&[7; 600]),
        member("b", tar::EntryType::Regular, 2),
        padded(b"hi"),
        vec![0; 1024],
    ]
    .concat();
    assert!(sizes_can_be_counted(&archive));
    let actions = extract_tar_gz(zipped(&archive)).unwrap();
    assert_eq!(actions.len(), 4);
    match &actions[1] {
        FsAction::WriteBytes(path, bytes) => assert_eq!((path.as_str(), bytes), ("/a", &vec![7; 600])),
        other => panic!("{other:?}"),
    }
    assert_eq!(told(&actions)[3], "bytes /b [104, 105]");
    // what cannot be read says nothing
    let other = |record: &[u8], size: u64| {
        [
            member("x", tar::EntryType::XHeader, record.len() as u64),
            padded(record),
            member("a", tar::EntryType::Regular, size),
        ]
        .concat()
    };
    assert!(!sizes_can_be_counted(&other(b"30 size=+18446744073709550080\n", 0)));
    assert!(sizes_can_be_counted(&other(b"30 size=-18446744073709550080\n", 0)));
    assert!(sizes_can_be_counted(&other(b"31 size=118446744073709550080\n", 0)));
    assert!(sizes_can_be_counted(&other(b"30 size=118446744073709550080\n", 0)));
    assert!(sizes_can_be_counted(&other(b"8 uid=5\n28 size=9223372036854775807\n", HUGE)));
    assert!(!sizes_can_be_counted(&other(b"8 uid=5\n28 size=9223372036854775808\n", 0)));
    assert!(!sizes_can_be_counted(&other(b"8 uid=5\n", HUGE)));
    assert!(sizes_can_be_counted(&vec![1, 2, 3]));
}

#[test]
fn sources_are_found_once() {
    let files = vec![
        file("a.c", ""),
        ("d".to_string(), FsNode::Dir(vec![file("a.c", ""), file("b.c", "")])),
        ("d.c".to_string(), FsNode::Dir(vec![file("a.c", "")])),
    ];
    let mut sources = vec![];
    collect_dir_sources(&files, "/", &mut sources);
    assert_eq!(sources, strings(&["/a.c", "/d/a.c", "/d/b.c", "/d.c/a.c"]));
    assert_eq!(sort(sources), strings(&["/a.c", "/d.c/a.c", "/d/a.c", "/d/b.c"]));
}
