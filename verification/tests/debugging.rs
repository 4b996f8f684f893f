use debugger_sh::dap::adapter::{DapState, Reply, WorkerEvent};
use debugger_sh::dap::json::Json;
use debugger_sh::dap::types::{ProtocolMessage, VariablesMap};
use debugger_sh::debug::debugger::Debugger;
use debugger_sh::debug::dwarf::die::DieReference;
use debugger_sh::debug::dwarf::entry::Visit;
use debugger_sh::debug::dwarf::expression::{operations, ExprOp};
use debugger_sh::debug::dwarf::reader::{can_be_found, FileEntry, UnitEncoding};
use debugger_sh::debug::dwarf::sections::Sections;
use debugger_sh::debug::dwarf::unit::{render_file_path, Location};
use debugger_sh::debug::dwarf::Dwarf;
use debugger_sh::debug::evaluate::EvaluationContext;
use debugger_sh::debug::formatters::choice::{
    Formatter, FormatterCategory, ScalarFormatter, StdMapFormatter, StdVectorFormatter, StructureFormatter,
};
use debugger_sh::debug::formatters::scalar::Rendered;
use debugger_sh::debug::formatters::ChildCounts;
use debugger_sh::debug::graph::{decl_name, TypeGraph};
use debugger_sh::debug::info::{
    collect_dwarf_bytes, create_breakpoints_buffer, parse_debug_info, to_dwarf,
};
use debugger_sh::debug::instrument::encoder::{
    debug_imports, instrument_known, instrument_wasm, DebugImport, Numbering,
};
use debugger_sh::debug::instrument::function::Instr;
use debugger_sh::debug::instrument::locations::{locations_at, WasmLocations};
use debugger_sh::debug::variables::Variable;
use debugger_sh::error::{Child, DebugError};
use debugger_sh::host::frames::{DebugHost, FrameSlot, HostFunction, HostInfo};
use debugger_sh::host::lines::{build_filename, parse_lines, LocationInfo};
use debugger_sh::host::values::{
    c_val_type, format_value, wasm_loc_from_expr, HostValue, TypeKind, VarLoc,
};
use debugger_sh::types::{
    CodeOffset, DebugFrameEntry, DebugInfo, MemoryOffset, PauseReason, WasmLocation,
};
use debugger_sh::wasm::reader::ValueKind;
use gimli::write::{
    Address, AttributeValue, DwarfUnit, EndianVec, Expression, LineProgram, LineString,
    UnitEntryId,
};
use gimli::{Encoding, Format, LineEncoding, LittleEndian};
use wasm_encoder::{
    CodeSection, CustomSection, EntityType, Function, FunctionSection, GlobalType, ImportSection,
    Instruction, MemorySection, MemoryType, Module, TypeSection, ValType,
};

const ENCODING: Encoding = Encoding { format: Format::Dwarf32, version: 5, address_size: 4 };

fn text(s: &str) -> AttributeValue {
    AttributeValue::String(s.as_bytes().to_vec())
}

fn at(dwarf: &mut DwarfUnit, id: UnitEntryId, name: gimli::DwAt, value: AttributeValue) {
    dwarf.unit.get_mut(id).set(name, value);
}

fn scalar(dwarf: &mut DwarfUnit, name: &str, size: u64, encoding: gimli::DwAte) -> UnitEntryId {
    let root = dwarf.unit.root();
    let id = dwarf.unit.add(root, gimli::DW_TAG_base_type);
    at(dwarf, id, gimli::DW_AT_name, text(name));
    at(dwarf, id, gimli::DW_AT_byte_size, AttributeValue::Udata(size));
    at(dwarf, id, gimli::DW_AT_encoding, AttributeValue::Encoding(encoding));
    id
}

fn to(dwarf: &mut DwarfUnit, tag: gimli::DwTag, target: UnitEntryId) -> UnitEntryId {
    let root = dwarf.unit.root();
    let id = dwarf.unit.add(root, tag);
    at(dwarf, id, gimli::DW_AT_type, AttributeValue::UnitRef(target));
    id
}

fn structure(
    dwarf: &mut DwarfUnit,
    parent: UnitEntryId,
    name: &str,
    size: u64,
    members: &[(&str, u64, UnitEntryId)],
) -> UnitEntryId {
    let id = dwarf.unit.add(parent, gimli::DW_TAG_structure_type);
    at(dwarf, id, gimli::DW_AT_name, text(name));
    at(dwarf, id, gimli::DW_AT_byte_size, AttributeValue::Udata(size));
    for (name, offset, ty) in members {
        let member = dwarf.unit.add(id, gimli::DW_TAG_member);
        at(dwarf, member, gimli::DW_AT_name, text(name));
        at(dwarf, member, gimli::DW_AT_data_member_location, AttributeValue::Udata(*offset));
        at(dwarf, member, gimli::DW_AT_type, AttributeValue::UnitRef(*ty));
    }
    id
}

fn variable(
    dwarf: &mut DwarfUnit,
    parent: UnitEntryId,
    tag: gimli::DwTag,
    name: &str,
    ty: UnitEntryId,
    expr: Expression,
) {
    let id = dwarf.unit.add(parent, tag);
    at(dwarf, id, gimli::DW_AT_name, text(name));
    at(dwarf, id, gimli::DW_AT_type, AttributeValue::UnitRef(ty));
    at(dwarf, id, gimli::DW_AT_location, AttributeValue::Exprloc(expr));
}

fn from_base(offset: i64) -> Expression {
    let mut e = Expression::new();
    e.op_fbreg(offset);
    e
}

fn in_local(index: u32) -> Expression {
    let mut e = Expression::new();
    e.op_wasm_local(index);
    e.op(gimli::DW_OP_stack_value);
    e
}

fn namespace(dwarf: &mut DwarfUnit, parent: UnitEntryId, name: &str) -> UnitEntryId {
    let id = dwarf.unit.add(parent, gimli::DW_TAG_namespace);
    at(dwarf, id, gimli::DW_AT_name, text(name));
    id
}

fn debug_sections() -> Vec<(String, Vec<u8>)> {
    sections_with(in_local(0))
}

/// The debug information of a small program, whose function has this frame base.
fn sections_with(frame_base: Expression) -> Vec<(String, Vec<u8>)> {
    let mut program = LineProgram::new(
        ENCODING,
        LineEncoding::default(),
        LineString::String(b"/src".to_vec()),
        None,
        LineString::String(b"main.cpp".to_vec()),
        None,
    );
    let main_file = program.files().next().unwrap().0;
    let headers = program.add_directory(LineString::String(b"inc".to_vec()));
    let header = program.add_file(LineString::String(b"util.h".to_vec()), headers, None);
    program.begin_sequence(Some(Address::Constant(2)));
    for (offset, file, line, column, is_stmt) in [
        (3, main_file, 3, 5, true),
        (6, main_file, 3, 9, false),
        (8, main_file, 4, 7, true),
        (12, header, 9, 1, true),
    ] {
        program.row().address_offset = offset;
        program.row().file = file;
        program.row().line = line;
        program.row().column = column;
        program.row().is_statement = is_stmt;
        program.generate_row();
    }
    program.end_sequence(15);

    let mut dwarf = DwarfUnit::new(ENCODING);
    dwarf.unit.line_program = program;
    let root = dwarf.unit.root();
    at(&mut dwarf, root, gimli::DW_AT_name, text("main.cpp"));
    at(&mut dwarf, root, gimli::DW_AT_comp_dir, text("/src"));
    at(&mut dwarf, root, gimli::DW_AT_low_pc, AttributeValue::Address(Address::Constant(0)));

    let int = scalar(&mut dwarf, "int", 4, gimli::DW_ATE_signed);
    let size_t = scalar(&mut dwarf, "unsigned long", 4, gimli::DW_ATE_unsigned);
    let double = scalar(&mut dwarf, "double", 8, gimli::DW_ATE_float);
    let int_pointer = to(&mut dwarf, gimli::DW_TAG_pointer_type, int);
    let const_int = to(&mut dwarf, gimli::DW_TAG_const_type, int);
    let number = to(&mut dwarf, gimli::DW_TAG_typedef, const_int);
    at(&mut dwarf, number, gimli::DW_AT_name, text("number"));
    let point = structure(&mut dwarf, root, "Point", 8, &[("x", 0, int), ("y", 4, int)]);
    let wide_char = scalar(&mut dwarf, "char32_t", 4, gimli::DW_ATE_UTF);
    let mixed = structure(&mut dwarf, root, "Mixed", 12, &[("a", 0, int)]);
    let far = dwarf.unit.add(mixed, gimli::DW_TAG_member);
    at(&mut dwarf, far, gimli::DW_AT_name, text("b"));
    at(&mut dwarf, far, gimli::DW_AT_type, AttributeValue::UnitRef(int));
    let location = gimli::DW_AT_data_member_location;
    at(&mut dwarf, far, location, AttributeValue::Exprloc(from_base(0)));
    let near = dwarf.unit.add(mixed, gimli::DW_TAG_member);
    at(&mut dwarf, near, gimli::DW_AT_name, text("c"));
    at(&mut dwarf, near, gimli::DW_AT_type, AttributeValue::UnitRef(int));
    at(&mut dwarf, near, location, AttributeValue::Udata(4));
    let point_pointer = to(&mut dwarf, gimli::DW_TAG_pointer_type, point);
    let point_reference = to(&mut dwarf, gimli::DW_TAG_reference_type, point);

    let std = namespace(&mut dwarf, root, "std");
    let inline = namespace(&mut dwarf, std, "__2");
    let vector = structure(
        &mut dwarf,
        inline,
        "vector<int, std::__2::allocator<int> >",
        12,
        &[("__begin_", 0, int_pointer), ("__end_", 4, int_pointer)],
    );
    let string = structure(&mut dwarf, inline, "string", 12, &[]);
    let tree = structure(
        &mut dwarf,
        inline,
        "__tree<int>",
        12,
        &[("__begin_node_", 0, int_pointer), ("__size_", 8, size_t)],
    );
    let value_type = dwarf.unit.add(tree, gimli::DW_TAG_typedef);
    at(&mut dwarf, value_type, gimli::DW_AT_name, text("value_type"));
    at(&mut dwarf, value_type, gimli::DW_AT_type, AttributeValue::UnitRef(int));
    let set = structure(&mut dwarf, inline, "set<int>", 12, &[("__tree_", 0, tree)]);

    let mut place = Expression::new();
    place.op_addr(Address::Constant(2048));
    variable(&mut dwarf, root, gimli::DW_TAG_variable, "counter", int, place);

    let app = namespace(&mut dwarf, root, "app");
    let main = dwarf.unit.add(app, gimli::DW_TAG_subprogram);
    at(&mut dwarf, main, gimli::DW_AT_name, text("main"));
    at(&mut dwarf, main, gimli::DW_AT_low_pc, AttributeValue::Address(Address::Constant(2)));
    at(&mut dwarf, main, gimli::DW_AT_high_pc, AttributeValue::Udata(15));
    at(&mut dwarf, main, gimli::DW_AT_frame_base, AttributeValue::Exprloc(frame_base));
    let parameter = gimli::DW_TAG_formal_parameter;
    let local = gimli::DW_TAG_variable;
    variable(&mut dwarf, main, parameter, "argc", int, from_base(8));
    variable(&mut dwarf, main, local, "p", point, from_base(16));
    variable(&mut dwarf, main, local, "v", vector, from_base(32));
    variable(&mut dwarf, main, local, "s", set, from_base(48));
    variable(&mut dwarf, main, local, "pp", point_pointer, from_base(64));
    variable(&mut dwarf, main, local, "pr", point_reference, from_base(68));
    variable(&mut dwarf, main, local, "ip", int_pointer, from_base(72));
    variable(&mut dwarf, main, local, "d", double, from_base(80));
    variable(&mut dwarf, main, local, "n", number, from_base(88));
    variable(&mut dwarf, main, local, "t", string, from_base(96));
    variable(&mut dwarf, main, local, "reg", int, in_local(1));
    variable(&mut dwarf, main, local, "w", wide_char, in_local(1));
    variable(&mut dwarf, main, local, "m", mixed, from_base(112));
    let block = dwarf.unit.add(main, gimli::DW_TAG_lexical_block);
    at(&mut dwarf, block, gimli::DW_AT_low_pc, AttributeValue::Address(Address::Constant(14)));
    at(&mut dwarf, block, gimli::DW_AT_high_pc, AttributeValue::Udata(3));
    variable(&mut dwarf, block, local, "inner", int, from_base(104));

    let mut sections = gimli::write::Sections::new(EndianVec::new(LittleEndian));
    dwarf.write(&mut sections).unwrap();
    let mut out = vec![];
    sections
        .for_each(|id, data| -> Result<(), ()> {
            if !data.slice().is_empty() {
                out.push((id.name().to_string(), data.slice().to_vec()));
            }
            Ok(())
        })
        .unwrap();
    out
}

/// A small program: its first function has debug information, its second has not.
fn program() -> Vec<u8> {
    program_with(1, debug_sections())
}

fn program_with(pages: u64, sections: Vec<(String, Vec<u8>)>) -> Vec<u8> {
    let mut module = Module::new();
    let mut types = TypeSection::new();
    types.ty().function([], []);
    module.section(&types);
    let mut imports = ImportSection::new();
    imports.import("env", "f", EntityType::Function(0));
    imports.import(
        "env",
        "g",
        GlobalType { val_type: ValType::I32, mutable: true, shared: false },
    );
    module.section(&imports);
    let mut functions = FunctionSection::new();
    functions.function(0);
    functions.function(0);
    module.section(&functions);
    let mut memories = MemorySection::new();
    memories.memory(MemoryType {
        minimum: pages,
        maximum: None,
        memory64: false,
        shared: false,
        page_size_log2: None,
    });
    module.section(&memories);
    let mut code = CodeSection::new();
    let mut main = Function::new([(2, ValType::I32)]);
    main.instruction(&Instruction::I32Const(1000));
    main.instruction(&Instruction::LocalSet(0));
    main.instruction(&Instruction::I32Const(7));
    main.instruction(&Instruction::LocalSet(1));
    main.instruction(&Instruction::Call(0));
    main.instruction(&Instruction::End);
    code.function(&main);
    let mut other = Function::new([]);
    other.instruction(&Instruction::End);
    code.function(&other);
    module.section(&code);
    for (name, data) in sections {
        module.section(&CustomSection { name: name.into(), data: data.into() });
    }
    module.finish()
}

fn instrumented() -> DebugInfo {
    instrument_wasm(&program()).unwrap().info
}

fn put(bytes: &mut [u8], at: usize, value: u32) {
    bytes[at..at + 4].copy_from_slice(&value.to_le_bytes());
}

/// The program, paused at one of its locations, with one frame on its stack.
fn paused_at(location: usize) -> Debugger {
    let mut info = instrumented();
    let sp = info.stack.bytes.len() - info.functions[0].size;
    let pc = info.locations[location].address.0 as u32;
    put(&mut info.stack.bytes, sp, pc);
    put(&mut info.stack.bytes, sp + 4, 1000);
    put(&mut info.stack.bytes, sp + 12, 7);
    put(&mut info.breakpoints, 0, sp as u32);
    let memory = &mut info.memory.bytes;
    for (at, value) in [
        (1008, 3),
        (1016, -1i32 as u32),
        (1020, 42),
        // the vector
        (1032, 3000),
        (1036, 3012),
        (3000, 10),
        (3004, 20),
        (3008, 30),
        // the set: its first node, and how many there are
        (1048, 4000),
        (1056, 3),
        // 5, on the left of 8
        (4000, 0),
        (4004, 0),
        (4008, 4050),
        (4016, 5),
        // 8, with 9 on its right
        (4050, 4000),
        (4054, 4100),
        (4058, 4200),
        (4066, 8),
        (4100, 0),
        (4104, 0),
        (4108, 4050),
        (4116, 9),
        // what stands above the root
        (4200, 4050),
        (1064, 1016),
        (1068, 1016),
        (1072, 1020),
        (1088, 77),
        (1104, 5),
        (1112, 61),
        (1116, 62),
        (2048, 99),
    ] {
        put(memory, at, value);
    }
    memory[1080..1088].copy_from_slice(&2.5f64.to_le_bytes());
    Debugger::new(info)
}

fn paused() -> Debugger {
    paused_at(1)
}

fn named(vars: &[Variable], name: &str) -> Variable {
    vars.iter().find(|v| v.name() == name).unwrap().copy()
}

fn local(d: &Debugger, name: &str) -> Variable {
    named(&d.get_variables(0).unwrap().locals, name)
}

fn shown(r: Rendered) -> String {
    match r {
        Rendered::Text(t) => t,
        Rendered::Float32(b) => f32::from_bits(b).to_string(),
        Rendered::Float64(b) => f64::from_bits(b).to_string(),
    }
}

fn display(d: &Debugger, v: &Variable) -> String {
    shown(v.display(d.memory()).unwrap())
}

fn displays(d: &Debugger, vars: &[Variable]) -> Vec<(String, String)> {
    vars.iter().map(|v| (v.name().to_string(), display(d, v))).collect()
}

fn pairs(v: &[(&str, &str)]) -> Vec<(String, String)> {
    v.iter().map(|(a, b)| (a.to_string(), b.to_string())).collect()
}

fn place(address: u64, file_index: usize, line: usize, column: usize) -> Location {
    Location { address: CodeOffset(address), file_index, line, column }
}

// ---------------------------------------------------------------------------
// Debug information
// ---------------------------------------------------------------------------

#[test]
fn statements_become_locations() {
    let dwarf = Dwarf::from_wasm(&program()).unwrap();
    assert_eq!(
        dwarf.locations(),
        vec![place(5, 0, 3, 5), place(10, 0, 4, 7), place(14, 1, 9, 1), place(17, 1, 9, 1)]
    );
}

#[test]
fn files_are_shown_with_their_directories() {
    let dwarf = Dwarf::from_wasm(&program()).unwrap();
    assert_eq!(dwarf.file_at(0), Some(&"/src/main.cpp".to_string()));
    assert_eq!(dwarf.file_at(1), Some(&"/src/inc/util.h".to_string()));
    assert_eq!(dwarf.file_at(2), None);
    assert_eq!(dwarf.units().len(), 1);
    assert_eq!(dwarf.units()[0].index(), 0);
}

#[test]
fn broken_modules_are_refused() {
    assert_eq!(Dwarf::from_wasm(&vec![1, 2, 3]).err(), Some(DebugError::Malformed));
    assert_eq!(parse_debug_info(&vec![1, 2, 3]).err(), Some(DebugError::Malformed));
    assert_eq!(instrument_wasm(&vec![1, 2, 3]).err(), Some(DebugError::Malformed));
}

#[test]
fn only_modules_are_instrumented() {
    let component = vec![0, 0x61, 0x73, 0x6d, 0x0d, 0, 1, 0];
    assert_eq!(
        instrument_known(&component, instrumented()).err(),
        Some(DebugError::Malformed)
    );
    assert!(instrument_known(&program(), instrumented()).is_ok());
}

#[test]
fn debug_information_is_parsed() {
    let info = parse_debug_info(&program()).unwrap();
    assert_eq!(info.functions.len(), 1);
    assert_eq!(info.functions[0].low_pc, CodeOffset(2));
    assert_eq!(info.functions[0].high_pc, CodeOffset(17));
    assert_eq!(info.functions[0].size, 4);
    assert_eq!(info.memory.ty.minimum, 1);
    assert_eq!(info.memory.ty.maximum, Some(16));
    assert_eq!(info.stack.byte_size(), 16 * 65536);
    assert_eq!(info.fn_index_at(CodeOffset(1)), None);
    assert_eq!(info.fn_index_at(CodeOffset(2)), Some(0));
    assert_eq!(info.fn_index_at(CodeOffset(16)), Some(0));
    assert_eq!(info.fn_index_at(CodeOffset(17)), None);
    assert!(info.fn_at(CodeOffset(5)).is_some());
}

#[test]
fn sections_are_kept_by_name() {
    let mut sections = Sections::new();
    for (name, data) in debug_sections() {
        sections.insert(name, data);
    }
    sections.insert("name".to_string(), vec![1, 2]);
    sections.insert("name".to_string(), vec![3]);
    assert_eq!(sections.get("name"), Some(&vec![3]));
    assert_eq!(sections.get(".debug_none"), None);
    assert!(sections.contents(".debug_none").is_empty());
    let kept = sections.dwarf_only();
    assert_eq!(kept.get("name"), None);
    assert_eq!(kept.get(".debug_info"), sections.get(".debug_info"));
    let core = collect_dwarf_bytes(&sections);
    assert_eq!(core.get(".debug_line"), sections.get(".debug_line"));
    assert_eq!(core.get("name"), None);
    let dwarf = to_dwarf(&core);
    assert_eq!(dwarf.units().len(), 1);
    assert_eq!(Dwarf::from_sections(&sections).unwrap().locations(), dwarf.locations());
}

/// The debug information of the small program, with a line program that ends in an
/// instruction to go `lines` lines on, spelled in ten bytes.
fn sections_that_advance(lines: i64) -> Sections {
    let mut sections = Sections::new();
    for (name, mut data) in debug_sections() {
        if name == ".debug_line" {
            data.push(gimli::DW_LNS_advance_line.0);
            data.extend((0..9).map(|i| 0x80 | (lines >> (7 * i) & 0x7f) as u8));
            data.push((lines >> 63 & 0x7f) as u8);
            let length = data.len() as u32 - 4;
            put(&mut data, 0, length);
        }
        sections.insert(name, data);
    }
    sections
}

#[test]
fn lines_are_taken_back_as_far_as_they_can_be() {
    let whole = sections_that_advance(i64::MIN + 1);
    assert_eq!(
        Dwarf::from_sections(&whole).unwrap().locations(),
        Dwarf::from_wasm(&program()).unwrap().locations()
    );
    assert_eq!(parse_lines(&whole).unwrap().locations.len(), 4);
    let broken = sections_that_advance(i64::MIN);
    let dwarf = Dwarf::from_sections(&broken).unwrap();
    assert!(dwarf.locations().is_empty());
    assert_eq!(dwarf.file_at(0), Some(&"/src/main.cpp".to_string()));
    assert_eq!(parse_lines(&broken).err(), Some(DebugError::Malformed));
}

/// A unit with four variables whose location lists have the numbers 0, 1, 2 and 9.
/// The lists are numbered from the byte 8 on.
fn numbered_lists() -> Sections {
    let mut abbrev = vec![1, 0x11, 1, 0x8c, 0x01, 0x17, 0x11, 0x01, 0, 0];
    abbrev.extend([2, 0x34, 0, 0x02, 0x22, 0, 0, 0]);
    let mut unit = vec![5, 0, 1, 4];
    unit.extend(0u64.to_le_bytes());
    unit.push(1);
    unit.extend(8u64.to_le_bytes());
    unit.extend(0u32.to_le_bytes());
    unit.extend([2, 0, 2, 1, 2, 2, 2, 9, 0]);
    let mut info = vec![0xff; 4];
    info.extend((unit.len() as u64).to_le_bytes());
    info.extend(unit);
    let mut lists = vec![0; 8];
    for offset in [24, u64::MAX, u64::MAX - 8] {
        lists.extend(offset.to_le_bytes());
    }
    lists.extend([7, 4, 0, 0, 0, 10, 0, 0, 0, 1, 0x30, 0]);
    let mut sections = Sections::new();
    sections.insert(".debug_abbrev".to_string(), abbrev);
    sections.insert(".debug_info".to_string(), info);
    sections.insert(".debug_loclists".to_string(), lists);
    sections
}

#[test]
fn numbered_lists_are_found_where_they_can_be() {
    let dwarf = Dwarf::from_sections(&numbered_lists()).unwrap();
    let held = |unit_ofs, pc| {
        let die = DieReference { unit_index: 0, unit_ofs }.deref(&dwarf).unwrap();
        assert_eq!(die.tag(), 0x34);
        die.expression(0x02, CodeOffset(pc))
    };
    assert_eq!(held(37, 3), None);
    assert_eq!(held(37, 4), Some(vec![0x30]));
    assert_eq!(held(37, 10), None);
    for unit_ofs in [39, 41, 43] {
        assert_eq!(held(unit_ofs, 4), None);
    }
    let lists = numbered_lists().get(".debug_loclists").unwrap().clone();
    assert!(can_be_found(&lists, 8, true, None));
    assert!(can_be_found(&lists, 8, true, Some(0)));
    assert!(!can_be_found(&lists, 8, true, Some(1)));
    assert!(can_be_found(&lists, 8, true, Some(2)));
    assert!(can_be_found(&lists, 8, true, Some(9)));
    assert!(can_be_found(&lists, usize::MAX, true, Some(usize::MAX)));
    assert!(can_be_found(&lists, 8, false, Some(2)));
}

#[test]
fn buffers_have_room_for_every_location() {
    assert_eq!(create_breakpoints_buffer(0), vec![0; 8]);
    assert_eq!(create_breakpoints_buffer(3), vec![0; 11]);
}

#[test]
fn entries_are_walked() {
    let dwarf = Dwarf::from_wasm(&program()).unwrap();
    let info = parse_debug_info(&program()).unwrap();
    let die = info.functions[0].die_ref.deref(&dwarf).unwrap();
    assert_eq!(die.name(), Some("main".to_string()));
    assert_eq!(die.qualified_name(), Some("app::main".to_string()));
    assert_eq!(die.addr_range(), Some((CodeOffset(2), CodeOffset(17))));
    assert_eq!(die.low_pc(), Some(CodeOffset(2)));
    // the end is given relative to the start
    assert_eq!(die.high_pc(), None);
    let names: Vec<_> = die.children().iter().map(|c| c.name().unwrap_or_default()).collect();
    assert_eq!(names, ["argc", "p", "v", "s", "pp", "pr", "ip", "d", "n", "t", "reg", "w", "m", ""]);
    assert!(die.children()[0].type_ref().is_some());
    let reg = die.children()[10];
    assert_eq!(reg.expression(0x02, CodeOffset(5)), Some(vec![0xed, 0x00, 0x01, 0x9f]));
    let found = die.find_children(|c| if c.name() == Some("pp".to_string()) { c.name() } else { None });
    assert_eq!(found, Some("pp".to_string()));
    let all = die.traverse(|c| if c.tag() == 0x0b { Visit::SkipChildren } else { Visit::Continue });
    assert!(all.iter().all(|c| c.name() != Some("inner".to_string())));
    let wrong = DieReference { unit_index: 9, unit_ofs: 0 };
    assert_eq!(wrong.deref(&dwarf).err(), Some(DebugError::UnitOutOfBounds));
    let nowhere = DieReference { unit_index: 0, unit_ofs: 1 };
    assert_eq!(nowhere.deref(&dwarf).err(), Some(DebugError::EntryNotFound));
}

#[test]
fn needed_places_are_found() {
    let dwarf = Dwarf::from_wasm(&program()).unwrap();
    let info = parse_debug_info(&program()).unwrap();
    let die = info.functions[0].die_ref.deref(&dwarf).unwrap();
    let needed = locations_at(&die, CodeOffset(5)).unwrap();
    assert_eq!(needed.locals, vec![0, 1]);
    assert!(needed.globals.is_empty());
    assert!(needed.operands.is_empty());
    let mut more = WasmLocations::new();
    for op in [ExprOp::WasmGlobal(4), ExprOp::WasmGlobal(1), ExprOp::WasmStack(2), ExprOp::Other] {
        more.operation(op);
    }
    assert_eq!(more.globals, vec![1, 4]);
    assert_eq!(more.operands, vec![2]);
}

// ---------------------------------------------------------------------------
// Instrumentation
// ---------------------------------------------------------------------------

#[test]
fn functions_are_instrumented() {
    let r = instrument_wasm(&program()).unwrap();
    assert_eq!(r.numbers.num_imported_functions, 1);
    assert_eq!(r.numbers.num_imported_globals, 1);
    assert_eq!(r.functions.len(), 2);
    assert!(r.functions[1].is_none());
    let save = |offset: u64| Instr::Store { kind: ValueKind::I32, offset, memory: 1 };
    let bkpt = |index: i32| {
        vec![
            Instr::GlobalGet(1),
            Instr::LocalGet(0),
            save(4),
            Instr::GlobalGet(1),
            Instr::LocalGet(1),
            save(12),
            Instr::I32Const(index),
            Instr::Call(1),
        ]
    };
    let mut want = vec![Instr::GlobalGet(1), Instr::I32Const(20), Instr::I32Sub, Instr::GlobalSet(1)];
    let plan = r.functions[0].as_ref().unwrap();
    assert!(plan.scratch_locals.is_empty());
    // the header says where the function is
    let head = plan.code.iter().position(|i| *i == Instr::LocalGet(0)).unwrap() - 1;
    assert_eq!(&plan.code[..4], &want[..]);
    want = plan.code[..head].to_vec();
    want.extend(bkpt(0));
    want.extend([Instr::Op(0), Instr::Op(1)]);
    want.extend(bkpt(1));
    want.extend([Instr::Op(2), Instr::Op(3)]);
    want.extend(bkpt(2));
    want.extend([Instr::GlobalGet(1), Instr::I32Const(14), save(0), Instr::Op(4)]);
    want.extend([
        Instr::GlobalGet(1),
        Instr::I32Const(20),
        Instr::I32Add,
        Instr::GlobalSet(1),
        Instr::Op(5),
    ]);
    assert_eq!(plan.code, want);
}

#[test]
fn instrumented_frames_hold_what_is_needed() {
    let info = instrumented();
    assert_eq!(info.locations.len(), 3);
    assert_eq!(info.breakpoints, vec![0; 11]);
    assert_eq!(info.functions[0].size, 20);
    assert_eq!(
        info.functions[0].layout,
        vec![
            DebugFrameEntry { offset: 4, location: WasmLocation::Local(0) },
            DebugFrameEntry { offset: 12, location: WasmLocation::Local(1) },
        ]
    );
}

#[test]
fn numbers_make_room_for_the_imports() {
    let n = Numbering { num_imported_functions: 3, num_imported_globals: 1, code_section_start: 100 };
    assert_eq!(n.bkpt_fn_index(), 3);
    assert_eq!(n.sp_gl_index(), 1);
    assert_eq!([0, 2, 3, 9].map(|f| n.function_index(f)), [0, 2, 4, 10]);
    assert_eq!([0, 1, 2].map(|g| n.global_index(g)), [0, 2, 3]);
    assert_eq!(n.code_ofs(105), CodeOffset(5));
    assert_eq!(n.code_ofs(5), CodeOffset(0));
}

#[test]
fn the_debugger_is_imported() {
    let info = instrumented();
    let imports = debug_imports(&info);
    let names: Vec<_> = imports.iter().map(|i| i.name()).collect();
    assert_eq!(names, ["bkpt", "memory", "stack", "sp"]);
    assert_eq!(imports[1], DebugImport::Memory(info.memory.ty));
    assert_eq!(imports[2], DebugImport::Stack(info.stack.ty));
}

// ---------------------------------------------------------------------------
// The debugger
// ---------------------------------------------------------------------------

#[test]
fn the_call_stack_is_walked() {
    let d = paused();
    let frames = d.backtrace().unwrap();
    assert_eq!(frames.len(), 1);
    assert_eq!(frames[0].id, 0);
    assert_eq!(frames[0].name, "app::main");
    assert_eq!((frames[0].line, frames[0].column), (4, 7));
    assert_eq!(frames[0].source, Some("/src/main.cpp".to_string()));
}

#[test]
fn recursive_calls_have_a_frame_each() {
    let mut d = paused();
    let sp = d.info.stack.bytes.len() - 40;
    put(&mut d.info.stack.bytes, sp, 14);
    put(&mut d.info.breakpoints, 0, sp as u32);
    let frames = d.backtrace().unwrap();
    assert_eq!(frames.len(), 2);
    assert_eq!((frames[0].id, frames[0].line), (0, 9));
    assert_eq!((frames[1].id, frames[1].line), (1, 4));
    assert_eq!(d.get_variables(1).unwrap().arguments.len(), 1);
    assert_eq!(d.get_variables(2).err(), Some(DebugError::FrameNotFound(2)));
}

#[test]
fn breakpoints_are_set_by_line() {
    let mut d = paused();
    assert_eq!(d.set_breakpoint("/src/main.cpp", 4), Some(place(10, 0, 4, 7)));
    assert_eq!(d.info.get_bp_flags(), vec![0, 1, 0]);
    assert_eq!(d.set_breakpoint("src/main.cpp", 1), Some(place(5, 0, 3, 5)));
    assert_eq!(d.info.get_bp_flags(), vec![1, 1, 0]);
    // each flag counts how often its breakpoint was set
    d.set_breakpoint("/src/main.cpp", 3);
    assert_eq!(d.info.get_bp_flags(), vec![2, 1, 0]);
    assert_eq!(d.set_breakpoint("/src/main.cpp", 100), None);
    assert_eq!(d.set_breakpoint("/elsewhere.cpp", 4), None);
    assert_eq!(d.info.get_bp_flags(), vec![2, 1, 0]);
}

#[test]
fn resuming_sets_the_mode() {
    let mut d = paused();
    d.set_breakpoint("/src/main.cpp", 4);
    d.step_into();
    assert_eq!(d.info.get_bp_state(), (0, 1));
    d.step_over();
    assert_eq!(d.info.get_bp_state(), (0, 2));
    d.step_out();
    assert_eq!(d.info.get_bp_state(), (0, 3));
    d.continue_();
    assert_eq!(d.info.get_bp_state(), (0, 0));
    assert_eq!(d.info.get_bp_flags(), vec![0, 1, 0]);
}

#[test]
fn variables_come_by_scope() {
    let d = paused();
    let found = d.get_variables(0).unwrap();
    let names = |v: &[Variable]| v.iter().map(|x| x.name().to_string()).collect::<Vec<_>>();
    assert_eq!(names(&found.arguments), ["argc"]);
    assert_eq!(names(&found.locals), [
        "p", "v", "s", "pp", "pr", "ip", "d", "n", "t", "reg", "w", "m"
    ]);
    assert_eq!(display(&d, &found.arguments[0]), "3");
}

#[test]
fn variables_of_blocks_are_seen_inside() {
    let d = paused_at(2);
    assert_eq!(display(&d, &local(&d, "inner")), "5");
}

#[test]
fn values_are_displayed() {
    let d = paused();
    assert_eq!(display(&d, &local(&d, "reg")), "7");
    assert_eq!(display(&d, &local(&d, "n")), "77");
    assert_eq!(display(&d, &local(&d, "d")), "2.5");
    assert_eq!(display(&d, &local(&d, "p")), "@0x3f8");
    assert_eq!(display(&d, &local(&d, "pp")), "0x428");
    assert_eq!(display(&d, &local(&d, "pr")), "@0x3f8");
    assert_eq!(display(&d, &local(&d, "v")), "@0x408");
    assert_eq!(local(&d, "t").display(d.memory()).err(), Some(DebugError::NotImplemented));
}

#[test]
fn types_are_told() {
    let d = paused();
    let p = local(&d, "p");
    assert_eq!(p.ty().name(), "Point");
    assert_eq!(p.ty().byte_size(), Some(8));
    assert_eq!(p.address(), Some(MemoryOffset(1016)));
    let pp = local(&d, "pp");
    assert_eq!(pp.ty().pointee().unwrap().name(), "Point");
    assert_eq!(pp.ty().name(), "Point*");
    assert_eq!(local(&d, "pr").ty().name(), "Point&");
    assert_eq!(local(&d, "n").ty().name(), "number");
    assert_eq!(local(&d, "n").ty().skip_one_modifier().name(), "const int");
    assert_eq!(pp.pointer_value(d.memory()), Some(MemoryOffset(1016)));
    assert_eq!(pp.unsigned_value(d.memory()), Some(1016));
    let v = local(&d, "v");
    assert!(v.ty().ns().matches("std"));
    assert_eq!(v.ty().name(), "std::vector<int, std::allocator<int> >");
    assert_eq!(d.formatter_for(v.ty()), Some(Formatter::StdVector));
    assert_eq!(d.formatter_for(local(&d, "s").ty()), Some(Formatter::StdMap));
    assert_eq!(d.formatter_for(local(&d, "t").ty()), Some(Formatter::StdString));
    assert_eq!(d.formatter_for(p.ty()), Some(Formatter::Structure));
    assert_eq!(d.formatter_for(pp.ty()), Some(Formatter::Referential));
    assert_eq!(d.formatter_for(local(&d, "n").ty()), Some(Formatter::Scalar));
    assert_eq!(d.address_size(), 4);
}

#[test]
fn declarations_are_written_out() {
    let dwarf = Dwarf::from_wasm(&program()).unwrap();
    let graph = TypeGraph::new(&dwarf);
    let d = paused();
    for (name, text) in [("pp", "Point*"), ("pr", "Point&"), ("n", "number"), ("d", "double")] {
        assert_eq!(decl_name(local(&d, name).ty().declaration(), &graph), text);
    }
    assert_eq!(decl_name(None, &graph), "<unknown>");
}

#[test]
fn structures_have_members() {
    let d = paused();
    let p = local(&d, "p");
    assert_eq!(p.num_children(d.memory()).unwrap(), ChildCounts::named(2));
    let kids = p.named_children(d.memory(), 0..2).unwrap();
    assert_eq!(displays(&d, &kids), pairs(&[("x", "-1"), ("y", "42")]));
    let one = p.named_children(d.memory(), 1..2).unwrap();
    assert_eq!(displays(&d, &one), pairs(&[("y", "42")]));
    assert_eq!(p.named_children(d.memory(), 1..3).err(), Some(DebugError::RangeOutOfBounds));
    assert!(p.indexed_children(d.memory(), 0..2).unwrap().is_empty());
    assert_eq!(display(&d, &p.child_with_name(d.memory(), "y").unwrap()), "42");
    assert!(p.child_with_name(d.memory(), "z").is_none());
}

#[test]
fn members_that_can_be_listed_are_counted() {
    let d = paused();
    let m = local(&d, "m");
    let counts = m.num_children(d.memory()).unwrap();
    assert_eq!(counts, ChildCounts::named(2));
    let kids = m.named_children(d.memory(), 0..counts.named).unwrap();
    assert_eq!(displays(&d, &kids), pairs(&[("a", "61"), ("c", "62")]));
    let one = m.named_children(d.memory(), 1..2).unwrap();
    assert_eq!(displays(&d, &one), pairs(&[("c", "62")]));
    assert_eq!(displays(&d, &d.children(&m)), pairs(&[("a", "61"), ("c", "62")]));
}

#[test]
fn parts_are_read_wherever_values_lie() {
    let mut d = paused();
    let sp = d.info.stack.bytes.len() - 20;
    put(&mut d.info.stack.bytes, sp + 16, 0x11223344);
    // in a number
    let reg = local(&d, "reg");
    assert_eq!(reg.read(d.memory(), 5), Some(vec![7, 0, 0, 0, 0x44]));
    let part = reg.child_at_offset(d.memory(), 3);
    assert_eq!(part.name(), "");
    assert_eq!(part.ty().name(), "int");
    assert_eq!(part.read(d.memory(), 2), Some(vec![0, 0x44]));
    let part = part.child_at_offset(d.memory(), 2);
    assert_eq!(part.read(d.memory(), 4), Some(vec![0x33, 0x22, 0x11, 0]));
    let part = reg.child_at_offset(d.memory(), 9);
    assert_eq!(part.read(d.memory(), 1), Some(vec![0]));
    // in bytes
    let pieces = EvaluationContext::new(&d.info, sp as u32)
        .evaluate(&vec![0x9e, 3, 7, 8, 9])
        .unwrap();
    let bytes = Variable::new("b".to_string(), pieces, reg.ty().copy());
    assert_eq!(bytes.read(d.memory(), 3), Some(vec![7, 8, 9]));
    let part = bytes.child_at_offset(d.memory(), 1);
    assert_eq!(part.read(d.memory(), 2), Some(vec![8, 9]));
    assert_eq!(part.read(d.memory(), 3), None);
    // in memory
    let part = local(&d, "p").child_at_offset(d.memory(), 4);
    assert_eq!(part.read(d.memory(), 4), Some(vec![42, 0, 0, 0]));
}

#[test]
fn characters_are_unsigned() {
    let d = paused();
    let sp = (d.info.stack.bytes.len() - 20) as u32;
    let pieces = EvaluationContext::new(&d.info, sp)
        .evaluate(&vec![0x0c, 0x00, 0xf6, 0x01, 0x00, 0x9f])
        .unwrap();
    let c = Variable::new("c".to_string(), pieces, local(&d, "w").ty().copy());
    assert_eq!(c.unsigned_value(d.memory()), Some(0x1f600));
    assert_eq!(local(&d, "w").unsigned_value(d.memory()), Some(7));
}

#[test]
fn the_first_formatter_that_matches_is_taken() {
    let d = paused();
    let ty = local(&d, "v").ty().copy();
    let category = |formatters| FormatterCategory { name: "test", formatters };
    let first = |formatters| category(formatters).formatter_for(&ty);
    assert_eq!(first(vec![Formatter::Structure, Formatter::StdVector]), Some(Formatter::Structure));
    assert_eq!(first(vec![Formatter::StdVector, Formatter::Structure]), Some(Formatter::StdVector));
    assert_eq!(
        first(vec![Formatter::Scalar, Formatter::StdMap, Formatter::Structure]),
        Some(Formatter::Structure)
    );
    assert_eq!(first(vec![Formatter::Scalar, Formatter::StdMap]), None);
}

#[test]
fn pointers_are_followed() {
    let d = paused();
    let kids = d.children(&local(&d, "pp"));
    assert_eq!(displays(&d, &kids), pairs(&[("x", "-1"), ("y", "42")]));
    let kids = d.children(&local(&d, "pr"));
    assert_eq!(displays(&d, &kids), pairs(&[("x", "-1"), ("y", "42")]));
    let kids = d.children(&local(&d, "ip"));
    assert_eq!(displays(&d, &kids), pairs(&[("*ip", "42")]));
    let mut null = paused();
    put(&mut null.info.memory.bytes, 1072, 0);
    assert!(null.children(&local(&null, "ip")).is_empty());
}

#[test]
fn vectors_have_elements() {
    let d = paused();
    let v = local(&d, "v");
    assert_eq!(v.num_children(d.memory()).unwrap(), ChildCounts::indexed(3));
    assert_eq!(displays(&d, &d.children(&v)), pairs(&[("[0]", "10"), ("[1]", "20"), ("[2]", "30")]));
    let some = v.indexed_children(d.memory(), 1..99).unwrap();
    assert_eq!(displays(&d, &some), pairs(&[("[1]", "20"), ("[2]", "30")]));
    assert!(v.indexed_children(d.memory(), 5..9).unwrap().is_empty());
    assert!(v.named_children(d.memory(), 0..9).unwrap().is_empty());
    // an end before the beginning
    let mut odd = paused();
    put(&mut odd.info.memory.bytes, 1036, 10);
    assert!(odd.children(&local(&odd, "v")).is_empty());
}

#[test]
fn sets_are_walked_in_order() {
    let d = paused();
    let s = local(&d, "s");
    assert_eq!(s.num_children(d.memory()).unwrap(), ChildCounts::indexed(3));
    assert_eq!(displays(&d, &d.children(&s)), pairs(&[("[0]", "5"), ("[1]", "8"), ("[2]", "9")]));
    let last = s.indexed_children(d.memory(), 2..3).unwrap();
    assert_eq!(displays(&d, &last), pairs(&[("[2]", "9")]));
}

#[test]
fn expressions_are_evaluated() {
    let d = paused();
    let sp = (d.info.stack.bytes.len() - 20) as u32;
    let here = EvaluationContext::new(&d.info, sp);
    // the frame base and an offset
    assert_eq!(here.evaluate_unsigned(&vec![0x91, 8]), Ok(1008));
    // constants
    assert_eq!(here.evaluate_unsigned(&vec![0x35, 0x9f]), Ok(5));
    assert_eq!(here.evaluate_signed(&vec![0x11, 0x7f, 0x9f]), Ok(-1));
    // a value that was saved, and one that was not
    assert_eq!(here.evaluate_unsigned(&vec![0xed, 0, 1, 0x9f]), Ok(7));
    assert_eq!(
        here.evaluate_unsigned(&vec![0xed, 0, 5, 0x9f]).err(),
        Some(DebugError::LocationNotSaved)
    );
    // a global is told from an operand with the same number
    let mut global = paused();
    let layout = &mut global.info.functions[0].layout;
    layout.push(DebugFrameEntry { offset: 12, location: WasmLocation::Global(2) });
    let there = EvaluationContext::new(&global.info, sp);
    assert_eq!(there.evaluate_unsigned(&vec![0xed, 1, 2, 0x9f]), Ok(7));
    assert_eq!(
        there.evaluate_unsigned(&vec![0xed, 2, 2, 0x9f]).err(),
        Some(DebugError::LocationNotSaved)
    );
    // memory cannot be asked for
    assert_eq!(here.evaluate_unsigned(&vec![0x35, 0x06]).err(), Some(DebugError::Unsupported));
    // nothing that can be read
    assert!(here.evaluate(&vec![0xff]).is_err());
    let nowhere = EvaluationContext::new(&d.info, 0);
    assert_eq!(
        nowhere.evaluate(&vec![0x35]).err(),
        Some(DebugError::FunctionNotFound(CodeOffset(0)))
    );
}

#[test]
fn frame_bases_do_not_refer_to_themselves() {
    let wasm = program_with(1, sections_with(from_base(4)));
    let mut info = instrument_wasm(&wasm).unwrap().info;
    let sp = info.stack.bytes.len() - info.functions[0].size;
    put(&mut info.stack.bytes, sp, 10);
    let here = EvaluationContext::new(&info, sp as u32);
    assert_eq!(
        here.evaluate_unsigned(&vec![0x91, 8]).err(),
        Some(DebugError::FrameBaseMissing)
    );
}

#[test]
fn values_must_be_numbers() {
    let d = paused();
    let sp = (d.info.stack.bytes.len() - 20) as u32;
    let here = EvaluationContext::new(&d.info, sp);
    // bytes are no number
    assert_eq!(here.evaluate_unsigned(&vec![0x9e, 1, 7]).err(), Some(DebugError::NoValue));
    assert_eq!(here.evaluate_signed(&vec![0x9e, 1, 7]).err(), Some(DebugError::NoValue));
}

#[test]
fn memories_have_a_limit() {
    assert!(parse_debug_info(&program_with(16, debug_sections())).is_ok());
    assert_eq!(
        parse_debug_info(&program_with(4097, debug_sections())).err(),
        Some(DebugError::OutOfRange)
    );
    assert_eq!(
        instrument_wasm(&program_with(4097, debug_sections())).err(),
        Some(DebugError::OutOfRange)
    );
}

#[test]
fn formatters_refuse_other_values() {
    let d = paused();
    let p = local(&d, "p");
    assert_eq!(ScalarFormatter.display(&p, d.memory()).err(), Some(DebugError::NotScalar));
    let n = local(&d, "n");
    assert_eq!(StructureFormatter.display(&n).err(), Some(DebugError::NotStructure));
    assert_eq!(StructureFormatter.num_children(&n).err(), Some(DebugError::NoMembersToCount));
    assert_eq!(
        StructureFormatter.named_children(&n, d.memory(), 0..1).err(),
        Some(DebugError::NoMembersToList)
    );
    assert_eq!(
        StdVectorFormatter.indexed_children(&p, d.memory(), 0..1).err(),
        Some(DebugError::ChildMissing(Child::Begin))
    );
    assert_eq!(
        StdMapFormatter.num_children(&p, d.memory()).err(),
        Some(DebugError::ChildMissing(Child::Tree))
    );
    assert!(ScalarFormatter.matches(local(&d, "reg").ty()));
    assert!(!StdVectorFormatter.matches(p.ty()));
}

// ---------------------------------------------------------------------------
// The protocol
// ---------------------------------------------------------------------------

fn ask(state: &mut DapState, seq: i64, command: &str, arguments: Option<Json>) -> Reply {
    let command = command.to_string();
    state.send_message(ProtocolMessage::Request { seq, command, arguments }).unwrap()
}

fn body(reply: Reply) -> Json {
    match reply.response {
        ProtocolMessage::Response { success: true, body, .. } => body.unwrap_or(Json::Null),
        other => panic!("{other:?}"),
    }
}

fn failure(reply: Reply) -> String {
    match reply.response {
        ProtocolMessage::Response { success: false, message, body: None, .. } => message.unwrap(),
        other => panic!("{other:?}"),
    }
}

fn object(members: Vec<(&str, Json)>) -> Json {
    Json::Object(members.into_iter().map(|(n, v)| (n.to_string(), v)).collect())
}

fn items(json: &Json, name: &str) -> Vec<String> {
    match json.get(name) {
        Some(Json::List(v)) => v.iter().map(|x| format!("{x:?}")).collect(),
        other => panic!("{other:?}"),
    }
}

fn attached() -> DapState {
    let mut state = DapState::new();
    state.attach();
    let event = state.worker_event(WorkerEvent::Debug(paused().info));
    assert!(event.is_none());
    state
}

#[test]
fn the_client_is_told_when_to_configure() {
    let mut state = attached();
    let reply = ask(&mut state, 1, "initialize", None);
    match &reply.response {
        ProtocolMessage::Response { seq, request_seq, success, command, .. } => {
            assert_eq!((*seq, *request_seq, *success), (1, 1, true));
            assert_eq!(command, "initialize");
        }
        other => panic!("{other:?}"),
    }
    match &reply.event {
        Some(ProtocolMessage::Event { seq, event, body: None }) => {
            assert_eq!(*seq, 2);
            assert_eq!(event, "initialized");
        }
        other => panic!("{other:?}"),
    }
    let body = body(reply);
    assert!(matches!(body.get("supportsConfigurationDoneRequest"), Some(Json::Bool(true))));
    // only once for each program
    assert!(ask(&mut state, 2, "initialize", None).event.is_none());
    state.attach();
    match state.worker_event(WorkerEvent::Debug(paused().info)) {
        Some(ProtocolMessage::Event { event, .. }) => assert_eq!(event, "initialized"),
        other => panic!("{other:?}"),
    }
}

#[test]
fn readiness_is_told_once_for_a_program() {
    let mut state = DapState::new();
    assert!(state.try_emit_initialized().is_none());
    assert!(ask(&mut state, 1, "initialize", None).event.is_none());
    assert!(state.try_emit_initialized().is_none());
    state.attach();
    assert!(state.worker_event(WorkerEvent::Debug(paused().info)).is_some());
    assert!(state.try_emit_initialized().is_none());
}

#[test]
fn pauses_and_ends_are_told() {
    let mut state = attached();
    match state.worker_event(WorkerEvent::Paused(PauseReason::Step)) {
        Some(ProtocolMessage::Event { seq, event, body: Some(body) }) => {
            assert_eq!(seq, 1);
            assert_eq!(event, "stopped");
            assert_eq!(body.get("reason").unwrap().as_str(), Some(&"step".to_string()));
            assert_eq!(body.get("threadId").unwrap().as_i64(), Some(1));
        }
        other => panic!("{other:?}"),
    }
    match state.worker_event(WorkerEvent::Stop) {
        Some(ProtocolMessage::Event { seq, event, .. }) => {
            assert_eq!((seq, event.as_str()), (2, "terminated"));
        }
        other => panic!("{other:?}"),
    }
    assert!(state.worker_event(WorkerEvent::Other).is_none());
}

#[test]
fn only_requests_are_answered() {
    let mut state = DapState::new();
    let event = ProtocolMessage::Event { seq: 1, event: "x".to_string(), body: None };
    assert!(state.send_message(event).is_none());
}

#[test]
fn requests_fail_without_a_program() {
    let mut state = DapState::new();
    assert_eq!(failure(ask(&mut state, 1, "stackTrace", None)), "No debugger attached");
    assert_eq!(failure(ask(&mut state, 2, "setBreakpoints", None)), "No debugger attached");
    assert_eq!(
        failure(ask(&mut state, 3, "configurationDone", None)),
        "configurationDone: debugger not ready"
    );
    assert_eq!(failure(ask(&mut state, 4, "variables", None)), "Unknown variablesReference");
    assert_eq!(items(&body(ask(&mut state, 5, "threads", None)), "threads").len(), 1);
    assert!(items(&body(ask(&mut state, 6, "setExceptionBreakpoints", None)), "breakpoints").is_empty());
    assert!(matches!(
        body(ask(&mut state, 7, "continue", None)).get("allThreadsContinued"),
        Some(Json::Bool(true))
    ));
}

#[test]
fn breakpoints_are_answered_in_order() {
    let mut state = attached();
    let line = |n: i128| object(vec![("line", Json::Int(n))]);
    let arguments = object(vec![
        ("source", object(vec![("path", Json::Text("/src/main.cpp".to_string()))])),
        ("breakpoints", Json::List(vec![line(4), line(500), object(vec![]), line(3)])),
    ]);
    let body = body(ask(&mut state, 1, "setBreakpoints", Some(arguments)));
    assert_eq!(
        items(&body, "breakpoints"),
        [
            "Object([(\"verified\", Bool(true)), (\"line\", Int(4))])",
            "Object([(\"verified\", Bool(false))])",
            "Object([(\"verified\", Bool(true)), (\"line\", Int(3))])",
        ]
    );
}

#[test]
fn frames_scopes_and_variables_are_told() {
    let mut state = attached();
    let stack = body(ask(&mut state, 1, "stackTrace", None));
    assert_eq!(stack.get("totalFrames").unwrap().as_i64(), Some(1));
    assert_eq!(
        items(&stack, "stackFrames"),
        ["Object([(\"id\", Int(0)), (\"name\", Text(\"app::main\")), (\"line\", Int(4)), (\"column\", Int(7)), (\"source\", Object([(\"path\", Text(\"/src/main.cpp\"))]))])"]
    );
    let scopes = body(ask(&mut state, 2, "scopes", Some(object(vec![("frameId", Json::Int(0))]))));
    assert_eq!(
        items(&scopes, "scopes"),
        [
            "Object([(\"name\", Text(\"Arguments\")), (\"variablesReference\", Int(1)), (\"expensive\", Bool(false))])",
            "Object([(\"name\", Text(\"Locals\")), (\"variablesReference\", Int(2)), (\"expensive\", Bool(false))])",
        ]
    );
    let missing = object(vec![("frameId", Json::Int(9))]);
    assert_eq!(
        failure(ask(&mut state, 8, "scopes", Some(missing))),
        "Could not find frame offset for frame 9",
    );
    let arguments = object(vec![("variablesReference", Json::Int(1))]);
    let told = body(ask(&mut state, 3, "variables", Some(arguments)));
    assert_eq!(
        items(&told, "variables"),
        ["Object([(\"name\", Text(\"argc\")), (\"value\", Text(\"3\")), (\"type\", Text(\"int\")), (\"variablesReference\", Int(0)), (\"memoryReference\", Text(\"0x3f0\")), (\"presentationHint\", Object([(\"byteSize\", Int(4))]))])"]
    );
    let locals = object(vec![("variablesReference", Json::Int(2))]);
    let told = items(&body(ask(&mut state, 4, "variables", Some(locals))), "variables");
    assert_eq!(told.len(), 12);
    assert!(told[0].contains("Text(\"@0x3f8\")") && told[0].contains("(\"variablesReference\", Int(3))"));
    let point = object(vec![("variablesReference", Json::Int(3))]);
    let told = items(&body(ask(&mut state, 5, "variables", Some(point))), "variables");
    assert_eq!(told.len(), 2);
    assert!(told[1].contains("Text(\"42\")"));
    // going on gives the handles up
    body(ask(&mut state, 6, "next", None));
    let gone = object(vec![("variablesReference", Json::Int(3))]);
    assert_eq!(failure(ask(&mut state, 7, "variables", Some(gone))), "Unknown variablesReference");
}

#[test]
fn the_adapter_follows_the_program() {
    let mut state = attached();
    assert_eq!(state.breakpoints().unwrap().len(), 11);
    let info = paused_at(2).info;
    state.load(info.breakpoints, info.memory.bytes, info.stack.bytes);
    let stack = body(ask(&mut state, 1, "stackTrace", None));
    assert!(items(&stack, "stackFrames")[0].contains("(\"line\", Int(9))"));
    body(ask(&mut state, 2, "stepIn", None));
    assert_eq!(&state.breakpoints().unwrap()[..8], &[0, 0, 0, 0, 1, 0, 0, 0]);
    let mut empty = DapState::new();
    empty.load(vec![1], vec![], vec![]);
    assert!(empty.breakpoints().is_none());
}

#[test]
fn handles_are_never_used_again() {
    let d = paused();
    let mut vars = VariablesMap::new();
    let first = vars.allocate(vec![local(&d, "p")]);
    let second = vars.allocate(vec![]);
    assert_eq!((first, second), (1, 2));
    assert_eq!(vars.get(1).unwrap()[0].name(), "p");
    assert!(vars.get(0).is_none());
    assert!(vars.get(3).is_none());
    vars.clear();
    assert!(vars.get(1).is_none());
    let third = vars.allocate(vec![local(&d, "v")]);
    assert!(third > second);
    assert!(vars.get(first).is_none());
}

// ---------------------------------------------------------------------------
// The host
// ---------------------------------------------------------------------------

fn host() -> DebugHost {
    let slot = |offset, location| FrameSlot { offset, location, lifetime: vec![0] };
    let mut info = HostInfo {
        functions: vec![
            HostFunction { address: 0, size: 8, layout: vec![], name: "other".to_string() },
            HostFunction {
                address: 2,
                size: 20,
                layout: vec![
                    slot(4, WasmLocation::Global(0)),
                    slot(12, WasmLocation::Local(1)),
                ],
                name: "main".to_string(),
            },
        ],
        breakpoints: vec![0; 24],
        memory: paused().info.memory.bytes,
        stack: vec![0; 100],
        dwarf: Dwarf::from_wasm(&program()).unwrap(),
    };
    // a frame of `main`, called from `other`
    put(&mut info.breakpoints, 12, 72);
    put(&mut info.stack, 72, 1);
    put(&mut info.stack, 76, 1000);
    put(&mut info.stack, 84, 7);
    put(&mut info.stack, 92, 0);
    DebugHost::new(info)
}

#[test]
fn the_host_sees_the_call_stack() {
    let frames = host().get_frames();
    let seen: Vec<_> = frames.iter().map(|f| (f.name.as_str(), f.function)).collect();
    assert_eq!(seen, [("main", 1), ("other", 0)]);
    let mut running = host();
    put(&mut running.info.breakpoints, 12, 0);
    assert!(running.get_frames().is_empty());
    assert!(running.get_variables_for_frame(0).is_empty());
}

#[test]
fn the_host_reads_variables() {
    let vars = host().get_variables_for_frame(0);
    let told: Vec<String> = vars
        .iter()
        .map(|v| {
            let value = match &v.value {
                HostValue::Text(t) => t.clone(),
                HostValue::F32(b) => f32::from_bits(*b).to_string(),
                HostValue::F64(b) => f64::from_bits(*b).to_string(),
            };
            format!("{} {} {}", v.ty, v.name, value)
        })
        .collect();
    assert!(told.contains(&"int argc 3".to_string()));
    assert!(told.contains(&"int reg 7".to_string()));
    assert!(told.contains(&"double d 2.5".to_string()));
    assert!(told.contains(&"int* ip 0x000003fc".to_string()));
    assert!(host().get_variables_for_frame(7).is_empty());
    // numbers are shown by their encoding
    let mut negative = host();
    put(&mut negative.info.memory, 1008, -3i32 as u32);
    let argc = &negative.get_variables_for_frame(0)[0];
    assert_eq!(argc.name, "argc");
    assert!(matches!(&argc.value, HostValue::Text(t) if t == "-3"));
}

#[test]
fn the_host_lists_lines() {
    let mut sections = Sections::new();
    for (name, data) in debug_sections() {
        sections.insert(name, data);
    }
    let lines = parse_lines(&sections).unwrap();
    assert_eq!(lines.files, vec!["/src/main.cpp".to_string(), "inc/util.h".to_string()]);
    let line = |file, line, col, address| LocationInfo { file, line, col, address };
    assert_eq!(
        lines.locations,
        vec![line(0, 3, 5, 5), line(0, 4, 7, 10), line(1, 9, 1, 14), line(1, 9, 1, 17)]
    );
    sections.insert(".debug_info".to_string(), vec![1, 2, 3]);
    assert_eq!(parse_lines(&sections).err(), Some(DebugError::Malformed));
    assert!(parse_lines(&Sections::new()).unwrap().files.is_empty());
}

#[test]
fn file_names_stand_behind_their_directories() {
    let file = |directory: Option<Option<&str>>, name: Option<&str>| FileEntry {
        directory_index: 0,
        directory: directory.map(|d| d.map(|d| d.to_string())),
        name: name.map(|n| n.to_string()),
    };
    let named = |f| build_filename(&f).unwrap();
    assert_eq!(named(file(None, Some("a.c"))), "a.c");
    assert_eq!(named(file(Some(Some("")), Some("a.c"))), "a.c");
    assert_eq!(named(file(Some(Some(".")), Some("a.c"))), "a.c");
    assert_eq!(named(file(Some(Some("d")), Some("a.c"))), "d/a.c");
    assert_eq!(named(file(Some(Some("d/")), Some("a.c"))), "d/a.c");
    assert_eq!(build_filename(&file(Some(None), Some("a.c"))), None);
    assert_eq!(build_filename(&file(None, None)), None);
    let path = |comp_dir: Option<&str>, f| render_file_path(&comp_dir.map(|d| d.to_string()), &f);
    assert_eq!(path(Some("/src"), file(Some(Some("x")), Some("a.c"))), Some("/src/a.c".to_string()));
    let below = FileEntry { directory_index: 1, ..file(Some(Some("x")), Some("a.c")) };
    assert_eq!(path(Some("/src"), below), Some("/src/x/a.c".to_string()));
}

#[test]
fn host_values_are_shown() {
    let mut bytes = vec![0u8; 16];
    put(&mut bytes, 0, -5i32 as u32);
    put(&mut bytes, 8, 5);
    put(&mut bytes, 12, 1);
    let told = |v| match v {
        HostValue::Text(t) => t,
        HostValue::F32(b) => format!("f32 {b}"),
        HostValue::F64(b) => format!("f64 {b}"),
    };
    assert_eq!(told(format_value(&bytes, 0, ValueKind::I32, TypeKind::Signed)), "-5");
    assert_eq!(told(format_value(&bytes, 0, ValueKind::I32, TypeKind::Unsigned)), "4294967291");
    assert_eq!(told(format_value(&bytes, 0, ValueKind::I32, TypeKind::Bool)), "true");
    assert_eq!(told(format_value(&bytes, 8, ValueKind::I32, TypeKind::Pointer)), "0x00000005");
    assert_eq!(told(format_value(&bytes, 8, ValueKind::I64, TypeKind::Unsigned)), "4294967301");
    assert_eq!(told(format_value(&bytes, 8, ValueKind::F32, TypeKind::Float)), "f32 5");
    put(&mut bytes, 0, 0x8000_0000);
    assert_eq!(told(format_value(&bytes, 0, ValueKind::I64, TypeKind::Unsigned)), "2147483648");
    assert_eq!(told(format_value(&bytes, 0, ValueKind::I64, TypeKind::Signed)), "2147483648");
    put(&mut bytes, 4, 0xffff_ffff);
    assert_eq!(told(format_value(&bytes, 0, ValueKind::I64, TypeKind::Signed)), "-2147483648");
    assert_eq!(c_val_type(TypeKind::Float, 4), ValueKind::F32);
    assert_eq!(c_val_type(TypeKind::Float, 8), ValueKind::F64);
    assert_eq!(c_val_type(TypeKind::Pointer, 8), ValueKind::I32);
    assert_eq!(c_val_type(TypeKind::Signed, 2), ValueKind::I32);
    assert_eq!(c_val_type(TypeKind::Other, 8), ValueKind::I64);
}

#[test]
fn host_locations_are_decoded() {
    let encoding = UnitEncoding { address_size: 4, version: 5, wide: false };
    let loc = |bytes: &[u8]| wasm_loc_from_expr(&bytes.to_vec(), encoding);
    assert_eq!(loc(&[0xed, 0, 3]), Some(VarLoc::Wasm(WasmLocation::Local(3))));
    assert_eq!(loc(&[0xed, 1, 2]), Some(VarLoc::Wasm(WasmLocation::Global(2))));
    assert_eq!(
        loc(&[0xed, 1, 2, 0x23, 16]),
        Some(VarLoc::GlobalPlusOffset { global_idx: 2, offset: 16 })
    );
    assert_eq!(loc(&[0xed, 2, 1]), Some(VarLoc::Wasm(WasmLocation::Operand(1))));
    assert_eq!(loc(&[0x91, 0x78]), Some(VarLoc::FrameRelative(-8)));
    assert_eq!(loc(&[0x23, 8]), Some(VarLoc::FrameRelative(8)));
    assert_eq!(loc(&[0x35]), None);
    assert_eq!(loc(&[]), None);
    assert_eq!(
        operations(&vec![0xed, 0, 3, 0x9f], encoding),
        Ok(vec![ExprOp::WasmLocal(3), ExprOp::Other])
    );
}
