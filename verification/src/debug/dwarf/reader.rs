//! Reading DWARF through `gimli`.
//!
//! Everything here that is marked as trusted is a thin call into `gimli`; what
//! it hands back is named, and the rest of the crate is verified against the
//! names. The readers hold types of `gimli` that are generic over its own
//! traits, and so they are kept in private fields.
use std::rc::Rc;

use gimli::AttributeValue::{Data1, Data2, Data4, Data8};
use gimli::{AttributeValue, EndianRcSlice, Format, LineInstruction, LittleEndian, Reader, Section};
use vstd::prelude::*;

use crate::bytes::{le_value, low_bytes_come_first, read_le, read_window};
use super::entry::{AttrModel, AttrValue, EntryModel, LocationRange, RangeModel, text_of};
use super::sections::{Sections, dwarf_sections};

verus! {

broadcast use vstd::seq_lib::group_seq_properties;

// ---------------------------------------------------------------------------
// What a unit holds
// ---------------------------------------------------------------------------

/// How the numbers of a unit are encoded.
#[derive(Debug, Clone, Copy, PartialEq, Eq, Structural)]
pub struct UnitEncoding {
    pub address_size: u8,
    pub version: u16,
    /// Whether offsets take eight bytes.
    pub wide: bool,
}

/// A row of the line table.
#[derive(Debug, Clone, Copy, PartialEq, Eq, Structural)]
pub struct LineRow {
    pub address: u64,
    pub file_index: u64,
    /// The line, 0 where the address belongs to none.
    pub line: u64,
    /// The column, 0 for the left edge of the line.
    pub column: u64,
    pub is_stmt: bool,
}

/// A file of the line table. A text is missing where it cannot be read.
#[derive(Debug)]
pub struct FileEntry {
    pub directory_index: u64,
    /// The directory, where the table has it.
    pub directory: Option<Option<String>>,
    pub name: Option<String>,
}

/// The mathematical value of a [`FileEntry`].
pub struct FileModel {
    pub directory_index: u64,
    pub directory: Option<Option<Seq<char>>>,
    pub name: Option<Seq<char>>,
}

impl View for FileEntry {
    type V = FileModel;

    open spec fn view(&self) -> FileModel {
        FileModel {
            directory_index: self.directory_index,
            directory: match self.directory {
                Some(d) => Some(text_of(d)),
                None => None,
            },
            name: text_of(self.name),
        }
    }
}

/// What the line table says of a file itself.
#[derive(Debug)]
struct ListedFile {
    directory_index: u64,
    name: Option<String>,
}

/// The mathematical value of a [`ListedFile`].
pub struct ListedModel {
    pub directory_index: u64,
    pub name: Option<Seq<char>>,
}

impl View for ListedFile {
    type V = ListedModel;

    closed spec fn view(&self) -> ListedModel {
        ListedModel { directory_index: self.directory_index, name: text_of(self.name) }
    }
}

/// What the head of a unit says.
#[derive(Debug)]
pub struct UnitHead {
    /// The offset of the unit in its section.
    pub offset: usize,
    pub encoding: UnitEncoding,
    /// The directory that the unit was compiled in.
    pub comp_dir: Option<String>,
    /// Whether the unit has a line table.
    pub has_lines: bool,
    /// Where the unit's location lists are numbered from.
    pub lists_base: usize,
}

/// A unit as `gimli` reads it. `None` in a list stands for what cannot be
/// read; nothing follows it.
pub struct UnitModel {
    pub offset: usize,
    pub encoding: UnitEncoding,
    pub comp_dir: Option<Seq<char>>,
    pub has_lines: bool,
    /// Where the location lists are numbered from, in the section that holds
    /// the lists.
    pub lists_base: usize,
    pub lists: Seq<u8>,
    pub entries: Seq<Option<EntryModel>>,
    /// The instructions of the line program up to the first that cannot be
    /// read: by how much one advances the line, `None` where it says something
    /// else.
    pub advances: Seq<Option<i64>>,
    pub rows: Seq<Option<LineRow>>,
    /// The files of the line table. No list is longer than a `usize` can
    /// tell, and nothing is said of what lies beyond.
    pub files: Map<u64, ListedModel>,
    /// The directories of the line table, with the same bound.
    pub directories: Map<u64, Option<Seq<char>>>,
}

/// The directory that the line table of a unit lists under `index`.
pub open spec fn directory_at(m: UnitModel, index: u64) -> Option<Option<Seq<char>>> {
    if index <= usize::MAX && m.directories.contains_key(index) {
        Some(m.directories[index])
    } else {
        None
    }
}

/// The file that the line table of a unit lists under `index`.
pub open spec fn file_at(m: UnitModel, index: u64) -> Option<FileModel> {
    if index <= usize::MAX && m.files.contains_key(index) {
        let file = m.files[index];
        Some(
            FileModel {
                directory_index: file.directory_index,
                directory: directory_at(m, file.directory_index),
                name: file.name,
            },
        )
    } else {
        None
    }
}

/// Whether a line program can be run. `gimli` takes lines back by the negated
/// advance, which the least of all advances does not have.
pub open spec fn can_be_run(advances: Seq<Option<i64>>) -> bool {
    forall|i: int| 0 <= i < advances.len() ==> #[trigger] advances[i] != Some(i64::MIN)
}

/// The offset that stands under the number `index` in a section of location
/// lists that are numbered from `base`, where the section has one there.
pub open spec fn list_offset(lists: Seq<u8>, base: usize, wide: bool, index: usize) -> Option<nat> {
    let word: int = if wide {
        8
    } else {
        4
    };
    let at = base + index * word;
    if at + word <= lists.len() {
        Some(le_value(lists.subrange(at, at + word)))
    } else {
        None
    }
}

/// Whether the place of a location list can be told from its number: `gimli`
/// adds the offset that it finds to the base. Nothing is asked where there is
/// no number.
pub open spec fn list_fits(lists: Seq<u8>, base: usize, wide: bool, index: Option<usize>) -> bool {
    match index {
        Some(index) => match list_offset(lists, base, wide, index) {
            Some(offset) => base + offset <= usize::MAX,
            None => true,
        },
        None => true,
    }
}

/// Whether the place of a unit's location list can be told from its number.
pub open spec fn unit_list_fits(m: UnitModel, index: Option<usize>) -> bool {
    list_fits(m.lists, m.lists_base, m.encoding.wide, index)
}

/// Whether the place of a location list can be told from its number.
pub fn can_be_found(lists: &Vec<u8>, base: usize, wide: bool, index: Option<usize>) -> (r: bool)
    ensures
        r == list_fits(lists@, base, wide, index),
{
    let index: usize = match index {
        Some(index) => index,
        None => {
            return true;
        },
    };
    let word: usize = if wide {
        8
    } else {
        4
    };
    assert(0 <= index * word <= usize::MAX * 8) by (nonlinear_arith)
        requires
            index <= usize::MAX,
            word <= 8,
    ;
    let at: u128 = base as u128 + index as u128 * word as u128;
    if at + word as u128 > lists.len() as u128 {
        return true;
    }
    let bytes = read_window(lists, at as usize, word);
    assert(bytes@ =~= lists@.subrange(at as int, at + word));
    let offset: u64 = read_le(&bytes);
    base as u128 + offset as u128 <= usize::MAX as u128
}

// ---------------------------------------------------------------------------
// Units
// ---------------------------------------------------------------------------

/// The units of a program's debug information, read one by one.
///
/// Holds `gimli::Dwarf`, the section of its numbered location lists, and the
/// iterator over its unit headers.
#[verifier::external_body]
pub struct SectionReader {
    dwarf: Rc<gimli::Dwarf<EndianRcSlice<LittleEndian>>>,
    lists: gimli::DebugLocLists<EndianRcSlice<LittleEndian>>,
    units: gimli::DebugInfoUnitHeadersIter<EndianRcSlice<LittleEndian>>,
}

/// One unit, with the sections that it refers to.
///
/// Holds `gimli::Unit` and what it was read from.
#[verifier::external_body]
pub struct UnitReader {
    dwarf: Rc<gimli::Dwarf<EndianRcSlice<LittleEndian>>>,
    lists: gimli::DebugLocLists<EndianRcSlice<LittleEndian>>,
    unit: gimli::Unit<EndianRcSlice<LittleEndian>>,
}

/// The units that `gimli` reads from debug sections, `None` for one that
/// cannot be read.
pub uninterp spec fn units_of(sections: Map<Seq<char>, Seq<u8>>) -> Seq<Option<UnitModel>>;

/// The units that a reader has not handed out yet.
pub uninterp spec fn units_left(reader: SectionReader) -> Seq<Option<UnitModel>>;

/// What a unit holds.
pub uninterp spec fn unit_model(unit: UnitReader) -> UnitModel;

/// `gimli::Dwarf::load` and `Dwarf::units`: the units of the debug sections;
/// and `gimli::DebugLocLists::load` of one section alone.
/// `load` asks for each of its sections by name and takes a section that is
/// not there for an empty one; it reads no other section.
#[verifier::external_body]
pub(crate) fn open_sections(sections: &Sections) -> (r: SectionReader)
    ensures
        units_left(r) == units_of(dwarf_sections(sections@)),
{
    let load = |id: gimli::SectionId| -> Result<_, core::convert::Infallible> {
        Ok(EndianRcSlice::new(Rc::from(sections.contents(id.name())), LittleEndian))
    };
    let lists = gimli::DebugLocLists::load(&load).unwrap();
    let dwarf = Rc::new(gimli::Dwarf::load(load).unwrap());
    let units = dwarf.units();
    SectionReader { dwarf, lists, units }
}

/// `DebugInfoUnitHeadersIter::next` and `gimli::Dwarf::unit`: the next unit.
#[verifier::external_body]
pub(crate) fn next_unit(reader: &mut SectionReader) -> (r: Option<Result<UnitReader, ()>>)
    ensures
        match r {
            None => units_left(*old(reader)).len() == 0,
            Some(Ok(unit)) => {
                &&& units_left(*old(reader)).len() > 0
                &&& units_left(*old(reader))[0] == Some(unit_model(unit))
                &&& units_left(*final(reader)) == units_left(*old(reader)).skip(1)
            },
            Some(Err(_)) => {
                &&& units_left(*old(reader)).len() > 0
                &&& units_left(*old(reader))[0] is None
                &&& units_left(*final(reader)) == units_left(*old(reader)).skip(1)
            },
        },
{
    let header = match reader.units.next().transpose()? {
        Ok(header) => header,
        Err(_) => return Some(Err(())),
    };
    let dwarf = reader.dwarf.clone();
    let lists = reader.lists.clone();
    match dwarf.unit(header) {
        Ok(unit) => Some(Ok(UnitReader { dwarf, lists, unit })),
        Err(_) => Some(Err(())),
    }
}

/// The head of a `gimli::Unit`: `UnitHeader::debug_info_offset`,
/// `UnitHeader::encoding`, the compilation directory, whether there is a line
/// program, and `Unit::loclists_base`. A unit read from `.debug_info` always has
/// an offset there.
#[verifier::external_body]
pub(crate) fn unit_head(reader: &UnitReader) -> (r: UnitHead)
    ensures
        unit_model(*reader).offset == r.offset,
        unit_model(*reader).encoding == r.encoding,
        unit_model(*reader).comp_dir == text_of(r.comp_dir),
        unit_model(*reader).has_lines == r.has_lines,
        unit_model(*reader).lists_base == r.lists_base,
{
    let unit = &reader.unit;
    let encoding = unit.encoding();
    UnitHead {
        offset: unit.debug_info_offset().map(|o| o.0).unwrap_or_default(),
        encoding: UnitEncoding {
            address_size: encoding.address_size,
            version: encoding.version,
            wide: encoding.format == Format::Dwarf64,
        },
        comp_dir: unit.comp_dir.as_ref().map(|d| d.to_string_lossy().unwrap().into_owned()),
        has_lines: unit.line_program.is_some(),
        lists_base: unit.loclists_base.0,
    }
}

/// The bytes of `.debug_loclists`, which `gimli::DebugLocLists` keeps: the
/// section that `gimli::LocationLists::get_offset` looks numbers up in.
#[verifier::external_body]
pub(crate) fn unit_lists(reader: &UnitReader) -> (r: Vec<u8>)
    ensures
        r@ == unit_model(*reader).lists,
{
    reader.lists.reader().bytes().to_vec()
}

// ---------------------------------------------------------------------------
// Entries
// ---------------------------------------------------------------------------

/// The entries of a unit in depth-first order, read one by one.
///
/// Holds `gimli::EntriesCursor` and the unit that it walks.
#[verifier::external_body]
pub struct EntryCursor<'a> {
    reader: &'a UnitReader,
    cursor: gimli::EntriesCursor<'a, EndianRcSlice<LittleEndian>>,
}

/// The entries that a cursor has not reached yet.
pub uninterp spec fn entries_left(cursor: EntryCursor) -> Seq<Option<EntryModel>>;

/// The attributes of the entry that a cursor stands on.
pub uninterp spec fn current_attrs(cursor: EntryCursor) -> Seq<AttrModel>;

/// The unit whose entries a cursor walks.
pub uninterp spec fn cursor_unit(cursor: EntryCursor) -> UnitModel;

/// The offset, depth and tag of an entry.
pub struct EntryHead {
    pub offset: usize,
    pub depth: isize,
    pub tag: u16,
}

/// `gimli::Unit::entries`: a cursor before the first entry.
#[verifier::external_body]
pub(crate) fn entry_cursor<'a>(reader: &'a UnitReader) -> (r: EntryCursor<'a>)
    ensures
        entries_left(r) == unit_model(*reader).entries,
        cursor_unit(r) == unit_model(*reader),
{
    EntryCursor { reader, cursor: reader.unit.entries() }
}

/// `EntriesCursor::next_dfs`: moves to the next entry.
#[verifier::external_body]
pub(crate) fn next_entry(cursor: &mut EntryCursor) -> (r: Result<Option<EntryHead>, ()>)
    ensures
        cursor_unit(*final(cursor)) == cursor_unit(*old(cursor)),
        match r {
            Ok(Some(head)) => {
                &&& entries_left(*old(cursor)).len() > 0
                &&& entries_left(*old(cursor))[0] == Some(
                    EntryModel {
                        offset: head.offset,
                        depth: head.depth,
                        tag: head.tag,
                        attrs: current_attrs(*final(cursor)),
                    },
                )
                &&& entries_left(*final(cursor)) == entries_left(*old(cursor)).skip(1)
            },
            Ok(None) => entries_left(*old(cursor)).len() == 0,
            Err(_) => entries_left(*old(cursor)).len() > 0 && entries_left(
                *old(cursor),
            )[0] is None,
        },
{
    let entry = cursor.cursor.next_dfs().map_err(|_| ())?;
    Ok(entry.map(|e| EntryHead { offset: e.offset().0, depth: e.depth(), tag: e.tag().0 }))
}

/// `DebuggingInformationEntry::attrs`: how many attributes the entry has that
/// the cursor stands on.
#[verifier::external_body]
pub(crate) fn attr_count(cursor: &EntryCursor) -> (r: usize)
    ensures
        r == current_attrs(*cursor).len(),
{
    cursor.cursor.current().map(|e| e.attrs().len()).unwrap_or_default()
}

/// `Attribute::name` of the attribute at `index`.
#[verifier::external_body]
pub(crate) fn attr_name(cursor: &EntryCursor, index: usize) -> (r: u16)
    requires
        index < current_attrs(*cursor).len(),
    ensures
        r == current_attrs(*cursor)[index as int].name,
{
    cursor.cursor.current().unwrap().attrs()[index].name().0
}

/// `Attribute::value` of the attribute at `index`: the value in the form that
/// the attribute's name calls for.
#[verifier::external_body]
pub(crate) fn attr_form(cursor: &EntryCursor, index: usize) -> (r: AttrValue)
    requires
        index < current_attrs(*cursor).len(),
    ensures
        r@ == current_attrs(*cursor)[index as int].value,
{
    match cursor.cursor.current().unwrap().attrs()[index].value() {
        AttributeValue::Addr(a) => AttrValue::Addr(a),
        Data1(d) => AttrValue::Data(d as u64),
        Data2(d) => AttrValue::Data(d as u64),
        Data4(d) => AttrValue::Data(d as u64),
        Data8(d) => AttrValue::Data(d),
        AttributeValue::Udata(u) => AttrValue::Udata(u),
        AttributeValue::Sdata(s) => AttrValue::Sdata(s),
        AttributeValue::Flag(b) => AttrValue::Flag(b),
        AttributeValue::Encoding(e) => AttrValue::Encoding(e.0),
        AttributeValue::UnitRef(o) => AttrValue::UnitRef(o.0),
        AttributeValue::Exprloc(e) => AttrValue::Exprloc(e.0.bytes().to_vec()),
        _ => AttrValue::Other,
    }
}

/// `gimli::Dwarf::attr_string` of the attribute at `index`, with what is not
/// UTF-8 replaced; none where the attribute is no string.
#[verifier::external_body]
pub(crate) fn attr_string(cursor: &EntryCursor, index: usize) -> (r: Option<String>)
    requires
        index < current_attrs(*cursor).len(),
    ensures
        text_of(r) == current_attrs(*cursor)[index as int].text,
{
    let value = cursor.cursor.current()?.attrs()[index].value();
    let text = cursor.reader.dwarf.attr_string(&cursor.reader.unit, value).ok()?;
    text.to_string_lossy().ok().map(|t| t.into_owned())
}

/// The number of the location list that the attribute at `index` refers to, by
/// `AttributeValue::DebugLocListsIndex`; none where it has another form.
#[verifier::external_body]
pub(crate) fn attr_list(cursor: &EntryCursor, index: usize) -> (r: Option<usize>)
    requires
        index < current_attrs(*cursor).len(),
    ensures
        r == current_attrs(*cursor)[index as int].list,
{
    match cursor.cursor.current()?.attrs()[index].value() {
        AttributeValue::DebugLocListsIndex(list) => Some(list.0),
        _ => None,
    }
}

/// The ranges of a location list, read one by one.
///
/// Holds `gimli::LocListIter`.
#[verifier::external_body]
pub struct LocationCursor {
    ranges: gimli::LocListIter<EndianRcSlice<LittleEndian>>,
}

/// The ranges that a cursor has not reached yet, up to the first that cannot
/// be read.
pub uninterp spec fn ranges_left(cursor: LocationCursor) -> Seq<RangeModel>;

/// `gimli::Dwarf::attr_locations` of the attribute at `index`; none where the
/// attribute is no location list, or one that cannot be found. Of a list that
/// has a number it adds the offset found under the number to the base of the
/// unit, so the sum has to be a `usize`.
#[verifier::external_body]
pub(crate) fn attr_locations(cursor: &EntryCursor, index: usize) -> (r: Option<LocationCursor>)
    requires
        index < current_attrs(*cursor).len(),
        unit_list_fits(cursor_unit(*cursor), current_attrs(*cursor)[index as int].list),
    ensures
        match r {
            Some(ranges) => current_attrs(*cursor)[index as int].locations == Some(
                ranges_left(ranges),
            ),
            None => current_attrs(*cursor)[index as int].locations is None,
        },
{
    let value = cursor.cursor.current()?.attrs()[index].value();
    let ranges = cursor.reader.dwarf.attr_locations(&cursor.reader.unit, value).ok()??;
    Some(LocationCursor { ranges })
}

/// `LocListIter::next`: the next range; none at the end of the list and where
/// the next range cannot be read.
#[verifier::external_body]
pub(crate) fn next_range(cursor: &mut LocationCursor) -> (r: Option<LocationRange>)
    ensures
        match r {
            Some(range) => {
                &&& ranges_left(*old(cursor)).len() > 0
                &&& ranges_left(*old(cursor))[0] == range@
                &&& ranges_left(*final(cursor)) == ranges_left(*old(cursor)).skip(1)
            },
            None => ranges_left(*old(cursor)).len() == 0,
        },
{
    let entry = cursor.ranges.next().ok()??;
    let expr = entry.data.0.bytes().to_vec();
    Some(LocationRange { begin: entry.range.begin, end: entry.range.end, expr })
}

// ---------------------------------------------------------------------------
// Lines
// ---------------------------------------------------------------------------

/// The instructions of a line program, read one by one.
///
/// Holds `gimli::IncompleteLineProgram` and `gimli::LineInstructions` of it.
#[verifier::external_body]
pub struct AdvanceCursor {
    program: gimli::IncompleteLineProgram<EndianRcSlice<LittleEndian>>,
    instructions: gimli::LineInstructions<EndianRcSlice<LittleEndian>>,
}

/// The instructions that a cursor has not reached yet, up to the first that
/// cannot be read.
pub uninterp spec fn advances_left(cursor: AdvanceCursor) -> Seq<Option<i64>>;

/// `LineProgramHeader::instructions` of the unit's line program; none where the
/// unit has no line program.
#[verifier::external_body]
fn advance_cursor(reader: &UnitReader) -> (r: Option<AdvanceCursor>)
    ensures
        r is Some <==> unit_model(*reader).has_lines,
        r is Some ==> advances_left(r->0) == unit_model(*reader).advances,
{
    let program = reader.unit.line_program.clone()?;
    let instructions = program.header().instructions();
    Some(AdvanceCursor { program, instructions })
}

/// `LineInstructions::next_instruction`: by how much the next instruction
/// advances the line, where it is a `LineInstruction::AdvanceLine`; none at the
/// end of the program and where the next instruction cannot be read.
#[verifier::external_body]
fn next_advance(cursor: &mut AdvanceCursor) -> (r: Option<Option<i64>>)
    ensures
        match r {
            Some(advance) => {
                &&& advances_left(*old(cursor)).len() > 0
                &&& advances_left(*old(cursor))[0] == advance
                &&& advances_left(*final(cursor)) == advances_left(*old(cursor)).skip(1)
            },
            None => advances_left(*old(cursor)).len() == 0,
        },
{
    match cursor.instructions.next_instruction(cursor.program.header()).ok()?? {
        LineInstruction::AdvanceLine(lines) => Some(Some(lines)),
        _ => Some(None),
    }
}

/// Whether the line program of a unit, where it has one, can be run.
pub(crate) fn runs(reader: &UnitReader) -> (r: bool)
    ensures
        r == (unit_model(*reader).has_lines ==> can_be_run(unit_model(*reader).advances)),
{
    let ghost all = unit_model(*reader).advances;
    let mut cursor = match advance_cursor(reader) {
        Some(cursor) => cursor,
        None => {
            return true;
        },
    };
    let ghost mut n: int = 0;
    assert(all.skip(0) =~= all);
    loop
        invariant
            unit_model(*reader).has_lines,
            all == unit_model(*reader).advances,
            0 <= n <= all.len(),
            advances_left(cursor) == all.skip(n),
            forall|i: int| 0 <= i < n ==> #[trigger] all[i] != Some(i64::MIN),
        decreases all.len() - n,
    {
        match next_advance(&mut cursor) {
            Some(advance) => {
                assert(all.skip(n)[0] == all[n]);
                assert(all.skip(n).skip(1) =~= all.skip(n + 1));
                if let Some(lines) = advance {
                    if lines == i64::MIN {
                        return false;
                    }
                }
                proof {
                    n = n + 1;
                }
            },
            None => {
                return true;
            },
        }
    }
}

/// The rows of a line table, read one by one.
///
/// Holds `gimli::LineRows`.
#[verifier::external_body]
pub struct RowCursor {
    rows: gimli::LineRows<
        EndianRcSlice<LittleEndian>,
        gimli::IncompleteLineProgram<EndianRcSlice<LittleEndian>>,
    >,
}

/// The rows that a cursor has not reached yet.
pub uninterp spec fn rows_left(cursor: RowCursor) -> Seq<Option<LineRow>>;

/// The instructions of the line program that a cursor runs.
pub uninterp spec fn cursor_advances(cursor: RowCursor) -> Seq<Option<i64>>;

/// `IncompleteLineProgram::rows` of the unit's line program; none where the
/// unit has no line program. The rows come from the instructions that
/// `LineProgramHeader::instructions` lists.
#[verifier::external_body]
pub(crate) fn row_cursor(reader: &UnitReader) -> (r: Option<RowCursor>)
    requires
        unit_model(*reader).has_lines ==> can_be_run(unit_model(*reader).advances),
    ensures
        r is Some <==> unit_model(*reader).has_lines,
        r is Some ==> rows_left(r->0) == unit_model(*reader).rows,
        r is Some ==> cursor_advances(r->0) == unit_model(*reader).advances,
{
    Some(RowCursor { rows: reader.unit.line_program.clone()?.rows() })
}

/// `LineRows::next_row`: the next row. It runs the line program on, which takes
/// lines back by the negated advance, so no advance may be the least number.
#[verifier::external_body]
pub(crate) fn next_row(cursor: &mut RowCursor) -> (r: Result<Option<LineRow>, ()>)
    requires
        can_be_run(cursor_advances(*old(cursor))),
    ensures
        cursor_advances(*final(cursor)) == cursor_advances(*old(cursor)),
        match r {
            Ok(Some(row)) => {
                &&& rows_left(*old(cursor)).len() > 0
                &&& rows_left(*old(cursor))[0] == Some(row)
                &&& rows_left(*final(cursor)) == rows_left(*old(cursor)).skip(1)
            },
            Ok(None) => rows_left(*old(cursor)).len() == 0,
            Err(_) => rows_left(*old(cursor)).len() > 0 && rows_left(*old(cursor))[0] is None,
        },
{
    let next = cursor.rows.next_row().map_err(|_| ())?;
    Ok(next.map(|(_, row)| LineRow {
        address: row.address(),
        file_index: row.file_index(),
        line: row.line().map(|l| l.get()).unwrap_or_default(),
        column: match row.column() {
            gimli::ColumnType::LeftEdge => 0,
            gimli::ColumnType::Column(c) => c.get(),
        },
        is_stmt: row.is_stmt(),
    }))
}

/// `LineProgramHeader::file` of the unit's line program, with the name as text.
/// It counts with the number as a `usize`, so the number has to be one.
#[verifier::external_body]
fn listed_file(reader: &UnitReader, index: u64) -> (r: Option<ListedFile>)
    requires
        index <= usize::MAX,
    ensures
        match r {
            Some(file) => unit_model(*reader).files.contains_key(index) && unit_model(
                *reader,
            ).files[index] == file@,
            None => !unit_model(*reader).files.contains_key(index),
        },
{
    let file = reader.unit.line_program.as_ref()?.header().file(index)?;
    let text = |v| {
        let text = reader.dwarf.attr_string(&reader.unit, v).ok()?;
        text.to_string_lossy().ok().map(|t| t.into_owned())
    };
    Some(ListedFile { directory_index: file.directory_index(), name: text(file.path_name()) })
}

/// `LineProgramHeader::directory` of the unit's line program, as text. It counts
/// with the number as a `usize`, so the number has to be one.
#[verifier::external_body]
fn listed_directory(reader: &UnitReader, index: u64) -> (r: Option<Option<String>>)
    requires
        index <= usize::MAX,
    ensures
        match r {
            Some(name) => unit_model(*reader).directories.contains_key(index) && unit_model(
                *reader,
            ).directories[index] == text_of(name),
            None => !unit_model(*reader).directories.contains_key(index),
        },
{
    let v = reader.unit.line_program.as_ref()?.header().directory(index)?;
    let text = |v| {
        let text = reader.dwarf.attr_string(&reader.unit, v).ok()?;
        text.to_string_lossy().ok().map(|t| t.into_owned())
    };
    Some(text(v))
}

/// The file that the line table lists under `index`, with its directory.
pub(crate) fn line_file(reader: &UnitReader, index: u64) -> (r: Option<FileEntry>)
    ensures
        match r {
            Some(file) => file_at(unit_model(*reader), index) == Some(file@),
            None => file_at(unit_model(*reader), index) is None,
        },
{
    if index > usize::MAX as u64 {
        return None;
    }
    let file = match listed_file(reader, index) {
        Some(file) => file,
        None => {
            return None;
        },
    };
    let directory = if file.directory_index > usize::MAX as u64 {
        None
    } else {
        listed_directory(reader, file.directory_index)
    };
    Some(FileEntry { directory_index: file.directory_index, directory, name: file.name })
}

/// The place of a location list is told from its number by the offset that stands there
/// in the table of the lists: four bytes each, or eight where offsets are wide. It can
/// be told unless base and offset do not fit together.
pub proof fn lists_are_found_by_number(lists: Seq<u8>, base: usize, index: usize)
    requires
        base + 4 * index + 4 <= lists.len(),
    ensures
        ({
            let at = base + 4 * index;
            let offset = lists[at] + 0x100 * lists[at + 1] + 0x1_0000 * lists[at + 2] + 0x100_0000
                * lists[at + 3];
            &&& list_offset(lists, base, false, index) == Some(offset as nat)
            &&& list_fits(lists, base, false, Some(index)) <==> base + offset <= usize::MAX
        }),
        list_fits(lists, base, false, None),
        base + 8 * index + 8 <= lists.len() ==> list_offset(lists, base, true, index) == Some(
            le_value(lists.subrange(base + 8 * index, base + 8 * index + 8)),
        ),
{
    let at = base + 4 * index;
    assert(base + index * 4 == at);
    low_bytes_come_first(lists.subrange(at, at + 4));
    assert(index * 8 == 8 * index);
}

} // verus!
