//! Compilation units.
use vstd::prelude::*;

use crate::path::{join_path, path_join};
use crate::seqs::{all_readable, readable, readable_is_whole};
use crate::text::{own, texts};
use crate::types::CodeOffset;
use super::entry::{Attr, AttrModel, DieEntry, EntryModel, LocationRange, attrs_of, entries_of,
    ranges_of, text_of};
use super::reader::{EntryCursor, FileEntry, FileModel, LineRow, LocationCursor, UnitEncoding,
    UnitHead, UnitModel, UnitReader, attr_count, attr_form, attr_list, attr_locations, attr_name,
    attr_string, can_be_found, can_be_run, current_attrs, cursor_advances, cursor_unit, entries_left,
    entry_cursor, file_at, line_file, next_entry, next_range, next_row, ranges_left, row_cursor,
    rows_left, runs, unit_head, unit_list_fits, unit_lists, unit_model};

verus! {

broadcast use vstd::seq_lib::group_seq_properties;

/// A unit's place among all units.
#[derive(Debug, Clone, Copy, PartialEq, Eq, Structural)]
pub struct UnitProperties {
    /// The index of this unit among all units in the dwarf output
    pub index: usize,
    /// The index of the first file in this unit in the global locations list
    pub file_offset: usize,
}

/// A compilation unit.
#[derive(Debug)]
pub struct Unit {
    pub properties: UnitProperties,
    /// The offset of the unit in its section.
    pub offset: usize,
    pub encoding: UnitEncoding,
    pub entries: Vec<DieEntry>,
    pub files: Vec<String>,
    pub lines: Vec<LineRow>,
}

/// The mathematical value of a [`Unit`].
pub struct UnitView {
    pub properties: UnitProperties,
    pub offset: usize,
    pub encoding: UnitEncoding,
    pub entries: Seq<EntryModel>,
    pub files: Seq<Seq<char>>,
    pub lines: Seq<LineRow>,
}

impl View for Unit {
    type V = UnitView;

    open spec fn view(&self) -> UnitView {
        UnitView {
            properties: self.properties,
            offset: self.offset,
            encoding: self.encoding,
            entries: entries_of(self.entries@),
            files: texts(self.files@),
            lines: self.lines@,
        }
    }
}

/// A place in the source that an address belongs to.
#[derive(Debug, Clone, Copy, PartialEq, Eq, Structural)]
pub struct Location {
    /// Address within code segment
    pub address: CodeOffset,
    /// Index of the corresponding file.
    pub file_index: usize,
    /// Line number within file (one-indexed)
    pub line: usize,
    /// Column number (one-indexed)
    pub column: usize,
}

// ---------------------------------------------------------------------------
// What a unit of the debug information becomes
// ---------------------------------------------------------------------------

/// The path of a file: its directory in the directory that the unit was
/// compiled in, and its name there. Directory 0 is the latter itself. `None`
/// where a text cannot be read.
pub open spec fn file_path(comp_dir: Option<Seq<char>>, file: FileModel) -> Option<Seq<char>> {
    let base = match comp_dir {
        Some(dir) => dir,
        None => seq![],
    };
    match (file.directory_index != 0, file.directory) {
        (true, Some(None)) => None,
        (true, Some(Some(dir))) => match file.name {
            Some(name) => Some(path_join(path_join(base, dir), name)),
            None => None,
        },
        _ => match file.name {
            Some(name) => Some(path_join(base, name)),
            None => None,
        },
    }
}

/// The paths of the files from `index` on, up to the first index that has no
/// file.
pub open spec fn paths_from(m: UnitModel, index: u64) -> Option<Seq<Seq<char>>>
    decreases u64::MAX - index,
{
    if index == u64::MAX || file_at(m, index) is None {
        Some(seq![])
    } else {
        match (file_path(m.comp_dir, file_at(m, index)->0), paths_from(m, (index + 1) as u64)) {
            (Some(path), Some(rest)) => Some(seq![path] + rest),
            _ => None,
        }
    }
}

/// The paths of all files of a unit. File 0 may be missing, and then has an
/// empty path; the others follow without a gap.
pub open spec fn unit_paths(m: UnitModel) -> Option<Seq<Seq<char>>> {
    if !m.has_lines {
        Some(seq![])
    } else {
        let first: Option<Seq<char>> = match file_at(m, 0) {
            Some(file) => file_path(m.comp_dir, file),
            None => Some(seq![]),
        };
        match (first, paths_from(m, 1)) {
            (Some(path), Some(rest)) => Some(seq![path] + rest),
            _ => None,
        }
    }
}

/// The rows of a unit's line table; none where its program cannot be run or one
/// of them cannot be read.
pub open spec fn unit_rows(m: UnitModel) -> Seq<LineRow> {
    if m.has_lines && can_be_run(m.advances) && all_readable(m.rows) {
        readable(m.rows)
    } else {
        seq![]
    }
}

/// The attribute that is made of what the debug information says. A location
/// list whose place cannot be told has no ranges.
pub open spec fn loaded_attr(m: UnitModel, a: AttrModel) -> AttrModel {
    AttrModel {
        locations: if unit_list_fits(m, a.list) {
            a.locations
        } else {
            None
        },
        ..a
    }
}

/// The entry that is made of what the debug information says.
pub open spec fn loaded_entry(m: UnitModel, e: EntryModel) -> EntryModel {
    EntryModel { attrs: e.attrs.map_values(|a: AttrModel| loaded_attr(m, a)), ..e }
}

/// The entries that are made of what the debug information says: those before
/// the first that cannot be read.
pub open spec fn loaded_entries(m: UnitModel, entries: Seq<Option<EntryModel>>) -> Seq<EntryModel> {
    readable(entries).map_values(|e: EntryModel| loaded_entry(m, e))
}

/// The unit that is made of what the debug information says.
pub open spec fn loaded_unit(m: UnitModel, properties: UnitProperties) -> UnitView {
    UnitView {
        properties,
        offset: m.offset,
        encoding: m.encoding,
        entries: loaded_entries(m, m.entries),
        files: unit_paths(m)->0,
        lines: unit_rows(m),
    }
}

// ---------------------------------------------------------------------------
// Reading
// ---------------------------------------------------------------------------

fn read_ranges(start: LocationCursor) -> (r: Vec<LocationRange>)
    ensures
        ranges_of(r@) == ranges_left(start),
{
    let ghost all = ranges_left(start);
    let mut cursor = start;
    let mut out: Vec<LocationRange> = Vec::new();
    let ghost mut n: int = 0;
    assert(all.skip(0) =~= all);
    loop
        invariant
            all == ranges_left(start),
            0 <= n <= all.len(),
            ranges_left(cursor) == all.skip(n),
            ranges_of(out@) =~= all.take(n),
        decreases all.len() - n,
    {
        let ghost before = out@;
        match next_range(&mut cursor) {
            Some(range) => {
                assert(all.skip(n)[0] == all[n]);
                assert(all.skip(n).skip(1) =~= all.skip(n + 1));
                out.push(range);
                assert(ranges_of(out@) =~= ranges_of(before).push(range@));
                assert(all.take(n + 1) =~= all.take(n).push(all[n]));
                proof {
                    n = n + 1;
                }
            },
            None => {
                assert(all.take(n) =~= all);
                return out;
            },
        }
    }
}

fn read_attrs(cursor: &EntryCursor, head: &UnitHead, lists: &Vec<u8>) -> (r: Vec<Attr>)
    requires
        cursor_unit(*cursor).encoding == head.encoding,
        cursor_unit(*cursor).lists_base == head.lists_base,
        cursor_unit(*cursor).lists == lists@,
    ensures
        attrs_of(r@) == current_attrs(*cursor).map_values(
            |a: AttrModel| loaded_attr(cursor_unit(*cursor), a),
        ),
{
    let ghost m = cursor_unit(*cursor);
    let ghost all = current_attrs(*cursor).map_values(|a: AttrModel| loaded_attr(m, a));
    let count: usize = attr_count(cursor);
    let mut out: Vec<Attr> = Vec::new();
    let mut i: usize = 0;
    while i < count
        invariant
            m == cursor_unit(*cursor),
            m.encoding == head.encoding,
            m.lists_base == head.lists_base,
            m.lists == lists@,
            all == current_attrs(*cursor).map_values(|a: AttrModel| loaded_attr(m, a)),
            count == all.len(),
            i <= count,
            attrs_of(out@) =~= all.take(i as int),
        decreases count - i,
    {
        let ghost before = out@;
        let list = attr_list(cursor, i);
        let locations = if can_be_found(lists, head.lists_base, head.encoding.wide, list) {
            match attr_locations(cursor, i) {
                Some(ranges) => Some(read_ranges(ranges)),
                None => None,
            }
        } else {
            None
        };
        let attr = Attr {
            name: attr_name(cursor, i),
            value: attr_form(cursor, i),
            text: attr_string(cursor, i),
            list,
            locations,
        };
        assert(attr@.locations == all[i as int].locations);
        assert(attr@ == all[i as int]);
        out.push(attr);
        assert(attrs_of(out@) =~= attrs_of(before).push(attr@));
        i = i + 1;
        assert(all.take(i as int) =~= all.take(i - 1).push(all[i - 1]));
    }
    assert(all.take(count as int) =~= all);
    out
}

fn read_entries(reader: &UnitReader, head: &UnitHead) -> (r: Vec<DieEntry>)
    requires
        unit_model(*reader).encoding == head.encoding,
        unit_model(*reader).lists_base == head.lists_base,
    ensures
        entries_of(r@) == loaded_entries(unit_model(*reader), unit_model(*reader).entries),
{
    let ghost m = unit_model(*reader);
    let ghost all = m.entries;
    let lists = unit_lists(reader);
    let mut cursor = entry_cursor(reader);
    let mut out: Vec<DieEntry> = Vec::new();
    let ghost mut n: int = 0;
    assert(all.skip(0) =~= all);
    assert(entries_of(out@) + loaded_entries(m, all) =~= loaded_entries(m, all));
    loop
        invariant
            m == unit_model(*reader),
            m.encoding == head.encoding,
            m.lists_base == head.lists_base,
            m.lists == lists@,
            all == m.entries,
            cursor_unit(cursor) == m,
            0 <= n <= all.len(),
            entries_left(cursor) == all.skip(n),
            entries_of(out@) + loaded_entries(m, all.skip(n)) == loaded_entries(m, all),
        decreases all.len() - n,
    {
        let ghost before = out@;
        let ghost rest = all.skip(n);
        match next_entry(&mut cursor) {
            Ok(Some(read)) => {
                assert(rest.skip(1) =~= all.skip(n + 1));
                let attrs = read_attrs(&cursor, head, &lists);
                let entry = DieEntry {
                    offset: read.offset,
                    depth: read.depth,
                    tag: read.tag,
                    attrs,
                };
                assert(entry@ == loaded_entry(m, rest[0]->0));
                out.push(entry);
                assert(entries_of(out@) =~= entries_of(before).push(entry@));
                assert(entries_of(out@) + loaded_entries(m, all.skip(n + 1)) =~= entries_of(before)
                    + loaded_entries(m, rest));
                proof {
                    n = n + 1;
                }
            },
            _ => {
                assert(loaded_entries(m, rest) =~= seq![]);
                assert(entries_of(out@) =~= loaded_entries(m, all));
                return out;
            },
        }
    }
}

fn parse_lines(reader: &UnitReader) -> (r: Vec<LineRow>)
    ensures
        r@ == unit_rows(unit_model(*reader)),
{
    let ghost all = unit_model(*reader).rows;
    let mut out: Vec<LineRow> = Vec::new();
    assert(out@ =~= seq![]);
    if !runs(reader) {
        return out;
    }
    let mut cursor = match row_cursor(reader) {
        Some(cursor) => cursor,
        None => {
            return out;
        },
    };
    let ghost mut n: int = 0;
    assert(all.skip(0) =~= all);
    assert(out@ + readable(all) =~= readable(all));
    loop
        invariant
            all == unit_model(*reader).rows,
            unit_model(*reader).has_lines,
            0 <= n <= all.len(),
            rows_left(cursor) == all.skip(n),
            can_be_run(unit_model(*reader).advances),
            cursor_advances(cursor) == unit_model(*reader).advances,
            forall|i: int| 0 <= i < n ==> (#[trigger] all[i]) is Some,
            out@ + readable(all.skip(n)) == readable(all),
        decreases all.len() - n,
    {
        let ghost before = out@;
        let ghost rest = all.skip(n);
        match next_row(&mut cursor) {
            Ok(Some(row)) => {
                assert(rest[0] == all[n]);
                assert(rest.skip(1) =~= all.skip(n + 1));
                out.push(row);
                assert(out@ + readable(all.skip(n + 1)) =~= before + readable(rest));
                proof {
                    n = n + 1;
                }
            },
            Ok(None) => {
                assert(readable(rest) =~= seq![]);
                assert(out@ =~= readable(all));
                return out;
            },
            Err(_) => {
                assert(rest[0] == all[n]);
                let none: Vec<LineRow> = Vec::new();
                assert(none@ =~= seq![]);
                return none;
            },
        }
    }
}

/// The path of a file of the line table.
pub fn render_file_path(comp_dir: &Option<String>, file: &FileEntry) -> (r: Option<String>)
    ensures
        text_of(r) == file_path(text_of(*comp_dir), file@),
{
    let mut path = match comp_dir {
        Some(dir) => own(dir.as_str()),
        None => String::new(),
    };
    assert(path@ =~= match text_of(*comp_dir) {
        Some(dir) => dir,
        None => seq![],
    });
    if file.directory_index != 0 {
        if let Some(directory) = &file.directory {
            match directory {
                Some(dir) => {
                    path = join_path(path.as_str(), dir.as_str());
                },
                None => {
                    return None;
                },
            }
        }
    }
    match &file.name {
        Some(name) => Some(join_path(path.as_str(), name.as_str())),
        None => None,
    }
}

fn parse_files(reader: &UnitReader, head: &UnitHead) -> (r: Option<Vec<String>>)
    requires
        unit_model(*reader).has_lines,
        unit_model(*reader).comp_dir == text_of(head.comp_dir),
    ensures
        match r {
            Some(files) => unit_paths(unit_model(*reader)) == Some(texts(files@)),
            None => unit_paths(unit_model(*reader)) is None,
        },
{
    let ghost m = unit_model(*reader);
    let mut files: Vec<String> = Vec::new();
    match line_file(reader, 0) {
        Some(file) => match render_file_path(&head.comp_dir, &file) {
            Some(path) => files.push(path),
            None => {
                return None;
            },
        },
        None => {
            let none = String::new();
            assert(none@ =~= seq![]);
            files.push(none);
        },
    }
    let mut index: u64 = 1;
    let ghost first = files@[0]@;
    assert(texts(files@) =~= seq![first]);
    while index < u64::MAX
        invariant
            m == unit_model(*reader),
            m.has_lines,
            m.comp_dir == text_of(head.comp_dir),
            1 <= index,
            match unit_paths(m) {
                Some(all) => {
                    &&& paths_from(m, index) is Some
                    &&& all == texts(files@) + paths_from(m, index)->0
                },
                None => paths_from(m, index) is None,
            },
        decreases u64::MAX - index,
    {
        let ghost before = files@;
        match line_file(reader, index) {
            Some(file) => match render_file_path(&head.comp_dir, &file) {
                Some(path) => {
                    files.push(path);
                    assert(texts(files@) =~= texts(before).push(path@));
                    proof {
                        if let Some(all) = unit_paths(m) {
                            let rest = paths_from(m, (index + 1) as u64)->0;
                            assert(texts(files@) + rest =~= texts(before) + (seq![path@] + rest));
                        }
                    }
                },
                None => {
                    return None;
                },
            },
            None => {
                assert(texts(files@) + seq![] =~= texts(files@));
                return Some(files);
            },
        }
        index = index + 1;
    }
    assert(texts(files@) + seq![] =~= texts(files@));
    Some(files)
}

/// Numbers the units that can be read, and their files.
pub struct UnitParser {
    pub unit_index: usize,
    pub file_index: usize,
}

impl UnitParser {
    /// A parser that has seen no unit.
    pub fn new() -> (r: Self)
        ensures
            r.unit_index == 0,
            r.file_index == 0,
    {
        UnitParser { unit_index: 0, file_index: 0 }
    }

    /// Reads a unit. A unit whose files cannot be read is left out, and takes
    /// no number. A unit whose files or whose own number can no longer be
    /// counted is left out too.
    pub fn parse(&mut self, reader: &UnitReader) -> (r: Option<Unit>)
        ensures
            match r {
                Some(unit) => {
                    &&& unit_paths(unit_model(*reader)) is Some
                    &&& unit@ == loaded_unit(
                        unit_model(*reader),
                        UnitProperties {
                            index: old(self).unit_index,
                            file_offset: old(self).file_index,
                        },
                    )
                    &&& final(self).unit_index == old(self).unit_index + 1
                    &&& final(self).file_index == old(self).file_index + unit@.files.len()
                },
                None => {
                    &&& *final(self) == *old(self)
                    &&& match unit_paths(unit_model(*reader)) {
                        Some(paths) => old(self).unit_index == usize::MAX || old(self).file_index
                            + paths.len() > usize::MAX,
                        None => true,
                    }
                },
            },
    {
        let head = unit_head(reader);
        let files = if head.has_lines {
            match parse_files(reader, &head) {
                Some(files) => files,
                None => {
                    return None;
                },
            }
        } else {
            let none: Vec<String> = Vec::new();
            assert(texts(none@) =~= seq![]);
            none
        };
        assert(texts(files@).len() == files@.len());
        let index: usize = self.unit_index;
        let file_offset: usize = self.file_index;
        if index == usize::MAX || files.len() > usize::MAX - file_offset {
            return None;
        }
        let unit = Unit {
            properties: UnitProperties { index, file_offset },
            offset: head.offset,
            encoding: head.encoding,
            entries: read_entries(reader, &head),
            files,
            lines: parse_lines(reader),
        };
        self.unit_index = index + 1;
        self.file_index = file_offset + unit.files.len();
        Some(unit)
    }
}

// ---------------------------------------------------------------------------
// Questions
// ---------------------------------------------------------------------------

/// The place that a row of the line table gives. The left edge of a line is
/// its first column.
pub open spec fn row_location(row: LineRow, file_offset: usize) -> Location {
    Location {
        address: CodeOffset(row.address),
        file_index: vstd::wrapping::usize_specs::wrapping_add(
            file_offset,
            row.file_index as usize,
        ),
        line: row.line as usize,
        column: if row.column == 0 {
            1usize
        } else {
            row.column as usize
        },
    }
}

/// The places of the rows that begin a statement, in order.
pub open spec fn stmt_locations(rows: Seq<LineRow>, file_offset: usize) -> Seq<Location>
    decreases rows.len(),
{
    if rows.len() == 0 {
        seq![]
    } else {
        let before = stmt_locations(rows.drop_last(), file_offset);
        if rows.last().is_stmt {
            before.push(row_location(rows.last(), file_offset))
        } else {
            before
        }
    }
}

/// The places of a unit.
pub open spec fn unit_locations(u: UnitView) -> Seq<Location> {
    stmt_locations(u.lines, u.properties.file_offset)
}

/// The path of the file that has the number `index` among all files, where it
/// is one of this unit.
pub open spec fn unit_file(u: UnitView, index: usize) -> Option<Seq<char>> {
    let local = index - u.properties.file_offset;
    if 0 <= local < u.files.len() {
        Some(u.files[local])
    } else {
        None
    }
}

impl Unit {
    /// The number of this unit among all units.
    pub fn index(&self) -> (r: usize)
        ensures
            r == self@.properties.index,
    {
        self.properties.index
    }

    /// Gets the index of the root DIE of this unit
    pub fn root(&self) -> (r: Option<usize>)
        ensures
            r == if self@.entries.len() > 0 {
                Some(0usize)
            } else {
                None
            },
    {
        if self.entries.len() > 0 {
            Some(0)
        } else {
            None
        }
    }

    /// The places of this unit that begin a statement.
    pub fn locations(&self) -> (r: Vec<Location>)
        ensures
            r@ == unit_locations(self@),
    {
        let file_offset: usize = self.properties.file_offset;
        let ghost all = self.lines@;
        let mut out: Vec<Location> = Vec::new();
        let mut i: usize = 0;
        assert(out@ =~= stmt_locations(all.take(0), file_offset));
        while i < self.lines.len()
            invariant
                all == self.lines@,
                i <= all.len(),
                out@ == stmt_locations(all.take(i as int), file_offset),
            decreases all.len() - i,
        {
            let row = self.lines[i];
            assert(all.take(i + 1).drop_last() =~= all.take(i as int));
            assert(all.take(i + 1).last() == row);
            if row.is_stmt {
                let column: usize = if row.column == 0 {
                    1
                } else {
                    row.column as usize
                };
                out.push(
                    Location {
                        address: CodeOffset(row.address),
                        file_index: file_offset.wrapping_add(row.file_index as usize),
                        line: row.line as usize,
                        column,
                    },
                );
            }
            i = i + 1;
        }
        assert(all.take(all.len() as int) =~= all);
        out
    }

    /// The path of the file that has the number `index` among all files, where
    /// it is one of this unit.
    pub fn file_at(&self, index: usize) -> (r: Option<&String>)
        ensures
            match r {
                Some(path) => unit_file(self@, index) == Some(path@),
                None => unit_file(self@, index) is None,
            },
    {
        if index < self.properties.file_offset {
            return None;
        }
        let local: usize = index - self.properties.file_offset;
        if local < self.files.len() {
            assert(texts(self.files@)[local as int] == self.files@[local as int]@);
            Some(&self.files[local])
        } else {
            None
        }
    }
}

// ---------------------------------------------------------------------------
// What the line table says
// ---------------------------------------------------------------------------

/// One more row of the line table is one more place where it begins a statement. The
/// place has the address and the line of the row; its file is counted from the first
/// file of the unit, and the left edge of a line is column one.
pub proof fn statements_have_places(rows: Seq<LineRow>, row: LineRow, file_offset: usize)
    ensures
        ({
            let before = stmt_locations(rows, file_offset);
            let after = stmt_locations(rows.push(row), file_offset);
            if row.is_stmt {
                &&& after.len() == before.len() + 1
                &&& after.drop_last() == before
                &&& after.last().address.0 == row.address
                &&& row.line <= u32::MAX ==> after.last().line == row.line
                &&& file_offset + row.file_index <= u32::MAX ==> after.last().file_index
                    == file_offset + row.file_index
                &&& 0 < row.column <= u32::MAX ==> after.last().column == row.column
                &&& row.column == 0 ==> after.last().column == 1
            } else {
                after == before
            }
        }),
        stmt_locations(seq![], file_offset).len() == 0,
{
    assert(rows.push(row).drop_last() =~= rows);
    let before = stmt_locations(rows, file_offset);
    if row.is_stmt {
        assert(stmt_locations(rows.push(row), file_offset).drop_last() =~= before);
    }
}

/// A file lies in its directory, and that in the directory that the unit was compiled
/// in, unless a path starts at the root. Directory 0 is the directory that the unit
/// was compiled in.
pub proof fn files_lie_in_their_directory(dir: Seq<char>, sub: Seq<char>, file: FileModel)
    requires
        file.name is Some,
    ensures
        file.directory_index == 0 ==> file_path(Some(dir), file) == Some(
            path_join(dir, file.name->0),
        ),
        file.directory_index != 0 && file.directory == Some(Some(sub)) ==> file_path(
            Some(dir),
            file,
        ) == Some(path_join(path_join(dir, sub), file.name->0)),
        file.directory_index != 0 && file.directory == Some(Some(sub)) ==> file_path(None, file)
            == Some(path_join(path_join(seq![], sub), file.name->0)),
{
}

/// The files of a unit keep the numbers that the line table gives them.
pub proof fn files_keep_their_number(m: UnitModel, k: u64)
    requires
        m.has_lines,
        unit_paths(m) is Some,
        k < unit_paths(m)->0.len(),
        k > 0 || file_at(m, 0) is Some,
    ensures
        file_at(m, k) is Some,
        file_path(m.comp_dir, file_at(m, k)->0) == Some(unit_paths(m)->0[k as int]),
{
    if k > 0 {
        paths_keep_their_number(m, 1, k);
    }
}

proof fn paths_keep_their_number(m: UnitModel, from: u64, k: u64)
    requires
        paths_from(m, from) is Some,
        from <= k,
        k - from < paths_from(m, from)->0.len(),
    ensures
        file_at(m, k) is Some,
        file_path(m.comp_dir, file_at(m, k)->0) == Some(paths_from(m, from)->0[k - from]),
    decreases k - from,
{
    if from < k {
        let rest = paths_from(m, (from + 1) as u64);
        paths_keep_their_number(m, (from + 1) as u64, k);
        assert(paths_from(m, from)->0[k - from] == rest->0[k - from - 1]);
    }
}

/// An entry that is loaded keeps its attributes: their names, values and texts, and
/// their ranges where the place of the location list can be told.
pub proof fn attributes_are_loaded(m: UnitModel, entries: Seq<Option<EntryModel>>, i: int, k: int)
    requires
        0 <= i < readable(entries).len(),
        0 <= k < readable(entries)[i].attrs.len(),
    ensures
        ({
            let read = readable(entries)[i].attrs[k];
            let kept = loaded_entries(m, entries)[i].attrs[k];
            &&& loaded_entries(m, entries).len() == readable(entries).len()
            &&& loaded_entries(m, entries)[i].attrs.len() == readable(entries)[i].attrs.len()
            &&& kept.name == read.name
            &&& kept.value == read.value
            &&& kept.text == read.text
            &&& read.list is None ==> kept.locations == read.locations
            &&& unit_list_fits(m, read.list) ==> kept.locations == read.locations
            &&& !unit_list_fits(m, read.list) ==> kept.locations is None
        }),
{
}

/// The rows of a unit are all that were read of it, unless one of them could not be read
/// or the line program cannot be run.
pub proof fn lines_are_loaded(m: UnitModel, k: int)
    requires
        m.has_lines,
        forall|i: int| 0 <= i < m.rows.len() ==> (#[trigger] m.rows[i]) is Some,
        forall|i: int| 0 <= i < m.advances.len() ==> #[trigger] m.advances[i] != Some(i64::MIN),
        0 <= k < m.rows.len(),
    ensures
        unit_rows(m).len() == m.rows.len(),
        unit_rows(m)[k] == m.rows[k]->0,
{
    readable_is_whole(m.rows);
    assert(m.rows[k] == Some(readable(m.rows)[k]));
}

} // verus!
