//! The lines that a program's statements stand on, with its files by name.
use vstd::prelude::*;

use crate::debug::dwarf::reader::{FileEntry, FileModel, LineRow, UnitModel, UnitReader, can_be_run,
    cursor_advances, file_at, line_file, next_row, next_unit, open_sections, row_cursor, rows_left, runs,
    unit_model, units_left, units_of};
use crate::debug::dwarf::entry::text_of;
use crate::debug::dwarf::sections::{Sections, dwarf_sections};
use crate::error::DebugError;
use crate::text::{chars_of, concat, own, same, texts};

verus! {

broadcast use vstd::seq_lib::group_seq_properties;

/// A statement of a program.
#[derive(Debug, Clone, Copy, PartialEq, Eq, Structural)]
pub struct LocationInfo {
    /// Which of the files it stands in.
    pub file: usize,
    /// The line, 0 where it belongs to none.
    pub line: usize,
    /// The column, 0 for the left edge of the line.
    pub col: usize,
    pub address: usize,
}

/// The statements of a program and the files that they stand in.
#[derive(Debug)]
pub struct Lines {
    pub locations: Vec<LocationInfo>,
    pub files: Vec<String>,
}

/// The mathematical value of [`Lines`].
pub struct LinesModel {
    pub locations: Seq<LocationInfo>,
    pub files: Seq<Seq<char>>,
}

impl View for Lines {
    type V = LinesModel;

    open spec fn view(&self) -> LinesModel {
        LinesModel { locations: self.locations@, files: texts(self.files@) }
    }
}

// ---------------------------------------------------------------------------
// Files
// ---------------------------------------------------------------------------

/// The name of a file behind its directory. A directory that is empty or `.`
/// is left out. `None` where a text cannot be read.
pub open spec fn file_name(f: FileModel) -> Option<Seq<char>> {
    match (f.directory, f.name) {
        (Some(None), _) => None,
        (_, None) => None,
        (Some(Some(dir)), Some(name)) => if dir.len() == 0 || dir == "."@ {
            Some(name)
        } else if dir.last() == '/' {
            Some(dir + name)
        } else {
            Some(dir + "/"@ + name)
        },
        (None, Some(name)) => Some(name),
    }
}

/// The first place of a text in a list, from `i` on; the end of the list where
/// it is not there.
pub open spec fn position(files: Seq<Seq<char>>, name: Seq<char>, i: int) -> int
    decreases files.len() - i,
{
    if i >= files.len() || files[i] == name {
        i
    } else {
        position(files, name, i + 1)
    }
}

proof fn position_found(files: Seq<Seq<char>>, name: Seq<char>, i: int)
    requires
        0 <= i <= files.len(),
    ensures
        i <= position(files, name, i) <= files.len(),
        position(files, name, i) < files.len() ==> files[position(files, name, i)] == name,
        forall|k: int| i <= k < position(files, name, i) ==> #[trigger] files[k] != name,
    decreases files.len() - i,
{
    if i < files.len() && files[i] != name {
        position_found(files, name, i + 1);
    }
}

/// The name of a file behind its directory.
pub fn build_filename(file: &FileEntry) -> (r: Option<String>)
    ensures
        text_of(r) == file_name(file@),
{
    let mut path = String::new();
    assert(path@ =~= seq![]);
    proof {
        reveal_strlit("/");
        reveal_strlit(".");
    }
    if let Some(directory) = &file.directory {
        match directory {
            None => {
                return None;
            },
            Some(dir) => {
                let chars = chars_of(dir.as_str());
                if chars.len() > 0 && !same(dir.as_str(), ".") {
                    path = own(dir.as_str());
                    if chars[chars.len() - 1] != '/' {
                        path = concat(path.as_str(), "/");
                    }
                }
            },
        }
    }
    match &file.name {
        None => None,
        Some(name) => {
            let r = concat(path.as_str(), name.as_str());
            assert(seq![] + name@ =~= name@);
            Some(r)
        },
    }
}

// ---------------------------------------------------------------------------
// Lines
// ---------------------------------------------------------------------------

/// The lines with one more statement. Its file is added where it is new.
pub open spec fn with_row(m: LinesModel, row: LineRow, name: Seq<char>) -> LinesModel {
    let file = position(m.files, name, 0);
    LinesModel {
        locations: m.locations.push(
            LocationInfo {
                file: file as usize,
                line: row.line as usize,
                col: row.column as usize,
                address: row.address as usize,
            },
        ),
        files: if file < m.files.len() {
            m.files
        } else {
            m.files.push(name)
        },
    }
}

/// The lines with those of the rows of a unit. Rows that begin no statement, or
/// whose file is not in the table, are left out. `None` where a row or the name
/// of its file cannot be read.
pub open spec fn with_rows(m: LinesModel, u: UnitModel, rows: Seq<Option<LineRow>>) -> Option<
    LinesModel,
>
    decreases rows.len(),
{
    if rows.len() == 0 {
        Some(m)
    } else {
        match rows[0] {
            None => None,
            Some(row) => if !row.is_stmt || file_at(u, row.file_index) is None {
                with_rows(m, u, rows.skip(1))
            } else {
                match file_name(file_at(u, row.file_index)->0) {
                    None => None,
                    Some(name) => with_rows(with_row(m, row, name), u, rows.skip(1)),
                }
            },
        }
    }
}

/// The lines with those of a unit. `None` where its line program cannot be run
/// or something cannot be read.
pub open spec fn with_unit(m: LinesModel, u: UnitModel) -> Option<LinesModel> {
    if !u.has_lines {
        Some(m)
    } else if can_be_run(u.advances) {
        with_rows(m, u, u.rows)
    } else {
        None
    }
}

/// The lines with those of units. `None` where something cannot be read.
pub open spec fn with_units(m: LinesModel, units: Seq<Option<UnitModel>>) -> Option<LinesModel>
    decreases units.len(),
{
    if units.len() == 0 {
        Some(m)
    } else {
        match units[0] {
            None => None,
            Some(u) => match with_unit(m, u) {
                None => None,
                Some(m) => with_units(m, units.skip(1)),
            },
        }
    }
}

/// Whether every file is listed once, and every statement stands in one of them.
pub open spec fn lines_wf(m: LinesModel) -> bool {
    &&& m.files.no_duplicates()
    &&& forall|i: int|
        0 <= i < m.locations.len() ==> (#[trigger] m.locations[i]).file < m.files.len()
}

proof fn rows_keep_lines_wf(m: LinesModel, u: UnitModel, rows: Seq<Option<LineRow>>)
    requires
        lines_wf(m),
        m.files.len() + rows.len() <= usize::MAX,
    ensures
        with_rows(m, u, rows) matches Some(r) ==> {
            &&& lines_wf(r)
            &&& m.files.is_prefix_of(r.files)
            &&& r.files.len() <= m.files.len() + rows.len()
        },
    decreases rows.len(),
{
    if rows.len() > 0 {
        if let Some(row) = rows[0] {
            if !row.is_stmt || file_at(u, row.file_index) is None {
                rows_keep_lines_wf(m, u, rows.skip(1));
            } else if let Some(name) = file_name(file_at(u, row.file_index)->0) {
                let n = with_row(m, row, name);
                position_found(m.files, name, 0);
                let file = position(m.files, name, 0);
                assert forall|i: int, j: int|
                    0 <= i < n.files.len() && 0 <= j < n.files.len() && i != j implies n.files[i]
                    != n.files[j] by {}
                assert forall|i: int| 0 <= i < n.locations.len() implies (
                #[trigger] n.locations[i]).file < n.files.len() by {
                    if i < m.locations.len() {
                        assert(n.locations[i] == m.locations[i]);
                    }
                }
                assert(m.files.is_prefix_of(n.files));
                rows_keep_lines_wf(n, u, rows.skip(1));
            }
        }
    }
}

/// The lines of a unit keep the files that were known before, list every file
/// once, and give every statement one of the files.
pub proof fn files_are_listed_once(m: LinesModel, u: UnitModel)
    requires
        lines_wf(m),
        m.files.len() + u.rows.len() <= usize::MAX,
    ensures
        with_unit(m, u) matches Some(r) ==> lines_wf(r) && m.files.is_prefix_of(r.files),
{
    rows_keep_lines_wf(m, u, u.rows);
}

/// The place of a text in a list.
fn find(files: &Vec<String>, name: &str) -> (r: usize)
    ensures
        r == position(texts(files@), name@, 0),
        r <= files@.len(),
{
    let ghost all = texts(files@);
    let mut i: usize = 0;
    while i < files.len()
        invariant
            i <= files@.len(),
            all == texts(files@),
            position(all, name@, 0) == position(all, name@, i as int),
        decreases files@.len() - i,
    {
        assert(all[i as int] == files@[i as int]@);
        if same(files[i].as_str(), name) {
            return i;
        }
        i = i + 1;
    }
    i
}

/// Adds the lines of a unit.
pub fn parse_unit_lines(unit: &UnitReader, lines: &mut Lines) -> (r: Result<(), DebugError>)
    ensures
        match r {
            Ok(_) => with_unit(old(lines)@, unit_model(*unit)) == Some(final(lines)@),
            Err(e) => with_unit(old(lines)@, unit_model(*unit)) is None && e
                == DebugError::Malformed,
        },
{
    let ghost u = unit_model(*unit);
    let ghost want = with_rows(lines@, u, u.rows);
    if !runs(unit) {
        return Err(DebugError::Malformed);
    }
    let mut cursor = match row_cursor(unit) {
        Some(cursor) => cursor,
        None => {
            return Ok(());
        },
    };
    loop
        invariant
            u == unit_model(*unit),
            u.has_lines,
            can_be_run(u.advances),
            cursor_advances(cursor) == u.advances,
            want == with_rows(old(lines)@, u, u.rows),
            want == with_rows(lines@, u, rows_left(cursor)),
        decreases rows_left(cursor).len(),
    {
        let row = match next_row(&mut cursor) {
            Ok(Some(row)) => row,
            Ok(None) => {
                return Ok(());
            },
            Err(_) => {
                return Err(DebugError::Malformed);
            },
        };
        if !row.is_stmt {
            continue;
        }
        let file = match line_file(unit, row.file_index) {
            Some(file) => file,
            None => {
                continue;
            },
        };
        let name = match build_filename(&file) {
            Some(name) => name,
            None => {
                return Err(DebugError::Malformed);
            },
        };
        let ghost before = lines@;
        let at: usize = find(&lines.files, name.as_str());
        if at == lines.files.len() {
            let ghost known = texts(lines.files@);
            let ghost text = name@;
            lines.files.push(name);
            assert(texts(lines.files@) =~= known.push(text));
        }
        lines.locations.push(
            LocationInfo {
                file: at,
                line: row.line as usize,
                col: row.column as usize,
                address: row.address as usize,
            },
        );
        assert(lines@ == with_row(before, row, file_name(file@)->Some_0));
    }
}

/// The lines of a program.
pub fn parse_lines(sections: &Sections) -> (r: Result<Lines, DebugError>)
    ensures
        ({
            let none = LinesModel { locations: seq![], files: seq![] };
            let want = with_units(none, units_of(dwarf_sections(sections@)));
            match r {
                Ok(lines) => want == Some(lines@),
                Err(e) => want is None && e == DebugError::Malformed,
            }
        }),
{
    let ghost none = LinesModel { locations: seq![], files: seq![] };
    let ghost want = with_units(none, units_of(dwarf_sections(sections@)));
    let mut lines = Lines { locations: Vec::new(), files: Vec::new() };
    assert(lines@.files =~= seq![]);
    assert(lines@ == none);
    let mut reader = open_sections(sections);
    loop
        invariant
            none == (LinesModel { locations: seq![], files: seq![] }),
            want == with_units(none, units_of(dwarf_sections(sections@))),
            want == with_units(lines@, units_left(reader)),
        decreases units_left(reader).len(),
    {
        let unit = match next_unit(&mut reader) {
            None => {
                return Ok(lines);
            },
            Some(Ok(unit)) => unit,
            Some(Err(_)) => {
                return Err(DebugError::Malformed);
            },
        };
        match parse_unit_lines(&unit, &mut lines) {
            Ok(_) => {},
            Err(e) => {
                return Err(e);
            },
        }
    }
}

/// One more row that begins a statement in a file of the table is one more statement,
/// behind those that were there: at its address, on its line and column, and in the
/// file with its name. Files that were listed keep their numbers. Other rows change
/// nothing.
pub proof fn rows_are_listed(m: LinesModel, u: UnitModel, row: LineRow, rest: Seq<Option<LineRow>>)
    ensures
        ({
            let all = with_rows(m, u, seq![Some(row)] + rest);
            let file = file_at(u, row.file_index);
            if !row.is_stmt || file is None {
                all == with_rows(m, u, rest)
            } else {
                match file_name(file->0) {
                    None => all is None,
                    Some(name) => exists|n: LinesModel|
                        all == #[trigger] with_rows(n, u, rest) && {
                            &&& n.locations.len() == m.locations.len() + 1
                            &&& n.locations.drop_last() == m.locations
                            &&& m.files.is_prefix_of(n.files)
                            &&& row.line <= u32::MAX ==> n.locations.last().line == row.line
                            &&& row.column <= u32::MAX ==> n.locations.last().col == row.column
                            &&& row.address <= u32::MAX ==> n.locations.last().address == row.address
                            &&& m.files.len() < u32::MAX ==> n.locations.last().file < n.files.len()
                                && n.files[n.locations.last().file as int] == name
                            &&& n.files.len() <= m.files.len() + 1
                            &&& m.files.contains(name) ==> n.files == m.files
                        },
                }
            }
        }),
        with_rows(m, u, seq![]) == Some(m),
        with_rows(m, u, seq![None::<LineRow>] + rest) is None,
{
    let rows = seq![Some(row)] + rest;
    assert(rows[0] == Some(row));
    assert(rows.skip(1) =~= rest);
    assert((seq![None::<LineRow>] + rest)[0] is None);
    if row.is_stmt && file_at(u, row.file_index) is Some {
        if let Some(name) = file_name(file_at(u, row.file_index)->0) {
            let n = with_row(m, row, name);
            position_found(m.files, name, 0);
            assert(n.locations.drop_last() =~= m.locations);
            if m.files.contains(name) {
                let k = choose|k: int| 0 <= k < m.files.len() && m.files[k] == name;
                assert(position(m.files, name, 0) <= k);
            }
            assert(with_rows(m, u, rows) == with_rows(n, u, rest));
        }
    }
}

/// A file is called by its name behind its directory, with one `/` between them. A
/// directory that is empty or `.` is left out.
pub proof fn files_are_called_by_their_directory(dir: Seq<char>, name: Seq<char>, index: u64)
    ensures
        ({
            let there = file_name(
                FileModel { directory_index: index, directory: Some(Some(dir)), name: Some(name) },
            );
            &&& dir.len() == 0 || dir == seq!['.'] ==> there == Some(name)
            &&& dir.len() > 0 && dir.last() == '/' ==> there == Some(dir + name)
            &&& dir.len() > 0 && dir != seq!['.'] && dir.last() != '/' ==> there == Some(
                dir.push('/') + name,
            )
        }),
        file_name(FileModel { directory_index: index, directory: None, name: Some(name) }) == Some(
            name,
        ),
{
    reveal_strlit("/");
    reveal_strlit(".");
    assert("."@ =~= seq!['.']);
    assert(dir + "/"@ =~= dir.push('/'));
}

/// Units are gone through one after the other. One without a line table adds nothing,
/// and one that cannot be read stops the whole.
pub proof fn units_are_gone_through(m: LinesModel, u: UnitModel, rest: Seq<Option<UnitModel>>)
    ensures
        ({
            let all = with_units(m, seq![Some(u)] + rest);
            if !u.has_lines {
                all == with_units(m, rest)
            } else if exists|i: int|
                0 <= i < u.advances.len() && #[trigger] u.advances[i] == Some(i64::MIN) {
                all is None
            } else {
                match with_rows(m, u, u.rows) {
                    Some(next) => all == with_units(next, rest),
                    None => all is None,
                }
            }
        }),
        with_units(m, seq![]) == Some(m),
        with_units(m, seq![None::<UnitModel>] + rest) is None,
{
    let units = seq![Some(u)] + rest;
    assert(units[0] == Some(u));
    assert(units.skip(1) =~= rest);
    assert((seq![None::<UnitModel>] + rest)[0] is None);
}

} // verus!
