//! DWARF debug information.
pub mod constants;
pub mod die;
pub mod entry;
pub mod expression;
pub mod reader;
pub mod sections;
pub mod unit;

use vstd::prelude::*;

use crate::error::DebugError;
use crate::seqs::readable;
use self::reader::{UnitModel, next_unit, open_sections, units_left, units_of};
use self::sections::{Sections, dwarf_sections, dwarf_sections_settle};
use self::unit::{Location, Unit, UnitParser, UnitProperties, UnitView, loaded_unit, stmt_locations,
    unit_file, unit_locations, unit_paths, unit_rows};

verus! {

broadcast use vstd::seq_lib::group_seq_properties;

/// The debug information of a program.
#[derive(Debug)]
pub struct Dwarf {
    /// The sections that the units were read from.
    sections: Sections,
    /// The units that could be read.
    units: Vec<Unit>,
}

/// The mathematical value of a [`Dwarf`].
pub struct DwarfView {
    pub sections: Map<Seq<char>, Seq<u8>>,
    pub units: Seq<UnitView>,
}

/// The values of a list of units.
pub open spec fn unit_views(v: Seq<Unit>) -> Seq<UnitView> {
    v.map_values(|u: Unit| u@)
}

impl View for Dwarf {
    type V = DwarfView;

    closed spec fn view(&self) -> DwarfView {
        DwarfView { sections: self.sections@, units: unit_views(self.units@) }
    }
}

/// The units made of what the debug information says, from the unit `index`
/// and the file `files` on. What cannot be read takes no number.
pub open spec fn numbered(ms: Seq<Option<UnitModel>>, index: nat, files: nat) -> Seq<UnitView>
    decreases ms.len(),
{
    if ms.len() == 0 {
        seq![]
    } else {
        let rest = ms.skip(1);
        match ms[0] {
            Some(m) => match unit_paths(m) {
                Some(paths) => if index < usize::MAX && files + paths.len() <= usize::MAX {
                    let properties = UnitProperties {
                        index: index as usize,
                        file_offset: files as usize,
                    };
                    seq![loaded_unit(m, properties)] + numbered(
                        rest,
                        index + 1,
                        files + paths.len(),
                    )
                } else {
                    numbered(rest, index, files)
                },
                None => numbered(rest, index, files),
            },
            None => numbered(rest, index, files),
        }
    }
}

/// The debug information that the sections hold.
pub open spec fn dwarf_of(sections: Map<Seq<char>, Seq<u8>>) -> DwarfView {
    DwarfView {
        sections: dwarf_sections(sections),
        units: numbered(units_of(dwarf_sections(sections)), 0, 0),
    }
}

/// The places of a list of units.
pub open spec fn all_locations(units: Seq<UnitView>) -> Seq<Location>
    decreases units.len(),
{
    if units.len() == 0 {
        seq![]
    } else {
        all_locations(units.drop_last()) + unit_locations(units.last())
    }
}

/// The path of the file with the number `index`: that of the first unit that
/// has it.
pub open spec fn file_among(units: Seq<UnitView>, index: usize) -> Option<Seq<char>>
    decreases units.len(),
{
    if units.len() == 0 {
        None
    } else {
        match unit_file(units[0], index) {
            Some(path) => Some(path),
            None => file_among(units.skip(1), index),
        }
    }
}

impl Dwarf {
    /// Whether the units are those that the sections hold.
    pub open spec fn wf(&self) -> bool {
        self@ == dwarf_of(self@.sections)
    }

    /// Loads the debug information that the sections hold.
    pub fn from_sections(sections: &Sections) -> (r: Result<Self, DebugError>)
        ensures
            r is Ok,
            r->Ok_0@ == dwarf_of(sections@),
            r->Ok_0.wf(),
    {
        let kept = sections.dwarf_only();
        let mut reader = open_sections(&kept);
        proof {
            dwarf_sections_settle(sections@);
        }
        let ghost all = units_of(dwarf_sections(sections@));
        let mut parser = UnitParser::new();
        let mut units: Vec<Unit> = Vec::new();
        let ghost mut n: int = 0;
        assert(all.skip(0) =~= all);
        assert(unit_views(units@) + numbered(all, 0, 0) =~= numbered(all, 0, 0));
        loop
            invariant
                kept@ == dwarf_sections(sections@),
                dwarf_sections(kept@) == kept@,
                all == units_of(kept@),
                0 <= n <= all.len(),
                units_left(reader) == all.skip(n),
                unit_views(units@) + numbered(
                    all.skip(n),
                    parser.unit_index as nat,
                    parser.file_index as nat,
                ) == numbered(all, 0, 0),
            decreases all.len() - n,
        {
            let ghost before = units@;
            let ghost rest = all.skip(n);
            let ghost parsed = parser;
            match next_unit(&mut reader) {
                None => {
                    assert(unit_views(units@) + seq![] =~= unit_views(units@));
                    let dwarf = Dwarf { sections: kept, units };
                    return Ok(dwarf);
                },
                Some(Ok(unit)) => {
                    assert(rest.skip(1) =~= all.skip(n + 1));
                    if let Some(unit) = parser.parse(&unit) {
                        units.push(unit);
                        assert(unit_views(units@) =~= unit_views(before).push(unit@));
                        assert(unit_views(units@) + numbered(
                            all.skip(n + 1),
                            parser.unit_index as nat,
                            parser.file_index as nat,
                        ) =~= unit_views(before) + numbered(
                            rest,
                            parsed.unit_index as nat,
                            parsed.file_index as nat,
                        ));
                    }
                },
                Some(Err(_)) => {
                    assert(rest.skip(1) =~= all.skip(n + 1));
                },
            }
            proof {
                n = n + 1;
            }
        }
    }

    /// The sections that the debug information is read from.
    pub fn sections(&self) -> (r: &Sections)
        ensures
            r@ == self@.sections,
    {
        &self.sections
    }

    /// The units that could be read.
    pub fn units(&self) -> (r: &Vec<Unit>)
        ensures
            unit_views(r@) == self@.units,
    {
        &self.units
    }

    /// Gets all locations across all compilation units.
    /// This list is retrieved directly from the DWARF and represents all locations known to the compiler.
    pub fn locations(&self) -> (r: Vec<Location>)
        ensures
            r@ == all_locations(self@.units),
    {
        let ghost all = self@.units;
        let mut out: Vec<Location> = Vec::new();
        let mut i: usize = 0;
        assert(out@ =~= all_locations(all.take(0)));
        while i < self.units.len()
            invariant
                all == self@.units,
                all.len() == self.units@.len(),
                i <= all.len(),
                out@ == all_locations(all.take(i as int)),
            decreases all.len() - i,
        {
            let mut more = self.units[i].locations();
            assert(all.take(i + 1).drop_last() =~= all.take(i as int));
            assert(all.take(i + 1).last() == self.units@[i as int]@);
            out.append(&mut more);
            i = i + 1;
        }
        assert(all.take(all.len() as int) =~= all);
        out
    }

    /// Gets the path for the file with the given index.
    pub fn file_at(&self, index: usize) -> (r: Option<&String>)
        ensures
            match r {
                Some(path) => file_among(self@.units, index) == Some(path@),
                None => file_among(self@.units, index) is None,
            },
    {
        let ghost all = self@.units;
        let mut i: usize = 0;
        assert(all.skip(0) =~= all);
        while i < self.units.len()
            invariant
                all == self@.units,
                all.len() == self.units@.len(),
                i <= all.len(),
                file_among(all, index) == file_among(all.skip(i as int), index),
            decreases all.len() - i,
        {
            assert(all.skip(i as int)[0] == self.units@[i as int]@);
            assert(all.skip(i as int).skip(1) =~= all.skip(i + 1));
            if let Some(path) = self.units[i].file_at(index) {
                return Some(path);
            }
            i = i + 1;
        }
        None
    }
}

impl Clone for Dwarf {
    fn clone(&self) -> (r: Self)
        ensures
            r.wf(),
            self.wf() ==> r@ == self@,
    {
        proof {
            dwarf_sections_settle(self@.sections);
        }
        match Dwarf::from_sections(&self.sections) {
            Ok(dwarf) => dwarf,
            Err(_) => Dwarf { sections: Sections::new(), units: Vec::new() },
        }
    }
}

/// Debug information that travels by its sections arrives unchanged.
pub proof fn sections_carry_everything(sections: Map<Seq<char>, Seq<u8>>)
    ensures
        dwarf_of(dwarf_of(sections).sections) == dwarf_of(sections),
{
    dwarf_sections_settle(sections);
}

/// In the numbering of the units, each unit has its own place as its index,
/// and its files are numbered behind those of the units before it.
pub proof fn units_are_numbered(ms: Seq<Option<UnitModel>>, index: nat, files: nat)
    requires
        index <= usize::MAX,
        files <= usize::MAX,
    ensures
        forall|i: int|
            0 <= i < numbered(ms, index, files).len() ==> {
                let u = #[trigger] numbered(ms, index, files)[i];
                &&& u.properties.index == index + i
                &&& u.properties.file_offset >= files
                &&& u.properties.file_offset + u.files.len() <= usize::MAX
            },
        forall|i: int, j: int|
            0 <= i < j < numbered(ms, index, files).len() ==> {
                let u = #[trigger] numbered(ms, index, files)[i];
                let v = #[trigger] numbered(ms, index, files)[j];
                u.properties.file_offset + u.files.len() <= v.properties.file_offset
            },
    decreases ms.len(),
{
    if ms.len() > 0 {
        let rest = ms.skip(1);
        match ms[0] {
            Some(m) => match unit_paths(m) {
                Some(paths) => if index < usize::MAX && files + paths.len() <= usize::MAX {
                    units_are_numbered(rest, index + 1, files + paths.len());
                    let all = numbered(ms, index, files);
                    let tail = numbered(rest, index + 1, files + paths.len());
                    assert forall|i: int| 0 <= i < all.len() implies {
                        let u = #[trigger] all[i];
                        &&& u.properties.index == index + i
                        &&& u.properties.file_offset >= files
                        &&& u.properties.file_offset + u.files.len() <= usize::MAX
                    } by {
                        if i > 0 {
                            assert(all[i] == tail[i - 1]);
                        }
                    }
                    assert forall|i: int, j: int| 0 <= i < j < all.len() implies {
                        let u = #[trigger] all[i];
                        let v = #[trigger] all[j];
                        u.properties.file_offset + u.files.len() <= v.properties.file_offset
                    } by {
                        assert(all[j] == tail[j - 1]);
                        if i > 0 {
                            assert(all[i] == tail[i - 1]);
                        }
                    }
                } else {
                    units_are_numbered(rest, index, files);
                    assert(numbered(ms, index, files) == numbered(rest, index, files));
                },
                None => {
                    units_are_numbered(rest, index, files);
                    assert(numbered(ms, index, files) == numbered(rest, index, files));
                },
            },
            None => {
                units_are_numbered(rest, index, files);
                assert(numbered(ms, index, files) == numbered(rest, index, files));
            },
        }
    }
}

proof fn file_among_skips(units: Seq<UnitView>, index: usize, i: int)
    requires
        0 <= i < units.len(),
        unit_file(units[i], index) is Some,
        forall|k: int| 0 <= k < i ==> unit_file(#[trigger] units[k], index) is None,
    ensures
        file_among(units, index) == unit_file(units[i], index),
    decreases i,
{
    if i > 0 {
        assert forall|k: int| 0 <= k < i - 1 implies unit_file(
            #[trigger] units.skip(1)[k],
            index,
        ) is None by {
            assert(units.skip(1)[k] == units[k + 1]);
        }
        assert(units.skip(1)[i - 1] == units[i]);
        file_among_skips(units.skip(1), index, i - 1);
    }
}

/// Every file has one number among all files: looking up the number that a
/// unit gives one of its files yields that file.
pub proof fn files_have_one_number(sections: Map<Seq<char>, Seq<u8>>, unit: int, file: int)
    requires
        0 <= unit < dwarf_of(sections).units.len(),
        0 <= file < dwarf_of(sections).units[unit].files.len(),
    ensures
        ({
            let units = dwarf_of(sections).units;
            let number = units[unit].properties.file_offset + file;
            number <= usize::MAX && file_among(units, number as usize) == Some(
                units[unit].files[file],
            )
        }),
{
    let ms = units_of(dwarf_sections(sections));
    let units = dwarf_of(sections).units;
    units_are_numbered(ms, 0, 0);
    let number = (units[unit].properties.file_offset + file) as usize;
    assert forall|k: int| 0 <= k < unit implies unit_file(#[trigger] units[k], number) is None by {
        assert(units[k].properties.file_offset + units[k].files.len()
            <= units[unit].properties.file_offset);
    }
    file_among_skips(units, number, unit);
}

/// One more unit in front takes the next number, and its files the next numbers of
/// files; the units behind it are numbered on from there. It holds the entries, the
/// files and the lines that were read of it. A unit that cannot be read takes no
/// number.
pub proof fn units_are_loaded_in_order(
    first: Option<UnitModel>,
    rest: Seq<Option<UnitModel>>,
    index: nat,
    files: nat,
)
    requires
        index < usize::MAX,
    ensures
        ({
            let all = numbered(seq![first] + rest, index, files);
            match first {
                Some(m) => match unit_paths(m) {
                    Some(paths) => files + paths.len() <= usize::MAX ==> {
                        &&& all.len() > 0
                        &&& all.skip(1) == numbered(rest, index + 1, files + paths.len())
                        &&& all[0].properties.index == index
                        &&& all[0].properties.file_offset == files
                        &&& all[0].files == paths
                        &&& all[0].lines == unit_rows(m)
                        &&& all[0].encoding == m.encoding
                        &&& all[0].entries.len() == readable(m.entries).len()
                        &&& forall|i: int|
                            0 <= i < all[0].entries.len() ==> (#[trigger] all[0].entries[i]).offset
                                == readable(m.entries)[i].offset && all[0].entries[i].tag
                                == readable(m.entries)[i].tag && all[0].entries[i].depth
                                == readable(m.entries)[i].depth && all[0].entries[i].attrs.len()
                                == readable(m.entries)[i].attrs.len()
                    },
                    None => all == numbered(rest, index, files),
                },
                None => all == numbered(rest, index, files),
            }
        }),
        numbered(seq![], index, files).len() == 0,
{
    let ms = seq![first] + rest;
    assert(ms[0] == first);
    assert(ms.skip(1) =~= rest);
    if let Some(m) = first {
        if let Some(paths) = unit_paths(m) {
            if files + paths.len() <= usize::MAX {
                let all = numbered(ms, index, files);
                assert(all.skip(1) =~= numbered(rest, index + 1, files + paths.len()));
            }
        }
    }
}

/// The places of a program are those of its units, one unit after the other.
pub proof fn places_come_unit_by_unit(units: Seq<UnitView>, u: UnitView)
    ensures
        all_locations(units.push(u)) == all_locations(units) + stmt_locations(
            u.lines,
            u.properties.file_offset,
        ),
        all_locations(seq![]).len() == 0,
{
    assert(units.push(u).drop_last() =~= units);
}

} // verus!
