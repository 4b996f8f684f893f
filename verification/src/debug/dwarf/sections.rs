//! The sections of a program by name.
use vstd::prelude::*;

use crate::bytes::copy_bytes;
use crate::text::{own, same};

verus! {

broadcast use vstd::seq_lib::group_seq_properties;

/// Section contents by name. A name that is given twice stands for what was
/// given last.
#[derive(Debug)]
pub struct Sections {
    given: Vec<(String, Vec<u8>)>,
}

/// What a list of named sections says: the last of each name.
pub open spec fn section_map(given: Seq<(String, Vec<u8>)>) -> Map<Seq<char>, Seq<u8>>
    decreases given.len(),
{
    if given.len() == 0 {
        Map::empty()
    } else {
        section_map(given.drop_last()).insert(given.last().0@, given.last().1@)
    }
}

/// The names of the sections that debug information is read from.
pub open spec fn dwarf_section_names() -> Seq<Seq<char>> {
    seq![
        ".debug_abbrev"@,
        ".debug_addr"@,
        ".debug_aranges"@,
        ".debug_info"@,
        ".debug_line"@,
        ".debug_line_str"@,
        ".debug_macinfo"@,
        ".debug_macro"@,
        ".debug_names"@,
        ".debug_str"@,
        ".debug_str_offsets"@,
        ".debug_types"@,
        ".debug_loc"@,
        ".debug_loclists"@,
        ".debug_ranges"@,
        ".debug_rnglists"@,
    ]
}

fn section_names() -> (r: Vec<&'static str>)
    ensures
        r@.map_values(|n: &'static str| n@) == dwarf_section_names(),
{
    let r = vec![
        ".debug_abbrev",
        ".debug_addr",
        ".debug_aranges",
        ".debug_info",
        ".debug_line",
        ".debug_line_str",
        ".debug_macinfo",
        ".debug_macro",
        ".debug_names",
        ".debug_str",
        ".debug_str_offsets",
        ".debug_types",
        ".debug_loc",
        ".debug_loclists",
        ".debug_ranges",
        ".debug_rnglists",
    ];
    assert(r@.map_values(|n: &'static str| n@) =~= dwarf_section_names());
    r
}

/// Of the sections called by one of `names`, those that are not empty.
pub open spec fn sections_among(
    all: Map<Seq<char>, Seq<u8>>,
    names: Seq<Seq<char>>,
) -> Map<Seq<char>, Seq<u8>> {
    Map::new(
        |name: Seq<char>| names.contains(name) && all.contains_key(name) && all[name].len() > 0,
        |name: Seq<char>| all[name],
    )
}

/// The sections that hold debug information, without the empty ones.
pub open spec fn dwarf_sections(all: Map<Seq<char>, Seq<u8>>) -> Map<Seq<char>, Seq<u8>> {
    sections_among(all, dwarf_section_names())
}

impl View for Sections {
    type V = Map<Seq<char>, Seq<u8>>;

    closed spec fn view(&self) -> Map<Seq<char>, Seq<u8>> {
        section_map(self.given@)
    }
}

impl Sections {
    /// No sections.
    pub fn new() -> (r: Self)
        ensures
            r@ == Map::<Seq<char>, Seq<u8>>::empty(),
    {
        Sections { given: Vec::new() }
    }

    /// Gives the section called `name`.
    pub fn insert(&mut self, name: String, data: Vec<u8>)
        ensures
            final(self)@ == old(self)@.insert(name@, data@),
    {
        let ghost before = self.given@;
        self.given.push((name, data));
        assert(self.given@.drop_last() =~= before);
    }

    /// The section called `name`.
    pub fn get(&self, name: &str) -> (r: Option<&Vec<u8>>)
        ensures
            match r {
                Some(data) => self@.contains_key(name@) && self@[name@] == data@,
                None => !self@.contains_key(name@),
            },
    {
        let ghost all = self.given@;
        let mut i: usize = self.given.len();
        assert(all.take(all.len() as int) =~= all);
        while i > 0
            invariant
                all == self.given@,
                i <= all.len(),
                section_map(all).contains_key(name@) == section_map(
                    all.take(i as int),
                ).contains_key(name@),
                section_map(all).contains_key(name@) ==> section_map(all)[name@] == section_map(
                    all.take(i as int),
                )[name@],
            decreases i,
        {
            i = i - 1;
            assert(all.take(i + 1).drop_last() =~= all.take(i as int));
            assert(all.take(i + 1).last() == all[i as int]);
            if same(self.given[i].0.as_str(), name) {
                return Some(&self.given[i].1);
            }
        }
        None
    }

    /// The contents of the section called `name`; none where it is not there.
    pub fn contents(&self, name: &str) -> (r: Vec<u8>)
        ensures
            r@ == if self@.contains_key(name@) {
                self@[name@]
            } else {
                seq![]
            },
    {
        match self.get(name) {
            Some(data) => copy_bytes(data),
            None => {
                let none: Vec<u8> = Vec::new();
                assert(none@ =~= seq![]);
                none
            },
        }
    }

    /// The sections that hold debug information, without the empty ones: what
    /// has to travel for another side to read the same debug information.
    pub fn dwarf_only(&self) -> (r: Sections)
        ensures
            r@ == dwarf_sections(self@),
    {
        let names = section_names();
        let ghost wanted = dwarf_section_names();
        let mut kept = Sections::new();
        let mut i: usize = 0;
        assert(kept@ =~= sections_among(self@, wanted.take(0)));
        while i < names.len()
            invariant
                i <= names@.len(),
                wanted == names@.map_values(|n: &'static str| n@),
                kept@ == sections_among(self@, wanted.take(i as int)),
            decreases names@.len() - i,
        {
            let name = names[i];
            assert(name@ == wanted[i as int]);
            assert(wanted.take(i + 1) =~= wanted.take(i as int).push(name@));
            let ghost before = kept@;
            assert forall|n: Seq<char>|
                wanted.take(i + 1).contains(n) <==> wanted.take(i as int).contains(n) || n
                    == name@ by {}
            if let Some(data) = self.get(name) {
                if data.len() > 0 {
                    kept.insert(own(name), copy_bytes(data));
                }
            }
            i = i + 1;
            assert(kept@ =~= sections_among(self@, wanted.take(i as int)));
        }
        assert(wanted.take(wanted.len() as int) =~= wanted);
        kept
    }
}

/// Dropping what is not debug information twice drops no more than doing it
/// once.
pub proof fn dwarf_sections_settle(all: Map<Seq<char>, Seq<u8>>)
    ensures
        dwarf_sections(dwarf_sections(all)) == dwarf_sections(all),
{
    assert(dwarf_sections(dwarf_sections(all)) =~= dwarf_sections(all));
}

/// Whether debug information is read from sections of a name.
pub open spec fn is_debug_section(name: Seq<char>) -> bool {
    ||| name == ".debug_abbrev"@
    ||| name == ".debug_addr"@
    ||| name == ".debug_aranges"@
    ||| name == ".debug_info"@
    ||| name == ".debug_line"@
    ||| name == ".debug_line_str"@
    ||| name == ".debug_loc"@
    ||| name == ".debug_loclists"@
    ||| name == ".debug_macinfo"@
    ||| name == ".debug_macro"@
    ||| name == ".debug_names"@
    ||| name == ".debug_ranges"@
    ||| name == ".debug_rnglists"@
    ||| name == ".debug_str"@
    ||| name == ".debug_str_offsets"@
    ||| name == ".debug_types"@
}

/// Every section that debug information is read from is kept as it is, unless it is
/// empty, and no other is.
pub proof fn debug_sections_are_kept(all: Map<Seq<char>, Seq<u8>>, name: Seq<char>)
    ensures
        dwarf_sections(all).contains_key(name) <==> is_debug_section(name) && all.contains_key(name)
            && all[name].len() > 0,
        dwarf_sections(all).contains_key(name) ==> dwarf_sections(all)[name] == all[name],
{
    let names = dwarf_section_names();
    if is_debug_section(name) {
        assert(names[0] == ".debug_abbrev"@);
        assert(names[1] == ".debug_addr"@);
        assert(names[2] == ".debug_aranges"@);
        assert(names[3] == ".debug_info"@);
        assert(names[4] == ".debug_line"@);
        assert(names[5] == ".debug_line_str"@);
        assert(names[6] == ".debug_macinfo"@);
        assert(names[7] == ".debug_macro"@);
        assert(names[8] == ".debug_names"@);
        assert(names[9] == ".debug_str"@);
        assert(names[10] == ".debug_str_offsets"@);
        assert(names[11] == ".debug_types"@);
        assert(names[12] == ".debug_loc"@);
        assert(names[13] == ".debug_loclists"@);
        assert(names[14] == ".debug_ranges"@);
        assert(names[15] == ".debug_rnglists"@);
    }
    if names.contains(name) {
        let k = choose|k: int| 0 <= k < names.len() && names[k] == name;
        assert(names[k] == name);
    }
}

} // verus!
