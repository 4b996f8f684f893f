//! What a module holds beside its code: custom sections and memories.
use vstd::prelude::*;

use crate::debug::dwarf::sections::Sections;
use crate::debug::dwarf::{Dwarf, dwarf_of};
use crate::error::DebugError;
use super::reader::{ModulePart, PartModel, next_part, part_cursor, part_model, parts_left, parts_of};

verus! {

broadcast use vstd::seq_lib::group_seq_properties;

/// Whether all parts of a module can be read.
pub open spec fn module_readable(parts: Seq<Option<PartModel>>) -> bool {
    forall|i: int| 0 <= i < parts.len() ==> (#[trigger] parts[i]) is Some
}

/// The custom sections of a module by name: the last of each name.
pub open spec fn custom_sections(parts: Seq<Option<PartModel>>) -> Map<Seq<char>, Seq<u8>>
    decreases parts.len(),
{
    if parts.len() == 0 {
        Map::empty()
    } else {
        let before = custom_sections(parts.drop_last());
        match parts.last() {
            Some(PartModel::Custom(name, data)) => before.insert(name, data),
            _ => before,
        }
    }
}

/// The initial size of a module's first memory in pages, 0 where it has none,
/// and an error where it cannot be read.
pub open spec fn initial_pages(parts: Seq<Option<PartModel>>) -> Result<u32, ()>
    decreases parts.len(),
{
    if parts.len() == 0 {
        Ok(0)
    } else {
        match (initial_pages(parts.drop_last()), parts.last()) {
            (Ok(_), Some(PartModel::Memory(Some(Ok(pages))))) => Ok(pages as u32),
            (Ok(_), Some(PartModel::Memory(Some(Err(_))))) => Err(()),
            (before, _) => before,
        }
    }
}

/// What a module holds beside its code.
#[derive(Debug)]
pub struct ModuleFacts {
    /// The custom sections.
    pub sections: Sections,
    /// The initial size of the first memory in pages, where it can be read.
    pub initial_pages: Result<u32, ()>,
}

/// Reads what a module holds beside its code.
pub fn module_facts(wasm: &Vec<u8>) -> (r: Result<ModuleFacts, DebugError>)
    ensures
        match r {
            Ok(facts) => {
                &&& module_readable(parts_of(wasm@))
                &&& facts.sections@ == custom_sections(parts_of(wasm@))
                &&& facts.initial_pages == initial_pages(parts_of(wasm@))
            },
            Err(e) => !module_readable(parts_of(wasm@)) && e == DebugError::Malformed,
        },
{
    let ghost all = parts_of(wasm@);
    let mut cursor = part_cursor(wasm);
    let mut sections = Sections::new();
    let mut pages: Result<u32, ()> = Ok(0);
    let ghost mut n: int = 0;
    assert(all.skip(0) =~= all);
    assert(sections@ =~= custom_sections(all.take(0)));
    loop
        invariant
            all == parts_of(wasm@),
            0 <= n <= all.len(),
            parts_left(cursor) == all.skip(n),
            forall|i: int| 0 <= i < n ==> (#[trigger] all[i]) is Some,
            sections@ == custom_sections(all.take(n)),
            pages == initial_pages(all.take(n)),
        decreases all.len() - n,
    {
        let ghost rest = all.skip(n);
        let part = match next_part(&mut cursor) {
            Ok(Some(part)) => part,
            Ok(None) => {
                assert(all.take(n) =~= all);
                return Ok(ModuleFacts { sections, initial_pages: pages });
            },
            Err(_) => {
                assert(rest[0] == all[n]);
                return Err(DebugError::Malformed);
            },
        };
        assert(rest[0] == all[n]);
        assert(rest.skip(1) =~= all.skip(n + 1));
        assert(all.take(n + 1).drop_last() =~= all.take(n));
        assert(all.take(n + 1).last() == Some(part_model(part)));
        match part {
            ModulePart::Custom(name, data) => {
                sections.insert(name, data);
            },
            ModulePart::Memory(Some(initial)) => {
                if pages.is_ok() {
                    pages = match initial {
                        Ok(initial) => Ok(initial as u32),
                        Err(_) => Err(()),
                    };
                }
            },
            _ => {},
        }
        proof {
            n = n + 1;
        }
    }
}

impl Dwarf {
    /// Load Dwarf from a WASM binary.
    pub fn from_wasm(wasm: &Vec<u8>) -> (r: Result<Dwarf, DebugError>)
        ensures
            match r {
                Ok(dwarf) => {
                    &&& module_readable(parts_of(wasm@))
                    &&& dwarf@ == dwarf_of(custom_sections(parts_of(wasm@)))
                    &&& dwarf.wf()
                },
                Err(e) => !module_readable(parts_of(wasm@)) && e == DebugError::Malformed,
            },
    {
        match module_facts(wasm) {
            Ok(facts) => Dwarf::from_sections(&facts.sections),
            Err(e) => Err(e),
        }
    }
}

// ---------------------------------------------------------------------------
// What a module says
// ---------------------------------------------------------------------------

/// One more part of a module adds its bytes under its name where it is a custom
/// section, in place of what had the name before; the other sections stay. It gives
/// the size of the memory where it is a memory section with one.
pub proof fn parts_say_what_a_module_holds(parts: Seq<Option<PartModel>>, part: Option<PartModel>)
    ensures
        ({
            let before = custom_sections(parts);
            let after = custom_sections(parts.push(part));
            match part {
                Some(PartModel::Custom(name, data)) => {
                    &&& after.contains_key(name) && after[name] == data
                    &&& forall|other: Seq<char>|
                        other != name ==> (#[trigger] after.contains_key(other)
                            <==> before.contains_key(other))
                    &&& forall|other: Seq<char>|
                        other != name && before.contains_key(other) ==> #[trigger] after[other]
                            == before[other]
                },
                _ => after == before,
            }
        }),
        ({
            let before = initial_pages(parts);
            let after = initial_pages(parts.push(part));
            match part {
                Some(PartModel::Memory(Some(Ok(pages)))) => if before is Ok {
                    after is Ok && (pages <= u32::MAX ==> after->Ok_0 == pages)
                } else {
                    after is Err
                },
                Some(PartModel::Memory(Some(Err(_)))) => after is Err,
                _ => after == before,
            }
        }),
        custom_sections(seq![]).dom().len() == 0,
        initial_pages(seq![]) == Ok::<u32, ()>(0),
{
    assert(parts.push(part).drop_last() =~= parts);
}

} // verus!
