//! Collecting what the debugger needs to know of a program.
use vstd::prelude::*;

use crate::bytes::{copy_bytes, read_window};
use crate::error::DebugError;
use crate::text::own;
use crate::types::{BP_PREFIX_BYTES, CodeOffset, DebugFunction, DebugInfo, FRAME_TAG_BYTES,
    FunctionModel, MemoryDescriptor, MemoryType, PAGE_BYTES, functions_of};
use crate::wasm::module::{custom_sections, initial_pages, module_facts, module_readable};
use crate::wasm::reader::parts_of;
use super::declared::paths_lead_down;
use super::dwarf::constants::{DW_TAG_CLASS_TYPE, DW_TAG_MODULE, DW_TAG_NAMESPACE,
    DW_TAG_STRUCTURE_TYPE, DW_TAG_SUBPROGRAM, DW_TAG_UNION_TYPE};
use super::dwarf::die::DieReference;
use super::dwarf::entry::{EntryModel, as_path, is_below, path_above, path_to, pc_range, step_path,
    subtree_end};
use super::dwarf::sections::Sections;
use super::dwarf::unit::{Unit, UnitView};
use super::dwarf::{Dwarf, DwarfView, all_locations, dwarf_of, unit_views};
use super::graph::root_end;

verus! {

broadcast use vstd::seq_lib::group_seq_properties;

// ---------------------------------------------------------------------------
// The functions of a program
// ---------------------------------------------------------------------------

/// Whether functions are looked for inside entries with this tag.
pub open spec fn is_container_tag(tag: u16) -> bool {
    tag == DW_TAG_NAMESPACE || tag == DW_TAG_MODULE || tag == DW_TAG_CLASS_TYPE || tag
        == DW_TAG_STRUCTURE_TYPE || tag == DW_TAG_UNION_TYPE
}

/// Whether functions are looked for at the end of a path: the entries between
/// its first and its last hold functions.
pub open spec fn is_open_path(es: Seq<EntryModel>, path: Seq<int>) -> bool {
    path.len() > 1 && forall|k: int|
        0 < k < path.len() - 1 ==> is_container_tag(es[#[trigger] path[k]].tag)
}

/// The function that entry `i` of a unit declares: a subprogram that has code.
pub open spec fn function_of_entry(u: UnitView, i: int) -> Option<FunctionModel> {
    let e = u.entries[i];
    if e.tag == DW_TAG_SUBPROGRAM && is_open_path(u.entries, path_to(u.entries, i)) {
        match pc_range(e) {
            Some((low, high)) => Some(
                FunctionModel {
                    low_pc: CodeOffset(low),
                    high_pc: CodeOffset(high),
                    die_ref: DieReference { unit_index: u.properties.index, unit_ofs: e.offset },
                    size: FRAME_TAG_BYTES,
                    layout: seq![],
                },
            ),
            None => None,
        }
    } else {
        None
    }
}

/// The functions that the first `n` entries of a unit declare.
pub open spec fn unit_functions(u: UnitView, n: int) -> Seq<FunctionModel>
    decreases n,
{
    if n <= 0 {
        seq![]
    } else {
        let before = unit_functions(u, n - 1);
        match function_of_entry(u, n - 1) {
            Some(f) => before.push(f),
            None => before,
        }
    }
}

/// The functions that units declare, unit by unit.
pub open spec fn all_functions(units: Seq<UnitView>) -> Seq<FunctionModel>
    decreases units.len(),
{
    if units.len() == 0 {
        seq![]
    } else {
        all_functions(units.drop_last()) + unit_functions(
            units.last(),
            root_end(units.last().entries),
        )
    }
}

/// How many of the functions from `n` down start after `low`.
pub open spec fn place_by_pc(fs: Seq<FunctionModel>, low: u64, n: int) -> int
    decreases n,
{
    if n > 0 && fs[n - 1].low_pc.0 > low {
        place_by_pc(fs, low, n - 1)
    } else {
        n
    }
}

/// The functions with one more, put behind the last one that does not start
/// after it.
pub open spec fn placed_by_pc(fs: Seq<FunctionModel>, f: FunctionModel) -> Seq<FunctionModel> {
    fs.insert(place_by_pc(fs, f.low_pc.0, fs.len() as int), f)
}

/// The functions in the order of their first addresses; those that start
/// together stay in the order that they had.
pub open spec fn by_pc(fs: Seq<FunctionModel>) -> Seq<FunctionModel>
    decreases fs.len(),
{
    if fs.len() == 0 {
        seq![]
    } else {
        placed_by_pc(by_pc(fs.drop_last()), fs.last())
    }
}

/// Whether functions stand in the order of their first addresses.
pub open spec fn starts_sorted(fs: Seq<FunctionModel>) -> bool {
    forall|i: int, j: int|
        0 <= i <= j < fs.len() ==> (#[trigger] fs[i]).low_pc.0 <= (#[trigger] fs[j]).low_pc.0
}

proof fn place_bounds(fs: Seq<FunctionModel>, low: u64, n: int)
    requires
        starts_sorted(fs),
        0 <= n <= fs.len(),
        forall|i: int| n <= i < fs.len() ==> (#[trigger] fs[i]).low_pc.0 > low,
    ensures
        0 <= place_by_pc(fs, low, n) <= n,
        forall|i: int| 0 <= i < place_by_pc(fs, low, n) ==> (#[trigger] fs[i]).low_pc.0 <= low,
        forall|i: int|
            place_by_pc(fs, low, n) <= i < fs.len() ==> (#[trigger] fs[i]).low_pc.0 > low,
    decreases n,
{
    if n > 0 && fs[n - 1].low_pc.0 > low {
        place_bounds(fs, low, n - 1);
    } else if n > 0 {
        assert forall|i: int| 0 <= i < n implies (#[trigger] fs[i]).low_pc.0 <= low by {
            assert(fs[i].low_pc.0 <= fs[n - 1].low_pc.0);
        }
    }
}

/// Sorting puts functions in the order of their first addresses, and neither
/// loses nor adds one.
pub proof fn sorting_keeps_the_functions(fs: Seq<FunctionModel>)
    ensures
        starts_sorted(by_pc(fs)),
        by_pc(fs).to_multiset() == fs.to_multiset(),
    decreases fs.len(),
{
    broadcast use vstd::seq_lib::group_to_multiset_ensures;

    if fs.len() > 0 {
        let before = by_pc(fs.drop_last());
        let f = fs.last();
        sorting_keeps_the_functions(fs.drop_last());
        place_bounds(before, f.low_pc.0, before.len() as int);
        let at = place_by_pc(before, f.low_pc.0, before.len() as int);
        let after = before.insert(at, f);
        assert forall|i: int, j: int| 0 <= i <= j < after.len() implies (
        #[trigger] after[i]).low_pc.0 <= (#[trigger] after[j]).low_pc.0 by {
            let a = if i < at {
                i
            } else {
                i - 1
            };
            let b = if j < at {
                j
            } else {
                j - 1
            };
            if i != at {
                assert(after[i] == before[a]);
            }
            if j != at {
                assert(after[j] == before[b]);
            }
        }
        vstd::seq_lib::to_multiset_insert(before, at, f);
        assert(fs =~= fs.drop_last().push(f));
    }
}

/// The function that entry `i` of a unit declares.
fn entry_function(u: &Unit, path: &Vec<usize>, i: usize) -> (r: Option<DebugFunction>)
    requires
        i < u.entries@.len(),
        as_path(path@) == path_to(u@.entries, i as int),
        forall|n: int| 0 <= n < path@.len() ==> (#[trigger] path@[n]) <= i,
    ensures
        match r {
            Some(f) => function_of_entry(u@, i as int) == Some(f@),
            None => function_of_entry(u@, i as int) is None,
        },
{
    let e = &u.entries[i];
    let ghost es = u@.entries;
    assert(es[i as int] == e@);
    if e.tag != DW_TAG_SUBPROGRAM || path.len() <= 1 {
        return None;
    }
    let ghost way = as_path(path@);
    let mut k: usize = 1;
    while k < path.len() - 1
        invariant
            1 <= k <= path@.len() - 1,
            way == as_path(path@),
            way == path_to(es, i as int),
            es == u@.entries,
            i < u.entries@.len(),
            forall|n: int| 0 <= n < path@.len() ==> (#[trigger] path@[n]) <= i,
            forall|n: int| 0 < n < k ==> is_container_tag(es[#[trigger] way[n]].tag),
        decreases path@.len() - k,
    {
        let at: usize = path[k];
        let tag: u16 = u.entries[at].tag;
        assert(es[way[k as int]] == u.entries@[at as int]@);
        if !(tag == DW_TAG_NAMESPACE || tag == DW_TAG_MODULE || tag == DW_TAG_CLASS_TYPE || tag
            == DW_TAG_STRUCTURE_TYPE || tag == DW_TAG_UNION_TYPE) {
            assert(!is_open_path(es, way)) by {
                assert(!is_container_tag(es[way[k as int]].tag));
            }
            return None;
        }
        k = k + 1;
    }
    match e.pc_range() {
        Some((low, high)) => {
            let f = DebugFunction {
                low_pc: CodeOffset(low),
                high_pc: CodeOffset(high),
                die_ref: DieReference { unit_index: u.properties.index, unit_ofs: e.offset },
                size: FRAME_TAG_BYTES,
                layout: Vec::new(),
            };
            assert(f.layout@ =~= seq![]);
            Some(f)
        },
        None => None,
    }
}

/// Adds the functions that a unit declares.
fn parse_unit_functions(u: &Unit, functions: &mut Vec<DebugFunction>)
    ensures
        functions_of(final(functions)@) == functions_of(old(functions)@) + unit_functions(
            u@,
            root_end(u@.entries),
        ),
{
    let ghost all = u@.entries;
    let ghost given = functions@;
    let mut path: Vec<usize> = Vec::new();
    let mut i: usize = 0;
    let len: usize = u.entries.len();
    assert(as_path(path@) =~= path_to(all, -1));
    assert(functions_of(given) + unit_functions(u@, 0) =~= functions_of(given));
    while i < len && (i == 0 || u.entries[i].depth > u.entries[0].depth)
        invariant
            all == u@.entries,
            len == u.entries@.len() == all.len(),
            i <= len,
            i == 0 || subtree_end(all, 0, 1) == subtree_end(all, 0, i as int),
            as_path(path@) == path_to(all, i - 1),
            forall|n: int| 0 <= n < path@.len() ==> (#[trigger] path@[n]) < i,
            functions_of(functions@) == functions_of(given) + unit_functions(u@, i as int),
        decreases len - i,
    {
        assert(all[i as int] == u.entries@[i as int]@);
        assert(all[0] == u.entries@[0]@);
        step_path(&u.entries, &mut path, i);
        let ghost before = functions@;
        if let Some(f) = entry_function(u, &path, i) {
            functions.push(f);
            assert(functions_of(functions@) =~= functions_of(before).push(f@));
            assert(functions_of(given) + unit_functions(u@, i + 1) =~= (functions_of(given)
                + unit_functions(u@, i as int)).push(f@));
        }
        i = i + 1;
    }
    assert(i == root_end(all)) by {
        if all.len() > 0 {
            if i < len {
                assert(all[i as int] == u.entries@[i as int]@);
                assert(all[0] == u.entries@[0]@);
            }
        }
    }
}

/// Puts functions in the order of their first addresses.
fn sort_functions(given: Vec<DebugFunction>) -> (r: Vec<DebugFunction>)
    ensures
        functions_of(r@) == by_pc(functions_of(given@)),
{
    let ghost all = functions_of(given@);
    let mut rest = given;
    let mut sorted: Vec<DebugFunction> = Vec::new();
    let mut left: Vec<DebugFunction> = Vec::new();
    // Taking from the end of a reversed list takes in the given order.
    while rest.len() > 0
        invariant
            functions_of(rest@) + functions_of(left@).reverse() =~= all,
        decreases rest@.len(),
    {
        let ghost r0 = rest@;
        let ghost l0 = left@;
        if let Some(f) = rest.pop() {
            left.push(f);
            assert(functions_of(r0) =~= functions_of(rest@).push(f@));
            assert(functions_of(left@) =~= functions_of(l0).push(f@));
            assert(functions_of(left@).reverse() =~= seq![f@] + functions_of(l0).reverse());
        }
    }
    assert(functions_of(rest@) =~= seq![]);
    let ghost mut n: int = 0;
    assert(by_pc(all.take(0)) =~= seq![]);
    assert(functions_of(sorted@) =~= seq![]);
    assert(all.skip(0) =~= functions_of(left@).reverse());
    while left.len() > 0
        invariant
            0 <= n <= all.len(),
            functions_of(left@).reverse() == all.skip(n),
            functions_of(sorted@) == by_pc(all.take(n)),
        decreases left@.len(),
    {
        let ghost l0 = left@;
        if let Some(f) = left.pop() {
            assert(functions_of(l0) =~= functions_of(left@).push(f@));
            assert(functions_of(l0).reverse()[0] == f@);
            assert(functions_of(l0).reverse().skip(1) =~= functions_of(left@).reverse());
            assert(all.skip(n)[0] == all[n]);
            assert(all.skip(n).skip(1) =~= all.skip(n + 1));
            assert(all.take(n + 1).drop_last() =~= all.take(n));
            assert(all.take(n + 1).last() == f@);
            insert_by_pc(&mut sorted, f);
            proof {
                n = n + 1;
            }
        }
    }
    assert(all.skip(n).len() == 0);
    assert(all.take(n) =~= all);
    sorted
}

fn insert_by_pc(sorted: &mut Vec<DebugFunction>, f: DebugFunction)
    ensures
        functions_of(final(sorted)@) == placed_by_pc(functions_of(old(sorted)@), f@),
{
    let ghost before = functions_of(sorted@);
    let mut at: usize = sorted.len();
    while at > 0 && sorted[at - 1].low_pc.0 > f.low_pc.0
        invariant
            before == functions_of(sorted@),
            at <= sorted@.len(),
            place_by_pc(before, f.low_pc.0, before.len() as int) == place_by_pc(
                before,
                f.low_pc.0,
                at as int,
            ),
        decreases at,
    {
        assert(before[at - 1] == sorted@[at - 1]@);
        at = at - 1;
    }
    assert(place_by_pc(before, f.low_pc.0, at as int) == at) by {
        if at > 0 {
            assert(before[at - 1] == sorted@[at - 1]@);
        }
    }
    sorted.insert(at, f);
    assert(functions_of(sorted@) =~= before.insert(at as int, f@));
}

/// The functions of a program, sorted by low_pc.
pub fn collect_functions(dwarf: &Dwarf) -> (r: Vec<DebugFunction>)
    ensures
        functions_of(r@) == by_pc(all_functions(dwarf@.units)),
{
    let list = dwarf.units();
    let ghost all = dwarf@.units;
    let mut functions: Vec<DebugFunction> = Vec::new();
    let mut i: usize = 0;
    assert(functions_of(functions@) =~= all_functions(all.take(0)));
    while i < list.len()
        invariant
            all == unit_views(list@),
            i <= list@.len(),
            functions_of(functions@) == all_functions(all.take(i as int)),
        decreases list@.len() - i,
    {
        assert(all[i as int] == list@[i as int]@);
        assert(all.take(i + 1).drop_last() =~= all.take(i as int));
        assert(all.take(i + 1).last() == list@[i as int]@);
        parse_unit_functions(&list[i], &mut functions);
        i = i + 1;
    }
    assert(all.take(all.len() as int) =~= all);
    sort_functions(functions)
}

// ---------------------------------------------------------------------------
// Debug information
// ---------------------------------------------------------------------------

/// A breakpoint buffer for `n` locations: a running program, in normal mode,
/// and no breakpoint set.
pub open spec fn fresh_buffer(n: nat) -> Seq<u8> {
    Seq::new(BP_PREFIX_BYTES as nat + n, |i: int| 0u8)
}

/// The breakpoint buffer of a program.
pub fn create_breakpoints_buffer(num_locations: usize) -> (r: Vec<u8>)
    requires
        BP_PREFIX_BYTES + num_locations <= usize::MAX,
    ensures
        r@ == fresh_buffer(num_locations as nat),
{
    let none: Vec<u8> = Vec::new();
    let buffer = read_window(&none, 0, BP_PREFIX_BYTES + num_locations);
    assert(buffer@ =~= fresh_buffer(num_locations as nat));
    buffer
}

/// The names of the sections that hold entries, lines and their texts.
pub open spec fn core_section_names() -> Seq<Seq<char>> {
    seq![".debug_abbrev"@, ".debug_info"@, ".debug_line"@, ".debug_line_str"@, ".debug_str"@]
}

/// Of the sections, those called by one of `names`.
pub open spec fn sections_called(
    all: Map<Seq<char>, Seq<u8>>,
    names: Seq<Seq<char>>,
) -> Map<Seq<char>, Seq<u8>> {
    Map::new(
        |name: Seq<char>| names.contains(name) && all.contains_key(name),
        |name: Seq<char>| all[name],
    )
}

fn core_names() -> (r: Vec<&'static str>)
    ensures
        r@.map_values(|n: &'static str| n@) == core_section_names(),
{
    let r = vec![".debug_abbrev", ".debug_info", ".debug_line", ".debug_line_str", ".debug_str"];
    assert(r@.map_values(|n: &'static str| n@) =~= core_section_names());
    r
}

/// The sections that hold entries, lines and their texts.
pub fn collect_dwarf_bytes(sections: &Sections) -> (r: Sections)
    ensures
        r@ == sections_called(sections@, core_section_names()),
{
    let names = core_names();
    let ghost wanted = core_section_names();
    let mut out = Sections::new();
    let mut i: usize = 0;
    assert(out@ =~= sections_called(sections@, wanted.take(0)));
    while i < names.len()
        invariant
            i <= names@.len(),
            wanted == names@.map_values(|n: &'static str| n@),
            out@ == sections_called(sections@, wanted.take(i as int)),
        decreases names@.len() - i,
    {
        let name = names[i];
        assert(name@ == wanted[i as int]);
        assert(wanted.take(i + 1) =~= wanted.take(i as int).push(name@));
        assert forall|n: Seq<char>|
            wanted.take(i + 1).contains(n) <==> wanted.take(i as int).contains(n) || n
                == name@ by {}
        if let Some(data) = sections.get(name) {
            out.insert(own(name), copy_bytes(data));
        }
        i = i + 1;
        assert(out@ =~= sections_called(sections@, wanted.take(i as int)));
    }
    assert(wanted.take(wanted.len() as int) =~= wanted);
    out
}

/// The debug information that sections hold.
pub fn to_dwarf(bytes: &Sections) -> (r: Dwarf)
    ensures
        r@ == dwarf_of(bytes@),
        r.wf(),
{
    Dwarf::from_sections(bytes).unwrap()
}

/// How many pages a memory can have.
pub const MAX_PAGES: u32 = 65536;

/// How often a program's memory can grow by its initial size.
pub const MEMORY_GROWTH: u32 = 16;

/// How many pages the debug stack has.
pub const STACK_PAGES: u32 = 16;

/// Whether `info` is what is known of a program before it is instrumented.
pub open spec fn is_info_of(info: DebugInfo, dwarf: DwarfView, pages: u32) -> bool {
    &&& info.dwarf@ == dwarf
    &&& info@.functions == by_pc(all_functions(dwarf.units))
    &&& info@.locations == all_locations(dwarf.units)
    &&& info@.breakpoints == fresh_buffer(info@.locations.len())
    &&& info.memory@ == Seq::new((pages * PAGE_BYTES) as nat, |i: int| 0u8)
    &&& info.memory.ty == (MemoryType {
        minimum: pages,
        maximum: Some((pages * MEMORY_GROWTH) as u32),
        shared: true,
    })
    &&& info.stack@ == Seq::new((STACK_PAGES * PAGE_BYTES) as nat, |i: int| 0u8)
    &&& info.stack.ty == (MemoryType {
        minimum: STACK_PAGES,
        maximum: Some(STACK_PAGES),
        shared: true,
    })
    &&& info.separate_stack
}

/// Parse DWARF debug info from WASM bytes.
///
/// Fails where the module cannot be read, and where its memory could not grow
/// as far as it is allowed to.
pub fn parse_debug_info(wasm_bytes: &Vec<u8>) -> (r: Result<DebugInfo, DebugError>)
    ensures
        ({
            let parts = parts_of(wasm_bytes@);
            let dwarf = dwarf_of(custom_sections(parts));
            match r {
                Ok(info) => {
                    &&& module_readable(parts)
                    &&& initial_pages(parts) is Ok
                    &&& initial_pages(parts)->Ok_0 * MEMORY_GROWTH <= MAX_PAGES
                    &&& is_info_of(info, dwarf, initial_pages(parts)->Ok_0)
                },
                Err(DebugError::Malformed) => !module_readable(parts) || initial_pages(
                    parts,
                ) is Err,
                Err(e) => {
                    &&& e == DebugError::OutOfRange
                    &&& module_readable(parts)
                    &&& initial_pages(parts) is Ok
                    &&& initial_pages(parts)->Ok_0 * MEMORY_GROWTH > MAX_PAGES
                        || all_locations(dwarf.units).len() + BP_PREFIX_BYTES > usize::MAX
                },
            }
        }),
{
    let facts = match module_facts(wasm_bytes) {
        Ok(facts) => facts,
        Err(e) => {
            return Err(e);
        },
    };
    let pages: u32 = match facts.initial_pages {
        Ok(pages) => pages,
        Err(_) => {
            return Err(DebugError::Malformed);
        },
    };
    if pages > MAX_PAGES / MEMORY_GROWTH {
        return Err(DebugError::OutOfRange);
    }
    let dwarf = match Dwarf::from_sections(&facts.sections) {
        Ok(dwarf) => dwarf,
        Err(e) => {
            return Err(e);
        },
    };
    let functions = collect_functions(&dwarf);
    let locations = dwarf.locations();
    if locations.len() > usize::MAX - BP_PREFIX_BYTES {
        return Err(DebugError::OutOfRange);
    }
    let breakpoints = create_breakpoints_buffer(locations.len());
    let memory = MemoryDescriptor::new(pages, MEMORY_GROWTH * pages);
    let stack = MemoryDescriptor::new(STACK_PAGES, STACK_PAGES);
    Ok(
        DebugInfo {
            functions,
            locations,
            breakpoints,
            memory,
            stack,
            separate_stack: true,
            dwarf,
        },
    )
}

// ---------------------------------------------------------------------------
// What is collected
// ---------------------------------------------------------------------------

/// Whether functions are looked for inside an entry: it is a namespace, a module, a
/// class, a structure or a union.
pub open spec fn may_hold_functions(e: EntryModel) -> bool {
    e.tag == 0x39 || e.tag == 0x1e || e.tag == 0x02 || e.tag == 0x13 || e.tag == 0x17
}

/// An entry of a unit is taken for a function where it is a subprogram with addresses,
/// and what it is in, below the unit itself, may hold functions. The function has the
/// addresses of the entry and names the entry; its frame holds four bytes and no value.
pub proof fn functions_are_subprograms_with_code(u: UnitView, i: int)
    requires
        is_below(u.entries, 0, i),
    ensures
        function_of_entry(u, i) is Some <==> {
            &&& u.entries[i].tag == 0x2e
            &&& pc_range(u.entries[i]) is Some
            &&& forall|a: int|
                0 < a && #[trigger] is_below(u.entries, a, i) ==> may_hold_functions(u.entries[a])
        },
        function_of_entry(u, i) matches Some(f) ==> {
            &&& (f.low_pc.0, f.high_pc.0) == pc_range(u.entries[i])->0
            &&& f.die_ref.unit_index == u.properties.index
            &&& f.die_ref.unit_ofs == u.entries[i].offset
            &&& f.size == 4
            &&& f.layout.len() == 0
        },
{
    let es = u.entries;
    let path = path_to(es, i);
    paths_lead_down(es, i, 0);
    assert(path.contains(0));
    let z = choose|z: int| 0 <= z < path.len() && path[z] == 0;
    paths_lead_down(es, i, i);
    if z > 0 {
        path_is_within(es, i, 0);
        assert(path[0] < path[z]);
    }
    assert(path[0] == 0);
    assert(path.last() == i);
    assert(path.len() > 1);
    if is_open_path(es, path) {
        assert forall|a: int| 0 < a && #[trigger] is_below(es, a, i) implies may_hold_functions(
            es[a],
        ) by {
            paths_lead_down(es, i, a);
            let k = choose|k: int| 0 <= k < path.len() && path[k] == a;
            assert(0 < k < path.len() - 1);
            assert(is_container_tag(es[path[k]].tag));
        }
    }
    if forall|a: int| 0 < a && #[trigger] is_below(es, a, i) ==> may_hold_functions(es[a]) {
        assert forall|k: int| 0 < k < path.len() - 1 implies is_container_tag(
            es[#[trigger] path[k]].tag,
        ) by {
            path_is_within(es, i, k);
            assert(path[k] < path[path.len() - 1]);
            assert(path[0] < path[k]);
            paths_lead_down(es, i, path[k]);
            assert(path.contains(path[k]));
            assert(is_below(es, path[k], i));
        }
    }
}

pub(crate) proof fn path_is_within(es: Seq<EntryModel>, i: int, k: int)
    requires
        0 <= i,
        0 <= k < path_to(es, i).len(),
    ensures
        0 <= path_to(es, i)[k] <= i,
    decreases i,
{
    let outer = path_to(es, i - 1);
    let above = path_above(es, outer, es[i].depth);
    if k < above.len() {
        path_is_cut(es, outer, es[i].depth);
        assert(above[k] == outer[k]);
        if i > 0 {
            path_is_within(es, i - 1, k);
        }
    }
}

proof fn path_is_cut(es: Seq<EntryModel>, path: Seq<int>, depth: isize)
    ensures
        path_above(es, path, depth).len() <= path.len(),
        path_above(es, path, depth) == path.take(path_above(es, path, depth).len() as int),
    decreases path.len(),
{
    assert(path.take(path.len() as int) =~= path);
    if path.len() > 0 && es[path.last()].depth >= depth {
        path_is_cut(es, path.drop_last(), depth);
        let n = path_above(es, path.drop_last(), depth).len() as int;
        assert(path.drop_last().take(n) =~= path.take(n));
    }
}

/// The functions of a program are those of its units, one unit after the other, each
/// in the order of its entries.
pub proof fn functions_come_in_order(u: UnitView, n: int, units: Seq<UnitView>)
    requires
        0 <= n,
    ensures
        match function_of_entry(u, n) {
            Some(f) => unit_functions(u, n + 1) == unit_functions(u, n).push(f),
            None => unit_functions(u, n + 1) == unit_functions(u, n),
        },
        unit_functions(u, 0).len() == 0,
        all_functions(units.push(u)) == all_functions(units) + unit_functions(
            u,
            root_end(u.entries),
        ),
        all_functions(seq![]).len() == 0,
{
    assert(units.push(u).drop_last() =~= units);
}

/// A program starts in normal mode with no breakpoint set: eight bytes and one for each
/// place, all of them zero. Its memory has as many pages as the module asks for, each
/// of 64 KiB, and may grow to sixteen times as many, which must not be beyond what 32
/// bits can address; the debug stack has sixteen.
pub proof fn programs_start_afresh(info: DebugInfo, dwarf: DwarfView, pages: u32)
    requires
        is_info_of(info, dwarf, pages),
    ensures
        info@.breakpoints.len() == 8 + info@.locations.len(),
        forall|i: int| 0 <= i < info@.breakpoints.len() ==> #[trigger] info@.breakpoints[i] == 0,
        info.memory@.len() == pages * 65536,
        info.memory.ty.minimum == pages,
        pages <= 0x1000 ==> info.memory.ty.maximum == Some((16 * pages) as u32),
        info.stack@.len() == 0x10_0000,
        info.stack.ty.minimum == 16,
        info.stack.ty.maximum == Some(16u32),
        info.memory.ty.shared && info.stack.ty.shared,
        MAX_PAGES * 65536 == 0x1_0000_0000,
        MEMORY_GROWTH == 16,
{
}

} // verus!
