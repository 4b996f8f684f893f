//! Frames of the debug stack, and the variables in them.
use vstd::prelude::*;

use crate::bytes::{low_bytes_come_first, window};
use crate::debug::declared::paths_lead_down;
use crate::debug::dwarf::constants::{DW_AT_LOCATION, DW_AT_LOW_PC, DW_AT_NAME,
    DW_TAG_FORMAL_PARAMETER, DW_TAG_SUBPROGRAM, DW_TAG_VARIABLE};
use crate::debug::dwarf::entry::{AttrValue, EntryModel, ValueModel, as_path, attr_address,
    attr_value, child_indices, children, is_below, name_of, path_to, step_path, subtree_end,
    subtree_end_bounds};
use crate::debug::dwarf::expression::{ExprOp, operations_of};
use crate::debug::dwarf::unit::{Unit, UnitView};
use crate::debug::dwarf::{Dwarf, unit_views};
use crate::debug::graph::root_end;
use crate::debug::info::path_is_within;
use crate::text::own;
use crate::types::WasmLocation;
use super::values::{CTypeModel, HostValue, HostValueModel, VarLoc, c_val_type, format_value, four_at,
    frame_base_global_from_entry, given_frame_base, location_of, own_expression, read_kind,
    read_word, shown_value, type_of_variable, variable_type, wasm_loc_from_expr, word_at};

verus! {

broadcast use vstd::seq_lib::group_seq_properties;

// ---------------------------------------------------------------------------
// What the host knows of a program
// ---------------------------------------------------------------------------

/// One saved value in a debug frame.
#[derive(Debug)]
pub struct FrameSlot {
    /// The byte offset of the value in its frame.
    pub offset: usize,
    /// What the value is the value of.
    pub location: WasmLocation,
    /// The breakpoints at which the value is saved.
    pub lifetime: Vec<usize>,
}

/// The mathematical value of a [`FrameSlot`].
pub struct SlotModel {
    pub offset: usize,
    pub location: WasmLocation,
    pub lifetime: Seq<usize>,
}

impl View for FrameSlot {
    type V = SlotModel;

    open spec fn view(&self) -> SlotModel {
        SlotModel { offset: self.offset, location: self.location, lifetime: self.lifetime@ }
    }
}

/// The values of a list of slots.
pub open spec fn slots_of(v: Seq<FrameSlot>) -> Seq<SlotModel> {
    v.map_values(|s: FrameSlot| s@)
}

/// A function that can be debugged.
#[derive(Debug)]
pub struct HostFunction {
    /// The first address in this function
    pub address: usize,
    /// The total size in bytes of the stack frame, including its tag
    pub size: usize,
    pub layout: Vec<FrameSlot>,
    pub name: String,
}

/// What the host knows of a program.
#[derive(Debug)]
pub struct HostInfo {
    pub functions: Vec<HostFunction>,
    /// Four words, and one flag for each breakpoint location. The words are:
    /// the sentinel (pause/resume), the mode, the breakpoint that was hit, and
    /// the saved stack pointer.
    pub breakpoints: Vec<u8>,
    /// The program's linear memory.
    pub memory: Vec<u8>,
    /// The debug stack.
    pub stack: Vec<u8>,
    pub dwarf: Dwarf,
}

impl HostInfo {
    /// The saved stack pointer, 0 while the program runs.
    pub open spec fn saved_sp(&self) -> u32 {
        word_at(self.breakpoints@, 12)
    }

    /// The breakpoint that was hit.
    pub open spec fn hit(&self) -> u32 {
        word_at(self.breakpoints@, 8)
    }
}

// ---------------------------------------------------------------------------
// The call stack
// ---------------------------------------------------------------------------

/// The function that the frame at `at` names, where the frame's tag lies on
/// the stack.
pub open spec fn tagged_function(info: &HostInfo, at: int) -> Option<int> {
    if at + 4 <= info.stack@.len() && word_at(info.stack@, at) < info.functions@.len() {
        Some(word_at(info.stack@, at) as int)
    } else {
        None
    }
}

/// The functions of the frames from `at` on. Each frame starts with the number
/// of its function; callers lie at higher addresses.
pub open spec fn call_stack(info: &HostInfo, at: int) -> Seq<int>
    decreases info.stack@.len() + 0x1_0000_0000 - at,
{
    match tagged_function(info, at) {
        None => seq![],
        Some(f) => {
            let size = info.functions@[f].size as u32;
            if size == 0 {
                seq![f]
            } else {
                seq![f] + call_stack(info, at + size)
            }
        },
    }
}

/// Where frame `n` from `at` on starts.
pub open spec fn frame_start(info: &HostInfo, at: int, n: nat) -> Option<int>
    decreases n,
{
    match tagged_function(info, at) {
        None => None,
        Some(f) => {
            let size = info.functions@[f].size as u32;
            if n == 0 {
                Some(at)
            } else if size == 0 {
                None
            } else {
                frame_start(info, at + size, (n - 1) as nat)
            }
        },
    }
}

/// A frame can be found by its number exactly where it is on the call stack,
/// and the function found there is the one that the call stack shows.
pub proof fn frames_are_found_by_number(info: &HostInfo, at: int, n: nat)
    ensures
        match frame_start(info, at, n) {
            Some(start) => {
                &&& n < call_stack(info, at).len()
                &&& tagged_function(info, start) == Some(call_stack(info, at)[n as int])
            },
            None => n >= call_stack(info, at).len(),
        },
    decreases n,
{
    if let Some(f) = tagged_function(info, at) {
        let size = info.functions@[f].size as u32;
        if n > 0 && size != 0 {
            frames_are_found_by_number(info, at + size, (n - 1) as nat);
        }
    }
}

/// A single frame in the call stack when execution is paused.
#[derive(Debug)]
pub struct StackFrame {
    pub name: String,
    /// The function's number.
    pub function: u32,
}

/// Whether `frames` shows the functions `stack`.
pub open spec fn shows_stack(info: &HostInfo, frames: Seq<StackFrame>, stack: Seq<int>) -> bool {
    &&& frames.len() == stack.len()
    &&& forall|i: int|
        0 <= i < frames.len() ==> (#[trigger] frames[i]).function == stack[i] && frames[i].name@
            == info.functions@[stack[i]].name@
}

// ---------------------------------------------------------------------------
// Variables
// ---------------------------------------------------------------------------

/// A resolved variable value for a single frame.
#[derive(Debug)]
pub struct Variable {
    pub name: String,
    /// C type name (e.g. "int", "float*").
    pub ty: String,
    pub value: HostValue,
}

/// The mathematical value of a [`Variable`].
pub struct VariableModel {
    pub name: Seq<char>,
    pub ty: Seq<char>,
    pub value: HostValueModel,
}

impl View for Variable {
    type V = VariableModel;

    open spec fn view(&self) -> VariableModel {
        VariableModel { name: self.name@, ty: self.ty@, value: self.value@ }
    }
}

/// The values of a list of variables.
pub open spec fn variables_of(v: Seq<Variable>) -> Seq<VariableModel> {
    v.map_values(|x: Variable| x@)
}

/// A frame that variables are read from.
pub struct FrameView {
    pub stack: Seq<u8>,
    pub memory: Seq<u8>,
    pub layout: Seq<SlotModel>,
    /// Where the frame starts.
    pub start: u32,
    /// The breakpoint that was hit.
    pub hit: usize,
    /// Whether this is the frame of a caller. The breakpoint was hit in a
    /// callee, so what the frame holds was saved at another one.
    pub caller: bool,
}

/// The first slot that holds a value now.
pub open spec fn slot_for(layout: Seq<SlotModel>, location: WasmLocation, hit: usize, caller: bool) -> Option<
    SlotModel,
>
    decreases layout.len(),
{
    if layout.len() == 0 {
        None
    } else if layout[0].location == location && (caller || layout[0].lifetime.contains(hit)) {
        Some(layout[0])
    } else {
        slot_for(layout.skip(1), location, hit, caller)
    }
}

/// Where a saved value lies on the debug stack.
pub open spec fn saved_at(f: FrameView, location: WasmLocation) -> Option<u32> {
    match slot_for(f.layout, location, f.hit, f.caller) {
        Some(s) => Some(
            vstd::wrapping::u32_specs::wrapping_add(f.start, s.offset as u32),
        ),
        None => None,
    }
}

/// The address in linear memory that lies `offset` from the value of a global.
pub open spec fn memory_address(f: FrameView, global: usize, offset: i64) -> Option<u32> {
    match saved_at(f, WasmLocation::Global(global)) {
        Some(at) => Some(
            vstd::wrapping::i64_specs::wrapping_add(
                word_at(f.stack, at as int) as i64,
                offset,
            ) as u32,
        ),
        None => None,
    }
}

/// What is shown of a value at a location. Operands are not shown.
pub open spec fn value_at(f: FrameView, loc: VarLoc, base: usize, t: CTypeModel) -> Option<
    HostValueModel,
> {
    let ty = read_kind(t.kind, t.byte_size);
    match loc {
        VarLoc::Wasm(WasmLocation::Operand(_)) => None,
        VarLoc::Wasm(location) => match saved_at(f, location) {
            Some(at) => Some(shown_value(f.stack, at, ty, t.kind)),
            None => None,
        },
        VarLoc::FrameRelative(offset) => match memory_address(f, base, offset) {
            Some(at) => Some(shown_value(f.memory, at, ty, t.kind)),
            None => None,
        },
        VarLoc::GlobalPlusOffset { global_idx, offset } => match memory_address(
            f,
            global_idx,
            offset as i64,
        ) {
            Some(at) => Some(shown_value(f.memory, at, ty, t.kind)),
            None => None,
        },
    }
}

/// The variable that an entry declares, where it has a name and a value.
pub open spec fn variable_of(u: UnitView, e: EntryModel, f: FrameView, base: usize) -> Option<
    VariableModel,
> {
    match (name_of(e), own_expression(e, DW_AT_LOCATION)) {
        (Some(name), Some(expr)) => match location_of(operations_of(expr, u.encoding)) {
            Some(loc) => {
                let t = variable_type(u.entries, e);
                match value_at(f, loc, base, t) {
                    Some(value) => Some(VariableModel { name, ty: t.name, value }),
                    None => None,
                }
            },
            None => None,
        },
        _ => None,
    }
}

/// The variables among the entries `all`.
pub open spec fn variables_among(u: UnitView, all: Seq<int>, f: FrameView, base: usize) -> Seq<
    VariableModel,
>
    decreases all.len(),
{
    if all.len() == 0 {
        seq![]
    } else {
        let before = variables_among(u, all.drop_last(), f, base);
        let e = u.entries[all.last()];
        if e.tag == DW_TAG_VARIABLE || e.tag == DW_TAG_FORMAL_PARAMETER {
            match variable_of(u, e, f, base) {
                Some(v) => before.push(v),
                None => before,
            }
        } else {
            before
        }
    }
}

/// Whether entry `i` is a subprogram that starts at `address` and does not
/// stand inside another one.
pub open spec fn is_subprogram_at(es: Seq<EntryModel>, i: int, address: usize) -> bool {
    &&& es[i].tag == DW_TAG_SUBPROGRAM
    &&& attr_address(es[i], DW_AT_LOW_PC) matches Some(a) && a as usize == address
    &&& forall|k: int|
        0 <= k < path_to(es, i).len() - 1 ==> es[#[trigger] path_to(es, i)[k]].tag
            != DW_TAG_SUBPROGRAM
}

/// The first subprogram from entry `i` on, up to `end`, that starts at
/// `address`.
pub open spec fn subprogram_from(es: Seq<EntryModel>, i: int, end: int, address: usize) -> Option<
    int,
>
    decreases end - i,
{
    if i >= end {
        None
    } else if is_subprogram_at(es, i, address) {
        Some(i)
    } else {
        subprogram_from(es, i + 1, end, address)
    }
}

/// The subprogram of a unit that starts at `address`.
pub open spec fn subprogram_of(u: UnitView, address: usize) -> Option<int> {
    subprogram_from(u.entries, 0, root_end(u.entries), address)
}

/// The global that a subprogram's variables are relative to. Global 0 is what
/// toolchains use for the stack pointer where the debug information gives none.
pub open spec fn frame_base_of(u: UnitView, i: int) -> usize {
    match given_frame_base(u.entries[i], u.encoding) {
        Some(g) => g,
        None => 0,
    }
}

/// The variables of the function that starts at `address`: those that the
/// first unit with such a subprogram declares in it.
pub open spec fn frame_variables(units: Seq<UnitView>, address: usize, f: FrameView) -> Seq<
    VariableModel,
>
    decreases units.len(),
{
    if units.len() == 0 {
        seq![]
    } else {
        match subprogram_of(units[0], address) {
            Some(i) => variables_among(
                units[0],
                children(units[0].entries, i),
                f,
                frame_base_of(units[0], i),
            ),
            None => frame_variables(units.skip(1), address, f),
        }
    }
}

// ---------------------------------------------------------------------------
// Reading frames
// ---------------------------------------------------------------------------

/// A frame that variables are read from.
struct Frame<'a> {
    stack: &'a Vec<u8>,
    memory: &'a Vec<u8>,
    layout: &'a Vec<FrameSlot>,
    start: u32,
    hit: usize,
    caller: bool,
}

impl<'a> View for Frame<'a> {
    type V = FrameView;

    closed spec fn view(&self) -> FrameView {
        FrameView {
            stack: self.stack@,
            memory: self.memory@,
            layout: slots_of(self.layout@),
            start: self.start,
            hit: self.hit,
            caller: self.caller,
        }
    }
}

fn lives_at(s: &FrameSlot, hit: usize) -> (r: bool)
    ensures
        r == s@.lifetime.contains(hit),
{
    let mut i: usize = 0;
    while i < s.lifetime.len()
        invariant
            i <= s.lifetime@.len(),
            forall|k: int| 0 <= k < i ==> s.lifetime@[k] != hit,
        decreases s.lifetime@.len() - i,
    {
        if s.lifetime[i] == hit {
            return true;
        }
        i = i + 1;
    }
    false
}

impl<'a> Frame<'a> {
    /// Where a saved value lies on the debug stack.
    fn saved_at(&self, location: WasmLocation) -> (r: Option<u32>)
        ensures
            r == saved_at(self@, location),
    {
        let ghost all = slots_of(self.layout@);
        let mut i: usize = 0;
        assert(all.skip(0) =~= all);
        while i < self.layout.len()
            invariant
                all == slots_of(self.layout@),
                i <= all.len(),
                slot_for(all, location, self.hit, self.caller) == slot_for(
                    all.skip(i as int),
                    location,
                    self.hit,
                    self.caller,
                ),
            decreases all.len() - i,
        {
            assert(all.skip(i as int)[0] == self.layout@[i as int]@);
            assert(all.skip(i as int).skip(1) =~= all.skip(i + 1));
            let s = &self.layout[i];
            if s.location == location && (self.caller || lives_at(s, self.hit)) {
                return Some(self.start.wrapping_add(s.offset as u32));
            }
            i = i + 1;
        }
        None
    }

    /// Look up a saved global in the debug frame, use its value as a base address,
    /// and add `mem_offset`.
    fn memory_address(&self, global_idx: usize, mem_offset: i64) -> (r: Option<u32>)
        ensures
            r == memory_address(self@, global_idx, mem_offset),
    {
        match self.saved_at(WasmLocation::Global(global_idx)) {
            Some(at) => {
                let base: u32 = read_word(self.stack, at as usize);
                Some((base as i64).wrapping_add(mem_offset) as u32)
            },
            None => None,
        }
    }

    /// Try to build a [Variable] for one `DW_TAG_variable` / `DW_TAG_formal_parameter` entry.
    fn make_variable(&self, u: &Unit, i: usize, base: usize) -> (r: Option<Variable>)
        requires
            i < u.entries@.len(),
        ensures
            match r {
                Some(v) => variable_of(u@, u@.entries[i as int], self@, base) == Some(v@),
                None => variable_of(u@, u@.entries[i as int], self@, base) is None,
            },
    {
        let e = &u.entries[i];
        assert(u@.entries[i as int] == e@);
        let name = match e.attr_text(DW_AT_NAME) {
            Some(name) => name,
            None => {
                return None;
            },
        };
        let loc = match e.attr_value(DW_AT_LOCATION) {
            Some(AttrValue::Exprloc(expr)) => match wasm_loc_from_expr(expr, u.encoding) {
                Some(loc) => loc,
                None => {
                    return None;
                },
            },
            _ => {
                return None;
            },
        };
        let t = type_of_variable(&u.entries, e);
        // The variable's type tells how its value is read, not the type that
        // it was saved with.
        let ty = c_val_type(t.kind, t.byte_size);
        let value = match loc {
            VarLoc::Wasm(WasmLocation::Operand(_)) => None,
            VarLoc::Wasm(location) => match self.saved_at(location) {
                Some(at) => Some(format_value(self.stack, at, ty, t.kind)),
                None => None,
            },
            VarLoc::FrameRelative(offset) => match self.memory_address(base, offset) {
                Some(at) => Some(format_value(self.memory, at, ty, t.kind)),
                None => None,
            },
            VarLoc::GlobalPlusOffset { global_idx, offset } => match self.memory_address(
                global_idx,
                offset as i64,
            ) {
                Some(at) => Some(format_value(self.memory, at, ty, t.kind)),
                None => None,
            },
        };
        match value {
            Some(value) => Some(Variable { name, ty: t.name, value }),
            None => None,
        }
    }

    /// The variables that a subprogram declares.
    fn variables_in(&self, u: &Unit, i: usize) -> (r: Vec<Variable>)
        requires
            i < u.entries@.len(),
        ensures
            variables_of(r@) == variables_among(
                u@,
                children(u@.entries, i as int),
                self@,
                frame_base_of(u@, i as int),
            ),
    {
        assert(u@.entries[i as int] == u.entries@[i as int]@);
        let base: usize = match frame_base_global_from_entry(&u.entries[i], u.encoding) {
            Some(g) => g,
            None => 0,
        };
        let kids = child_indices(&u.entries, i);
        let ghost all = children(u@.entries, i as int);
        assert(all == kids@.map_values(|c: usize| c as int));
        let mut vars: Vec<Variable> = Vec::new();
        let mut k: usize = 0;
        assert(variables_of(vars@) =~= seq![]);
        while k < kids.len()
            invariant
                k <= kids@.len(),
                all == kids@.map_values(|c: usize| c as int),
                forall|n: int| 0 <= n < kids@.len() ==> i < #[trigger] kids@[n] < u.entries@.len(),
                variables_of(vars@) == variables_among(u@, all.take(k as int), self@, base),
            decreases kids@.len() - k,
        {
            assert(all.take(k + 1).drop_last() =~= all.take(k as int));
            assert(all.take(k + 1).last() == kids@[k as int]);
            let c: usize = kids[k];
            let tag: u16 = u.entries[c].tag;
            assert(u@.entries[c as int] == u.entries@[c as int]@);
            let ghost before = vars@;
            if tag == DW_TAG_VARIABLE || tag == DW_TAG_FORMAL_PARAMETER {
                if let Some(v) = self.make_variable(u, c, base) {
                    vars.push(v);
                    assert(variables_of(vars@) =~= variables_of(before).push(v@));
                }
            }
            k = k + 1;
        }
        assert(all.take(all.len() as int) =~= all);
        vars
    }
}

/// Whether entry `i`, which `path` leads to, is a subprogram that starts at
/// `address` and does not stand inside another one.
fn subprogram_at(u: &Unit, path: &Vec<usize>, i: usize, address: usize) -> (r: bool)
    requires
        i < u.entries@.len(),
        as_path(path@) == path_to(u@.entries, i as int),
        forall|n: int| 0 <= n < path@.len() ==> (#[trigger] path@[n]) <= i,
    ensures
        r == is_subprogram_at(u@.entries, i as int, address),
{
    let ghost es = u@.entries;
    let ghost way = path_to(es, i as int);
    assert(es[i as int] == u.entries@[i as int]@);
    if u.entries[i].tag != DW_TAG_SUBPROGRAM {
        return false;
    }
    match u.entries[i].attr_address(DW_AT_LOW_PC) {
        Some(a) => if a as usize != address {
            return false;
        },
        None => {
            return false;
        },
    }
    let len: usize = path.len();
    let mut k: usize = 0;
    while len > 0 && k < len - 1
        invariant
            len == path@.len(),
            k <= len,
            len > 0 ==> k <= len - 1,
            way == as_path(path@),
            way == path_to(es, i as int),
            es == u@.entries,
            i < u.entries@.len(),
            forall|n: int| 0 <= n < path@.len() ==> (#[trigger] path@[n]) <= i,
            forall|n: int| 0 <= n < k ==> es[#[trigger] way[n]].tag != DW_TAG_SUBPROGRAM,
        decreases len - k,
    {
        let at: usize = path[k];
        assert(es[way[k as int]] == u.entries@[at as int]@);
        if u.entries[at].tag == DW_TAG_SUBPROGRAM {
            return false;
        }
        k = k + 1;
    }
    true
}

/// Search the entries of a unit for the matching subprogram. Other subprograms
/// are not looked into (they're separate frames).
fn search_subprogram(u: &Unit, address: usize) -> (r: Option<usize>)
    ensures
        match r {
            Some(i) => i < u.entries@.len() && subprogram_of(u@, address) == Some(i as int),
            None => subprogram_of(u@, address) is None,
        },
{
    let ghost all = u@.entries;
    let mut path: Vec<usize> = Vec::new();
    let mut i: usize = 0;
    let len: usize = u.entries.len();
    assert(as_path(path@) =~= path_to(all, -1));
    while i < len && (i == 0 || u.entries[i].depth > u.entries[0].depth)
        invariant
            all == u@.entries,
            len == u.entries@.len() == all.len(),
            i <= len,
            i == 0 || subtree_end(all, 0, 1) == subtree_end(all, 0, i as int),
            as_path(path@) == path_to(all, i - 1),
            forall|n: int| 0 <= n < path@.len() ==> (#[trigger] path@[n]) < i,
            subprogram_of(u@, address) == subprogram_from(
                all,
                i as int,
                root_end(all),
                address,
            ),
        decreases len - i,
    {
        assert(all[i as int] == u.entries@[i as int]@);
        assert(all[0] == u.entries@[0]@);
        step_path(&u.entries, &mut path, i);
        assert(i < root_end(all)) by {
            crate::debug::dwarf::entry::subtree_end_bounds(all, 0, i + 1);
        }
        if subprogram_at(u, &path, i, address) {
            return Some(i);
        }
        i = i + 1;
    }
    assert(i == root_end(all)) by {
        if all.len() > 0 {
            if i < len {
                assert(all[i as int] == u.entries@[i as int]@);
                assert(all[0] == u.entries@[0]@);
            }
        }
    }
    None
}

/// Walk all units to find the subprogram that starts at `address`, then
/// collect and return its variables.
fn get_frame_variables(dwarf: &Dwarf, address: usize, frame: &Frame<'_>) -> (r: Vec<Variable>)
    ensures
        variables_of(r@) == frame_variables(dwarf@.units, address, frame@),
{
    let list = dwarf.units();
    let ghost all = dwarf@.units;
    let mut i: usize = 0;
    assert(all.skip(0) =~= all);
    while i < list.len()
        invariant
            all == unit_views(list@),
            i <= list@.len(),
            frame_variables(all, address, frame@) == frame_variables(
                all.skip(i as int),
                address,
                frame@,
            ),
            dwarf@.units == all,
        decreases list@.len() - i,
    {
        assert(all.skip(i as int)[0] == list@[i as int]@);
        assert(all.skip(i as int).skip(1) =~= all.skip(i + 1));
        if let Some(k) = search_subprogram(&list[i], address) {
            return frame.variables_in(&list[i], k);
        }
        i = i + 1;
    }
    let none: Vec<Variable> = Vec::new();
    assert(variables_of(none@) =~= seq![]);
    none
}

/// Shows the call stack of a paused program, and the variables of its frames.
#[derive(Debug)]
pub struct DebugHost {
    pub info: HostInfo,
}

impl DebugHost {
    pub fn new(info: HostInfo) -> (r: DebugHost)
        ensures
            r.info == info,
    {
        DebugHost { info }
    }

    fn tagged_function(&self, at: u128) -> (r: Option<usize>)
        ensures
            match r {
                Some(f) => tagged_function(&self.info, at as int) == Some(f as int) && f
                    < self.info.functions@.len() && at + 4 <= self.info.stack@.len() && at
                    <= usize::MAX,
                None => tagged_function(&self.info, at as int) is None,
            },
    {
        let len: usize = self.info.stack.len();
        if len < 4 || at > (len - 4) as u128 {
            return None;
        }
        let f: u32 = read_word(&self.info.stack, at as usize);
        if (f as usize) < self.info.functions.len() {
            Some(f as usize)
        } else {
            None
        }
    }

    /// The frames of the call stack, the innermost first. Variables are
    /// resolved lazily when a frame is expanded.
    pub fn get_frames(&self) -> (r: Vec<StackFrame>)
        ensures
            shows_stack(
                &self.info,
                r@,
                if self.info.saved_sp() == 0 {
                    seq![]
                } else {
                    call_stack(&self.info, self.info.saved_sp() as int)
                },
            ),
    {
        let mut frames: Vec<StackFrame> = Vec::new();
        let sp: u32 = read_word(&self.info.breakpoints, 12);
        if sp == 0 {
            // Not paused, or worker didn't write SP yet
            return frames;
        }
        let ghost all = call_stack(&self.info, sp as int);
        let ghost mut shown: Seq<int> = seq![];
        let mut offset: u128 = sp as u128;
        assert(shown + call_stack(&self.info, sp as int) =~= all);
        loop
            invariant
                sp == self.info.saved_sp(),
                sp != 0,
                all == call_stack(&self.info, sp as int),
                all == shown + call_stack(&self.info, offset as int),
                shows_stack(&self.info, frames@, shown),
                offset <= self.info.stack@.len() + u32::MAX,
            decreases self.info.stack@.len() + u32::MAX - offset,
        {
            let f: usize = match self.tagged_function(offset) {
                Some(f) => f,
                None => {
                    assert(shown =~= all);
                    return frames;
                },
            };
            let ghost rest = call_stack(&self.info, offset as int);
            let size: u32 = self.info.functions[f].size as u32;
            frames.push(
                StackFrame { name: own(self.info.functions[f].name.as_str()), function: f as u32 },
            );
            proof {
                let before = shown;
                shown = shown.push(f as int);
                assert(shows_stack(&self.info, frames@, shown));
                if size == 0 {
                    assert(rest =~= seq![f as int]);
                    assert(shown =~= all);
                } else {
                    assert(rest == seq![f as int] + call_stack(&self.info, offset + size));
                    assert(shown + call_stack(&self.info, offset + size) =~= before + rest);
                }
            }
            if size == 0 {
                return frames;
            }
            offset = offset + size as u128;
        }
    }

    fn frame_start(&self, sp: u32, n: usize) -> (r: Option<u128>)
        ensures
            match r {
                Some(at) => frame_start(&self.info, sp as int, n as nat) == Some(at as int)
                    && at <= u32::MAX + self.info.stack@.len(),
                None => frame_start(&self.info, sp as int, n as nat) is None,
            },
    {
        let mut offset: u128 = sp as u128;
        let mut left: usize = n;
        loop
            invariant
                frame_start(&self.info, sp as int, n as nat) == frame_start(
                    &self.info,
                    offset as int,
                    left as nat,
                ),
                offset <= self.info.stack@.len() + u32::MAX,
            decreases left,
        {
            let f: usize = match self.tagged_function(offset) {
                Some(f) => f,
                None => {
                    return None;
                },
            };
            if left == 0 {
                return Some(offset);
            }
            let size: u32 = self.info.functions[f].size as u32;
            if size == 0 {
                return None;
            }
            left = left - 1;
            offset = offset + size as u128;
        }
    }

    /// Returns variables for the frame at the given index (0 = innermost). Called lazily when the
    /// UI expands a frame. Returns an empty list if not paused or frame_index is out of range.
    pub fn get_variables_for_frame(&self, frame_index: usize) -> (r: Vec<Variable>)
        ensures
            variables_of(r@) == if self.info.saved_sp() == 0 {
                seq![]
            } else {
                match frame_start(&self.info, self.info.saved_sp() as int, frame_index as nat) {
                    None => seq![],
                    Some(start) => {
                        let func = self.info.functions@[tagged_function(&self.info, start)->0];
                        frame_variables(
                            self.info.dwarf@.units,
                            func.address,
                            FrameView {
                                stack: self.info.stack@,
                                memory: self.info.memory@,
                                layout: slots_of(func.layout@),
                                start: start as u32,
                                hit: self.info.hit() as usize,
                                caller: frame_index > 0,
                            },
                        )
                    },
                }
            },
    {
        let none: Vec<Variable> = Vec::new();
        assert(variables_of(none@) =~= seq![]);
        let sp: u32 = read_word(&self.info.breakpoints, 12);
        if sp == 0 {
            return none;
        }
        let start: u128 = match self.frame_start(sp, frame_index) {
            Some(start) => start,
            None => {
                return none;
            },
        };
        let f: usize = match self.tagged_function(start) {
            Some(f) => f,
            None => {
                proof {
                    frames_are_found_by_number(&self.info, sp as int, frame_index as nat);
                }
                return none;
            },
        };
        let func = &self.info.functions[f];
        let frame = Frame {
            stack: &self.info.stack,
            memory: &self.info.memory,
            layout: &func.layout,
            start: start as u32,
            hit: read_word(&self.info.breakpoints, 8) as usize,
            caller: frame_index > 0,
        };
        get_frame_variables(&self.info.dwarf, func.address, &frame)
    }
}

// ---------------------------------------------------------------------------
// What frames hold
// ---------------------------------------------------------------------------

/// Whether the frames of the functions `fs` lie on the debug stack from `at` on, one
/// behind the other, and no others: each starts with four bytes that spell the number
/// of its function, and is as long as that function's frames are.
pub open spec fn frames_lie_from(info: &HostInfo, at: int, fs: Seq<int>) -> bool
    decreases fs.len(),
{
    if fs.len() == 0 {
        at + 4 > info.stack@.len() || four_at(info.stack@, at) >= info.functions@.len()
    } else {
        &&& at + 4 <= info.stack@.len()
        &&& fs[0] == four_at(info.stack@, at)
        &&& fs[0] < info.functions@.len()
        &&& 0 < info.functions@[fs[0]].size <= u32::MAX
        &&& frames_lie_from(info, at + info.functions@[fs[0]].size, fs.skip(1))
    }
}

/// The call stack shows the frames that lie on the debug stack, the innermost first,
/// and each is found where it starts.
pub proof fn call_stacks_show_every_frame(info: &HostInfo, at: int, fs: Seq<int>)
    requires
        0 <= at,
        frames_lie_from(info, at, fs),
    ensures
        call_stack(info, at) == fs,
        fs.len() > 0 ==> frame_start(info, at, 0) == Some(at),
        fs.len() > 1 ==> frame_start(info, at, 1) == Some(at + info.functions@[fs[0]].size),
    decreases fs.len(),
{
    if at + 4 <= info.stack@.len() {
        low_bytes_come_first(window(info.stack@, at, 4));
        assert(word_at(info.stack@, at) == four_at(info.stack@, at));
    }
    if fs.len() > 0 {
        let next = at + info.functions@[fs[0]].size;
        call_stacks_show_every_frame(info, next, fs.skip(1));
        assert(seq![fs[0]] + fs.skip(1) =~= fs);
        if fs.len() > 1 {
            assert(frame_start(info, next, 0) == Some(next));
            assert(frame_start(info, at, 1) == frame_start(info, next, 0));
        }
    }
}

/// Whether slot `k` is the first that holds a value now: it is for that value, and was
/// saved at the breakpoint that was hit, unless the frame is a caller's.
pub open spec fn holds_first(f: FrameView, location: WasmLocation, k: int) -> bool {
    &&& 0 <= k < f.layout.len()
    &&& f.layout[k].location == location
    &&& f.caller || f.layout[k].lifetime.contains(f.hit)
    &&& forall|j: int|
        0 <= j < k && (#[trigger] f.layout[j]).location == location ==> !f.caller
            && !f.layout[j].lifetime.contains(f.hit)
    &&& f.start + f.layout[k].offset + 8 <= u32::MAX
    &&& f.start + f.layout[k].offset + 8 <= f.stack.len()
}

proof fn first_slot(f: FrameView, location: WasmLocation, k: int)
    requires
        0 <= k < f.layout.len(),
        f.layout[k].location == location,
        f.caller || f.layout[k].lifetime.contains(f.hit),
        forall|j: int|
            0 <= j < k && (#[trigger] f.layout[j]).location == location ==> !f.caller
                && !f.layout[j].lifetime.contains(f.hit),
    ensures
        slot_for(f.layout, location, f.hit, f.caller) == Some(f.layout[k]),
    decreases f.layout.len(),
{
    if k > 0 {
        let rest = FrameView { layout: f.layout.skip(1), ..f };
        assert(f.layout[0].location == location ==> !f.caller && !f.layout[0].lifetime.contains(
            f.hit,
        ));
        assert(rest.layout[k - 1] == f.layout[k]);
        assert forall|j: int|
            0 <= j < k - 1 && (#[trigger] rest.layout[j]).location == location implies !rest.caller
            && !rest.layout[j].lifetime.contains(rest.hit) by {
            assert(rest.layout[j] == f.layout[j + 1]);
        }
        first_slot(rest, location, k - 1);
    }
}

/// A value in a local or a global is read from its slot in the frame. One in memory is
/// read from there, at its offset from what the slot of its global holds: of the frame
/// base where no global is named.
pub proof fn variables_are_read_where_they_live(
    f: FrameView,
    loc: VarLoc,
    base: usize,
    t: CTypeModel,
    k: int,
    location: WasmLocation,
)
    requires
        holds_first(f, location, k),
        match loc {
            VarLoc::Wasm(l) => l == location && !(l is Operand),
            VarLoc::FrameRelative(offset) => location == WasmLocation::Global(base) && 0 <= four_at(
                f.stack,
                f.start + f.layout[k].offset,
            ) + offset <= u32::MAX,
            VarLoc::GlobalPlusOffset { global_idx, offset } => location == WasmLocation::Global(
                global_idx,
            ) && four_at(f.stack, f.start + f.layout[k].offset) + offset <= u32::MAX,
        },
    ensures
        ({
            let slot = f.start + f.layout[k].offset;
            let ty = read_kind(t.kind, t.byte_size);
            value_at(f, loc, base, t) == Some(
                match loc {
                    VarLoc::Wasm(_) => shown_value(f.stack, slot as u32, ty, t.kind),
                    VarLoc::FrameRelative(offset) => shown_value(
                        f.memory,
                        (four_at(f.stack, slot) + offset) as u32,
                        ty,
                        t.kind,
                    ),
                    VarLoc::GlobalPlusOffset { offset, .. } => shown_value(
                        f.memory,
                        (four_at(f.stack, slot) + offset) as u32,
                        ty,
                        t.kind,
                    ),
                },
            )
        }),
{
    let slot = f.start + f.layout[k].offset;
    first_slot(f, location, k);
    low_bytes_come_first(window(f.stack, slot, 4));
    assert(word_at(f.stack, slot) == four_at(f.stack, slot));
}

/// What was saved at another breakpoint is not shown in the frame in which the program
/// has stopped.
pub proof fn stale_values_are_not_shown(f: FrameView, location: WasmLocation)
    requires
        !f.caller,
        forall|j: int|
            0 <= j < f.layout.len() && (#[trigger] f.layout[j]).location == location
                ==> !f.layout[j].lifetime.contains(f.hit),
    ensures
        saved_at(f, location) is None,
    decreases f.layout.len(),
{
    if f.layout.len() > 0 {
        let rest = FrameView { layout: f.layout.skip(1), ..f };
        assert(f.layout[0].location == location ==> !f.layout[0].lifetime.contains(f.hit));
        assert forall|j: int|
            0 <= j < rest.layout.len() && (#[trigger] rest.layout[j]).location
                == location implies !rest.layout[j].lifetime.contains(rest.hit) by {
            assert(rest.layout[j] == f.layout[j + 1]);
        }
        stale_values_are_not_shown(rest, location);
    }
}

/// One more entry below a subprogram is one more variable where it is a variable or a
/// parameter that has a name and a place. The variable has the entry's name, the name
/// of its type, and the value at its `DW_AT_location`.
pub proof fn entries_are_shown_as_variables(
    u: UnitView,
    all: Seq<int>,
    k: int,
    f: FrameView,
    base: usize,
)
    ensures
        ({
            let e = u.entries[k];
            let before = variables_among(u, all, f, base);
            let after = variables_among(u, all.push(k), f, base);
            let t = variable_type(u.entries, e);
            let value = match attr_value(e, 0x02) {
                Some(ValueModel::Exprloc(x)) => match location_of(operations_of(x, u.encoding)) {
                    Some(loc) => value_at(f, loc, base, t),
                    None => None,
                },
                _ => None,
            };
            if (e.tag == 0x34 || e.tag == 0x05) && name_of(e) is Some && value is Some {
                &&& after.len() == before.len() + 1
                &&& after.drop_last() == before
                &&& after.last().name == name_of(e)->0
                &&& after.last().ty == t.name
                &&& after.last().value == value->0
            } else {
                after == before
            }
        }),
        variables_among(u, seq![], f, base).len() == 0,
{
    assert(all.push(k).drop_last() =~= all);
    let before = variables_among(u, all, f, base);
    let after = variables_among(u, all.push(k), f, base);
    if after.len() > before.len() {
        assert(after.drop_last() =~= before);
    }
}

/// Whether an entry is a subprogram that starts at an address and is not inside another
/// subprogram.
pub open spec fn starts_there(es: Seq<EntryModel>, i: int, address: usize) -> bool {
    &&& es[i].tag == 0x2e
    &&& attr_value(es[i], 0x11) matches Some(ValueModel::Addr(a)) && a as usize == address
    &&& forall|a: int| 0 <= a && #[trigger] is_below(es, a, i) ==> es[a].tag != 0x2e
}

proof fn subprograms_start_there(es: Seq<EntryModel>, i: int, address: usize)
    requires
        0 <= i < es.len(),
    ensures
        is_subprogram_at(es, i, address) <==> starts_there(es, i, address),
{
    let path = path_to(es, i);
    paths_lead_down(es, i, i);
    if starts_there(es, i, address) {
        assert forall|k: int| 0 <= k < path.len() - 1 implies es[#[trigger] path[k]].tag != 0x2e by {
            path_is_within(es, i, k);
            assert(path[k] < path[path.len() - 1]);
            paths_lead_down(es, i, path[k]);
            assert(path.contains(path[k]));
            assert(is_below(es, path[k], i));
        }
    }
    if is_subprogram_at(es, i, address) {
        assert forall|a: int| 0 <= a && #[trigger] is_below(es, a, i) implies es[a].tag != 0x2e by {
            paths_lead_down(es, i, a);
            let k = choose|k: int| 0 <= k < path.len() && path[k] == a;
            assert(es[path[k]].tag != DW_TAG_SUBPROGRAM);
        }
    }
}

/// The variables of a frame are those that are declared in the first subprogram that
/// starts where its function does.
pub proof fn frames_show_the_variables_of_their_function(
    units: Seq<UnitView>,
    n: int,
    i: int,
    address: usize,
    f: FrameView,
)
    requires
        0 <= n < units.len(),
        0 <= i < root_end(units[n].entries),
        starts_there(units[n].entries, i, address),
        forall|m: int, j: int|
            0 <= m < units.len() && 0 <= j < root_end(units[m].entries) && (m < n || m == n && j < i)
                ==> !#[trigger] starts_there(units[m].entries, j, address),
    ensures
        frame_variables(units, address, f) == variables_among(
            units[n],
            children(units[n].entries, i),
            f,
            frame_base_of(units[n], i),
        ),
    decreases units.len(),
{
    let es = units[0].entries;
    roots_end(es);
    assert forall|j: int|
        0 <= j < root_end(es) && (n > 0 || j < i) implies !#[trigger] is_subprogram_at(
        es,
        j,
        address,
    ) by {
        subprograms_start_there(es, j, address);
        assert(!starts_there(units[0].entries, j, address));
    }
    if n == 0 {
        subprograms_start_there(es, i, address);
        first_subprogram(es, 0, root_end(es), address, i);
    } else {
        no_subprogram(es, 0, root_end(es), address);
        let rest = units.skip(1);
        assert(rest[n - 1] == units[n]);
        assert forall|m: int, j: int|
            0 <= m < rest.len() && 0 <= j < root_end(rest[m].entries) && (m < n - 1 || m == n - 1
                && j < i) implies !#[trigger] starts_there(rest[m].entries, j, address) by {
            assert(rest[m] == units[m + 1]);
            assert(!starts_there(units[m + 1].entries, j, address));
        }
        frames_show_the_variables_of_their_function(rest, n - 1, i, address, f);
    }
}

proof fn roots_end(es: Seq<EntryModel>)
    ensures
        root_end(es) <= es.len(),
{
    if es.len() > 0 {
        subtree_end_bounds(es, 0, 1);
    }
}

proof fn first_subprogram(es: Seq<EntryModel>, from: int, end: int, address: usize, i: int)
    requires
        from <= i < end,
        is_subprogram_at(es, i, address),
        forall|j: int| from <= j < i ==> !#[trigger] is_subprogram_at(es, j, address),
    ensures
        subprogram_from(es, from, end, address) == Some(i),
    decreases i - from,
{
    if from < i {
        assert(!is_subprogram_at(es, from, address));
        first_subprogram(es, from + 1, end, address, i);
    }
}

proof fn no_subprogram(es: Seq<EntryModel>, from: int, end: int, address: usize)
    requires
        forall|j: int| from <= j < end ==> !#[trigger] is_subprogram_at(es, j, address),
    ensures
        subprogram_from(es, from, end, address) is None,
    decreases end - from,
{
    if from < end {
        assert(!is_subprogram_at(es, from, address));
        no_subprogram(es, from + 1, end, address);
    }
}

/// The variables of a function are relative to the global that its `DW_AT_frame_base`
/// names first, and to global 0 where it names none.
pub proof fn frame_bases_are_globals(u: UnitView, i: int)
    ensures
        match attr_value(u.entries[i], 0x40) {
            Some(ValueModel::Exprloc(x)) => {
                let ops = operations_of(x, u.encoding);
                &&& ops.len() > 0 && (ops[0] matches Some(ExprOp::WasmGlobal(_))) ==> frame_base_of(u, i)
                    == ops[0]->0->WasmGlobal_0
                &&& ops.len() == 0 || !(ops[0] matches Some(ExprOp::WasmGlobal(_))) ==> frame_base_of(
                    u,
                    i,
                ) == 0
            },
            _ => frame_base_of(u, i) == 0,
        },
{
}

} // verus!
