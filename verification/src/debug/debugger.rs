//! The debugger: the call stack, breakpoints, variables and stepping.
use std::rc::Rc;
use vstd::prelude::*;

use crate::bytes::{byte_range_of_words, le_bytes, le_round_trip, low_bytes_come_first, put,
    put_bytes, window, write_le, writes_are_read_back};
use crate::error::DebugError;
use crate::path::{is_absolute, is_rooted, is_same_path, join_path, path_join, same_path, separator};
use crate::text::own;
use crate::types::{BP_PREFIX_BYTES, BreakpointMode, CodeOffset, DebugInfo, FunctionModel,
    InfoModel, MemoryDescriptor, MemoryOffset, bp_words, function_at, functions_are_found, functions_sorted,
    mode_code, one_function_covers};
use super::dwarf::constants::{DW_AT_LOCATION, DW_TAG_FORMAL_PARAMETER, DW_TAG_SUBPROGRAM};
use super::dwarf::die::{Die, DieReference, die_indices, entry_named};
use super::dwarf::entry::{EntryModel, expression_at, name_of, text_of, type_offset};
use super::dwarf::file_among;
use super::dwarf::unit::{Location, UnitView};
use super::evaluate::{Env, EvaluationContext, env_at, evaluated, frame_function, frame_pc};
use super::formatters::choice::{Formatter, chosen, formatter_for};
use super::formatters::present::{counted, indexed, named};
use super::graph::{GraphModel, Type, TypeGraph, graph_of, share};
use super::types::qualified_entry_name;
use super::variables::{VarModel, Variable, all_in, get_location, get_variables, live_variables,
    vars_of};

verus! {

broadcast use vstd::seq_lib::group_seq_properties;

// ---------------------------------------------------------------------------
// The call stack
// ---------------------------------------------------------------------------

/// A frame of the call stack.
#[derive(Debug)]
pub struct StackFrame {
    pub id: u32,
    pub name: String,
    pub line: u32,
    pub column: u32,
    pub source: Option<String>,
}

/// The mathematical value of a [`StackFrame`].
pub struct FrameModel {
    pub id: u32,
    pub name: Seq<char>,
    pub line: u32,
    pub column: u32,
    pub source: Option<Seq<char>>,
}

impl View for StackFrame {
    type V = FrameModel;

    open spec fn view(&self) -> FrameModel {
        FrameModel {
            id: self.id,
            name: self.name@,
            line: self.line,
            column: self.column,
            source: text_of(self.source),
        }
    }
}

/// The values of a list of frames.
pub open spec fn frames_of(v: Seq<StackFrame>) -> Seq<FrameModel> {
    v.map_values(|f: StackFrame| f@)
}

/// The location with the greatest address up to `pc`, the last one of those
/// with the same address.
pub open spec fn location_before(locations: Seq<Location>, pc: CodeOffset) -> Option<Location>
    decreases locations.len(),
{
    if locations.len() == 0 {
        None
    } else {
        let l = locations.last();
        match location_before(locations.drop_last(), pc) {
            Some(best) => if l.address.0 <= pc.0 && l.address.0 >= best.address.0 {
                Some(l)
            } else {
                Some(best)
            },
            None => if l.address.0 <= pc.0 {
                Some(l)
            } else {
                None
            },
        }
    }
}

/// Whether the location at `b` is the nearest one at or before an address, and the
/// last one of those that are equally near.
pub open spec fn is_nearest(locations: Seq<Location>, b: int, pc: CodeOffset) -> bool {
    &&& 0 <= b < locations.len()
    &&& locations[b].address.0 <= pc.0
    &&& forall|i: int|
        0 <= i < locations.len() && (#[trigger] locations[i]).address.0 <= pc.0
            ==> locations[i].address.0 < locations[b].address.0 || locations[i].address.0
            == locations[b].address.0 && i <= b
}

/// The location of a frame is the nearest one at or before its address.
pub proof fn location_is_nearest(locations: Seq<Location>, pc: CodeOffset)
    ensures
        match location_before(locations, pc) {
            Some(best) => {
                &&& locations.contains(best)
                &&& best.address.0 <= pc.0
                &&& forall|i: int|
                    0 <= i < locations.len() && (#[trigger] locations[i]).address.0 <= pc.0
                        ==> locations[i].address.0 <= best.address.0
                &&& exists|b: int| is_nearest(locations, b, pc) && #[trigger] locations[b] == best
            },
            None => forall|i: int|
                0 <= i < locations.len() ==> (#[trigger] locations[i]).address.0 > pc.0,
        },
    decreases locations.len(),
{
    if locations.len() > 0 {
        let before = locations.drop_last();
        location_is_nearest(before, pc);
        assert forall|i: int| 0 <= i < locations.len() - 1 implies locations[i]
            == before[i] by {}
        assert(locations[locations.len() - 1] == locations.last());
        if let Some(best) = location_before(before, pc) {
            let k = choose|k: int| is_nearest(before, k, pc) && #[trigger] before[k] == best;
            assert(locations[k] == best);
            let l = locations.last();
            if l.address.0 <= pc.0 && l.address.0 >= best.address.0 {
                assert(is_nearest(locations, locations.len() - 1, pc));
            } else {
                assert(is_nearest(locations, k, pc));
            }
        } else if locations.last().address.0 <= pc.0 {
            assert(is_nearest(locations, locations.len() - 1, pc));
        }
    }
}

/// Where the frame that called the one at `pos` starts.
pub open spec fn next_frame(info: InfoModel, pos: u32) -> Option<u32> {
    if pos >= info.stack.len() {
        None
    } else {
        match function_at(info.functions, frame_pc(info.stack, pos)) {
            Some(f) => if pos + info.functions[f].size as u32 <= u32::MAX {
                Some((pos + info.functions[f].size as u32) as u32)
            } else {
                None
            },
            None => None,
        }
    }
}

/// What is shown of the frame at `pos`, whose unit and entry are given.
pub open spec fn shown_frame(info: InfoModel, pos: u32, id: u32, at: (int, int)) -> FrameModel {
    let l = location_before(info.locations, frame_pc(info.stack, pos));
    FrameModel {
        id,
        name: match qualified_entry_name(info.units[at.0].entries, at.1) {
            Some(name) => name,
            None => seq![],
        },
        line: match l {
            Some(l) => l.line as u32,
            None => 0,
        },
        column: match l {
            Some(l) => l.column as u32,
            None => 0,
        },
        source: match l {
            Some(l) => file_among(info.units, l.file_index),
            None => None,
        },
    }
}

/// The frames from `pos` on, behind those in `above`. The walk ends at the end
/// of the stack and at an address that no function covers.
pub open spec fn frames_from(info: InfoModel, pos: u32, above: Seq<FrameModel>) -> Result<
    Seq<FrameModel>,
    DebugError,
>
    decreases u32::MAX - pos,
{
    if pos >= info.stack.len() {
        Ok(above)
    } else {
        match function_at(info.functions, frame_pc(info.stack, pos)) {
            None => Ok(above),
            Some(f) => match entry_named(info.units, info.functions[f].die_ref) {
                Err(e) => Err(e),
                Ok(at) => {
                    let frames = above.push(shown_frame(info, pos, above.len() as u32, at));
                    match next_frame(info, pos) {
                        Some(next) => if next > pos {
                            frames_from(info, next, frames)
                        } else {
                            Ok(frames)
                        },
                        None => Ok(frames),
                    }
                },
            },
        }
    }
}

/// Where the stack of the paused program starts.
pub open spec fn stack_pointer(info: InfoModel) -> u32 {
    bp_words(info.breakpoints).0 as u32
}

/// Where the frame that stands `n` calls above the one at `pos` starts.
pub open spec fn frame_offset(info: InfoModel, pos: u32, n: nat) -> Option<u32>
    decreases n,
{
    if n == 0 {
        if pos >= info.stack.len() {
            None
        } else {
            Some(pos)
        }
    } else {
        match next_frame(info, pos) {
            Some(next) => frame_offset(info, next, (n - 1) as nat),
            None => None,
        }
    }
}

/// How many bytes the first `k` frames of the functions `fs` take.
pub open spec fn frames_length(functions: Seq<FunctionModel>, fs: Seq<int>, k: int) -> int
    decreases k,
{
    if k <= 0 {
        0
    } else {
        frames_length(functions, fs, k - 1) + functions[fs[k - 1]].size
    }
}

/// The address that four bytes of the stack spell.
pub open spec fn address_at(stack: Seq<u8>, at: int) -> int {
    stack[at] + 0x100 * stack[at + 1] + 0x1_0000 * stack[at + 2] + 0x100_0000 * stack[at + 3]
}

/// Whether a frame of the function `f` stands at `at`: it begins with an address of
/// the function.
pub open spec fn is_frame_of(info: InfoModel, at: int, f: int) -> bool {
    &&& 0 <= f < info.functions.len()
    &&& 0 <= at <= info.stack.len() - 4
    &&& info.functions[f].size > 0
    &&& info.functions[f].low_pc.0 <= address_at(info.stack, at) < info.functions[f].high_pc.0
}

/// Whether the stack from `sp` on holds frames of the functions `fs`, one behind the
/// other and each as long as its own function's, and then no more: it ends there, or
/// what follows is no address of any function.
pub open spec fn holds_frames(info: InfoModel, sp: int, fs: Seq<int>) -> bool {
    let end = sp + frames_length(info.functions, fs, fs.len() as int);
    &&& 0 <= sp <= end <= u32::MAX
    &&& forall|k: int|
        0 <= k < fs.len() ==> is_frame_of(
            info,
            sp + frames_length(info.functions, fs, k),
            #[trigger] fs[k],
        )
    &&& end >= info.stack.len() || end + 4 <= info.stack.len() && forall|f: int|
        0 <= f < info.functions.len() ==> !((#[trigger] info.functions[f]).low_pc.0 <= address_at(
            info.stack,
            end,
        ) < info.functions[f].high_pc.0)
}

/// Whether a frame is shown by the nearest place at or before the address `pc`, and
/// by none where there is none.
pub open spec fn shows_place(info: InfoModel, shown: FrameModel, pc: CodeOffset) -> bool {
    if exists|i: int| 0 <= i < info.locations.len() && (#[trigger] info.locations[i]).address.0
        <= pc.0 {
        exists|b: int|
            {
                &&& is_nearest(info.locations, b, pc)
                &&& shown.line == (#[trigger] info.locations[b]).line as u32
                &&& shown.column == info.locations[b].column as u32
                &&& shown.source == file_among(info.units, info.locations[b].file_index)
            }
    } else {
        shown.line == 0 && shown.column == 0 && shown.source is None
    }
}

proof fn frames_take_room(info: InfoModel, sp: int, fs: Seq<int>, k: int)
    requires
        holds_frames(info, sp, fs),
        0 <= k <= fs.len(),
    ensures
        k <= frames_length(info.functions, fs, k),
        frames_length(info.functions, fs, k) <= frames_length(
            info.functions,
            fs,
            fs.len() as int,
        ),
    decreases fs.len() - k,
{
    frames_are_counted(info, sp, fs, k);
    if k < fs.len() {
        frames_take_room(info, sp, fs, k + 1);
        assert(is_frame_of(info, sp + frames_length(info.functions, fs, k), fs[k]));
    }
}

proof fn frames_are_counted(info: InfoModel, sp: int, fs: Seq<int>, k: int)
    requires
        holds_frames(info, sp, fs),
        0 <= k <= fs.len(),
    ensures
        k <= frames_length(info.functions, fs, k),
    decreases k,
{
    if k > 0 {
        frames_are_counted(info, sp, fs, k - 1);
        assert(is_frame_of(info, sp + frames_length(info.functions, fs, k - 1), fs[k - 1]));
    }
}

proof fn frame_pc_is_spelled(stack: Seq<u8>, at: u32)
    requires
        at + 4 <= stack.len(),
    ensures
        frame_pc(stack, at).0 == address_at(stack, at as int),
{
    low_bytes_come_first(window(stack, at as int, 4));
}

/// The frame at `k` is found to be one of its own function, and the next one starts
/// where it ends.
proof fn frame_is_found(info: InfoModel, sp: int, fs: Seq<int>, k: int)
    requires
        functions_sorted(info.functions),
        holds_frames(info, sp, fs),
        0 <= k < fs.len(),
    ensures
        ({
            let pos = sp + frames_length(info.functions, fs, k);
            let next = sp + frames_length(info.functions, fs, k + 1);
            &&& 0 <= pos < info.stack.len()
            &&& pos < next <= u32::MAX
            &&& frame_pc(info.stack, pos as u32).0 == address_at(info.stack, pos)
            &&& function_at(info.functions, frame_pc(info.stack, pos as u32)) == Some(fs[k])
            &&& next_frame(info, pos as u32) == Some(next as u32)
        }),
{
    let pos = sp + frames_length(info.functions, fs, k);
    assert(is_frame_of(info, pos, fs[k]));
    frames_take_room(info, sp, fs, k);
    frames_take_room(info, sp, fs, k + 1);
    frame_pc_is_spelled(info.stack, pos as u32);
    let pc = frame_pc(info.stack, pos as u32);
    functions_are_found(info.functions, pc);
    assert(info.functions[fs[k]].covers(pc));
    one_function_covers(info.functions, pc, function_at(info.functions, pc)->0, fs[k]);
}

/// The frame that is shown for the function at `k`.
spec fn expected_frame(info: InfoModel, sp: int, fs: Seq<int>, k: int) -> FrameModel {
    shown_frame(
        info,
        (sp + frames_length(info.functions, fs, k)) as u32,
        k as u32,
        entry_named(info.units, info.functions[fs[k]].die_ref)->Ok_0,
    )
}

proof fn frames_are_walked(info: InfoModel, sp: int, fs: Seq<int>, k: int, above: Seq<FrameModel>)
    requires
        functions_sorted(info.functions),
        holds_frames(info, sp, fs),
        0 <= k <= fs.len(),
        above.len() == k,
        forall|j: int|
            0 <= j < fs.len() ==> entry_named(
                info.units,
                info.functions[#[trigger] fs[j]].die_ref,
            ) is Ok,
    ensures
        frames_from(info, (sp + frames_length(info.functions, fs, k)) as u32, above) == Ok::<
            Seq<FrameModel>,
            DebugError,
        >(
            above + Seq::new(
                (fs.len() - k) as nat,
                |j: int| expected_frame(info, sp, fs, k + j),
            ),
        ),
    decreases fs.len() - k,
{
    let pos = sp + frames_length(info.functions, fs, k);
    let rest = Seq::new((fs.len() - k) as nat, |j: int| expected_frame(info, sp, fs, k + j));
    frames_take_room(info, sp, fs, k);
    if k == fs.len() {
        assert(above + rest =~= above);
        if pos < info.stack.len() {
            frame_pc_is_spelled(info.stack, pos as u32);
            functions_are_found(info.functions, frame_pc(info.stack, pos as u32));
        }
    } else {
        frame_is_found(info, sp, fs, k);
        assert(entry_named(info.units, info.functions[fs[k]].die_ref) is Ok);
        let frame = expected_frame(info, sp, fs, k);
        frames_are_walked(info, sp, fs, k + 1, above.push(frame));
        let more = Seq::new(
            (fs.len() - (k + 1)) as nat,
            |j: int| expected_frame(info, sp, fs, k + 1 + j),
        );
        assert(above.push(frame) + more =~= above + rest);
    }
}

proof fn frame_offsets_are_found(info: InfoModel, sp: int, fs: Seq<int>, from: int, k: int)
    requires
        functions_sorted(info.functions),
        holds_frames(info, sp, fs),
        0 <= from <= k < fs.len(),
    ensures
        frame_offset(
            info,
            (sp + frames_length(info.functions, fs, from)) as u32,
            (k - from) as nat,
        ) == Some((sp + frames_length(info.functions, fs, k)) as u32),
    decreases k - from,
{
    frame_is_found(info, sp, fs, from);
    if from < k {
        frame_offsets_are_found(info, sp, fs, from + 1, k);
    }
}

/// The call stack of a paused program has one entry for each frame on its stack, the
/// innermost first. Entry `k` is numbered `k`, starts where the frames before it end,
/// has the name of its own function, and shows the nearest place at or before the
/// address in the frame.
pub proof fn every_frame_is_on_the_call_stack(info: InfoModel, fs: Seq<int>, k: int)
    requires
        functions_sorted(info.functions),
        holds_frames(info, stack_pointer(info) as int, fs),
        0 <= k < fs.len(),
        forall|j: int|
            0 <= j < fs.len() ==> entry_named(
                info.units,
                info.functions[#[trigger] fs[j]].die_ref,
            ) is Ok,
    ensures
        ({
            let sp = stack_pointer(info);
            let start = sp + frames_length(info.functions, fs, k);
            let shown = frames_from(info, sp, seq![])->Ok_0[k];
            let (unit, entry) = entry_named(info.units, info.functions[fs[k]].die_ref)->Ok_0;
            &&& frames_from(info, sp, seq![]) is Ok
            &&& frames_from(info, sp, seq![])->Ok_0.len() == fs.len()
            &&& frame_offset(info, sp, k as nat) == Some(start as u32)
            &&& 0 <= start <= u32::MAX
            &&& shown.id == k
            &&& shown.name == match qualified_entry_name(info.units[unit].entries, entry) {
                Some(name) => name,
                None => seq![],
            }
            &&& shows_place(info, shown, CodeOffset(address_at(info.stack, start) as u64))
        }),
{
    let sp = stack_pointer(info);
    frames_are_walked(info, sp as int, fs, 0, seq![]);
    frame_is_found(info, sp as int, fs, k);
    frame_offsets_are_found(info, sp as int, fs, 0, k);
    frames_take_room(info, sp as int, fs, k);
    frames_take_room(info, sp as int, fs, fs.len() as int);
    let start = sp + frames_length(info.functions, fs, k);
    let frames = frames_from(info, sp, seq![])->Ok_0;
    assert(frames[k] == expected_frame(info, sp as int, fs, k));
    let pc = frame_pc(info.stack, start as u32);
    location_is_nearest(info.locations, pc);
    assert(pc == CodeOffset(address_at(info.stack, start) as u64));
    if let Some(best) = location_before(info.locations, pc) {
        let b = choose|b: int| is_nearest(info.locations, b, pc) && #[trigger] info.locations[b]
            == best;
        assert(info.locations[b].address.0 <= pc.0);
    }
}

// ---------------------------------------------------------------------------
// Breakpoints
// ---------------------------------------------------------------------------

/// The path that a breakpoint is asked for, taken from the root.
pub open spec fn rooted_path(file: Seq<char>) -> Seq<char> {
    if is_rooted(file) {
        file
    } else {
        path_join(seq!['/'], file)
    }
}

/// Whether a breakpoint in `target` on `line` can be set at `l`.
pub open spec fn suits_breakpoint(
    units: Seq<UnitView>,
    l: Location,
    target: Seq<char>,
    line: i64,
) -> bool {
    match file_among(units, l.file_index) {
        Some(path) => is_same_path(path, target) && l.line as i64 >= line,
        None => false,
    }
}

/// Whether `a` comes before `b` in the source, or in the code where both
/// belong to one line.
pub open spec fn comes_before(a: Location, b: Location) -> bool {
    a.line < b.line || a.line == b.line && a.address.0 < b.address.0
}

/// The first location, among the first `n`, that suits a breakpoint and that
/// no other comes before.
pub open spec fn breakpoint_index(
    units: Seq<UnitView>,
    locations: Seq<Location>,
    target: Seq<char>,
    line: i64,
    n: int,
) -> Option<int>
    decreases n,
{
    if n <= 0 {
        None
    } else {
        let best = breakpoint_index(units, locations, target, line, n - 1);
        if suits_breakpoint(units, locations[n - 1], target, line) && (best is None
            || comes_before(locations[n - 1], locations[best->0])) {
            Some(n - 1)
        } else {
            best
        }
    }
}

/// A breakpoint is set at the nearest location on or after the requested line,
/// and it is set wherever there is one.
pub proof fn breakpoint_is_nearest(
    units: Seq<UnitView>,
    locations: Seq<Location>,
    target: Seq<char>,
    line: i64,
    n: int,
)
    requires
        0 <= n <= locations.len(),
    ensures
        match breakpoint_index(units, locations, target, line, n) {
            Some(b) => {
                &&& 0 <= b < n
                &&& suits_breakpoint(units, locations[b], target, line)
                &&& forall|i: int|
                    0 <= i < n && suits_breakpoint(units, #[trigger] locations[i], target, line)
                        ==> !comes_before(locations[i], locations[b])
            },
            None => forall|i: int|
                0 <= i < n ==> !suits_breakpoint(units, #[trigger] locations[i], target, line),
        },
    decreases n,
{
    if n > 0 {
        breakpoint_is_nearest(units, locations, target, line, n - 1);
    }
}

/// Whether a location lies in a file on `line` or behind it.
pub open spec fn is_on_or_after(
    units: Seq<UnitView>,
    l: Location,
    file: Seq<char>,
    line: i64,
) -> bool {
    &&& file_among(units, l.file_index) matches Some(path) && is_same_path(path, file)
    &&& l.line as i64 >= line
}

/// A breakpoint is set where the program first comes to the line: at a location in
/// the file on the requested line or the next one that has any, and of the locations
/// on that line at the one with the lowest address. It is set wherever the file has
/// such a location. Its flag is then set, and nothing else changes.
pub proof fn breakpoints_are_set_where_the_line_is_come_to(
    info: InfoModel,
    file: Seq<char>,
    line: i64,
)
    requires
        info.breakpoints.len() >= BP_PREFIX_BYTES + info.locations.len(),
    ensures
        match breakpoint_index(
            info.units,
            info.locations,
            rooted_path(file),
            line,
            info.locations.len() as int,
        ) {
            Some(i) => {
                let b = info.locations[i];
                let after = flagged(info.breakpoints, i);
                &&& 0 <= i < info.locations.len()
                &&& is_on_or_after(info.units, b, rooted_path(file), line)
                &&& forall|j: int|
                    #![trigger info.locations[j]]
                    0 <= j < info.locations.len() && is_on_or_after(
                        info.units,
                        info.locations[j],
                        rooted_path(file),
                        line,
                    ) ==> {
                        let l = info.locations[j];
                        ||| b.line < l.line
                        ||| b.line == l.line && b.address.0 < l.address.0
                        ||| b.line == l.line && b.address.0 == l.address.0 && i <= j
                    }
                &&& after.len() == info.breakpoints.len()
                &&& after[8 + i] > 0
                &&& after[8 + i] == if info.breakpoints[8 + i] < 255 {
                    info.breakpoints[8 + i] + 1
                } else {
                    255
                }
                &&& forall|j: int|
                    0 <= j < after.len() && j != 8 + i ==> after[j] == info.breakpoints[j]
            },
            None => forall|j: int|
                0 <= j < info.locations.len() ==> !is_on_or_after(
                    info.units,
                    #[trigger] info.locations[j],
                    rooted_path(file),
                    line,
                ),
        },
        rooted_path(file).len() > 0 && rooted_path(file)[0] == '/',
        file.len() > 0 && file[0] == '/' ==> rooted_path(file) == file,
        file.len() > 0 && file[0] != '/' ==> rooted_path(file) == seq!['/'] + file,
{
    let n = info.locations.len() as int;
    breakpoint_is_nearest(info.units, info.locations, rooted_path(file), line, n);
    first_of_equals(info.units, info.locations, rooted_path(file), line, n);
    if is_rooted(file) {
        assert(file[0] == separator()[0]);
    } else if file.len() > 0 && file[0] == '/' {
        assert(file.subrange(0, 1) =~= separator());
    }
}

/// Of locations that nothing tells apart, a breakpoint is set at the first.
proof fn first_of_equals(
    units: Seq<UnitView>,
    locations: Seq<Location>,
    target: Seq<char>,
    line: i64,
    n: int,
)
    requires
        0 <= n <= locations.len(),
    ensures
        breakpoint_index(units, locations, target, line, n) matches Some(b) ==> forall|i: int|
            #![trigger locations[i]]
            0 <= i < b && suits_breakpoint(units, locations[i], target, line) ==> comes_before(
                locations[b],
                locations[i],
            ),
    decreases n,
{
    if n > 0 {
        first_of_equals(units, locations, target, line, n - 1);
        breakpoint_is_nearest(units, locations, target, line, n - 1);
    }
}

/// The buffer with the breakpoint of location `index` set once more. Its flag
/// counts up to what a byte can hold.
pub open spec fn flagged(buffer: Seq<u8>, index: int) -> Seq<u8> {
    if BP_PREFIX_BYTES + index < buffer.len() {
        let count = buffer[BP_PREFIX_BYTES + index];
        buffer.update(
            BP_PREFIX_BYTES + index,
            if count < u8::MAX {
                (count + 1) as u8
            } else {
                count
            },
        )
    } else {
        buffer
    }
}

/// The buffer of a program that is told to go on in `mode`: the stack pointer
/// is cleared.
pub open spec fn resumed(buffer: Seq<u8>, mode: BreakpointMode) -> Seq<u8> {
    put(put(buffer, 4, le_bytes(mode_code(mode) as nat, 4)), 0, le_bytes(0, 4))
}

/// A program that is told to go on in a mode reads that mode and a cleared
/// stack pointer, and the breakpoint flags are as they were.
pub proof fn resuming_keeps_the_flags(buffer: Seq<u8>, mode: BreakpointMode)
    requires
        buffer.len() >= BP_PREFIX_BYTES,
    ensures
        bp_words(resumed(buffer, mode)) == (0i32, mode_code(mode)),
        resumed(buffer, mode).skip(BP_PREFIX_BYTES as int) == buffer.skip(BP_PREFIX_BYTES as int),
{
    let code = le_bytes(mode_code(mode) as nat, 4);
    let zero = le_bytes(0, 4);
    byte_range_of_words();
    le_round_trip(mode_code(mode) as nat, 4);
    le_round_trip(0, 4);
    let once = put(buffer, 4, code);
    writes_are_read_back(buffer, 4, code, 0, 4);
    writes_are_read_back(once, 0, zero, 4, 4);
    assert(resumed(buffer, mode).skip(BP_PREFIX_BYTES as int) =~= buffer.skip(
        BP_PREFIX_BYTES as int,
    ));
}

// ---------------------------------------------------------------------------
// Variables
// ---------------------------------------------------------------------------

/// The variables of a frame.
#[derive(Debug)]
pub struct VariablesResult {
    pub arguments: Vec<Variable>,
    pub locals: Vec<Variable>,
    pub globals: Vec<Variable>,
}

/// The mathematical value of a [`VariablesResult`].
#[verifier::ext_equal]
pub struct ScopesModel {
    pub arguments: Seq<VarModel>,
    pub locals: Seq<VarModel>,
    pub globals: Seq<VarModel>,
}

impl View for VariablesResult {
    type V = ScopesModel;

    open spec fn view(&self) -> ScopesModel {
        ScopesModel {
            arguments: vars_of(self.arguments@),
            locals: vars_of(self.locals@),
            globals: vars_of(self.globals@),
        }
    }
}

/// The variable that an entry declares, where it has a type and its location
/// can be evaluated.
pub open spec fn declared_variable(e: EntryModel, unit_index: usize, env: Env) -> Option<VarModel> {
    match (type_offset(e), expression_at(e, DW_AT_LOCATION, env.pc.0)) {
        (Some(ofs), Some(expr)) => match evaluated(expr, env) {
            Ok(pieces) => Some(
                VarModel {
                    name: match name_of(e) {
                        Some(name) => name,
                        None => seq![],
                    },
                    pieces,
                    ty: DieReference { unit_index, unit_ofs: ofs },
                },
            ),
            Err(_) => None,
        },
        _ => None,
    }
}

/// The variables that the entries `all` declare: the arguments, and the rest.
pub open spec fn scopes(
    es: Seq<EntryModel>,
    all: Seq<int>,
    unit_index: usize,
    env: Env,
) -> ScopesModel
    decreases all.len(),
{
    if all.len() == 0 {
        ScopesModel { arguments: seq![], locals: seq![], globals: seq![] }
    } else {
        let before = scopes(es, all.drop_last(), unit_index, env);
        match declared_variable(es[all.last()], unit_index, env) {
            Some(v) => if es[all.last()].tag == DW_TAG_FORMAL_PARAMETER {
                ScopesModel { arguments: before.arguments.push(v), ..before }
            } else {
                ScopesModel { locals: before.locals.push(v), ..before }
            },
            None => before,
        }
    }
}

/// The variables visible in the frame at `frame`. Only subprograms have any.
pub open spec fn frame_scopes(info: InfoModel, frame: u32) -> Result<ScopesModel, DebugError> {
    match frame_function(info, frame) {
        Ok(at) => if info.units[at.1].entries[at.2].tag != DW_TAG_SUBPROGRAM {
            Err(DebugError::NotSubprogram)
        } else {
            let unit = info.units[at.1];
            let env = env_at(info, frame, at);
            Ok(
                scopes(
                    unit.entries,
                    live_variables(unit.entries, at.2, env.pc.0),
                    unit.properties.index,
                    env,
                ),
            )
        },
        Err(e) => Err(e),
    }
}

/// All children of a value: the indexed ones, and the named ones. A value whose
/// children cannot be read has none.
pub open spec fn all_children(g: GraphModel, v: VarModel, memory: Seq<u8>) -> Seq<VarModel> {
    match counted(g, v, memory, g.size) {
        Ok((i, n)) => {
            let by_index = match indexed(g, v, memory, 0, i, g.size) {
                Ok(found) => found,
                Err(_) => seq![],
            };
            let by_name = match named(g, v, memory, 0, n, g.size) {
                Ok(found) => found,
                Err(_) => seq![],
            };
            by_index + by_name
        },
        Err(_) => seq![],
    }
}

// ---------------------------------------------------------------------------
// The debugger
// ---------------------------------------------------------------------------

/// Main-thread debugger that operates on shared memory from an attached worker.
#[derive(Debug)]
pub struct Debugger {
    pub info: DebugInfo,
    pub types: Rc<TypeGraph>,
}

impl Debugger {
    /// Whether the types are those of the program.
    pub open spec fn wf(&self) -> bool {
        (*self.types)@ == graph_of(self.info@.units)
    }

    pub fn new(info: DebugInfo) -> (r: Debugger)
        ensures
            r.wf(),
            r.info == info,
    {
        let types = Rc::new(TypeGraph::new(&info.dwarf));
        Debugger { info, types }
    }

    /// Computes the formatter for a given type, if any
    pub fn formatter_for(&self, ty: &Type) -> (r: Option<Formatter>)
        ensures
            r == chosen(ty.model(), ty.root),
    {
        formatter_for(ty)
    }

    /// The stack pointer and the end of the debug stack.
    fn stack_view(&self) -> (r: (u32, usize))
        ensures
            r.0 == stack_pointer(self.info@),
            r.1 == self.info@.stack.len(),
    {
        let state = self.info.get_bp_state();
        (state.0 as u32, self.info.stack.byte_size())
    }

    /// The address that the frame at `pos` is at.
    fn pc_at(&self, pos: u32) -> (r: CodeOffset)
        ensures
            r == frame_pc(self.info@.stack, pos),
    {
        CodeOffset(self.info.stack.read_u32(MemoryOffset(pos as u64)) as u64)
    }

    fn location_before(&self, pc: CodeOffset) -> (r: Option<Location>)
        ensures
            r == location_before(self.info@.locations, pc),
    {
        let ghost all = self.info@.locations;
        let mut best: Option<Location> = None;
        let mut i: usize = 0;
        while i < self.info.locations.len()
            invariant
                all == self.info.locations@,
                i <= all.len(),
                best == location_before(all.take(i as int), pc),
            decreases all.len() - i,
        {
            assert(all.take(i + 1).drop_last() =~= all.take(i as int));
            assert(all.take(i + 1).last() == all[i as int]);
            let l = self.info.locations[i];
            best = match best {
                Some(b) => if l.address.0 <= pc.0 && l.address.0 >= b.address.0 {
                    Some(l)
                } else {
                    Some(b)
                },
                None => if l.address.0 <= pc.0 {
                    Some(l)
                } else {
                    None
                },
            };
            i = i + 1;
        }
        assert(all.take(all.len() as int) =~= all);
        best
    }

    /// The frame at `pos`, whose function has the entry `die`.
    fn frame_at(&self, pos: u32, id: u32, die: &Die<'_>, at: Ghost<(int, int)>) -> (r: StackFrame)
        requires
            die.wf(),
            die.ctx.unit@ == self.info@.units[at@.0],
            die.index == at@.1,
        ensures
            r@ == shown_frame(self.info@, pos, id, at@),
    {
        let l = self.location_before(self.pc_at(pos));
        let name = match die.qualified_name() {
            Some(name) => name,
            None => String::new(),
        };
        match l {
            Some(l) => StackFrame {
                id,
                name,
                line: l.line as u32,
                column: l.column as u32,
                source: match self.info.dwarf.file_at(l.file_index) {
                    Some(path) => Some(own(path.as_str())),
                    None => None,
                },
            },
            None => StackFrame { id, name, line: 0, column: 0, source: None },
        }
    }

    fn next_frame(&self, pos: u32) -> (r: Option<u32>)
        ensures
            r == next_frame(self.info@, pos),
    {
        if pos as usize >= self.info.stack.byte_size() {
            return None;
        }
        match self.info.fn_at(self.pc_at(pos)) {
            Some(func) => pos.checked_add(func.size as u32),
            None => None,
        }
    }

    /// Walks the debug stack and returns the current call stack.
    pub fn backtrace(&self) -> (r: Result<Vec<StackFrame>, DebugError>)
        ensures
            match r {
                Ok(frames) => frames_from(self.info@, stack_pointer(self.info@), seq![]) == Ok::<
                    Seq<FrameModel>,
                    DebugError,
                >(frames_of(frames@)),
                Err(e) => frames_from(self.info@, stack_pointer(self.info@), seq![]) == Err::<
                    Seq<FrameModel>,
                    DebugError,
                >(e),
            },
    {
        let ghost info = self.info@;
        let (sp, stack_top) = self.stack_view();
        let mut frames: Vec<StackFrame> = Vec::new();
        let mut pos: u32 = sp;
        assert(frames_of(frames@) =~= seq![]);
        while (pos as usize) < stack_top
            invariant
                info == self.info@,
                stack_top == info.stack.len(),
                frames_from(info, stack_pointer(info), seq![]) == frames_from(
                    info,
                    pos,
                    frames_of(frames@),
                ),
            decreases u32::MAX - pos,
        {
            let func = match self.info.fn_at(self.pc_at(pos)) {
                Some(f) => f,
                None => {
                    return Ok(frames);
                },
            };
            let die = match func.die_ref.deref(&self.info.dwarf) {
                Ok(die) => die,
                Err(e) => {
                    return Err(e);
                },
            };
            let ghost at = (func.die_ref.unit_index as int, die.index as int);
            let ghost above = frames@;
            let frame = self.frame_at(pos, frames.len() as u32, &die, Ghost(at));
            frames.push(frame);
            assert(frames_of(frames@) =~= frames_of(above).push(frame@));
            match self.next_frame(pos) {
                Some(next) => {
                    if next <= pos {
                        return Ok(frames);
                    }
                    pos = next;
                },
                None => {
                    return Ok(frames);
                },
            }
        }
        Ok(frames)
    }

    /// Sets one breakpoint for one `(file, line)` pair.
    /// Returns the location it gets set at, if any.
    ///
    /// If a breakpoint cannot be set on the requested line,
    /// it will be set on the next executable statement.
    pub fn set_breakpoint(&mut self, file: &str, line: i64) -> (r: Option<Location>)
        ensures
            ({
                let info = old(self).info@;
                let index = breakpoint_index(
                    info.units,
                    info.locations,
                    rooted_path(file@),
                    line,
                    info.locations.len() as int,
                );
                &&& r == match index {
                    Some(i) => Some(info.locations[i]),
                    None => None,
                }
                &&& final(self).info@ == match index {
                    Some(i) => InfoModel { breakpoints: flagged(info.breakpoints, i), ..info },
                    None => info,
                }
            }),
            final(self).types == old(self).types,
    {
        let ghost units = self.info@.units;
        let ghost all = self.info@.locations;
        let mut root = String::new();
        root.push('/');
        assert(root@ =~= seq!['/']);
        let target = if is_absolute(file) {
            own(file)
        } else {
            join_path(root.as_str(), file)
        };
        let mut best: Option<usize> = None;
        let mut i: usize = 0;
        while i < self.info.locations.len()
            invariant
                *self == *old(self),
                units == self.info@.units,
                all == self.info@.locations,
                i <= all.len(),
                target@ == rooted_path(file@),
                match best {
                    Some(b) => b < i && breakpoint_index(units, all, target@, line, i as int)
                        == Some(b as int),
                    None => breakpoint_index(units, all, target@, line, i as int) is None,
                },
            decreases all.len() - i,
        {
            let l = self.info.locations[i];
            let suits = match self.info.dwarf.file_at(l.file_index) {
                Some(path) => same_path(path.as_str(), target.as_str()) && l.line as i64 >= line,
                None => false,
            };
            if suits {
                match best {
                    Some(b) => {
                        let m = self.info.locations[b];
                        if l.line < m.line || l.line == m.line && l.address.0 < m.address.0 {
                            best = Some(i);
                        }
                    },
                    None => {
                        best = Some(i);
                    },
                }
            }
            i = i + 1;
        }
        match best {
            Some(b) => {
                let loc = self.info.locations[b];
                let len: usize = self.info.breakpoints.len();
                if BP_PREFIX_BYTES < len && b < len - BP_PREFIX_BYTES {
                    let count: u8 = self.info.breakpoints[BP_PREFIX_BYTES + b];
                    self.info.breakpoints.set(BP_PREFIX_BYTES + b, count.saturating_add(1));
                }
                Some(loc)
            },
            None => None,
        }
    }

    /// Walks the debug stack to find the offset of the Nth stack frame
    fn frame_offset_at(&self, frame_id: u32) -> (r: Option<u32>)
        ensures
            r == frame_offset(self.info@, stack_pointer(self.info@), frame_id as nat),
    {
        let ghost info = self.info@;
        let (sp, stack_top) = self.stack_view();
        let mut pos: u32 = sp;
        let mut left: u32 = frame_id;
        while left > 0
            invariant
                info == self.info@,
                frame_offset(info, stack_pointer(info), frame_id as nat) == frame_offset(
                    info,
                    pos,
                    left as nat,
                ),
            decreases left,
        {
            match self.next_frame(pos) {
                Some(next) => {
                    pos = next;
                },
                None => {
                    return None;
                },
            }
            left = left - 1;
        }
        if pos as usize >= stack_top {
            None
        } else {
            Some(pos)
        }
    }

    /// Returns the variables visible in `frame_id`, split into `(arguments, locals)`.
    ///
    /// Arguments are DIE children tagged `DW_TAG_formal_parameter`; locals are
    /// `DW_TAG_variable` (the modern tag) or `DW_TAG_local_variable`. Variables
    /// whose location expression cannot be resolved (e.g. optimized out /
    /// require unsupported opcodes) are dropped.
    pub fn get_variables(&self, frame_id: u32) -> (r: Result<VariablesResult, DebugError>)
        requires
            self.wf(),
        ensures
            match frame_offset(self.info@, stack_pointer(self.info@), frame_id as nat) {
                Some(frame) => match r {
                    Ok(v) => frame_scopes(self.info@, frame) == Ok::<ScopesModel, DebugError>(v@),
                    Err(e) => frame_scopes(self.info@, frame) == Err::<ScopesModel, DebugError>(e),
                },
                None => r == Err::<VariablesResult, DebugError>(
                    DebugError::FrameNotFound(frame_id),
                ),
            },
            r is Ok ==> {
                &&& all_in(r->Ok_0.arguments@, self.types)
                &&& all_in(r->Ok_0.locals@, self.types)
            },
    {
        let frame = match self.frame_offset_at(frame_id) {
            Some(frame) => frame,
            None => {
                return Err(DebugError::FrameNotFound(frame_id));
            },
        };
        let context = EvaluationContext::new(&self.info, frame);
        let derived = match context.derived() {
            Ok(derived) => derived,
            Err(e) => {
                return Err(e);
            },
        };
        let ghost env = context.env();
        let ghost at = frame_function(self.info@, frame)->Ok_0;
        proof {
            functions_are_found(self.info@.functions, frame_pc(self.info@.stack, frame));
        }
        let die = derived.die;
        let pc = derived.pc;
        if die.tag() != DW_TAG_SUBPROGRAM {
            return Err(DebugError::NotSubprogram);
        }
        let dies = get_variables(&die, pc);
        let ghost es = die.ctx.unit@.entries;
        let ghost all = die_indices(dies@);
        let ghost unit_index = die.ctx.unit@.properties.index;
        let mut arguments: Vec<Variable> = Vec::new();
        let mut locals: Vec<Variable> = Vec::new();
        let mut i: usize = 0;
        assert(vars_of(arguments@) =~= seq![]);
        assert(vars_of(locals@) =~= seq![]);
        while i < dies.len()
            invariant
                i <= dies@.len(),
                all == die_indices(dies@),
                es == die.ctx.unit@.entries,
                unit_index == die.ctx.unit@.properties.index,
                env == context.env(),
                context.info@ == self.info@,
                context.offset == frame,
                pc == env.pc,
                frame_function(context.info@, context.offset) is Ok,
                forall|n: int|
                    0 <= n < dies@.len() ==> (#[trigger] dies@[n]).wf() && dies@[n].ctx == die.ctx,
                scopes(es, all.take(i as int), unit_index, env) == (ScopesModel {
                    arguments: vars_of(arguments@),
                    locals: vars_of(locals@),
                    globals: seq![],
                }),
                all_in(arguments@, self.types),
                all_in(locals@, self.types),
            decreases dies@.len() - i,
        {
            let var_die = &dies[i];
            assert(all.take(i + 1).drop_last() =~= all.take(i as int));
            assert(all.take(i + 1).last() == var_die.index);
            assert(es[all[i as int]] == var_die.entry());
            i = i + 1;
            let type_id = match var_die.type_ref() {
                Some(type_id) => type_id,
                None => {
                    continue ;
                },
            };
            let expr = match get_location(var_die, pc) {
                Some(expr) => expr,
                None => {
                    continue ;
                },
            };
            let pieces = match context.evaluate(&expr) {
                Ok(pieces) => pieces,
                Err(_) => {
                    continue ;
                },
            };
            let name = match var_die.name() {
                Some(name) => name,
                None => String::new(),
            };
            let ty = Type::new(type_id, share(&self.types));
            let variable = Variable::new(name, pieces, ty);
            let ghost args_before = arguments@;
            let ghost locals_before = locals@;
            assert(declared_variable(var_die.entry(), unit_index, env) == Some(variable@));
            if var_die.tag() == DW_TAG_FORMAL_PARAMETER {
                arguments.push(variable);
                assert(vars_of(arguments@) =~= vars_of(args_before).push(variable@));
            } else {
                locals.push(variable);
                assert(vars_of(locals@) =~= vars_of(locals_before).push(variable@));
            }
        }
        assert(all.take(all.len() as int) =~= all);
        let globals: Vec<Variable> = Vec::new();
        assert(vars_of(globals@) =~= seq![]);
        Ok(VariablesResult { arguments, locals, globals })
    }

    /// All children of a value.
    pub fn children(&self, var: &Variable) -> (r: Vec<Variable>)
        ensures
            vars_of(r@) == all_children(var.ty.model(), var@, self.info@.memory),
            all_in(r@, var.ty.graph),
    {
        let memory = &self.info.memory;
        let counts = match var.num_children(memory) {
            Ok(counts) => counts,
            Err(_) => {
                let none: Vec<Variable> = Vec::new();
                assert(vars_of(none@) =~= seq![]);
                return none;
            },
        };
        let mut out = match var.indexed_children(memory, 0..counts.indexed) {
            Ok(found) => found,
            Err(_) => Vec::new(),
        };
        let mut more = match var.named_children(memory, 0..counts.named) {
            Ok(found) => found,
            Err(_) => Vec::new(),
        };
        let ghost a = out@;
        let ghost b = more@;
        let ghost g = var.ty.model();
        out.append(&mut more);
        assert(out@ =~= a + b);
        assert(vars_of(out@) =~= vars_of(a) + vars_of(b));
        assert(vars_of(a) =~= match indexed(
            g,
            var@,
            memory@,
            0,
            counts.indexed as nat,
            g.size,
        ) {
            Ok(found) => found,
            Err(_) => seq![],
        });
        assert(vars_of(b) =~= match named(g, var@, memory@, 0, counts.named as nat, g.size) {
            Ok(found) => found,
            Err(_) => seq![],
        });
        out
    }

    /// Borrow of the underlying [`DebugInfo`], used by handlers that need to
    /// peek at memory or DWARF without owning the debugger.
    pub fn info(&self) -> (r: &DebugInfo)
        ensures
            *r == self.info,
    {
        &self.info
    }

    /// A reference to the program's linear memory
    pub fn memory(&self) -> (r: &MemoryDescriptor)
        ensures
            *r == self.info.memory,
    {
        &self.info.memory
    }

    /// A reference to the debugger's debug stack
    pub fn stack(&self) -> (r: &MemoryDescriptor)
        ensures
            *r == self.info.stack,
    {
        &self.info.stack
    }

    /// Returns the size of an address in bytes on the current platform.
    pub fn address_size(&self) -> (r: usize)
        ensures
            r == 4,
    {
        4
    }

    /// Tells the worker to go on in `mode`.
    fn resume(&mut self, mode: BreakpointMode)
        ensures
            final(self).info@ == (InfoModel {
                breakpoints: resumed(old(self).info@.breakpoints, mode),
                ..old(self).info@
            }),
            final(self).types == old(self).types,
    {
        let code: i32 = mode.into();
        let word = write_le(code as u64, 4);
        put_bytes(&mut self.info.breakpoints, 4, &word);
        let zero = write_le(0, 4);
        put_bytes(&mut self.info.breakpoints, 0, &zero);
    }

    /// Resumes the worker by signaling through the SAB (normal execution: breakpoints only).
    pub fn continue_(&mut self)
        ensures
            final(self).info@ == (InfoModel {
                breakpoints: resumed(old(self).info@.breakpoints, BreakpointMode::Normal),
                ..old(self).info@
            }),
            final(self).types == old(self).types,
    {
        self.resume(BreakpointMode::Normal);
    }

    /// Resume with step-into semantics (stop at the next instrumented breakpoint site).
    pub fn step_into(&mut self)
        ensures
            final(self).info@ == (InfoModel {
                breakpoints: resumed(old(self).info@.breakpoints, BreakpointMode::StepInto),
                ..old(self).info@
            }),
            final(self).types == old(self).types,
    {
        self.resume(BreakpointMode::StepInto);
    }

    /// Resume with step-over semantics (same or outer frame versus `last_sp`).
    pub fn step_over(&mut self)
        ensures
            final(self).info@ == (InfoModel {
                breakpoints: resumed(old(self).info@.breakpoints, BreakpointMode::StepOver),
                ..old(self).info@
            }),
            final(self).types == old(self).types,
    {
        self.resume(BreakpointMode::StepOver);
    }

    /// Resume with step-out semantics (outer frame only versus `last_sp`).
    pub fn step_out(&mut self)
        ensures
            final(self).info@ == (InfoModel {
                breakpoints: resumed(old(self).info@.breakpoints, BreakpointMode::StepOut),
                ..old(self).info@
            }),
            final(self).types == old(self).types,
    {
        self.resume(BreakpointMode::StepOut);
    }
}

// ---------------------------------------------------------------------------
// What the scopes hold
// ---------------------------------------------------------------------------

/// One more entry adds one more variable where it has a type and its location can be
/// evaluated: to the arguments where it is a formal parameter, else to the locals. The
/// variable has the name and the type of the entry, and lies where its
/// `DW_AT_location` leads. What was there before stays, in its order.
pub proof fn variables_are_told_apart(
    es: Seq<EntryModel>,
    all: Seq<int>,
    k: int,
    unit_index: usize,
    env: Env,
)
    ensures
        ({
            let before = scopes(es, all, unit_index, env);
            let after = scopes(es, all.push(k), unit_index, env);
            let expr = expression_at(es[k], 0x02, env.pc.0);
            let found = type_offset(es[k]) is Some && expr is Some && evaluated(expr->0, env) is Ok;
            let is_it = |v: VarModel| (name_of(es[k]) matches Some(name) ==> v.name == name) && (name_of(
                es[k],
            ) is None ==> v.name.len() == 0) && v.pieces == evaluated(expr->0, env)->Ok_0
                && v.ty.unit_index == unit_index && v.ty.unit_ofs == type_offset(es[k])->0;
            &&& after.globals == before.globals
            &&& if !found {
                after.arguments == before.arguments && after.locals == before.locals
            } else if es[k].tag == 0x05 {
                &&& after.locals == before.locals
                &&& after.arguments.len() == before.arguments.len() + 1
                &&& after.arguments.drop_last() == before.arguments
                &&& is_it(after.arguments.last())
            } else {
                &&& after.arguments == before.arguments
                &&& after.locals.len() == before.locals.len() + 1
                &&& after.locals.drop_last() == before.locals
                &&& is_it(after.locals.last())
            }
        }),
        ({
            let none = scopes(es, seq![], unit_index, env);
            none.arguments.len() == 0 && none.locals.len() == 0 && none.globals.len() == 0
        }),
{
    assert(all.push(k).drop_last() =~= all);
    let before = scopes(es, all, unit_index, env);
    let after = scopes(es, all.push(k), unit_index, env);
    if after.arguments.len() > before.arguments.len() {
        assert(after.arguments.drop_last() =~= before.arguments);
    }
    if after.locals.len() > before.locals.len() {
        assert(after.locals.drop_last() =~= before.locals);
    }
}

/// Where a paused program has its innermost frame is what the first four bytes of its
/// buffer say.
pub proof fn stack_pointers_are_read(info: InfoModel)
    requires
        info.breakpoints.len() >= 8,
        info.breakpoints[3] < 0x80,
    ensures
        stack_pointer(info) == address_at(info.breakpoints, 0),
{
    low_bytes_come_first(window(info.breakpoints, 0, 4));
    byte_range_of_words();
}

/// The variables of a frame are those that are live at its address in the function
/// that it belongs to, evaluated in that frame. Only subprograms have any.
pub proof fn frames_show_their_own_variables(info: InfoModel, frame: u32)
    requires
        frame_function(info, frame) is Ok,
    ensures
        ({
            let at = frame_function(info, frame)->Ok_0;
            let unit = info.units[at.1];
            let live = live_variables(unit.entries, at.2, frame_pc(info.stack, frame).0);
            if unit.entries[at.2].tag == 0x2e {
                frame_scopes(info, frame) == Ok::<ScopesModel, DebugError>(
                    scopes(unit.entries, live, unit.properties.index, env_at(info, frame, at)),
                )
            } else {
                frame_scopes(info, frame) is Err
            }
        }),
{
}

/// All children of a value are its indexed ones and behind them its named ones, as many
/// as were counted.
pub proof fn children_are_all_there(
    g: GraphModel,
    v: VarModel,
    memory: Seq<u8>,
    i: nat,
    n: nat,
    k: int,
)
    requires
        counted(g, v, memory, g.size) == Ok::<(nat, nat), DebugError>((i, n)),
        indexed(g, v, memory, 0, i, g.size) is Ok,
        named(g, v, memory, 0, n, g.size) is Ok,
        0 <= k,
    ensures
        ({
            let by_index = indexed(g, v, memory, 0, i, g.size)->Ok_0;
            let by_name = named(g, v, memory, 0, n, g.size)->Ok_0;
            let all = all_children(g, v, memory);
            &&& all.len() == by_index.len() + by_name.len()
            &&& k < by_index.len() ==> all[k] == by_index[k]
            &&& k < by_name.len() ==> all[by_index.len() + k] == by_name[k]
        }),
{
}

} // verus!
