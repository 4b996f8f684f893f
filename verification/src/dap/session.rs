//! What a client of the debug adapter can rely on: the answers to its requests, in
//! terms of the members that it reads from them.
use vstd::prelude::*;

use crate::debug::debugger::{FrameModel, all_children, breakpoint_index,
    breakpoints_are_set_where_the_line_is_come_to, frames_from, is_on_or_after, rooted_path,
    stack_pointer};
use crate::debug::formatters::present::shown;
use crate::debug::formatters::scalar::RenderedModel;
use crate::debug::graph::{graph_of, type_text};
use crate::debug::variables::address_of;
use crate::text::{hex, hex_numerals_spell_numbers, hex_value};
use crate::types::{InfoModel, PauseReason, offset_text};
use super::adapter::{DapModel, WorkerEvent, answered, breakpoint_body, breakpoint_for, breakpoints_body,
    breakpoints_set, capabilities, frame_body, held_in, scope_body, scopes_at, scopes_held, stack_body,
    stopped_body, threads_body, variable_body, variables_told, worker_told};
use super::json::{JsonModel, lines_among, member, member_from, requested_int, requested_lines,
    requested_source};
use super::types::{HandlesModel, HeldModel, MessageModel};

verus! {

broadcast use vstd::seq_lib::group_seq_properties;

/// What a response carries: its body where it succeeds.
pub open spec fn answer(m: DapModel, seq: i64, command: Seq<char>, args: JsonModel) -> Option<
    JsonModel,
> {
    match answered(m, seq, command, args).1 {
        MessageModel::Response { success: true, body, message: None, .. } => body,
        _ => None,
    }
}

/// Whether an object has a member with a value.
pub open spec fn says(j: JsonModel, name: Seq<char>, value: JsonModel) -> bool {
    member(j, name) == Some(value)
}

/// The first member of a name is the one that is read.
pub proof fn members_are_read_by_name(all: Seq<(Seq<char>, JsonModel)>, name: Seq<char>, k: int)
    requires
        0 <= k < all.len(),
        all[k].0 == name,
        forall|j: int| 0 <= j < k ==> (#[trigger] all[j]).0 != name,
    ensures
        member(JsonModel::Object(all), name) == Some(all[k].1),
    decreases all.len(),
{
    if k > 0 {
        assert(all[0].0 != name);
        let rest = all.skip(1);
        assert(rest[k - 1] == all[k]);
        assert forall|j: int| 0 <= j < k - 1 implies (#[trigger] rest[j]).0 != name by {
            assert(rest[j] == all[j + 1]);
        }
        members_are_read_by_name(rest, name, k - 1);
        assert(member_from(all, name) == member_from(rest, name));
    }
}

// ---------------------------------------------------------------------------
// Breakpoints
// ---------------------------------------------------------------------------

/// One more breakpoint that is asked for is one more line where it gives one.
pub proof fn lines_are_asked_for(all: Seq<JsonModel>, item: JsonModel)
    ensures
        ({
            let before = lines_among(all);
            let after = lines_among(all.push(item));
            match member(item, "line"@) {
                Some(JsonModel::Int(n)) => if i64::MIN <= n <= i64::MAX {
                    after == before.push(n as i64)
                } else {
                    after == before
                },
                _ => after == before,
            }
        }),
        lines_among(seq![]).len() == 0,
        forall|args: JsonModel| #[trigger]
            says(args, "breakpoints"@, JsonModel::List(all)) ==> requested_lines(args)
                == lines_among(all),
        forall|args: JsonModel, source: JsonModel, path: Seq<char>|
            #![trigger says(args, "source"@, source), says(source, "path"@, JsonModel::Text(path))]
            says(args, "source"@, source) && says(source, "path"@, JsonModel::Text(path))
                ==> requested_source(args) == path,
{
    assert(all.push(item).drop_last() =~= all);
}

/// Whether a breakpoint is told to be set at a location.
pub open spec fn tells_set(told: JsonModel, line: int) -> bool {
    says(told, "verified"@, JsonModel::Bool(true)) && says(told, "line"@, JsonModel::Int(line))
}

proof fn breakpoint_told(info: InfoModel, i: Option<int>)
    ensures
        match i {
            Some(i) => tells_set(
                breakpoint_body(Some(info.locations[i])),
                info.locations[i].line as int,
            ),
            None => says(breakpoint_body(None), "verified"@, JsonModel::Bool(false)),
        },
{
    reveal_strlit("verified");
    reveal_strlit("line");
    assert("verified"@.len() == 8);
    assert("line"@.len() == 4);
    if let Some(i) = i {
        let all = breakpoint_body(Some(info.locations[i]))->Object_0;
        assert(all[0].0 == "verified"@);
        assert(all[1].0 == "line"@);
        members_are_read_by_name(all, "verified"@, 0);
        members_are_read_by_name(all, "line"@, 1);
    } else {
        let all = breakpoint_body(None)->Object_0;
        assert(all[0].0 == "verified"@);
        members_are_read_by_name(all, "verified"@, 0);
    }
}

/// Where a breakpoint on a line is set.
pub open spec fn place_for(info: InfoModel, source: Seq<char>, line: i64) -> Option<int> {
    breakpoint_index(
        info.units,
        info.locations,
        rooted_path(source),
        line,
        info.locations.len() as int,
    )
}

proof fn every_line_is_set(info: InfoModel, source: Seq<char>, lines: Seq<i64>)
    requires
        info.breakpoints.len() >= 8 + info.locations.len(),
    ensures
        ({
            let (after, told) = breakpoints_set(info, source, lines);
            &&& told.len() == lines.len()
            &&& after == (InfoModel { breakpoints: after.breakpoints, ..info })
            &&& after.breakpoints.len() == info.breakpoints.len()
            &&& forall|k: int|
                0 <= k < lines.len() ==> match #[trigger] place_for(info, source, lines[k]) {
                    Some(i) => tells_set(told[k], info.locations[i].line as int)
                        && after.breakpoints[8 + i] > 0,
                    None => says(told[k], "verified"@, JsonModel::Bool(false)),
                }
            &&& forall|j: int|
                #![trigger after.breakpoints[j]]
                0 <= j < info.breakpoints.len() ==> after.breakpoints[j] >= info.breakpoints[j]
            &&& forall|j: int|
                #![trigger after.breakpoints[j]]
                0 <= j < info.breakpoints.len() && (forall|k: int|
                    0 <= k < lines.len() ==> #[trigger] place_for(info, source, lines[k]) != Some(
                        j - 8,
                    )) ==> after.breakpoints[j] == info.breakpoints[j]
        }),
    decreases lines.len(),
{
    if lines.len() > 0 {
        let rest = lines.drop_last();
        every_line_is_set(info, source, rest);
        let (before, told) = breakpoints_set(info, source, rest);
        let (after, all) = breakpoints_set(info, source, lines);
        let at = place_for(info, source, lines.last());
        assert(breakpoint_for(before, source, lines.last()) == at);
        breakpoints_are_set_where_the_line_is_come_to(before, source, lines.last());
        breakpoint_told(info, at);
        assert forall|k: int| 0 <= k < lines.len() implies match #[trigger] place_for(
            info,
            source,
            lines[k],
        ) {
            Some(i) => tells_set(all[k], info.locations[i].line as int) && after.breakpoints[8 + i]
                > 0,
            None => says(all[k], "verified"@, JsonModel::Bool(false)),
        } by {
            if k < rest.len() {
                assert(rest[k] == lines[k]);
                assert(place_for(info, source, rest[k]) == place_for(info, source, lines[k]));
                assert(all[k] == told[k]);
                breakpoints_are_set_where_the_line_is_come_to(info, source, lines[k]);
            }
        }
        assert forall|j: int|
            #![trigger after.breakpoints[j]]
            0 <= j < info.breakpoints.len() && (forall|k: int|
                0 <= k < lines.len() ==> #[trigger] place_for(info, source, lines[k]) != Some(
                    j - 8,
                )) implies after.breakpoints[j] == info.breakpoints[j] by {
            assert forall|k: int| 0 <= k < rest.len() implies #[trigger] place_for(
                info,
                source,
                rest[k],
            ) != Some(j - 8) by {
                assert(rest[k] == lines[k]);
                assert(place_for(info, source, lines[k]) != Some(j - 8));
            }
            assert(place_for(info, source, lines[lines.len() - 1]) != Some(j - 8));
            assert(before.breakpoints[j] == info.breakpoints[j]);
        }
    }
}

/// `setBreakpoints` is answered by one item for each line that is asked for, in order.
/// Where the source has code on the line or behind it, the item is verified and tells
/// the line that the breakpoint is on, and the program will stop there; else it is not
/// verified. Breakpoints that were set stay set, and no others are.
pub proof fn breakpoints_are_answered(m: DapModel, seq: i64, args: JsonModel, k: int)
    requires
        m.info matches Some(info) && info.breakpoints.len() >= 8 + info.locations.len(),
        0 <= k < requested_lines(args).len(),
    ensures
        ({
            let info = m.info->0;
            let source = requested_source(args);
            let line = requested_lines(args)[k];
            let after = answered(m, seq, "setBreakpoints"@, args).0;
            let told = answer(m, seq, "setBreakpoints"@, args);
            &&& after.info is Some
            &&& told is Some
            &&& member(told->0, "breakpoints"@) matches Some(JsonModel::List(items)) && items.len()
                == requested_lines(args).len() && if exists|j: int|
                0 <= j < info.locations.len() && is_on_or_after(
                    info.units,
                    #[trigger] info.locations[j],
                    rooted_path(source),
                    line,
                ) {
                exists|j: int| #![trigger info.locations[j]]
                    0 <= j < info.locations.len() && is_on_or_after(
                        info.units,
                        info.locations[j],
                        rooted_path(source),
                        line,
                    ) && after.info->0.breakpoints[8 + j] > 0 && tells_set(
                        items[k],
                        info.locations[j].line as int,
                    )
            } else {
                says(items[k], "verified"@, JsonModel::Bool(false))
            }
            &&& forall|j: int|
                #![trigger after.info->0.breakpoints[j]]
                0 <= j < info.breakpoints.len() ==> after.info->0.breakpoints[j]
                    >= info.breakpoints[j]
            &&& after.info->0.locations == info.locations
        }),
{
    let info = m.info->0;
    let source = requested_source(args);
    let lines = requested_lines(args);
    command_names();
    every_line_is_set(info, source, lines);
    breakpoints_are_set_where_the_line_is_come_to(info, source, lines[k]);
    let (after, told) = breakpoints_set(info, source, lines);
    let body = breakpoints_body(told);
    assert(body->Object_0[0].0 == "breakpoints"@);
    members_are_read_by_name(body->Object_0, "breakpoints"@, 0);
    if let Some(i) = place_for(info, source, lines[k]) {
        assert(tells_set(told[k], info.locations[i].line as int));
    }
}

proof fn command_names()
    ensures
        "setBreakpoints"@ != "initialize"@,
        "setBreakpoints"@ != "configurationDone"@,
        "setBreakpoints"@ != "setExceptionBreakpoints"@,
        "setBreakpoints"@ != "setFunctionBreakpoints"@,
        "setBreakpoints"@ != "threads"@,
        "stackTrace"@ != "initialize"@,
        "stackTrace"@ != "configurationDone"@,
        "stackTrace"@ != "setExceptionBreakpoints"@,
        "stackTrace"@ != "setFunctionBreakpoints"@,
        "stackTrace"@ != "threads"@,
        "stackTrace"@ != "setBreakpoints"@,
        "scopes"@ != "initialize"@,
        "scopes"@ != "configurationDone"@,
        "scopes"@ != "setExceptionBreakpoints"@,
        "scopes"@ != "setFunctionBreakpoints"@,
        "scopes"@ != "threads"@,
        "scopes"@ != "setBreakpoints"@,
        "scopes"@ != "stackTrace"@,
        "variables"@ != "initialize"@,
        "variables"@ != "configurationDone"@,
        "variables"@ != "setExceptionBreakpoints"@,
        "variables"@ != "setFunctionBreakpoints"@,
        "variables"@ != "threads"@,
        "variables"@ != "setBreakpoints"@,
        "variables"@ != "stackTrace"@,
        "variables"@ != "scopes"@,
        "threads"@ != "initialize"@,
        "threads"@ != "configurationDone"@,
        "threads"@ != "setExceptionBreakpoints"@,
        "threads"@ != "setFunctionBreakpoints"@,
{
    reveal_strlit("initialize");
    reveal_strlit("configurationDone");
    reveal_strlit("setExceptionBreakpoints");
    reveal_strlit("setFunctionBreakpoints");
    reveal_strlit("threads");
    reveal_strlit("setBreakpoints");
    reveal_strlit("stackTrace");
    reveal_strlit("scopes");
    reveal_strlit("variables");
    assert("initialize"@[0] == 'i');
    assert("configurationDone"@.len() == 17);
    assert("setExceptionBreakpoints"@.len() == 23);
    assert("setFunctionBreakpoints"@.len() == 22);
    assert("threads"@.len() == 7);
    assert("setBreakpoints"@.len() == 14);
    assert("stackTrace"@[0] == 's');
    assert("stackTrace"@.len() == 10);
    assert("scopes"@.len() == 6);
    assert("variables"@.len() == 9);
}

// ---------------------------------------------------------------------------
// The call stack
// ---------------------------------------------------------------------------

/// `stackTrace` is answered by the frames of the call stack, in order, each with its
/// number, name, line and column, and with the path of its source where that is known.
pub proof fn stack_traces_tell_every_frame(m: DapModel, seq: i64, args: JsonModel, k: int)
    requires
        m.info is Some,
        frames_from(m.info->0, stack_pointer(m.info->0), seq![]) is Ok,
        0 <= k < frames_from(m.info->0, stack_pointer(m.info->0), seq![])->Ok_0.len(),
    ensures
        ({
            let frames = frames_from(m.info->0, stack_pointer(m.info->0), seq![])->Ok_0;
            let told = answer(m, seq, "stackTrace"@, args);
            &&& told is Some
            &&& says(told->0, "totalFrames"@, JsonModel::Int(frames.len() as int))
            &&& member(told->0, "stackFrames"@) matches Some(JsonModel::List(items)) && items.len()
                == frames.len() && {
                &&& says(items[k], "id"@, JsonModel::Int(frames[k].id as int))
                &&& says(items[k], "name"@, JsonModel::Text(frames[k].name))
                &&& says(items[k], "line"@, JsonModel::Int(frames[k].line as int))
                &&& says(items[k], "column"@, JsonModel::Int(frames[k].column as int))
                &&& frames[k].source matches Some(path) ==> member(items[k], "source"@) matches Some(
                    source,
                ) && says(source, "path"@, JsonModel::Text(path))
            }
            &&& answered(m, seq, "stackTrace"@, args).0 == m.sent()
        }),
{
    let frames = frames_from(m.info->0, stack_pointer(m.info->0), seq![])->Ok_0;
    command_names();
    reveal_strlit("stackFrames");
    reveal_strlit("totalFrames");
    assert("stackFrames"@[0] == 's');
    assert("totalFrames"@[0] == 't');
    let body = stack_body(frames)->Object_0;
    assert(body[0].0 == "stackFrames"@);
    assert(body[1].0 == "totalFrames"@);
    members_are_read_by_name(body, "stackFrames"@, 0);
    members_are_read_by_name(body, "totalFrames"@, 1);
    let f = frames[k];
    assert(stack_body(frames)->Object_0[0].1->List_0[k] == frame_body(f));
    frame_told(f);
}

proof fn frame_told(f: FrameModel)
    ensures
        says(frame_body(f), "id"@, JsonModel::Int(f.id as int)),
        says(frame_body(f), "name"@, JsonModel::Text(f.name)),
        says(frame_body(f), "line"@, JsonModel::Int(f.line as int)),
        says(frame_body(f), "column"@, JsonModel::Int(f.column as int)),
        f.source matches Some(path) ==> member(frame_body(f), "source"@) matches Some(source)
            && says(source, "path"@, JsonModel::Text(path)),
{
    reveal_strlit("id");
    reveal_strlit("name");
    reveal_strlit("line");
    reveal_strlit("column");
    reveal_strlit("source");
    assert("id"@[0] == 'i');
    assert("name"@[0] == 'n');
    assert("line"@[0] == 'l');
    assert("column"@[0] == 'c');
    assert("source"@[0] == 's');
    let all = frame_body(f)->Object_0;
    assert(all[0].0 == "id"@);
    assert(all[1].0 == "name"@);
    assert(all[2].0 == "line"@);
    assert(all[3].0 == "column"@);
    assert(all[4].0 == "source"@);
    members_are_read_by_name(all, "id"@, 0);
    members_are_read_by_name(all, "name"@, 1);
    members_are_read_by_name(all, "line"@, 2);
    members_are_read_by_name(all, "column"@, 3);
    members_are_read_by_name(all, "source"@, 4);
    if let Some(path) = f.source {
        let source = seq![("path"@, JsonModel::Text(path))];
        assert(source[0].0 == "path"@);
        members_are_read_by_name(source, "path"@, 0);
    }
}

// ---------------------------------------------------------------------------
// Scopes and variables
// ---------------------------------------------------------------------------

proof fn scope_told(name: Seq<char>, handle: int)
    ensures
        says(scope_body(name, handle), "name"@, JsonModel::Text(name)),
        says(scope_body(name, handle), "variablesReference"@, JsonModel::Int(handle)),
{
    reveal_strlit("name");
    reveal_strlit("variablesReference");
    assert("name"@[0] == 'n');
    assert("variablesReference"@[0] == 'v');
    let all = scope_body(name, handle)->Object_0;
    assert(all[0].0 == "name"@);
    assert(all[1].0 == "variablesReference"@);
    members_are_read_by_name(all, "name"@, 0);
    members_are_read_by_name(all, "variablesReference"@, 1);
}

/// Whether a list of variables is what a handle stands for.
pub open spec fn stands_for(handles: HandlesModel, told: JsonModel, all: Seq<HeldModel>) -> bool {
    member(told, "variablesReference"@) matches Some(JsonModel::Int(handle)) && handles.list(handle)
        == Some(all)
}

/// `scopes` is answered by the scope `Arguments` where the frame has arguments, and by
/// the scope `Locals` behind it where it has locals. Each can be asked for with its
/// reference, which stands for exactly these variables. References that were given
/// before stand for what they stood for.
pub proof fn scopes_are_told(m: DapModel, seq: i64, args: JsonModel, old_handle: int)
    requires
        m.info is Some,
        scopes_at(m.info->0, requested_int(args, "frameId"@) as u32) is Ok,
        m.handles.base + m.handles.lists.len() + 2 < i64::MAX,
    ensures
        ({
            let s = scopes_at(m.info->0, requested_int(args, "frameId"@) as u32)->Ok_0;
            let g = graph_of(m.info->0.units);
            let after = answered(m, seq, "scopes"@, args).0;
            let told = answer(m, seq, "scopes"@, args);
            let first: int = if s.arguments.len() > 0 {
                1
            } else {
                0
            };
            &&& told is Some
            &&& member(told->0, "scopes"@) matches Some(JsonModel::List(items)) && {
                &&& items.len() == first + if s.locals.len() > 0 {
                    1int
                } else {
                    0
                }
                &&& s.arguments.len() > 0 ==> says(items[0], "name"@, JsonModel::Text("Arguments"@))
                    && stands_for(after.handles, items[0], held_in(s.arguments, g))
                &&& s.locals.len() > 0 ==> says(items[first], "name"@, JsonModel::Text("Locals"@))
                    && stands_for(after.handles, items[first], held_in(s.locals, g))
            }
            &&& m.handles.list(old_handle) matches Some(all) ==> after.handles.list(old_handle)
                == Some(all)
            &&& after.info == m.info
        }),
{
    let s = scopes_at(m.info->0, requested_int(args, "frameId"@) as u32)->Ok_0;
    let g = graph_of(m.info->0.units);
    command_names();
    let (handles, told) = scopes_held(m.handles, s, g);
    let body = seq![("scopes"@, JsonModel::List(told))];
    assert(body[0].0 == "scopes"@);
    members_are_read_by_name(body, "scopes"@, 0);
    let next = m.handles.next();
    scope_told("Arguments"@, next);
    scope_told("Locals"@, next);
    scope_told("Locals"@, next + 1);
    assert(held_in(s.arguments, g).len() == s.arguments.len());
    assert(held_in(s.locals, g).len() == s.locals.len());
}

proof fn variable_told(h: HeldModel, memory: Seq<u8>, handle: int)
    ensures
        says(variable_body(h, memory, handle), "name"@, JsonModel::Text(h.var.name)),
        says(
            variable_body(h, memory, handle),
            "type"@,
            JsonModel::Text(type_text(h.graph, h.var.ty)),
        ),
        says(variable_body(h, memory, handle), "variablesReference"@, JsonModel::Int(handle)),
        match shown(h.graph, h.var, memory, h.graph.size) {
            Ok(RenderedModel::Text(t)) => says(
                variable_body(h, memory, handle),
                "value"@,
                JsonModel::Text(t),
            ),
            Ok(RenderedModel::Float32(b)) => says(
                variable_body(h, memory, handle),
                "value"@,
                JsonModel::Float32(b),
            ),
            Ok(RenderedModel::Float64(b)) => says(
                variable_body(h, memory, handle),
                "value"@,
                JsonModel::Float64(b),
            ),
            Err(_) => says(
                variable_body(h, memory, handle),
                "value"@,
                JsonModel::Text("<unavailable>"@),
            ),
        },
        match address_of(h.var.pieces) {
            Some(a) => says(
                variable_body(h, memory, handle),
                "memoryReference"@,
                JsonModel::Text(offset_text(a.0)),
            ),
            None => true,
        },
{
    reveal_strlit("name");
    reveal_strlit("value");
    reveal_strlit("type");
    reveal_strlit("variablesReference");
    reveal_strlit("memoryReference");
    assert("name"@[0] == 'n');
    assert("value"@.len() == 5);
    assert("type"@[0] == 't');
    assert("variablesReference"@.len() == 18);
    assert("memoryReference"@.len() == 15);
    let all = variable_body(h, memory, handle)->Object_0;
    assert(all[0].0 == "name"@);
    assert(all[1].0 == "value"@);
    assert(all[2].0 == "type"@);
    assert(all[3].0 == "variablesReference"@);
    members_are_read_by_name(all, "name"@, 0);
    members_are_read_by_name(all, "value"@, 1);
    members_are_read_by_name(all, "type"@, 2);
    members_are_read_by_name(all, "variablesReference"@, 3);
    if let Some(a) = address_of(h.var.pieces) {
        assert(all[4].0 == "memoryReference"@);
        members_are_read_by_name(all, "memoryReference"@, 4);
    }
}

/// Whether a variable is told as it is: by its name, the name of its type, and what is
/// shown of it, with the address at which it lies in hexadecimal.
pub open spec fn tells_variable(told: JsonModel, h: HeldModel, memory: Seq<u8>) -> bool {
    &&& says(told, "name"@, JsonModel::Text(h.var.name))
    &&& says(told, "type"@, JsonModel::Text(type_text(h.graph, h.var.ty)))
    &&& match shown(h.graph, h.var, memory, h.graph.size) {
        Ok(RenderedModel::Text(t)) => says(told, "value"@, JsonModel::Text(t)),
        Ok(RenderedModel::Float32(b)) => says(told, "value"@, JsonModel::Float32(b)),
        Ok(RenderedModel::Float64(b)) => says(told, "value"@, JsonModel::Float64(b)),
        Err(_) => says(told, "value"@, JsonModel::Text("<unavailable>"@)),
    }
    &&& h.var.pieces.len() > 0 && h.var.pieces[0].location is Address ==> (member(
        told,
        "memoryReference"@,
    ) matches Some(JsonModel::Text(t)) && t.len() > 2 && t[0] == '0' && t[1] == 'x' && hex_value(
        t.skip(2),
    ) == h.var.pieces[0].location->Address_0)
}

proof fn addresses_are_told(h: HeldModel, memory: Seq<u8>, handle: int)
    ensures
        tells_variable(variable_body(h, memory, handle), h, memory),
{
    variable_told(h, memory, handle);
    if h.var.pieces.len() > 0 && h.var.pieces[0].location is Address {
        let a = h.var.pieces[0].location->Address_0;
        reveal_strlit("0x");
        hex_numerals_spell_numbers(a as nat, 0);
        assert(offset_text(a).skip(2) =~= hex(a as nat));
    }
}

proof fn every_variable_is_told(handles: HandlesModel, all: Seq<HeldModel>, memory: Seq<u8>)
    requires
        handles.base + handles.lists.len() + all.len() < i64::MAX,
        handles.base >= 0,
    ensures
        ({
            let (after, told) = variables_told(handles, all, memory);
            &&& told.len() == all.len()
            &&& after.base == handles.base
            &&& handles.lists.is_prefix_of(after.lists)
            &&& after.lists.len() <= handles.lists.len() + all.len()
            &&& forall|k: int|
                0 <= k < all.len() ==> tells_variable(#[trigger] told[k], all[k], memory)
            &&& forall|k: int|
                #![trigger told[k]]
                0 <= k < all.len() ==> {
                    let kids = all_children(all[k].graph, all[k].var, memory);
                    if kids.len() > 0 {
                        stands_for(after, told[k], held_in(kids, all[k].graph))
                    } else {
                        says(told[k], "variablesReference"@, JsonModel::Int(0))
                    }
                }
        }),
    decreases all.len(),
{
    if all.len() > 0 {
        let rest = all.drop_last();
        every_variable_is_told(handles, rest, memory);
        let (before, some) = variables_told(handles, rest, memory);
        let (after, told) = variables_told(handles, all, memory);
        let h = all.last();
        let kids = held_in(all_children(h.graph, h.var, memory), h.graph);
        let handle = if kids.len() == 0 {
            0
        } else {
            before.next()
        };
        addresses_are_told(h, memory, handle);
        variable_told(h, memory, handle);
        assert(kids.len() == all_children(h.graph, h.var, memory).len());
        assert forall|k: int| 0 <= k < all.len() implies tells_variable(
            #[trigger] told[k],
            all[k],
            memory,
        ) by {
            if k < rest.len() {
                assert(told[k] == some[k]);
                assert(rest[k] == all[k]);
            }
        }
        assert forall|k: int|
            #![trigger told[k]]
            0 <= k < all.len() implies {
            let kids = all_children(all[k].graph, all[k].var, memory);
            if kids.len() > 0 {
                stands_for(after, told[k], held_in(kids, all[k].graph))
            } else {
                says(told[k], "variablesReference"@, JsonModel::Int(0))
            }
        } by {
            if k < rest.len() {
                assert(told[k] == some[k]);
                assert(rest[k] == all[k]);
            }
        }
    }
}

/// `variables` is answered by the variables that the reference stands for, in order.
/// Each is told by its name, its type and its value; its own reference stands for its
/// children, and is 0 where it has none. A reference that stands for nothing is
/// refused.
pub proof fn variables_are_told(m: DapModel, seq: i64, args: JsonModel, k: int)
    requires
        m.info is Some,
        m.handles.list(requested_int(args, "variablesReference"@) as int) is Some,
        m.handles.base >= 0,
        m.handles.base + m.handles.lists.len() + m.handles.list(
            requested_int(args, "variablesReference"@) as int,
        )->0.len() < i64::MAX,
        0 <= k < m.handles.list(requested_int(args, "variablesReference"@) as int)->0.len(),
    ensures
        ({
            let all = m.handles.list(requested_int(args, "variablesReference"@) as int)->0;
            let memory = m.info->0.memory;
            let after = answered(m, seq, "variables"@, args).0;
            let told = answer(m, seq, "variables"@, args);
            let kids = all_children(all[k].graph, all[k].var, memory);
            &&& told is Some
            &&& member(told->0, "variables"@) matches Some(JsonModel::List(items)) && {
                &&& items.len() == all.len()
                &&& tells_variable(items[k], all[k], memory)
                &&& if kids.len() > 0 {
                    stands_for(after.handles, items[k], held_in(kids, all[k].graph))
                } else {
                    says(items[k], "variablesReference"@, JsonModel::Int(0))
                }
            }
            &&& after.info == m.info
        }),
{
    let all = m.handles.list(requested_int(args, "variablesReference"@) as int)->0;
    command_names();
    every_variable_is_told(m.handles, all, m.info->0.memory);
    let (handles, told) = variables_told(m.handles, all, m.info->0.memory);
    let body = seq![("variables"@, JsonModel::List(told))];
    assert(body[0].0 == "variables"@);
    members_are_read_by_name(body, "variables"@, 0);
    assert(tells_variable(told[k], all[k], m.info->0.memory));
}

// ---------------------------------------------------------------------------
// Other messages
// ---------------------------------------------------------------------------

/// Requests that need a program are refused where none is attached, and so are
/// references that stand for nothing. A refusal says why, and changes nothing but the
/// number of the last message.
pub proof fn requests_without_a_program_are_refused(
    m: DapModel,
    seq: i64,
    command: Seq<char>,
    args: JsonModel,
)
    requires
        ({
            ||| m.info is None && (command == "setBreakpoints"@ || command == "stackTrace"@
                || command == "scopes"@)
            ||| command == "variables"@ && m.handles.list(
                requested_int(args, "variablesReference"@) as int,
            ) is None
        }),
    ensures
        answered(m, seq, command, args).0 == m.sent(),
        answered(m, seq, command, args).1 matches MessageModel::Response {
            success: false,
            message: Some(_),
            body: None,
            ..
        },
{
    command_names();
}

/// The client is told why the program has stopped, that its one thread has, and that
/// no other runs. That thread is the one that `threads` tells.
pub proof fn stops_are_told(reason: PauseReason, m: DapModel, seq: i64, args: JsonModel)
    ensures
        reason is Step ==> says(stopped_body(reason), "reason"@, JsonModel::Text("step"@)),
        reason is Breakpoint ==> says(
            stopped_body(reason),
            "reason"@,
            JsonModel::Text("breakpoint"@),
        ),
        says(stopped_body(reason), "threadId"@, JsonModel::Int(1)),
        says(stopped_body(reason), "allThreadsStopped"@, JsonModel::Bool(true)),
        answer(m, seq, "threads"@, args) matches Some(told) && (member(told, "threads"@) matches Some(
            JsonModel::List(items),
        ) && items.len() == 1 && says(items[0], "id"@, JsonModel::Int(1))),
{
    reveal_strlit("reason");
    reveal_strlit("threadId");
    reveal_strlit("allThreadsStopped");
    assert("reason"@[0] == 'r');
    assert("threadId"@[0] == 't');
    assert("allThreadsStopped"@[0] == 'a');
    let all = stopped_body(reason)->Object_0;
    assert(all[0].0 == "reason"@);
    assert(all[1].0 == "threadId"@);
    assert(all[2].0 == "allThreadsStopped"@);
    members_are_read_by_name(all, "reason"@, 0);
    members_are_read_by_name(all, "threadId"@, 1);
    members_are_read_by_name(all, "allThreadsStopped"@, 2);
    command_names();
    let threads = threads_body()->Object_0;
    assert(threads[0].0 == "threads"@);
    members_are_read_by_name(threads, "threads"@, 0);
    let one = threads[0].1->List_0[0]->Object_0;
    assert(one[0].0 == "id"@);
    members_are_read_by_name(one, "id"@, 0);
}

/// The answer to `initialize` says that the client may tell when it has set everything
/// up, and that the program cannot go back. `disconnect` and requests for breakpoints
/// of other kinds change nothing.
pub proof fn clients_are_told_what_can_be_done(m: DapModel, seq: i64, args: JsonModel)
    ensures
        ({
            let told = answer(m, seq, "initialize"@, args);
            &&& told is Some
            &&& says(told->0, "supportsConfigurationDoneRequest"@, JsonModel::Bool(true))
            &&& says(told->0, "supportsStepBack"@, JsonModel::Bool(false))
            &&& says(told->0, "supportsFunctionBreakpoints"@, JsonModel::Bool(false))
            &&& answered(m, seq, "initialize"@, args).0.client_initialized
        }),
        answered(m, seq, "disconnect"@, args).0 == m.sent(),
        answered(m, seq, "setFunctionBreakpoints"@, args).0 == m.sent(),
        answered(m, seq, "setExceptionBreakpoints"@, args).0 == m.sent(),
{
    reveal_strlit("supportsConfigurationDoneRequest");
    reveal_strlit("supportsStepBack");
    reveal_strlit("supportsFunctionBreakpoints");
    assert("supportsConfigurationDoneRequest"@.len() == 32);
    assert("supportsStepBack"@.len() == 16);
    assert("supportsFunctionBreakpoints"@.len() == 27);
    let all = capabilities()->Object_0;
    assert(all[0].0 == "supportsConfigurationDoneRequest"@);
    assert(all[1].0 == "supportsStepBack"@);
    assert(all[2].0 == "supportsFunctionBreakpoints"@);
    members_are_read_by_name(all, "supportsConfigurationDoneRequest"@, 0);
    members_are_read_by_name(all, "supportsStepBack"@, 1);
    members_are_read_by_name(all, "supportsFunctionBreakpoints"@, 2);
    reveal_strlit("disconnect");
    reveal_strlit("initialize");
    reveal_strlit("configurationDone");
    reveal_strlit("setExceptionBreakpoints");
    reveal_strlit("setFunctionBreakpoints");
    reveal_strlit("threads");
    reveal_strlit("setBreakpoints");
    reveal_strlit("stackTrace");
    reveal_strlit("scopes");
    reveal_strlit("variables");
    reveal_strlit("continue");
    reveal_strlit("next");
    reveal_strlit("stepIn");
    reveal_strlit("stepOut");
    assert("disconnect"@.len() == 10);
    assert("disconnect"@[0] == 'd');
    assert("initialize"@[0] == 'i');
    assert("stackTrace"@[0] == 's');
    assert("configurationDone"@.len() == 17);
    assert("setExceptionBreakpoints"@.len() == 23);
    assert("setFunctionBreakpoints"@.len() == 22);
    assert("threads"@.len() == 7);
    assert("setBreakpoints"@.len() == 14);
    assert("scopes"@.len() == 6);
    assert("variables"@.len() == 9);
    assert("continue"@.len() == 8);
    assert("next"@.len() == 4);
    assert("stepIn"@.len() == 6);
    assert("stepOut"@.len() == 7);
}

/// Whether a command is one that the adapter knows.
pub open spec fn is_command(command: Seq<char>) -> bool {
    ||| command == "initialize"@
    ||| command == "configurationDone"@
    ||| command == "setExceptionBreakpoints"@
    ||| command == "setFunctionBreakpoints"@
    ||| command == "threads"@
    ||| command == "setBreakpoints"@
    ||| command == "stackTrace"@
    ||| command == "scopes"@
    ||| command == "variables"@
    ||| command == "continue"@
    ||| command == "next"@
    ||| command == "stepIn"@
    ||| command == "stepOut"@
    ||| command == "disconnect"@
}

/// A command that is not known is refused by its name, and changes nothing but the
/// number of the last message.
pub proof fn unknown_commands_are_refused(
    m: DapModel,
    seq: i64,
    command: Seq<char>,
    args: JsonModel,
)
    requires
        !is_command(command),
    ensures
        answered(m, seq, command, args).0 == m.sent(),
        answered(m, seq, command, args).1 matches MessageModel::Response {
            success: false,
            message: Some(why),
            body: None,
            ..
        } && why == "Unknown command: "@ + command,
{
}

/// A whole number that a request gives is read as it is, and counts as 0 where there is
/// none.
pub proof fn numbers_are_read_from_requests(args: JsonModel, name: Seq<char>, n: int)
    ensures
        i64::MIN <= n <= i64::MAX && says(args, name, JsonModel::Int(n)) ==> requested_int(
            args,
            name,
        ) == n,
        member(args, name) is None ==> requested_int(args, name) == 0,
{
}

/// The client is told when the program stops and when it ends, by events of their own
/// with the next number. A program that is ready takes the place of the one before; the
/// client is told so where it has asked and has not been told yet.
pub proof fn the_client_is_told_of_the_program(m: DapModel, event: WorkerEvent)
    requires
        m.seq < i64::MAX,
    ensures
        ({
            let (after, told) = worker_told(m, event);
            match event {
                WorkerEvent::Paused(reason) => {
                    &&& told matches Some(MessageModel::Event { seq, event: name, body: Some(body) })
                        && seq == m.seq + 1 && name == "stopped"@ && body == stopped_body(reason)
                    &&& after.info == m.info && after.handles == m.handles
                },
                WorkerEvent::Stop => {
                    &&& told matches Some(MessageModel::Event { seq, event: name, .. }) && seq == m.seq
                        + 1 && name == "terminated"@
                    &&& after.info == m.info
                },
                WorkerEvent::Debug(info) => {
                    &&& after.info == Some(info@)
                    &&& told is Some <==> m.client_initialized && !m.initialized_emitted
                    &&& told matches Some(t) ==> t matches MessageModel::Event { event: name, .. }
                        && name == "initialized"@
                },
                WorkerEvent::Other => told is None && after == m,
            }
        }),
{
}

} // verus!
