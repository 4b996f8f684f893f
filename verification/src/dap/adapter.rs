//! What the debug adapter does with each message.
use vstd::prelude::*;

use crate::bytes::le_bytes;
use crate::debug::debugger::{Debugger, FrameModel, ScopesModel, all_children, breakpoint_index,
    flagged, frame_offset, frame_scopes, frames_from, frames_of, resumed, rooted_path,
    stack_pointer};
use crate::debug::dwarf::unit::Location;
use crate::debug::formatters::present::shown;
use crate::debug::graph::{GraphModel, graph_of, resolve, size_of_decl, type_text};
use crate::debug::variables::{VarModel, Variable, address_of, vars_of};
use crate::error::{DebugError, message_of};
use crate::text::{concat, own, same};
use crate::types::{BreakpointMode, DebugInfo, InfoModel, PauseReason, offset_text};
use crate::worker::debuggee::{DebuggeeModel, pauses, programs_pause_by_the_mode, word_is};
use super::json::{Json, JsonModel, Members, breakpoint_lines, int_member, list, list_model,
    push_item, rendered, rendered_json, requested_int, requested_lines, requested_source,
    source_path, text};
use super::types::{HandlesModel, HeldModel, MessageModel, ProtocolMessage, VariablesMap, held_of};

verus! {

broadcast use vstd::seq_lib::group_seq_properties;

// ---------------------------------------------------------------------------
// What is answered
// ---------------------------------------------------------------------------

/// The state of the adapter.
pub struct DapModel {
    /// The number of the last message that was sent.
    pub seq: i64,
    /// What is known of the attached program.
    pub info: Option<InfoModel>,
    /// `initialize` request was handled and the client received the capabilities response.
    pub client_initialized: bool,
    /// We emitted `initialized` for this debug session (once per worker / run).
    pub initialized_emitted: bool,
    pub handles: HandlesModel,
}

impl DapModel {
    /// The number of the next message.
    pub open spec fn next_seq(self) -> i64 {
        vstd::wrapping::i64_specs::wrapping_add(self.seq, 1)
    }

    /// The adapter after it has sent a message.
    pub open spec fn sent(self) -> DapModel {
        DapModel { seq: self.next_seq(), ..self }
    }

    /// The adapter after the program was told to go on.
    pub open spec fn resumed(self, mode: BreakpointMode) -> DapModel {
        DapModel {
            info: match self.info {
                Some(info) => Some(
                    InfoModel { breakpoints: resumed(info.breakpoints, mode), ..info },
                ),
                None => None,
            },
            handles: self.handles.cleared(),
            ..self
        }
    }
}

/// The capabilities.
pub open spec fn capabilities() -> JsonModel {
    JsonModel::Object(
        seq![
            ("supportsConfigurationDoneRequest"@, JsonModel::Bool(true)),
            ("supportsStepBack"@, JsonModel::Bool(false)),
            ("supportsFunctionBreakpoints"@, JsonModel::Bool(false)),
        ],
    )
}

/// A list of breakpoints.
pub open spec fn breakpoints_body(all: Seq<JsonModel>) -> JsonModel {
    JsonModel::Object(seq![("breakpoints"@, JsonModel::List(all))])
}

/// The one thread that there is.
pub open spec fn threads_body() -> JsonModel {
    JsonModel::Object(
        seq![
            (
                "threads"@,
                JsonModel::List(
                    seq![
                        JsonModel::Object(
                            seq![
                                ("id"@, JsonModel::Int(1)),
                                ("name"@, JsonModel::Text("main"@)),
                            ],
                        ),
                    ],
                ),
            ),
        ],
    )
}

/// What is told of a breakpoint.
pub open spec fn breakpoint_body(l: Option<Location>) -> JsonModel {
    match l {
        Some(l) => JsonModel::Object(
            seq![
                ("verified"@, JsonModel::Bool(true)),
                ("line"@, JsonModel::Int(l.line as int)),
            ],
        ),
        None => JsonModel::Object(seq![("verified"@, JsonModel::Bool(false))]),
    }
}

/// The location that a breakpoint is set at.
pub open spec fn breakpoint_for(info: InfoModel, source: Seq<char>, line: i64) -> Option<int> {
    breakpoint_index(
        info.units,
        info.locations,
        rooted_path(source),
        line,
        info.locations.len() as int,
    )
}

/// Sets breakpoints on lines one after the other.
pub open spec fn breakpoints_set(info: InfoModel, source: Seq<char>, lines: Seq<i64>) -> (
    InfoModel,
    Seq<JsonModel>,
)
    decreases lines.len(),
{
    if lines.len() == 0 {
        (info, seq![])
    } else {
        let (before, told) = breakpoints_set(info, source, lines.drop_last());
        match breakpoint_for(before, source, lines.last()) {
            Some(i) => (
                InfoModel { breakpoints: flagged(before.breakpoints, i), ..before },
                told.push(breakpoint_body(Some(before.locations[i]))),
            ),
            None => (before, told.push(breakpoint_body(None))),
        }
    }
}

/// What is told of a frame.
pub open spec fn frame_body(f: FrameModel) -> JsonModel {
    JsonModel::Object(
        seq![
            ("id"@, JsonModel::Int(f.id as int)),
            ("name"@, JsonModel::Text(f.name)),
            ("line"@, JsonModel::Int(f.line as int)),
            ("column"@, JsonModel::Int(f.column as int)),
            (
                "source"@,
                match f.source {
                    Some(p) => JsonModel::Object(seq![("path"@, JsonModel::Text(p))]),
                    None => JsonModel::Null,
                },
            ),
        ],
    )
}

/// What is told of the call stack.
pub open spec fn stack_body(frames: Seq<FrameModel>) -> JsonModel {
    JsonModel::Object(
        seq![
            (
                "stackFrames"@,
                JsonModel::List(frames.map_values(|f: FrameModel| frame_body(f))),
            ),
            ("totalFrames"@, JsonModel::Int(frames.len() as int)),
        ],
    )
}

/// Variables whose types are among the declarations `g`.
pub open spec fn held_in(vars: Seq<VarModel>, g: GraphModel) -> Seq<HeldModel> {
    vars.map_values(|v: VarModel| HeldModel { var: v, graph: g })
}

/// What is told of a scope.
pub open spec fn scope_body(name: Seq<char>, handle: int) -> JsonModel {
    JsonModel::Object(
        seq![
            ("name"@, JsonModel::Text(name)),
            ("variablesReference"@, JsonModel::Int(handle)),
            ("expensive"@, JsonModel::Bool(false)),
        ],
    )
}

/// Handles on a scope, where there is anything in it, and what is told of it.
pub open spec fn scope_held(
    handles: HandlesModel,
    told: Seq<JsonModel>,
    name: Seq<char>,
    vars: Seq<HeldModel>,
) -> (HandlesModel, Seq<JsonModel>) {
    if vars.len() == 0 {
        (handles, told)
    } else {
        (handles.with(vars), told.push(scope_body(name, handles.next())))
    }
}

/// Handles on the scopes of a frame, and what is told of them.
pub open spec fn scopes_held(handles: HandlesModel, s: ScopesModel, g: GraphModel) -> (
    HandlesModel,
    Seq<JsonModel>,
) {
    let (handles, told) = scope_held(handles, seq![], "Arguments"@, held_in(s.arguments, g));
    scope_held(handles, told, "Locals"@, held_in(s.locals, g))
}

/// The scopes of a frame.
pub open spec fn scopes_at(info: InfoModel, frame_id: u32) -> Result<ScopesModel, DebugError> {
    match frame_offset(info, stack_pointer(info), frame_id as nat) {
        Some(frame) => frame_scopes(info, frame),
        None => Err(DebugError::FrameNotFound(frame_id)),
    }
}

/// What is shown of a variable.
pub open spec fn value_body(h: HeldModel, memory: Seq<u8>) -> JsonModel {
    match shown(h.graph, h.var, memory, h.graph.size) {
        Ok(r) => rendered_json(r),
        Err(_) => JsonModel::Text("<unavailable>"@),
    }
}

/// What is told of a variable.
pub open spec fn variable_body(h: HeldModel, memory: Seq<u8>, handle: int) -> JsonModel {
    let base = seq![
        ("name"@, JsonModel::Text(h.var.name)),
        ("value"@, value_body(h, memory)),
        (
            "type"@,
            JsonModel::Text(type_text(h.graph, h.var.ty)),
        ),
        ("variablesReference"@, JsonModel::Int(handle)),
    ];
    let placed = match address_of(h.var.pieces) {
        Some(a) => base.push(("memoryReference"@, JsonModel::Text(offset_text(a.0)))),
        None => base,
    };
    JsonModel::Object(
        match size_of_decl(resolve(h.graph, h.var.ty, h.graph.size)) {
            Some(size) => placed.push(
                (
                    "presentationHint"@,
                    JsonModel::Object(seq![("byteSize"@, JsonModel::Int(size as int))]),
                ),
            ),
            None => placed,
        },
    )
}

/// Handles on the children of variables, and what is told of the variables.
pub open spec fn variables_told(handles: HandlesModel, all: Seq<HeldModel>, memory: Seq<u8>) -> (
    HandlesModel,
    Seq<JsonModel>,
)
    decreases all.len(),
{
    if all.len() == 0 {
        (handles, seq![])
    } else {
        let (handles, told) = variables_told(handles, all.drop_last(), memory);
        let h = all.last();
        let kids = held_in(all_children(h.graph, h.var, memory), h.graph);
        if kids.len() == 0 {
            (handles, told.push(variable_body(h, memory, 0)))
        } else {
            (handles.with(kids), told.push(variable_body(h, memory, handles.next())))
        }
    }
}

/// No debugger is attached.
pub open spec fn not_attached() -> Seq<char> {
    "No debugger attached"@
}

/// An object without members.
pub open spec fn empty_body() -> JsonModel {
    JsonModel::Object(seq![])
}

/// What is answered to a command, and the adapter after it.
pub open spec fn handled(m: DapModel, command: Seq<char>, args: JsonModel) -> (
    DapModel,
    Result<JsonModel, Seq<char>>,
) {
    if command == "initialize"@ {
        (DapModel { client_initialized: true, ..m }, Ok(capabilities()))
    } else if command == "configurationDone"@ {
        match m.info {
            Some(_) => (m.resumed(BreakpointMode::Normal), Ok(JsonModel::Null)),
            None => (
                DapModel { handles: m.handles.cleared(), ..m },
                Err("configurationDone: debugger not ready"@),
            ),
        }
    } else if command == "setExceptionBreakpoints"@ || command == "setFunctionBreakpoints"@ {
        (m, Ok(breakpoints_body(seq![])))
    } else if command == "threads"@ {
        (m, Ok(threads_body()))
    } else if command == "setBreakpoints"@ {
        match m.info {
            Some(info) => {
                let (info, told) = breakpoints_set(
                    info,
                    requested_source(args),
                    requested_lines(args),
                );
                (DapModel { info: Some(info), ..m }, Ok(breakpoints_body(told)))
            },
            None => (m, Err(not_attached())),
        }
    } else if command == "stackTrace"@ {
        match m.info {
            Some(info) => match frames_from(info, stack_pointer(info), seq![]) {
                Ok(frames) => (m, Ok(stack_body(frames))),
                Err(_) => (m, Err("Failed to get backtrace"@)),
            },
            None => (m, Err(not_attached())),
        }
    } else if command == "scopes"@ {
        match m.info {
            Some(info) => match scopes_at(info, requested_int(args, "frameId"@) as u32) {
                Ok(s) => {
                    let (handles, told) = scopes_held(m.handles, s, graph_of(info.units));
                    (
                        DapModel { handles, ..m },
                        Ok(JsonModel::Object(seq![("scopes"@, JsonModel::List(told))])),
                    )
                },
                Err(e) => (m, Err(message_of(e))),
            },
            None => (m, Err(not_attached())),
        }
    } else if command == "variables"@ {
        match m.handles.list(requested_int(args, "variablesReference"@) as int) {
            None => (m, Err("Unknown variablesReference"@)),
            Some(all) => match m.info {
                Some(info) => {
                    let (handles, told) = variables_told(m.handles, all, info.memory);
                    (
                        DapModel { handles, ..m },
                        Ok(JsonModel::Object(seq![("variables"@, JsonModel::List(told))])),
                    )
                },
                None => (m, Err(not_attached())),
            },
        }
    } else if command == "continue"@ {
        (
            m.resumed(BreakpointMode::Normal),
            Ok(JsonModel::Object(seq![("allThreadsContinued"@, JsonModel::Bool(true))])),
        )
    } else if command == "next"@ {
        (m.resumed(BreakpointMode::StepOver), Ok(empty_body()))
    } else if command == "stepIn"@ {
        (m.resumed(BreakpointMode::StepInto), Ok(empty_body()))
    } else if command == "stepOut"@ {
        (m.resumed(BreakpointMode::StepOut), Ok(empty_body()))
    } else if command == "disconnect"@ {
        (m, Ok(JsonModel::Null))
    } else {
        (m, Err("Unknown command: "@ + command))
    }
}

/// The response to a request.
pub open spec fn response(
    rseq: i64,
    seq: i64,
    command: Seq<char>,
    result: Result<JsonModel, Seq<char>>,
) -> MessageModel {
    match result {
        Ok(body) => MessageModel::Response {
            seq: rseq,
            request_seq: seq,
            success: true,
            command,
            message: None,
            // DAP spec requires body to be omitted if null
            body: if body is Null {
                None
            } else {
                Some(body)
            },
        },
        Err(e) => MessageModel::Response {
            seq: rseq,
            request_seq: seq,
            success: false,
            command,
            message: Some(e),
            body: None,
        },
    }
}

/// Whether the client can be told that the adapter is ready.
pub open spec fn is_ready(m: DapModel) -> bool {
    m.client_initialized && m.info is Some && !m.initialized_emitted
}

/// The adapter after it has told the client that it is ready, where it can, and
/// what it told it.
pub open spec fn readied(m: DapModel) -> (DapModel, Option<MessageModel>) {
    if is_ready(m) {
        (
            DapModel { initialized_emitted: true, ..m }.sent(),
            Some(
                MessageModel::Event { seq: m.next_seq(), event: "initialized"@, body: None },
            ),
        )
    } else {
        (m, None)
    }
}

/// The response to a request, the event that follows it, and the adapter after
/// them.
pub open spec fn answered(m: DapModel, seq: i64, command: Seq<char>, args: JsonModel) -> (
    DapModel,
    MessageModel,
    Option<MessageModel>,
) {
    let (after, result) = handled(m.sent(), command, args);
    let told = response(m.next_seq(), seq, command, result);
    if command == "initialize"@ {
        let (after, event) = readied(after);
        (after, told, event)
    } else {
        (after, told, None)
    }
}

/// Why the program stopped.
pub open spec fn stopped_body(reason: PauseReason) -> JsonModel {
    JsonModel::Object(
        seq![
            (
                "reason"@,
                JsonModel::Text(
                    match reason {
                        PauseReason::Breakpoint => "breakpoint"@,
                        PauseReason::Step => "step"@,
                    },
                ),
            ),
            ("threadId"@, JsonModel::Int(1)),
            ("allThreadsStopped"@, JsonModel::Bool(true)),
        ],
    )
}

// ---------------------------------------------------------------------------
// Laws
// ---------------------------------------------------------------------------

/// Every request is answered by one response that names it. The client is told
/// that the adapter is ready only after the response to `initialize`, only once
/// there is a program, and not again until another program is attached.
pub proof fn requests_are_answered(m: DapModel, seq: i64, command: Seq<char>, args: JsonModel)
    ensures
        ({
            let (after, told, event) = answered(m, seq, command, args);
            &&& told matches MessageModel::Response { request_seq, command: c, .. }
                && request_seq == seq && c == command
            &&& event is Some ==> command == "initialize"@ && m.info is Some
                && !m.initialized_emitted && after.initialized_emitted
            &&& m.initialized_emitted ==> after.initialized_emitted
            &&& m.client_initialized ==> after.client_initialized
        }),
{
}

/// The client is told that the adapter is ready exactly where it has asked,
/// a program is attached and it was not told before; it is told once. Where it
/// is not told, nothing changes.
pub proof fn readiness_is_told_once(m: DapModel)
    ensures
        ({
            let (after, event) = readied(m);
            let (later, again) = readied(after);
            &&& event is Some <==> m.client_initialized && m.info is Some
                && !m.initialized_emitted
            &&& event matches Some(e) ==> {
                &&& e == (MessageModel::Event {
                    seq: m.next_seq(),
                    event: "initialized"@,
                    body: None,
                })
                &&& after == (DapModel { seq: m.next_seq(), initialized_emitted: true, ..m })
            }
            &&& event is None ==> after == m
            &&& again is None
            &&& later == after
        }),
{
}

/// The numbers of the messages that are sent grow by one from message to
/// message.
pub proof fn messages_are_numbered(m: DapModel, seq: i64, command: Seq<char>, args: JsonModel)
    requires
        m.seq < i64::MAX - 1,
    ensures
        ({
            let (after, told, event) = answered(m, seq, command, args);
            &&& told->Response_seq == m.seq + 1
            &&& event matches Some(e) ==> e->Event_seq == m.seq + 2
            &&& after.seq == m.seq + if event is Some {
                2int
            } else {
                1
            }
        }),
{
}

/// Whether a command tells the program to go on.
pub open spec fn is_resuming(command: Seq<char>) -> bool {
    command == "continue"@ || command == "next"@ || command == "stepIn"@ || command
        == "stepOut"@ || command == "configurationDone"@
}

proof fn resuming_names()
    ensures
        "continue"@ != "initialize"@,
        "next"@ != "initialize"@,
        "stepIn"@ != "initialize"@,
        "stepOut"@ != "initialize"@,
        "configurationDone"@ != "initialize"@,
        forall|c: Seq<char>| #[trigger]
            is_resuming(c) ==> {
                &&& c != "initialize"@
                &&& c != "setExceptionBreakpoints"@
                &&& c != "setFunctionBreakpoints"@
                &&& c != "threads"@
                &&& c != "setBreakpoints"@
                &&& c != "stackTrace"@
                &&& c != "scopes"@
                &&& c != "variables"@
            },
{
    reveal_strlit("continue");
    reveal_strlit("next");
    reveal_strlit("stepIn");
    reveal_strlit("stepOut");
    reveal_strlit("configurationDone");
    reveal_strlit("initialize");
    reveal_strlit("setExceptionBreakpoints");
    reveal_strlit("setFunctionBreakpoints");
    reveal_strlit("threads");
    reveal_strlit("setBreakpoints");
    reveal_strlit("stackTrace");
    reveal_strlit("scopes");
    reveal_strlit("variables");
    assert("continue"@[0] == 'c');
    assert("next"@[0] == 'n');
    assert("stepIn"@[4] == 'I');
    assert("stepOut"@[4] == 'O');
    assert("configurationDone"@[0] == 'c');
    assert("initialize"@[0] == 'i');
    assert("setExceptionBreakpoints"@[0] == 's');
    assert("setExceptionBreakpoints"@[1] == 'e');
    assert("setFunctionBreakpoints"@[1] == 'e');
    assert("setBreakpoints"@[1] == 'e');
    assert("setFunctionBreakpoints"@[0] == 's');
    assert("setBreakpoints"@[0] == 's');
    assert("threads"@[0] == 't');
    assert("stackTrace"@[2] == 'a');
    assert("stackTrace"@[0] == 's');
    assert("stepIn"@[2] == 'e');
    assert("stepOut"@[2] == 'e');
    assert("stepIn"@[1] == 't');
    assert("stepOut"@[1] == 't');
    assert("scopes"@[1] == 'c');
    assert("scopes"@[0] == 's');
    assert("variables"@[0] == 'v');
}

/// Once the program is told to go on, every handle that was given before it
/// stands for nothing.
pub proof fn resuming_gives_up_handles(m: DapModel, seq: i64, command: Seq<char>, args: JsonModel, handle:
    int)
    requires
        is_resuming(command),
    ensures
        answered(m, seq, command, args).0.handles.list(handle) is None,
{
    resuming_names();
}

/// The mode word that a request to go on leaves for the program: 0 for `continue` and
/// `configurationDone`, 1 for `stepIn`, 2 for `next` and 3 for `stepOut`.
pub open spec fn asked_mode(command: Seq<char>) -> int {
    if command == "stepIn"@ {
        1
    } else if command == "next"@ {
        2
    } else if command == "stepOut"@ {
        3
    } else {
        0
    }
}

/// A request to go on clears the stack pointer word, by which the program sees that it
/// may run, and leaves the mode that was asked for. The breakpoints that are set stay
/// set, and nothing else of the program changes.
pub proof fn requests_to_go_on_set_the_mode(
    m: DapModel,
    seq: i64,
    command: Seq<char>,
    args: JsonModel,
)
    requires
        is_resuming(command),
        m.info matches Some(info) && info.breakpoints.len() >= 8,
    ensures
        ({
            let before = m.info->0;
            let after = answered(m, seq, command, args).0.info->0;
            let buffer = after.breakpoints;
            &&& answered(m, seq, command, args).0.info is Some
            &&& answered(m, seq, command, args).1 matches MessageModel::Response {
                success,
                message: None,
                ..
            } && success
            &&& buffer.len() == before.breakpoints.len()
            &&& word_is(buffer, 0, 0)
            &&& word_is(buffer, 4, asked_mode(command))
            &&& forall|i: int|
                8 <= i < buffer.len() ==> #[trigger] buffer[i] == before.breakpoints[i]
            &&& after == (InfoModel { breakpoints: buffer, ..before })
        }),
{
    resuming_names();
    resuming_names_differ();
    let before = m.info->0.breakpoints;
    let mode = asked_mode(command);
    assert(le_bytes(0, 4) =~= seq![0u8, 0u8, 0u8, 0u8]) by {
        reveal_with_fuel(le_bytes, 5);
    }
    assert(le_bytes(mode as nat, 4) =~= seq![mode as u8, 0u8, 0u8, 0u8]) by {
        reveal_with_fuel(le_bytes, 5);
    }
}

proof fn resuming_names_differ()
    ensures
        "continue"@ != "next"@,
        "continue"@ != "stepIn"@,
        "continue"@ != "stepOut"@,
        "continue"@ != "configurationDone"@,
        "next"@ != "stepIn"@,
        "next"@ != "stepOut"@,
        "next"@ != "configurationDone"@,
        "stepIn"@ != "stepOut"@,
        "stepIn"@ != "configurationDone"@,
        "stepOut"@ != "configurationDone"@,
{
    reveal_strlit("continue");
    reveal_strlit("next");
    reveal_strlit("stepIn");
    reveal_strlit("stepOut");
    reveal_strlit("configurationDone");
    assert("continue"@.len() == 8);
    assert("next"@.len() == 4);
    assert("stepIn"@.len() == 6);
    assert("stepOut"@.len() == 7);
    assert("configurationDone"@.len() == 17);
}

/// What the program does after a request to go on, as long as nothing else is asked
/// of it: after `next` it does not pause in a frame deeper than that of its last
/// pause, after `stepOut` only in one that called that frame, after `stepIn` wherever
/// it comes first, and after `continue` and `configurationDone` at the breakpoints
/// that are set.
pub proof fn steps_stop_where_they_should(
    m: DapModel,
    seq: i64,
    command: Seq<char>,
    args: JsonModel,
    last_sp: i32,
    index: int,
    sp: i32,
)
    requires
        is_resuming(command),
        m.info matches Some(info) && info.breakpoints.len() >= 8 + info.locations.len() && 0
            <= index < info.locations.len(),
    ensures
        ({
            let before = m.info->0;
            let program = DebuggeeModel {
                info: answered(m, seq, command, args).0.info->0,
                last_sp,
            };
            let stops = pauses(program, index, sp);
            &&& command == "next"@ ==> stops == (sp >= last_sp)
            &&& command == "stepOut"@ ==> stops == (sp > last_sp)
            &&& command == "stepIn"@ ==> stops
            &&& command == "continue"@ || command == "configurationDone"@ ==> stops
                == (before.breakpoints[8 + index] != 0)
        }),
{
    requests_to_go_on_set_the_mode(m, seq, command, args);
    resuming_names_differ();
    let program = DebuggeeModel { info: answered(m, seq, command, args).0.info->0, last_sp };
    programs_pause_by_the_mode(program, index, sp, asked_mode(command));
}

// ---------------------------------------------------------------------------
// The adapter
// ---------------------------------------------------------------------------

/// What the worker tells the adapter.
#[derive(Debug)]
pub enum WorkerEvent {
    /// The program is ready to be debugged.
    Debug(DebugInfo),
    /// The program has paused.
    Paused(PauseReason),
    /// The program has ended.
    Stop,
    Other,
}

/// What the client is told of what the worker tells the adapter, and the adapter after
/// it.
pub open spec fn worker_told(m: DapModel, event: WorkerEvent) -> (DapModel, Option<MessageModel>) {
    match event {
        WorkerEvent::Debug(info) => readied(DapModel { info: Some(info@), ..m }),
        WorkerEvent::Paused(reason) => (
            m.sent(),
            Some(
                MessageModel::Event {
                    seq: m.next_seq(),
                    event: "stopped"@,
                    body: Some(stopped_body(reason)),
                },
            ),
        ),
        WorkerEvent::Stop => (
            m.sent(),
            Some(
                MessageModel::Event {
                    seq: m.next_seq(),
                    event: "terminated"@,
                    body: Some(JsonModel::Object(seq![("restart"@, JsonModel::Bool(false))])),
                },
            ),
        ),
        WorkerEvent::Other => (m, None),
    }
}

/// The state of the adapter.
#[derive(Debug)]
pub struct DapState {
    seq_counter: i64,
    debugger: Option<Debugger>,
    /// `initialize` request was handled and the client received the capabilities response.
    client_initialized: bool,
    /// We emitted `initialized` for this debug session (once per worker / run).
    initialized_emitted: bool,
    vars: VariablesMap,
}

/// A response, and the event that follows it.
#[derive(Debug)]
pub struct Reply {
    pub response: ProtocolMessage,
    pub event: Option<ProtocolMessage>,
}

/// The value of an optional message.
pub open spec fn event_of(m: Option<ProtocolMessage>) -> Option<MessageModel> {
    match m {
        Some(m) => Some(m@),
        None => None,
    }
}

/// The value of what is answered.
pub open spec fn answer_of(r: Result<Json, String>) -> Result<JsonModel, Seq<char>> {
    match r {
        Ok(j) => Ok(j@),
        Err(e) => Err(e@),
    }
}

impl View for DapState {
    type V = DapModel;

    closed spec fn view(&self) -> DapModel {
        DapModel {
            seq: self.seq_counter,
            info: match self.debugger {
                Some(d) => Some(d.info@),
                None => None,
            },
            client_initialized: self.client_initialized,
            initialized_emitted: self.initialized_emitted,
            handles: self.vars@,
        }
    }
}

/// No list of breakpoints.
fn no_breakpoints() -> (r: Json)
    ensures
        r@ == breakpoints_body(seq![]),
{
    let none: Vec<Json> = Vec::new();
    assert(list_model(none@) =~= seq![]);
    let r = Members::new().with("breakpoints", list(none)).object();
    assert(r@->Object_0 =~= breakpoints_body(seq![])->Object_0);
    r
}

fn empty_object() -> (r: Json)
    ensures
        r@ == empty_body(),
{
    let r = Members::new().object();
    assert(r@->Object_0 =~= empty_body()->Object_0);
    r
}

impl DapState {
    /// Whether the parts of the state belong together.
    pub closed spec fn wf(&self) -> bool {
        &&& self.vars.wf()
        &&& self.debugger matches Some(d) ==> d.wf()
    }

    /// An adapter without a program.
    pub fn new() -> (r: Self)
        ensures
            r.wf(),
            r@ == (DapModel {
                seq: 0,
                info: None,
                client_initialized: false,
                initialized_emitted: false,
                handles: HandlesModel { base: 0, lists: seq![] },
            }),
    {
        DapState {
            seq_counter: 0,
            debugger: None,
            client_initialized: false,
            initialized_emitted: false,
            vars: VariablesMap::new(),
        }
    }

    /// Takes what the program shares with its debugger as it stands now.
    pub fn load(&mut self, breakpoints: Vec<u8>, memory: Vec<u8>, stack: Vec<u8>)
        requires
            old(self).wf(),
        ensures
            final(self).wf(),
            final(self)@ == match old(self)@.info {
                Some(info) => DapModel {
                    info: Some(
                        InfoModel { breakpoints: breakpoints@, memory: memory@, stack: stack@, ..info },
                    ),
                    ..old(self)@
                },
                None => old(self)@,
            },
    {
        match self.debugger.take() {
            Some(d) => {
                let mut d = d;
                d.info.breakpoints = breakpoints;
                d.info.memory.bytes = memory;
                d.info.stack.bytes = stack;
                self.debugger = Some(d);
            },
            None => {},
        }
    }

    /// The breakpoint buffer of the program, where there is one.
    pub fn breakpoints(&self) -> (r: Option<&Vec<u8>>)
        ensures
            match r {
                Some(buffer) => self@.info is Some && self@.info->Some_0.breakpoints == buffer@,
                None => self@.info is None,
            },
    {
        match &self.debugger {
            Some(d) => Some(&d.info.breakpoints),
            None => None,
        }
    }

    fn next_seq(&mut self) -> (r: i64)
        ensures
            r == old(self)@.next_seq(),
            final(self)@ == old(self)@.sent(),
            final(self).vars == old(self).vars,
            final(self).debugger == old(self).debugger,
    {
        self.seq_counter = self.seq_counter.wrapping_add(1);
        self.seq_counter
    }

    fn handle_initialize(&self) -> (r: Json)
        ensures
            r@ == capabilities(),
    {
        let r = Members::new().with("supportsConfigurationDoneRequest", Json::Bool(true)).with(
            "supportsStepBack",
            Json::Bool(false),
        ).with("supportsFunctionBreakpoints", Json::Bool(false)).object();
        assert(r@->Object_0 =~= capabilities()->Object_0);
        r
    }

    fn handle_threads(&self) -> (r: Json)
        ensures
            r@ == threads_body(),
    {
        let main = Members::new().with("id", Json::Int(1)).with("name", text("main")).object();
        let mut threads: Vec<Json> = Vec::new();
        push_item(&mut threads, main);
        let r = Members::new().with("threads", list(threads)).object();
        assert(main@->Object_0 =~= seq![
            ("id"@, JsonModel::Int(1)),
            ("name"@, JsonModel::Text("main"@)),
        ]);
        assert(list_model(threads@) =~= seq![main@]);
        assert(r@->Object_0 =~= threads_body()->Object_0);
        r
    }

    /// Tells the program to go on, and gives up all handles.
    fn resume(&mut self, mode: BreakpointMode)
        requires
            old(self).wf(),
        ensures
            final(self).wf(),
            final(self)@ == old(self)@.resumed(mode),
    {
        self.vars.clear();
        if let Some(dbg) = &mut self.debugger {
            match mode {
                BreakpointMode::Normal => dbg.continue_(),
                BreakpointMode::StepInto => dbg.step_into(),
                BreakpointMode::StepOver => dbg.step_over(),
                BreakpointMode::StepOut => dbg.step_out(),
            }
        }
    }

    fn handle_set_breakpoints(&mut self, args: &Json) -> (r: Result<Json, String>)
        requires
            old(self).wf(),
        ensures
            final(self).wf(),
            (final(self)@, answer_of(r)) == match old(self)@.info {
                Some(info) => {
                    let (info, told) = breakpoints_set(
                        info,
                        requested_source(args@),
                        requested_lines(args@),
                    );
                    (
                        DapModel { info: Some(info), ..old(self)@ },
                        Ok::<JsonModel, Seq<char>>(breakpoints_body(told)),
                    )
                },
                None => (old(self)@, Err(not_attached())),
            },
    {
        let source = source_path(args);
        let lines = breakpoint_lines(args);
        let mut told: Vec<Json> = Vec::new();
        match &mut self.debugger {
            Some(dbg) => {
                let ghost all = lines@;
                let ghost start = dbg.info@;
                let ghost types = dbg.types;
                let mut i: usize = 0;
                assert(all.take(0) =~= seq![]);
                assert(list_model(told@) =~= seq![]);
                while i < lines.len()
                    invariant
                        all == lines@,
                        i <= all.len(),
                        dbg.types == types,
                        dbg.wf(),
                        dbg.info@.units == start.units,
                        breakpoints_set(start, source@, all.take(i as int)) == (
                            dbg.info@,
                            list_model(told@),
                        ),
                    decreases all.len() - i,
                {
                    assert(all.take(i + 1).drop_last() =~= all.take(i as int));
                    assert(all.take(i + 1).last() == all[i as int]);
                    let location = dbg.set_breakpoint(source.as_str(), lines[i]);
                    let item = match location {
                        Some(l) => Members::new().with("verified", Json::Bool(true)).with(
                            "line",
                            Json::Int(l.line as i128),
                        ).object(),
                        None => Members::new().with("verified", Json::Bool(false)).object(),
                    };
                    assert(item@->Object_0 =~= breakpoint_body(location)->Object_0);
                    push_item(&mut told, item);
                    i = i + 1;
                }
                assert(all.take(all.len() as int) =~= all);
            },
            None => {
                return Err(own("No debugger attached"));
            },
        }
        let r = Members::new().with("breakpoints", list(told)).object();
        assert(r@->Object_0 =~= breakpoints_body(list_model(told@))->Object_0);
        Ok(r)
    }

    fn handle_stack_trace(&self) -> (r: Result<Json, String>)
        ensures
            answer_of(r) == match self@.info {
                Some(info) => match frames_from(info, stack_pointer(info), seq![]) {
                    Ok(frames) => Ok(stack_body(frames)),
                    Err(_) => Err("Failed to get backtrace"@),
                },
                None => Err(not_attached()),
            },
    {
        let dbg = match &self.debugger {
            Some(dbg) => dbg,
            None => {
                return Err(own("No debugger attached"));
            },
        };
        let frames = match dbg.backtrace() {
            Ok(frames) => frames,
            Err(_) => {
                return Err(own("Failed to get backtrace"));
            },
        };
        let ghost all = frames_of(frames@);
        let ghost bodies = all.map_values(|f: FrameModel| frame_body(f));
        let mut told: Vec<Json> = Vec::new();
        let mut i: usize = 0;
        assert(list_model(told@) =~= bodies.take(0));
        while i < frames.len()
            invariant
                all == frames_of(frames@),
                bodies == all.map_values(|f: FrameModel| frame_body(f)),
                i <= all.len(),
                list_model(told@) == bodies.take(i as int),
            decreases all.len() - i,
        {
            let f = &frames[i];
            assert(all[i as int] == f@);
            let source = match &f.source {
                Some(p) => {
                    let s = Members::new().with("path", text(p.as_str())).object();
                    assert(s@->Object_0 =~= seq![("path"@, JsonModel::Text(p@))]);
                    s
                },
                None => Json::Null,
            };
            let item = Members::new().with("id", Json::Int(f.id as i128)).with(
                "name",
                text(f.name.as_str()),
            ).with("line", Json::Int(f.line as i128)).with(
                "column",
                Json::Int(f.column as i128),
            ).with("source", source).object();
            assert(item@->Object_0 =~= frame_body(f@)->Object_0);
            push_item(&mut told, item);
            i = i + 1;
            assert(bodies.take(i as int) =~= bodies.take(i - 1).push(bodies[i - 1]));
        }
        assert(bodies.take(all.len() as int) =~= bodies);
        let r = Members::new().with("stackFrames", list(told)).with(
            "totalFrames",
            Json::Int(frames.len() as i128),
        ).object();
        assert(r@->Object_0 =~= stack_body(all)->Object_0);
        Ok(r)
    }

    /// Gives a handle on a scope, where there is anything in it.
    fn hold_scope(&mut self, told: &mut Vec<Json>, name: &str, vars: Vec<Variable>)
        requires
            old(self).wf(),
        ensures
            final(self).wf(),
            final(self)@ == (DapModel { handles: final(self)@.handles, ..old(self)@ }),
            final(self).debugger == old(self).debugger,
            (final(self)@.handles, list_model(final(told)@)) == scope_held(
                old(self)@.handles,
                list_model(old(told)@),
                name@,
                held_of(vars@),
            ),
    {
        if vars.len() == 0 {
            return ;
        }
        let handle: i64 = self.vars.allocate(vars);
        let item = Members::new().with("name", text(name)).with(
            "variablesReference",
            Json::Int(handle as i128),
        ).with("expensive", Json::Bool(false)).object();
        assert(item@->Object_0 =~= scope_body(name@, handle as int)->Object_0);
        push_item(told, item);
    }

    fn handle_scopes(&mut self, args: &Json) -> (r: Result<Json, String>)
        requires
            old(self).wf(),
        ensures
            final(self).wf(),
            (final(self)@, answer_of(r)) == match old(self)@.info {
                Some(info) => match scopes_at(info, requested_int(args@, "frameId"@) as u32) {
                    Ok(s) => {
                        let (handles, told) = scopes_held(
                            old(self)@.handles,
                            s,
                            graph_of(info.units),
                        );
                        (
                            DapModel { handles, ..old(self)@ },
                            Ok::<JsonModel, Seq<char>>(
                                JsonModel::Object(seq![("scopes"@, JsonModel::List(told))]),
                            ),
                        )
                    },
                    Err(e) => (old(self)@, Err(message_of(e))),
                },
                None => (old(self)@, Err(not_attached())),
            },
    {
        let frame_id: u32 = int_member(args, "frameId") as u32;
        let found = match &self.debugger {
            Some(dbg) => match dbg.get_variables(frame_id) {
                Ok(found) => {
                    proof {
                        let g = (*dbg.types)@;
                        assert(held_of(found.arguments@) =~= held_in(
                            vars_of(found.arguments@),
                            g,
                        ));
                        assert(held_of(found.locals@) =~= held_in(vars_of(found.locals@), g));
                    }
                    found
                },
                Err(e) => {
                    return Err(e.message());
                },
            },
            None => {
                return Err(own("No debugger attached"));
            },
        };
        let mut told: Vec<Json> = Vec::new();
        assert(list_model(told@) =~= seq![]);
        self.hold_scope(&mut told, "Arguments", found.arguments);
        self.hold_scope(&mut told, "Locals", found.locals);
        let r = Members::new().with("scopes", list(told)).object();
        assert(r@->Object_0 =~= seq![("scopes"@, JsonModel::List(list_model(told@)))]);
        Ok(r)
    }

    fn handle_variables(&mut self, args: &Json) -> (r: Result<Json, String>)
        requires
            old(self).wf(),
        ensures
            final(self).wf(),
            (final(self)@, answer_of(r)) == match old(self)@.handles.list(
                requested_int(args@, "variablesReference"@) as int,
            ) {
                None => (
                    old(self)@,
                    Err::<JsonModel, Seq<char>>("Unknown variablesReference"@),
                ),
                Some(all) => match old(self)@.info {
                    Some(info) => {
                        let (handles, told) = variables_told(
                            old(self)@.handles,
                            all,
                            info.memory,
                        );
                        (
                            DapModel { handles, ..old(self)@ },
                            Ok(
                                JsonModel::Object(
                                    seq![("variables"@, JsonModel::List(told))],
                                ),
                            ),
                        )
                    },
                    None => (old(self)@, Err(not_attached())),
                },
            },
    {
        let reference: i64 = int_member(args, "variablesReference");
        let entries = match self.vars.get(reference) {
            Some(entries) => entries,
            None => {
                return Err(own("Unknown variablesReference"));
            },
        };
        let dbg = match &self.debugger {
            Some(dbg) => dbg,
            None => {
                return Err(own("No debugger attached"));
            },
        };
        let ghost all = held_of(entries@);
        let ghost memory = dbg.info@.memory;
        // What is told of each variable is worked out before handles on the
        // children are given, which changes the lists that are read here.
        let mut drafts: Vec<VariableDraft> = Vec::new();
        let mut i: usize = 0;
        while i < entries.len()
            invariant
                all == held_of(entries@),
                i <= entries@.len(),
                memory == dbg.info@.memory,
                drafts@.len() == i,
                forall|k: int| 0 <= k < i ==> (#[trigger] drafts@[k]).is_of(all[k], memory),
            decreases entries@.len() - i,
        {
            assert(all[i as int] == (HeldModel {
                var: entries@[i as int]@,
                graph: entries@[i as int].ty.model(),
            }));
            let draft = VariableDraft::new(dbg, &entries[i]);
            drafts.push(draft);
            i = i + 1;
        }
        let mut told: Vec<Json> = Vec::new();
        let mut left = drafts;
        let ghost drafted = left@;
        let ghost start = self.vars@;
        let mut k: usize = 0;
        assert(list_model(told@) =~= seq![]);
        assert(all.take(0) =~= seq![]);
        let count: usize = left.len();
        while k < count
            invariant
                k <= count == all.len(),
                left@.len() == count - k,
                drafted.len() == count,
                forall|j: int| 0 <= j < left@.len() ==> left@[j] == drafted[k + j],
                forall|j: int|
                    0 <= j < drafted.len() ==> (#[trigger] drafted[j]).is_of(all[j], memory),
                self.wf(),
                self.debugger == old(self).debugger,
                self@ == (DapModel { handles: self.vars@, ..old(self)@ }),
                variables_told(start, all.take(k as int), memory) == (
                    self.vars@,
                    list_model(told@),
                ),
            decreases count - k,
        {
            assert(all.take(k + 1).drop_last() =~= all.take(k as int));
            assert(all.take(k + 1).last() == all[k as int]);
            let draft = left.remove(0);
            assert(draft == drafted[k as int]);
            let ghost h = all[k as int];
            let ghost kids = draft.children@;
            let handle: i64 = if draft.children.len() == 0 {
                0
            } else {
                self.vars.allocate(draft.children)
            };
            let item = told_variable(draft.shown, handle);
            assert(item@ == variable_body(h, memory, handle as int));
            push_item(&mut told, item);
            k = k + 1;
        }
        assert(all.take(all.len() as int) =~= all);
        let r = Members::new().with("variables", list(told)).object();
        assert(r@->Object_0 =~= seq![("variables"@, JsonModel::List(list_model(told@)))]);
        Ok(r)
    }

    /// What is answered to a command.
    fn handle(&mut self, command: &str, args: &Json) -> (r: Result<Json, String>)
        requires
            old(self).wf(),
        ensures
            final(self).wf(),
            (final(self)@, answer_of(r)) == handled(old(self)@, command@, args@),
    {
        if same(command, "initialize") {
            self.client_initialized = true;
            Ok(self.handle_initialize())
        } else if same(command, "configurationDone") {
            if self.debugger.is_none() {
                self.vars.clear();
                return Err(own("configurationDone: debugger not ready"));
            }
            self.resume(BreakpointMode::Normal);
            Ok(Json::Null)
        } else if same(command, "setExceptionBreakpoints") || same(
            command,
            "setFunctionBreakpoints",
        ) {
            Ok(no_breakpoints())
        } else if same(command, "threads") {
            Ok(self.handle_threads())
        } else if same(command, "setBreakpoints") {
            self.handle_set_breakpoints(args)
        } else if same(command, "stackTrace") {
            self.handle_stack_trace()
        } else if same(command, "scopes") {
            self.handle_scopes(args)
        } else if same(command, "variables") {
            self.handle_variables(args)
        } else if same(command, "continue") {
            self.resume(BreakpointMode::Normal);
            let r = Members::new().with("allThreadsContinued", Json::Bool(true)).object();
            assert(r@->Object_0 =~= seq![("allThreadsContinued"@, JsonModel::Bool(true))]);
            Ok(r)
        } else if same(command, "next") {
            self.resume(BreakpointMode::StepOver);
            Ok(empty_object())
        } else if same(command, "stepIn") {
            self.resume(BreakpointMode::StepInto);
            Ok(empty_object())
        } else if same(command, "stepOut") {
            self.resume(BreakpointMode::StepOut);
            Ok(empty_object())
        } else if same(command, "disconnect") {
            Ok(Json::Null)
        } else {
            Err(concat("Unknown command: ", command))
        }
    }

    /// DAP: `InitializedEvent` must be sent only after the `initialize` response was delivered,
    /// and once the debug adapter is ready. Here readiness means we have a [`Debugger`] from the
    /// worker's `debug` message.
    pub fn try_emit_initialized(&mut self) -> (r: Option<ProtocolMessage>)
        requires
            old(self).wf(),
        ensures
            final(self).wf(),
            (final(self)@, event_of(r)) == readied(old(self)@),
    {
        if self.client_initialized && self.debugger.is_some() && !self.initialized_emitted {
            self.initialized_emitted = true;
            let seq: i64 = self.next_seq();
            Some(ProtocolMessage::Event { seq, event: own("initialized"), body: None })
        } else {
            None
        }
    }

    /// Attaches a worker to the adapter.
    ///
    /// **Session flags:** we reset `initialized_emitted` so each worker/run can emit `initialized`
    /// again, but we **do not** clear `client_initialized`. Reasons:
    /// - The host may send `initialize` before `run()` attaches the worker; clearing here would
    ///   prevent `initialized` from ever firing on the subsequent `debug` message.
    /// - On **re-run** (same adapter instance, new worker), the client often does **not** send
    ///   `initialize` again.
    pub fn attach(&mut self)
        requires
            old(self).wf(),
        ensures
            final(self).wf(),
            final(self)@ == (DapModel {
                info: None,
                initialized_emitted: false,
                ..old(self)@
            }),
    {
        self.debugger = None;
        self.initialized_emitted = false;
    }

    /// Takes what the worker tells the adapter, and gives the event that the
    /// client is told.
    pub fn worker_event(&mut self, event: WorkerEvent) -> (r: Option<ProtocolMessage>)
        requires
            old(self).wf(),
        ensures
            final(self).wf(),
            (final(self)@, event_of(r)) == match event {
                WorkerEvent::Debug(info) => readied(
                    DapModel { info: Some(info@), ..old(self)@ },
                ),
                WorkerEvent::Paused(reason) => (
                    old(self)@.sent(),
                    Some(
                        MessageModel::Event {
                            seq: old(self)@.next_seq(),
                            event: "stopped"@,
                            body: Some(stopped_body(reason)),
                        },
                    ),
                ),
                WorkerEvent::Stop => (
                    old(self)@.sent(),
                    Some(
                        MessageModel::Event {
                            seq: old(self)@.next_seq(),
                            event: "terminated"@,
                            body: Some(
                                JsonModel::Object(seq![("restart"@, JsonModel::Bool(false))]),
                            ),
                        },
                    ),
                ),
                WorkerEvent::Other => (old(self)@, None),
            },
            (final(self)@, event_of(r)) == worker_told(old(self)@, event),
    {
        match event {
            WorkerEvent::Debug(info) => {
                self.debugger = Some(Debugger::new(info));
                self.try_emit_initialized()
            },
            WorkerEvent::Paused(reason) => {
                let seq: i64 = self.next_seq();
                let why = match reason {
                    PauseReason::Breakpoint => text("breakpoint"),
                    PauseReason::Step => text("step"),
                };
                let body = Members::new().with("reason", why).with(
                    "threadId",
                    Json::Int(1),
                ).with("allThreadsStopped", Json::Bool(true)).object();
                assert(body@->Object_0 =~= stopped_body(reason)->Object_0);
                Some(ProtocolMessage::Event { seq, event: own("stopped"), body: Some(body) })
            },
            WorkerEvent::Stop => {
                let seq: i64 = self.next_seq();
                let body = Members::new().with("restart", Json::Bool(false)).object();
                assert(body@->Object_0 =~= seq![("restart"@, JsonModel::Bool(false))]);
                Some(ProtocolMessage::Event { seq, event: own("terminated"), body: Some(body) })
            },
            WorkerEvent::Other => None,
        }
    }

    /// Takes a DAP request and gives the response, and the event that follows
    /// it. What is not a request is not answered.
    pub fn send_message(&mut self, message: ProtocolMessage) -> (r: Option<Reply>)
        requires
            old(self).wf(),
        ensures
            final(self).wf(),
            match message@ {
                MessageModel::Request { seq, command, arguments } => {
                    let args = match arguments {
                        Some(args) => args,
                        None => JsonModel::Null,
                    };
                    &&& r is Some
                    &&& (final(self)@, r->0.response@, event_of(r->0.event)) == answered(
                        old(self)@,
                        seq,
                        command,
                        args,
                    )
                },
                _ => r is None && final(self)@ == old(self)@,
            },
    {
        match message {
            ProtocolMessage::Request { seq, command, arguments } => {
                let args = match arguments {
                    Some(args) => args,
                    None => Json::Null,
                };
                let rseq: i64 = self.next_seq();
                let result = self.handle(command.as_str(), &args);
                let response = respond(rseq, seq, command.as_str(), result);
                let event = if same(command.as_str(), "initialize") {
                    self.try_emit_initialized()
                } else {
                    None
                };
                Some(Reply { response, event })
            },
            _ => None,
        }
    }
}

/// The response to a request.
fn respond(rseq: i64, seq: i64, command: &str, result: Result<Json, String>) -> (r: ProtocolMessage)
    ensures
        r@ == response(rseq, seq, command@, answer_of(result)),
{
    match result {
        Ok(body) => {
            let null = body.is_null();
            ProtocolMessage::Response {
                seq: rseq,
                request_seq: seq,
                success: true,
                command: own(command),
                message: None,
                body: if null {
                    None
                } else {
                    Some(body)
                },
            }
        },
        Err(e) => ProtocolMessage::Response {
            seq: rseq,
            request_seq: seq,
            success: false,
            command: own(command),
            message: Some(e),
            body: None,
        },
    }
}

/// What is told of a variable, but for the handle on its children.
struct ShownVariable {
    name: String,
    value: Json,
    ty: String,
    address: Option<String>,
    byte_size: Option<u64>,
}

/// A variable that is told of, and its children.
struct VariableDraft {
    shown: ShownVariable,
    children: Vec<Variable>,
}

impl ShownVariable {
    spec fn is_of(&self, h: HeldModel, memory: Seq<u8>) -> bool {
        &&& self.name@ == h.var.name
        &&& self.value@ == value_body(h, memory)
        &&& self.ty@ == type_text(h.graph, h.var.ty)
        &&& match self.address {
            Some(a) => address_of(h.var.pieces) matches Some(x) && a@ == offset_text(x.0),
            None => address_of(h.var.pieces) is None,
        }
        &&& self.byte_size == size_of_decl(resolve(h.graph, h.var.ty, h.graph.size))
    }
}

impl VariableDraft {
    spec fn is_of(&self, h: HeldModel, memory: Seq<u8>) -> bool {
        &&& self.shown.is_of(h, memory)
        &&& held_of(self.children@) == held_in(all_children(h.graph, h.var, memory), h.graph)
    }

    fn new(dbg: &Debugger, var: &Variable) -> (r: Self)
        ensures
            r.is_of(HeldModel { var: var@, graph: var.ty.model() }, dbg.info@.memory),
    {
        let value = match var.display(dbg.memory()) {
            Ok(shown) => rendered(shown),
            Err(_) => text("<unavailable>"),
        };
        let children = dbg.children(var);
        assert(held_of(children@) =~= held_in(vars_of(children@), var.ty.model()));
        VariableDraft {
            shown: ShownVariable {
                name: own(var.name()),
                value,
                ty: var.ty().name(),
                address: match var.address() {
                    Some(a) => Some(a.to_text()),
                    None => None,
                },
                byte_size: var.ty().byte_size(),
            },
            children,
        }
    }
}

/// What is told of a variable.
fn told_variable(v: ShownVariable, handle: i64) -> (r: Json)
    ensures
        forall|h: HeldModel, memory: Seq<u8>|
            v.is_of(h, memory) ==> r@ == #[trigger] variable_body(h, memory, handle as int),
{
    let mut members = Members::new().with("name", Json::Text(v.name)).with("value", v.value).with(
        "type",
        Json::Text(v.ty),
    ).with("variablesReference", Json::Int(handle as i128));
    if let Some(a) = v.address {
        members = members.with("memoryReference", Json::Text(a));
    }
    if let Some(size) = v.byte_size {
        let hint = Members::new().with("byteSize", Json::Int(size as i128)).object();
        assert(hint@->Object_0 =~= seq![("byteSize"@, JsonModel::Int(size as int))]);
        members = members.with("presentationHint", hint);
    }
    let r = members.object();
    proof {
        assert forall|h: HeldModel, memory: Seq<u8>| v.is_of(h, memory) implies r@
            == #[trigger] variable_body(h, memory, handle as int) by {
            assert(r@->Object_0 =~= variable_body(h, memory, handle as int)->Object_0);
        }
    }
    r
}

} // verus!
