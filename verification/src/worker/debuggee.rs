//! Whether a running program pauses at a breakpoint.
use vstd::prelude::*;

use crate::bytes::{byte_range_of_words, le_bytes, le_round_trip, le_value, low_bytes_come_first, put,
    put_bytes, window, write_le, writes_are_read_back};
use crate::debug::debugger::{flagged, resumed, resuming_keeps_the_flags};
use crate::debug::evaluate::frame_pc;
use crate::types::{BP_PREFIX_BYTES, BreakpointMode, CodeOffset, DebugInfo, InfoModel, PauseReason,
    bp_words, mode_code, mode_of};

verus! {

broadcast use vstd::seq_lib::group_seq_properties;

/// What the worker knows of the program that it runs.
pub struct DebuggeeModel {
    pub info: InfoModel,
    /// The stack pointer at the last pause.
    pub last_sp: i32,
}

/// Whether the breakpoint at a location is set.
pub open spec fn is_enabled(buffer: Seq<u8>, index: int) -> bool {
    0 <= index && BP_PREFIX_BYTES + index < buffer.len() && buffer[BP_PREFIX_BYTES + index] != 0
}

/// Whether the program stops at a location in the mode `mode`: at a breakpoint
/// in normal mode, at any location when it steps into calls, in the same or an
/// outer frame when it steps over them, and in an outer frame when it steps
/// out. In an unknown mode it stops at breakpoints.
pub open spec fn stops(m: DebuggeeModel, index: int, sp: i32) -> bool {
    match mode_of(bp_words(m.info.breakpoints).1) {
        Ok(BreakpointMode::Normal) => is_enabled(m.info.breakpoints, index),
        Ok(BreakpointMode::StepInto) => true,
        Ok(BreakpointMode::StepOver) => sp >= m.last_sp,
        Ok(BreakpointMode::StepOut) => sp > m.last_sp,
        Err(_) => is_enabled(m.info.breakpoints, index),
    }
}

/// Why the program stops in a mode.
pub open spec fn reason_for(mode: i32) -> PauseReason {
    match mode_of(mode) {
        Ok(BreakpointMode::Normal) => PauseReason::Breakpoint,
        Ok(_) => PauseReason::Step,
        Err(_) => PauseReason::Breakpoint,
    }
}

/// The breakpoint buffer of a program that is paused at `sp`, in normal mode.
pub open spec fn paused_buffer(buffer: Seq<u8>, sp: i32) -> Seq<u8> {
    put(
        put(buffer, 4, le_bytes(mode_code(BreakpointMode::Normal) as nat, 4)),
        0,
        le_bytes(sp as u32 as nat, 4),
    )
}

/// The program after it has stopped at location `index`: the frame holds where
/// it stopped, and the stack pointer is kept for the steps to come.
pub open spec fn stopped(m: DebuggeeModel, index: int, sp: i32) -> DebuggeeModel {
    DebuggeeModel {
        info: InfoModel {
            stack: put(
                m.info.stack,
                sp as usize as int,
                le_bytes(m.info.locations[index].address.0 as u32 as nat, 4),
            ),
            breakpoints: paused_buffer(m.info.breakpoints, sp),
            ..m.info
        },
        last_sp: sp,
    }
}

/// Whether the program pauses at a location. A number that belongs to no
/// location is passed over.
pub open spec fn pauses(m: DebuggeeModel, index: int, sp: i32) -> bool {
    stops(m, index, sp) && index < m.info.locations.len()
}

/// A program that has paused is in normal mode, and its innermost frame says
/// where it stopped.
pub proof fn pauses_tell_where(m: DebuggeeModel, index: int, sp: i32)
    requires
        0 <= index < m.info.locations.len(),
        0 <= sp,
        sp + 4 <= m.info.stack.len(),
        m.info.breakpoints.len() >= BP_PREFIX_BYTES,
    ensures
        bp_words(stopped(m, index, sp).info.breakpoints) == (sp, 0i32),
        frame_pc(stopped(m, index, sp).info.stack, sp as u32) == CodeOffset(
            m.info.locations[index].address.0 as u32 as u64,
        ),
        stopped(m, index, sp).info.breakpoints.skip(BP_PREFIX_BYTES as int)
            == m.info.breakpoints.skip(BP_PREFIX_BYTES as int),
{
    let buffer = m.info.breakpoints;
    let word = le_bytes(sp as u32 as nat, 4);
    let mode = le_bytes(0, 4);
    let pc = le_bytes(m.info.locations[index].address.0 as u32 as nat, 4);
    byte_range_of_words();
    le_round_trip(sp as u32 as nat, 4);
    le_round_trip(0, 4);
    le_round_trip(m.info.locations[index].address.0 as u32 as nat, 4);
    let once = put(buffer, 4, mode);
    writes_are_read_back(buffer, 4, mode, 0, 4);
    writes_are_read_back(once, 0, word, 4, 4);
    writes_are_read_back(m.info.stack, sp as int, pc, 0, 0);
    assert(paused_buffer(buffer, sp).skip(BP_PREFIX_BYTES as int) =~= buffer.skip(
        BP_PREFIX_BYTES as int,
    ));
}

/// A program that waits to be started: its stack pointer stands at the end of the debug
/// stack.
pub open spec fn waiting_to_start(info: InfoModel) -> DebuggeeModel {
    DebuggeeModel {
        info: InfoModel {
            breakpoints: paused_buffer(info.breakpoints, info.stack.len() as usize as i32),
            ..info
        },
        last_sp: 0,
    }
}

/// The value that the stack-pointer word has to change from before the program goes on.
pub open spec fn waits_at(buffer: Seq<u8>) -> Option<i32> {
    if bp_words(buffer).0 == 0 {
        None
    } else {
        Some(bp_words(buffer).0)
    }
}

/// A program waits before its first operator, with its stack pointer at the end of the
/// debug stack, until that word is cleared. One that has paused waits at its stack
/// pointer, and one that was told to go on does not wait.
pub proof fn programs_wait_to_be_told(info: InfoModel, buffer: Seq<u8>, sp: i32, mode: BreakpointMode)
    requires
        info.breakpoints.len() >= 8,
        0 < info.stack.len() <= i32::MAX,
        buffer.len() >= 8,
        0 < sp,
    ensures
        waits_at(waiting_to_start(info).info.breakpoints) == Some(info.stack.len() as i32),
        waiting_to_start(info).info.stack == info.stack,
        waiting_to_start(info).info.memory == info.memory,
        waiting_to_start(info).info.locations == info.locations,
        waits_at(paused_buffer(buffer, sp)) == Some(sp),
        waits_at(resumed(buffer, mode)) is None,
        forall|i: int|
            8 <= i < info.breakpoints.len() ==> #[trigger] waiting_to_start(
                info,
            ).info.breakpoints[i] == info.breakpoints[i],
{
    pausing_is_read(info.breakpoints, info.stack.len() as i32);
    pausing_is_read(buffer, sp);
    resuming_keeps_the_flags(buffer, mode);
}

proof fn pausing_is_read(buffer: Seq<u8>, sp: i32)
    requires
        buffer.len() >= 8,
        0 <= sp,
    ensures
        bp_words(paused_buffer(buffer, sp)).0 == sp,
        forall|i: int|
            8 <= i < buffer.len() ==> #[trigger] paused_buffer(buffer, sp)[i] == buffer[i],
{
    let word = le_bytes(sp as u32 as nat, 4);
    let mode = le_bytes(0, 4);
    byte_range_of_words();
    le_round_trip(sp as u32 as nat, 4);
    le_round_trip(0, 4);
    let once = put(buffer, 4, mode);
    writes_are_read_back(once, 0, word, 4, 4);
}

/// Whether the four bytes of a buffer from `at` on spell a small number.
pub open spec fn word_is(buffer: Seq<u8>, at: int, value: int) -> bool {
    &&& buffer[at] == value
    &&& buffer[at + 1] == 0
    &&& buffer[at + 2] == 0
    &&& buffer[at + 3] == 0
}

/// A program pauses only at a location that it has, and there by what the mode word
/// of its buffer says. At 0, and at what is no mode, it pauses where the byte of the
/// location is set. At 1 it pauses everywhere. At 2 it pauses in the frame of its last
/// pause and in those that called it, which stand higher on the stack. At 3 it pauses
/// only in those that called it. It is told to have come to a breakpoint, or to have
/// stepped, by the same word. Where it does not pause, it is left as it is.
pub proof fn programs_pause_by_the_mode(m: DebuggeeModel, index: int, sp: i32, mode: int)
    requires
        m.info.breakpoints.len() >= 8,
        0 <= mode < 0x80,
        word_is(m.info.breakpoints, 4, mode),
        0 <= index,
    ensures
        mode == 0 || mode > 3 ==> pauses(m, index, sp) == (index < m.info.locations.len() && 8
            + index < m.info.breakpoints.len() && m.info.breakpoints[8 + index] != 0),
        mode == 1 ==> pauses(m, index, sp) == (index < m.info.locations.len()),
        mode == 2 ==> pauses(m, index, sp) == (index < m.info.locations.len() && sp >= m.last_sp),
        mode == 3 ==> pauses(m, index, sp) == (index < m.info.locations.len() && sp > m.last_sp),
        1 <= mode <= 3 <==> reason_for(bp_words(m.info.breakpoints).1) is Step,
        stopped(m, index, sp).last_sp == sp,
        stopped(m, index, sp).info.memory == m.info.memory,
        stopped(m, index, sp).info.locations == m.info.locations,
        stopped(m, index, sp).info.functions == m.info.functions,
        stopped(m, index, sp).info.units == m.info.units,
{
    let word = window(m.info.breakpoints, 4, 4);
    low_bytes_come_first(word);
    assert(le_value(word) == mode);
    byte_range_of_words();
}

/// A breakpoint that the debugger has set is enabled, and setting it leaves the
/// others as they were.
pub proof fn set_breakpoints_are_enabled(buffer: Seq<u8>, index: int, other: int)
    requires
        0 <= index,
        BP_PREFIX_BYTES + index < buffer.len(),
    ensures
        is_enabled(flagged(buffer, index), index),
        other != index ==> is_enabled(flagged(buffer, index), other) == is_enabled(buffer, other),
        bp_words(flagged(buffer, index)) == bp_words(buffer),
{
    let after = flagged(buffer, index);
    assert(window(after, 0, 4) =~= window(buffer, 0, 4));
    assert(window(after, 4, 4) =~= window(buffer, 4, 4));
}

/// Worker-side debuggee that decides whether execution stops at breakpoints.
#[derive(Debug)]
pub struct Debuggee {
    pub info: DebugInfo,
    pub last_sp: i32,
}

impl View for Debuggee {
    type V = DebuggeeModel;

    open spec fn view(&self) -> DebuggeeModel {
        DebuggeeModel { info: self.info@, last_sp: self.last_sp }
    }
}

impl Debuggee {
    /// A program that waits to be started: its stack pointer stands at the end
    /// of the debug stack.
    pub fn new(info: DebugInfo) -> (r: Self)
        ensures
            r@ == (DebuggeeModel {
                info: InfoModel {
                    breakpoints: paused_buffer(
                        info@.breakpoints,
                        info@.stack.len() as usize as i32,
                    ),
                    ..info@
                },
                last_sp: 0,
            }),
            r@ == waiting_to_start(info@),
    {
        let mut info = info;
        let sp: i32 = info.stack.byte_size() as i32;
        write_pause(&mut info.breakpoints, sp);
        Debuggee { info, last_sp: 0 }
    }

    /// Check if a breakpoint at the given index is enabled
    pub fn bkpt_enabled(&self, index: usize) -> (r: bool)
        ensures
            r == is_enabled(self@.info.breakpoints, index as int),
    {
        let len: usize = self.info.breakpoints.len();
        len > BP_PREFIX_BYTES && index < len - BP_PREFIX_BYTES && self.info.breakpoints[index
            + BP_PREFIX_BYTES] != 0
    }

    /// The value that the stack-pointer field has to change from before the
    /// program goes on; none where it can go on at once.
    pub fn wait_for_resume(&self) -> (r: Option<i32>)
        ensures
            r == if bp_words(self@.info.breakpoints).0 == 0 {
                None
            } else {
                Some(bp_words(self@.info.breakpoints).0)
            },
            r == waits_at(self@.info.breakpoints),
    {
        let (current, _) = self.info.get_bp_state();
        if current == 0 {
            None
        } else {
            Some(current)
        }
    }

    /// Decide whether execution should pause at this instrumented breakpoint.
    /// Gives the reason where it should.
    ///
    /// This is the main entry point called from instrumented WASM code. `sp` is
    /// the debug stack pointer.
    pub fn bkpt(&mut self, index: usize, sp: i32) -> (r: Option<PauseReason>)
        ensures
            r == if pauses(old(self)@, index as int, sp) {
                Some(reason_for(bp_words(old(self)@.info.breakpoints).1))
            } else {
                None
            },
            final(self)@ == if pauses(old(self)@, index as int, sp) {
                stopped(old(self)@, index as int, sp)
            } else {
                old(self)@
            },
    {
        let (_, mode) = self.info.get_bp_state();
        let known: Result<BreakpointMode, ()> = BreakpointMode::try_from(mode);
        let stop = match known {
            Ok(BreakpointMode::Normal) => self.bkpt_enabled(index),
            Ok(BreakpointMode::StepInto) => true,
            Ok(BreakpointMode::StepOver) => sp >= self.last_sp,
            Ok(BreakpointMode::StepOut) => sp > self.last_sp,
            Err(_) => self.bkpt_enabled(index),
        };
        if !stop || index >= self.info.locations.len() {
            return None;
        }
        // On a breakpoint hit we must write the current PC into the most recent frame.
        // This avoids having to add instrumentation code to do this on every line,
        // and instead only do it when a breakpoint is actually hit
        let pc: u32 = self.info.locations[index].address.0 as u32;
        let word = write_le(pc as u64, 4);
        put_bytes(&mut self.info.stack.bytes, sp as usize, &word);
        write_pause(&mut self.info.breakpoints, sp);
        self.last_sp = sp;
        match known {
            Ok(BreakpointMode::Normal) => Some(PauseReason::Breakpoint),
            Ok(_) => Some(PauseReason::Step),
            Err(_) => Some(PauseReason::Breakpoint),
        }
    }
}

/// Writes that the program is paused at `sp`, in normal mode.
fn write_pause(buffer: &mut Vec<u8>, sp: i32)
    ensures
        final(buffer)@ == paused_buffer(old(buffer)@, sp),
{
    let mode = write_le(0, 4);
    put_bytes(buffer, 4, &mode);
    let word = write_le(sp as u32 as u64, 4);
    put_bytes(buffer, 0, &word);
}

} // verus!
