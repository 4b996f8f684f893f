//! What the debugger reads back of what breakpoints save.
use vstd::prelude::*;
use wasmparser::ValType;

use crate::bytes::{byte_range, byte_range_of_words, le_value, le_value_bound, window};
use crate::debug::dwarf::expression::{EvalInput, EvalStep};
use crate::debug::evaluate::{Env, answer, saved_value};
use crate::error::DebugError;
use crate::types::{DebugFrameEntry, WasmLocation, entry_for};
use crate::wasm::reader::kind_of;
use super::encoder::Numbering;
use super::function::{DraftModel, breakpoint_code};
use super::locations::LocationsModel;
use super::machine::{Machine, breakpoint_added, breakpoints_save_what_is_needed, frame_reads,
    needed_fit, reads, run, width};

verus! {

broadcast use vstd::seq_lib::group_seq_properties;

/// Byte `k` of a number in two's complement, the lowest first.
pub open spec fn byte_of(value: int, k: int) -> u8 {
    ((value / byte_range(k as nat) as int) % 256) as u8
}

/// Whether `stack` is the debug stack of a machine whose memory holds `debug`.
pub open spec fn holds_memory(stack: Seq<u8>, debug: Map<int, (int, int)>) -> bool {
    forall|a: int| #[trigger]
        debug.contains_key(a) ==> 0 <= a < stack.len() && stack[a] == byte_of(
            debug[a].0,
            debug[a].1,
        )
}

/// Whether an evaluation in a frame is told `value` where it asks for `step`,
/// up to the bytes that a value of this width has.
pub open spec fn told(
    env: Env,
    step: EvalStep,
    base: Result<u64, DebugError>,
    value: int,
    width: int,
) -> bool {
    match answer(env, step, base) {
        Ok(EvalInput::WasmValue(v)) => v as int % byte_range(width as nat) as int == value
            % byte_range(width as nat) as int,
        _ => false,
    }
}

proof fn byte_range_positive(n: nat)
    ensures
        byte_range(n) > 0,
    decreases n,
{
    if n > 0 {
        byte_range_positive((n - 1) as nat);
    }
}

proof fn divided_twice(x: int, c: int)
    requires
        c > 0,
    ensures
        (x / 256) / c == x / (256 * c),
{
    let q = x / (256 * c);
    let m = x % (256 * c);
    vstd::arithmetic::div_mod::lemma_fundamental_div_mod(x, 256 * c);
    vstd::arithmetic::div_mod::lemma_mod_bound(x, 256 * c);
    let t = q * c;
    assert(x == 256 * t + m) by (nonlinear_arith)
        requires
            x == (256 * c) * q + m,
            t == q * c,
    ;
    assert(x / 256 == t + m / 256);
    vstd::arithmetic::div_mod::lemma_fundamental_div_mod_converse(x / 256, c, q, m / 256);
}

/// Bytes of a number spell it, up to as many bytes as they are.
proof fn bytes_spell(bytes: Seq<u8>, value: int, n: nat)
    requires
        n <= bytes.len(),
        forall|k: int| 0 <= k < n ==> #[trigger] bytes[k] == byte_of(value, k),
    ensures
        le_value(bytes) as int % byte_range(n) as int == value % byte_range(n) as int,
    decreases n,
{
    if n > 0 {
        let m = (n - 1) as nat;
        let rest = bytes.skip(1);
        byte_range_positive(m);
        assert forall|k: int| 0 <= k < m implies #[trigger] rest[k] == byte_of(value / 256, k) by {
            assert(rest[k] == bytes[k + 1]);
            byte_range_positive(k as nat);
            divided_twice(value, byte_range(k as nat) as int);
            assert(byte_range((k + 1) as nat) == 256 * byte_range(k as nat));
        }
        bytes_spell(rest, value / 256, m);
        assert(bytes[0] == byte_of(value, 0));
        assert(byte_range(0) == 1);
        assert(value / 1 == value);
        assert(bytes[0] == value % 256);
        let low = value % 256;
        let r = byte_range(m) as int;
        let x = le_value(rest) as int;
        let y = value / 256;
        assert(value == 256 * y + low);
        assert(le_value(bytes) == low + 256 * x);
        assert((256 * x + low) % (256 * r) == 256 * (x % r) + low) by {
            joined_remainder(x, low, r);
        }
        assert((256 * y + low) % (256 * r) == 256 * (y % r) + low) by {
            joined_remainder(y, low, r);
        }
    } else {
        assert(byte_range(0) == 1);
    }
}

proof fn joined_remainder(x: int, low: int, r: int)
    requires
        0 <= low < 256,
        r > 0,
    ensures
        (256 * x + low) % (256 * r) == 256 * (x % r) + low,
{
    let q = x / r;
    let m = x % r;
    vstd::arithmetic::div_mod::lemma_fundamental_div_mod(x, r);
    assert(256 * x + low == (256 * r) * q + (256 * m + low)) by (nonlinear_arith)
        requires
            x == r * q + m,
    ;
    vstd::arithmetic::div_mod::lemma_mod_bound(x, r);
    assert(0 <= 256 * m + low < 256 * r) by (nonlinear_arith)
        requires
            0 <= m < r,
            0 <= low < 256,
    ;
    assert(256 * x + low == q * (256 * r) + (256 * m + low)) by (nonlinear_arith)
        requires
            256 * x + low == (256 * r) * q + (256 * m + low),
    ;
    vstd::arithmetic::div_mod::lemma_fundamental_div_mod_converse(
        256 * x + low,
        256 * r,
        q,
        256 * m + low,
    );
}

proof fn entry_kept_along(layout: Seq<DebugFrameEntry>, longer: Seq<DebugFrameEntry>, l: WasmLocation)
    requires
        layout.is_prefix_of(longer),
        entry_for(layout, l) is Some,
    ensures
        entry_for(longer, l) == entry_for(layout, l),
    decreases layout.len(),
{
    assert(longer[0] == layout[0]);
    if layout[0].location != l {
        assert(layout.skip(1) =~= longer.skip(1).take(layout.len() - 1));
        entry_kept_along(layout.skip(1), longer.skip(1), l);
    }
}

/// What a frame holds for a location is what is read back of it.
proof fn held_is_read_back(env: Env, m: Machine, l: WasmLocation, value: int, width: int)
    requires
        holds_memory(env.stack, m.debug),
        env.stack.len() <= usize::MAX,
        0 <= width <= 8,
        entry_for(env.layout, l) is Some,
        reads(m.debug, env.frame + entry_for(env.layout, l)->0.offset, value, width),
    ensures
        saved_value(env, l) is Some,
        saved_value(env, l)->0 as int % byte_range(width as nat) as int == value % byte_range(
            width as nat,
        ) as int,
{
    let at = env.frame + entry_for(env.layout, l)->0.offset;
    byte_range_of_words();
    if width == 0 {
        assert(byte_range(0) == 1);
    } else {
        assert(m.debug.contains_key(at));
        let bytes = window(env.stack, at, 8);
        assert forall|k: int| 0 <= k < width implies #[trigger] bytes[k] == byte_of(value, k) by {
            assert(m.debug.contains_key(at + k));
            assert(m.debug[at + k] == (value, k));
        }
        bytes_spell(bytes, value, width as nat);
        le_value_bound(bytes);
    }
}

/// What a breakpoint saves is what an evaluation is told: after its code, every
/// operand, local and global that is needed is read back from the function's
/// frame with the value that it has in the program, up to the bytes that its
/// type has. The frame may have got further entries since. Vectors do not fit
/// the entries of a frame, and are left out.
pub proof fn saved_values_are_read_back(
    n: Numbering,
    locals: Seq<ValType>,
    globals: Seq<ValType>,
    types: Seq<Option<ValType>>,
    needed: LocationsModel,
    index: usize,
    d: DraftModel,
    start: Machine,
    env: Env,
    base: Result<u64, DebugError>,
)
    requires
        breakpoint_code(n, locals, globals, types, needed, index, d) is Ok,
        needed.wf(),
        types.len() == start.stack.len(),
        types.len() <= usize::MAX,
        locals.len() <= u32::MAX,
        start.locals.len() >= locals.len() + breakpoint_code(
            n,
            locals,
            globals,
            types,
            needed,
            index,
            d,
        )->Ok_0.scratch.len(),
        d.func.frame_wf(),
        needed_fit(locals, globals, types, needed),
        breakpoint_code(
            n,
            locals,
            globals,
            types,
            needed,
            index,
            d,
        )->Ok_0.func.layout.is_prefix_of(env.layout),
        env.frame == start.globals[n.sp()],
        env.stack.len() <= usize::MAX,
        holds_memory(
            env.stack,
            run(n, start, breakpoint_added(n, locals, globals, types, needed, index, d))->0.debug,
        ),
    ensures
        forall|k: u32| #[trigger]
            needed.operands.contains(k as usize) ==> told(
                env,
                EvalStep::WasmStack(k),
                base,
                start.stack[k as int],
                width(kind_of(types[k as int]->0)),
            ),
        forall|i: u32| #[trigger]
            needed.locals.contains(i as usize) ==> told(
                env,
                EvalStep::WasmLocal(i),
                base,
                start.locals[i as int],
                width(kind_of(locals[i as int])),
            ),
        forall|i: u32| #[trigger]
            needed.globals.contains(i as usize) ==> told(
                env,
                EvalStep::WasmGlobal(i),
                base,
                start.globals[n.renumbered_global(i)],
                width(kind_of(globals[i as int])),
            ),
{
    let func = breakpoint_code(n, locals, globals, types, needed, index, d)->Ok_0.func;
    let sp = start.globals[n.sp()];
    let end = run(n, start, breakpoint_added(n, locals, globals, types, needed, index, d))->0;
    breakpoints_save_what_is_needed(n, locals, globals, types, needed, index, d, start);
    assert forall|k: u32| #[trigger] needed.operands.contains(k as usize) implies told(
        env,
        EvalStep::WasmStack(k),
        base,
        start.stack[k as int],
        width(kind_of(types[k as int]->0)),
    ) by {
        let l = WasmLocation::Operand(k as usize);
        let w = width(kind_of(types[k as int]->0));
        assert(frame_reads(end, func, sp, l, start.stack[k as int], w));
        entry_kept_along(func.layout, env.layout, l);
        held_is_read_back(env, end, l, start.stack[k as int], w);
    }
    assert forall|i: u32| #[trigger] needed.locals.contains(i as usize) implies told(
        env,
        EvalStep::WasmLocal(i),
        base,
        start.locals[i as int],
        width(kind_of(locals[i as int])),
    ) by {
        let l = WasmLocation::Local(i as usize);
        let w = width(kind_of(locals[i as int]));
        assert(frame_reads(end, func, sp, l, start.locals[i as int], w));
        entry_kept_along(func.layout, env.layout, l);
        held_is_read_back(env, end, l, start.locals[i as int], w);
    }
    assert forall|i: u32| #[trigger] needed.globals.contains(i as usize) implies told(
        env,
        EvalStep::WasmGlobal(i),
        base,
        start.globals[n.renumbered_global(i)],
        width(kind_of(globals[i as int])),
    ) by {
        let l = WasmLocation::Global(i as usize);
        let w = width(kind_of(globals[i as int]));
        assert(frame_reads(end, func, sp, l, start.globals[n.renumbered_global(i)], w));
        entry_kept_along(func.layout, env.layout, l);
        held_is_read_back(env, end, l, start.globals[n.renumbered_global(i)], w);
    }
}

} // verus!
