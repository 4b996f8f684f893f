//! What the inserted instructions do.
//!
//! A machine that runs nothing but inserted instructions, and the proof that
//! they leave the program as it was and save what the debugger needs.
use vstd::prelude::*;
use wasmparser::ValType;

use crate::types::{DebugFrameEntry, FRAME_ENTRY_BYTES, FRAME_TAG_BYTES, FunctionModel, WasmLocation,
    entry_for, entry_for_found, frames_stay_well_laid_out};
use crate::wasm::reader::{ValueKind, kind_of};
use super::encoder::Numbering;
use super::function::{DraftModel, Instr, breakpoint_code, footer, free_scratch,
    free_scratch_bounds, globals_saved, header, locals_saved, operands_saved, rerolled, sized,
    store, unrolled, value_saved};
use super::locations::{LocationsModel, increasing};

verus! {

broadcast use vstd::seq_lib::group_seq_properties;

/// How many numbers a 32-bit word can hold.
pub open spec fn words() -> int {
    0x1_0000_0000
}

/// The state that inserted instructions work on.
#[verifier::ext_equal]
pub struct Machine {
    /// The operand stack.
    pub stack: Seq<int>,
    pub locals: Seq<int>,
    pub globals: Map<u32, int>,
    /// The memory of the debug stack: which byte of which value an address
    /// holds.
    pub debug: Map<int, (int, int)>,
    /// The calls of the breakpoint function.
    pub hits: Seq<int>,
}

/// How many bytes a stored value takes.
pub open spec fn width(kind: ValueKind) -> int {
    match kind {
        ValueKind::I32 => 4,
        ValueKind::I64 => 8,
        ValueKind::F32 => 4,
        ValueKind::F64 => 8,
        ValueKind::V128 => 16,
        ValueKind::Ref => 0,
    }
}

/// Memory with a value written at an address.
pub open spec fn written(debug: Map<int, (int, int)>, at: int, value: int, width: int) -> Map<
    int,
    (int, int),
> {
    Map::new(
        |a: int| debug.contains_key(a) || at <= a < at + width,
        |a: int|
            if at <= a < at + width {
                (value, a - at)
            } else {
                debug[a]
            },
    )
}

/// Whether a value can be read at an address.
pub open spec fn reads(debug: Map<int, (int, int)>, at: int, value: int, width: int) -> bool {
    forall|a: int|
        at <= a < at + width ==> #[trigger] debug.contains_key(a) && debug[a] == (value, a - at)
}

/// Whether two memories hold the same at an address.
pub open spec fn same_at(x: Map<int, (int, int)>, y: Map<int, (int, int)>, a: int) -> bool {
    x.contains_key(a) == y.contains_key(a) && (x.contains_key(a) ==> x[a] == y[a])
}

/// One inserted instruction. The program's own are not run.
pub open spec fn step(n: Numbering, m: Machine, i: Instr) -> Option<Machine> {
    let top = m.stack.len() as int;
    match i {
        Instr::LocalGet(x) => if x < m.locals.len() {
            Some(Machine { stack: m.stack.push(m.locals[x as int]), ..m })
        } else {
            None
        },
        Instr::LocalSet(x) => if x < m.locals.len() && top > 0 {
            Some(
                Machine {
                    stack: m.stack.drop_last(),
                    locals: m.locals.update(x as int, m.stack.last()),
                    ..m
                },
            )
        } else {
            None
        },
        Instr::GlobalGet(x) => Some(Machine { stack: m.stack.push(m.globals[x]), ..m }),
        Instr::GlobalSet(x) => if top > 0 {
            Some(
                Machine {
                    stack: m.stack.drop_last(),
                    globals: m.globals.insert(x, m.stack.last()),
                    ..m
                },
            )
        } else {
            None
        },
        Instr::I32Const(c) => Some(Machine { stack: m.stack.push(c as int), ..m }),
        Instr::I32Add => if top > 1 {
            let sum = (m.stack[top - 2] + m.stack[top - 1]) % words();
            Some(Machine { stack: m.stack.take(top - 2).push(sum), ..m })
        } else {
            None
        },
        Instr::I32Sub => if top > 1 {
            let difference = (m.stack[top - 2] - m.stack[top - 1]) % words();
            Some(Machine { stack: m.stack.take(top - 2).push(difference), ..m })
        } else {
            None
        },
        Instr::Store { kind, offset, memory } => if top > 1 && memory == 1 {
            Some(
                Machine {
                    stack: m.stack.take(top - 2),
                    debug: written(
                        m.debug,
                        m.stack[top - 2] + offset,
                        m.stack[top - 1],
                        width(kind),
                    ),
                    ..m
                },
            )
        } else {
            None
        },
        Instr::Call(f) => if f == n.bkpt() && top > 0 {
            Some(Machine { stack: m.stack.drop_last(), hits: m.hits.push(m.stack.last()), ..m })
        } else {
            None
        },
        _ => None,
    }
}

/// Inserted instructions one after the other.
pub open spec fn run(n: Numbering, m: Machine, code: Seq<Instr>) -> Option<Machine>
    decreases code.len(),
{
    if code.len() == 0 {
        Some(m)
    } else {
        match run(n, m, code.drop_last()) {
            Some(m) => step(n, m, code.last()),
            None => None,
        }
    }
}

pub(super) proof fn run_joins(n: Numbering, m: Machine, a: Seq<Instr>, b: Seq<Instr>)
    ensures
        run(n, m, a + b) == match run(n, m, a) {
            Some(mid) => run(n, mid, b),
            None => None,
        },
    decreases b.len(),
{
    if b.len() == 0 {
        assert(a + b =~= a);
    } else {
        run_joins(n, m, a, b.drop_last());
        assert((a + b).drop_last() =~= a + b.drop_last());
        assert((a + b).last() == b.last());
    }
}

pub(super) proof fn run_one(n: Numbering, m: Machine, i: Instr)
    ensures
        run(n, m, seq![i]) == step(n, m, i),
{
    reveal_with_fuel(run, 2);
    assert(seq![i].drop_last() =~= seq![]);
}

// ---------------------------------------------------------------------------
// Saving one value
// ---------------------------------------------------------------------------

/// Whether a frame at `sp` holds the values `saved`, and memory outside the
/// frame is as it was in `base`. A value is given with its width.
pub open spec fn frame_holds(
    m: Machine,
    func: FunctionModel,
    sp: int,
    base: Map<int, (int, int)>,
    saved: Map<WasmLocation, (int, int)>,
) -> bool {
    &&& func.frame_wf()
    &&& forall|l: WasmLocation| #[trigger]
        saved.contains_key(l) ==> {
            &&& entry_for(func.layout, l) is Some
            &&& saved[l].1 <= FRAME_ENTRY_BYTES
            &&& reads(m.debug, sp + entry_for(func.layout, l)->0.offset, saved[l].0, saved[l].1)
        }
    &&& forall|a: int|
        !(sp + FRAME_TAG_BYTES <= a < sp + func.size) ==> #[trigger] same_at(m.debug, base, a)
}

/// Whether an instruction puts `value` on the stack.
pub open spec fn loads(m: Machine, load: Instr, value: int) -> bool {
    match load {
        Instr::LocalGet(x) => x < m.locals.len() && value == m.locals[x as int],
        Instr::GlobalGet(x) => value == m.globals[x],
        _ => false,
    }
}

proof fn entry_kept(layout: Seq<DebugFrameEntry>, l: WasmLocation, e: DebugFrameEntry)
    requires
        entry_for(layout, l) is Some,
    ensures
        entry_for(layout.push(e), l) == entry_for(layout, l),
    decreases layout.len(),
{
    if layout.len() > 0 {
        assert(layout.push(e).skip(1) =~= layout.skip(1).push(e));
        assert(layout.push(e)[0] == layout[0]);
        if layout[0].location != l {
            entry_kept(layout.skip(1), l, e);
        }
    }
}

/// The code that saves a value: it leaves all but the frame as it was.
proof fn save_runs(
    n: Numbering,
    d: DraftModel,
    location: WasmLocation,
    load: Instr,
    ty: ValType,
    m: Machine,
    value: int,
    narrow: bool,
    base: Map<int, (int, int)>,
    saved: Map<WasmLocation, (int, int)>,
) -> (r: Machine)
    requires
        value_saved(d, n, location, load, ty) is Ok,
        loads(m, load, value),
        narrow ==> frame_holds(m, d.func, m.globals[n.sp()], base, saved),
        narrow ==> width(kind_of(ty)) <= FRAME_ENTRY_BYTES,
    ensures
        ({
            let d2 = value_saved(d, n, location, load, ty)->Ok_0;
            let added = seq![
                Instr::GlobalGet(n.sp()),
                load,
                store(kind_of(ty), d.func.offset_for(location)),
            ];
            &&& d2.code == d.code + added
            &&& run(n, m, added) == Some(r)
            &&& r == (Machine { debug: r.debug, ..m })
            &&& narrow ==> frame_holds(
                r,
                d2.func,
                m.globals[n.sp()],
                base,
                saved.insert(location, (value, width(kind_of(ty)))),
            )
        }),
{
    let sp = m.globals[n.sp()];
    let kind = kind_of(ty);
    let offset = d.func.offset_for(location);
    let a = Instr::GlobalGet(n.sp());
    let c = store(kind, offset);
    let m1 = Machine { stack: m.stack.push(sp), ..m };
    let m2 = Machine { stack: m1.stack.push(value), ..m };
    let m3 = Machine { debug: written(m.debug, sp + offset, value, width(kind)), ..m };
    run_one(n, m, a);
    run_one(n, m1, load);
    run_one(n, m2, c);
    assert(m2.stack.take(m.stack.len() as int) =~= m.stack);
    assert(step(n, m2, c) == Some(m3));
    run_joins(n, m, seq![a], seq![load]);
    run_joins(n, m, seq![a] + seq![load], seq![c]);
    assert(seq![a, load, c] =~= (seq![a] + seq![load]) + seq![c]);
    let func2 = d.func.with_entry(location);
    if narrow {
        frames_stay_well_laid_out(d.func, location);
        entry_for_found(d.func.layout, location);
        entry_for_found(func2.layout, location);
        let all = saved.insert(location, (value, width(kind)));
        let e = DebugFrameEntry { offset: d.func.size, location };
        assert(func2.offset_for(location) == offset);
        assert forall|l: WasmLocation| #[trigger] all.contains_key(l) implies {
            &&& entry_for(func2.layout, l) is Some
            &&& all[l].1 <= FRAME_ENTRY_BYTES
            &&& reads(m3.debug, sp + entry_for(func2.layout, l)->0.offset, all[l].0, all[l].1)
        } by {
            if l == location {
                if entry_for(func2.layout, l) is None {
                    // The entry was just made.
                    assert(func2.layout[func2.layout.len() - 1].location == location);
                }
            } else {
                assert(saved.contains_key(l));
                if entry_for(d.func.layout, location) is None {
                    entry_kept(d.func.layout, l, e);
                }
                entry_for_found(func2.layout, l);
                let x = entry_for(func2.layout, l)->0;
                let i = choose|i: int| 0 <= i < func2.layout.len() && #[trigger] func2.layout[i] == x;
                let y = entry_for(func2.layout, location)->0;
                if entry_for(func2.layout, location) is None {
                    assert(func2.layout[func2.layout.len() - 1].location == location);
                }
                let j = choose|j: int| 0 <= j < func2.layout.len() && #[trigger] func2.layout[j] == y;
                assert(i != j);
                assert(func2.layout[i].offset == FRAME_TAG_BYTES + FRAME_ENTRY_BYTES * i);
                assert(func2.layout[j].offset == FRAME_TAG_BYTES + FRAME_ENTRY_BYTES * j);
                assert(y.offset == offset);
                assert forall|b: int|
                    sp + x.offset <= b < sp + x.offset + all[l].1 implies #[trigger] m3.debug.contains_key(
                b) && m3.debug[b] == (all[l].0, b - (sp + x.offset)) by {
                    assert(m.debug.contains_key(b));
                }
            }
        }
        assert forall|b: int|
            !(sp + FRAME_TAG_BYTES <= b < sp + func2.size) implies #[trigger] same_at(
            m3.debug,
            base,
            b,
        ) by {
            assert(same_at(m.debug, base, b));
            if entry_for(func2.layout, location) is None {
                assert(func2.layout[func2.layout.len() - 1].location == location);
            }
            let y = entry_for(func2.layout, location)->0;
            let j = choose|j: int| 0 <= j < func2.layout.len() && #[trigger] func2.layout[j] == y;
            assert(func2.layout[j].offset == FRAME_TAG_BYTES + FRAME_ENTRY_BYTES * j);
            assert(y.offset == offset);
        }
    }
    m3
}


// ---------------------------------------------------------------------------
// Saving operands
// ---------------------------------------------------------------------------

/// The draft after the operand of the type `ty` was taken into a scratch local.
spec fn popped(d: DraftModel, nlocals: u32, taken: Seq<usize>, ty: ValType) -> DraftModel {
    let s = free_scratch(d.scratch, taken, ty, 0);
    DraftModel {
        code: d.code.push(Instr::LocalSet((s + nlocals) as u32)),
        scratch: if s < d.scratch.len() {
            d.scratch
        } else {
            d.scratch.push(ty)
        },
        ..d
    }
}

/// The draft after operand `k` was taken, and saved where it is wanted.
spec fn popped_and_saved(
    n: Numbering,
    d: DraftModel,
    nlocals: u32,
    taken: Seq<usize>,
    wanted: Seq<usize>,
    k: int,
    ty: ValType,
) -> Result<DraftModel, crate::error::DebugError> {
    let s = free_scratch(d.scratch, taken, ty, 0);
    let p = popped(d, nlocals, taken, ty);
    if wanted.contains(k as usize) {
        value_saved(
            p,
            n,
            WasmLocation::Operand(k as usize),
            Instr::LocalGet((s + nlocals) as u32),
            ty,
        )
    } else {
        Ok(p)
    }
}

proof fn unrolled_steps(
    n: Numbering,
    nlocals: u32,
    types: Seq<Option<ValType>>,
    wanted: Seq<usize>,
    first: int,
    idx: int,
    d: DraftModel,
    taken: Seq<usize>,
)
    requires
        idx > first,
        unrolled(n, nlocals, types, wanted, first, idx, d, taken) is Ok,
    ensures
        types[idx - 1] is Some,
        ({
            let ty = types[idx - 1]->0;
            let s = free_scratch(d.scratch, taken, ty, 0);
            &&& 0 <= s <= d.scratch.len()
            &&& s + nlocals <= u32::MAX
            &&& popped_and_saved(n, d, nlocals, taken, wanted, idx - 1, ty) is Ok
            &&& unrolled(n, nlocals, types, wanted, first, idx, d, taken) == unrolled(
                n,
                nlocals,
                types,
                wanted,
                first,
                idx - 1,
                popped_and_saved(n, d, nlocals, taken, wanted, idx - 1, ty)->Ok_0,
                taken.push(s as usize),
            )
        }),
{
    let ty = types[idx - 1]->0;
    free_scratch_bounds(d.scratch, taken, ty, 0);
}

proof fn scratch_grows(
    n: Numbering,
    nlocals: u32,
    types: Seq<Option<ValType>>,
    wanted: Seq<usize>,
    first: int,
    idx: int,
    d: DraftModel,
    taken: Seq<usize>,
)
    requires
        unrolled(n, nlocals, types, wanted, first, idx, d, taken) is Ok,
    ensures
        unrolled(n, nlocals, types, wanted, first, idx, d, taken)->Ok_0.0.scratch.len()
            >= d.scratch.len(),
    decreases idx - first,
{
    if idx > first {
        unrolled_steps(n, nlocals, types, wanted, first, idx, d, taken);
        let ty = types[idx - 1]->0;
        let s = free_scratch(d.scratch, taken, ty, 0);
        scratch_grows(
            n,
            nlocals,
            types,
            wanted,
            first,
            idx - 1,
            popped_and_saved(n, d, nlocals, taken, wanted, idx - 1, ty)->Ok_0,
            taken.push(s as usize),
        );
    }
}

/// Whether none of the wanted operands from `first` on is wider than an entry
/// of a frame.
pub open spec fn operands_fit(types: Seq<Option<ValType>>, wanted: Seq<usize>) -> bool {
    forall|k: int|
        0 <= k < types.len() && wanted.contains(k as usize) && (#[trigger] types[k]) is Some
            ==> width(kind_of(types[k]->0)) <= FRAME_ENTRY_BYTES
}

/// Whether `idx` of the operands of `start` are left on the stack and the
/// others are in the scratch locals `taken`, and all else is as it was.
spec fn unrolled_to(
    start: Machine,
    m: Machine,
    nlocals: u32,
    scratch: int,
    idx: int,
    taken: Seq<usize>,
) -> bool {
    let height = start.stack.len() as int;
    &&& 0 <= idx <= height
    &&& taken.len() == height - idx
    &&& m.stack == start.stack.take(idx)
    &&& m.locals.len() == start.locals.len()
    &&& nlocals <= start.locals.len()
    &&& forall|i: int| 0 <= i < nlocals ==> m.locals[i] == start.locals[i]
    &&& forall|j: int| 0 <= j < taken.len() ==> (#[trigger] taken[j]) < scratch
    &&& forall|i: int, j: int|
        0 <= i < j < taken.len() ==> (#[trigger] taken[i]) != (#[trigger] taken[j])
    &&& forall|j: int|
        0 <= j < taken.len() ==> m.locals[nlocals + (#[trigger] taken[j])] == start.stack[height - 1
            - j]
    &&& m.globals == start.globals
    &&& m.hits == start.hits
}

/// What taking one operand off the stack does.
proof fn pop_runs(
    n: Numbering,
    nlocals: u32,
    idx: int,
    d: DraftModel,
    taken: Seq<usize>,
    ty: ValType,
    start: Machine,
    m: Machine,
) -> (r: Machine)
    requires
        unrolled_to(start, m, nlocals, d.scratch.len() as int, idx, taken),
        idx > 0,
        free_scratch(d.scratch, taken, ty, 0) + nlocals <= u32::MAX,
        start.locals.len() >= nlocals + popped(d, nlocals, taken, ty).scratch.len(),
    ensures
        ({
            let s = free_scratch(d.scratch, taken, ty, 0);
            let local = (s + nlocals) as u32;
            &&& 0 <= s
            &&& run(n, m, seq![Instr::LocalSet(local)]) == Some(r)
            &&& local < r.locals.len()
            &&& r.locals[local as int] == start.stack[idx - 1]
            &&& r.debug == m.debug
            &&& r.globals == m.globals
            &&& unrolled_to(
                start,
                r,
                nlocals,
                popped(d, nlocals, taken, ty).scratch.len() as int,
                idx - 1,
                taken.push(s as usize),
            )
        }),
{
    let k = idx - 1;
    let s = free_scratch(d.scratch, taken, ty, 0);
    free_scratch_bounds(d.scratch, taken, ty, 0);
    let local = (s + nlocals) as u32;
    let p = popped(d, nlocals, taken, ty);
    let taken1 = taken.push(s as usize);
    let value = start.stack[k];
    let m1 = Machine {
        stack: start.stack.take(k),
        locals: m.locals.update(local as int, value),
        ..m
    };
    assert(m.stack.last() == value);
    assert(m.stack.drop_last() =~= start.stack.take(k));
    run_one(n, m, Instr::LocalSet(local));
    assert(step(n, m, Instr::LocalSet(local)) == Some(m1));
    assert forall|j: int| 0 <= j < taken1.len() implies m1.locals[nlocals + (
    #[trigger] taken1[j])] == start.stack[start.stack.len() - 1 - j] by {
        if j < taken.len() {
            assert(taken1[j] == taken[j]);
            assert(taken.contains(taken[j]));
            assert(taken[j] != s);
        }
    }
    assert forall|i: int, j: int| 0 <= i < j < taken1.len() implies (#[trigger] taken1[i]) != (
    #[trigger] taken1[j]) by {
        assert(taken.contains(taken[i]));
    }
    m1
}

/// What taking operands off the stack does.
#[verifier::rlimit(60)]
#[verifier::spinoff_prover]
proof fn unroll_runs(
    n: Numbering,
    nlocals: u32,
    types: Seq<Option<ValType>>,
    wanted: Seq<usize>,
    first: int,
    idx: int,
    d: DraftModel,
    taken: Seq<usize>,
    start: Machine,
    m: Machine,
    narrow: bool,
    base: Map<int, (int, int)>,
    saved: Map<WasmLocation, (int, int)>,
) -> (r: (Seq<Instr>, Machine, Map<WasmLocation, (int, int)>))
    requires
        unrolled(n, nlocals, types, wanted, first, idx, d, taken) is Ok,
        0 <= first <= idx <= types.len(),
        types.len() == start.stack.len(),
        types.len() <= usize::MAX,
        unrolled_to(start, m, nlocals, d.scratch.len() as int, idx, taken),
        forall|j: int| 0 <= j < taken.len() ==> (#[trigger] taken[j]) + nlocals <= u32::MAX,
        start.locals.len() >= nlocals + unrolled(
            n,
            nlocals,
            types,
            wanted,
            first,
            idx,
            d,
            taken,
        )->Ok_0.0.scratch.len(),
        narrow ==> frame_holds(m, d.func, m.globals[n.sp()], base, saved),
        narrow ==> operands_fit(types, wanted),
    ensures
        ({
            let (d2, taken2) = unrolled(n, nlocals, types, wanted, first, idx, d, taken)->Ok_0;
            &&& d2.code == d.code + r.0
            &&& run(n, m, r.0) == Some(r.1)
            &&& unrolled_to(start, r.1, nlocals, d2.scratch.len() as int, first, taken2)
            &&& forall|j: int| 0 <= j < taken2.len() ==> (#[trigger] taken2[j]) + nlocals <= u32::MAX
            &&& narrow ==> frame_holds(r.1, d2.func, m.globals[n.sp()], base, r.2)
            &&& forall|k: int|
                idx <= k < types.len() && #[trigger] saved.contains_key(
                    WasmLocation::Operand(k as usize),
                ) ==> r.2.contains_key(WasmLocation::Operand(k as usize)) && r.2[
                    WasmLocation::Operand(k as usize)
                ] == saved[WasmLocation::Operand(k as usize)]
            &&& forall|k: int|
                first <= k < idx && #[trigger] wanted.contains(k as usize) ==> r.2.contains_key(
                    WasmLocation::Operand(k as usize),
                ) && r.2[WasmLocation::Operand(k as usize)] == (
                    start.stack[k],
                    width(kind_of(types[k]->0)),
                )
        }),
    decreases idx - first,
{
    if idx <= first {
        assert(d.code + seq![] =~= d.code);
        (seq![], m, saved)
    } else {
        unrolled_steps(n, nlocals, types, wanted, first, idx, d, taken);
        let k = idx - 1;
        let ty = types[k]->0;
        let s = free_scratch(d.scratch, taken, ty, 0);
        free_scratch_bounds(d.scratch, taken, ty, 0);
        let local = (s + nlocals) as u32;
        let p = popped(d, nlocals, taken, ty);
        let d1 = popped_and_saved(n, d, nlocals, taken, wanted, k, ty)->Ok_0;
        let taken1 = taken.push(s as usize);
        scratch_grows(n, nlocals, types, wanted, first, idx - 1, d1, taken1);
        let value = start.stack[k];
        let m1 = pop_runs(n, nlocals, idx, d, taken, ty, start, m);
        assert(narrow ==> frame_holds(m1, p.func, m.globals[n.sp()], base, saved));
        let (m2, added, saved1) = if wanted.contains(k as usize) {
            let m2 = save_runs(
                n,
                p,
                WasmLocation::Operand(k as usize),
                Instr::LocalGet(local),
                ty,
                m1,
                value,
                narrow,
                base,
                saved,
            );
            let code = seq![
                Instr::GlobalGet(n.sp()),
                Instr::LocalGet(local),
                store(kind_of(ty), p.func.offset_for(WasmLocation::Operand(k as usize))),
            ];
            (
                m2,
                code,
                saved.insert(
                    WasmLocation::Operand(k as usize),
                    (value, width(kind_of(ty))),
                ),
            )
        } else {
            (m1, seq![], saved)
        };
        assert(run(n, m1, added) == Some(m2));
        run_joins(n, m, seq![Instr::LocalSet(local)], added);
        let begun = seq![Instr::LocalSet(local)] + added;
        assert(d1.code =~= d.code + begun);
        let (code, m3, saved3) = unroll_runs(
            n,
            nlocals,
            types,
            wanted,
            first,
            k,
            d1,
            taken1,
            start,
            m2,
            narrow,
            base,
            saved1,
        );
        run_joins(n, m, begun, code);
        let d3 = unrolled(n, nlocals, types, wanted, first, k, d1, taken1)->Ok_0.0;
        assert(d3.code =~= d.code + (begun + code));
        assert forall|q: int| idx <= q < types.len() && #[trigger] saved.contains_key(
            WasmLocation::Operand(q as usize),
        ) implies saved3.contains_key(WasmLocation::Operand(q as usize)) && saved3[
            WasmLocation::Operand(q as usize)
        ] == saved[WasmLocation::Operand(q as usize)] by {
            assert(saved1.contains_key(WasmLocation::Operand(q as usize)));
        }
        assert forall|q: int| first <= q < idx && #[trigger] wanted.contains(
            q as usize,
        ) implies saved3.contains_key(WasmLocation::Operand(q as usize)) && saved3[
            WasmLocation::Operand(q as usize)
        ] == (start.stack[q], width(kind_of(types[q]->0))) by {
            if q == k {
                assert(saved1.contains_key(WasmLocation::Operand(q as usize)));
            }
        }
        (begun + code, m3, saved3)
    }
}

/// What putting operands back does.
proof fn reroll_runs(
    n: Numbering,
    nlocals: u32,
    taken: Seq<usize>,
    start: Machine,
    m: Machine,
    scratch: int,
    first: int,
    count: int,
)
    requires
        unrolled_to(start, m, nlocals, scratch, first, taken),
        start.locals.len() >= nlocals + scratch,
        forall|j: int| 0 <= j < taken.len() ==> (#[trigger] taken[j]) + nlocals <= u32::MAX,
        0 <= count <= taken.len(),
    ensures
        run(n, m, rerolled(nlocals, taken).take(count)) == Some(
            Machine { stack: start.stack.take(first + count), ..m },
        ),
    decreases count,
{
    let code = rerolled(nlocals, taken);
    if count == 0 {
        assert(code.take(0) =~= seq![]);
    } else {
        reroll_runs(n, nlocals, taken, start, m, scratch, first, count - 1);
        assert(code.take(count).drop_last() =~= code.take(count - 1));
        assert(code.take(count).last() == code[count - 1]);
        let j = taken.len() - count;
        assert(taken[j] < scratch);
        assert(m.locals[nlocals + taken[j]] == start.stack[first + count - 1]);
        assert(start.stack.take(first + count) =~= start.stack.take(first + count - 1).push(
            start.stack[first + count - 1],
        ));
    }
}

/// Whether `m` is `start` but for the scratch locals and the debug stack.
pub open spec fn only_scratch_differs(start: Machine, m: Machine, nlocals: int) -> bool {
    &&& m.stack == start.stack
    &&& m.locals.len() == start.locals.len()
    &&& forall|i: int| 0 <= i < nlocals ==> m.locals[i] == start.locals[i]
    &&& m.globals == start.globals
    &&& m.hits == start.hits
}

proof fn operands_run(
    n: Numbering,
    nlocals: u32,
    types: Seq<Option<ValType>>,
    wanted: Seq<usize>,
    d: DraftModel,
    start: Machine,
    narrow: bool,
    base: Map<int, (int, int)>,
) -> (r: (Seq<Instr>, Machine, Map<WasmLocation, (int, int)>))
    requires
        operands_saved(n, nlocals, types, wanted, d) is Ok,
        types.len() == start.stack.len(),
        types.len() <= usize::MAX,
        increasing(wanted),
        start.locals.len() >= nlocals + operands_saved(
            n,
            nlocals,
            types,
            wanted,
            d,
        )->Ok_0.scratch.len(),
        narrow ==> frame_holds(start, d.func, start.globals[n.sp()], base, Map::empty()),
        narrow ==> operands_fit(types, wanted),
    ensures
        ({
            let d2 = operands_saved(n, nlocals, types, wanted, d)->Ok_0;
            &&& d2.code == d.code + r.0
            &&& run(n, start, r.0) == Some(r.1)
            &&& only_scratch_differs(start, r.1, nlocals as int)
            &&& d2.scratch.len() >= d.scratch.len()
            &&& narrow ==> frame_holds(r.1, d2.func, start.globals[n.sp()], base, r.2)
            &&& forall|k: usize| #[trigger]
                wanted.contains(k) ==> r.2.contains_key(WasmLocation::Operand(k)) && r.2[
                    WasmLocation::Operand(k)
                ] == (start.stack[k as int], width(kind_of(types[k as int]->0)))
        }),
{
    let saved = Map::<WasmLocation, (int, int)>::empty();
    if wanted.len() == 0 {
        assert(d.code + seq![] =~= d.code);
        (seq![], start, saved)
    } else {
        let first = wanted[0] as int;
        let height = types.len() as int;
        scratch_grows(n, nlocals, types, wanted, first, height, d, seq![]);
        assert(start.stack.take(height) =~= start.stack);
        let (code, m, saved2) = unroll_runs(
            n,
            nlocals,
            types,
            wanted,
            first,
            height,
            d,
            seq![],
            start,
            start,
            narrow,
            base,
            saved,
        );
        let (d1, taken) = unrolled(n, nlocals, types, wanted, first, height, d, seq![])->Ok_0;
        reroll_runs(
            n,
            nlocals,
            taken,
            start,
            m,
            d1.scratch.len() as int,
            first,
            taken.len() as int,
        );
        let back = rerolled(nlocals, taken);
        assert(back.take(taken.len() as int) =~= back);
        let m2 = Machine { stack: start.stack, ..m };
        run_joins(n, start, code, back);
        assert(d1.code + back =~= d.code + (code + back));
        assert(narrow ==> frame_holds(m2, d1.func, start.globals[n.sp()], base, saved2));
        assert forall|k: usize| #[trigger] wanted.contains(k) implies saved2.contains_key(
            WasmLocation::Operand(k),
        ) && saved2[WasmLocation::Operand(k)] == (
            start.stack[k as int],
            width(kind_of(types[k as int]->0)),
        ) by {
            let i = choose|i: int| 0 <= i < wanted.len() && wanted[i] == k;
            if i > 0 {
                assert(wanted[0] < wanted[i]);
            }
            if i < wanted.len() - 1 {
                assert(wanted[i] < wanted[wanted.len() - 1]);
            }
            assert(k < height);
            assert(wanted.contains((k as int) as usize));
        }
        (code + back, m2, saved2)
    }
}


// ---------------------------------------------------------------------------
// Saving locals and globals
// ---------------------------------------------------------------------------

/// Whether none of the wanted values is wider than an entry of a frame.
pub open spec fn values_fit(types: Seq<ValType>, wanted: Seq<usize>) -> bool {
    forall|i: int|
        0 <= i < types.len() && wanted.contains(i as usize) ==> width(
            kind_of(#[trigger] types[i]),
        ) <= FRAME_ENTRY_BYTES
}

proof fn locals_run(
    n: Numbering,
    types: Seq<ValType>,
    wanted: Seq<usize>,
    d: DraftModel,
    m: Machine,
    narrow: bool,
    base: Map<int, (int, int)>,
    saved: Map<WasmLocation, (int, int)>,
) -> (r: (Seq<Instr>, Machine, Map<WasmLocation, (int, int)>))
    requires
        locals_saved(n, types, wanted, d) is Ok,
        types.len() <= m.locals.len(),
        types.len() <= u32::MAX,
        increasing(wanted),
        narrow ==> frame_holds(m, d.func, m.globals[n.sp()], base, saved),
        narrow ==> values_fit(types, wanted),
    ensures
        ({
            let d2 = locals_saved(n, types, wanted, d)->Ok_0;
            &&& d2.code == d.code + r.0
            &&& d2.scratch == d.scratch
            &&& run(n, m, r.0) == Some(r.1)
            &&& r.1 == (Machine { debug: r.1.debug, ..m })
            &&& narrow ==> frame_holds(r.1, d2.func, m.globals[n.sp()], base, r.2)
            &&& forall|l: WasmLocation|
                !(l is Local) && #[trigger] saved.contains_key(l) ==> r.2.contains_key(l)
                    && r.2[l] == saved[l]
            &&& forall|i: usize| #[trigger]
                wanted.contains(i) ==> r.2.contains_key(WasmLocation::Local(i)) && r.2[
                    WasmLocation::Local(i)
                ] == (m.locals[i as int], width(kind_of(types[i as int])))
        }),
    decreases wanted.len(),
{
    if wanted.len() == 0 {
        assert(d.code + seq![] =~= d.code);
        (seq![], m, saved)
    } else {
        let before = wanted.drop_last();
        let i = wanted.last();
        assert(wanted[wanted.len() - 1] == i);
        assert(narrow ==> values_fit(types, before)) by {
            assert forall|k: usize| before.contains(k) implies wanted.contains(k) by {
                let j = choose|j: int| 0 <= j < before.len() && before[j] == k;
                assert(wanted[j] == k);
            }
        }
        let (code, m1, saved1) = locals_run(n, types, before, d, m, narrow, base, saved);
        let d1 = locals_saved(n, types, before, d)->Ok_0;
        let ty = types[i as int];
        let load = Instr::LocalGet(i as u32);
        assert(wanted.contains((i as int) as usize));
        let m2 = save_runs(
            n,
            d1,
            WasmLocation::Local(i),
            load,
            ty,
            m1,
            m.locals[i as int],
            narrow,
            base,
            saved1,
        );
        let added = seq![
            Instr::GlobalGet(n.sp()),
            load,
            store(kind_of(ty), d1.func.offset_for(WasmLocation::Local(i))),
        ];
        run_joins(n, m, code, added);
        let d2 = locals_saved(n, types, wanted, d)->Ok_0;
        assert(d2.code =~= d.code + (code + added));
        let saved2 = saved1.insert(
            WasmLocation::Local(i),
            (m.locals[i as int], width(kind_of(ty))),
        );
        assert forall|k: usize| #[trigger] wanted.contains(k) implies saved2.contains_key(
            WasmLocation::Local(k),
        ) && saved2[WasmLocation::Local(k)] == (
            m.locals[k as int],
            width(kind_of(types[k as int])),
        ) by {
            if k != i {
                let j = choose|j: int| 0 <= j < wanted.len() && wanted[j] == k;
                assert(before[j] == k);
                assert(before.contains(k));
            }
        }
        assert forall|l: WasmLocation|
            !(l is Local) && #[trigger] saved.contains_key(l) implies saved2.contains_key(l)
            && saved2[l] == saved[l] by {
            assert(saved1.contains_key(l));
        }
        (code + added, m2, saved2)
    }
}

proof fn globals_run(
    n: Numbering,
    types: Seq<ValType>,
    wanted: Seq<usize>,
    d: DraftModel,
    m: Machine,
    narrow: bool,
    base: Map<int, (int, int)>,
    saved: Map<WasmLocation, (int, int)>,
) -> (r: (Seq<Instr>, Machine, Map<WasmLocation, (int, int)>))
    requires
        globals_saved(n, types, wanted, d) is Ok,
        increasing(wanted),
        narrow ==> frame_holds(m, d.func, m.globals[n.sp()], base, saved),
        narrow ==> values_fit(types, wanted),
    ensures
        ({
            let d2 = globals_saved(n, types, wanted, d)->Ok_0;
            &&& d2.code == d.code + r.0
            &&& d2.scratch == d.scratch
            &&& run(n, m, r.0) == Some(r.1)
            &&& r.1 == (Machine { debug: r.1.debug, ..m })
            &&& narrow ==> frame_holds(r.1, d2.func, m.globals[n.sp()], base, r.2)
            &&& forall|l: WasmLocation|
                !(l is Global) && #[trigger] saved.contains_key(l) ==> r.2.contains_key(l)
                    && r.2[l] == saved[l]
            &&& forall|i: usize| #[trigger]
                wanted.contains(i) ==> r.2.contains_key(WasmLocation::Global(i)) && r.2[
                    WasmLocation::Global(i)
                ] == (
                    m.globals[n.renumbered_global(i as u32)],
                    width(kind_of(types[i as int])),
                )
        }),
    decreases wanted.len(),
{
    if wanted.len() == 0 {
        assert(d.code + seq![] =~= d.code);
        (seq![], m, saved)
    } else {
        let before = wanted.drop_last();
        let i = wanted.last();
        assert(wanted[wanted.len() - 1] == i);
        assert(narrow ==> values_fit(types, before)) by {
            assert forall|k: usize| before.contains(k) implies wanted.contains(k) by {
                let j = choose|j: int| 0 <= j < before.len() && before[j] == k;
                assert(wanted[j] == k);
            }
        }
        let (code, m1, saved1) = globals_run(n, types, before, d, m, narrow, base, saved);
        let d1 = globals_saved(n, types, before, d)->Ok_0;
        let ty = types[i as int];
        let g = n.renumbered_global(i as u32);
        let load = Instr::GlobalGet(g);
        assert(wanted.contains((i as int) as usize));
        let m2 = save_runs(
            n,
            d1,
            WasmLocation::Global(i),
            load,
            ty,
            m1,
            m.globals[g],
            narrow,
            base,
            saved1,
        );
        let added = seq![
            Instr::GlobalGet(n.sp()),
            load,
            store(kind_of(ty), d1.func.offset_for(WasmLocation::Global(i))),
        ];
        run_joins(n, m, code, added);
        let d2 = globals_saved(n, types, wanted, d)->Ok_0;
        assert(d2.code =~= d.code + (code + added));
        let saved2 = saved1.insert(
            WasmLocation::Global(i),
            (m.globals[g], width(kind_of(ty))),
        );
        assert forall|k: usize| #[trigger] wanted.contains(k) implies saved2.contains_key(
            WasmLocation::Global(k),
        ) && saved2[WasmLocation::Global(k)] == (
            m.globals[n.renumbered_global(k as u32)],
            width(kind_of(types[k as int])),
        ) by {
            if k != i {
                let j = choose|j: int| 0 <= j < wanted.len() && wanted[j] == k;
                assert(before[j] == k);
                assert(before.contains(k));
            }
        }
        assert forall|l: WasmLocation|
            !(l is Global) && #[trigger] saved.contains_key(l) implies saved2.contains_key(l)
            && saved2[l] == saved[l] by {
            assert(saved1.contains_key(l));
        }
        (code + added, m2, saved2)
    }
}

// ---------------------------------------------------------------------------
// Breakpoints
// ---------------------------------------------------------------------------

/// The code that a breakpoint puts behind `d`.
pub open spec fn breakpoint_added(
    n: Numbering,
    locals: Seq<ValType>,
    globals: Seq<ValType>,
    types: Seq<Option<ValType>>,
    needed: LocationsModel,
    index: usize,
    d: DraftModel,
) -> Seq<Instr> {
    breakpoint_code(n, locals, globals, types, needed, index, d)->Ok_0.code.skip(
        d.code.len() as int,
    )
}

/// Whether all needed values fit the entries of a frame.
pub open spec fn needed_fit(
    locals: Seq<ValType>,
    globals: Seq<ValType>,
    types: Seq<Option<ValType>>,
    needed: LocationsModel,
) -> bool {
    operands_fit(types, needed.operands) && values_fit(locals, needed.locals) && values_fit(
        globals,
        needed.globals,
    )
}

/// Runs the code of a breakpoint.
proof fn breakpoint_runs(
    n: Numbering,
    locals: Seq<ValType>,
    globals: Seq<ValType>,
    types: Seq<Option<ValType>>,
    needed: LocationsModel,
    index: usize,
    d: DraftModel,
    start: Machine,
    narrow: bool,
) -> (r: (Machine, Map<WasmLocation, (int, int)>))
    requires
        breakpoint_code(n, locals, globals, types, needed, index, d) is Ok,
        needed.wf(),
        types.len() == start.stack.len(),
        types.len() <= usize::MAX,
        locals.len() <= u32::MAX,
        start.locals.len() >= locals.len() + breakpoint_code(
            n,
            locals,
            globals,
            types,
            needed,
            index,
            d,
        )->Ok_0.scratch.len(),
        narrow ==> d.func.frame_wf() && needed_fit(locals, globals, types, needed),
    ensures
        ({
            let d2 = breakpoint_code(n, locals, globals, types, needed, index, d)->Ok_0;
            let added = breakpoint_added(n, locals, globals, types, needed, index, d);
            &&& d2.code == d.code + added
            &&& run(n, start, added) == Some(r.0)
            &&& only_scratch_differs(
                start,
                Machine { hits: start.hits, ..r.0 },
                locals.len() as int,
            )
            &&& r.0.hits == start.hits.push(index as i32 as int)
            &&& narrow ==> frame_holds(r.0, d2.func, start.globals[n.sp()], start.debug, r.1)
            &&& forall|k: usize| #[trigger]
                needed.operands.contains(k) ==> r.1.contains_key(WasmLocation::Operand(k)) && r.1[
                    WasmLocation::Operand(k)
                ] == (start.stack[k as int], width(kind_of(types[k as int]->0)))
            &&& forall|i: usize| #[trigger]
                needed.locals.contains(i) ==> r.1.contains_key(WasmLocation::Local(i)) && r.1[
                    WasmLocation::Local(i)
                ] == (start.locals[i as int], width(kind_of(locals[i as int])))
            &&& forall|i: usize| #[trigger]
                needed.globals.contains(i) ==> r.1.contains_key(WasmLocation::Global(i)) && r.1[
                    WasmLocation::Global(i)
                ] == (
                    start.globals[n.renumbered_global(i as u32)],
                    width(kind_of(globals[i as int])),
                )
        }),
{
    let nlocals = locals.len() as u32;
    let base = start.debug;
    let d1 = operands_saved(n, nlocals, types, needed.operands, d)->Ok_0;
    let d2 = locals_saved(n, locals, needed.locals, d1)->Ok_0;
    let d3 = globals_saved(n, globals, needed.globals, d2)->Ok_0;
    scratch_settled_locals(n, locals, needed.locals, d1);
    scratch_settled_globals(n, globals, needed.globals, d2);
    assert(narrow ==> frame_holds(start, d.func, start.globals[n.sp()], base, Map::empty()));
    let (c1, m1, s1) = operands_run(
        n,
        nlocals,
        types,
        needed.operands,
        d,
        start,
        narrow,
        base,
    );
    let (c2, m2, s2) = locals_run(n, locals, needed.locals, d1, m1, narrow, base, s1);
    let (c3, m3, s3) = globals_run(n, globals, needed.globals, d2, m2, narrow, base, s2);
    let a = Instr::I32Const(index as i32);
    let b = Instr::Call(n.bkpt());
    let m4 = Machine { stack: m3.stack.push(index as i32 as int), ..m3 };
    let m5 = Machine { hits: m3.hits.push(index as i32 as int), ..m3 };
    run_one(n, m3, a);
    run_one(n, m4, b);
    assert(m4.stack.drop_last() =~= m3.stack);
    assert(step(n, m4, b) == Some(m5));
    run_joins(n, m3, seq![a], seq![b]);
    assert(seq![a] + seq![b] =~= seq![a, b]);
    run_joins(n, start, c1, c2);
    run_joins(n, start, c1 + c2, c3);
    run_joins(n, start, c1 + c2 + c3, seq![a, b]);
    let added = c1 + c2 + c3 + seq![a, b];
    let all = breakpoint_code(n, locals, globals, types, needed, index, d)->Ok_0;
    assert(all.code =~= d.code + added);
    assert(all.code.skip(d.code.len() as int) =~= added);
    assert(narrow ==> frame_holds(m5, all.func, start.globals[n.sp()], base, s3));
    assert forall|k: usize| #[trigger] needed.operands.contains(k) implies s3.contains_key(
        WasmLocation::Operand(k),
    ) && s3[WasmLocation::Operand(k)] == (
        start.stack[k as int],
        width(kind_of(types[k as int]->0)),
    ) by {
        assert(s1.contains_key(WasmLocation::Operand(k)));
        assert(s2.contains_key(WasmLocation::Operand(k)));
    }
    assert forall|i: usize| #[trigger] needed.locals.contains(i) implies s3.contains_key(
        WasmLocation::Local(i),
    ) && s3[WasmLocation::Local(i)] == (
        start.locals[i as int],
        width(kind_of(locals[i as int])),
    ) by {
        assert(s2.contains_key(WasmLocation::Local(i)));
        saved_locals_exist(n, locals, needed.locals, d1, i);
    }
    (m5, s3)
}

proof fn scratch_settled_locals(
    n: Numbering,
    types: Seq<ValType>,
    wanted: Seq<usize>,
    d: DraftModel,
)
    requires
        locals_saved(n, types, wanted, d) is Ok,
    ensures
        locals_saved(n, types, wanted, d)->Ok_0.scratch == d.scratch,
    decreases wanted.len(),
{
    if wanted.len() > 0 {
        scratch_settled_locals(n, types, wanted.drop_last(), d);
    }
}

proof fn scratch_settled_globals(
    n: Numbering,
    types: Seq<ValType>,
    wanted: Seq<usize>,
    d: DraftModel,
)
    requires
        globals_saved(n, types, wanted, d) is Ok,
    ensures
        globals_saved(n, types, wanted, d)->Ok_0.scratch == d.scratch,
    decreases wanted.len(),
{
    if wanted.len() > 0 {
        scratch_settled_globals(n, types, wanted.drop_last(), d);
    }
}

proof fn saved_locals_exist(
    n: Numbering,
    types: Seq<ValType>,
    wanted: Seq<usize>,
    d: DraftModel,
    i: usize,
)
    requires
        locals_saved(n, types, wanted, d) is Ok,
        wanted.contains(i),
    ensures
        i < types.len(),
    decreases wanted.len(),
{
    let j = choose|j: int| 0 <= j < wanted.len() && wanted[j] == i;
    if j < wanted.len() - 1 {
        assert(wanted.drop_last()[j] == i);
        saved_locals_exist(n, types, wanted.drop_last(), d, i);
    }
}

/// The code of a breakpoint has no observable side effects: the operand stack,
/// the function's own locals and all globals are as they were before it, and
/// the breakpoint function was called once, with the number of the breakpoint.
pub proof fn breakpoints_have_no_side_effects(
    n: Numbering,
    locals: Seq<ValType>,
    globals: Seq<ValType>,
    types: Seq<Option<ValType>>,
    needed: LocationsModel,
    index: usize,
    d: DraftModel,
    start: Machine,
)
    requires
        breakpoint_code(n, locals, globals, types, needed, index, d) is Ok,
        needed.wf(),
        types.len() == start.stack.len(),
        types.len() <= usize::MAX,
        locals.len() <= u32::MAX,
        start.locals.len() >= locals.len() + breakpoint_code(
            n,
            locals,
            globals,
            types,
            needed,
            index,
            d,
        )->Ok_0.scratch.len(),
    ensures
        ({
            let end = run(
                n,
                start,
                breakpoint_added(n, locals, globals, types, needed, index, d),
            );
            &&& end is Some
            &&& only_scratch_differs(
                start,
                Machine { hits: start.hits, ..end->0 },
                locals.len() as int,
            )
            &&& end->0.hits == start.hits.push(index as i32 as int)
        }),
{
    let _ = breakpoint_runs(n, locals, globals, types, needed, index, d, start, false);
}

/// What the frame is found to hold for a location.
pub open spec fn frame_reads(
    m: Machine,
    func: FunctionModel,
    sp: int,
    l: WasmLocation,
    value: int,
    width: int,
) -> bool {
    &&& entry_for(func.layout, l) is Some
    &&& width <= FRAME_ENTRY_BYTES
    &&& reads(m.debug, sp + entry_for(func.layout, l)->0.offset, value, width)
}

/// After the code of a breakpoint the function's frame holds the value of every
/// operand, local and global that is needed, where the layout of the frame says
/// it is. Memory outside the frame is as it was. Vectors do not fit the entries
/// of a frame, and are left out.
pub proof fn breakpoints_save_what_is_needed(
    n: Numbering,
    locals: Seq<ValType>,
    globals: Seq<ValType>,
    types: Seq<Option<ValType>>,
    needed: LocationsModel,
    index: usize,
    d: DraftModel,
    start: Machine,
)
    requires
        breakpoint_code(n, locals, globals, types, needed, index, d) is Ok,
        needed.wf(),
        types.len() == start.stack.len(),
        types.len() <= usize::MAX,
        locals.len() <= u32::MAX,
        start.locals.len() >= locals.len() + breakpoint_code(
            n,
            locals,
            globals,
            types,
            needed,
            index,
            d,
        )->Ok_0.scratch.len(),
        d.func.frame_wf(),
        needed_fit(locals, globals, types, needed),
    ensures
        ({
            let d2 = breakpoint_code(n, locals, globals, types, needed, index, d)->Ok_0;
            let end = run(
                n,
                start,
                breakpoint_added(n, locals, globals, types, needed, index, d),
            )->0;
            let sp = start.globals[n.sp()];
            &&& d2.func.frame_wf()
            &&& forall|k: usize| #[trigger]
                needed.operands.contains(k) ==> frame_reads(
                    end,
                    d2.func,
                    sp,
                    WasmLocation::Operand(k),
                    start.stack[k as int],
                    width(kind_of(types[k as int]->0)),
                )
            &&& forall|i: usize| #[trigger]
                needed.locals.contains(i) ==> frame_reads(
                    end,
                    d2.func,
                    sp,
                    WasmLocation::Local(i),
                    start.locals[i as int],
                    width(kind_of(locals[i as int])),
                )
            &&& forall|i: usize| #[trigger]
                needed.globals.contains(i) ==> frame_reads(
                    end,
                    d2.func,
                    sp,
                    WasmLocation::Global(i),
                    start.globals[n.renumbered_global(i as u32)],
                    width(kind_of(globals[i as int])),
                )
            &&& forall|a: int|
                !(sp + FRAME_TAG_BYTES <= a < sp + d2.func.size) ==> #[trigger] same_at(
                    end.debug,
                    start.debug,
                    a,
                )
        }),
{
    let (end, saved) = breakpoint_runs(
        n,
        locals,
        globals,
        types,
        needed,
        index,
        d,
        start,
        true,
    );
    assert forall|k: usize| #[trigger] needed.operands.contains(k) implies saved.contains_key(
        WasmLocation::Operand(k),
    ) by {}
}

/// A frame that is taken on the way in is given back on the way out: the
/// machine is as it was. In between the debug stack pointer stands lower by the
/// size of the frame.
pub proof fn frames_are_given_back(n: Numbering, size: usize, m: Machine)
    requires
        m.globals.contains_key(n.sp()),
        0 <= m.globals[n.sp()] < words(),
        size <= i32::MAX,
    ensures
        run(n, m, sized(header(n), size)) == Some(
            Machine {
                globals: m.globals.insert(n.sp(), (m.globals[n.sp()] - size) % words()),
                ..m
            },
        ),
        run(n, m, sized(header(n), size) + sized(footer(n), size)) == Some(m),
{
    let sp = m.globals[n.sp()];
    let low = (sp - size) % words();
    let mid = Machine { globals: m.globals.insert(n.sp(), low), ..m };
    moved_pointer(n, size, m, true);
    moved_pointer(n, size, mid, false);
    run_joins(n, m, sized(header(n), size), sized(footer(n), size));
    assert((low + size) % words() == sp);
    assert(mid.globals.insert(n.sp(), sp) =~= m.globals);
}

pub(super) proof fn moved_pointer(n: Numbering, size: usize, m: Machine, down: bool)
    requires
        size <= i32::MAX,
    ensures
        run(
            n,
            m,
            sized(
                if down {
                    header(n)
                } else {
                    footer(n)
                },
                size,
            ),
        ) == Some(
            Machine {
                globals: m.globals.insert(
                    n.sp(),
                    (if down {
                        m.globals[n.sp()] - size
                    } else {
                        m.globals[n.sp()] + size
                    }) % words(),
                ),
                ..m
            },
        ),
{
    let sp = m.globals[n.sp()];
    let a = Instr::GlobalGet(n.sp());
    let b = Instr::I32Const(size as i32);
    let c = if down {
        Instr::I32Sub
    } else {
        Instr::I32Add
    };
    let e = Instr::GlobalSet(n.sp());
    let v = (if down {
        sp - size
    } else {
        sp + size
    }) % words();
    let code = sized(
        if down {
            header(n)
        } else {
            footer(n)
        },
        size,
    );
    assert(code =~= seq![a, b, c, e]);
    let m1 = Machine { stack: m.stack.push(sp), ..m };
    let m2 = Machine { stack: m1.stack.push(size as int), ..m };
    let m3 = Machine { stack: m.stack.push(v), ..m };
    let m4 = Machine { globals: m.globals.insert(n.sp(), v), ..m };
    assert(m2.stack.take(m.stack.len() as int) =~= m.stack);
    assert(m3.stack.drop_last() =~= m.stack);
    run_one(n, m, a);
    run_one(n, m1, b);
    run_one(n, m2, c);
    run_one(n, m3, e);
    assert(step(n, m2, c) == Some(m3));
    assert(step(n, m3, e) == Some(m4));
    run_joins(n, m, seq![a], seq![b]);
    run_joins(n, m, seq![a] + seq![b], seq![c]);
    run_joins(n, m, seq![a] + seq![b] + seq![c], seq![e]);
    assert(seq![a, b, c, e] =~= seq![a] + seq![b] + seq![c] + seq![e]);
}

} // verus!
