//! What becomes of a whole function.
//!
//! The code of an instrumented function falls into pieces: one that takes the
//! frame, and for each operator of the function one that tells the debugger of
//! it, where the debug information knows the place, and one that stands for the
//! operator itself. What a piece does is said by the machine that runs inserted
//! instructions.
use vstd::prelude::*;
use wasmparser::ValType;

use crate::debug::dwarf::die::entry_named;
use crate::debug::dwarf::unit::Location;
use crate::types::{CodeOffset, FunctionModel, WasmLocation};
use crate::wasm::reader::{BodyModel, OpKind, StepModel, ValueKind};
use super::encoder::{Numbering, location_at, place_is_first};
use super::function::{DraftModel, Instr, PlanModel, ProgressModel, Surroundings, before_operator,
    breakpoint_code, call_mark, footer, free_scratch, function_planned, globals_saved, header,
    instrumented_frames_are_well_laid_out, locals_saved, operands_saved, operator_code,
    operators_planned, rerolled, sized, store, unrolled, value_saved};
use super::locations::{LocationsModel, needed_locations, needed_locations_are_ordered};
use super::machine::{Machine, breakpoint_added, breakpoints_have_no_side_effects, moved_pointer,
    run, run_joins, run_one, step, words, written};

verus! {

broadcast use vstd::seq_lib::group_seq_properties;

// ---------------------------------------------------------------------------
// What pieces of code do
// ---------------------------------------------------------------------------

/// Whether code moves the debug stack pointer by `by` bytes and does nothing
/// else.
pub open spec fn moves_pointer(n: Numbering, code: Seq<Instr>, by: int) -> bool {
    forall|m: Machine|
        #[trigger] run(n, m, code) == Some(
            Machine {
                globals: m.globals.insert(n.sp(), (m.globals[n.sp()] + by) % words()),
                ..m
            },
        )
}

/// Whether code writes an address into the first four bytes of the frame and
/// does nothing else.
pub open spec fn tags_frame(n: Numbering, code: Seq<Instr>, pc: CodeOffset) -> bool {
    forall|m: Machine|
        #[trigger] run(n, m, code) == Some(
            Machine {
                debug: written(m.debug, m.globals[n.sp()], pc.0 as i32 as int, 4),
                ..m
            },
        )
}

/// Whether code says where it is, makes the call `call`, gives a frame of `size`
/// bytes back and leaves the function.
pub open spec fn calls_and_leaves(
    n: Numbering,
    code: Seq<Instr>,
    pc: CodeOffset,
    call: Instr,
    size: int,
) -> bool {
    exists|j: int|
        {
            &&& 0 <= j < code.len() - 1
            &&& #[trigger] code[j] == call
            &&& tags_frame(n, code.take(j), pc)
            &&& moves_pointer(n, code.subrange(j + 1, code.len() - 1), size)
            &&& code.last() == Instr::Return
        }
}

/// Whether code stands for operator `k` of a function whose frame takes `size`
/// bytes. A call says where it is before it is made. The frame is given back
/// right before each way out of the function, and is still there while a tail
/// call runs. Everything else is left as it is.
pub open spec fn stands_for(
    n: Numbering,
    code: Seq<Instr>,
    k: int,
    s: StepModel,
    size: int,
) -> bool {
    let pc = place_of(n, s);
    match s.kind {
        OpKind::Call => {
            &&& code.len() > 0
            &&& code.last() == Instr::Op(k as usize)
            &&& tags_frame(n, code.drop_last(), pc)
        },
        OpKind::Return => {
            &&& code.len() > 0
            &&& code.last() == Instr::Return
            &&& moves_pointer(n, code.drop_last(), size)
        },
        OpKind::ReturnCall(f) => {
            // the breakpoint function is the last of the imports
            let callee = if f < n.num_imported_functions {
                f
            } else if f < u32::MAX {
                (f + 1) as u32
            } else {
                0
            };
            calls_and_leaves(n, code, pc, Instr::Call(callee), size)
        },
        OpKind::ReturnCallIndirect { type_index, table_index } => calls_and_leaves(
            n,
            code,
            pc,
            Instr::CallIndirect { type_index, table_index },
            size,
        ),
        OpKind::ReturnCallRef(t) => calls_and_leaves(n, code, pc, Instr::CallRef(t), size),
        OpKind::End => if s.last {
            &&& code.len() > 0
            &&& code.last() == Instr::Op(k as usize)
            &&& moves_pointer(n, code.drop_last(), size)
        } else {
            code == seq![Instr::Op(k as usize)]
        },
        OpKind::Other => code == seq![Instr::Op(k as usize)],
    }
}

/// Whether code tells the debugger, wherever it is run, that the program has come
/// to the place with the number `index`, and leaves the operands, the function's
/// own locals and the globals as they are.
pub open spec fn tells_of(
    n: Numbering,
    code: Seq<Instr>,
    operands: nat,
    locals: nat,
    scratch: nat,
    index: int,
) -> bool {
    forall|m: Machine|
        m.stack.len() == operands && m.locals.len() >= locals + scratch ==> {
            let end = #[trigger] run(n, m, code);
            &&& end is Some
            &&& end->0.stack == m.stack
            &&& end->0.globals == m.globals
            &&& end->0.locals.len() == m.locals.len()
            &&& forall|i: int| 0 <= i < locals ==> end->0.locals[i] == m.locals[i]
            &&& end->0.hits == m.hits.push(index)
        }
}

/// Whether the debug information knows a place at an address.
pub open spec fn is_known(known: Seq<Location>, pc: CodeOffset) -> bool {
    exists|i: int| 0 <= i < known.len() && (#[trigger] known[i]).address.0 == pc.0
}

/// Where an operator stands in the code section.
pub open spec fn place_of(n: Numbering, s: StepModel) -> CodeOffset {
    CodeOffset(
        if s.offset >= n.code_section_start {
            (s.offset - n.code_section_start) as u64
        } else {
            0
        },
    )
}

/// Whether code tells the debugger of an operator: where the debug information
/// knows its place, by the number `at` of that place among all places, and
/// otherwise not at all.
pub open spec fn announces(
    c: Surroundings,
    code: Seq<Instr>,
    s: StepModel,
    scratch: nat,
    places: Seq<Location>,
    at: int,
) -> bool {
    if is_known(c.known, place_of(c.numbers, s)) {
        &&& 0 <= at < places.len()
        &&& places[at].address.0 == place_of(c.numbers, s).0
        &&& c.known.contains(places[at])
        &&& at <= i32::MAX && s.operands.len() <= usize::MAX && c.locals.len() <= u32::MAX
            ==> tells_of(c.numbers, code, s.operands.len(), c.locals.len(), scratch, at)
    } else {
        code.len() == 0
    }
}

/// Where the code of an operator stands: what tells of it from `at` up to `op`,
/// and what stands for it from `op` up to `end`.
pub struct Cut {
    pub at: int,
    pub op: int,
    pub end: int,
    /// How many places were known before.
    pub places: int,
}

// ---------------------------------------------------------------------------
// Cutting the code
// ---------------------------------------------------------------------------

/// Whether code holds none of the instructions that belong to the program or to
/// the frame as a whole.
spec fn is_plain(code: Seq<Instr>) -> bool {
    forall|i: int| 0 <= i < code.len() ==> !((#[trigger] code[i]) is FrameSize)
}

/// Whether a draft goes on where another one stopped, with nothing about the
/// frame's size in between.
spec fn goes_on(a: DraftModel, b: DraftModel) -> bool {
    &&& a.code.len() <= b.code.len()
    &&& a.code == b.code.take(a.code.len() as int)
    &&& is_plain(b.code.skip(a.code.len() as int))
    &&& a.scratch.len() <= b.scratch.len()
}

proof fn goes_on_by(a: DraftModel, b: DraftModel, more: Seq<Instr>)
    requires
        b.code == a.code + more,
        is_plain(more),
        a.scratch.len() <= b.scratch.len(),
    ensures
        goes_on(a, b),
{
    assert(b.code.take(a.code.len() as int) =~= a.code);
    assert(b.code.skip(a.code.len() as int) =~= more);
}

proof fn goes_on_again(a: DraftModel, b: DraftModel, c: DraftModel)
    requires
        goes_on(a, b),
        goes_on(b, c),
    ensures
        goes_on(a, c),
{
    let x = b.code.skip(a.code.len() as int);
    let y = c.code.skip(b.code.len() as int);
    assert(b.code =~= a.code + x);
    assert(c.code =~= b.code + y);
    assert(c.code =~= a.code + (x + y));
    goes_on_by(a, c, x + y);
}

proof fn saving_goes_on(d: DraftModel, n: Numbering, l: WasmLocation, load: Instr, ty: ValType)
    requires
        !(load is FrameSize),
    ensures
        value_saved(d, n, l, load, ty) matches Ok(d2) ==> goes_on(d, d2),
{
    if let Ok(d2) = value_saved(d, n, l, load, ty) {
        let more = d2.code.skip(d.code.len() as int);
        assert(d2.code =~= d.code + more);
        assert(more.len() == 3);
        goes_on_by(d, d2, more);
    }
}

proof fn unrolling_goes_on(
    n: Numbering,
    nlocals: u32,
    types: Seq<Option<ValType>>,
    wanted: Seq<usize>,
    first: int,
    idx: int,
    d: DraftModel,
    taken: Seq<usize>,
)
    ensures
        unrolled(n, nlocals, types, wanted, first, idx, d, taken) matches Ok((d2, _)) ==> goes_on(
            d,
            d2,
        ),
    decreases idx - first,
{
    if idx > first {
        if let Some(ty) = types[idx - 1] {
            let s = free_scratch(d.scratch, taken, ty, 0);
            let local = (s + nlocals) as u32;
            let popped = DraftModel {
                code: d.code.push(Instr::LocalSet(local)),
                scratch: if s < d.scratch.len() {
                    d.scratch
                } else {
                    d.scratch.push(ty)
                },
                ..d
            };
            assert(popped.code =~= d.code + seq![Instr::LocalSet(local)]);
            goes_on_by(d, popped, seq![Instr::LocalSet(local)]);
            let location = WasmLocation::Operand((idx - 1) as usize);
            saving_goes_on(popped, n, location, Instr::LocalGet(local), ty);
            let saved = if wanted.contains((idx - 1) as usize) {
                value_saved(popped, n, location, Instr::LocalGet(local), ty)
            } else {
                Ok(popped)
            };
            if let Ok(d1) = saved {
                if wanted.contains((idx - 1) as usize) {
                    goes_on_again(d, popped, d1);
                }
                unrolling_goes_on(
                    n,
                    nlocals,
                    types,
                    wanted,
                    first,
                    idx - 1,
                    d1,
                    taken.push(s as usize),
                );
                if let Ok((d2, _)) = unrolled(
                    n,
                    nlocals,
                    types,
                    wanted,
                    first,
                    idx - 1,
                    d1,
                    taken.push(s as usize),
                ) {
                    goes_on_again(d, d1, d2);
                }
            }
        }
    } else {
        goes_on_by(d, d, seq![]);
    }
}

proof fn locals_go_on(n: Numbering, types: Seq<ValType>, wanted: Seq<usize>, d: DraftModel)
    ensures
        locals_saved(n, types, wanted, d) matches Ok(d2) ==> goes_on(d, d2),
    decreases wanted.len(),
{
    if wanted.len() > 0 {
        locals_go_on(n, types, wanted.drop_last(), d);
        if let Ok(d1) = locals_saved(n, types, wanted.drop_last(), d) {
            let i = wanted.last();
            let load = Instr::LocalGet(i as u32);
            saving_goes_on(d1, n, WasmLocation::Local(i), load, types[i as int]);
            if let Ok(d2) = locals_saved(n, types, wanted, d) {
                goes_on_again(d, d1, d2);
            }
        }
    } else {
        goes_on_by(d, d, seq![]);
    }
}

proof fn globals_go_on(n: Numbering, types: Seq<ValType>, wanted: Seq<usize>, d: DraftModel)
    ensures
        globals_saved(n, types, wanted, d) matches Ok(d2) ==> goes_on(d, d2),
    decreases wanted.len(),
{
    if wanted.len() > 0 {
        globals_go_on(n, types, wanted.drop_last(), d);
        if let Ok(d1) = globals_saved(n, types, wanted.drop_last(), d) {
            let i = wanted.last();
            let load = Instr::GlobalGet(n.renumbered_global(i as u32));
            saving_goes_on(d1, n, WasmLocation::Global(i), load, types[i as int]);
            if let Ok(d2) = globals_saved(n, types, wanted, d) {
                goes_on_again(d, d1, d2);
            }
        }
    } else {
        goes_on_by(d, d, seq![]);
    }
}

proof fn operands_go_on(
    n: Numbering,
    nlocals: u32,
    types: Seq<Option<ValType>>,
    wanted: Seq<usize>,
    d: DraftModel,
)
    ensures
        operands_saved(n, nlocals, types, wanted, d) matches Ok(d2) ==> goes_on(d, d2),
{
    if wanted.len() == 0 {
        goes_on_by(d, d, seq![]);
    } else if let Ok(d2) = operands_saved(n, nlocals, types, wanted, d) {
        let first = wanted[0] as int;
        let all = types.len() as int;
        unrolling_goes_on(n, nlocals, types, wanted, first, all, d, seq![]);
        if let Ok((d1, taken)) = unrolled(n, nlocals, types, wanted, first, all, d, seq![]) {
            goes_on_by(d1, d2, rerolled(nlocals, taken));
            goes_on_again(d, d1, d2);
        }
    }
}

proof fn breakpoint_goes_on(
    n: Numbering,
    locals: Seq<ValType>,
    globals: Seq<ValType>,
    types: Seq<Option<ValType>>,
    needed: LocationsModel,
    index: usize,
    d: DraftModel,
)
    ensures
        breakpoint_code(n, locals, globals, types, needed, index, d) matches Ok(d2) ==> goes_on(
            d,
            d2,
        ),
{
    let nlocals = locals.len() as u32;
    if let Ok(d4) = breakpoint_code(n, locals, globals, types, needed, index, d) {
        operands_go_on(n, nlocals, types, needed.operands, d);
        let d1 = operands_saved(n, nlocals, types, needed.operands, d)->Ok_0;
        locals_go_on(n, locals, needed.locals, d1);
        let d2 = locals_saved(n, locals, needed.locals, d1)->Ok_0;
        globals_go_on(n, globals, needed.globals, d2);
        let d3 = globals_saved(n, globals, needed.globals, d2)->Ok_0;
        goes_on_by(d3, d4, seq![Instr::I32Const(index as i32), Instr::Call(n.bkpt())]);
        goes_on_again(d, d1, d2);
        goes_on_again(d, d2, d3);
        goes_on_again(d, d3, d4);
    }
}

/// Whether what comes before an operator is what the machine says it is.
spec fn told_before(
    c: Surroundings,
    s: StepModel,
    scratch: nat,
    places: Seq<Location>,
    at: int,
    more: Seq<Instr>,
) -> bool {
    match location_at(c.known, c.numbers.code_offset(s.offset)) {
        Some(l) => {
            &&& 0 <= at < places.len()
            &&& places[at] == l
            &&& at <= usize::MAX && s.operands.len() <= usize::MAX && c.locals.len() <= u32::MAX
                ==> tells_of(
                c.numbers,
                more,
                s.operands.len(),
                c.locals.len(),
                scratch,
                at as usize as i32 as int,
            )
        },
        None => more.len() == 0,
    }
}

proof fn tells_more_scratch(
    n: Numbering,
    code: Seq<Instr>,
    operands: nat,
    locals: nat,
    a: nat,
    b: nat,
    index: int,
)
    requires
        tells_of(n, code, operands, locals, a, index),
        a <= b,
    ensures
        tells_of(n, code, operands, locals, b, index),
{
}

proof fn before_is_told(c: Surroundings, s: StepModel, p: ProgressModel)
    requires
        before_operator(c, s, p) is Ok,
    ensures
        ({
            let q = before_operator(c, s, p)->Ok_0;
            &&& goes_on(p.draft, q.draft)
            &&& told_before(
                c,
                s,
                q.draft.scratch.len(),
                q.locations,
                p.locations.len() as int,
                q.draft.code.skip(p.draft.code.len() as int),
            )
            &&& p.locations.is_prefix_of(q.locations)
            &&& q.locations.len() == p.locations.len() + if location_at(
                c.known,
                c.numbers.code_offset(s.offset),
            ) is Some {
                1int
            } else {
                0
            }
        }),
{
    let pc = c.numbers.code_offset(s.offset);
    let q = before_operator(c, s, p)->Ok_0;
    match location_at(c.known, pc) {
        None => {
            goes_on_by(p.draft, p.draft, seq![]);
        },
        Some(l) => {
            let (u, i) = entry_named(c.units, p.draft.func.die_ref)->Ok_0;
            let needed = needed_locations(c.units[u], i, pc.0)->Ok_0;
            let index = p.locations.len() as usize;
            breakpoint_goes_on(c.numbers, c.locals, c.globals, s.operands, needed, index, p.draft);
            needed_locations_are_ordered(c.units[u], i, pc.0);
            let more = q.draft.code.skip(p.draft.code.len() as int);
            let added = breakpoint_added(
                c.numbers,
                c.locals,
                c.globals,
                s.operands,
                needed,
                index,
                p.draft,
            );
            assert(more == added);
            if s.operands.len() <= usize::MAX && c.locals.len() <= u32::MAX {
                assert forall|m: Machine|
                    m.stack.len() == s.operands.len() && m.locals.len() >= c.locals.len()
                        + q.draft.scratch.len() implies {
                    let end = #[trigger] run(c.numbers, m, more);
                    &&& end is Some
                    &&& end->0.stack == m.stack
                    &&& end->0.globals == m.globals
                    &&& end->0.locals.len() == m.locals.len()
                    &&& forall|i: int| 0 <= i < c.locals.len() ==> end->0.locals[i] == m.locals[i]
                    &&& end->0.hits == m.hits.push(index as i32 as int)
                } by {
                    breakpoints_have_no_side_effects(
                        c.numbers,
                        c.locals,
                        c.globals,
                        s.operands,
                        needed,
                        index,
                        p.draft,
                        m,
                    );
                }
            }
        },
    }
}

/// How many places the debug information gives an operator.
spec fn known_at(c: Surroundings, step: Option<StepModel>) -> int {
    match step {
        Some(s) => if location_at(c.known, c.numbers.code_offset(s.offset)) is Some {
            1
        } else {
            0
        },
        None => 0,
    }
}

/// Whether the code up to here was put together of the pieces that `cuts` say,
/// from operator `k` on.
spec fn is_cut(
    c: Surroundings,
    steps: Seq<Option<StepModel>>,
    k: int,
    p: ProgressModel,
    q: ProgressModel,
    cuts: Seq<Cut>,
) -> bool {
    &&& cuts.len() == steps.len() - k
    &&& p.draft.code.len() <= q.draft.code.len()
    &&& p.draft.code == q.draft.code.take(p.draft.code.len() as int)
    &&& p.draft.scratch.len() <= q.draft.scratch.len()
    &&& p.locations.is_prefix_of(q.locations)
    &&& if cuts.len() == 0 {
        &&& p.draft.code.len() == q.draft.code.len()
        &&& p.locations.len() == q.locations.len()
    } else {
        &&& cuts[0].at == p.draft.code.len()
        &&& cuts.last().end == q.draft.code.len()
        &&& cuts[0].places == p.locations.len()
        &&& q.locations.len() == cuts.last().places + known_at(c, steps[steps.len() - 1])
    }
    &&& forall|j: int|
        0 <= j < cuts.len() - 1 ==> cuts[j + 1].places == (#[trigger] cuts[j]).places + known_at(
            c,
            steps[k + j],
        )
    &&& forall|j: int|
        0 <= j < cuts.len() - 1 ==> (#[trigger] cuts[j]).end == cuts[j + 1].at
    &&& forall|j: int|
        0 <= j < cuts.len() ==> cut_holds(c, steps, k + j, q, #[trigger] cuts[j])
}

spec fn cut_holds(
    c: Surroundings,
    steps: Seq<Option<StepModel>>,
    k: int,
    q: ProgressModel,
    cut: Cut,
) -> bool {
    &&& 0 <= cut.at <= cut.op <= cut.end <= q.draft.code.len()
    &&& steps[k] is Some
    &&& steps[k]->0.accepted
    &&& 0 <= k < usize::MAX
    &&& is_plain(q.draft.code.subrange(cut.at, cut.op))
    &&& told_before(
        c,
        steps[k]->0,
        q.draft.scratch.len(),
        q.locations,
        cut.places,
        q.draft.code.subrange(cut.at, cut.op),
    )
    &&& q.draft.code.subrange(cut.op, cut.end) == operator_code(
        c.numbers,
        k as usize,
        steps[k]->0.kind,
        steps[k]->0.last,
        c.numbers.code_offset(steps[k]->0.offset),
    )
}

proof fn code_is_cut(
    c: Surroundings,
    steps: Seq<Option<StepModel>>,
    k: int,
    p: ProgressModel,
) -> (cuts: Seq<Cut>)
    requires
        0 <= k <= steps.len(),
        operators_planned(c, steps, k, p) is Ok,
    ensures
        is_cut(c, steps, k, p, operators_planned(c, steps, k, p)->Ok_0, cuts),
    decreases steps.len() - k,
{
    let q = operators_planned(c, steps, k, p)->Ok_0;
    if k >= steps.len() {
        assert(p.draft.code.take(p.draft.code.len() as int) =~= p.draft.code);
        seq![]
    } else {
        let s = steps[k]->0;
        let pc = c.numbers.code_offset(s.offset);
        let p1 = before_operator(c, s, p)->Ok_0;
        before_is_told(c, s, p);
        let op = operator_code(c.numbers, k as usize, s.kind, s.last, pc);
        let p2 = ProgressModel {
            draft: DraftModel { code: p1.draft.code + op, ..p1.draft },
            ..p1
        };
        let rest = code_is_cut(c, steps, k + 1, p2);
        let first = Cut {
            at: p.draft.code.len() as int,
            op: p1.draft.code.len() as int,
            end: p2.draft.code.len() as int,
            places: p.locations.len() as int,
        };
        let cuts = seq![first] + rest;
        let all = q.draft.code;
        let a = p.draft.code.len() as int;
        let b = p1.draft.code.len() as int;
        let e = p2.draft.code.len() as int;
        assert(p2.draft.code.take(b) =~= p1.draft.code);
        assert(all.take(e).take(b) =~= all.take(b));
        assert(all.take(b).take(a) =~= all.take(a));
        assert(all.subrange(a, b) =~= p1.draft.code.skip(a)) by {
            assert(p1.draft.code == all.take(b));
        }
        assert(all.subrange(b, e) =~= op) by {
            assert(p2.draft.code == all.take(e));
            assert(op =~= p2.draft.code.skip(b));
        }
        if location_at(c.known, pc) is Some {
            assert(q.locations[first.places] == p1.locations[first.places]);
            if first.places <= usize::MAX && s.operands.len() <= usize::MAX && c.locals.len()
                <= u32::MAX {
                tells_more_scratch(
                    c.numbers,
                    all.subrange(a, b),
                    s.operands.len(),
                    c.locals.len(),
                    p1.draft.scratch.len(),
                    q.draft.scratch.len(),
                    first.places as usize as i32 as int,
                );
            }
        }
        assert(cut_holds(c, steps, k, q, first));
        assert forall|j: int| 0 <= j < cuts.len() implies cut_holds(
            c,
            steps,
            k + j,
            q,
            #[trigger] cuts[j],
        ) by {
            if j > 0 {
                assert(cuts[j] == rest[j - 1]);
                assert(cut_holds(c, steps, k + 1 + (j - 1), q, rest[j - 1]));
            }
        }
        assert forall|j: int| 0 <= j < cuts.len() - 1 implies (#[trigger] cuts[j]).end == cuts[j
            + 1].at by {
            assert(cuts[j + 1] == rest[j]);
            if j > 0 {
                assert(cuts[j] == rest[j - 1]);
                assert(rest[j - 1].end == rest[j].at);
            }
        }
        assert forall|j: int| 0 <= j < cuts.len() - 1 implies cuts[j + 1].places == (
        #[trigger] cuts[j]).places + known_at(c, steps[k + j]) by {
            assert(cuts[j + 1] == rest[j]);
            if j > 0 {
                assert(cuts[j] == rest[j - 1]);
                assert(rest[j].places == rest[j - 1].places + known_at(c, steps[k + 1 + (j - 1)]));
            }
        }
        if rest.len() > 0 {
            assert(cuts.last() == rest.last());
        }
        assert(all.take(a) =~= p.draft.code);
        cuts
    }
}

// ---------------------------------------------------------------------------
// Running the pieces
// ---------------------------------------------------------------------------

proof fn sized_parts(code: Seq<Instr>, size: usize, a: int, b: int)
    requires
        0 <= a <= b <= code.len(),
    ensures
        sized(code, size).subrange(a, b) == sized(code.subrange(a, b), size),
{
    assert(sized(code, size).subrange(a, b) =~= sized(code.subrange(a, b), size));
}

proof fn footer_moves(n: Numbering, size: usize)
    requires
        size <= i32::MAX,
    ensures
        moves_pointer(n, sized(footer(n), size), size as int),
        moves_pointer(n, sized(header(n), size), -size),
{
    assert forall|m: Machine|
        #[trigger] run(n, m, sized(footer(n), size)) == Some(
            Machine {
                globals: m.globals.insert(n.sp(), (m.globals[n.sp()] + size) % words()),
                ..m
            },
        ) by {
        moved_pointer(n, size, m, false);
    }
    assert forall|m: Machine|
        #[trigger] run(n, m, sized(header(n), size)) == Some(
            Machine {
                globals: m.globals.insert(n.sp(), (m.globals[n.sp()] + (-size)) % words()),
                ..m
            },
        ) by {
        moved_pointer(n, size, m, true);
    }
}

proof fn mark_tags(n: Numbering, pc: CodeOffset, size: usize)
    ensures
        tags_frame(n, sized(call_mark(n, pc), size), pc),
{
    let a = Instr::GlobalGet(n.sp());
    let b = Instr::I32Const(pc.0 as i32);
    let d = store(ValueKind::I32, 0);
    assert(sized(call_mark(n, pc), size) =~= seq![a] + seq![b] + seq![d]);
    assert forall|m: Machine|
        #[trigger] run(n, m, sized(call_mark(n, pc), size)) == Some(
            Machine {
                debug: written(m.debug, m.globals[n.sp()], pc.0 as i32 as int, 4),
                ..m
            },
        ) by {
        let sp = m.globals[n.sp()];
        let m1 = Machine { stack: m.stack.push(sp), ..m };
        let m2 = Machine { stack: m1.stack.push(pc.0 as i32 as int), ..m };
        run_one(n, m, a);
        run_one(n, m1, b);
        run_one(n, m2, d);
        assert(m2.stack.take(m.stack.len() as int) =~= m.stack);
        run_joins(n, m, seq![a], seq![b]);
        run_joins(n, m, seq![a] + seq![b], seq![d]);
    }
}

proof fn tail_call_leaves(n: Numbering, pc: CodeOffset, call: Instr, size: usize)
    requires
        !(call is FrameSize),
        size <= i32::MAX,
    ensures
        calls_and_leaves(
            n,
            sized(call_mark(n, pc).push(call) + footer(n).push(Instr::Return), size),
            pc,
            call,
            size as int,
        ),
{
    let code = sized(call_mark(n, pc).push(call) + footer(n).push(Instr::Return), size);
    mark_tags(n, pc, size);
    footer_moves(n, size);
    assert(code.take(3) =~= sized(call_mark(n, pc), size));
    assert(code[3] == call);
    assert(code.subrange(4, code.len() - 1) =~= sized(footer(n), size));
}

proof fn operators_stand(n: Numbering, k: usize, s: StepModel, size: usize)
    requires
        size <= i32::MAX,
    ensures
        stands_for(
            n,
            sized(operator_code(n, k, s.kind, s.last, n.code_offset(s.offset)), size),
            k as int,
            s,
            size as int,
        ),
{
    let pc = n.code_offset(s.offset);
    let code = sized(operator_code(n, k, s.kind, s.last, pc), size);
    mark_tags(n, pc, size);
    footer_moves(n, size);
    match s.kind {
        OpKind::Call => {
            assert(code.drop_last() =~= sized(call_mark(n, pc), size));
        },
        OpKind::Return => {
            assert(code.drop_last() =~= sized(footer(n), size));
        },
        OpKind::ReturnCall(f) => {
            tail_call_leaves(n, pc, Instr::Call(n.renumbered_function(f)), size);
        },
        OpKind::ReturnCallIndirect { type_index, table_index } => {
            tail_call_leaves(n, pc, Instr::CallIndirect { type_index, table_index }, size);
        },
        OpKind::ReturnCallRef(t) => {
            tail_call_leaves(n, pc, Instr::CallRef(t), size);
        },
        OpKind::End => {
            if s.last {
                assert(code.drop_last() =~= sized(footer(n), size));
            } else {
                assert(code =~= seq![Instr::Op(k)]);
            }
        },
        OpKind::Other => {
            assert(code =~= seq![Instr::Op(k)]);
        },
    }
}

// ---------------------------------------------------------------------------
// Laws
// ---------------------------------------------------------------------------

/// Whether the code that `cut` gives operator `k` tells of the operator and stands
/// for it.
pub open spec fn is_right(
    c: Surroundings,
    body: BodyModel,
    plan: PlanModel,
    size: int,
    places: Seq<Location>,
    k: int,
    cut: Cut,
) -> bool {
    &&& 0 <= cut.at <= cut.op <= cut.end <= plan.code.len()
    &&& body.steps[k] is Some
    &&& announces(
        c,
        plan.code.subrange(cut.at, cut.op),
        body.steps[k]->0,
        plan.scratch_locals.len(),
        places,
        cut.places,
    )
    &&& stands_for(
        c.numbers,
        plan.code.subrange(cut.op, cut.end),
        k,
        body.steps[k]->0,
        size,
    )
}

/// Whether the code of one operator follows that of the one before, and the
/// places are numbered one after the other.
pub open spec fn follow(c: Surroundings, body: BodyModel, k: int, a: Cut, b: Cut) -> bool {
    &&& a.end == b.at
    &&& b.places == a.places + if is_known(c.known, place_of(c.numbers, body.steps[k]->0)) {
        1int
    } else {
        0
    }
}

proof fn cut_is_right(
    c: Surroundings,
    body: BodyModel,
    q: ProgressModel,
    size: usize,
    k: int,
    cut: Cut,
)
    requires
        size <= i32::MAX,
        0 <= k < body.steps.len(),
        cut_holds(c, body.steps, k, q, cut),
    ensures
        is_right(
            c,
            body,
            PlanModel { code: sized(q.draft.code, size), scratch_locals: q.draft.scratch },
            size as int,
            q.locations,
            k,
            cut,
        ),
{
    let n = c.numbers;
    let s = body.steps[k]->0;
    sized_parts(q.draft.code, size, cut.at, cut.op);
    sized_parts(q.draft.code, size, cut.op, cut.end);
    let before = q.draft.code.subrange(cut.at, cut.op);
    assert(sized(before, size) =~= before);
    operators_stand(n, k as usize, s, size);
    known_place(c, s);
}

proof fn known_place(c: Surroundings, s: StepModel)
    ensures
        c.numbers.code_offset(s.offset) == place_of(c.numbers, s),
        is_known(c.known, place_of(c.numbers, s)) <==> location_at(
            c.known,
            place_of(c.numbers, s),
        ) is Some,
        location_at(c.known, place_of(c.numbers, s)) matches Some(l) ==> l.address.0 == place_of(
            c.numbers,
            s,
        ).0 && c.known.contains(l),
{
    place_is_first(c.known, place_of(c.numbers, s));
}

/// An instrumented function does what it did before, and tells of it. It first
/// lowers the debug stack pointer by the size of its frame. Then come its
/// operators, each once and in their order: the debugger is told of the operator
/// where the debug information knows its place, by a number of its own, and then
/// comes what stands for the operator. Nothing else is in the code.
pub proof fn instrumented_functions_keep_their_operators(
    c: Surroundings,
    body: BodyModel,
    func: FunctionModel,
    locations: Seq<Location>,
) -> (cuts: Seq<Cut>)
    requires
        function_planned(c, body, func, locations) is Ok,
    ensures
        ({
            let (plan, after, places) = function_planned(c, body, func, locations)->Ok_0;
            let start = if cuts.len() > 0 {
                cuts[0].at
            } else {
                plan.code.len() as int
            };
            &&& body.ends_well
            &&& cuts.len() == body.steps.len()
            &&& 0 <= start <= plan.code.len()
            &&& moves_pointer(c.numbers, plan.code.take(start), -after.size)
            &&& locations.is_prefix_of(places)
            &&& cuts.len() > 0 ==> cuts.last().end == plan.code.len() && cuts[0].places
                == locations.len()
            &&& forall|k: int|
                0 <= k < cuts.len() - 1 ==> follow(c, body, k, #[trigger] cuts[k], cuts[k + 1])
            &&& forall|k: int|
                0 <= k < cuts.len() ==> is_right(
                    c,
                    body,
                    plan,
                    after.size as int,
                    places,
                    k,
                    #[trigger] cuts[k],
                )
        }),
{
    let n = c.numbers;
    let start = ProgressModel {
        draft: DraftModel { code: header(n), func: func.cleared(), scratch: seq![] },
        locations,
    };
    let cuts = code_is_cut(c, body.steps, 0, start);
    let q = operators_planned(c, body.steps, 0, start)->Ok_0;
    let (plan, after, places) = function_planned(c, body, func, locations)->Ok_0;
    let size = after.size;
    instrumented_frames_are_well_laid_out(c, body, func, locations);
    assert(moves_pointer(n, plan.code.take(header(n).len() as int), -size)) by {
        footer_moves(n, size);
        sized_parts(q.draft.code, size, 0, header(n).len() as int);
        assert(q.draft.code.subrange(0, header(n).len() as int) =~= header(n));
        assert(plan.code.take(header(n).len() as int) =~= sized(header(n), size));
    }
    assert forall|k: int| 0 <= k < cuts.len() implies is_right(
        c,
        body,
        plan,
        size as int,
        places,
        k,
        #[trigger] cuts[k],
    ) by {
        assert(cut_holds(c, body.steps, 0 + k, q, cuts[k]));
        cut_is_right(c, body, q, size, k, cuts[k]);
    }
    assert forall|k: int| 0 <= k < cuts.len() - 1 implies follow(
        c,
        body,
        k,
        #[trigger] cuts[k],
        cuts[k + 1],
    ) by {
        assert(cut_holds(c, body.steps, 0 + k, q, cuts[k]));
        known_place(c, body.steps[k]->0);
        assert(cuts[k + 1].places == cuts[k].places + known_at(c, body.steps[0 + k]));
    }
    cuts
}

/// Whether an operator leaves the function.
pub open spec fn leaves(s: StepModel) -> bool {
    match s.kind {
        OpKind::Return => true,
        OpKind::ReturnCall(_) => true,
        OpKind::ReturnCallIndirect { .. } => true,
        OpKind::ReturnCallRef(_) => true,
        OpKind::End => s.last,
        _ => false,
    }
}

/// Every way out of an instrumented function gives the frame back: the code that
/// stands for an operator that leaves the function ends in an instruction that
/// leaves it, and what comes right before raises the debug stack pointer by
/// exactly what it was lowered by on entry, so that it stands where the caller
/// left it.
pub proof fn every_way_out_gives_the_frame_back(
    c: Surroundings,
    body: BodyModel,
    func: FunctionModel,
    locations: Seq<Location>,
    k: int,
) -> (r: (int, int, int))
    requires
        function_planned(c, body, func, locations) is Ok,
        0 <= k < body.steps.len(),
        leaves(body.steps[k]->0),
    ensures
        ({
            let (plan, after, _) = function_planned(c, body, func, locations)->Ok_0;
            let (entered, from, out) = r;
            &&& 0 <= entered <= from <= out < plan.code.len()
            &&& moves_pointer(c.numbers, plan.code.take(entered), -after.size)
            &&& moves_pointer(c.numbers, plan.code.subrange(from, out), after.size as int)
            &&& plan.code[out] == if body.steps[k]->0.kind is End {
                Instr::Op(k as usize)
            } else {
                Instr::Return
            }
        }),
{
    let cuts = instrumented_functions_keep_their_operators(c, body, func, locations);
    let (plan, after, places) = function_planned(c, body, func, locations)->Ok_0;
    instrumented_frames_are_well_laid_out(c, body, func, locations);
    let cut = cuts[k];
    let size = after.size as int;
    assert(is_right(c, body, plan, size, places, k, cut));
    assert forall|j: int| 0 <= j < cuts.len() implies (#[trigger] cuts[j]).at <= cuts[j].op
        <= cuts[j].end by {
        assert(is_right(c, body, plan, size, places, j, cuts[j]));
    }
    assert forall|j: int| 0 <= j < cuts.len() - 1 implies (#[trigger] cuts[j]).end == cuts[j
        + 1].at by {
        assert(follow(c, body, j, cuts[j], cuts[j + 1]));
    }
    cuts_follow(cuts, k);
    let (from, out) = way_out(c.numbers, plan.code, cut.op, cut.end, k, body.steps[k]->0, size);
    (cuts[0].at, from, out)
}

/// Where the code of an operator that leaves the function gives the frame back.
proof fn way_out(
    n: Numbering,
    all: Seq<Instr>,
    op: int,
    end: int,
    k: int,
    s: StepModel,
    size: int,
) -> (r: (int, int))
    requires
        0 <= op <= end <= all.len(),
        leaves(s),
        stands_for(n, all.subrange(op, end), k, s, size),
    ensures
        op <= r.0 <= r.1 < end,
        moves_pointer(n, all.subrange(r.0, r.1), size),
        all[r.1] == if s.kind is End {
            Instr::Op(k as usize)
        } else {
            Instr::Return
        },
{
    let code = all.subrange(op, end);
    assert(end > op && all[end - 1] == code.last());
    if s.kind is Return || s.kind is End {
        assert(all.subrange(op, end - 1) =~= code.drop_last());
        (op, end - 1)
    } else {
        let j = choose|j: int|
            {
                &&& 0 <= j < code.len() - 1
                &&& moves_pointer(n, #[trigger] code.subrange(j + 1, code.len() - 1), size)
            };
        tail_call_gives_back(n, code, k, s, size);
        assert(all.subrange(op + j + 1, end - 1) =~= code.subrange(j + 1, code.len() - 1));
        (op + j + 1, end - 1)
    }
}

proof fn tail_call_gives_back(n: Numbering, code: Seq<Instr>, k: int, s: StepModel, size: int)
    requires
        leaves(s),
        !(s.kind is Return) && !(s.kind is End),
        stands_for(n, code, k, s, size),
    ensures
        code.len() > 0,
        code.last() == Instr::Return,
        exists|j: int|
            {
                &&& 0 <= j < code.len() - 1
                &&& moves_pointer(n, #[trigger] code.subrange(j + 1, code.len() - 1), size)
            },
{
}

proof fn cuts_follow(cuts: Seq<Cut>, k: int)
    requires
        0 <= k < cuts.len(),
        forall|j: int| 0 <= j < cuts.len() ==> (#[trigger] cuts[j]).at <= cuts[j].op <= cuts[j].end,
        forall|j: int| 0 <= j < cuts.len() - 1 ==> (#[trigger] cuts[j]).end == cuts[j + 1].at,
    ensures
        cuts[0].at <= cuts[k].at,
    decreases k,
{
    if k > 0 {
        cuts_follow(cuts, k - 1);
        assert(cuts[k - 1].end == cuts[k].at);
    }
}

} // verus!
