//! Instrumenting the code of one function.
use vstd::prelude::*;
use wasmparser::ValType;

use crate::debug::dwarf::die::entry_named;
use crate::debug::dwarf::unit::{Location, UnitView};
use crate::debug::dwarf::Dwarf;
use crate::error::DebugError;
use crate::types::{CodeOffset, DebugFunction, FunctionModel,
    WasmLocation, frames_stay_well_laid_out};
use crate::wasm::reader::{BodyCursor, BodyModel, OpKind, StepModel, ValueKind, check_op,
    current_step, ends_well, finish_body, global_type, global_types, kind_of, local_count,
    local_type, local_types, next_op, op_kind, operand_height, operand_type, same_value_type,
    step_unchecked, steps_left, value_kind};
use super::encoder::{Breakpoints, Numbering, location_at};
use super::locations::{LocationsModel, WasmLocations, locations_at, needed_locations};

verus! {

broadcast use vstd::seq_lib::group_seq_properties;

/// The memory that holds the debug stack.
pub const STACK_MEMORY: u32 = 1;

/// The greatest frame that another value is saved in: frame sizes are written
/// as signed 32-bit constants.
pub const MAX_FRAME_BYTES: usize = 0x7fff_fff0;

/// An instruction of an instrumented function.
#[derive(Debug, Clone, Copy, PartialEq, Eq, Structural)]
pub enum Instr {
    LocalGet(u32),
    LocalSet(u32),
    GlobalGet(u32),
    GlobalSet(u32),
    I32Const(i32),
    I32Add,
    I32Sub,
    /// Stores a value of this kind.
    Store { kind: ValueKind, offset: u64, memory: u32 },
    Call(u32),
    CallIndirect { type_index: u32, table_index: u32 },
    CallRef(u32),
    Return,
    /// The operator of the function that has this number, with its indices
    /// renumbered.
    Op(usize),
    /// The size of the function's frame. It stands for a constant while the
    /// frame still grows.
    FrameSize,
}

/// An instrumented function.
#[derive(Debug)]
pub struct FunctionPlan {
    pub code: Vec<Instr>,
    /// The types of the locals that follow the function's own.
    pub scratch_locals: Vec<ValType>,
}

/// The mathematical value of a [`FunctionPlan`].
pub struct PlanModel {
    pub code: Seq<Instr>,
    pub scratch_locals: Seq<ValType>,
}

impl View for FunctionPlan {
    type V = PlanModel;

    open spec fn view(&self) -> PlanModel {
        PlanModel { code: self.code@, scratch_locals: self.scratch_locals@ }
    }
}

// ---------------------------------------------------------------------------
// The instructions that are put in
// ---------------------------------------------------------------------------

/// What has been written of an instrumented function.
pub struct DraftModel {
    pub code: Seq<Instr>,
    pub func: FunctionModel,
    pub scratch: Seq<ValType>,
}

/// On entry the frame is taken off the debug stack pointer.
pub open spec fn header(n: Numbering) -> Seq<Instr> {
    seq![
        Instr::GlobalGet(n.sp()),
        Instr::FrameSize,
        Instr::I32Sub,
        Instr::GlobalSet(n.sp()),
    ]
}

/// On the way out the debug stack pointer is put back.
pub open spec fn footer(n: Numbering) -> Seq<Instr> {
    seq![
        Instr::GlobalGet(n.sp()),
        Instr::FrameSize,
        Instr::I32Add,
        Instr::GlobalSet(n.sp()),
    ]
}

/// The store of a value of this kind into the frame.
pub open spec fn store(kind: ValueKind, offset: usize) -> Instr {
    Instr::Store { kind, offset: offset as u64, memory: STACK_MEMORY }
}

/// Before a call the frame's tag is set to where the call stands.
pub open spec fn call_mark(n: Numbering, pc: CodeOffset) -> Seq<Instr> {
    seq![Instr::GlobalGet(n.sp()), Instr::I32Const(pc.0 as i32), store(ValueKind::I32, 0)]
}

/// Saves a value that the instruction `load` gives. Memory cannot hold
/// references.
pub open spec fn value_saved(
    d: DraftModel,
    n: Numbering,
    location: WasmLocation,
    load: Instr,
    ty: ValType,
) -> Result<DraftModel, DebugError> {
    if d.func.size > MAX_FRAME_BYTES {
        Err(DebugError::OutOfRange)
    } else if kind_of(ty) is Ref {
        Err(DebugError::Unsupported)
    } else {
        Ok(
            DraftModel {
                code: d.code + seq![
                    Instr::GlobalGet(n.sp()),
                    load,
                    store(kind_of(ty), d.func.offset_for(location)),
                ],
                func: d.func.with_entry(location),
                ..d
            },
        )
    }
}

/// The first scratch local from `from` on that has the type `ty` and is not
/// among those `taken`; the number of scratch locals where there is none.
pub open spec fn free_scratch(
    scratch: Seq<ValType>,
    taken: Seq<usize>,
    ty: ValType,
    from: int,
) -> int
    decreases scratch.len() - from,
{
    if from >= scratch.len() {
        scratch.len() as int
    } else if scratch[from] == ty && !taken.contains(from as usize) {
        from
    } else {
        free_scratch(scratch, taken, ty, from + 1)
    }
}

/// Takes the operands from the top of the stack down to `first` into scratch
/// locals, and saves those that are wanted. `idx` operands are left on the
/// stack; `taken` are the scratch locals that hold the others, from the top.
pub open spec fn unrolled(
    n: Numbering,
    nlocals: u32,
    types: Seq<Option<ValType>>,
    wanted: Seq<usize>,
    first: int,
    idx: int,
    d: DraftModel,
    taken: Seq<usize>,
) -> Result<(DraftModel, Seq<usize>), DebugError>
    decreases idx - first,
{
    if idx <= first {
        Ok((d, taken))
    } else {
        match types[idx - 1] {
            None => Err(DebugError::Unsupported),
            Some(ty) => {
                let s = free_scratch(d.scratch, taken, ty, 0);
                if s + nlocals > u32::MAX {
                    Err(DebugError::OutOfRange)
                } else {
                    let local = (s + nlocals) as u32;
                    let popped = DraftModel {
                        code: d.code.push(Instr::LocalSet(local)),
                        scratch: if s < d.scratch.len() {
                            d.scratch
                        } else {
                            d.scratch.push(ty)
                        },
                        ..d
                    };
                    let saved = if wanted.contains((idx - 1) as usize) {
                        value_saved(
                            popped,
                            n,
                            WasmLocation::Operand((idx - 1) as usize),
                            Instr::LocalGet(local),
                            ty,
                        )
                    } else {
                        Ok(popped)
                    };
                    match saved {
                        Ok(d) => unrolled(
                            n,
                            nlocals,
                            types,
                            wanted,
                            first,
                            idx - 1,
                            d,
                            taken.push(s as usize),
                        ),
                        Err(e) => Err(e),
                    }
                }
            },
        }
    }
}

/// Puts the operands back, the bottom-most first.
pub open spec fn rerolled(nlocals: u32, taken: Seq<usize>) -> Seq<Instr> {
    Seq::new(
        taken.len(),
        |i: int| Instr::LocalGet((taken[taken.len() - 1 - i] + nlocals) as u32),
    )
}

/// Saves the operands that are wanted.
pub open spec fn operands_saved(
    n: Numbering,
    nlocals: u32,
    types: Seq<Option<ValType>>,
    wanted: Seq<usize>,
    d: DraftModel,
) -> Result<DraftModel, DebugError> {
    if wanted.len() == 0 {
        Ok(d)
    } else if wanted[0] >= types.len() || wanted.last() >= types.len() {
        Err(DebugError::OutOfRange)
    } else {
        match unrolled(
            n,
            nlocals,
            types,
            wanted,
            wanted[0] as int,
            types.len() as int,
            d,
            seq![],
        ) {
            Ok((d, taken)) => Ok(DraftModel { code: d.code + rerolled(nlocals, taken), ..d }),
            Err(e) => Err(e),
        }
    }
}

/// Saves the locals that are wanted.
pub open spec fn locals_saved(
    n: Numbering,
    types: Seq<ValType>,
    wanted: Seq<usize>,
    d: DraftModel,
) -> Result<DraftModel, DebugError>
    decreases wanted.len(),
{
    if wanted.len() == 0 {
        Ok(d)
    } else {
        let i = wanted.last();
        match locals_saved(n, types, wanted.drop_last(), d) {
            Ok(d) => if i >= types.len() {
                Err(DebugError::OutOfRange)
            } else {
                value_saved(
                    d,
                    n,
                    WasmLocation::Local(i),
                    Instr::LocalGet(i as u32),
                    types[i as int],
                )
            },
            Err(e) => Err(e),
        }
    }
}

/// Saves the globals that are wanted.
pub open spec fn globals_saved(
    n: Numbering,
    types: Seq<ValType>,
    wanted: Seq<usize>,
    d: DraftModel,
) -> Result<DraftModel, DebugError>
    decreases wanted.len(),
{
    if wanted.len() == 0 {
        Ok(d)
    } else {
        let i = wanted.last();
        match globals_saved(n, types, wanted.drop_last(), d) {
            Ok(d) => if i > u32::MAX || i >= types.len() {
                Err(DebugError::OutOfRange)
            } else {
                value_saved(
                    d,
                    n,
                    WasmLocation::Global(i),
                    Instr::GlobalGet(n.renumbered_global(i as u32)),
                    types[i as int],
                )
            },
            Err(e) => Err(e),
        }
    }
}

/// Saves the values that are needed, and calls the breakpoint function.
pub open spec fn breakpoint_code(
    n: Numbering,
    locals: Seq<ValType>,
    globals: Seq<ValType>,
    types: Seq<Option<ValType>>,
    needed: LocationsModel,
    index: usize,
    d: DraftModel,
) -> Result<DraftModel, DebugError> {
    match operands_saved(n, locals.len() as u32, types, needed.operands, d) {
        Err(e) => Err(e),
        Ok(d) => match locals_saved(n, locals, needed.locals, d) {
            Err(e) => Err(e),
            Ok(d) => match globals_saved(n, globals, needed.globals, d) {
                Err(e) => Err(e),
                Ok(d) => Ok(
                    DraftModel {
                        code: d.code + seq![
                            Instr::I32Const(index as i32),
                            Instr::Call(n.bkpt()),
                        ],
                        ..d
                    },
                ),
            },
        },
    }
}

/// What operator `k` of the function becomes. A tail call becomes a call
/// followed by a return, so that the frame is still there during the call.
pub open spec fn operator_code(n: Numbering, k: usize, kind: OpKind, last: bool, pc: CodeOffset) -> Seq<
    Instr,
> {
    match kind {
        OpKind::Call => call_mark(n, pc).push(Instr::Op(k)),
        OpKind::Return => footer(n).push(Instr::Return),
        OpKind::ReturnCall(f) => call_mark(n, pc).push(Instr::Call(n.renumbered_function(f)))
            + footer(n).push(Instr::Return),
        OpKind::ReturnCallIndirect { type_index, table_index } => call_mark(n, pc).push(
            Instr::CallIndirect { type_index, table_index },
        ) + footer(n).push(Instr::Return),
        OpKind::ReturnCallRef(t) => call_mark(n, pc).push(Instr::CallRef(t)) + footer(n).push(
            Instr::Return,
        ),
        OpKind::End => if last {
            footer(n).push(Instr::Op(k))
        } else {
            seq![Instr::Op(k)]
        },
        OpKind::Other => seq![Instr::Op(k)],
    }
}

// ---------------------------------------------------------------------------
// The whole function
// ---------------------------------------------------------------------------

/// What a function is instrumented with.
pub struct Surroundings {
    pub numbers: Numbering,
    pub units: Seq<UnitView>,
    /// The places that the debug information knows.
    pub known: Seq<Location>,
    pub locals: Seq<ValType>,
    pub globals: Seq<ValType>,
}

/// What has been written, and the places that breakpoints can be set at.
pub struct ProgressModel {
    pub draft: DraftModel,
    pub locations: Seq<Location>,
}

/// What comes before operator `s`: the code of a breakpoint, where the debug
/// information knows the place.
pub open spec fn before_operator(c: Surroundings, s: StepModel, p: ProgressModel) -> Result<
    ProgressModel,
    DebugError,
> {
    let pc = c.numbers.code_offset(s.offset);
    match location_at(c.known, pc) {
        None => Ok(p),
        Some(l) => match entry_named(c.units, p.draft.func.die_ref) {
            Err(e) => Err(e),
            Ok((u, i)) => match needed_locations(c.units[u], i, pc.0) {
                Err(e) => Err(e),
                Ok(needed) => match breakpoint_code(
                    c.numbers,
                    c.locals,
                    c.globals,
                    s.operands,
                    needed,
                    p.locations.len() as usize,
                    p.draft,
                ) {
                    Err(e) => Err(e),
                    Ok(draft) => Ok(ProgressModel { draft, locations: p.locations.push(l) }),
                },
            },
        },
    }
}

/// What the operators from `k` on become.
pub open spec fn operators_planned(
    c: Surroundings,
    steps: Seq<Option<StepModel>>,
    k: int,
    p: ProgressModel,
) -> Result<ProgressModel, DebugError>
    decreases steps.len() - k,
{
    if k >= steps.len() {
        Ok(p)
    } else {
        match steps[k] {
            None => Err(DebugError::Malformed),
            Some(_) if k >= usize::MAX => Err(DebugError::OutOfRange),
            Some(s) => match before_operator(c, s, p) {
                Err(e) => Err(e),
                Ok(p) => if !s.accepted {
                    Err(DebugError::Malformed)
                } else {
                    let code = p.draft.code + operator_code(
                        c.numbers,
                        k as usize,
                        s.kind,
                        s.last,
                        c.numbers.code_offset(s.offset),
                    );
                    operators_planned(
                        c,
                        steps,
                        k + 1,
                        ProgressModel { draft: DraftModel { code, ..p.draft }, ..p },
                    )
                },
            },
        }
    }
}

/// Code with the size of the frame put in.
pub open spec fn sized(code: Seq<Instr>, size: usize) -> Seq<Instr> {
    code.map_values(
        |i: Instr|
            if i is FrameSize {
                Instr::I32Const(size as i32)
            } else {
                i
            },
    )
}

/// The instrumented function, its frame, and the places that breakpoints can
/// be set at.
pub open spec fn function_planned(
    c: Surroundings,
    body: BodyModel,
    func: FunctionModel,
    locations: Seq<Location>,
) -> Result<(PlanModel, FunctionModel, Seq<Location>), DebugError> {
    let start = ProgressModel {
        draft: DraftModel { code: header(c.numbers), func: func.cleared(), scratch: seq![] },
        locations,
    };
    match operators_planned(c, body.steps, 0, start) {
        Err(e) => Err(e),
        Ok(p) => if body.ends_well {
            Ok(
                (
                    PlanModel {
                        code: sized(p.draft.code, p.draft.func.size),
                        scratch_locals: p.draft.scratch,
                    },
                    p.draft.func,
                    p.locations,
                ),
            )
        } else {
            Err(DebugError::Malformed)
        },
    }
}

// ---------------------------------------------------------------------------
// Writing the function
// ---------------------------------------------------------------------------

/// What has been written of an instrumented function.
struct Draft {
    code: Vec<Instr>,
    func: DebugFunction,
    scratch: Vec<ValType>,
}

impl View for Draft {
    type V = DraftModel;

    closed spec fn view(&self) -> DraftModel {
        DraftModel { code: self.code@, func: self.func@, scratch: self.scratch@ }
    }
}

/// Whether `x` is among `s`.
fn has_index(s: &Vec<usize>, x: usize) -> (r: bool)
    ensures
        r == s@.contains(x),
{
    let mut i: usize = 0;
    while i < s.len()
        invariant
            i <= s@.len(),
            forall|k: int| 0 <= k < i ==> s@[k] != x,
        decreases s@.len() - i,
    {
        if s[i] == x {
            return true;
        }
        i = i + 1;
    }
    false
}

/// The value of a result of writing.
spec fn draft_result(r: Result<(), DebugError>, d: DraftModel) -> Result<DraftModel, DebugError> {
    match r {
        Ok(_) => Ok(d),
        Err(e) => Err(e),
    }
}

impl Draft {
    fn emit_header(&mut self, n: Numbering)
        ensures
            final(self)@ == (DraftModel { code: old(self)@.code + header(n), ..old(self)@ }),
    {
        self.code.push(Instr::GlobalGet(n.sp_gl_index()));
        self.code.push(Instr::FrameSize);
        self.code.push(Instr::I32Sub);
        self.code.push(Instr::GlobalSet(n.sp_gl_index()));
        assert(self.code@ =~= old(self).code@ + header(n));
    }

    fn emit_footer(&mut self, n: Numbering)
        ensures
            final(self)@ == (DraftModel { code: old(self)@.code + footer(n), ..old(self)@ }),
    {
        self.code.push(Instr::GlobalGet(n.sp_gl_index()));
        self.code.push(Instr::FrameSize);
        self.code.push(Instr::I32Add);
        self.code.push(Instr::GlobalSet(n.sp_gl_index()));
        assert(self.code@ =~= old(self).code@ + footer(n));
    }

    fn emit_return(&mut self, n: Numbering)
        ensures
            final(self)@ == (DraftModel {
                code: old(self)@.code + footer(n).push(Instr::Return),
                ..old(self)@
            }),
    {
        self.emit_footer(n);
        self.code.push(Instr::Return);
        assert(self.code@ =~= old(self).code@ + footer(n).push(Instr::Return));
    }

    fn emit_call(&mut self, n: Numbering, pc: CodeOffset, call: Instr)
        ensures
            final(self)@ == (DraftModel {
                code: old(self)@.code + call_mark(n, pc).push(call),
                ..old(self)@
            }),
    {
        self.code.push(Instr::GlobalGet(n.sp_gl_index()));
        self.code.push(Instr::I32Const(pc.0 as i32));
        self.emit_store(ValueKind::I32, 0);
        self.code.push(call);
        assert(self.code@ =~= old(self).code@ + call_mark(n, pc).push(call));
    }

    fn emit_store(&mut self, kind: ValueKind, offset: usize)
        ensures
            final(self)@ == (DraftModel {
                code: old(self)@.code.push(store(kind, offset)),
                ..old(self)@
            }),
    {
        self.code.push(Instr::Store { kind, offset: offset as u64, memory: STACK_MEMORY });
    }

    fn emit_saved(&mut self, n: Numbering, location: WasmLocation, load: Instr, ty: ValType) -> (r:
        Result<(), DebugError>)
        ensures
            draft_result(r, final(self)@) == value_saved(old(self)@, n, location, load, ty),
    {
        if self.func.size > MAX_FRAME_BYTES {
            return Err(DebugError::OutOfRange);
        }
        let kind = value_kind(ty);
        if kind == ValueKind::Ref {
            return Err(DebugError::Unsupported);
        }
        let offset: usize = self.func.place(location);
        self.code.push(Instr::GlobalGet(n.sp_gl_index()));
        self.code.push(load);
        self.emit_store(kind, offset);
        assert(self.code@ =~= old(self).code@ + seq![
            Instr::GlobalGet(n.sp()),
            load,
            store(kind, offset),
        ]);
        Ok(())
    }

    /// The scratch local that an operand of the type `ty` goes to.
    fn scratch_for(&mut self, taken: &Vec<usize>, ty: ValType) -> (r: usize)
        ensures
            r == free_scratch(old(self)@.scratch, taken@, ty, 0),
            final(self)@ == (DraftModel {
                scratch: if r < old(self)@.scratch.len() {
                    old(self)@.scratch
                } else {
                    old(self)@.scratch.push(ty)
                },
                ..old(self)@
            }),
    {
        let mut i: usize = 0;
        while i < self.scratch.len()
            invariant
                *self == *old(self),
                i <= self.scratch@.len(),
                free_scratch(self.scratch@, taken@, ty, 0) == free_scratch(
                    self.scratch@,
                    taken@,
                    ty,
                    i as int,
                ),
            decreases self.scratch@.len() - i,
        {
            if same_value_type(self.scratch[i], ty) && !has_index(taken, i) {
                return i;
            }
            i = i + 1;
        }
        self.scratch.push(ty);
        i
    }

    /// Emits instrumentation code to recover the operands `wanted`.
    ///
    /// The basic strategy is:
    ///     - Pop all values off of the operand stack, storing each in a scratch local variable
    ///     - If the popped value is one of the values we care about, then store it into the debug stack.
    ///     - Push all values stored in scratch locals back onto the operand stack.
    ///
    /// Note that this approach will be underperformant for large stack sizes.
    fn emit_operands(
        &mut self,
        n: Numbering,
        cursor: &BodyCursor<'_>,
        wanted: &Vec<usize>,
    ) -> (r: Result<(), DebugError>)
        requires
            step_unchecked(*cursor),
        ensures
            draft_result(r, final(self)@) == operands_saved(
                n,
                local_types(*cursor).len() as u32,
                current_step(*cursor).operands,
                wanted@,
                old(self)@,
            ),
    {
        if wanted.len() == 0 {
            return Ok(());
        }
        let first: usize = wanted[0];
        let last: usize = wanted[wanted.len() - 1];
        let height: usize = operand_height(cursor);
        if first >= height || last >= height {
            return Err(DebugError::OutOfRange);
        }
        let nlocals: u32 = local_count(cursor);
        let ghost types = current_step(*cursor).operands;
        let ghost start = self@;
        let mut taken: Vec<usize> = Vec::new();
        let mut idx: usize = height;
        assert(taken@ =~= seq![]);
        while idx > first
            invariant
                first <= idx <= height,
                height == types.len(),
                step_unchecked(*cursor),
                types == current_step(*cursor).operands,
                nlocals == local_types(*cursor).len(),
                unrolled(n, nlocals, types, wanted@, first as int, height as int, start, seq![])
                    == unrolled(
                    n,
                    nlocals,
                    types,
                    wanted@,
                    first as int,
                    idx as int,
                    self@,
                    taken@,
                ),
                wanted@.len() > 0,
                first == wanted@[0],
                wanted@.last() < types.len(),
                first < types.len(),
                start == old(self)@,
            decreases idx - first,
        {
            idx = idx - 1;
            let ty = match operand_type(cursor, height - idx - 1) {
                Some(Some(ty)) => ty,
                _ => {
                    return Err(DebugError::Unsupported);
                },
            };
            assert(types[idx as int] == Some(ty));
            let scratch: usize = self.scratch_for(&taken, ty);
            if scratch > (u32::MAX - nlocals) as usize {
                return Err(DebugError::OutOfRange);
            }
            let local: u32 = scratch as u32 + nlocals;
            self.code.push(Instr::LocalSet(local));
            if has_index(wanted, idx) {
                match self.emit_saved(n, WasmLocation::Operand(idx), Instr::LocalGet(local), ty) {
                    Ok(_) => {},
                    Err(e) => {
                        return Err(e);
                    },
                }
            }
            taken.push(scratch);
        }
        let ghost unrolled_code = self.code@;
        let ghost unrolled_draft = self@;
        proof {
            taken_fit(n, nlocals, types, wanted@, first as int, height as int, start, seq![]);
        }
        let mut left: usize = taken.len();
        let len: usize = taken.len();
        while left > 0
            invariant
                left <= len == taken@.len(),
                forall|k: int| 0 <= k < taken@.len() ==> (#[trigger] taken@[k]) + nlocals <= u32::MAX,
                self@ == (DraftModel {
                    code: unrolled_code + rerolled(nlocals, taken@).take(len - left),
                    ..unrolled_draft
                }),
            decreases left,
        {
            left = left - 1;
            let ghost before = self.code@;
            self.code.push(Instr::LocalGet(taken[left] as u32 + nlocals));
            assert(self.code@ =~= unrolled_code + rerolled(nlocals, taken@).take(len - left)) by {
                assert(rerolled(nlocals, taken@).take(len - left) =~= rerolled(
                    nlocals,
                    taken@,
                ).take(len - left - 1).push(rerolled(nlocals, taken@)[len - left - 1]));
            }
        }
        assert(rerolled(nlocals, taken@).take(len as int) =~= rerolled(nlocals, taken@));
        Ok(())
    }

    fn emit_locals(&mut self, n: Numbering, cursor: &BodyCursor<'_>, wanted: &Vec<usize>) -> (r:
        Result<(), DebugError>)
        ensures
            draft_result(r, final(self)@) == locals_saved(
                n,
                local_types(*cursor),
                wanted@,
                old(self)@,
            ),
    {
        let ghost all = wanted@;
        let ghost types = local_types(*cursor);
        let count: u32 = local_count(cursor);
        let mut i: usize = 0;
        assert(all.take(0) =~= seq![]);
        while i < wanted.len()
            invariant
                all == wanted@,
                i <= all.len(),
                types == local_types(*cursor),
                count == types.len(),
                locals_saved(n, types, all.take(i as int), old(self)@) == Ok::<
                    DraftModel,
                    DebugError,
                >(self@),
            decreases all.len() - i,
        {
            assert(all.take(i + 1).drop_last() =~= all.take(i as int));
            assert(all.take(i + 1).last() == all[i as int]);
            let local: usize = wanted[i];
            i = i + 1;
            let ty = if local < count as usize {
                local_type(cursor, local as u32)
            } else {
                None
            };
            let r = match ty {
                Some(ty) => self.emit_saved(
                    n,
                    WasmLocation::Local(local),
                    Instr::LocalGet(local as u32),
                    ty,
                ),
                None => Err(DebugError::OutOfRange),
            };
            if let Err(e) = r {
                proof {
                    locals_error_stays(n, types, all, old(self)@, i as int);
                }
                return Err(e);
            }
        }
        assert(all.take(all.len() as int) =~= all);
        Ok(())
    }

    fn emit_globals(&mut self, n: Numbering, cursor: &BodyCursor<'_>, wanted: &Vec<usize>) -> (r:
        Result<(), DebugError>)
        ensures
            draft_result(r, final(self)@) == globals_saved(
                n,
                global_types(*cursor),
                wanted@,
                old(self)@,
            ),
    {
        let ghost all = wanted@;
        let ghost types = global_types(*cursor);
        let mut i: usize = 0;
        assert(all.take(0) =~= seq![]);
        while i < wanted.len()
            invariant
                all == wanted@,
                i <= all.len(),
                types == global_types(*cursor),
                globals_saved(n, types, all.take(i as int), old(self)@) == Ok::<
                    DraftModel,
                    DebugError,
                >(self@),
            decreases all.len() - i,
        {
            assert(all.take(i + 1).drop_last() =~= all.take(i as int));
            assert(all.take(i + 1).last() == all[i as int]);
            let global: usize = wanted[i];
            i = i + 1;
            let ty = if global <= u32::MAX as usize {
                global_type(cursor, global as u32)
            } else {
                None
            };
            let r = match ty {
                Some(ty) => self.emit_saved(
                    n,
                    WasmLocation::Global(global),
                    Instr::GlobalGet(n.global_index(global as u32)),
                    ty,
                ),
                None => Err(DebugError::OutOfRange),
            };
            if let Err(e) = r {
                proof {
                    globals_error_stays(n, types, all, old(self)@, i as int);
                }
                return Err(e);
            }
        }
        assert(all.take(all.len() as int) =~= all);
        Ok(())
    }

    /// Emits the code of breakpoint `index`.
    ///
    /// All instrumentation code must have no observable side effects.
    /// In particular, all values of locals must be preserved and the
    /// state of the operand stack must be preserved.
    fn emit_bkpt(
        &mut self,
        n: Numbering,
        cursor: &BodyCursor<'_>,
        locs: &WasmLocations,
        index: usize,
    ) -> (r: Result<(), DebugError>)
        requires
            step_unchecked(*cursor),
        ensures
            draft_result(r, final(self)@) == breakpoint_code(
                n,
                local_types(*cursor),
                global_types(*cursor),
                current_step(*cursor).operands,
                locs@,
                index,
                old(self)@,
            ),
    {
        match self.emit_operands(n, cursor, &locs.operands) {
            Ok(_) => {},
            Err(e) => {
                return Err(e);
            },
        }
        match self.emit_locals(n, cursor, &locs.locals) {
            Ok(_) => {},
            Err(e) => {
                return Err(e);
            },
        }
        match self.emit_globals(n, cursor, &locs.globals) {
            Ok(_) => {},
            Err(e) => {
                return Err(e);
            },
        }
        let ghost before = self.code@;
        self.code.push(Instr::I32Const(index as i32));
        self.code.push(Instr::Call(n.bkpt_fn_index()));
        assert(self.code@ =~= before + seq![
            Instr::I32Const(index as i32),
            Instr::Call(n.bkpt()),
        ]);
        Ok(())
    }

    /// Emits what operator `k` becomes.
    fn emit_operator(&mut self, n: Numbering, k: usize, kind: OpKind, last: bool, pc: CodeOffset)
        ensures
            final(self)@ == (DraftModel {
                code: old(self)@.code + operator_code(n, k, kind, last, pc),
                ..old(self)@
            }),
    {
        let ghost before = self.code@;
        match kind {
            OpKind::Call => {
                self.emit_call(n, pc, Instr::Op(k));
            },
            OpKind::Return => {
                self.emit_return(n);
            },
            OpKind::ReturnCall(f) => {
                self.emit_call(n, pc, Instr::Call(n.function_index(f)));
                self.emit_return(n);
            },
            OpKind::ReturnCallIndirect { type_index, table_index } => {
                self.emit_call(n, pc, Instr::CallIndirect { type_index, table_index });
                self.emit_return(n);
            },
            OpKind::ReturnCallRef(type_index) => {
                self.emit_call(n, pc, Instr::CallRef(type_index));
                self.emit_return(n);
            },
            OpKind::End => {
                if last {
                    self.emit_footer(n);
                }
                self.code.push(Instr::Op(k));
            },
            OpKind::Other => {
                self.code.push(Instr::Op(k));
            },
        }
        assert(self.code@ =~= before + operator_code(n, k, kind, last, pc));
    }
}

/// The scratch locals that operands are taken into can be numbered.
proof fn taken_fit(
    n: Numbering,
    nlocals: u32,
    types: Seq<Option<ValType>>,
    wanted: Seq<usize>,
    first: int,
    idx: int,
    d: DraftModel,
    taken: Seq<usize>,
)
    requires
        forall|k: int| 0 <= k < taken.len() ==> (#[trigger] taken[k]) + nlocals <= u32::MAX,
    ensures
        unrolled(n, nlocals, types, wanted, first, idx, d, taken) matches Ok((_, all))
            ==> forall|k: int| 0 <= k < all.len() ==> (#[trigger] all[k]) + nlocals <= u32::MAX,
    decreases idx - first,
{
    if idx > first {
        if let Some(ty) = types[idx - 1] {
            let s = free_scratch(d.scratch, taken, ty, 0);
            if s + nlocals <= u32::MAX {
                let local = (s + nlocals) as u32;
                let popped = DraftModel {
                    code: d.code.push(Instr::LocalSet(local)),
                    scratch: if s < d.scratch.len() {
                        d.scratch
                    } else {
                        d.scratch.push(ty)
                    },
                    ..d
                };
                let saved = if wanted.contains((idx - 1) as usize) {
                    value_saved(
                        popped,
                        n,
                        WasmLocation::Operand((idx - 1) as usize),
                        Instr::LocalGet(local),
                        ty,
                    )
                } else {
                    Ok(popped)
                };
                free_scratch_bounds(d.scratch, taken, ty, 0);
                if let Ok(d2) = saved {
                    taken_fit(
                        n,
                        nlocals,
                        types,
                        wanted,
                        first,
                        idx - 1,
                        d2,
                        taken.push(s as usize),
                    );
                }
            }
        }
    }
}

pub(super) proof fn free_scratch_bounds(
    scratch: Seq<ValType>,
    taken: Seq<usize>,
    ty: ValType,
    from: int,
)
    requires
        0 <= from <= scratch.len(),
    ensures
        from <= free_scratch(scratch, taken, ty, from) <= scratch.len(),
        free_scratch(scratch, taken, ty, from) < scratch.len() ==> {
            &&& scratch[free_scratch(scratch, taken, ty, from)] == ty
            &&& !taken.contains(free_scratch(scratch, taken, ty, from) as usize)
        },
    decreases scratch.len() - from,
{
    if from < scratch.len() && !(scratch[from] == ty && !taken.contains(from as usize)) {
        free_scratch_bounds(scratch, taken, ty, from + 1);
    }
}

proof fn locals_error_stays(
    n: Numbering,
    types: Seq<ValType>,
    wanted: Seq<usize>,
    d: DraftModel,
    k: int,
)
    requires
        0 <= k <= wanted.len(),
        locals_saved(n, types, wanted.take(k), d) is Err,
    ensures
        locals_saved(n, types, wanted, d) == locals_saved(n, types, wanted.take(k), d),
    decreases wanted.len() - k,
{
    if k < wanted.len() {
        assert(wanted.take(k + 1).drop_last() =~= wanted.take(k));
        locals_error_stays(n, types, wanted, d, k + 1);
    } else {
        assert(wanted.take(k) =~= wanted);
    }
}

proof fn globals_error_stays(
    n: Numbering,
    types: Seq<ValType>,
    wanted: Seq<usize>,
    d: DraftModel,
    k: int,
)
    requires
        0 <= k <= wanted.len(),
        globals_saved(n, types, wanted.take(k), d) is Err,
    ensures
        globals_saved(n, types, wanted, d) == globals_saved(n, types, wanted.take(k), d),
    decreases wanted.len() - k,
{
    if k < wanted.len() {
        assert(wanted.take(k + 1).drop_last() =~= wanted.take(k));
        globals_error_stays(n, types, wanted, d, k + 1);
    } else {
        assert(wanted.take(k) =~= wanted);
    }
}

/// Code with the size of the frame put in.
fn put_frame_size(code: &Vec<Instr>, size: usize) -> (r: Vec<Instr>)
    ensures
        r@ == sized(code@, size),
{
    let mut out: Vec<Instr> = Vec::new();
    let mut i: usize = 0;
    while i < code.len()
        invariant
            i <= code@.len(),
            out@ =~= sized(code@, size).take(i as int),
        decreases code@.len() - i,
    {
        let instr = match code[i] {
            Instr::FrameSize => Instr::I32Const(size as i32),
            other => other,
        };
        out.push(instr);
        i = i + 1;
        assert(sized(code@, size).take(i as int) =~= sized(code@, size).take(i - 1).push(
            sized(code@, size)[i - 1],
        ));
    }
    assert(sized(code@, size).take(code@.len() as int) =~= sized(code@, size));
    out
}

/// An instrumented function and its frame.
pub struct FunctionResult {
    pub plan: FunctionPlan,
    pub func: DebugFunction,
}

/// Instruments one function.
pub struct FnInstrumenter<'a, 'b> {
    pub numbers: Numbering,
    pub dwarf: &'a Dwarf,
    pub breakpoints: &'a Breakpoints,
    /// The operators of the function.
    pub body: BodyCursor<'b>,
}

impl<'a, 'b> FnInstrumenter<'a, 'b> {
    pub open spec fn surroundings(&self) -> Surroundings {
        Surroundings {
            numbers: self.numbers,
            units: self.dwarf@.units,
            known: self.breakpoints@,
            locals: local_types(self.body),
            globals: global_types(self.body),
        }
    }

    pub open spec fn body_model(&self) -> BodyModel {
        BodyModel {
            locals: local_types(self.body),
            globals: global_types(self.body),
            steps: steps_left(self.body),
            ends_well: ends_well(self.body),
        }
    }

    /// Whether the function's operators can be gone through from the first.
    pub open spec fn wf(&self) -> bool {
        self.breakpoints.wf() && !step_unchecked(self.body)
    }

    /// Emits the code of the breakpoint that stands before the operator that
    /// the body stands on, where the debug information knows the place.
    fn emit_before(&self, draft: &mut Draft, pc: CodeOffset, locations: &mut Vec<Location>) -> (r:
        Result<(), DebugError>)
        requires
            self.breakpoints.wf(),
            step_unchecked(self.body),
            pc == self.numbers.code_offset(current_step(self.body).offset),
        ensures
            ({
                let p = ProgressModel { draft: old(draft)@, locations: old(locations)@ };
                match r {
                    Ok(_) => before_operator(self.surroundings(), current_step(self.body), p) == Ok::<
                        ProgressModel,
                        DebugError,
                    >(ProgressModel { draft: final(draft)@, locations: final(locations)@ }),
                    Err(e) => before_operator(self.surroundings(), current_step(self.body), p)
                        == Err::<ProgressModel, DebugError>(e),
                }
            }),
    {
        let location = match self.breakpoints.get(pc) {
            Some(location) => location,
            None => {
                return Ok(());
            },
        };
        let die = match draft.func.die_ref.deref(self.dwarf) {
            Ok(die) => die,
            Err(e) => {
                return Err(e);
            },
        };
        let locs = match locations_at(&die, pc) {
            Ok(locs) => locs,
            Err(e) => {
                return Err(e);
            },
        };
        match draft.emit_bkpt(self.numbers, &self.body, &locs, locations.len()) {
            Ok(_) => {},
            Err(e) => {
                return Err(e);
            },
        }
        locations.push(location);
        Ok(())
    }

    /// Instruments the function that `func` describes. Places that breakpoints
    /// can be set at are added to `locations`.
    pub fn instrument(self, func: &DebugFunction, locations: &mut Vec<Location>) -> (r: Result<
        FunctionResult,
        DebugError,
    >)
        requires
            self.wf(),
        ensures
            match r {
                Ok(result) => function_planned(
                    self.surroundings(),
                    self.body_model(),
                    func@,
                    old(locations)@,
                ) == Ok::<(PlanModel, FunctionModel, Seq<Location>), DebugError>(
                    (result.plan@, result.func@, final(locations)@),
                ),
                Err(e) => function_planned(
                    self.surroundings(),
                    self.body_model(),
                    func@,
                    old(locations)@,
                ) == Err::<(PlanModel, FunctionModel, Seq<Location>), DebugError>(e),
            },
    {
        let mut me = self;
        let ghost c = me.surroundings();
        let ghost steps = steps_left(me.body);
        let ghost body = me.body_model();
        let n = me.numbers;
        // Always start with a clear frame.
        let mut fresh = DebugFunction {
            low_pc: func.low_pc,
            high_pc: func.high_pc,
            die_ref: func.die_ref,
            size: 0,
            layout: Vec::new(),
        };
        fresh.reset();
        let mut draft = Draft { code: Vec::new(), func: fresh, scratch: Vec::new() };
        draft.emit_header(n);
        assert(draft.code@ =~= header(n));
        assert(draft.scratch@ =~= seq![]);
        let ghost start = ProgressModel { draft: draft@, locations: locations@ };
        let mut k: usize = 0;
        assert(steps.skip(0) =~= steps);
        loop
            invariant_except_break
                !step_unchecked(me.body),
                steps_left(me.body) == steps.skip(k as int),
            invariant
                me.surroundings() == c,
                self.surroundings() == c,
                self.body_model() == body,
                me.numbers == n,
                me.breakpoints.wf(),
                k <= steps.len(),
                ends_well(me.body) == body.ends_well,
                body.steps == steps,
                start == (ProgressModel {
                    draft: DraftModel { code: header(n), func: func@.cleared(), scratch: seq![] },
                    locations: old(locations)@,
                }),
                c.numbers == n,
                operators_planned(c, steps, 0, start) == operators_planned(
                    c,
                    steps,
                    k as int,
                    ProgressModel { draft: draft@, locations: locations@ },
                ),
            ensures
                k == steps.len(),
                steps_left(me.body).len() == 0,
            decreases steps.len() - k,
        {
            let ghost rest = steps.skip(k as int);
            let (offset, last) = match next_op(&mut me.body) {
                Ok(Some(head)) => head,
                Ok(None) => {
                    break ;
                },
                Err(_) => {
                    assert(rest[0] == steps[k as int]);
                    return Err(DebugError::Malformed);
                },
            };
            assert(rest[0] == steps[k as int]);
            assert(rest.skip(1) =~= steps.skip(k + 1));
            if k == usize::MAX {
                return Err(DebugError::OutOfRange);
            }
            let pc = n.code_ofs(offset);
            match me.emit_before(&mut draft, pc, locations) {
                Ok(_) => {},
                Err(e) => {
                    return Err(e);
                },
            }
            // Breakpoints stop the code immediately before the operator has
            // run, so its effects are taken in only now.
            let kind = op_kind(&me.body);
            match check_op(&mut me.body) {
                Ok(_) => {},
                Err(_) => {
                    return Err(DebugError::Malformed);
                },
            }
            draft.emit_operator(n, k, kind, last, pc);
            k = k + 1;
        }
        match finish_body(&me.body) {
            Ok(_) => {},
            Err(_) => {
                return Err(DebugError::Malformed);
            },
        }
        let size: usize = draft.func.size;
        let code = put_frame_size(&draft.code, size);
        Ok(
            FunctionResult {
                plan: FunctionPlan { code, scratch_locals: draft.scratch },
                func: draft.func,
            },
        )
    }
}


// ---------------------------------------------------------------------------
// Frames of instrumented functions
// ---------------------------------------------------------------------------

/// Whether a frame that is well laid out stayed so, for the same function.
spec fn keeps_frame(a: FunctionModel, b: FunctionModel) -> bool {
    &&& a.frame_wf() ==> b.frame_wf()
    &&& a.size <= i32::MAX ==> b.size <= i32::MAX
    &&& b.low_pc == a.low_pc
    &&& b.high_pc == a.high_pc
    &&& b.die_ref == a.die_ref
}

proof fn saving_keeps_frame(
    d: DraftModel,
    n: Numbering,
    location: WasmLocation,
    load: Instr,
    ty: ValType,
)
    ensures
        value_saved(d, n, location, load, ty) matches Ok(d2) ==> keeps_frame(d.func, d2.func),
{
    if d.func.size <= MAX_FRAME_BYTES {
        frames_stay_well_laid_out(d.func, location);
    }
}

proof fn unrolling_keeps_frame(
    n: Numbering,
    nlocals: u32,
    types: Seq<Option<ValType>>,
    wanted: Seq<usize>,
    first: int,
    idx: int,
    d: DraftModel,
    taken: Seq<usize>,
)
    ensures
        unrolled(n, nlocals, types, wanted, first, idx, d, taken) matches Ok((d2, _))
            ==> keeps_frame(d.func, d2.func),
    decreases idx - first,
{
    if idx > first {
        if let Some(ty) = types[idx - 1] {
            let s = free_scratch(d.scratch, taken, ty, 0);
            let local = (s + nlocals) as u32;
            let popped = DraftModel {
                code: d.code.push(Instr::LocalSet(local)),
                scratch: if s < d.scratch.len() {
                    d.scratch
                } else {
                    d.scratch.push(ty)
                },
                ..d
            };
            let location = WasmLocation::Operand((idx - 1) as usize);
            saving_keeps_frame(popped, n, location, Instr::LocalGet(local), ty);
            let saved = if wanted.contains((idx - 1) as usize) {
                value_saved(popped, n, location, Instr::LocalGet(local), ty)
            } else {
                Ok(popped)
            };
            if let Ok(d1) = saved {
                unrolling_keeps_frame(
                    n,
                    nlocals,
                    types,
                    wanted,
                    first,
                    idx - 1,
                    d1,
                    taken.push(s as usize),
                );
            }
        }
    }
}

proof fn locals_keep_frame(n: Numbering, types: Seq<ValType>, wanted: Seq<usize>, d: DraftModel)
    ensures
        locals_saved(n, types, wanted, d) matches Ok(d2) ==> keeps_frame(d.func, d2.func),
    decreases wanted.len(),
{
    if wanted.len() > 0 {
        locals_keep_frame(n, types, wanted.drop_last(), d);
        if let Ok(d1) = locals_saved(n, types, wanted.drop_last(), d) {
            let i = wanted.last();
            saving_keeps_frame(
                d1,
                n,
                WasmLocation::Local(i),
                Instr::LocalGet(i as u32),
                types[i as int],
            );
        }
    }
}

proof fn globals_keep_frame(n: Numbering, types: Seq<ValType>, wanted: Seq<usize>, d: DraftModel)
    ensures
        globals_saved(n, types, wanted, d) matches Ok(d2) ==> keeps_frame(d.func, d2.func),
    decreases wanted.len(),
{
    if wanted.len() > 0 {
        globals_keep_frame(n, types, wanted.drop_last(), d);
        if let Ok(d1) = globals_saved(n, types, wanted.drop_last(), d) {
            let i = wanted.last();
            saving_keeps_frame(
                d1,
                n,
                WasmLocation::Global(i),
                Instr::GlobalGet(n.renumbered_global(i as u32)),
                types[i as int],
            );
        }
    }
}

proof fn breakpoint_keeps_frame(
    n: Numbering,
    locals: Seq<ValType>,
    globals: Seq<ValType>,
    types: Seq<Option<ValType>>,
    needed: LocationsModel,
    index: usize,
    d: DraftModel,
)
    ensures
        breakpoint_code(n, locals, globals, types, needed, index, d) matches Ok(d2)
            ==> keeps_frame(d.func, d2.func),
{
    let nlocals = locals.len() as u32;
    if needed.operands.len() > 0 {
        unrolling_keeps_frame(
            n,
            nlocals,
            types,
            needed.operands,
            needed.operands[0] as int,
            types.len() as int,
            d,
            seq![],
        );
    }
    if let Ok(d1) = operands_saved(n, nlocals, types, needed.operands, d) {
        locals_keep_frame(n, locals, needed.locals, d1);
        if let Ok(d2) = locals_saved(n, locals, needed.locals, d1) {
            globals_keep_frame(n, globals, needed.globals, d2);
        }
    }
}

proof fn operators_keep_frame(
    c: Surroundings,
    steps: Seq<Option<StepModel>>,
    k: int,
    p: ProgressModel,
)
    ensures
        operators_planned(c, steps, k, p) matches Ok(q) ==> {
            &&& keeps_frame(p.draft.func, q.draft.func)
            &&& p.locations.is_prefix_of(q.locations)
        },
    decreases steps.len() - k,
{
    if k < steps.len() {
        if let Some(s) = steps[k] {
            let pc = c.numbers.code_offset(s.offset);
            if let Ok((u, i)) = entry_named(c.units, p.draft.func.die_ref) {
                if let Ok(needed) = needed_locations(c.units[u], i, pc.0) {
                    breakpoint_keeps_frame(
                        c.numbers,
                        c.locals,
                        c.globals,
                        s.operands,
                        needed,
                        p.locations.len() as usize,
                        p.draft,
                    );
                }
            }
            if let Ok(p1) = before_operator(c, s, p) {
                let code = p1.draft.code + operator_code(
                    c.numbers,
                    k as usize,
                    s.kind,
                    s.last,
                    pc,
                );
                operators_keep_frame(
                    c,
                    steps,
                    k + 1,
                    ProgressModel { draft: DraftModel { code, ..p1.draft }, ..p1 },
                );
            }
        }
    }
}

/// The frame of an instrumented function is well laid out, whatever it was
/// before, and its size can be written as a constant; the function covers the
/// same addresses as before; and places that breakpoints could be set at keep
/// their numbers.
pub proof fn instrumented_frames_are_well_laid_out(
    c: Surroundings,
    body: BodyModel,
    func: FunctionModel,
    locations: Seq<Location>,
)
    ensures
        function_planned(c, body, func, locations) matches Ok((_, after, places)) ==> {
            &&& after.frame_wf()
            &&& after.size <= i32::MAX
            &&& after.low_pc == func.low_pc
            &&& after.high_pc == func.high_pc
            &&& after.die_ref == func.die_ref
            &&& locations.is_prefix_of(places)
        },
{
    let start = ProgressModel {
        draft: DraftModel { code: header(c.numbers), func: func.cleared(), scratch: seq![] },
        locations,
    };
    operators_keep_frame(c, body.steps, 0, start);
}

} // verus!
