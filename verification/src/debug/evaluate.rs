//! Evaluating DWARF expressions in a frame of the debug stack.
use vstd::prelude::*;

use crate::bytes::{le_value, low_bytes_come_first, window};
use crate::error::DebugError;
use crate::types::{CodeOffset, DebugFrameEntry, DebugFunction, DebugInfo, InfoModel, MemoryOffset,
    WasmLocation, entry_for, entry_for_found, function_at, functions_are_found};
use super::dwarf::constants::DW_AT_FRAME_BASE;
use super::dwarf::die::{Die, entry_named};
use super::dwarf::entry::{EntryModel, expression_at};
use super::dwarf::expression::{DwarfValue, EvalInput, EvalStep, Piece, PieceLocation, PieceModel,
    PlaceModel, address_size_known, current_step, eval_inputs, eval_pieces, eval_step, pieces,
    pieces_of, resume_with_frame_base, resume_with_wasm_value, start_evaluation};
use super::dwarf::reader::UnitEncoding;
use super::variables::number_of;

verus! {

broadcast use vstd::seq_lib::group_seq_properties;

/// How often an evaluation is answered before it is given up.
pub const MAX_ANSWERS: u32 = 0xffff_ffff;

// ---------------------------------------------------------------------------
// What an expression means in a frame
// ---------------------------------------------------------------------------

/// What an expression can ask for in a frame.
pub struct Env {
    /// The debug stack.
    pub stack: Seq<u8>,
    /// Where the frame starts in it.
    pub frame: u32,
    /// What the frame holds.
    pub layout: Seq<DebugFrameEntry>,
    /// The entry of the function.
    pub function: EntryModel,
    pub pc: CodeOffset,
    pub encoding: UnitEncoding,
}

/// The saved value of a WebAssembly location.
pub open spec fn saved_value(env: Env, location: WasmLocation) -> Option<u64> {
    match entry_for(env.layout, location) {
        Some(e) => {
            let at = vstd::wrapping::usize_specs::wrapping_add(env.frame as usize, e.offset);
            Some(le_value(window(env.stack, at as int, 8)) as u64)
        },
        None => None,
    }
}

/// The answer to what an evaluation asks for; `base` is the frame base.
pub open spec fn answer(env: Env, step: EvalStep, base: Result<u64, DebugError>) -> Result<
    EvalInput,
    DebugError,
> {
    match step {
        EvalStep::WasmLocal(i) => match saved_value(env, WasmLocation::Local(i as usize)) {
            Some(v) => Ok(EvalInput::WasmValue(v)),
            None => Err(DebugError::LocationNotSaved),
        },
        EvalStep::WasmStack(i) => match saved_value(env, WasmLocation::Operand(i as usize)) {
            Some(v) => Ok(EvalInput::WasmValue(v)),
            None => Err(DebugError::LocationNotSaved),
        },
        EvalStep::WasmGlobal(i) => match saved_value(env, WasmLocation::Global(i as usize)) {
            Some(v) => Ok(EvalInput::WasmValue(v)),
            None => Err(DebugError::LocationNotSaved),
        },
        EvalStep::FrameBase => match base {
            Ok(b) => Ok(EvalInput::FrameBase(b)),
            Err(e) => Err(e),
        },
        _ => Err(DebugError::Unsupported),
    }
}

/// The pieces that an evaluation yields that was told `inputs` and is answered
/// at most `answers` times more.
pub open spec fn run_from(
    inputs: Seq<EvalInput>,
    env: Env,
    base: Result<u64, DebugError>,
    answers: nat,
) -> Result<Seq<PieceModel>, DebugError>
    decreases answers,
{
    match eval_step(inputs) {
        EvalStep::Complete => Ok(eval_pieces(inputs)),
        EvalStep::Failed => Err(DebugError::Malformed),
        EvalStep::Unsupported => Err(DebugError::Unsupported),
        step => match answer(env, step, base) {
            Ok(input) => if answers == 0 {
                Err(DebugError::Unsupported)
            } else {
                run_from(inputs.push(input), env, base, (answers - 1) as nat)
            },
            Err(e) => Err(e),
        },
    }
}

/// The pieces that an expression yields where the frame base is `base`.
pub open spec fn run(expr: Seq<u8>, env: Env, base: Result<u64, DebugError>) -> Result<
    Seq<PieceModel>,
    DebugError,
> {
    if !address_size_known(env.encoding) {
        Err(DebugError::Unsupported)
    } else {
        run_from(
            seq![EvalInput::Program(expr, env.encoding)],
            env,
            base,
            MAX_ANSWERS as nat,
        )
    }
}

/// A computed number as an unsigned one.
pub open spec fn value_as_u64(value: DwarfValue) -> Result<u64, DebugError> {
    match value {
        DwarfValue::Generic(v) => if v <= i64::MAX {
            Ok(v)
        } else {
            Err(DebugError::OutOfRange)
        },
        DwarfValue::I8(v) => if v >= 0 {
            Ok(v as u64)
        } else {
            Err(DebugError::OutOfRange)
        },
        DwarfValue::I16(v) => if v >= 0 {
            Ok(v as u64)
        } else {
            Err(DebugError::OutOfRange)
        },
        DwarfValue::I32(v) => if v >= 0 {
            Ok(v as u64)
        } else {
            Err(DebugError::OutOfRange)
        },
        DwarfValue::I64(v) => if v >= 0 {
            Ok(v as u64)
        } else {
            Err(DebugError::OutOfRange)
        },
        DwarfValue::U8(v) => Ok(v as u64),
        DwarfValue::U16(v) => Ok(v as u64),
        DwarfValue::U32(v) => Ok(v as u64),
        DwarfValue::U64(v) => Ok(v),
        DwarfValue::Float => Err(DebugError::OutOfRange),
    }
}

/// A computed number as a signed one.
pub open spec fn value_as_i64(value: DwarfValue) -> Result<i64, DebugError> {
    match value {
        DwarfValue::Generic(v) => Ok(v as i64),
        DwarfValue::I8(v) => Ok(v as i64),
        DwarfValue::I16(v) => Ok(v as i64),
        DwarfValue::I32(v) => Ok(v as i64),
        DwarfValue::I64(v) => Ok(v),
        DwarfValue::U8(v) => Ok(v as i64),
        DwarfValue::U16(v) => Ok(v as i64),
        DwarfValue::U32(v) => Ok(v as i64),
        DwarfValue::U64(v) => if v <= i64::MAX {
            Ok(v as i64)
        } else {
            Err(DebugError::OutOfRange)
        },
        DwarfValue::Float => Err(DebugError::OutOfRange),
    }
}

/// The unsigned number that the first of the pieces is, its address where it
/// lies in memory.
pub open spec fn first_as_u64(pieces: Result<Seq<PieceModel>, DebugError>) -> Result<
    u64,
    DebugError,
> {
    match pieces {
        Ok(ps) => if ps.len() == 0 {
            Err(DebugError::NoPieces)
        } else {
            match ps[0].location {
                PlaceModel::Value(v) => value_as_u64(v),
                PlaceModel::Address(a) => Ok(a),
                _ => Err(DebugError::NoValue),
            }
        },
        Err(e) => Err(e),
    }
}

/// The signed number that the first of the pieces is, its address where it
/// lies in memory.
pub open spec fn first_as_i64(pieces: Result<Seq<PieceModel>, DebugError>) -> Result<
    i64,
    DebugError,
> {
    match pieces {
        Ok(ps) => if ps.len() == 0 {
            Err(DebugError::NoPieces)
        } else {
            match ps[0].location {
                PlaceModel::Value(v) => value_as_i64(v),
                PlaceModel::Address(a) => if a <= i64::MAX {
                    Ok(a as i64)
                } else {
                    Err(DebugError::OutOfRange)
                },
                _ => Err(DebugError::NoValue),
            }
        },
        Err(e) => Err(e),
    }
}

/// The frame base of the function. The expression that gives it cannot itself
/// ask for it.
pub open spec fn frame_base(env: Env) -> Result<u64, DebugError> {
    match expression_at(env.function, DW_AT_FRAME_BASE, env.pc.0) {
        Some(expr) => first_as_u64(run(expr, env, Err(DebugError::FrameBaseMissing))),
        None => Err(DebugError::FrameBaseMissing),
    }
}

/// The pieces that an expression yields in a frame.
pub open spec fn evaluated(expr: Seq<u8>, env: Env) -> Result<Seq<PieceModel>, DebugError> {
    run(expr, env, frame_base(env))
}

/// The address that the frame at `frame` is at.
pub open spec fn frame_pc(stack: Seq<u8>, frame: u32) -> CodeOffset {
    CodeOffset(le_value(window(stack, frame as int, 4)) as u64)
}

/// The function, the unit and the entry that the frame at `frame` belongs to.
pub open spec fn frame_function(info: InfoModel, frame: u32) -> Result<
    (int, int, int),
    DebugError,
> {
    match function_at(info.functions, frame_pc(info.stack, frame)) {
        None => Err(DebugError::FunctionNotFound(frame_pc(info.stack, frame))),
        Some(f) => match entry_named(info.units, info.functions[f].die_ref) {
            Ok((u, i)) => Ok((f, u, i)),
            Err(e) => Err(e),
        },
    }
}

/// What an expression can ask for in the frame at `frame`, whose function,
/// unit and entry are given.
pub open spec fn env_at(info: InfoModel, frame: u32, at: (int, int, int)) -> Env {
    Env {
        stack: info.stack,
        frame,
        layout: info.functions[at.0].layout,
        function: info.units[at.1].entries[at.2],
        pc: frame_pc(info.stack, frame),
        encoding: info.units[at.1].encoding,
    }
}

// ---------------------------------------------------------------------------
// Evaluating
// ---------------------------------------------------------------------------

/// Contains all state needed to evaluate an expression.
#[derive(Debug, Clone, Copy)]
pub struct EvaluationContext<'a> {
    /// The program that the evaluation is about.
    pub info: &'a DebugInfo,
    /// The debug stack offset to the beginning of the stack frame
    /// where evaluations occur
    pub offset: u32,
}

/// What a frame belongs to.
#[derive(Debug, Clone, Copy)]
pub struct DerivedEvaluationContext<'a> {
    pub pc: CodeOffset,
    pub func: &'a DebugFunction,
    pub die: Die<'a>,
}

impl<'a> DerivedEvaluationContext<'a> {
    /// Whether this is what the frame at `frame` belongs to.
    pub open spec fn is_at(&self, info: InfoModel, frame: u32) -> bool {
        &&& frame_function(info, frame) is Ok
        &&& self.pc == frame_pc(info.stack, frame)
        &&& self.func@ == info.functions[frame_function(info, frame)->Ok_0.0]
        &&& self.die.wf()
        &&& self.die.ctx.unit@ == info.units[frame_function(info, frame)->Ok_0.1]
        &&& self.die.index == frame_function(info, frame)->Ok_0.2
    }
}

/// The pieces that a result of an evaluation has.
pub open spec fn pieces_result(r: Result<Vec<Piece>, DebugError>) -> Result<
    Seq<PieceModel>,
    DebugError,
> {
    match r {
        Ok(v) => Ok(pieces_of(v@)),
        Err(e) => Err(e),
    }
}

impl<'a> EvaluationContext<'a> {
    pub fn new(info: &'a DebugInfo, offset: u32) -> (r: Self)
        ensures
            r.info == info,
            r.offset == offset,
    {
        EvaluationContext { info, offset }
    }

    /// What an expression can ask for in this frame.
    pub open spec fn env(&self) -> Env {
        env_at(self.info@, self.offset, frame_function(self.info@, self.offset)->Ok_0)
    }

    /// Get the derived info (PC, DIE, etc.) from this evaluation context
    pub fn derived(&self) -> (r: Result<DerivedEvaluationContext<'a>, DebugError>)
        ensures
            match r {
                Ok(d) => d.is_at(self.info@, self.offset) && d.die.ctx.dwarf == self.info.dwarf,
                Err(e) => frame_function(self.info@, self.offset) == Err::<
                    (int, int, int),
                    DebugError,
                >(e),
            },
    {
        let pc = CodeOffset(self.info.stack.read_u32(MemoryOffset(self.offset as u64)) as u64);
        assert(pc == frame_pc(self.info@.stack, self.offset));
        proof {
            functions_are_found(self.info@.functions, pc);
        }
        let func = match self.info.fn_at(pc) {
            Some(f) => f,
            None => {
                return Err(DebugError::FunctionNotFound(pc));
            },
        };
        match func.die_ref.deref(&self.info.dwarf) {
            Ok(die) => Ok(DerivedEvaluationContext { pc, func, die }),
            Err(e) => Err(e),
        }
    }

    fn wasm_value(&self, func: &DebugFunction, location: WasmLocation) -> (r: Option<u64>)
        requires
            frame_function(self.info@, self.offset) is Ok,
            func@.layout == self.env().layout,
        ensures
            r == saved_value(self.env(), location),
    {
        match func.find(location) {
            Some(entry) => {
                let at: usize = (self.offset as usize).wrapping_add(entry.offset);
                Some(self.info.stack.read_u64(MemoryOffset(at as u64)))
            },
            None => None,
        }
    }

    /// Runs an expression. Where `nested` is set, the expression is the one
    /// that gives the frame base.
    fn run_expression(
        &self,
        derived: &DerivedEvaluationContext<'a>,
        expr: &Vec<u8>,
        nested: bool,
    ) -> (r: Result<Vec<Piece>, DebugError>)
        requires
            derived.is_at(self.info@, self.offset),
        ensures
            pieces_result(r) == run(
                expr@,
                self.env(),
                if nested {
                    Err(DebugError::FrameBaseMissing)
                } else {
                    frame_base(self.env())
                },
            ),
        decreases
            if nested {
                0nat
            } else {
                2nat
            },
    {
        let ghost env = self.env();
        let ghost base = if nested {
            Err(DebugError::FrameBaseMissing)
        } else {
            frame_base(env)
        };
        let encoding = derived.die.ctx.unit.encoding;
        if encoding.address_size != 1 && encoding.address_size != 2 && encoding.address_size != 4
            && encoding.address_size != 8 {
            return Err(DebugError::Unsupported);
        }
        let mut eval = start_evaluation(expr, encoding);
        let mut answers: u32 = MAX_ANSWERS;
        loop
            invariant
                derived.is_at(self.info@, self.offset),
                env == self.env(),
                address_size_known(env.encoding),
                base == if nested {
                    Err(DebugError::FrameBaseMissing)
                } else {
                    frame_base(env)
                },
                run(expr@, env, base) == run_from(eval_inputs(eval), env, base, answers as nat),
            decreases answers,
        {
            let step = current_step(&eval);
            match step {
                EvalStep::Complete => {
                    return Ok(pieces(&eval));
                },
                EvalStep::Failed => {
                    return Err(DebugError::Malformed);
                },
                EvalStep::Unsupported => {
                    return Err(DebugError::Unsupported);
                },
                EvalStep::FrameBase => {
                    let fb: Result<u64, DebugError> = if nested {
                        Err(DebugError::FrameBaseMissing)
                    } else {
                        self.frame_base(derived)
                    };
                    match fb {
                        Ok(b) => {
                            if answers == 0 {
                                return Err(DebugError::Unsupported);
                            }
                            resume_with_frame_base(&mut eval, b);
                        },
                        Err(e) => {
                            return Err(e);
                        },
                    }
                },
                EvalStep::WasmLocal(index) => {
                    match self.wasm_value(derived.func, WasmLocation::Local(index as usize)) {
                        Some(v) => {
                            if answers == 0 {
                                return Err(DebugError::Unsupported);
                            }
                            resume_with_wasm_value(&mut eval, v);
                        },
                        None => {
                            return Err(DebugError::LocationNotSaved);
                        },
                    }
                },
                EvalStep::WasmStack(index) => {
                    match self.wasm_value(derived.func, WasmLocation::Operand(index as usize)) {
                        Some(v) => {
                            if answers == 0 {
                                return Err(DebugError::Unsupported);
                            }
                            resume_with_wasm_value(&mut eval, v);
                        },
                        None => {
                            return Err(DebugError::LocationNotSaved);
                        },
                    }
                },
                EvalStep::WasmGlobal(index) => {
                    match self.wasm_value(derived.func, WasmLocation::Global(index as usize)) {
                        Some(v) => {
                            if answers == 0 {
                                return Err(DebugError::Unsupported);
                            }
                            resume_with_wasm_value(&mut eval, v);
                        },
                        None => {
                            return Err(DebugError::LocationNotSaved);
                        },
                    }
                },
            }
            answers = answers - 1;
        }
    }

    fn frame_base(&self, derived: &DerivedEvaluationContext<'a>) -> (r: Result<u64, DebugError>)
        requires
            derived.is_at(self.info@, self.offset),
        ensures
            r == frame_base(self.env()),
        decreases 1nat,
    {
        match derived.die.expression(DW_AT_FRAME_BASE, derived.pc) {
            Some(expr) => {
                let pieces = self.run_expression(derived, &expr, true);
                unsigned_result(pieces)
            },
            None => Err(DebugError::FrameBaseMissing),
        }
    }

    /// Evaluates an expression and returns the resulting pieces.
    pub fn evaluate(&self, expr: &Vec<u8>) -> (r: Result<Vec<Piece>, DebugError>)
        ensures
            pieces_result(r) == match frame_function(self.info@, self.offset) {
                Ok(_) => evaluated(expr@, self.env()),
                Err(e) => Err(e),
            },
    {
        match self.derived() {
            Ok(derived) => self.run_expression(&derived, expr, false),
            Err(e) => Err(e),
        }
    }

    /// Evaluates an expression and returns the result as an unsigned value, if possible.
    pub fn evaluate_unsigned(&self, expr: &Vec<u8>) -> (r: Result<u64, DebugError>)
        ensures
            r == match frame_function(self.info@, self.offset) {
                Ok(_) => first_as_u64(evaluated(expr@, self.env())),
                Err(e) => Err(e),
            },
    {
        unsigned_result(self.evaluate(expr))
    }

    /// Evaluates an expression and returns the result as a signed value, if possible.
    pub fn evaluate_signed(&self, expr: &Vec<u8>) -> (r: Result<i64, DebugError>)
        ensures
            r == match frame_function(self.info@, self.offset) {
                Ok(_) => first_as_i64(evaluated(expr@, self.env())),
                Err(e) => Err(e),
            },
    {
        signed_result(self.evaluate(expr))
    }
}

/// The unsigned number that the first of the pieces is.
pub fn unsigned_result(pieces: Result<Vec<Piece>, DebugError>) -> (r: Result<u64, DebugError>)
    ensures
        r == first_as_u64(pieces_result(pieces)),
{
    match pieces {
        Ok(ps) => {
            if ps.len() == 0 {
                return Err(DebugError::NoPieces);
            }
            assert(pieces_of(ps@)[0] == ps@[0]@);
            match &ps[0].location {
                PieceLocation::Value(v) => gimli_value_to_u64(*v),
                PieceLocation::Address(a) => Ok(*a),
                _ => Err(DebugError::NoValue),
            }
        },
        Err(e) => Err(e),
    }
}

/// The signed number that the first of the pieces is.
pub fn signed_result(pieces: Result<Vec<Piece>, DebugError>) -> (r: Result<i64, DebugError>)
    ensures
        r == first_as_i64(pieces_result(pieces)),
{
    match pieces {
        Ok(ps) => {
            if ps.len() == 0 {
                return Err(DebugError::NoPieces);
            }
            assert(pieces_of(ps@)[0] == ps@[0]@);
            match &ps[0].location {
                PieceLocation::Value(v) => gimli_value_to_i64(*v),
                PieceLocation::Address(a) => if *a <= i64::MAX as u64 {
                    Ok(*a as i64)
                } else {
                    Err(DebugError::OutOfRange)
                },
                _ => Err(DebugError::NoValue),
            }
        },
        Err(e) => Err(e),
    }
}

fn gimli_value_to_u64(value: DwarfValue) -> (r: Result<u64, DebugError>)
    ensures
        r == value_as_u64(value),
{
    match value {
        DwarfValue::Generic(v) => if v <= i64::MAX as u64 {
            Ok(v)
        } else {
            Err(DebugError::OutOfRange)
        },
        DwarfValue::I8(v) => if v >= 0 {
            Ok(v as u64)
        } else {
            Err(DebugError::OutOfRange)
        },
        DwarfValue::I16(v) => if v >= 0 {
            Ok(v as u64)
        } else {
            Err(DebugError::OutOfRange)
        },
        DwarfValue::I32(v) => if v >= 0 {
            Ok(v as u64)
        } else {
            Err(DebugError::OutOfRange)
        },
        DwarfValue::I64(v) => if v >= 0 {
            Ok(v as u64)
        } else {
            Err(DebugError::OutOfRange)
        },
        DwarfValue::U8(v) => Ok(v as u64),
        DwarfValue::U16(v) => Ok(v as u64),
        DwarfValue::U32(v) => Ok(v as u64),
        DwarfValue::U64(v) => Ok(v),
        DwarfValue::Float => Err(DebugError::OutOfRange),
    }
}

fn gimli_value_to_i64(value: DwarfValue) -> (r: Result<i64, DebugError>)
    ensures
        r == value_as_i64(value),
{
    match value {
        DwarfValue::Generic(v) => Ok(v as i64),
        DwarfValue::I8(v) => Ok(v as i64),
        DwarfValue::I16(v) => Ok(v as i64),
        DwarfValue::I32(v) => Ok(v as i64),
        DwarfValue::I64(v) => Ok(v),
        DwarfValue::U8(v) => Ok(v as i64),
        DwarfValue::U16(v) => Ok(v as i64),
        DwarfValue::U32(v) => Ok(v as i64),
        DwarfValue::U64(v) => if v <= i64::MAX as u64 {
            Ok(v as i64)
        } else {
            Err(DebugError::OutOfRange)
        },
        DwarfValue::Float => Err(DebugError::OutOfRange),
    }
}

// ---------------------------------------------------------------------------
// What evaluations are told
// ---------------------------------------------------------------------------

/// What the eight bytes at a place of the debug stack spell.
pub open spec fn word_at(stack: Seq<u8>, at: int) -> int {
    stack[at] + 0x100 * stack[at + 1] + 0x1_0000 * stack[at + 2] + 0x100_0000 * stack[at + 3]
        + 0x1_0000_0000 * stack[at + 4] + 0x100_0000_0000 * stack[at + 5] + 0x1_0000_0000_0000
        * stack[at + 6] + 0x100_0000_0000_0000 * stack[at + 7]
}

/// An evaluation that asks for a local, an operand or a global is told the eight bytes
/// that the frame holds of it: they lie where the first entry of the layout for that
/// very local, operand or global says, counted from the start of the frame.
pub proof fn evaluations_are_told_what_the_frame_holds(
    env: Env,
    step: EvalStep,
    base: Result<u64, DebugError>,
    k: int,
)
    requires
        0 <= k < env.layout.len(),
        match step {
            EvalStep::WasmLocal(i) => env.layout[k].location == WasmLocation::Local(i as usize),
            EvalStep::WasmStack(i) => env.layout[k].location == WasmLocation::Operand(i as usize),
            EvalStep::WasmGlobal(i) => env.layout[k].location == WasmLocation::Global(i as usize),
            _ => false,
        },
        forall|j: int|
            0 <= j < k ==> (#[trigger] env.layout[j]).location != env.layout[k].location,
        env.frame + env.layout[k].offset + 8 <= env.stack.len(),
        env.frame + env.layout[k].offset + 8 <= u32::MAX,
    ensures
        answer(env, step, base) == Ok::<EvalInput, DebugError>(
            EvalInput::WasmValue(word_at(env.stack, env.frame + env.layout[k].offset) as u64),
        ),
{
    let at = env.frame + env.layout[k].offset;
    first_entry(env.layout, env.layout[k].location, k);
    low_bytes_come_first(window(env.stack, at, 8));
}

proof fn first_entry(layout: Seq<DebugFrameEntry>, location: WasmLocation, k: int)
    requires
        0 <= k < layout.len(),
        layout[k].location == location,
        forall|j: int| 0 <= j < k ==> (#[trigger] layout[j]).location != location,
    ensures
        entry_for(layout, location) == Some(layout[k]),
    decreases layout.len(),
{
    if k > 0 {
        assert(layout[0].location != location);
        let rest = layout.skip(1);
        assert(rest[k - 1] == layout[k]);
        assert forall|j: int| 0 <= j < k - 1 implies (#[trigger] rest[j]).location != location by {
            assert(rest[j] == layout[j + 1]);
        }
        first_entry(rest, location, k - 1);
    }
}

/// What is not held cannot be told, the frame base is told as it is, and nothing else
/// is.
pub proof fn evaluations_are_told_nothing_else(
    env: Env,
    step: EvalStep,
    base: Result<u64, DebugError>,
)
    ensures
        step matches EvalStep::WasmLocal(i) && (forall|j: int|
            0 <= j < env.layout.len() ==> (#[trigger] env.layout[j]).location
                != WasmLocation::Local(i as usize)) ==> answer(env, step, base) is Err,
        step matches EvalStep::WasmStack(i) && (forall|j: int|
            0 <= j < env.layout.len() ==> (#[trigger] env.layout[j]).location
                != WasmLocation::Operand(i as usize)) ==> answer(env, step, base) is Err,
        step matches EvalStep::WasmGlobal(i) && (forall|j: int|
            0 <= j < env.layout.len() ==> (#[trigger] env.layout[j]).location
                != WasmLocation::Global(i as usize)) ==> answer(env, step, base) is Err,
        step is FrameBase ==> match base {
            Ok(b) => answer(env, step, base) == Ok::<EvalInput, DebugError>(EvalInput::FrameBase(b)),
            Err(e) => answer(env, step, base) == Err::<EvalInput, DebugError>(e),
        },
        !(step is WasmLocal || step is WasmStack || step is WasmGlobal || step is FrameBase)
            ==> answer(env, step, base) is Err,
{
    match step {
        EvalStep::WasmLocal(i) => {
            entry_for_found(env.layout, WasmLocation::Local(i as usize));
        },
        EvalStep::WasmStack(i) => {
            entry_for_found(env.layout, WasmLocation::Operand(i as usize));
        },
        EvalStep::WasmGlobal(i) => {
            entry_for_found(env.layout, WasmLocation::Global(i as usize));
        },
        _ => {},
    }
}

/// A number that an expression yields keeps its value where it is taken as an unsigned
/// or as a signed number, or it is refused. What lies in memory gives its address.
pub proof fn numbers_keep_their_value(piece: PieceModel, rest: Seq<PieceModel>)
    ensures
        ({
            let all = Ok::<Seq<PieceModel>, DebugError>(seq![piece] + rest);
            &&& match piece.location {
                PlaceModel::Address(a) => first_as_u64(all) == Ok::<u64, DebugError>(a),
                PlaceModel::Value(v) => match (number_of(v), v) {
                    (Some(n), DwarfValue::Generic(_)) => (first_as_u64(all) matches Ok(u) ==> u == n)
                        && (first_as_u64(all) is Ok <==> n <= i64::MAX) && first_as_i64(all) is Ok
                        && (n <= i64::MAX ==> first_as_i64(all)->Ok_0 == n),
                    (Some(n), _) => {
                        &&& first_as_u64(all) is Ok <==> 0 <= n
                        &&& first_as_u64(all) matches Ok(u) ==> u == n
                        &&& first_as_i64(all) is Ok <==> n <= i64::MAX
                        &&& first_as_i64(all) matches Ok(i) ==> i == n
                    },
                    (None, _) => first_as_u64(all) is Err && first_as_i64(all) is Err,
                },
                _ => first_as_u64(all) is Err && first_as_i64(all) is Err,
            }
        }),
        first_as_u64(Ok(seq![])) is Err,
        first_as_i64(Ok(seq![])) is Err,
{
    assert((seq![piece] + rest)[0] == piece);
}

/// A frame is at the address that its first four bytes spell, and what is evaluated in
/// it is evaluated for the function that covers that address, in the layout of that
/// function's frame.
pub proof fn frames_say_where_they_are(info: InfoModel, frame: u32)
    requires
        frame + 4 <= info.stack.len(),
    ensures
        frame_pc(info.stack, frame).0 == info.stack[frame as int] + 0x100 * info.stack[frame + 1]
            + 0x1_0000 * info.stack[frame + 2] + 0x100_0000 * info.stack[frame + 3],
        frame_function(info, frame) matches Ok(at) ==> {
            let env = env_at(info, frame, at);
            &&& 0 <= at.0 < info.functions.len()
            &&& info.functions[at.0].low_pc.0 <= env.pc.0 < info.functions[at.0].high_pc.0
            &&& env.pc == frame_pc(info.stack, frame)
            &&& env.layout == info.functions[at.0].layout
            &&& env.frame == frame
            &&& env.stack == info.stack
        },
{
    low_bytes_come_first(window(info.stack, frame as int, 4));
    functions_are_found(info.functions, frame_pc(info.stack, frame));
}

/// The frame base is what attribute `DW_AT_frame_base` of the function yields. Its own
/// expression is told no frame base.
pub proof fn frame_bases_are_given(env: Env)
    ensures
        match expression_at(env.function, 0x40, env.pc.0) {
            Some(expr) => frame_base(env) == first_as_u64(
                run(expr, env, Err(DebugError::FrameBaseMissing)),
            ),
            None => frame_base(env) is Err,
        },
        forall|expr: Seq<u8>|
            #![trigger evaluated(expr, env)]
            evaluated(expr, env) == run(expr, env, frame_base(env)),
{
}

/// An evaluation goes on with what it is told, each answer behind those before it, until
/// it is complete; its pieces are those that it has then. One that fails, or asks for
/// what it cannot be told, yields none.
pub proof fn evaluations_go_on_with_what_they_are_told(
    inputs: Seq<EvalInput>,
    env: Env,
    base: Result<u64, DebugError>,
    answers: nat,
)
    requires
        answers > 0,
    ensures
        ({
            let step = eval_step(inputs);
            let result = run_from(inputs, env, base, answers);
            &&& step is Complete ==> result == Ok::<Seq<PieceModel>, DebugError>(
                eval_pieces(inputs),
            )
            &&& step is Failed || step is Unsupported ==> result is Err
            &&& step is WasmLocal || step is WasmStack || step is WasmGlobal || step is FrameBase
                ==> match answer(env, step, base) {
                Ok(told) => result == run_from(inputs.push(told), env, base, (answers - 1) as nat),
                Err(e) => result == Err::<Seq<PieceModel>, DebugError>(e),
            }
        }),
{
}

} // verus!
