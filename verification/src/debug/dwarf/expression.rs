//! DWARF expressions: their operations, and their evaluation through `gimli`.
use std::rc::Rc;

use gimli::{Encoding, EndianRcSlice, EvaluationResult, Expression, Format, LittleEndian, Location,
    Operation, Value};
use vstd::prelude::*;

use crate::seqs::{all_readable, readable};
use super::reader::UnitEncoding;

verus! {

broadcast use vstd::seq_lib::group_seq_properties;

/// An operation of an expression, as far as the debugger tells them apart.
#[derive(Debug, Clone, Copy, PartialEq, Eq, Structural)]
pub enum ExprOp {
    WasmLocal(u32),
    WasmGlobal(u32),
    WasmStack(u32),
    /// An offset from the frame base.
    FrameOffset(i64),
    /// Adds a constant.
    PlusConstant(u64),
    Other,
}

/// The operations of an expression, read one by one.
///
/// Holds `gimli::OperationIter`.
#[verifier::external_body]
pub struct OperationCursor {
    operations: gimli::OperationIter<EndianRcSlice<LittleEndian>>,
}

/// The operations that `gimli` reads from an expression, `None` for one that
/// cannot be read; nothing follows it.
pub uninterp spec fn operations_of(expr: Seq<u8>, encoding: UnitEncoding) -> Seq<Option<ExprOp>>;

/// The operations that a cursor has not reached yet.
pub uninterp spec fn operations_left(cursor: OperationCursor) -> Seq<Option<ExprOp>>;

/// `gimli::Expression::operations`: a cursor before the first operation.
#[verifier::external_body]
pub(crate) fn operation_cursor(expr: &Vec<u8>, encoding: UnitEncoding) -> (r: OperationCursor)
    ensures
        operations_left(r) == operations_of(expr@, encoding),
{
    let code = Expression(EndianRcSlice::new(Rc::from(expr.as_slice()), LittleEndian));
    let encoding = Encoding {
        address_size: encoding.address_size,
        version: encoding.version,
        format: if encoding.wide { Format::Dwarf64 } else { Format::Dwarf32 },
    };
    OperationCursor { operations: code.operations(encoding) }
}

/// `OperationIter::next`: the next operation.
#[verifier::external_body]
pub(crate) fn next_operation(cursor: &mut OperationCursor) -> (r: Result<Option<ExprOp>, ()>)
    ensures
        match r {
            Ok(Some(op)) => {
                &&& operations_left(*old(cursor)).len() > 0
                &&& operations_left(*old(cursor))[0] == Some(op)
                &&& operations_left(*final(cursor)) == operations_left(*old(cursor)).skip(1)
            },
            Ok(None) => operations_left(*old(cursor)).len() == 0,
            Err(_) => operations_left(*old(cursor)).len() > 0 && operations_left(
                *old(cursor),
            )[0] is None,
        },
{
    Ok(cursor.operations.next().map_err(|_| ())?.map(|op| match op {
        Operation::WasmLocal { index } => ExprOp::WasmLocal(index),
        Operation::WasmGlobal { index } => ExprOp::WasmGlobal(index),
        Operation::WasmStack { index } => ExprOp::WasmStack(index),
        Operation::FrameOffset { offset } => ExprOp::FrameOffset(offset),
        Operation::PlusConstant { value } => ExprOp::PlusConstant(value),
        _ => ExprOp::Other,
    }))
}

/// The operations of an expression; an error where one cannot be read.
pub fn operations(expr: &Vec<u8>, encoding: UnitEncoding) -> (r: Result<Vec<ExprOp>, ()>)
    ensures
        r is Ok <==> all_readable(operations_of(expr@, encoding)),
        r is Ok ==> r->Ok_0@ == readable(operations_of(expr@, encoding)),
{
    let ghost all = operations_of(expr@, encoding);
    let mut cursor = operation_cursor(expr, encoding);
    let mut out: Vec<ExprOp> = Vec::new();
    let ghost mut n: int = 0;
    assert(all.skip(0) =~= all);
    assert(out@ + readable(all) =~= readable(all));
    loop
        invariant
            all == operations_of(expr@, encoding),
            0 <= n <= all.len(),
            operations_left(cursor) == all.skip(n),
            forall|i: int| 0 <= i < n ==> (#[trigger] all[i]) is Some,
            out@ + readable(all.skip(n)) == readable(all),
        decreases all.len() - n,
    {
        let ghost rest = all.skip(n);
        let ghost before = out@;
        match next_operation(&mut cursor) {
            Ok(Some(op)) => {
                assert(rest[0] == all[n]);
                assert(rest.skip(1) =~= all.skip(n + 1));
                out.push(op);
                assert(out@ + readable(all.skip(n + 1)) =~= before + readable(rest));
                proof {
                    n = n + 1;
                }
            },
            Ok(None) => {
                assert(readable(rest) =~= seq![]);
                assert(out@ =~= readable(all));
                return Ok(out);
            },
            Err(_) => {
                assert(rest[0] == all[n]);
                return Err(());
            },
        }
    }
}

// ---------------------------------------------------------------------------
// Evaluation
// ---------------------------------------------------------------------------

/// A number that an expression computes. What floating-point numbers hold is
/// not read.
#[derive(Debug, Clone, Copy, PartialEq, Eq, Structural)]
pub enum DwarfValue {
    /// An address-sized number of unspecified sign.
    Generic(u64),
    I8(i8),
    U8(u8),
    I16(i16),
    U16(u16),
    I32(i32),
    U32(u32),
    I64(i64),
    U64(u64),
    Float,
}

/// Where a piece of a value is.
#[derive(Debug)]
pub enum PieceLocation {
    /// In memory.
    Address(u64),
    /// Nowhere; the value is known.
    Value(DwarfValue),
    /// Nowhere; the bytes are known.
    Bytes(Vec<u8>),
    /// Somewhere else, or optimized away.
    Other,
}

/// A piece of a value.
#[derive(Debug)]
pub struct Piece {
    /// The size of the piece; all of the value where it is not given.
    pub size_in_bits: Option<u64>,
    pub bit_offset: Option<u64>,
    pub location: PieceLocation,
}

/// The mathematical value of a [`PieceLocation`].
pub enum PlaceModel {
    Address(u64),
    Value(DwarfValue),
    Bytes(Seq<u8>),
    Other,
}

/// The mathematical value of a [`Piece`].
pub struct PieceModel {
    pub size_in_bits: Option<u64>,
    pub bit_offset: Option<u64>,
    pub location: PlaceModel,
}

impl View for PieceLocation {
    type V = PlaceModel;

    open spec fn view(&self) -> PlaceModel {
        match self {
            PieceLocation::Address(a) => PlaceModel::Address(*a),
            PieceLocation::Value(v) => PlaceModel::Value(*v),
            PieceLocation::Bytes(b) => PlaceModel::Bytes(b@),
            PieceLocation::Other => PlaceModel::Other,
        }
    }
}

impl View for Piece {
    type V = PieceModel;

    open spec fn view(&self) -> PieceModel {
        PieceModel {
            size_in_bits: self.size_in_bits,
            bit_offset: self.bit_offset,
            location: self.location@,
        }
    }
}

/// The pieces of a value.
pub open spec fn pieces_of(v: Seq<Piece>) -> Seq<PieceModel> {
    v.map_values(|p: Piece| p@)
}

impl Piece {
    /// A copy of this piece.
    pub fn copy(&self) -> (r: Piece)
        ensures
            r@ == self@,
    {
        Piece {
            size_in_bits: self.size_in_bits,
            bit_offset: self.bit_offset,
            location: match &self.location {
                PieceLocation::Address(a) => PieceLocation::Address(*a),
                PieceLocation::Value(v) => PieceLocation::Value(*v),
                PieceLocation::Bytes(b) => PieceLocation::Bytes(crate::bytes::copy_bytes(b)),
                PieceLocation::Other => PieceLocation::Other,
            },
        }
    }
}

/// What an evaluation was told: the expression, and the answers to what it
/// asked for.
pub enum EvalInput {
    Program(Seq<u8>, UnitEncoding),
    WasmValue(u64),
    FrameBase(u64),
}

/// Where an evaluation stands.
#[derive(Debug, Clone, Copy, PartialEq, Eq, Structural)]
pub enum EvalStep {
    /// Done; the pieces can be read.
    Complete,
    /// Asks for a local.
    WasmLocal(u32),
    /// Asks for a global.
    WasmGlobal(u32),
    /// Asks for an operand.
    WasmStack(u32),
    /// Asks for the frame base.
    FrameBase,
    /// Asks for something else.
    Unsupported,
    Failed,
}

/// Whether the evaluation asks for a WebAssembly value.
pub open spec fn asks_wasm(step: EvalStep) -> bool {
    step is WasmLocal || step is WasmGlobal || step is WasmStack
}

/// An evaluation under way.
///
/// Holds `gimli::Evaluation` and what it answered last.
#[verifier::external_body]
pub struct Evaluator {
    evaluation: gimli::Evaluation<EndianRcSlice<LittleEndian>>,
    answer: gimli::Result<EvaluationResult<EndianRcSlice<LittleEndian>>>,
}

/// Where an evaluation stands that was told `inputs`.
pub uninterp spec fn eval_step(inputs: Seq<EvalInput>) -> EvalStep;

/// The pieces that a completed evaluation yields.
pub uninterp spec fn eval_pieces(inputs: Seq<EvalInput>) -> Seq<PieceModel>;

/// What an evaluation was told so far.
pub uninterp spec fn eval_inputs(evaluator: Evaluator) -> Seq<EvalInput>;

/// Whether addresses have one of the sizes that DWARF gives them.
pub open spec fn address_size_known(encoding: UnitEncoding) -> bool {
    encoding.address_size == 1 || encoding.address_size == 2 || encoding.address_size == 4
        || encoding.address_size == 8
}

/// `gimli::Expression::evaluation` and `Evaluation::evaluate`, with
/// `Evaluation::set_max_iterations` so that an expression that jumps backwards
/// comes to an end.
#[verifier::external_body]
pub(crate) fn start_evaluation(expr: &Vec<u8>, encoding: UnitEncoding) -> (r: Evaluator)
    requires
        address_size_known(encoding),
    ensures
        eval_inputs(r) == seq![EvalInput::Program(expr@, encoding)],
{
    let code = Expression(EndianRcSlice::new(Rc::from(expr.as_slice()), LittleEndian));
    let mut evaluation = code.evaluation(Encoding {
        address_size: encoding.address_size,
        version: encoding.version,
        format: if encoding.wide { Format::Dwarf64 } else { Format::Dwarf32 },
    });
    evaluation.set_max_iterations(u32::MAX - 1);
    let answer = evaluation.evaluate();
    Evaluator { evaluation, answer }
}

/// The `EvaluationResult` that the evaluation answered last.
#[verifier::external_body]
pub(crate) fn current_step(evaluator: &Evaluator) -> (r: EvalStep)
    ensures
        r == eval_step(eval_inputs(*evaluator)),
{
    match evaluator.answer {
        Ok(EvaluationResult::Complete) => EvalStep::Complete,
        Ok(EvaluationResult::RequiresWasmLocal { index }) => EvalStep::WasmLocal(index),
        Ok(EvaluationResult::RequiresWasmGlobal { index }) => EvalStep::WasmGlobal(index),
        Ok(EvaluationResult::RequiresWasmStack { index }) => EvalStep::WasmStack(index),
        Ok(EvaluationResult::RequiresFrameBase) => EvalStep::FrameBase,
        Ok(_) => EvalStep::Unsupported,
        Err(_) => EvalStep::Failed,
    }
}

/// `Evaluation::resume_with_wasm_value` with a generic value.
#[verifier::external_body]
pub(crate) fn resume_with_wasm_value(evaluator: &mut Evaluator, value: u64)
    requires
        asks_wasm(eval_step(eval_inputs(*old(evaluator)))),
    ensures
        eval_inputs(*final(evaluator)) == eval_inputs(*old(evaluator)).push(
            EvalInput::WasmValue(value),
        ),
{
    evaluator.answer = evaluator.evaluation.resume_with_wasm_value(gimli::Value::Generic(value));
}

/// `Evaluation::resume_with_frame_base`.
#[verifier::external_body]
pub(crate) fn resume_with_frame_base(evaluator: &mut Evaluator, value: u64)
    requires
        eval_step(eval_inputs(*old(evaluator))) is FrameBase,
    ensures
        eval_inputs(*final(evaluator)) == eval_inputs(*old(evaluator)).push(
            EvalInput::FrameBase(value),
        ),
{
    evaluator.answer = evaluator.evaluation.resume_with_frame_base(value);
}

/// `Evaluation::as_result`: how many pieces there are.
#[verifier::external_body]
pub(crate) fn piece_count(evaluator: &Evaluator) -> (r: usize)
    requires
        eval_step(eval_inputs(*evaluator)) is Complete,
    ensures
        r == eval_pieces(eval_inputs(*evaluator)).len(),
{
    evaluator.evaluation.as_result().len()
}

/// `Evaluation::as_result`: the size and bit offset of the piece at `index`.
#[verifier::external_body]
pub(crate) fn piece_extent(evaluator: &Evaluator, index: usize) -> (r: (Option<u64>, Option<u64>))
    requires
        eval_step(eval_inputs(*evaluator)) is Complete,
        index < eval_pieces(eval_inputs(*evaluator)).len(),
    ensures
        r.0 == eval_pieces(eval_inputs(*evaluator))[index as int].size_in_bits,
        r.1 == eval_pieces(eval_inputs(*evaluator))[index as int].bit_offset,
{
    let piece = &evaluator.evaluation.as_result()[index];
    (piece.size_in_bits, piece.bit_offset)
}

/// `Evaluation::as_result`: the value that the piece at `index` has, where its
/// location is one.
#[verifier::external_body]
pub(crate) fn piece_value(evaluator: &Evaluator, index: usize) -> (r: Option<DwarfValue>)
    requires
        eval_step(eval_inputs(*evaluator)) is Complete,
        index < eval_pieces(eval_inputs(*evaluator)).len(),
    ensures
        match r {
            Some(v) => eval_pieces(eval_inputs(*evaluator))[index as int].location
                == PlaceModel::Value(v),
            None => !(eval_pieces(eval_inputs(*evaluator))[index as int].location is Value),
        },
{
    match evaluator.evaluation.as_result()[index].location {
        Location::Value { value } => Some(match value {
            Value::Generic(v) => DwarfValue::Generic(v),
            Value::I8(v) => DwarfValue::I8(v),
            Value::U8(v) => DwarfValue::U8(v),
            Value::I16(v) => DwarfValue::I16(v),
            Value::U16(v) => DwarfValue::U16(v),
            Value::I32(v) => DwarfValue::I32(v),
            Value::U32(v) => DwarfValue::U32(v),
            Value::I64(v) => DwarfValue::I64(v),
            Value::U64(v) => DwarfValue::U64(v),
            _ => DwarfValue::Float,
        }),
        _ => None,
    }
}

/// `Evaluation::as_result`: where the piece at `index` is, apart from a value.
#[verifier::external_body]
pub(crate) fn piece_place(evaluator: &Evaluator, index: usize) -> (r: PieceLocation)
    requires
        eval_step(eval_inputs(*evaluator)) is Complete,
        index < eval_pieces(eval_inputs(*evaluator)).len(),
    ensures
        !(eval_pieces(eval_inputs(*evaluator))[index as int].location is Value) ==> r@
            == eval_pieces(eval_inputs(*evaluator))[index as int].location,
{
    match &evaluator.evaluation.as_result()[index].location {
        Location::Address { address } => PieceLocation::Address(*address),
        Location::Bytes { value } => PieceLocation::Bytes(value.bytes().to_vec()),
        _ => PieceLocation::Other,
    }
}

/// The pieces that a completed evaluation yields.
pub(crate) fn pieces(evaluator: &Evaluator) -> (r: Vec<Piece>)
    requires
        eval_step(eval_inputs(*evaluator)) is Complete,
    ensures
        pieces_of(r@) == eval_pieces(eval_inputs(*evaluator)),
{
    let ghost all = eval_pieces(eval_inputs(*evaluator));
    let count: usize = piece_count(evaluator);
    let mut out: Vec<Piece> = Vec::new();
    let mut i: usize = 0;
    while i < count
        invariant
            eval_step(eval_inputs(*evaluator)) is Complete,
            all == eval_pieces(eval_inputs(*evaluator)),
            count == all.len(),
            i <= count,
            pieces_of(out@) =~= all.take(i as int),
        decreases count - i,
    {
        let ghost before = out@;
        let (size_in_bits, bit_offset) = piece_extent(evaluator, i);
        let location = match piece_value(evaluator, i) {
            Some(v) => PieceLocation::Value(v),
            None => piece_place(evaluator, i),
        };
        out.push(Piece { size_in_bits, bit_offset, location });
        i = i + 1;
        assert(all.take(i as int) =~= all.take(i - 1).push(all[i - 1]));
        assert(pieces_of(out@) =~= pieces_of(before).push(out@.last()@));
    }
    assert(all.take(all.len() as int) =~= all);
    out
}

} // verus!
