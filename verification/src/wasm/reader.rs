//! Reading WebAssembly modules through `wasmparser`.
//!
//! Everything here that is marked as trusted is a thin call into `wasmparser`;
//! what it hands back is named, and the rest of the crate is verified against
//! the names. The readers hold iterators and validators of `wasmparser` that
//! are generic over its own traits, and so they are kept in private fields.
use vstd::prelude::*;
use wasmparser::Payload::{FunctionSection, GlobalSection, MemorySection, TableSection};
use wasmparser::{Encoding, FuncToValidate, FuncValidator, FunctionBody, Import, Operator,
    OperatorsIterator, OperatorsReader, Parser, Payload, TypeRef, ValType, Validator,
    ValidatorResources, WasmModuleResources};

verus! {

broadcast use vstd::seq_lib::group_seq_properties;

// ---------------------------------------------------------------------------
// The parts of a module, as they stand in its bytes
// ---------------------------------------------------------------------------

/// The parts of a module, read one by one.
///
/// Holds the iterator that `Parser::parse_all` returns.
#[verifier::external_body]
pub struct PartCursor<'a> {
    payloads: Box<dyn Iterator<Item = wasmparser::Result<Payload<'a>>> + 'a>,
}

/// The code of a function, as `wasmparser` has it.
#[verifier::external_type_specification]
#[verifier::external_body]
pub struct ExFunctionBody<'a>(FunctionBody<'a>);

/// The operators of a function as texts, read one by one.
///
/// Holds `wasmparser::OperatorsIterator`, where the code has operators.
#[verifier::external_body]
pub struct TextCursor<'a> {
    operators: Option<OperatorsIterator<'a>>,
}

/// A part of a module, as far as they are told apart.
pub enum ModulePart<'a> {
    /// A custom section: its name and what it holds.
    Custom(String, Vec<u8>),
    /// The memories: the initial size of the first one, in pages.
    Memory(Option<Result<u64, ()>>),
    /// The code of a function.
    Body(FunctionBody<'a>),
    Other,
}

/// The mathematical value of a [`ModulePart`]. An operator that cannot be read
/// is the text of what went wrong.
pub enum PartModel {
    Custom(Seq<char>, Seq<u8>),
    Memory(Option<Result<u64, ()>>),
    Body(Seq<Result<Seq<char>, Seq<char>>>),
    Other,
}

/// The parts that `wasmparser` reads from the bytes of a module, `None` for
/// one that cannot be read; nothing follows it.
pub uninterp spec fn parts_of(wasm: Seq<u8>) -> Seq<Option<PartModel>>;

/// The parts that a cursor has not reached yet.
pub uninterp spec fn parts_left(cursor: PartCursor) -> Seq<Option<PartModel>>;

/// The operators of a function's code as texts.
pub uninterp spec fn operator_texts(code: FunctionBody) -> Seq<Result<Seq<char>, Seq<char>>>;

/// The texts that a cursor has not reached yet.
pub uninterp spec fn texts_left(cursor: TextCursor) -> Seq<Result<Seq<char>, Seq<char>>>;

/// The value of a part.
pub open spec fn part_model(part: ModulePart) -> PartModel {
    match part {
        ModulePart::Custom(name, data) => PartModel::Custom(name@, data@),
        ModulePart::Memory(initial) => PartModel::Memory(initial),
        ModulePart::Body(code) => PartModel::Body(operator_texts(code)),
        ModulePart::Other => PartModel::Other,
    }
}

/// The value of a text of an operator.
pub open spec fn text_model(text: Result<String, String>) -> Result<Seq<char>, Seq<char>> {
    match text {
        Ok(t) => Ok(t@),
        Err(t) => Err(t@),
    }
}

/// `wasmparser::Parser::parse_all`: a cursor before the first part.
#[verifier::external_body]
pub(crate) fn part_cursor<'a>(wasm: &'a Vec<u8>) -> (r: PartCursor<'a>)
    ensures
        parts_left(r) == parts_of(wasm@),
{
    PartCursor { payloads: Box::new(Parser::new(0).parse_all(wasm.as_slice())) }
}

/// `next` of the iterator that `Parser::parse_all` returns: the next part. An
/// error ends the iteration.
#[verifier::external_body]
pub(crate) fn next_part<'a>(cursor: &mut PartCursor<'a>) -> (r: Result<
    Option<ModulePart<'a>>,
    (),
>)
    ensures
        match r {
            Ok(Some(part)) => {
                &&& parts_left(*old(cursor)).len() > 0
                &&& parts_left(*old(cursor))[0] == Some(part_model(part))
                &&& parts_left(*final(cursor)) == parts_left(*old(cursor)).skip(1)
            },
            Ok(None) => parts_left(*old(cursor)).len() == 0,
            Err(_) => parts_left(*old(cursor)).len() > 0 && parts_left(*old(cursor))[0] is None
                && parts_left(*final(cursor)).len() == 0 && parts_left(*old(cursor)).len() == 1,
        },
{
    Ok(cursor.payloads.next().transpose().map_err(|_| ())?.map(|payload| match payload {
        Payload::CustomSection(s) => ModulePart::Custom(s.name().to_string(), s.data().to_vec()),
        Payload::MemorySection(s) => ModulePart::Memory(
            s.into_iter().next().map(|m| m.map(|m| m.initial).map_err(|_| ())),
        ),
        Payload::CodeSectionEntry(body) => ModulePart::Body(body),
        _ => ModulePart::Other,
    }))
}

/// `FunctionBody::get_operators_reader`: a cursor before the first operator.
/// Code whose operators cannot be reached has none.
#[verifier::external_body]
pub(crate) fn text_cursor<'a>(code: &FunctionBody<'a>) -> (r: TextCursor<'a>)
    ensures
        texts_left(r) == operator_texts(*code),
{
    TextCursor { operators: code.get_operators_reader().ok().map(|r| r.into_iter()) }
}

/// `OperatorsIterator::next`: the next operator in the form that its `Debug`
/// gives, or what went wrong in the form that the error's `Display` gives.
#[verifier::external_body]
pub(crate) fn next_text(cursor: &mut TextCursor) -> (r: Option<Result<String, String>>)
    ensures
        match r {
            Some(text) => {
                &&& texts_left(*old(cursor)).len() > 0
                &&& texts_left(*old(cursor))[0] == text_model(text)
                &&& texts_left(*final(cursor)) == texts_left(*old(cursor)).skip(1)
            },
            None => texts_left(*old(cursor)).len() == 0,
        },
{
    match cursor.operators.as_mut()?.next()? {
        Ok(operator) => Some(Ok(format!("{:?}", operator))),
        Err(e) => Some(Err(format!("{}", e))),
    }
}

// ---------------------------------------------------------------------------
// The sections of a module, validated
// ---------------------------------------------------------------------------

/// A type of a value, as `wasmparser` has it.
#[verifier::external_type_specification]
#[verifier::external_body]
pub struct ExValType(ValType);

/// How a value is stored.
#[derive(Debug, Clone, Copy, PartialEq, Eq, Structural)]
pub enum ValueKind {
    I32,
    I64,
    F32,
    F64,
    V128,
    /// A reference, which memory cannot hold.
    Ref,
}

/// How a value of a type is stored.
pub uninterp spec fn kind_of(ty: ValType) -> ValueKind;

/// The variant of a `wasmparser::ValType`.
#[verifier::external_body]
pub(crate) fn value_kind(ty: ValType) -> (r: ValueKind)
    ensures
        r == kind_of(ty),
{
    match ty {
        ValType::I32 => ValueKind::I32,
        ValType::I64 => ValueKind::I64,
        ValType::F32 => ValueKind::F32,
        ValType::F64 => ValueKind::F64,
        ValType::V128 => ValueKind::V128,
        ValType::Ref(_) => ValueKind::Ref,
    }
}

/// `==` of `wasmparser::ValType`, which compares everything that a type holds.
#[verifier::external_body]
pub(crate) fn same_value_type(a: ValType, b: ValType) -> (r: bool)
    ensures
        r == (a == b),
{
    a == b
}

/// What is imported, as far as they are told apart.
#[derive(Debug, Clone, Copy, PartialEq, Eq, Structural)]
pub enum ImportKind {
    Function,
    Global,
    Other,
}

/// A section of a module, as far as they are told apart.
#[derive(Debug, Clone, Copy, PartialEq, Eq, Structural)]
pub enum SectionKind {
    /// The version that a module starts with.
    Module,
    /// The version that anything but a module starts with.
    Component,
    Imports,
    /// The code section, and where its contents start in the module.
    CodeStart(u64),
    /// The code of a function, and where it starts in the module.
    Body(u64),
    Other,
}

/// An operator, as far as they are told apart.
#[derive(Debug, Clone, Copy, PartialEq, Eq, Structural)]
pub enum OpKind {
    Call,
    Return,
    ReturnCall(u32),
    ReturnCallIndirect { type_index: u32, table_index: u32 },
    ReturnCallRef(u32),
    End,
    Other,
}

/// An operator of a function.
pub struct StepModel {
    /// Where it stands in the module.
    pub offset: u64,
    pub kind: OpKind,
    /// Whether it is the last one.
    pub last: bool,
    /// The types of the operands before it, from the bottom of the stack up;
    /// `None` for one of unknown type.
    pub operands: Seq<Option<ValType>>,
    /// Whether the validator accepts it.
    pub accepted: bool,
}

/// The code of a function. `None` in a list stands for what cannot be read;
/// nothing follows it.
pub struct BodyModel {
    /// The types of the locals, parameters first.
    pub locals: Seq<ValType>,
    /// The types of the module's globals, imports first.
    pub globals: Seq<ValType>,
    pub steps: Seq<Option<StepModel>>,
    /// Whether the code ends where its operators do.
    pub ends_well: bool,
}

/// A section of a module.
pub struct SectionModel {
    pub kind: SectionKind,
    /// Whether the validator accepts it. Custom sections, exports, elements,
    /// data and tags are not put to it.
    pub accepted: bool,
    /// What is imported.
    pub imports: Seq<Option<ImportKind>>,
    /// The code of a function, where its locals can be read.
    pub body: Option<BodyModel>,
}

/// The sections of a module, read and validated one by one.
///
/// Holds the iterator that `Parser::parse_all` returns, the payload that it
/// gave last, the `wasmparser::Validator` that all payloads were put to, and
/// what it said of the last function.
#[verifier::external_body]
pub struct SectionCursor<'a> {
    payloads: Box<dyn Iterator<Item = wasmparser::Result<Payload<'a>>> + 'a>,
    payload: Option<Payload<'a>>,
    validator: Validator,
    function: Option<FuncToValidate<ValidatorResources>>,
}

/// The sections that `wasmparser` reads from the bytes of a module, `None` for
/// one that cannot be read; nothing follows it.
pub uninterp spec fn sections_of(wasm: Seq<u8>) -> Seq<Option<SectionModel>>;

/// The sections that a cursor has not reached yet.
pub uninterp spec fn sections_left(cursor: SectionCursor) -> Seq<Option<SectionModel>>;

/// The section that a cursor stands on.
pub uninterp spec fn current_section(cursor: SectionCursor) -> SectionModel;

/// Whether the section that a cursor stands on is still to be put to the
/// validator.
pub uninterp spec fn section_unchecked(cursor: SectionCursor) -> bool;

/// Whether a cursor has passed no version but that of a module.
pub uninterp spec fn within_module(cursor: SectionCursor) -> bool;

/// `wasmparser::Parser::parse_all` and `Validator::new`: a cursor before the
/// first section.
#[verifier::external_body]
pub(crate) fn section_cursor<'a>(wasm: &'a Vec<u8>) -> (r: SectionCursor<'a>)
    ensures
        sections_left(r) == sections_of(wasm@),
        !section_unchecked(r),
        within_module(r),
{
    SectionCursor {
        payloads: Box::new(Parser::new(0).parse_all(wasm.as_slice())),
        payload: None,
        validator: Validator::new(),
        function: None,
    }
}

/// `next` of the iterator that `Parser::parse_all` returns: moves to the next
/// section.
#[verifier::external_body]
pub(crate) fn next_section(cursor: &mut SectionCursor) -> (r: Result<Option<SectionKind>, ()>)
    requires
        !section_unchecked(*old(cursor)),
    ensures
        match r {
            Ok(Some(kind)) => {
                &&& sections_left(*old(cursor)).len() > 0
                &&& sections_left(*old(cursor))[0] == Some(current_section(*final(cursor)))
                &&& current_section(*final(cursor)).kind == kind
                &&& sections_left(*final(cursor)) == sections_left(*old(cursor)).skip(1)
                &&& section_unchecked(*final(cursor))
                &&& within_module(*final(cursor)) == (within_module(*old(cursor)) && kind
                    != SectionKind::Component)
            },
            Ok(None) => sections_left(*old(cursor)).len() == 0,
            Err(_) => sections_left(*old(cursor)).len() > 0 && sections_left(
                *old(cursor),
            )[0] is None,
        },
{
    cursor.function = None;
    cursor.payload = cursor.payloads.next().transpose().map_err(|_| ())?;
    Ok(cursor.payload.as_ref().map(|payload| match payload {
        Payload::Version { encoding: Encoding::Module, .. } => SectionKind::Module,
        Payload::Version { encoding: Encoding::Component, .. } => SectionKind::Component,
        Payload::ImportSection(_) => SectionKind::Imports,
        Payload::CodeSectionStart { unchecked_range, .. } => SectionKind::CodeStart(
            unchecked_range.start,
        ),
        Payload::CodeSectionEntry(body) => SectionKind::Body(body.range().start),
        _ => SectionKind::Other,
    }))
}

/// The methods of `wasmparser::Validator` for types, imports, functions,
/// tables, memories, globals, and the code section and its entries: puts the
/// section that the cursor stands on to the validator. `Parser` lets a code
/// section follow only as many functions as it has entries, which
/// `Validator::code_section_entry` relies on. One validator holds one module,
/// and so the modules that lie within a component are not put to it.
#[verifier::external_body]
pub(crate) fn check_section(cursor: &mut SectionCursor) -> (r: Result<(), ()>)
    requires
        section_unchecked(*old(cursor)),
        within_module(*old(cursor)),
    ensures
        r is Ok <==> current_section(*old(cursor)).accepted,
        r is Ok ==> {
            &&& !section_unchecked(*final(cursor))
            &&& within_module(*final(cursor))
            &&& current_section(*final(cursor)) == current_section(*old(cursor))
            &&& sections_left(*final(cursor)) == sections_left(*old(cursor))
        },
{
    let v = &mut cursor.validator;
    let r = match cursor.payload.as_ref().ok_or(())? {
        Payload::TypeSection(s) => v.version(1, Encoding::Module, &(0..8)).and_then(
            |_| v.type_section(s)),
        Payload::ImportSection(s) => v.import_section(s),
        FunctionSection(s) => v.function_section(s),
        TableSection(s) => v.table_section(s),
        MemorySection(s) => v.memory_section(s),
        GlobalSection(s) => v.global_section(s),
        Payload::CodeSectionStart { unchecked_range, .. } => v.code_section_start(unchecked_range),
        Payload::CodeSectionEntry(b) => v.code_section_entry(b).map(
            |f| cursor.function = Some(f)),
        _ => Ok(()),
    };
    r.map_err(|_| ())
}

// ---------------------------------------------------------------------------
// Imports
// ---------------------------------------------------------------------------

/// The imports of a module, read one by one.
///
/// Holds the iterator that `ImportSectionReader::into_imports` returns.
#[verifier::external_body]
pub struct ImportCursor<'a> {
    imports: Option<Box<dyn Iterator<Item = wasmparser::Result<Import<'a>>> + 'a>>,
}

/// The imports that a cursor has not reached yet.
pub uninterp spec fn imports_left(cursor: ImportCursor) -> Seq<Option<ImportKind>>;

/// `ImportSectionReader::into_imports`: a cursor before the first import.
#[verifier::external_body]
pub(crate) fn import_cursor<'a>(cursor: &SectionCursor<'a>) -> (r: ImportCursor<'a>)
    requires
        current_section(*cursor).kind is Imports,
    ensures
        imports_left(r) == current_section(*cursor).imports,
{
    match &cursor.payload {
        Some(Payload::ImportSection(s)) => ImportCursor {
            imports: Some(Box::new(s.clone().into_imports())),
        },
        _ => ImportCursor { imports: None },
    }
}

/// `next` of the iterator that `ImportSectionReader::into_imports` returns:
/// the next import.
#[verifier::external_body]
pub(crate) fn next_import(cursor: &mut ImportCursor) -> (r: Result<Option<ImportKind>, ()>)
    ensures
        match r {
            Ok(Some(kind)) => {
                &&& imports_left(*old(cursor)).len() > 0
                &&& imports_left(*old(cursor))[0] == Some(kind)
                &&& imports_left(*final(cursor)) == imports_left(*old(cursor)).skip(1)
            },
            Ok(None) => imports_left(*old(cursor)).len() == 0,
            Err(_) => imports_left(*old(cursor)).len() > 0 && imports_left(
                *old(cursor),
            )[0] is None,
        },
{
    let import = cursor.imports.as_mut().and_then(|i| i.next()).transpose().map_err(|_| ())?;
    Ok(import.map(|i| match i.ty {
        TypeRef::Func(_) => ImportKind::Function,
        TypeRef::FuncExact(_) => ImportKind::Function,
        TypeRef::Global(_) => ImportKind::Global,
        _ => ImportKind::Other,
    }))
}

// ---------------------------------------------------------------------------
// The code of a function
// ---------------------------------------------------------------------------

/// The operators of a function, read and validated one by one.
///
/// Holds `wasmparser::OperatorsReader`, the operator that it gave last, and
/// the `wasmparser::FuncValidator` that all operators were put to.
#[verifier::external_body]
pub struct BodyCursor<'a> {
    reader: OperatorsReader<'a>,
    operator: Option<(Operator<'a>, u64)>,
    validator: FuncValidator<ValidatorResources>,
}

/// The operators that a cursor has not reached yet.
pub uninterp spec fn steps_left(cursor: BodyCursor) -> Seq<Option<StepModel>>;

/// The operator that a cursor stands on.
pub uninterp spec fn current_step(cursor: BodyCursor) -> StepModel;

/// Whether the operator that a cursor stands on is still to be put to the
/// validator.
pub uninterp spec fn step_unchecked(cursor: BodyCursor) -> bool;

/// The types of the locals of the function.
pub uninterp spec fn local_types(cursor: BodyCursor) -> Seq<ValType>;

/// The types of the globals of the module.
pub uninterp spec fn global_types(cursor: BodyCursor) -> Seq<ValType>;

/// Whether the code ends where its operators do.
pub uninterp spec fn ends_well(cursor: BodyCursor) -> bool;

/// `FuncToValidate::into_validator`, `FuncValidator::read_locals` and
/// `FunctionBody::get_operators_reader`: a cursor before the first operator of
/// the function that the section cursor stands on.
#[verifier::external_body]
pub(crate) fn open_body<'a>(cursor: &mut SectionCursor<'a>) -> (r: Result<BodyCursor<'a>, ()>)
    requires
        current_section(*old(cursor)).kind is Body,
        !section_unchecked(*old(cursor)),
    ensures
        match r {
            Ok(body) => {
                &&& current_section(*old(cursor)).body is Some
                &&& steps_left(body) == current_section(*old(cursor)).body->0.steps
                &&& local_types(body) == current_section(*old(cursor)).body->0.locals
                &&& global_types(body) == current_section(*old(cursor)).body->0.globals
                &&& ends_well(body) == current_section(*old(cursor)).body->0.ends_well
                &&& !step_unchecked(body)
            },
            Err(_) => current_section(*old(cursor)).body is None,
        },
        sections_left(*final(cursor)) == sections_left(*old(cursor)),
        !section_unchecked(*final(cursor)),
        within_module(*final(cursor)) == within_module(*old(cursor)),
{
    let function = cursor.function.take().ok_or(())?;
    let Some(Payload::CodeSectionEntry(body)) = &cursor.payload else { return Err(()) };
    let mut validator = function.into_validator(Default::default());
    validator.read_locals(&mut body.get_binary_reader()).map_err(|_| ())?;
    let reader = body.get_operators_reader().map_err(|_| ())?;
    Ok(BodyCursor { reader, operator: None, validator })
}

/// `OperatorsReader::eof` and `OperatorsReader::read_with_offset`: moves to
/// the next operator. Gives where it stands, and whether it is the last one.
#[verifier::external_body]
pub(crate) fn next_op(cursor: &mut BodyCursor) -> (r: Result<Option<(u64, bool)>, ()>)
    requires
        !step_unchecked(*old(cursor)),
    ensures
        match r {
            Ok(Some((offset, last))) => {
                &&& steps_left(*old(cursor)).len() > 0
                &&& steps_left(*old(cursor))[0] == Some(current_step(*final(cursor)))
                &&& current_step(*final(cursor)).offset == offset
                &&& current_step(*final(cursor)).last == last
                &&& steps_left(*final(cursor)) == steps_left(*old(cursor)).skip(1)
                &&& step_unchecked(*final(cursor))
            },
            Ok(None) => steps_left(*old(cursor)).len() == 0 && steps_left(*final(cursor)).len()
                == 0,
            Err(_) => steps_left(*old(cursor)).len() > 0 && steps_left(*old(cursor))[0] is None,
        },
        local_types(*final(cursor)) == local_types(*old(cursor)),
        global_types(*final(cursor)) == global_types(*old(cursor)),
        ends_well(*final(cursor)) == ends_well(*old(cursor)),
{
    if cursor.reader.eof() {
        return Ok(None);
    }
    let (operator, offset) = cursor.reader.read_with_offset().map_err(|_| ())?;
    cursor.operator = Some((operator, offset));
    Ok(Some((offset, cursor.reader.eof())))
}

/// The variant of the `wasmparser::Operator` that the cursor stands on.
#[verifier::external_body]
pub(crate) fn op_kind(cursor: &BodyCursor) -> (r: OpKind)
    requires
        step_unchecked(*cursor),
    ensures
        r == current_step(*cursor).kind,
{
    match cursor.operator.as_ref().map(|o| &o.0) {
        Some(Operator::Call { .. }) => OpKind::Call,
        Some(Operator::Return) => OpKind::Return,
        Some(Operator::ReturnCall { function_index }) => OpKind::ReturnCall(*function_index),
        Some(Operator::ReturnCallIndirect { type_index, table_index }) => {
            OpKind::ReturnCallIndirect { type_index: *type_index, table_index: *table_index }
        },
        Some(Operator::ReturnCallRef { type_index }) => OpKind::ReturnCallRef(*type_index),
        Some(Operator::End) => OpKind::End,
        _ => OpKind::Other,
    }
}

/// `FuncValidator::operand_stack_height`: how many operands there are before
/// the operator that the cursor stands on.
#[verifier::external_body]
pub(crate) fn operand_height(cursor: &BodyCursor) -> (r: usize)
    requires
        step_unchecked(*cursor),
    ensures
        r == current_step(*cursor).operands.len(),
        r <= u32::MAX,
{
    cursor.validator.operand_stack_height() as usize
}

/// `FuncValidator::get_operand_type`: the type of the operand at `depth` from
/// the top of the stack.
#[verifier::external_body]
pub(crate) fn operand_type(cursor: &BodyCursor, depth: usize) -> (r: Option<Option<ValType>>)
    requires
        step_unchecked(*cursor),
    ensures
        r == ({
            let operands = current_step(*cursor).operands;
            if depth < operands.len() {
                Some(operands[operands.len() - 1 - depth])
            } else {
                None
            }
        }),
{
    cursor.validator.get_operand_type(depth)
}

/// `FuncValidator::op`: puts the operator that the cursor stands on to the
/// validator.
#[verifier::external_body]
pub(crate) fn check_op(cursor: &mut BodyCursor) -> (r: Result<(), ()>)
    requires
        step_unchecked(*old(cursor)),
    ensures
        r is Ok <==> current_step(*old(cursor)).accepted,
        r is Ok ==> {
            &&& !step_unchecked(*final(cursor))
            &&& steps_left(*final(cursor)) == steps_left(*old(cursor))
        },
        local_types(*final(cursor)) == local_types(*old(cursor)),
        global_types(*final(cursor)) == global_types(*old(cursor)),
        ends_well(*final(cursor)) == ends_well(*old(cursor)),
{
    let (operator, offset) = cursor.operator.as_ref().ok_or(())?;
    cursor.validator.op(*offset, operator).map_err(|_| ())
}

/// `FuncValidator::len_locals`: how many locals the function has.
#[verifier::external_body]
pub(crate) fn local_count(cursor: &BodyCursor) -> (r: u32)
    ensures
        r == local_types(*cursor).len(),
{
    cursor.validator.len_locals()
}

/// `FuncValidator::get_local_type`: the type of a local.
#[verifier::external_body]
pub(crate) fn local_type(cursor: &BodyCursor, index: u32) -> (r: Option<ValType>)
    ensures
        r == if index < local_types(*cursor).len() {
            Some(local_types(*cursor)[index as int])
        } else {
            None
        },
{
    cursor.validator.get_local_type(index)
}

/// `WasmModuleResources::global_at` of the validator's resources: the type of
/// a global.
#[verifier::external_body]
pub(crate) fn global_type(cursor: &BodyCursor, index: u32) -> (r: Option<ValType>)
    ensures
        r == if index < global_types(*cursor).len() {
            Some(global_types(*cursor)[index as int])
        } else {
            None
        },
{
    cursor.validator.resources().global_at(index).map(|g| g.content_type)
}

/// `OperatorsReader::finish`: whether the code ends where its operators do.
#[verifier::external_body]
pub(crate) fn finish_body(cursor: &BodyCursor) -> (r: Result<(), ()>)
    requires
        steps_left(*cursor).len() == 0,
    ensures
        r is Ok <==> ends_well(*cursor),
{
    cursor.reader.finish().map_err(|_| ())
}

} // verus!
