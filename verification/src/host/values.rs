//! How the value of a C variable is found and shown.
use vstd::prelude::*;

use crate::bytes::{byte_range_of_words, le_value, le_value_bound, low_bytes_come_first, read_le,
    read_window, window};
use crate::debug::dwarf::constants::{DW_AT_BYTE_SIZE, DW_AT_ENCODING, DW_AT_FRAME_BASE, DW_AT_NAME,
    DW_AT_TYPE, DW_TAG_BASE_TYPE, DW_TAG_CONST_TYPE, DW_TAG_POINTER_TYPE, DW_TAG_TYPEDEF,
    DW_TAG_VOLATILE_TYPE};
use crate::debug::dwarf::entry::{AttrValue, DieEntry, EntryModel, ValueModel, attr_value,
    entries_of, find_entry, index_at, name_of, type_offset, udata_of};
use crate::debug::dwarf::expression::{ExprOp, next_operation, operation_cursor, operations_of};
use crate::debug::dwarf::reader::UnitEncoding;
use crate::text::{all_hex_digits, begins_with, concat, decimal, hex_numerals_spell_numbers,
    hex_value, lower, lowered, numerals_spell_numbers, own, padded_hex, padded_hex_text, same,
    signed_decimal, signed_text, spells, starts_with, unsigned_text};
use crate::types::WasmLocation;
use crate::wasm::reader::ValueKind;

verus! {

broadcast use vstd::seq_lib::group_seq_properties;

// ---------------------------------------------------------------------------
// Types
// ---------------------------------------------------------------------------

/// How a variable's value should be interpreted.
#[derive(Debug, Clone, Copy, PartialEq, Eq, Structural)]
pub enum TypeKind {
    Signed,
    Unsigned,
    Float,
    Bool,
    Pointer,
    Other,
}

/// A C type: its name, how its values are interpreted, and their size.
#[derive(Debug)]
pub struct CType {
    pub name: String,
    pub kind: TypeKind,
    pub byte_size: u32,
}

/// The mathematical value of a [`CType`].
pub struct CTypeModel {
    pub name: Seq<char>,
    pub kind: TypeKind,
    pub byte_size: u32,
}

impl View for CType {
    type V = CTypeModel;

    open spec fn view(&self) -> CTypeModel {
        CTypeModel { name: self.name@, kind: self.kind, byte_size: self.byte_size }
    }
}

/// The name that `gimli` gives a tag.
pub uninterp spec fn tag_text(tag: u16) -> Seq<char>;

/// `Display` of `gimli::DwTag`: the name of a tag.
#[verifier::external_body]
fn tag_name(tag: u16) -> (r: String)
    ensures
        r@ == tag_text(tag),
{
    format!("{}", gimli::DwTag(tag))
}

/// A type that is not known.
pub open spec fn unknown_type() -> CTypeModel {
    CTypeModel { name: "?"@, kind: TypeKind::Other, byte_size: 4 }
}

/// The size that an entry gives, 4 where it gives none.
pub open spec fn size_of_entry(e: EntryModel) -> u32 {
    match attr_value(e, DW_AT_BYTE_SIZE) {
        Some(v) => match udata_of(v) {
            Some(n) => n as u32,
            None => 4,
        },
        None => 4,
    }
}

/// The name of an entry, empty where it has none.
pub open spec fn entry_name(e: EntryModel) -> Seq<char> {
    match name_of(e) {
        Some(name) => name,
        None => seq![],
    }
}

/// How values of an encoding are interpreted.
pub open spec fn kind_of_encoding(encoding: u16) -> TypeKind {
    if encoding == 5 || encoding == 6 {
        TypeKind::Signed
    } else if encoding == 7 || encoding == 8 {
        TypeKind::Unsigned
    } else if encoding == 4 {
        TypeKind::Float
    } else if encoding == 2 {
        TypeKind::Bool
    } else {
        TypeKind::Unsigned
    }
}

/// The number that the encoding of a base type is.
pub open spec fn encoding_number(value: ValueModel) -> Option<u64> {
    match value {
        ValueModel::Encoding(e) => Some(e as u64),
        _ => udata_of(value),
    }
}

/// How values of a base type are interpreted: by its encoding where it gives
/// one, else by its name.
pub open spec fn kind_of_base(e: EntryModel) -> TypeKind {
    let by_name = if lowered(entry_name(e)) == "float"@ || lowered(entry_name(e)) == "double"@ {
        TypeKind::Float
    } else {
        TypeKind::Unsigned
    };
    match attr_value(e, DW_AT_ENCODING) {
        Some(v) => match encoding_number(v) {
            Some(n) => kind_of_encoding(n as u16),
            None => by_name,
        },
        None => by_name,
    }
}

/// The type at `offset`; at most `depth` references are followed.
pub open spec fn type_at(es: Seq<EntryModel>, offset: Option<usize>, depth: nat) -> CTypeModel
    decreases depth,
{
    if depth == 0 {
        unknown_type()
    } else {
        match offset {
            None => unknown_type(),
            Some(o) => match index_at(es, o) {
                None => unknown_type(),
                Some(i) => {
                    let e = es[i];
                    if e.tag == DW_TAG_BASE_TYPE {
                        CTypeModel {
                            name: entry_name(e),
                            kind: kind_of_base(e),
                            byte_size: size_of_entry(e),
                        }
                    } else if e.tag == DW_TAG_POINTER_TYPE {
                        let target = match attr_value(e, DW_AT_TYPE) {
                            Some(_) => type_at(es, type_offset(e), (depth - 1) as nat).name,
                            None => "void"@,
                        };
                        CTypeModel { name: target + "*"@, kind: TypeKind::Pointer, byte_size: 4 }
                    } else if e.tag == DW_TAG_TYPEDEF || e.tag == DW_TAG_CONST_TYPE || e.tag
                        == DW_TAG_VOLATILE_TYPE {
                        match attr_value(e, DW_AT_TYPE) {
                            Some(_) => {
                                let inner = type_at(es, type_offset(e), (depth - 1) as nat);
                                if e.tag == DW_TAG_TYPEDEF && entry_name(e).len() > 0 {
                                    CTypeModel { name: entry_name(e), ..inner }
                                } else {
                                    inner
                                }
                            },
                            None => CTypeModel {
                                name: entry_name(e),
                                kind: TypeKind::Other,
                                byte_size: 4,
                            },
                        }
                    } else {
                        CTypeModel {
                            name: if entry_name(e).len() > 0 {
                                entry_name(e)
                            } else {
                                "<"@ + tag_text(e.tag) + ">"@
                            },
                            kind: TypeKind::Other,
                            byte_size: size_of_entry(e),
                        }
                    }
                },
            },
        }
    }
}

/// How many references are followed to find out a type.
pub const TYPE_DEPTH: u8 = 8;

/// The type of a variable. Where its kind is not known, the name of a
/// floating-point type tells it.
pub open spec fn variable_type(es: Seq<EntryModel>, e: EntryModel) -> CTypeModel {
    let t = match attr_value(e, DW_AT_TYPE) {
        Some(_) => type_at(es, type_offset(e), TYPE_DEPTH as nat),
        None => unknown_type(),
    };
    let n = lowered(t.name);
    if t.kind != TypeKind::Other {
        t
    } else if n == "float"@ || begins_with(n, "float "@) {
        CTypeModel { kind: TypeKind::Float, byte_size: 4, ..t }
    } else if n == "double"@ || begins_with(n, "double "@) {
        CTypeModel { kind: TypeKind::Float, byte_size: 8, ..t }
    } else {
        t
    }
}

fn type_size(e: &DieEntry) -> (r: u32)
    ensures
        r == size_of_entry(e@),
{
    match e.attr_value(DW_AT_BYTE_SIZE) {
        Some(v) => match v.udata_value() {
            Some(n) => n as u32,
            None => 4,
        },
        None => 4,
    }
}

fn type_entry_name(e: &DieEntry) -> (r: String)
    ensures
        r@ == entry_name(e@),
{
    match e.attr_text(DW_AT_NAME) {
        Some(name) => name,
        None => {
            let none = String::new();
            assert(none@ =~= seq![]);
            none
        },
    }
}

fn base_kind(e: &DieEntry, name: &String) -> (r: TypeKind)
    requires
        name@ == entry_name(e@),
    ensures
        r == kind_of_base(e@),
{
    let encoding: Option<u64> = match e.attr_value(DW_AT_ENCODING) {
        Some(AttrValue::Encoding(n)) => Some(*n as u64),
        Some(v) => v.udata_value(),
        None => None,
    };
    match encoding {
        Some(n) => match n as u16 {
            5 | 6 => TypeKind::Signed,
            7 | 8 => TypeKind::Unsigned,
            4 => TypeKind::Float,
            2 => TypeKind::Bool,
            _ => TypeKind::Unsigned,
        },
        None => {
            // Encoding missing: infer from type name so float/double display correctly
            let n = lower(name.as_str());
            if same(n.as_str(), "float") || same(n.as_str(), "double") {
                TypeKind::Float
            } else {
                TypeKind::Unsigned
            }
        },
    }
}

/// Follows a type reference to find out name, kind and size.
/// `depth` prevents infinite loops through pointer/typedef chains.
pub fn read_type(es: &Vec<DieEntry>, offset: Option<usize>, depth: u8) -> (r: CType)
    ensures
        r@ == type_at(entries_of(es@), offset, depth as nat),
    decreases depth,
{
    let ghost all = entries_of(es@);
    if depth == 0 {
        return CType { name: own("?"), kind: TypeKind::Other, byte_size: 4 };
    }
    let o: usize = match offset {
        Some(o) => o,
        None => {
            return CType { name: own("?"), kind: TypeKind::Other, byte_size: 4 };
        },
    };
    let i: usize = match find_entry(es, o) {
        Some(i) => i,
        None => {
            return CType { name: own("?"), kind: TypeKind::Other, byte_size: 4 };
        },
    };
    let e = &es[i];
    assert(all[i as int] == e@);
    let tag: u16 = e.tag;
    let name = type_entry_name(e);
    let has_inner = e.attr_value(DW_AT_TYPE).is_some();
    if tag == DW_TAG_BASE_TYPE {
        let kind = base_kind(e, &name);
        CType { name, kind, byte_size: type_size(e) }
    } else if tag == DW_TAG_POINTER_TYPE {
        let target = if has_inner {
            read_type(es, e.type_offset(), depth - 1).name
        } else {
            own("void")
        };
        CType { name: concat(target.as_str(), "*"), kind: TypeKind::Pointer, byte_size: 4 }
    } else if tag == DW_TAG_TYPEDEF || tag == DW_TAG_CONST_TYPE || tag == DW_TAG_VOLATILE_TYPE {
        if has_inner {
            let inner = read_type(es, e.type_offset(), depth - 1);
            if tag == DW_TAG_TYPEDEF && !is_empty(&name) {
                CType { name, kind: inner.kind, byte_size: inner.byte_size }
            } else {
                inner
            }
        } else {
            CType { name, kind: TypeKind::Other, byte_size: 4 }
        }
    } else {
        // struct, union, array, enum, ...
        let byte_size: u32 = type_size(e);
        if is_empty(&name) {
            let open = concat("<", tag_name(tag).as_str());
            CType { name: concat(open.as_str(), ">"), kind: TypeKind::Other, byte_size }
        } else {
            CType { name, kind: TypeKind::Other, byte_size }
        }
    }
}

fn is_empty(s: &String) -> (r: bool)
    ensures
        r == (s@.len() == 0),
{
    let none = String::new();
    assert(none@ =~= seq![]);
    let r = same(s.as_str(), none.as_str());
    assert(s@.len() == 0 ==> s@ =~= none@);
    r
}

pub fn type_of_variable(es: &Vec<DieEntry>, e: &DieEntry) -> (r: CType)
    ensures
        r@ == variable_type(entries_of(es@), e@),
{
    let mut t = if e.attr_value(DW_AT_TYPE).is_some() {
        read_type(es, e.type_offset(), TYPE_DEPTH)
    } else {
        CType { name: own("?"), kind: TypeKind::Other, byte_size: 4 }
    };
    // If DWARF gave us Other (missing/wrong type ref or encoding), infer float from type name
    // so that e.g. "float j = 10.4" displays correctly.
    if t.kind == TypeKind::Other {
        let n = lower(t.name.as_str());
        if same(n.as_str(), "float") || starts_with(n.as_str(), "float ") {
            t.kind = TypeKind::Float;
            t.byte_size = 4;
        } else if same(n.as_str(), "double") || starts_with(n.as_str(), "double ") {
            t.kind = TypeKind::Float;
            t.byte_size = 8;
        }
    }
    t
}

// ---------------------------------------------------------------------------
// Locations
// ---------------------------------------------------------------------------

/// Where a variable's value lives at runtime.
#[derive(Debug, Clone, Copy, PartialEq, Eq, Structural)]
pub enum VarLoc {
    /// Directly in a WASM local, global, or operand slot.
    Wasm(WasmLocation),
    /// In linear memory at `frame_base_global_value + offset`.
    FrameRelative(i64),
    /// In linear memory at `global_value + offset`.
    GlobalPlusOffset { global_idx: usize, offset: u64 },
}

/// The first operation of an expression, where it can be read.
pub open spec fn first_operation(ops: Seq<Option<ExprOp>>) -> Option<ExprOp> {
    if ops.len() == 0 {
        None
    } else {
        ops[0]
    }
}

/// Where an expression says that a value lives. A global followed by an added
/// constant is a place in memory; a constant alone is taken relative to the
/// frame base.
pub open spec fn location_of(ops: Seq<Option<ExprOp>>) -> Option<VarLoc> {
    match first_operation(ops) {
        Some(ExprOp::WasmLocal(i)) => Some(VarLoc::Wasm(WasmLocation::Local(i as usize))),
        Some(ExprOp::WasmGlobal(i)) => if ops.len() > 1 && ops[1] is None {
            None
        } else {
            match first_operation(ops.skip(1)) {
                Some(ExprOp::PlusConstant(value)) => Some(
                    VarLoc::GlobalPlusOffset { global_idx: i as usize, offset: value },
                ),
                _ => Some(VarLoc::Wasm(WasmLocation::Global(i as usize))),
            }
        },
        Some(ExprOp::WasmStack(i)) => Some(VarLoc::Wasm(WasmLocation::Operand(i as usize))),
        Some(ExprOp::FrameOffset(offset)) => Some(VarLoc::FrameRelative(offset)),
        Some(ExprOp::PlusConstant(value)) => Some(VarLoc::FrameRelative(value as i64)),
        _ => None,
    }
}

/// Decode a location expression.
///
/// Handles:
/// - Single WASM ops: `DW_OP_WASM_location` (local/global/stack)
/// - Frame-relative: `DW_OP_fbreg N` → `FrameRelative(N)`
/// - Two-op global+offset: `DW_OP_WASM_location global N; DW_OP_plus_uconst M` → `GlobalPlusOffset`
/// - Standalone `DW_OP_plus_uconst N` → `FrameRelative(N)` (implicit frame base)
pub fn wasm_loc_from_expr(expr: &Vec<u8>, encoding: UnitEncoding) -> (r: Option<VarLoc>)
    ensures
        r == location_of(operations_of(expr@, encoding)),
{
    let ghost ops = operations_of(expr@, encoding);
    let mut cursor = operation_cursor(expr, encoding);
    let first = match next_operation(&mut cursor) {
        Ok(Some(op)) => op,
        _ => {
            return None;
        },
    };
    match first {
        ExprOp::WasmLocal(index) => Some(VarLoc::Wasm(WasmLocation::Local(index as usize))),
        ExprOp::WasmGlobal(index) => {
            assert(ops.len() > 1 ==> ops.skip(1)[0] == ops[1]);
            match next_operation(&mut cursor) {
                Ok(Some(ExprOp::PlusConstant(value))) => Some(
                    VarLoc::GlobalPlusOffset { global_idx: index as usize, offset: value },
                ),
                Ok(_) => Some(VarLoc::Wasm(WasmLocation::Global(index as usize))),
                Err(_) => None,
            }
        },
        ExprOp::WasmStack(index) => Some(VarLoc::Wasm(WasmLocation::Operand(index as usize))),
        ExprOp::FrameOffset(offset) => Some(VarLoc::FrameRelative(offset)),
        ExprOp::PlusConstant(value) => Some(VarLoc::FrameRelative(value as i64)),
        ExprOp::Other => None,
    }
}

/// The bytes of the expression that an attribute holds itself.
pub open spec fn own_expression(e: EntryModel, name: u16) -> Option<Seq<u8>> {
    match attr_value(e, name) {
        Some(ValueModel::Exprloc(x)) => Some(x),
        _ => None,
    }
}

/// The global that a subprogram gives as its frame base.
pub open spec fn given_frame_base(e: EntryModel, encoding: UnitEncoding) -> Option<usize> {
    match own_expression(e, DW_AT_FRAME_BASE) {
        Some(x) => match first_operation(operations_of(x, encoding)) {
            Some(ExprOp::WasmGlobal(i)) => Some(i as usize),
            _ => None,
        },
        None => None,
    }
}

/// Extract the global index used as the frame base from a subprogram's DW_AT_frame_base.
/// Typical WASM DWARF: DW_OP_WASM_location 0x03 sp_global_idx.
pub fn frame_base_global_from_entry(e: &DieEntry, encoding: UnitEncoding) -> (r: Option<usize>)
    ensures
        r == given_frame_base(e@, encoding),
{
    match e.attr_value(DW_AT_FRAME_BASE) {
        Some(AttrValue::Exprloc(expr)) => {
            let mut cursor = operation_cursor(expr, encoding);
            match next_operation(&mut cursor) {
                Ok(Some(ExprOp::WasmGlobal(index))) => Some(index as usize),
                _ => None,
            }
        },
        _ => None,
    }
}

// ---------------------------------------------------------------------------
// Values
// ---------------------------------------------------------------------------

/// A value as it is shown. Floating-point numbers are given by their bits.
#[derive(Debug)]
pub enum HostValue {
    Text(String),
    F32(u32),
    F64(u64),
}

/// The mathematical value of a [`HostValue`].
pub enum HostValueModel {
    Text(Seq<char>),
    F32(u32),
    F64(u64),
}

impl View for HostValue {
    type V = HostValueModel;

    open spec fn view(&self) -> HostValueModel {
        match self {
            HostValue::Text(t) => HostValueModel::Text(t@),
            HostValue::F32(bits) => HostValueModel::F32(*bits),
            HostValue::F64(bits) => HostValueModel::F64(*bits),
        }
    }
}

/// How a value of a C type is read from memory.
pub open spec fn read_kind(kind: TypeKind, byte_size: u32) -> ValueKind {
    match kind {
        TypeKind::Float => if byte_size <= 4 {
            ValueKind::F32
        } else {
            ValueKind::F64
        },
        TypeKind::Pointer => ValueKind::I32,
        _ => if byte_size <= 4 {
            ValueKind::I32
        } else {
            ValueKind::I64
        },
    }
}

/// Map a C type's kind and byte size to the WASM type used to read it from memory.
pub fn c_val_type(kind: TypeKind, byte_size: u32) -> (r: ValueKind)
    ensures
        r == read_kind(kind, byte_size),
{
    match kind {
        TypeKind::Float => if byte_size <= 4 {
            ValueKind::F32
        } else {
            ValueKind::F64
        },
        TypeKind::Pointer => ValueKind::I32,
        _ => if byte_size <= 4 {
            ValueKind::I32
        } else {
            ValueKind::I64
        },
    }
}

/// The little-endian word at an address.
pub open spec fn word_at(buffer: Seq<u8>, at: int) -> u32 {
    le_value(window(buffer, at, 4)) as u32
}

/// The 64-bit number that two words make.
pub open spec fn joined_words(low: u32, high: u32) -> u64 {
    (high * 0x1_0000_0000 + low) as u64
}

/// A 32-bit word as a signed number.
pub open spec fn signed_word(w: u32) -> int {
    if w >= 0x8000_0000 {
        w - 0x1_0000_0000
    } else {
        w as int
    }
}

/// A 64-bit word as a signed number.
pub open spec fn signed_wide(w: u64) -> int {
    if w >= 0x8000_0000_0000_0000 {
        w - 0x1_0000_0000_0000_0000
    } else {
        w as int
    }
}

/// What is shown of the value at an address.
pub open spec fn shown_value(buffer: Seq<u8>, at: u32, ty: ValueKind, kind: TypeKind) -> HostValueModel {
    let w = word_at(buffer, at as int);
    match ty {
        ValueKind::I32 => HostValueModel::Text(
            match kind {
                TypeKind::Unsigned => decimal(w as nat),
                TypeKind::Bool => if w != 0 {
                    "true"@
                } else {
                    "false"@
                },
                TypeKind::Pointer => "0x"@ + padded_hex(w as nat, 8),
                _ => signed_decimal(signed_word(w)),
            },
        ),
        ValueKind::I64 => {
            let v = joined_words(w, word_at(buffer, at + 4));
            HostValueModel::Text(
                match kind {
                    TypeKind::Unsigned => decimal(v as nat),
                    _ => signed_decimal(signed_wide(v)),
                },
            )
        },
        ValueKind::F32 => HostValueModel::F32(w),
        ValueKind::F64 => HostValueModel::F64(le_value(window(buffer, at as int, 8)) as u64),
        _ => HostValueModel::Text(seq![]),
    }
}

/// Reads the little-endian word at an address.
pub fn read_word(buffer: &Vec<u8>, at: usize) -> (r: u32)
    ensures
        r == word_at(buffer@, at as int),
        r == le_value(window(buffer@, at as int, 4)),
{
    let bytes = read_window(buffer, at, 4);
    proof {
        le_value_bound(bytes@);
        byte_range_of_words();
    }
    read_le(&bytes) as u32
}

fn as_signed_word(w: u32) -> (r: i64)
    ensures
        r == signed_word(w),
{
    if w >= 0x8000_0000 {
        w as i64 - 0x1_0000_0000
    } else {
        w as i64
    }
}

fn as_signed_wide(w: u64) -> (r: i64)
    ensures
        r == signed_wide(w),
{
    if w >= 0x8000_0000_0000_0000 {
        (w as i128 - 0x1_0000_0000_0000_0000i128) as i64
    } else {
        w as i64
    }
}

/// Read a value from a buffer and format it.
pub fn format_value(buffer: &Vec<u8>, byte_offset: u32, ty: ValueKind, kind: TypeKind) -> (r:
    HostValue)
    ensures
        r@ == shown_value(buffer@, byte_offset, ty, kind),
{
    let at: usize = byte_offset as usize;
    let w: u32 = read_word(buffer, at);
    match ty {
        ValueKind::I32 => {
            let text = match kind {
                TypeKind::Unsigned => unsigned_text(w as u64),
                TypeKind::Bool => if w != 0 {
                    own("true")
                } else {
                    own("false")
                },
                TypeKind::Pointer => concat("0x", padded_hex_text(w as u64, 8).as_str()),
                _ => signed_text(as_signed_word(w)),
            };
            HostValue::Text(text)
        },
        ValueKind::I64 => {
            let high: u32 = second_word(buffer, byte_offset);
            let v: u64 = high as u64 * 0x1_0000_0000 + w as u64;
            let text = match kind {
                TypeKind::Unsigned => unsigned_text(v),
                _ => signed_text(as_signed_wide(v)),
            };
            HostValue::Text(text)
        },
        ValueKind::F32 => HostValue::F32(w),
        ValueKind::F64 => {
            let bytes = read_window(buffer, at, 8);
            proof {
                le_value_bound(bytes@);
                byte_range_of_words();
            }
            HostValue::F64(read_le(&bytes))
        },
        _ => {
            let none = String::new();
            assert(none@ =~= seq![]);
            HostValue::Text(none)
        },
    }
}

/// The word behind the one at an address.
fn second_word(buffer: &Vec<u8>, at: u32) -> (r: u32)
    ensures
        r == word_at(buffer@, at + 4),
{
    let wide = read_window(buffer, at as usize, 8);
    let part = read_window(&wide, 4, 4);
    assert(part@ =~= window(buffer@, at + 4, 4));
    proof {
        le_value_bound(part@);
        byte_range_of_words();
    }
    read_le(&part) as u32
}

// ---------------------------------------------------------------------------
// What is shown
// ---------------------------------------------------------------------------

/// The number that four bytes spell.
pub open spec fn four_at(buffer: Seq<u8>, at: int) -> int {
    buffer[at] + 0x100 * buffer[at + 1] + 0x1_0000 * buffer[at + 2] + 0x100_0000 * buffer[at + 3]
}

/// The number that eight bytes spell.
pub open spec fn eight_at(buffer: Seq<u8>, at: int) -> int {
    four_at(buffer, at) + 0x1_0000_0000 * four_at(buffer, at + 4)
}

/// Values are shown by the bytes at their address. Unsigned numbers are spelled as they
/// are, other numbers as signed ones: the uppermost bit tells whether they are
/// negative. Truth values are `false` where all bytes are 0, pointers are shown by
/// eight hexadecimal digits, and floating-point numbers are handed on by their bits.
pub proof fn values_are_shown_by_their_bytes(buffer: Seq<u8>, at: u32, kind: TypeKind)
    requires
        at + 8 <= buffer.len(),
    ensures
        shown_value(buffer, at, ValueKind::I32, kind) matches HostValueModel::Text(t) && {
            let w = four_at(buffer, at as int);
            &&& kind == TypeKind::Unsigned ==> spells(t, w)
            &&& kind == TypeKind::Bool ==> t == if w == 0 {
                "false"@
            } else {
                "true"@
            }
            &&& kind == TypeKind::Pointer ==> t.len() == 10 && t[0] == '0' && t[1] == 'x'
                && all_hex_digits(t.skip(2)) && hex_value(t.skip(2)) == w
            &&& kind == TypeKind::Signed || kind == TypeKind::Other || kind == TypeKind::Float
                ==> spells(
                t,
                if buffer[at + 3] < 0x80 {
                    w
                } else {
                    w - 0x1_0000_0000
                },
            )
        },
        shown_value(buffer, at, ValueKind::I64, kind) matches HostValueModel::Text(t) && {
            let v = eight_at(buffer, at as int);
            &&& kind == TypeKind::Unsigned ==> spells(t, v)
            &&& kind != TypeKind::Unsigned ==> spells(
                t,
                if buffer[at + 7] < 0x80 {
                    v
                } else {
                    v - 0x1_0000_0000_0000_0000
                },
            )
        },
        shown_value(buffer, at, ValueKind::F32, kind) matches HostValueModel::F32(bits) && bits
            == four_at(buffer, at as int),
        shown_value(buffer, at, ValueKind::F64, kind) matches HostValueModel::F64(bits) && bits
            == eight_at(buffer, at as int),
{
    let w = word_at(buffer, at as int);
    low_bytes_come_first(window(buffer, at as int, 4));
    low_bytes_come_first(window(buffer, at + 4, 4));
    low_bytes_come_first(window(buffer, at as int, 8));
    assert(w == four_at(buffer, at as int));
    numerals_spell_numbers(w as int);
    numerals_spell_numbers(signed_word(w));
    hex_numerals_spell_numbers(w as nat, 8);
    reveal_strlit("0x");
    let t = "0x"@ + padded_hex(w as nat, 8);
    assert(t.skip(2) =~= padded_hex(w as nat, 8));
    let v = joined_words(w, word_at(buffer, at + 4));
    assert(v == eight_at(buffer, at as int));
    numerals_spell_numbers(v as int);
    numerals_spell_numbers(signed_wide(v));
}

/// How a value is read goes by its size: up to four bytes as a 32-bit value, more as a
/// 64-bit one. Pointers have four bytes.
pub proof fn values_are_read_by_their_size(kind: TypeKind, size: u32)
    ensures
        kind == TypeKind::Float && size <= 4 ==> read_kind(kind, size) == ValueKind::F32,
        kind == TypeKind::Float && size > 4 ==> read_kind(kind, size) == ValueKind::F64,
        kind == TypeKind::Pointer ==> read_kind(kind, size) == ValueKind::I32,
        kind != TypeKind::Float && size <= 4 ==> read_kind(kind, size) == ValueKind::I32,
        kind != TypeKind::Float && kind != TypeKind::Pointer && size > 4 ==> read_kind(kind, size)
            == ValueKind::I64,
{
}

/// A base type is called by its name, has the size that `DW_AT_byte_size` says, and is
/// interpreted by its `DW_AT_encoding`.
pub proof fn base_types_say_their_kind(es: Seq<EntryModel>, i: int, offset: usize, depth: nat)
    requires
        depth > 0,
        index_at(es, offset) == Some(i),
        es[i].tag == 0x24,
    ensures
        ({
            let t = type_at(es, Some(offset), depth);
            &&& name_of(es[i]) matches Some(name) ==> t.name == name
            &&& attr_value(es[i], 0x0b) matches Some(ValueModel::Udata(n)) ==> n <= u32::MAX
                ==> t.byte_size == n
            &&& attr_value(es[i], 0x3e) matches Some(ValueModel::Encoding(c)) ==> t.kind == if c
                == 0x05 || c == 0x06 {
                TypeKind::Signed
            } else if c == 0x04 {
                TypeKind::Float
            } else if c == 0x02 {
                TypeKind::Bool
            } else {
                TypeKind::Unsigned
            }
        }),
{
}

/// A pointer is called by what it points at, with `*` behind it. Modifiers stand for
/// what they modify, and a named `typedef` gives it another name.
pub proof fn derived_types_follow_their_target(
    es: Seq<EntryModel>,
    i: int,
    offset: usize,
    target: usize,
    depth: nat,
)
    requires
        depth > 0,
        index_at(es, offset) == Some(i),
        attr_value(es[i], 0x49) == Some(ValueModel::UnitRef(target)),
    ensures
        ({
            let t = type_at(es, Some(offset), depth);
            let inner = type_at(es, Some(target), (depth - 1) as nat);
            &&& es[i].tag == 0x0f ==> t.name == inner.name + "*"@ && t.kind == TypeKind::Pointer
                && t.byte_size == 4
            &&& es[i].tag == 0x16 || es[i].tag == 0x26 || es[i].tag == 0x35 ==> t.kind == inner.kind
                && t.byte_size == inner.byte_size
            &&& es[i].tag == 0x26 || es[i].tag == 0x35 ==> t.name == inner.name
            &&& es[i].tag == 0x16 ==> match name_of(es[i]) {
                Some(name) => name.len() > 0 ==> t.name == name,
                None => t.name == inner.name,
            }
        }),
{
}

/// An expression says where a value lives: in a local, a global or on the operand
/// stack, at an offset from the frame base, or at an offset from a global.
pub proof fn expressions_say_where_values_live(ops: Seq<Option<ExprOp>>, i: u32, n: u64, s: i64)
    ensures
        ops.len() > 0 && ops[0] == Some(ExprOp::WasmLocal(i)) ==> location_of(ops) == Some(
            VarLoc::Wasm(WasmLocation::Local(i as usize)),
        ),
        ops.len() > 0 && ops[0] == Some(ExprOp::WasmStack(i)) ==> location_of(ops) == Some(
            VarLoc::Wasm(WasmLocation::Operand(i as usize)),
        ),
        ops.len() > 0 && ops[0] == Some(ExprOp::FrameOffset(s)) ==> location_of(ops) == Some(
            VarLoc::FrameRelative(s),
        ),
        ops.len() > 0 && ops[0] == Some(ExprOp::PlusConstant(n)) && n <= i64::MAX ==> location_of(ops)
            == Some(VarLoc::FrameRelative(n as i64)),
        ops.len() == 1 && ops[0] == Some(ExprOp::WasmGlobal(i)) ==> location_of(ops) == Some(
            VarLoc::Wasm(WasmLocation::Global(i as usize)),
        ),
        ops.len() > 1 && ops[0] == Some(ExprOp::WasmGlobal(i)) && ops[1] == Some(
            ExprOp::PlusConstant(n),
        ) ==> location_of(ops) == Some(
            VarLoc::GlobalPlusOffset { global_idx: i as usize, offset: n },
        ),
        ops.len() == 0 ==> location_of(ops) is None,
{
    if ops.len() > 1 {
        assert(ops.skip(1)[0] == ops[1]);
    }
}

/// A base type that does not say how it is encoded is told by its name: `float` and
/// `double`, in upper or lower case, are floating-point numbers, and others are
/// unsigned. A type whose kind is not known is told by its name, too. A variable
/// without a type is called `?` and has four bytes.
pub proof fn names_tell_the_kind(es: Seq<EntryModel>, i: int, offset: usize, depth: nat, e: EntryModel)
    ensures
        depth > 0 && index_at(es, offset) == Some(i) && es[i].tag == 0x24 && attr_value(
            es[i],
            0x3e,
        ) is None ==> type_at(es, Some(offset), depth).kind == match name_of(es[i]) {
            Some(name) => if lowered(name) == "float"@ || lowered(name) == "double"@ {
                TypeKind::Float
            } else {
                TypeKind::Unsigned
            },
            None => type_at(es, Some(offset), depth).kind,
        },
        attr_value(e, 0x49) is None ==> variable_type(es, e).name == "?"@ && variable_type(
            es,
            e,
        ).byte_size == 4 && variable_type(es, e).kind == TypeKind::Other,
        attr_value(e, 0x49) is Some ==> {
            let t = type_at(es, type_offset(e), 8);
            &&& variable_type(es, e).name == t.name
            &&& t.kind != TypeKind::Other ==> variable_type(es, e) == t
            &&& t.kind == TypeKind::Other && lowered(t.name) == "float"@ ==> variable_type(es, e).kind
                == TypeKind::Float && variable_type(es, e).byte_size == 4
            &&& t.kind == TypeKind::Other && lowered(t.name) == "double"@ ==> variable_type(
                es,
                e,
            ).kind == TypeKind::Float && variable_type(es, e).byte_size == 8
        },
{
    reveal_strlit("?");
    reveal_strlit("float");
    reveal_strlit("float ");
    reveal_strlit("double");
    reveal_strlit("double ");
    assert("float"@.len() == 5);
    assert("double"@.len() == 6);
    assert("float "@.len() == 6);
    assert("?"@.len() == 1);
    assert(lowered("?"@).len() == 1);
    assert("double"@[0] == 'd');
    assert("float "@[0] == 'f');
    if begins_with("double"@, "float "@) {
        assert("double"@.subrange(0, 6)[0] == "float "@[0]);
    }
}

} // verus!
