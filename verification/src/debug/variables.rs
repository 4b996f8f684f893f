//! Variables of a paused program.
use vstd::prelude::*;

use crate::bytes::{as_signed, le_bytes, le_round_trip, le_value, le_value_bound, byte_range_of_words,
    low_bytes_come_first, read_le, read_signed_le, read_window, window, write_le};
use crate::text::{own, same};
use crate::types::{CodeOffset, MemoryDescriptor, MemoryOffset};
use super::dwarf::constants::{DW_ATE_ASCII, DW_ATE_SIGNED, DW_ATE_SIGNED_CHAR, DW_ATE_UNSIGNED,
    DW_ATE_UNSIGNED_CHAR, DW_ATE_UTF, DW_AT_LOCATION, DW_TAG_FORMAL_PARAMETER,
    DW_TAG_LOCAL_VARIABLE, DW_TAG_SUBPROGRAM, DW_TAG_VARIABLE};
use super::dwarf::die::{Die, decides_by, die_indices};
use super::dwarf::entry::{EntryModel, Visit, expression_at, is_below, is_open_to, is_tree, pc_range,
    walk, walks_visit_what_is_open};
use super::dwarf::expression::{DwarfValue, Piece, PieceLocation, PieceModel, PlaceModel, pieces_of};
use super::graph::Type;
use super::types::{BoundModel, DeclModel, MemberModel, ReferenceKind, StructureMember,
    TypeDeclaration, Value, members_of};

verus! {

broadcast use vstd::seq_lib::group_seq_properties;

// ---------------------------------------------------------------------------
// Which variables are live
// ---------------------------------------------------------------------------

/// Whether entries with this tag are variables. `DW_TAG_variable` is what
/// modern DWARF emits for locals; `DW_TAG_local_variable` is a legacy alias
/// kept for older producers.
pub open spec fn is_variable_tag(tag: u16) -> bool {
    tag == DW_TAG_FORMAL_PARAMETER || tag == DW_TAG_VARIABLE || tag == DW_TAG_LOCAL_VARIABLE
}

/// What the search for variables that are live at `pc` does at an entry: it
/// passes over blocks that do not cover `pc`.
pub open spec fn live_visit(e: EntryModel, pc: u64) -> Visit {
    if is_variable_tag(e.tag) {
        Visit::Continue
    } else {
        match pc_range(e) {
            Some((low, high)) => if pc < low || pc >= high {
                Visit::SkipChildren
            } else {
                Visit::Continue
            },
            None => Visit::Continue,
        }
    }
}

/// The entries among `visited` that are variables.
pub open spec fn variables_among(es: Seq<EntryModel>, visited: Seq<int>) -> Seq<int>
    decreases visited.len(),
{
    if visited.len() == 0 {
        seq![]
    } else {
        let before = variables_among(es, visited.drop_last());
        if is_variable_tag(es[visited.last()].tag) {
            before.push(visited.last())
        } else {
            before
        }
    }
}

/// The variables below entry `i` that are live at `pc`, in the order in which
/// a walk level by level meets them.
pub open spec fn live_variables(es: Seq<EntryModel>, i: int, pc: u64) -> Seq<int> {
    variables_among(es, walk(es, seq![i], |k: int| live_visit(es[k], pc)))
}

/// Gets all live variables at the given PC.
///
/// `die` should be a reference to a subprogram,
/// and `pc` should be an offset within the wasm code segment.
pub fn get_variables<'a>(die: &Die<'a>, pc: CodeOffset) -> (r: Vec<Die<'a>>)
    requires
        die.wf(),
        die.entry().tag == DW_TAG_SUBPROGRAM,
    ensures
        die_indices(r@) == live_variables(die.ctx.unit@.entries, die.index as int, pc.0),
        forall|n: int|
            0 <= n < r@.len() ==> {
                &&& (#[trigger] r@[n]).wf()
                &&& r@[n].ctx == die.ctx
                &&& is_variable_tag(r@[n].entry().tag)
            },
{
    let ghost es = die.ctx.unit@.entries;
    let ghost decide = |k: int| live_visit(es[k], pc.0);
    let visit = |child: Die<'a>| -> (verdict: Visit)
        requires
            child.wf(),
        ensures
            verdict == live_visit(child.entry(), pc.0),
        {
            let tag: u16 = child.tag();
            if tag == DW_TAG_FORMAL_PARAMETER || tag == DW_TAG_VARIABLE || tag
                == DW_TAG_LOCAL_VARIABLE {
                Visit::Continue
            } else {
                match child.addr_range() {
                    Some((low, high)) => if pc.0 < low.0 || pc.0 >= high.0 {
                        Visit::SkipChildren
                    } else {
                        Visit::Continue
                    },
                    None => Visit::Continue,
                }
            }
        };
    let visited = die.traverse(visit);
    assert(decides_by(visit, decide, die.ctx));
    let ghost order = die_indices(visited@);
    let mut out: Vec<Die<'a>> = Vec::new();
    let mut i: usize = 0;
    assert(die_indices(out@) =~= variables_among(es, order.take(0)));
    while i < visited.len()
        invariant
            es == die.ctx.unit@.entries,
            order == die_indices(visited@),
            i <= visited@.len(),
            forall|n: int|
                0 <= n < visited@.len() ==> (#[trigger] visited@[n]).wf() && visited@[n].ctx
                    == die.ctx,
            die_indices(out@) == variables_among(es, order.take(i as int)),
            forall|n: int|
                0 <= n < out@.len() ==> {
                    &&& (#[trigger] out@[n]).wf()
                    &&& out@[n].ctx == die.ctx
                    &&& is_variable_tag(out@[n].entry().tag)
                },
        decreases visited@.len() - i,
    {
        let ghost before = out@;
        let child = visited[i];
        assert(order.take(i + 1).drop_last() =~= order.take(i as int));
        assert(order.take(i + 1).last() == child.index);
        let tag: u16 = child.tag();
        if tag == DW_TAG_FORMAL_PARAMETER || tag == DW_TAG_VARIABLE || tag
            == DW_TAG_LOCAL_VARIABLE {
            out.push(child);
            assert(die_indices(out@) =~= die_indices(before).push(child.index as int));
        }
        i = i + 1;
    }
    assert(order.take(order.len() as int) =~= order);
    out
}

/// Gets the location expression for a variable at the given PC
pub fn get_location(die: &Die<'_>, pc: CodeOffset) -> (r: Option<Vec<u8>>)
    requires
        die.wf(),
    ensures
        match r {
            Some(x) => expression_at(die.entry(), DW_AT_LOCATION, pc.0) == Some(x@),
            None => expression_at(die.entry(), DW_AT_LOCATION, pc.0) is None,
        },
{
    die.expression(DW_AT_LOCATION, pc)
}

// ---------------------------------------------------------------------------
// Values
// ---------------------------------------------------------------------------

/// The 64 bits that a computed number has. Floating-point numbers read as 0.
pub open spec fn raw_value(value: DwarfValue) -> u64 {
    match value {
        DwarfValue::Generic(v) => v,
        DwarfValue::I8(v) => v as i64 as u64,
        DwarfValue::U8(v) => v as u64,
        DwarfValue::I16(v) => v as i64 as u64,
        DwarfValue::U16(v) => v as u64,
        DwarfValue::I32(v) => v as i64 as u64,
        DwarfValue::U32(v) => v as u64,
        DwarfValue::I64(v) => v as u64,
        DwarfValue::U64(v) => v,
        DwarfValue::Float => 0,
    }
}

/// The bytes of a computed number from its byte `from` on.
fn value_to_le_bytes(value: DwarfValue, from: usize, len: usize) -> (r: Vec<u8>)
    ensures
        r@ == window(le_bytes(raw_value(value) as nat, 8), from as int, len as nat),
{
    let raw: u64 = match value {
        DwarfValue::Generic(v) => v,
        DwarfValue::I8(v) => v as i64 as u64,
        DwarfValue::U8(v) => v as u64,
        DwarfValue::I16(v) => v as i64 as u64,
        DwarfValue::U16(v) => v as u64,
        DwarfValue::I32(v) => v as i64 as u64,
        DwarfValue::U32(v) => v as u64,
        DwarfValue::I64(v) => v as u64,
        DwarfValue::U64(v) => v,
        DwarfValue::Float => 0,
    };
    let bytes = write_le(raw, 8);
    read_window(&bytes, from, len)
}

/// The byte of the number or of the bytes that a piece stands for at which the
/// piece starts.
pub open spec fn first_byte(p: PieceModel) -> int {
    match p.bit_offset {
        Some(bits) => bits as int / 8,
        None => 0,
    }
}

/// The first `len` bytes of the value whose pieces are given, where they can
/// be read. Only the first piece is looked at.
pub open spec fn read_pieces(pieces: Seq<PieceModel>, memory: Seq<u8>, len: nat) -> Option<
    Seq<u8>,
> {
    if pieces.len() == 0 {
        None
    } else {
        match pieces[0].location {
            PlaceModel::Address(a) => Some(window(memory, a as usize as int, len)),
            PlaceModel::Value(v) => Some(
                window(le_bytes(raw_value(v) as nat, 8), first_byte(pieces[0]), len),
            ),
            PlaceModel::Bytes(b) => if b.len() < first_byte(pieces[0]) + len {
                None
            } else {
                Some(b.subrange(first_byte(pieces[0]), first_byte(pieces[0]) + len))
            },
            PlaceModel::Other => if 0 < len {
                None
            } else {
                Some(seq![])
            },
        }
    }
}

/// The pieces of what lies at an address.
pub open spec fn pieces_at(address: u64) -> Seq<PieceModel> {
    seq![
        PieceModel { size_in_bits: None, bit_offset: None, location: PlaceModel::Address(address) },
    ]
}

impl MemoryOffset {
    /// Returns the pieces for a variable located at this address.
    pub fn pieces(&self) -> (r: Vec<Piece>)
        ensures
            pieces_of(r@) == pieces_at(self.0),
    {
        let mut out: Vec<Piece> = Vec::new();
        out.push(
            Piece { size_in_bits: None, bit_offset: None, location: PieceLocation::Address(self.0) },
        );
        assert(pieces_of(out@) =~= pieces_at(self.0));
        out
    }
}

/// The pieces that are left behind `offset` bytes, and how far into the first
/// of them that is.
pub open spec fn skip_pieces(pieces: Seq<PieceModel>, offset: u64) -> (Seq<PieceModel>, u64)
    decreases pieces.len(),
{
    if pieces.len() == 0 {
        (pieces, offset)
    } else {
        match pieces[0].size_in_bits {
            None => (pieces, offset),
            Some(bits) => {
                let bytes = (bits as int + 7) / 8;
                if offset < bytes {
                    (pieces, offset)
                } else {
                    skip_pieces(pieces.skip(1), (offset - bytes) as u64)
                }
            },
        }
    }
}

/// A piece that starts `offset` bytes further.
pub open spec fn shift_piece(p: PieceModel, offset: u64) -> PieceModel {
    match p.location {
        PlaceModel::Address(a) => PieceModel {
            location: PlaceModel::Address(vstd::wrapping::u64_specs::wrapping_add(a, offset)),
            ..p
        },
        _ => PieceModel {
            bit_offset: Some(
                vstd::wrapping::u64_specs::wrapping_add(
                    match p.bit_offset {
                        Some(b) => b,
                        None => 0,
                    },
                    vstd::wrapping::u64_specs::wrapping_mul(offset, 8),
                ),
            ),
            ..p
        },
    }
}

/// The pieces of a value from its byte `offset` on.
pub open spec fn pieces_from(pieces: Seq<PieceModel>, offset: u64) -> Seq<PieceModel> {
    let (rest, within) = skip_pieces(pieces, offset);
    if rest.len() == 0 {
        rest
    } else {
        rest.update(0, shift_piece(rest[0], within))
    }
}

/// The pieces that the children of a value of this meaning lie in: what a
/// pointer or a reference refers to, or the value itself.
pub open spec fn child_space(
    meaning: Option<DeclModel>,
    pieces: Seq<PieceModel>,
    memory: Seq<u8>,
) -> Seq<PieceModel> {
    match meaning {
        Some(DeclModel::Referential { .. }) => match pointer_of(pieces, memory) {
            Some(address) => if address == 0 {
                seq![]
            } else {
                pieces_at(address)
            },
            None => seq![],
        },
        _ => pieces,
    }
}

/// The address that a pointer holds.
pub open spec fn pointer_of(pieces: Seq<PieceModel>, memory: Seq<u8>) -> Option<u64> {
    match read_pieces(pieces, memory, 4) {
        Some(bytes) => Some(le_value(bytes) as u64),
        None => None,
    }
}

/// The unsigned number that bytes of an encoding spell.
pub open spec fn unsigned_scalar(bytes: Seq<u8>, encoding: u8) -> Option<u64> {
    let size = bytes.len();
    let whole = size == 1 || size == 2 || size == 4 || size == 8;
    if encoding == DW_ATE_SIGNED || encoding == DW_ATE_SIGNED_CHAR {
        if whole && as_signed(le_value(bytes), size) >= 0 {
            Some(as_signed(le_value(bytes), size) as u64)
        } else {
            None
        }
    } else if encoding == DW_ATE_UNSIGNED || encoding == DW_ATE_UNSIGNED_CHAR {
        if whole {
            Some(le_value(bytes) as u64)
        } else {
            None
        }
    } else if (encoding == DW_ATE_UTF || encoding == DW_ATE_ASCII) && (size == 1 || size == 2
        || size == 4) {
        Some(le_value(bytes) as u64)
    } else {
        None
    }
}

/// The unsigned number that a value of this meaning is.
pub open spec fn unsigned_of(
    meaning: Option<DeclModel>,
    pieces: Seq<PieceModel>,
    memory: Seq<u8>,
) -> Option<u64> {
    match meaning {
        Some(DeclModel::Scalar { byte_size, encoding, .. }) => match read_pieces(
            pieces,
            memory,
            byte_size as usize as nat,
        ) {
            Some(bytes) => unsigned_scalar(bytes, encoding),
            None => None,
        },
        Some(DeclModel::Referential { kind, .. }) => if kind == ReferenceKind::Pointer {
            pointer_of(pieces, memory)
        } else {
            None
        },
        _ => None,
    }
}

/// The first of the members that is called `name`.
pub open spec fn member_named(members: Seq<MemberModel>, name: Seq<char>) -> Option<MemberModel>
    decreases members.len(),
{
    if members.len() == 0 {
        None
    } else if members[0].name == Some(name) {
        Some(members[0])
    } else {
        member_named(members.skip(1), name)
    }
}

/// The byte at which a member lies, where it is known without evaluation.
pub open spec fn member_offset(m: MemberModel) -> Option<i64> {
    match m.location {
        Some(BoundModel::Constant(o)) => Some(o),
        None => Some(0),
        Some(BoundModel::Expr(_)) => None,
    }
}

/// Finds the byte at which a member lies.
pub fn offset_of_member(m: &StructureMember) -> (r: Option<i64>)
    ensures
        r == member_offset(m@),
{
    match &m.location {
        Some(Value::Constant(o)) => Some(*o),
        None => Some(0),
        Some(Value::Expr(_)) => None,
    }
}

// ---------------------------------------------------------------------------
// Variables
// ---------------------------------------------------------------------------

/// A typed value backed by one or more DWARF location pieces.
///
/// `pieces` describes where the bytes live (memory address, embedded value,
/// register, …); `ty` describes how to interpret them.
#[derive(Debug)]
pub struct Variable {
    pub name: String,
    pub pieces: Vec<Piece>,
    pub ty: Type,
}

/// The mathematical value of a [`Variable`], apart from the declarations that
/// its type is one of.
pub struct VarModel {
    pub name: Seq<char>,
    pub pieces: Seq<PieceModel>,
    pub ty: super::types::TypeId,
}

impl View for Variable {
    type V = VarModel;

    open spec fn view(&self) -> VarModel {
        VarModel { name: self.name@, pieces: pieces_of(self.pieces@), ty: self.ty.root }
    }
}

/// The values of a list of variables.
pub open spec fn vars_of(v: Seq<Variable>) -> Seq<VarModel> {
    v.map_values(|x: Variable| x@)
}

/// Whether the types of all variables are among the declarations `graph`.
pub open spec fn all_in(v: Seq<Variable>, graph: std::rc::Rc<super::graph::TypeGraph>) -> bool {
    forall|i: int| 0 <= i < v.len() ==> (#[trigger] v[i]).ty.graph == graph
}

/// A copy of a list of pieces.
pub fn copy_pieces(v: &Vec<Piece>) -> (r: Vec<Piece>)
    ensures
        pieces_of(r@) == pieces_of(v@),
{
    let mut out: Vec<Piece> = Vec::new();
    let mut i: usize = 0;
    while i < v.len()
        invariant
            i <= v@.len(),
            pieces_of(out@) =~= pieces_of(v@).take(i as int),
        decreases v@.len() - i,
    {
        let ghost before = out@;
        out.push(v[i].copy());
        i = i + 1;
        assert(pieces_of(out@) =~= pieces_of(before).push(v@[i - 1]@));
        assert(pieces_of(v@).take(i as int) =~= pieces_of(v@).take(i - 1).push(
            pieces_of(v@)[i - 1],
        ));
    }
    assert(pieces_of(v@).take(v@.len() as int) =~= pieces_of(v@));
    out
}

impl Variable {
    /// The pieces of this variable.
    pub open spec fn places(&self) -> Seq<PieceModel> {
        pieces_of(self.pieces@)
    }

    pub fn new(name: String, pieces: Vec<Piece>, ty: Type) -> (r: Self)
        ensures
            r.name == name,
            r.pieces == pieces,
            r.ty == ty,
    {
        Variable { name, pieces, ty }
    }

    /// A copy of this variable.
    pub fn copy(&self) -> (r: Self)
        ensures
            r.same_as(self),
    {
        Variable {
            name: own(self.name.as_str()),
            pieces: copy_pieces(&self.pieces),
            ty: self.ty.copy(),
        }
    }

    /// Whether this is the same variable as `other`.
    pub open spec fn same_as(&self, other: &Variable) -> bool {
        &&& self.name@ == other.name@
        &&& self.places() == other.places()
        &&& self.ty == other.ty
    }

    pub fn name(&self) -> (r: &str)
        ensures
            r@ == self.name@,
    {
        self.name.as_str()
    }

    pub fn ty(&self) -> (r: &Type)
        ensures
            *r == self.ty,
    {
        &self.ty
    }

    /// Changes the name of this variable.
    pub fn with_name(self, name: &str) -> (r: Self)
        ensures
            r.name@ == name@,
            r.pieces == self.pieces,
            r.ty == self.ty,
    {
        Variable { name: own(name), pieces: self.pieces, ty: self.ty }
    }

    /// Changes the type of this variable.
    pub fn with_type(self, ty: &Type) -> (r: Self)
        ensures
            r.name == self.name,
            r.pieces == self.pieces,
            r.ty == *ty,
    {
        Variable { name: self.name, pieces: self.pieces, ty: ty.copy() }
    }

    /// Returns the address of this variable.
    /// If this variable has no known address, returns [None].
    pub fn address(&self) -> (r: Option<MemoryOffset>)
        ensures
            r == address_of(self.places()),
    {
        if self.pieces.len() == 0 {
            return None;
        }
        assert(self.places()[0] == self.pieces@[0]@);
        match &self.pieces[0].location {
            PieceLocation::Address(a) => Some(MemoryOffset(*a)),
            _ => None,
        }
    }

    /// Reads `len` bytes from the start of this variable's value.
    /// If exactly `len` bytes cannot be read, returns [None].
    pub fn read(&self, memory: &MemoryDescriptor, len: usize) -> (r: Option<Vec<u8>>)
        ensures
            match r {
                Some(bytes) => read_pieces(self.places(), memory@, len as nat) == Some(bytes@)
                    && bytes@.len() == len,
                None => read_pieces(self.places(), memory@, len as nat) is None,
            },
    {
        if self.pieces.len() == 0 {
            return None;
        }
        assert(self.places()[0] == self.pieces@[0]@);
        let skipped: u64 = match self.pieces[0].bit_offset {
            Some(bits) => bits / 8,
            None => 0,
        };
        match &self.pieces[0].location {
            PieceLocation::Address(a) => Some(memory.read(MemoryOffset(*a), len)),
            PieceLocation::Value(v) => {
                // Behind its eight bytes a number goes on with zeros.
                let from: usize = if skipped < 8 {
                    skipped as usize
                } else {
                    8
                };
                let bytes = value_to_le_bytes(*v, from, len);
                proof {
                    le_round_trip(raw_value(*v) as nat, 8);
                }
                assert(bytes@ =~= window(
                    le_bytes(raw_value(*v) as nat, 8),
                    skipped as int,
                    len as nat,
                ));
                Some(bytes)
            },
            PieceLocation::Bytes(b) => {
                if (b.len() as u128) < skipped as u128 + len as u128 {
                    return None;
                }
                let bytes = read_window(b, skipped as usize, len);
                assert(bytes@ =~= b@.subrange(skipped as int, skipped + len));
                Some(bytes)
            },
            PieceLocation::Other => {
                if 0 < len {
                    return None;
                }
                let bytes: Vec<u8> = Vec::new();
                assert(bytes@ =~= seq![]);
                Some(bytes)
            },
        }
    }

    /// Get the unsigned value of this variable.
    /// If the value cannot be represented as an unsigned value, returns [None].
    ///
    /// * For signed integral types, returns [None] for negative values.
    /// * For character types, returns the unsigned value of the code point.
    /// * For floating point types, returns [None].
    /// * For pointer types, returns the pointer's value.
    pub fn unsigned_value(&self, memory: &MemoryDescriptor) -> (r: Option<u64>)
        ensures
            r == unsigned_of(self.ty.meaning(), self.places(), memory@),
    {
        match self.ty.resolved() {
            Some(TypeDeclaration::Scalar { byte_size, encoding, .. }) => {
                let size: usize = *byte_size as usize;
                let bytes = match self.read(memory, size) {
                    Some(bytes) => bytes,
                    None => {
                        return None;
                    },
                };
                let encoding: u8 = *encoding;
                let whole = size == 1 || size == 2 || size == 4 || size == 8;
                proof {
                    le_value_bound(bytes@);
                    byte_range_of_words();
                }
                if encoding == DW_ATE_SIGNED || encoding == DW_ATE_SIGNED_CHAR {
                    if !whole {
                        return None;
                    }
                    let signed: i64 = read_signed_le(&bytes);
                    if signed >= 0 {
                        Some(signed as u64)
                    } else {
                        None
                    }
                } else if encoding == DW_ATE_UNSIGNED || encoding == DW_ATE_UNSIGNED_CHAR {
                    if !whole {
                        return None;
                    }
                    Some(read_le(&bytes))
                } else if (encoding == DW_ATE_UTF || encoding == DW_ATE_ASCII) && (size == 1
                    || size == 2 || size == 4) {
                    Some(read_le(&bytes))
                } else {
                    None
                }
            },
            Some(TypeDeclaration::Referential { kind, .. }) => match kind {
                ReferenceKind::Pointer => match self.pointer_value(memory) {
                    Some(address) => Some(address.0),
                    None => None,
                },
                _ => None,
            },
            _ => None,
        }
    }

    /// Returns the actual address stored by a pointer.
    ///
    /// For example, in the following snippet:
    ///
    /// ```cpp
    /// int* x = (int*) 0xBA5EBA11;
    /// ```
    ///
    /// [Variable::pointer_value] would return `Some(MemoryOffset(0xBA5EBA11))` for
    /// the [Variable] corresponding to `x`.
    pub fn pointer_value(&self, memory: &MemoryDescriptor) -> (r: Option<MemoryOffset>)
        ensures
            r == match pointer_of(self.places(), memory@) {
                Some(address) => Some(MemoryOffset(address)),
                None => None,
            },
            r matches Some(a) ==> a.0 <= u32::MAX,
    {
        match self.read(memory, 4) {
            Some(bytes) => {
                proof {
                    le_value_bound(bytes@);
                    byte_range_of_words();
                }
                Some(MemoryOffset(read_le(&bytes)))
            },
            None => None,
        }
    }

    /// Gets a raw child named `name` in this variable.
    /// This method uses the raw variable format, ignoring any formatters.
    ///
    /// For example, for structural types, `name` might be the name of a member within this variable.
    ///
    /// Returns [None] if no such child is found.
    pub fn child_with_name(&self, memory: &MemoryDescriptor, name: &str) -> (r: Option<Variable>)
        ensures
            match named_child(self.ty.meaning(), name@) {
                Some((offset, ty)) => {
                    &&& r is Some
                    &&& r->0.name@ == name@
                    &&& r->0.ty.root == ty
                    &&& r->0.ty.graph == self.ty.graph
                    &&& r->0.places() == pieces_from(
                        child_space(self.ty.meaning(), self.places(), memory@),
                        offset as usize as u64,
                    )
                },
                None => r is None,
            },
    {
        let members = match self.ty.resolved() {
            Some(TypeDeclaration::Structure { members, .. }) => members,
            _ => {
                return None;
            },
        };
        let ghost all = members_of(members@);
        let mut i: usize = 0;
        assert(all.skip(0) =~= all);
        while i < members.len()
            invariant
                all == members_of(members@),
                i <= members@.len(),
                member_named(all, name@) == member_named(all.skip(i as int), name@),
                self.ty.meaning() matches Some(DeclModel::Structure { members: m, .. }) && m
                    == all,
            decreases members@.len() - i,
        {
            let member = &members[i];
            assert(all.skip(i as int)[0] == member@);
            assert(all.skip(i as int).skip(1) =~= all.skip(i + 1));
            let found = match &member.name {
                Some(n) => same(n.as_str(), name),
                None => false,
            };
            if found {
                let offset: i64 = match offset_of_member(member) {
                    Some(offset) => offset,
                    None => {
                        return None;
                    },
                };
                let ty = self.ty.child(member.ty);
                return Some(
                    self.child_at_offset(memory, offset as usize).with_name(name).with_type(&ty),
                );
            }
            i = i + 1;
        }
        None
    }

    /// Returns a child of this variable with byte offset `offset`.
    /// This method uses the raw variable format, ignoring any formatters.
    ///
    /// The returned variable will have an empty name and the same type as this one.
    /// You may change the resulting name and type using [Variable::with_name] and [Variable::with_type].
    ///
    /// Roughly speaking, the offsets correspond to the same as "space" as the variable's children.
    /// E.g. an `int* ptr`'s `child_at_offset(0)` would return `ptr[0]`, a structured variable
    /// `my_struct_t x`'s `child_at_offset(0)` would return the first member, and so on.
    pub fn child_at_offset(&self, memory: &MemoryDescriptor, offset: usize) -> (r: Variable)
        ensures
            r.name@ == Seq::<char>::empty(),
            r.ty == self.ty,
            r.places() == pieces_from(
                child_space(self.ty.meaning(), self.places(), memory@),
                offset as u64,
            ),
    {
        let mut pieces = match self.ty.resolved() {
            Some(TypeDeclaration::Referential { .. }) => match self.pointer_value(memory) {
                Some(address) => if address.is_null() {
                    Vec::new()
                } else {
                    address.pieces()
                },
                None => Vec::new(),
            },
            _ => copy_pieces(&self.pieces),
        };
        let ghost space = child_space(self.ty.meaning(), self.places(), memory@);
        assert(pieces_of(pieces@) =~= space);
        let mut ofs: u64 = offset as u64;
        loop
            invariant_except_break
                skip_pieces(space, offset as u64) == skip_pieces(pieces_of(pieces@), ofs),
            ensures
                skip_pieces(space, offset as u64) == (pieces_of(pieces@), ofs),
            decreases pieces@.len(),
        {
            if pieces.len() == 0 {
                break;
            }
            let ghost before = pieces_of(pieces@);
            assert(before[0] == pieces@[0]@);
            let bits: u64 = match pieces[0].size_in_bits {
                Some(bits) => bits,
                None => {
                    break;
                },
            };
            let bytes: u64 = ((bits as u128 + 7) / 8) as u64;
            if ofs < bytes {
                break;
            }
            ofs = ofs - bytes;
            let _ = pieces.remove(0);
            assert(pieces_of(pieces@) =~= before.skip(1));
        }
        let ghost rest = pieces_of(pieces@);
        if pieces.len() > 0 {
            assert(rest[0] == pieces@[0]@);
            let first = pieces.remove(0);
            let ghost tail = pieces@;
            let shifted = match first.location {
                PieceLocation::Address(a) => Piece {
                    size_in_bits: first.size_in_bits,
                    bit_offset: first.bit_offset,
                    location: PieceLocation::Address(a.wrapping_add(ofs)),
                },
                other => {
                    let base: u64 = match first.bit_offset {
                        Some(b) => b,
                        None => 0,
                    };
                    Piece {
                        size_in_bits: first.size_in_bits,
                        bit_offset: Some(base.wrapping_add(ofs.wrapping_mul(8))),
                        location: other,
                    }
                },
            };
            pieces.insert(0, shifted);
            assert(shifted@ == shift_piece(rest[0], ofs));
            assert(pieces_of(pieces@) =~= rest.update(0, shifted@));
        }
        let name = String::new();
        assert(name@ =~= Seq::<char>::empty());
        Variable { name, pieces, ty: self.ty.copy() }
    }
}

/// The address of a value, where it has one.
pub open spec fn address_of(pieces: Seq<PieceModel>) -> Option<MemoryOffset> {
    if pieces.len() == 0 {
        None
    } else {
        match pieces[0].location {
            PlaceModel::Address(a) => Some(MemoryOffset(a)),
            _ => None,
        }
    }
}

/// The offset and the type of the member called `name` of a value of this
/// meaning.
pub open spec fn named_child(meaning: Option<DeclModel>, name: Seq<char>) -> Option<
    (i64, super::types::TypeId),
> {
    match meaning {
        Some(DeclModel::Structure { members, .. }) => match member_named(members, name) {
            Some(m) => match member_offset(m) {
                Some(offset) => Some((offset, m.ty)),
                None => None,
            },
            None => None,
        },
        _ => None,
    }
}

/// Going to an offset in memory and from there to another is going to their
/// sum.
pub proof fn offsets_add_up(address: u64, a: u64, b: u64)
    requires
        address + a + b <= u64::MAX,
    ensures
        pieces_from(pieces_from(pieces_at(address), a), b) == pieces_from(
            pieces_at(address),
            (a + b) as u64,
        ),
        address_of(pieces_from(pieces_at(address), a)) == Some(MemoryOffset((address + a) as u64)),
{
    assert(pieces_from(pieces_at(address), a) =~= pieces_at((address + a) as u64));
    assert(pieces_from(pieces_at((address + a) as u64), b) =~= pieces_at(
        (address + a + b) as u64,
    ));
    assert(pieces_from(pieces_at(address), (a + b) as u64) =~= pieces_at(
        (address + a + b) as u64,
    ));
}

/// A part of a value reads as that part of what the value reads as, wherever
/// the value lies: in memory, in a number that was computed, or in bytes that
/// stand for it. Neither the address nor the position in bits may wrap around.
pub proof fn parts_read_as_parts_of_the_whole(
    p: PieceModel,
    memory: Seq<u8>,
    offset: u64,
    len: nat,
)
    requires
        p.size_in_bits is None,
        p.location matches PlaceModel::Address(a) ==> a + offset <= usize::MAX,
        !(p.location is Address) ==> (match p.bit_offset {
            Some(bits) => bits as int,
            None => 0,
        }) + 8 * offset <= u64::MAX,
        read_pieces(seq![p], memory, (offset + len) as nat) is Some,
    ensures
        read_pieces(pieces_from(seq![p], offset), memory, len) == Some(
            read_pieces(seq![p], memory, (offset + len) as nat)->0.subrange(
                offset as int,
                offset + len,
            ),
        ),
{
    let whole = read_pieces(seq![p], memory, (offset + len) as nat)->0;
    let part = pieces_from(seq![p], offset);
    let q = shift_piece(p, offset);
    assert(skip_pieces(seq![p], offset) == (seq![p], offset));
    assert(part[0] == q);
    match p.location {
        PlaceModel::Address(a) => {
            assert(window(memory, (a + offset) as int, len) =~= whole.subrange(
                offset as int,
                offset + len,
            ));
        },
        PlaceModel::Value(v) => {
            assert(first_byte(q) == first_byte(p) + offset);
            assert(window(le_bytes(raw_value(v) as nat, 8), first_byte(q), len)
                =~= whole.subrange(offset as int, offset + len));
        },
        PlaceModel::Bytes(b) => {
            assert(first_byte(q) == first_byte(p) + offset);
            assert(b.subrange(first_byte(q), first_byte(q) + len) =~= whole.subrange(
                offset as int,
                offset + len,
            ));
        },
        PlaceModel::Other => {
            assert(whole.subrange(0, 0) =~= seq![]);
        },
    }
}

// ---------------------------------------------------------------------------
// What is live, and what is read
// ---------------------------------------------------------------------------

/// Whether entry `a` is a block that does not cover an address: it has addresses, and
/// this is none of them. Variables are no blocks.
pub open spec fn shuts_out(e: EntryModel, pc: u64) -> bool {
    &&& e.tag != 0x05 && e.tag != 0x34 && e.tag != 0x0c
    &&& pc_range(e) matches Some((low, high)) && !(low <= pc < high)
}

proof fn variables_are_among(es: Seq<EntryModel>, visited: Seq<int>, k: int)
    ensures
        variables_among(es, visited).contains(k) <==> visited.contains(k) && is_variable_tag(
            es[k].tag,
        ),
    decreases visited.len(),
{
    if visited.len() > 0 {
        let rest = visited.drop_last();
        let before = variables_among(es, rest);
        let all = variables_among(es, visited);
        variables_are_among(es, rest, k);
        if visited.contains(k) && visited.last() != k {
            let n = choose|n: int| 0 <= n < visited.len() && visited[n] == k;
            assert(rest[n] == k);
        }
        if rest.contains(k) {
            let n = choose|n: int| 0 <= n < rest.len() && rest[n] == k;
            assert(visited[n] == k);
        }
        if before.contains(k) {
            let n = choose|n: int| 0 <= n < before.len() && before[n] == k;
            assert(all[n] == k);
        }
        if all.contains(k) {
            let n = choose|n: int| 0 <= n < all.len() && all[n] == k;
            if n < before.len() {
                assert(before[n] == k);
            }
        }
        if is_variable_tag(es[visited.last()].tag) && visited.last() == k {
            assert(all[before.len() as int] == k);
            assert(visited[visited.len() - 1] == k);
        }
    }
}

/// The variables that are live at an address are the parameters and variables in and
/// below the function that no block shuts out, and no others.
pub proof fn live_variables_are_in_scope(es: Seq<EntryModel>, i: int, pc: u64, k: int)
    requires
        0 <= i < es.len(),
        is_tree(es),
    ensures
        live_variables(es, i, pc).contains(k) <==> {
            &&& k == i || is_below(es, i, k)
            &&& es[k].tag == 0x05 || es[k].tag == 0x34 || es[k].tag == 0x0c
            &&& forall|a: int| i <= a && #[trigger] is_below(es, a, k) ==> !shuts_out(es[a], pc)
        },
{
    let visit = |n: int| live_visit(es[n], pc);
    walks_visit_what_is_open(es, i, k, visit);
    variables_are_among(es, walk(es, seq![i], visit), k);
    assert forall|a: int| visit(a) == Visit::Continue <==> !shuts_out(#[trigger] es[a], pc) by {}
    if is_open_to(es, i, k, visit) {
        assert forall|a: int| i <= a && #[trigger] is_below(es, a, k) implies !shuts_out(
            es[a],
            pc,
        ) by {
            assert(visit(a) == Visit::Continue);
        }
    }
    if (k == i || is_below(es, i, k)) && forall|a: int|
        i <= a && #[trigger] is_below(es, a, k) ==> !shuts_out(es[a], pc) {
        assert forall|a: int| i <= a && #[trigger] is_below(es, a, k) implies visit(a)
            == Visit::Continue by {
            assert(!shuts_out(es[a], pc));
        }
    }
}

/// The number that a computed value is; none where it is no integer.
pub open spec fn number_of(value: DwarfValue) -> Option<int> {
    match value {
        DwarfValue::Generic(v) => Some(v as int),
        DwarfValue::I8(v) => Some(v as int),
        DwarfValue::U8(v) => Some(v as int),
        DwarfValue::I16(v) => Some(v as int),
        DwarfValue::U16(v) => Some(v as int),
        DwarfValue::I32(v) => Some(v as int),
        DwarfValue::U32(v) => Some(v as int),
        DwarfValue::I64(v) => Some(v as int),
        DwarfValue::U64(v) => Some(v as int),
        DwarfValue::Float => None,
    }
}

/// A variable that is a computed number reads as the low bytes of that number, of
/// its two's complement where it is negative.
pub proof fn computed_numbers_are_read(value: DwarfValue, memory: Seq<u8>, n: int, piece: PieceModel)
    requires
        number_of(value) == Some(n),
        piece.location == PlaceModel::Value(value),
        piece.bit_offset is None,
    ensures
        read_pieces(seq![piece], memory, 8) matches Some(b) && b.len() == 8 && le_value(b) == n
            % 0x1_0000_0000_0000_0000,
        read_pieces(seq![piece], memory, 4) matches Some(b) && b.len() == 4 && le_value(b) == n
            % 0x1_0000_0000,
        read_pieces(seq![piece], memory, 2) matches Some(b) && b.len() == 2 && le_value(b) == n
            % 0x1_0000,
        read_pieces(seq![piece], memory, 1) matches Some(b) && b.len() == 1 && le_value(b) == n
            % 0x100,
{
    let raw = raw_value(value);
    assert(raw as int == n % 0x1_0000_0000_0000_0000) by {
        match value {
            DwarfValue::I8(v) => {
                two_complement(v as i64);
            },
            DwarfValue::I16(v) => {
                two_complement(v as i64);
            },
            DwarfValue::I32(v) => {
                two_complement(v as i64);
            },
            DwarfValue::I64(v) => {
                two_complement(v);
            },
            _ => {},
        }
    }
    let all = le_bytes(raw as nat, 8);
    le_round_trip(raw as nat, 8);
    byte_range_of_words();
    assert(window(all, 0, 8) =~= all);
    low_bytes_come_first(all);
    low_bytes_come_first(window(all, 0, 4));
    low_bytes_come_first(window(all, 0, 2));
    low_bytes_come_first(window(all, 0, 1));
}

proof fn two_complement(v: i64)
    ensures
        v as u64 as int == v as int % 0x1_0000_0000_0000_0000,
{
    assert(v >= 0 ==> v as u64 == v) by (bit_vector);
    assert(v < 0 ==> v as u64 == v + 0x1_0000_0000_0000_0000) by (bit_vector);
}

/// The number that a member of a container holds is read by its encoding: signed ones
/// only where they are not negative, and characters as unsigned ones.
pub proof fn unsigned_members_are_read(bytes: Seq<u8>, encoding: u8)
    requires
        bytes.len() == 1 || bytes.len() == 2 || bytes.len() == 4,
    ensures
        encoding == 0x07 || encoding == 0x08 || encoding == 0x10 || encoding == 0x12
            ==> unsigned_scalar(bytes, encoding) == Some(le_value(bytes) as u64),
        encoding == 0x05 || encoding == 0x06 ==> unsigned_scalar(bytes, encoding) == if bytes.last()
            < 0x80 {
            Some(le_value(bytes) as u64)
        } else {
            None
        },
        encoding == 0x02 || encoding == 0x04 ==> unsigned_scalar(bytes, encoding) is None,
{
    low_bytes_come_first(bytes);
    byte_range_of_words();
}

} // verus!
