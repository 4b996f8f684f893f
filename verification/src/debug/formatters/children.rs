//! Where the children of a value lie in memory.
//!
//! What is said here is said of values that lie in memory at a known address, in
//! terms of that address and of the bytes of memory.
use vstd::prelude::*;

use crate::bytes::{low_bytes_come_first, window};
use crate::debug::dwarf::expression::PlaceModel;
use crate::debug::graph::{GraphModel, decl_at, nested_type, size_of_decl, unmodified};
use crate::debug::types::{BoundModel, DeclModel, MemberModel, ReferenceKind, TypeId};
use crate::debug::variables::{VarModel, member_named, named_child, pieces_at, pieces_from,
    pointer_of, read_pieces};
use crate::text::{hex, hex_numerals_spell_numbers, hex_value, numerals_spell_numbers, spells};
use super::choice::{Formatter, chosen, meaning_in};
use super::map::{node_address, tree_model, tree_values};
use super::present::{counted, indexed, member_values, named, named_members, referent, shown};
use super::scalar::{RenderedModel, shown_scalar};
use super::vector::{index_name, member_value, value_at, vector_element, vector_model};

verus! {

broadcast use vstd::seq_lib::group_seq_properties;

/// Whether a value lies in memory at an address, and nowhere else.
pub open spec fn lies_at(v: VarModel, address: int) -> bool {
    &&& v.pieces.len() == 1
    &&& v.pieces[0].location == PlaceModel::Address(address as u64)
    &&& v.pieces[0].size_in_bits is None
    &&& v.pieces[0].bit_offset is None
    &&& 0 <= address <= u32::MAX
}

/// The address that four bytes of memory spell.
pub open spec fn pointer_at(memory: Seq<u8>, at: int) -> int {
    memory[at] + 0x100 * memory[at + 1] + 0x1_0000 * memory[at + 2] + 0x100_0000 * memory[at + 3]
}

proof fn lying_pieces(v: VarModel, address: int)
    requires
        lies_at(v, address),
    ensures
        v.pieces == pieces_at(address as u64),
{
    assert(v.pieces =~= pieces_at(address as u64));
}

proof fn moved_pieces(address: int, offset: int)
    requires
        0 <= address,
        0 <= offset,
        address + offset <= u32::MAX,
    ensures
        pieces_from(pieces_at(address as u64), offset as u64) == pieces_at(
            (address + offset) as u64,
        ),
{
    assert(pieces_from(pieces_at(address as u64), offset as u64) =~= pieces_at(
        (address + offset) as u64,
    ));
}

proof fn pointer_is_read(address: int, memory: Seq<u8>)
    requires
        0 <= address <= u32::MAX,
        address + 4 <= memory.len(),
    ensures
        pointer_of(pieces_at(address as u64), memory) == Some(pointer_at(memory, address) as u64),
        0 <= pointer_at(memory, address) <= u32::MAX,
{
    low_bytes_come_first(window(memory, address, 4));
}

// ---------------------------------------------------------------------------
// Members
// ---------------------------------------------------------------------------

/// The offset of a member, where it has one that is known without running
/// anything. A member that gives none lies at the start.
pub open spec fn offset_in(m: MemberModel) -> Option<int> {
    match m.location {
        Some(BoundModel::Constant(o)) => Some(o as int),
        Some(BoundModel::Expr(_)) => None,
        None => Some(0),
    }
}

/// Whether a member can be listed: it has a name and a known offset.
pub open spec fn can_be_listed(m: MemberModel) -> bool {
    m.name is Some && offset_in(m) is Some
}

/// How many of the first `k` members can be listed.
pub open spec fn listed_before(members: Seq<MemberModel>, k: int) -> int
    decreases k,
{
    if k <= 0 {
        0
    } else if can_be_listed(members[k - 1]) {
        listed_before(members, k - 1) + 1
    } else {
        listed_before(members, k - 1)
    }
}

proof fn members_are_placed(
    g: GraphModel,
    v: VarModel,
    memory: Seq<u8>,
    members: Seq<MemberModel>,
    n: int,
)
    requires
        0 <= n <= members.len(),
    ensures
        ({
            let all = member_values(g, v, memory, members.take(n));
            &&& all.len() == listed_before(members, n)
            &&& named_members(members.take(n)) == listed_before(members, n)
            &&& 0 <= listed_before(members, n) <= n
            &&& forall|k: int|
                0 <= k < n && can_be_listed(#[trigger] members[k]) ==> {
                    let j = listed_before(members, k);
                    &&& 0 <= j < all.len()
                    &&& all[j].name == members[k].name->0
                    &&& all[j].ty == members[k].ty
                    &&& all[j].pieces == value_at(
                        g,
                        v,
                        memory,
                        (offset_in(members[k])->0 as i64) as usize as u64,
                    ).pieces
                }
        }),
    decreases n,
{
    if n > 0 {
        members_are_placed(g, v, memory, members, n - 1);
        assert(members.take(n).drop_last() =~= members.take(n - 1));
        assert(members.take(n).last() == members[n - 1]);
    }
}

/// The children of a structure are its members that have a name and a known offset,
/// in their order. Each has the name and the type of its member, and lies as far
/// behind the start of the structure as the member's offset says.
pub proof fn members_lie_at_their_offsets(
    g: GraphModel,
    v: VarModel,
    memory: Seq<u8>,
    address: int,
    fuel: nat,
    k: int,
)
    requires
        chosen(g, v.ty) == Some(Formatter::Structure),
        meaning_in(g, v.ty) is Some,
        meaning_in(g, v.ty)->0 is Structure,
        lies_at(v, address),
        0 <= k < meaning_in(g, v.ty)->0->Structure_members.len(),
    ensures
        ({
            let members = meaning_in(g, v.ty)->0->Structure_members;
            let m = members[k];
            let count = listed_before(members, members.len() as int);
            let all = named(g, v, memory, 0, count as nat, fuel);
            let j = listed_before(members, k);
            &&& counted(g, v, memory, fuel) == Ok::<(nat, nat), crate::error::DebugError>(
                (0, count as nat),
            )
            &&& all is Ok
            &&& all->Ok_0.len() == count
            &&& indexed(g, v, memory, 0, 0, fuel) == Ok::<
                Seq<VarModel>,
                crate::error::DebugError,
            >(seq![])
            &&& can_be_listed(m) ==> {
                &&& 0 <= j < count
                &&& all->Ok_0[j].name == m.name->0
                &&& all->Ok_0[j].ty == m.ty
                &&& 0 <= offset_in(m)->0 && address + offset_in(m)->0 <= u32::MAX ==> lies_at(
                    all->Ok_0[j],
                    address + offset_in(m)->0,
                )
            }
        }),
{
    let members = meaning_in(g, v.ty)->0->Structure_members;
    let n = members.len() as int;
    members_are_placed(g, v, memory, members, n);
    assert(members.take(n) =~= members);
    let all = member_values(g, v, memory, members);
    assert(all.subrange(0, all.len() as int) =~= all);
    lying_pieces(v, address);
    let m = members[k];
    if can_be_listed(m) && 0 <= offset_in(m)->0 && address + offset_in(m)->0 <= u32::MAX {
        moved_pieces(address, offset_in(m)->0);
    }
}

/// A member is found by its name: the first one that has it.
pub proof fn members_are_found_by_name(meaning: Option<DeclModel>, name: Seq<char>, k: int)
    requires
        meaning is Some,
        meaning->0 is Structure,
        0 <= k < meaning->0->Structure_members.len(),
        meaning->0->Structure_members[k].name == Some(name),
        offset_in(meaning->0->Structure_members[k]) is Some,
        forall|j: int|
            0 <= j < k ==> (#[trigger] meaning->0->Structure_members[j]).name != Some(name),
    ensures
        named_child(meaning, name) matches Some((offset, ty)) && offset == offset_in(
            meaning->0->Structure_members[k],
        )->0 && ty == meaning->0->Structure_members[k].ty,
{
    first_member(meaning->0->Structure_members, name, k);
}

proof fn first_member(members: Seq<MemberModel>, name: Seq<char>, k: int)
    requires
        0 <= k < members.len(),
        members[k].name == Some(name),
        forall|j: int| 0 <= j < k ==> (#[trigger] members[j]).name != Some(name),
    ensures
        member_named(members, name) == Some(members[k]),
    decreases members.len(),
{
    if k > 0 {
        assert(members[0].name != Some(name));
        let rest = members.skip(1);
        assert(rest[k - 1] == members[k]);
        assert forall|j: int| 0 <= j < k - 1 implies (#[trigger] rest[j]).name != Some(name) by {
            assert(rest[j] == members[j + 1]);
        }
        first_member(rest, name, k - 1);
    }
}

// ---------------------------------------------------------------------------
// Scalars, pointers and references
// ---------------------------------------------------------------------------

/// A scalar that lies in memory is shown by as many bytes there as its type has.
pub proof fn scalars_are_read_where_they_lie(
    g: GraphModel,
    v: VarModel,
    memory: Seq<u8>,
    address: int,
    fuel: nat,
)
    requires
        chosen(g, v.ty) == Some(Formatter::Scalar),
        meaning_in(g, v.ty) is Some,
        meaning_in(g, v.ty)->0 is Scalar,
        lies_at(v, address),
        address + meaning_in(g, v.ty)->0->Scalar_byte_size <= memory.len(),
        address + meaning_in(g, v.ty)->0->Scalar_byte_size <= u32::MAX,
    ensures
        ({
            let size = meaning_in(g, v.ty)->0->Scalar_byte_size;
            &&& shown(g, v, memory, fuel) == Ok::<RenderedModel, crate::error::DebugError>(
                shown_scalar(
                    memory.subrange(address, address + size),
                    meaning_in(g, v.ty)->0->Scalar_encoding,
                ),
            )
            &&& counted(g, v, memory, fuel) == Ok::<(nat, nat), crate::error::DebugError>((0, 0))
        }),
{
    let size = meaning_in(g, v.ty)->0->Scalar_byte_size;
    lying_pieces(v, address);
    assert(window(memory, address, size as nat) =~= memory.subrange(address, address + size));
}

/// What a pointer or a reference is presented by. A pointer is shown by the address
/// at which it lies. One that holds 0 has no children; one to a scalar has that scalar as its
/// only child, called `*` and the pointer's name; one to anything else has the
/// children of what it points at. A reference is shown as what it refers to, and has
/// its children. What is pointed at lies where the four bytes say, and has the type
/// that is pointed at.
pub proof fn pointers_lead_to_what_they_point_at(
    g: GraphModel,
    v: VarModel,
    memory: Seq<u8>,
    address: int,
    fuel: nat,
    there: VarModel,
)
    requires
        chosen(g, v.ty) == Some(Formatter::Referential),
        meaning_in(g, v.ty) is Some,
        meaning_in(g, v.ty)->0 is Referential,
        lies_at(v, address),
        address + 4 <= memory.len(),
        fuel > 0,
        there.name.len() == 0,
        there.ty == meaning_in(g, v.ty)->0->Referential_target,
        lies_at(there, pointer_at(memory, address)),
    ensures
        ({
            let p = pointer_at(memory, address);
            let is_pointer = meaning_in(g, v.ty)->0->Referential_kind is Pointer;
            let to_scalar = meaning_in(g, there.ty) is Some && meaning_in(g, there.ty)->0 is Scalar;
            let less = (fuel - 1) as nat;
            &&& is_pointer ==> (shown(g, v, memory, fuel) matches Ok(RenderedModel::Text(t))
                && t.len() > 2 && t[0] == '0' && t[1] == 'x' && hex_value(t.skip(2)) == address)
            &&& is_pointer && p == 0 ==> {
                &&& counted(g, v, memory, fuel) == Ok::<(nat, nat), crate::error::DebugError>((0, 0))
                &&& named(g, v, memory, 0, 0, fuel) == Ok::<
                    Seq<VarModel>,
                    crate::error::DebugError,
                >(seq![])
            }
            &&& is_pointer && p != 0 && to_scalar ==> {
                let child = named(g, v, memory, 0, 1, fuel);
                &&& counted(g, v, memory, fuel) == Ok::<(nat, nat), crate::error::DebugError>((0, 1))
                &&& child is Ok
                &&& child->Ok_0.len() == 1
                &&& child->Ok_0[0].name == seq!['*'] + v.name
                &&& child->Ok_0[0].ty == there.ty
                &&& lies_at(child->Ok_0[0], p)
            }
            &&& p != 0 && (!is_pointer || !to_scalar) ==> {
                &&& counted(g, v, memory, fuel) == counted(g, there, memory, less)
                &&& forall|a: nat, b: nat|
                    #![trigger named(g, v, memory, a, b, fuel)]
                    named(g, v, memory, a, b, fuel) == named(g, there, memory, a, b, less)
                &&& forall|a: nat, b: nat|
                    #![trigger indexed(g, v, memory, a, b, fuel)]
                    indexed(g, v, memory, a, b, fuel) == indexed(g, there, memory, a, b, less)
            }
            &&& p != 0 && !is_pointer ==> shown(g, v, memory, fuel) == shown(
                g,
                there,
                memory,
                less,
            )
        }),
{
    let p = pointer_at(memory, address);
    lying_pieces(v, address);
    lying_pieces(there, p);
    pointer_is_read(address, memory);
    moved_pieces(p, 0);
    let target = meaning_in(g, v.ty)->0->Referential_target;
    if p != 0 {
        assert(referent(g, v, memory, target).pieces == pieces_at(p as u64));
        assert(referent(g, v, memory, target).name =~= there.name);
        assert(referent(g, v, memory, target) == there);
    }
    hex_numerals_spell_numbers(address as nat, 0);
    let t = seq!['0', 'x'] + hex(address as nat);
    assert(t.skip(2) =~= hex(address as nat));
}

// ---------------------------------------------------------------------------
// Containers
// ---------------------------------------------------------------------------

/// Whether a member of a structure is found by its name, at an offset.
pub open spec fn has_member(
    g: GraphModel,
    ty: TypeId,
    name: Seq<char>,
    offset: int,
    member: TypeId,
) -> bool {
    &&& named_child(meaning_in(g, ty), name) == Some((offset as i64, member))
    &&& 0 <= offset <= i32::MAX
}

proof fn member_is_placed(
    g: GraphModel,
    v: VarModel,
    memory: Seq<u8>,
    name: Seq<char>,
    address: int,
    offset: int,
    member: TypeId,
)
    requires
        lies_at(v, address),
        has_member(g, v.ty, name, offset, member),
        address + offset <= u32::MAX,
    ensures
        member_value(g, v, memory, name) == Some(
            VarModel { name, pieces: pieces_at((address + offset) as u64), ty: member },
        ),
{
    lying_pieces(v, address);
    moved_pieces(address, offset);
}

/// The children of a `std::vector` are its elements: as many as fit between its two
/// pointers, named by their numbers, one behind the other from where the first
/// pointer leads.
pub proof fn vectors_are_listed(
    g: GraphModel,
    v: VarModel,
    memory: Seq<u8>,
    address: int,
    begin: int,
    begin_ty: TypeId,
    end: int,
    end_ty: TypeId,
    size: u64,
    fuel: nat,
    i: int,
)
    requires
        chosen(g, v.ty) == Some(Formatter::StdVector),
        lies_at(v, address),
        has_member(g, v.ty, "__begin_"@, begin, begin_ty),
        has_member(g, v.ty, "__end_"@, end, end_ty),
        address + begin + 4 <= memory.len(),
        address + end + 4 <= memory.len(),
        address + begin <= u32::MAX,
        address + end <= u32::MAX,
        meaning_in(g, begin_ty) is Some,
        meaning_in(g, begin_ty)->0 is Referential,
        size_of_decl(meaning_in(g, meaning_in(g, begin_ty)->0->Referential_target)) == Some(size),
        0 < size <= u32::MAX,
        0 < pointer_at(memory, address + begin) <= pointer_at(memory, address + end),
        0 <= i < (pointer_at(memory, address + end) - pointer_at(memory, address + begin))
            / size as int,
    ensures
        ({
            let first = pointer_at(memory, address + begin);
            let count = (pointer_at(memory, address + end) - first) / size as int;
            let all = indexed(g, v, memory, 0, count as nat, fuel);
            &&& counted(g, v, memory, fuel) == Ok::<(nat, nat), crate::error::DebugError>(
                (count as nat, 0),
            )
            &&& all is Ok
            &&& all->Ok_0.len() == count
            &&& all->Ok_0[i].ty == meaning_in(g, begin_ty)->0->Referential_target
            &&& lies_at(all->Ok_0[i], first + i * size)
            &&& all->Ok_0[i].name.len() > 2
            &&& all->Ok_0[i].name[0] == '['
            &&& all->Ok_0[i].name.last() == ']'
            &&& spells(all->Ok_0[i].name.subrange(1, all->Ok_0[i].name.len() - 1), i)
        }),
{
    let first = pointer_at(memory, address + begin);
    let past = pointer_at(memory, address + end);
    let count = (past - first) / size as int;
    member_is_placed(g, v, memory, "__begin_"@, address, begin, begin_ty);
    member_is_placed(g, v, memory, "__end_"@, address, end, end_ty);
    pointer_is_read(address + begin, memory);
    pointer_is_read(address + end, memory);
    let d = vector_model(g, v, memory)->Ok_0;
    let all = indexed(g, v, memory, 0, count as nat, fuel)->Ok_0;
    assert(d.count == count);
    assert(i * size + size <= past - first) by (nonlinear_arith)
        requires
            0 <= i < count,
            count == (past - first) / size as int,
            0 < size,
            past >= first,
    ;
    assert(0 <= i * size) by (nonlinear_arith)
        requires
            0 <= i,
            0 < size,
    ;
    moved_pieces(first, i * size);
    assert(all[i] == vector_element(g, d, memory, i as nat));
    numerals_spell_numbers(i);
    let name = index_name(i as nat);
    assert(name.subrange(1, name.len() - 1) =~= crate::text::decimal(i as nat));
}

/// Structures, and the containers that are kept in them, are shown by `@` and the
/// address at which they lie, in hexadecimal.
pub proof fn structures_are_shown_by_their_address(
    g: GraphModel,
    v: VarModel,
    memory: Seq<u8>,
    address: int,
    fuel: nat,
)
    requires
        chosen(g, v.ty) == Some(Formatter::Structure) || chosen(g, v.ty) == Some(
            Formatter::StdVector,
        ) || chosen(g, v.ty) == Some(Formatter::StdMap),
        meaning_in(g, v.ty) is Some,
        meaning_in(g, v.ty)->0 is Structure,
        lies_at(v, address),
    ensures
        shown(g, v, memory, fuel) matches Ok(RenderedModel::Text(t)) && t.len() > 3 && t[0] == '@'
            && t[1] == '0' && t[2] == 'x' && hex_value(t.skip(3)) == address,
{
    lying_pieces(v, address);
    hex_numerals_spell_numbers(address as nat, 0);
    let t = seq!['@'] + (seq!['0', 'x'] + hex(address as nat));
    assert(t.skip(3) =~= hex(address as nat));
}

/// A `std::map` or `std::set` has as many children as its size says, and its first
/// entry is where its tree says that it begins.
pub proof fn maps_are_counted(
    g: GraphModel,
    v: VarModel,
    memory: Seq<u8>,
    address: int,
    tree: int,
    tree_ty: TypeId,
    begin: int,
    begin_ty: TypeId,
    size: int,
    size_ty: TypeId,
    value_ty: TypeId,
    fuel: nat,
)
    requires
        chosen(g, v.ty) == Some(Formatter::StdMap),
        lies_at(v, address),
        has_member(g, v.ty, "__tree_"@, tree, tree_ty),
        has_member(g, tree_ty, "__begin_node_"@, begin, begin_ty),
        has_member(g, tree_ty, "__size_"@, size, size_ty),
        nested_type(decl_at(g, unmodified(g, tree_ty, g.size)), "value_type"@) == Some(value_ty),
        meaning_in(g, tree_ty) matches Some(DeclModel::Structure { .. }),
        meaning_in(g, v.ty) matches Some(DeclModel::Structure { .. }),
        meaning_in(g, size_ty) matches Some(DeclModel::Scalar { byte_size: 4, encoding: 7, .. }),
        meaning_in(g, begin_ty) matches Some(
            DeclModel::Referential { kind: ReferenceKind::Pointer, .. },
        ),
        address + tree + begin + 4 <= memory.len(),
        address + tree + size + 4 <= memory.len(),
        memory.len() <= u32::MAX,
    ensures
        ({
            let model = tree_model(g, v, memory);
            let count = pointer_at(memory, address + tree + size);
            &&& counted(g, v, memory, fuel) == Ok::<(nat, nat), crate::error::DebugError>(
                (count as nat, 0),
            )
            &&& model is Ok
            &&& model->Ok_0.size == count
            &&& model->Ok_0.value_type == unmodified(g, value_ty, g.size)
            &&& model->Ok_0.begin.ty == begin_ty
            &&& lies_at(model->Ok_0.begin, address + tree + begin)
            &&& node_address(g, model->Ok_0.begin, memory) == pointer_at(
                memory,
                address + tree + begin,
            )
            &&& forall|a: nat, b: nat|
                #![trigger indexed(g, v, memory, a, b, fuel)]
                indexed(g, v, memory, a, b, fuel) == Ok::<Seq<VarModel>, crate::error::DebugError>(
                    tree_values(g, model->Ok_0, memory, a, b),
                )
        }),
{
    member_is_placed(g, v, memory, "__tree_"@, address, tree, tree_ty);
    let there = member_value(g, v, memory, "__tree_"@)->0;
    let at = address + tree;
    assert(lies_at(there, at));
    member_is_placed(g, there, memory, "__begin_node_"@, at, begin, begin_ty);
    member_is_placed(g, there, memory, "__size_"@, at, size, size_ty);
    pointer_is_read(at + begin, memory);
    pointer_is_read(at + size, memory);
    low_bytes_come_first(window(memory, at + size, 4));
}

/// A value of a type that nothing presents is shown as `<unknown>` and has no children;
/// a scalar that cannot be read is shown as `<unavailable>`.
pub proof fn what_cannot_be_shown_is_said(
    g: GraphModel,
    v: VarModel,
    memory: Seq<u8>,
    fuel: nat,
)
    ensures
        chosen(g, v.ty) is None ==> shown(g, v, memory, fuel) == Ok::<
            RenderedModel,
            crate::error::DebugError,
        >(RenderedModel::Text("<unknown>"@)) && counted(g, v, memory, fuel) == Ok::<
            (nat, nat),
            crate::error::DebugError,
        >((0, 0)),
        chosen(g, v.ty) == Some(Formatter::Scalar) && v.pieces.len() == 0 && (meaning_in(
            g,
            v.ty,
        ) matches Some(DeclModel::Scalar { .. })) ==> shown(g, v, memory, fuel) == Ok::<
            RenderedModel,
            crate::error::DebugError,
        >(RenderedModel::Text("<unavailable>"@)),
{
}

/// A `std::vector` has as many children as elements fit between its two pointers, and
/// none where the second does not lie behind the first. It has no named children.
pub proof fn vectors_are_counted(
    g: GraphModel,
    v: VarModel,
    memory: Seq<u8>,
    address: int,
    begin: int,
    begin_ty: TypeId,
    end: int,
    end_ty: TypeId,
    size: u64,
    fuel: nat,
)
    requires
        chosen(g, v.ty) == Some(Formatter::StdVector),
        lies_at(v, address),
        has_member(g, v.ty, "__begin_"@, begin, begin_ty),
        has_member(g, v.ty, "__end_"@, end, end_ty),
        address + begin + 4 <= memory.len(),
        address + end + 4 <= memory.len(),
        address + begin <= u32::MAX,
        address + end <= u32::MAX,
        meaning_in(g, begin_ty) is Some,
        meaning_in(g, begin_ty)->0 is Referential,
        size_of_decl(meaning_in(g, meaning_in(g, begin_ty)->0->Referential_target)) == Some(size),
        0 < size <= u32::MAX,
    ensures
        ({
            let first = pointer_at(memory, address + begin);
            let past = pointer_at(memory, address + end);
            counted(g, v, memory, fuel) == Ok::<(nat, nat), crate::error::DebugError>(
                (
                    if past <= first {
                        0
                    } else {
                        ((past - first) / size as int) as nat
                    },
                    0,
                ),
            )
        }),
        named(g, v, memory, 0, 0, fuel) == Ok::<Seq<VarModel>, crate::error::DebugError>(seq![]),
{
    member_is_placed(g, v, memory, "__begin_"@, address, begin, begin_ty);
    member_is_placed(g, v, memory, "__end_"@, address, end, end_ty);
    pointer_is_read(address + begin, memory);
    pointer_is_read(address + end, memory);
    assert(0int / size as int == 0) by (nonlinear_arith)
        requires
            size > 0,
    ;
}

/// A scalar is shown by the bytes that can be read of it, wherever it lies.
pub proof fn scalars_are_shown_by_what_is_read(
    g: GraphModel,
    v: VarModel,
    memory: Seq<u8>,
    fuel: nat,
)
    requires
        chosen(g, v.ty) == Some(Formatter::Scalar),
        meaning_in(g, v.ty) is Some,
        meaning_in(g, v.ty)->0 is Scalar,
        meaning_in(g, v.ty)->0->Scalar_byte_size <= u32::MAX,
    ensures
        ({
            let size = meaning_in(g, v.ty)->0->Scalar_byte_size;
            match read_pieces(v.pieces, memory, size as nat) {
                Some(bytes) => shown(g, v, memory, fuel) == Ok::<
                    RenderedModel,
                    crate::error::DebugError,
                >(shown_scalar(bytes, meaning_in(g, v.ty)->0->Scalar_encoding)),
                None => shown(g, v, memory, fuel) == Ok::<RenderedModel, crate::error::DebugError>(
                    RenderedModel::Text("<unavailable>"@),
                ),
            }
        }),
{
}

} // verus!
