//! Presenting a value: its text, how many children it has, and which.
use std::ops::Range;

use vstd::prelude::*;

use crate::debug::graph::GraphModel;
use crate::debug::types::{DeclModel, MemberModel, ReferenceKind, TypeDeclaration, TypeId,
    members_of};
use crate::debug::variables::{VarModel, Variable, address_of, all_in, member_offset,
    offset_of_member, pointer_of, read_pieces, vars_of};
use crate::error::DebugError;
use crate::text::own;
use crate::types::{MemoryDescriptor, offset_text};
use super::ChildCounts;
use super::choice::{Formatter, ReferentialFormatter, ScalarFormatter, StdMapFormatter,
    StdVectorFormatter, StructureFormatter, chosen, formatter_for, meaning_in};
use super::map::{tree_model, tree_values};
use super::scalar::{Rendered, RenderedModel, format_scalar, shown_scalar};
use super::vector::{value_at, vector_elements, vector_model};

verus! {

broadcast use vstd::seq_lib::group_seq_properties;

// ---------------------------------------------------------------------------
// What is presented
// ---------------------------------------------------------------------------

/// What the pointer or reference `v` refers to, as a value of type `target`.
pub open spec fn referent(g: GraphModel, v: VarModel, memory: Seq<u8>, target: TypeId) -> VarModel {
    VarModel { name: seq![], pieces: value_at(g, v, memory, 0).pieces, ty: target }
}

/// How a scalar is shown.
pub open spec fn shown_as_scalar(g: GraphModel, v: VarModel, memory: Seq<u8>) -> Result<
    RenderedModel,
    DebugError,
> {
    match meaning_in(g, v.ty) {
        Some(DeclModel::Scalar { byte_size, encoding, .. }) => match read_pieces(
            v.pieces,
            memory,
            byte_size as usize as nat,
        ) {
            Some(bytes) => Ok(shown_scalar(bytes, encoding)),
            None => Ok(RenderedModel::Text("<unavailable>"@)),
        },
        _ => Err(DebugError::NotScalar),
    }
}

/// How a structure is shown: by its address.
pub open spec fn shown_as_structure(g: GraphModel, v: VarModel) -> Result<
    RenderedModel,
    DebugError,
> {
    match meaning_in(g, v.ty) {
        Some(DeclModel::Structure { .. }) => Ok(
            RenderedModel::Text(
                match address_of(v.pieces) {
                    Some(a) => seq!['@'] + offset_text(a.0),
                    None => seq![],
                },
            ),
        ),
        _ => Err(DebugError::NotStructure),
    }
}

/// How a value is shown. References are followed at most `fuel` times.
pub open spec fn shown(g: GraphModel, v: VarModel, memory: Seq<u8>, fuel: nat) -> Result<
    RenderedModel,
    DebugError,
>
    decreases fuel,
{
    match chosen(g, v.ty) {
        None => Ok(RenderedModel::Text("<unknown>"@)),
        Some(Formatter::Scalar) => shown_as_scalar(g, v, memory),
        Some(Formatter::Referential) => match meaning_in(g, v.ty) {
            Some(DeclModel::Referential { target, kind, .. }) => if kind == ReferenceKind::Pointer {
                Ok(
                    RenderedModel::Text(
                        match address_of(v.pieces) {
                            Some(a) => offset_text(a.0),
                            None => "<unavailable>"@,
                        },
                    ),
                )
            } else if fuel == 0 {
                Err(DebugError::Unsupported)
            } else {
                shown(g, referent(g, v, memory, target), memory, (fuel - 1) as nat)
            },
            _ => Err(DebugError::NotReferential),
        },
        Some(Formatter::Structure) => shown_as_structure(g, v),
        Some(Formatter::StdVector) => shown_as_structure(g, v),
        Some(Formatter::StdMap) => shown_as_structure(g, v),
        Some(Formatter::StdString) => Err(DebugError::NotImplemented),
    }
}

/// What the presentation of a pointer or a reference rests on.
pub enum Followed {
    /// There is nothing behind it.
    Nothing,
    /// A pointer to a scalar, which is its only child.
    Scalar(VarModel),
    /// Something that is presented in its place.
    Other(VarModel),
}

/// What lies behind the pointer or reference `v`.
pub open spec fn followed(g: GraphModel, v: VarModel, memory: Seq<u8>) -> Result<
    Followed,
    DebugError,
> {
    match meaning_in(g, v.ty) {
        Some(DeclModel::Referential { target, kind, .. }) => {
            let there = referent(g, v, memory, target);
            if kind != ReferenceKind::Pointer {
                Ok(Followed::Other(there))
            } else {
                match pointer_of(v.pieces, memory) {
                    None => Ok(Followed::Nothing),
                    Some(a) => if a == 0 {
                        Ok(Followed::Nothing)
                    } else if meaning_in(g, target) matches Some(DeclModel::Scalar { .. }) {
                        Ok(Followed::Scalar(there))
                    } else {
                        Ok(Followed::Other(there))
                    },
                }
            }
        },
        _ => Err(DebugError::NotReferential),
    }
}

/// How many of the members have a name and a known offset.
pub open spec fn named_members(members: Seq<MemberModel>) -> nat
    decreases members.len(),
{
    if members.len() == 0 {
        0
    } else {
        named_members(members.drop_last()) + if members.last().name is Some && member_offset(
            members.last(),
        ) is Some {
            1nat
        } else {
            0
        }
    }
}

/// How many children a value has.
pub open spec fn counted(g: GraphModel, v: VarModel, memory: Seq<u8>, fuel: nat) -> Result<
    (nat, nat),
    DebugError,
>
    decreases fuel,
{
    match chosen(g, v.ty) {
        None => Ok((0, 0)),
        Some(Formatter::Scalar) => Ok((0, 0)),
        Some(Formatter::Referential) => match followed(g, v, memory) {
            Ok(Followed::Nothing) => Ok((0, 0)),
            Ok(Followed::Scalar(_)) => Ok((0, 1)),
            Ok(Followed::Other(there)) => if fuel == 0 {
                Err(DebugError::Unsupported)
            } else {
                counted(g, there, memory, (fuel - 1) as nat)
            },
            Err(e) => Err(e),
        },
        Some(Formatter::Structure) => match meaning_in(g, v.ty) {
            Some(DeclModel::Structure { members, .. }) => Ok((0, named_members(members))),
            _ => Err(DebugError::NoMembersToCount),
        },
        Some(Formatter::StdVector) => match vector_model(g, v, memory) {
            Ok(d) => Ok((d.count, 0)),
            Err(e) => Err(e),
        },
        Some(Formatter::StdMap) => match tree_model(g, v, memory) {
            Ok(t) => Ok((t.size, 0)),
            Err(e) => Err(e),
        },
        Some(Formatter::StdString) => Err(DebugError::NotImplemented),
    }
}

/// The indexed children of a value from `start` up to, not including, `end`.
pub open spec fn indexed(
    g: GraphModel,
    v: VarModel,
    memory: Seq<u8>,
    start: nat,
    end: nat,
    fuel: nat,
) -> Result<Seq<VarModel>, DebugError>
    decreases fuel,
{
    match chosen(g, v.ty) {
        None => Ok(seq![]),
        Some(Formatter::Scalar) => Ok(seq![]),
        Some(Formatter::Referential) => match followed(g, v, memory) {
            Ok(Followed::Nothing) => Ok(seq![]),
            Ok(Followed::Scalar(_)) => Ok(seq![]),
            Ok(Followed::Other(there)) => if fuel == 0 {
                Err(DebugError::Unsupported)
            } else {
                indexed(g, there, memory, start, end, (fuel - 1) as nat)
            },
            Err(e) => Err(e),
        },
        Some(Formatter::Structure) => Ok(seq![]),
        Some(Formatter::StdVector) => match vector_model(g, v, memory) {
            Ok(d) => Ok(vector_elements(g, d, memory, start, end)),
            Err(e) => Err(e),
        },
        Some(Formatter::StdMap) => match tree_model(g, v, memory) {
            Ok(t) => Ok(tree_values(g, t, memory, start, end)),
            Err(e) => Err(e),
        },
        Some(Formatter::StdString) => Err(DebugError::NotImplemented),
    }
}

/// The members of the structure `v` that have a name and a known offset.
pub open spec fn member_values(
    g: GraphModel,
    v: VarModel,
    memory: Seq<u8>,
    members: Seq<MemberModel>,
) -> Seq<VarModel>
    decreases members.len(),
{
    if members.len() == 0 {
        seq![]
    } else {
        let before = member_values(g, v, memory, members.drop_last());
        let m = members.last();
        match (m.name, member_offset(m)) {
            (Some(name), Some(offset)) => before.push(
                VarModel {
                    name,
                    pieces: value_at(g, v, memory, offset as usize as u64).pieces,
                    ty: m.ty,
                },
            ),
            _ => before,
        }
    }
}

/// The part of `all` from `start` up to, not including, `end`.
pub open spec fn slice_of(all: Seq<VarModel>, start: nat, end: nat) -> Result<
    Seq<VarModel>,
    DebugError,
> {
    if start <= end && end <= all.len() {
        Ok(all.subrange(start as int, end as int))
    } else {
        Err(DebugError::RangeOutOfBounds)
    }
}

/// The named children of a value from `start` up to, not including, `end`.
pub open spec fn named(
    g: GraphModel,
    v: VarModel,
    memory: Seq<u8>,
    start: nat,
    end: nat,
    fuel: nat,
) -> Result<Seq<VarModel>, DebugError>
    decreases fuel,
{
    match chosen(g, v.ty) {
        None => Ok(seq![]),
        Some(Formatter::Scalar) => Ok(seq![]),
        Some(Formatter::Referential) => match followed(g, v, memory) {
            Ok(Followed::Nothing) => Ok(seq![]),
            Ok(Followed::Scalar(there)) => Ok(
                if start == 0 && 0 < end {
                    seq![VarModel { name: seq!['*'] + v.name, ..there }]
                } else {
                    seq![]
                },
            ),
            Ok(Followed::Other(there)) => if fuel == 0 {
                Err(DebugError::Unsupported)
            } else {
                named(g, there, memory, start, end, (fuel - 1) as nat)
            },
            Err(e) => Err(e),
        },
        Some(Formatter::Structure) => match meaning_in(g, v.ty) {
            Some(DeclModel::Structure { members, .. }) => slice_of(
                member_values(g, v, memory, members),
                start,
                end,
            ),
            _ => Err(DebugError::NoMembersToList),
        },
        Some(Formatter::StdVector) => Ok(seq![]),
        Some(Formatter::StdMap) => Ok(seq![]),
        Some(Formatter::StdString) => Err(DebugError::NotImplemented),
    }
}

proof fn members_listed_are_counted(
    g: GraphModel,
    v: VarModel,
    memory: Seq<u8>,
    members: Seq<MemberModel>,
)
    ensures
        member_values(g, v, memory, members).len() == named_members(members),
    decreases members.len(),
{
    if members.len() > 0 {
        members_listed_are_counted(g, v, memory, members.drop_last());
    }
}

/// As many named children are listed as are counted: every part of them can be
/// had, and is that part of all of them.
pub proof fn named_children_are_counted(
    g: GraphModel,
    v: VarModel,
    memory: Seq<u8>,
    start: nat,
    end: nat,
    fuel: nat,
)
    requires
        counted(g, v, memory, fuel) is Ok,
        start <= end,
        end <= counted(g, v, memory, fuel)->Ok_0.1,
    ensures
        ({
            let count = counted(g, v, memory, fuel)->Ok_0.1;
            let all = named(g, v, memory, 0, count, fuel);
            let part = named(g, v, memory, start, end, fuel);
            &&& all is Ok
            &&& all->Ok_0.len() == count
            &&& part is Ok
            &&& part->Ok_0 == all->Ok_0.subrange(start as int, end as int)
        }),
    decreases fuel,
{
    let count = counted(g, v, memory, fuel)->Ok_0.1;
    match chosen(g, v.ty) {
        Some(Formatter::Referential) => match followed(g, v, memory) {
            Ok(Followed::Other(there)) => {
                named_children_are_counted(g, there, memory, start, end, (fuel - 1) as nat);
            },
            _ => {
                let all = named(g, v, memory, 0, count, fuel);
                let part = named(g, v, memory, start, end, fuel);
                assert(part->Ok_0 =~= all->Ok_0.subrange(start as int, end as int));
            },
        },
        Some(Formatter::Structure) => match meaning_in(g, v.ty) {
            Some(DeclModel::Structure { members, .. }) => {
                members_listed_are_counted(g, v, memory, members);
                let all = member_values(g, v, memory, members);
                assert(all.subrange(0, count as int) =~= all);
            },
            _ => {},
        },
        _ => {
            let all = named(g, v, memory, 0, count, fuel);
            let part = named(g, v, memory, start, end, fuel);
            assert(part->Ok_0 =~= all->Ok_0.subrange(start as int, end as int));
        },
    }
}

// ---------------------------------------------------------------------------
// Presenting
// ---------------------------------------------------------------------------

/// The value that a result of a presentation has.
pub open spec fn rendered_of(r: Result<Rendered, DebugError>) -> Result<
    RenderedModel,
    DebugError,
> {
    match r {
        Ok(x) => Ok(x@),
        Err(e) => Err(e),
    }
}

/// The value that a result of counting has.
pub open spec fn counts_of(r: Result<ChildCounts, DebugError>) -> Result<(nat, nat), DebugError> {
    match r {
        Ok(c) => Ok((c.indexed as nat, c.named as nat)),
        Err(e) => Err(e),
    }
}

/// The values that a result of listing has.
pub open spec fn list_of(r: Result<Vec<Variable>, DebugError>) -> Result<
    Seq<VarModel>,
    DebugError,
> {
    match r {
        Ok(v) => Ok(vars_of(v@)),
        Err(e) => Err(e),
    }
}

/// No children.
fn no_children() -> (r: Vec<Variable>)
    ensures
        vars_of(r@) == Seq::<VarModel>::empty(),
        r@.len() == 0,
{
    let out: Vec<Variable> = Vec::new();
    assert(vars_of(out@) =~= Seq::<VarModel>::empty());
    out
}

impl ScalarFormatter {
    /// Renders the value for display in the variables view.
    pub fn display(&self, value: &Variable, memory: &MemoryDescriptor) -> (r: Result<
        Rendered,
        DebugError,
    >)
        ensures
            rendered_of(r) == shown_as_scalar(value.ty.model(), value@, memory@),
    {
        match value.ty.resolved() {
            Some(TypeDeclaration::Scalar { byte_size, encoding, .. }) => match value.read(
                memory,
                *byte_size as usize,
            ) {
                Some(bytes) => Ok(format_scalar(&bytes, *encoding)),
                None => Ok(Rendered::Text(own("<unavailable>"))),
            },
            _ => Err(DebugError::NotScalar),
        }
    }
}

impl StructureFormatter {
    /// Renders the value for display in the variables view.
    pub fn display(&self, value: &Variable) -> (r: Result<Rendered, DebugError>)
        ensures
            rendered_of(r) == shown_as_structure(value.ty.model(), value@),
    {
        match value.ty.resolved() {
            Some(TypeDeclaration::Structure { .. }) => {
                let mut text = String::new();
                if let Some(addr) = value.address() {
                    text.push('@');
                    let digits = addr.to_text();
                    text.append(digits.as_str());
                }
                assert(text@ =~= match address_of(value@.pieces) {
                    Some(a) => seq!['@'] + offset_text(a.0),
                    None => seq![],
                });
                Ok(Rendered::Text(text))
            },
            _ => Err(DebugError::NotStructure),
        }
    }

    /// Returns how many members can be listed: those with a name and a known
    /// offset.
    pub fn num_children(&self, value: &Variable) -> (r: Result<ChildCounts, DebugError>)
        ensures
            counts_of(r) == match meaning_in(value.ty.model(), value.ty.root) {
                Some(DeclModel::Structure { members, .. }) => Ok((0nat, named_members(members))),
                _ => Err(DebugError::NoMembersToCount),
            },
    {
        match value.ty.resolved() {
            Some(TypeDeclaration::Structure { members, .. }) => {
                let ghost all = members_of(members@);
                let mut count: usize = 0;
                let mut i: usize = 0;
                while i < members.len()
                    invariant
                        all == members_of(members@),
                        count <= i <= members@.len(),
                        count == named_members(all.take(i as int)),
                    decreases members@.len() - i,
                {
                    assert(all.take(i + 1).drop_last() =~= all.take(i as int));
                    assert(all.take(i + 1).last() == members@[i as int]@);
                    if members[i].name.is_some() && offset_of_member(&members[i]).is_some() {
                        count = count + 1;
                    }
                    i = i + 1;
                }
                assert(all.take(all.len() as int) =~= all);
                Ok(ChildCounts::named(count))
            },
            _ => Err(DebugError::NoMembersToCount),
        }
    }

    /// Returns the members in `range`.
    pub fn named_children(
        &self,
        value: &Variable,
        memory: &MemoryDescriptor,
        range: Range<usize>,
    ) -> (r: Result<Vec<Variable>, DebugError>)
        ensures
            list_of(r) == match meaning_in(value.ty.model(), value.ty.root) {
                Some(DeclModel::Structure { members, .. }) => slice_of(
                    member_values(value.ty.model(), value@, memory@, members),
                    range.start as nat,
                    range.end as nat,
                ),
                _ => Err(DebugError::NoMembersToList),
            },
            r is Ok ==> all_in(r->Ok_0@, value.ty.graph),
    {
        let members = match value.ty.resolved() {
            Some(TypeDeclaration::Structure { members, .. }) => members,
            _ => {
                return Err(DebugError::NoMembersToList);
            },
        };
        let ghost g = value.ty.model();
        let ghost all = members_of(members@);
        let mut out: Vec<Variable> = Vec::new();
        let mut i: usize = 0;
        assert(vars_of(out@) =~= member_values(g, value@, memory@, all.take(0)));
        while i < members.len()
            invariant
                g == value.ty.model(),
                all == members_of(members@),
                i <= members@.len(),
                vars_of(out@) == member_values(g, value@, memory@, all.take(i as int)),
                all_in(out@, value.ty.graph),
            decreases members@.len() - i,
        {
            let ghost before = out@;
            let member = &members[i];
            assert(all.take(i + 1).drop_last() =~= all.take(i as int));
            assert(all.take(i + 1).last() == member@);
            if let Some(name) = &member.name {
                if let Some(offset) = offset_of_member(member) {
                    let ty = value.ty.child(member.ty);
                    let child = value.child_at_offset(memory, offset as usize).with_name(
                        name.as_str(),
                    ).with_type(&ty);
                    out.push(child);
                    assert(vars_of(out@) =~= vars_of(before).push(child@));
                }
            }
            i = i + 1;
        }
        assert(all.take(all.len() as int) =~= all);
        let start: usize = range.start;
        let end: usize = range.end;
        if start > end || end > out.len() {
            return Err(DebugError::RangeOutOfBounds);
        }
        let ghost whole = vars_of(out@);
        let mut part: Vec<Variable> = Vec::new();
        let mut k: usize = start;
        while k < end
            invariant
                start <= k <= end <= out@.len(),
                whole == vars_of(out@),
                vars_of(part@) =~= whole.subrange(start as int, k as int),
                all_in(out@, value.ty.graph),
                all_in(part@, value.ty.graph),
            decreases end - k,
        {
            let ghost before = part@;
            let child = out[k].copy();
            assert(child@ == out@[k as int]@);
            part.push(child);
            k = k + 1;
            assert(vars_of(part@) =~= vars_of(before).push(child@));
        }
        Ok(part)
    }
}

/// What lies behind a pointer or a reference.
enum Follow {
    Nothing,
    Scalar(Variable),
    Other(Variable),
}

impl Follow {
    spec fn model(&self) -> Followed {
        match self {
            Follow::Nothing => Followed::Nothing,
            Follow::Scalar(v) => Followed::Scalar(v@),
            Follow::Other(v) => Followed::Other(v@),
        }
    }

    spec fn within(&self, graph: std::rc::Rc<crate::debug::graph::TypeGraph>) -> bool {
        match self {
            Follow::Nothing => true,
            Follow::Scalar(v) => v.ty.graph == graph,
            Follow::Other(v) => v.ty.graph == graph,
        }
    }
}

fn map_reference(value: &Variable, memory: &MemoryDescriptor) -> (r: Result<Follow, DebugError>)
    ensures
        match r {
            Ok(f) => followed(value.ty.model(), value@, memory@) == Ok::<Followed, DebugError>(
                f.model(),
            ) && f.within(value.ty.graph),
            Err(e) => followed(value.ty.model(), value@, memory@) == Err::<Followed, DebugError>(
                e,
            ),
        },
{
    match value.ty.resolved() {
        Some(TypeDeclaration::Referential { target, kind, .. }) => {
            let ty = value.ty.child(*target);
            let there = value.child_at_offset(memory, 0).with_type(&ty);
            assert(there@.name =~= seq![]);
            match kind {
                ReferenceKind::Pointer => match value.pointer_value(memory) {
                    Some(addr) => if addr.is_null() {
                        Ok(Follow::Nothing)
                    } else {
                        match ty.resolved() {
                            Some(TypeDeclaration::Scalar { .. }) => Ok(Follow::Scalar(there)),
                            _ => Ok(Follow::Other(there)),
                        }
                    },
                    None => Ok(Follow::Nothing),
                },
                _ => Ok(Follow::Other(there)),
            }
        },
        _ => Err(DebugError::NotReferential),
    }
}

impl ReferentialFormatter {
    /// Renders the value for display in the variables view.
    fn display(&self, value: &Variable, memory: &MemoryDescriptor, fuel: u128) -> (r: Result<
        Rendered,
        DebugError,
    >)
        requires
            chosen(value.ty.model(), value.ty.root) == Some(Formatter::Referential),
        ensures
            rendered_of(r) == shown(value.ty.model(), value@, memory@, fuel as nat),
        decreases fuel, 0nat,
    {
        match value.ty.resolved() {
            Some(TypeDeclaration::Referential { target, kind, .. }) => match kind {
                ReferenceKind::Pointer => match value.address() {
                    Some(addr) => Ok(Rendered::Text(addr.to_text())),
                    None => Ok(Rendered::Text(own("<unavailable>"))),
                },
                _ => {
                    if fuel == 0 {
                        return Err(DebugError::Unsupported);
                    }
                    let ty = value.ty.child(*target);
                    let there = value.child_at_offset(memory, 0).with_type(&ty);
                    assert(there@.name =~= seq![]);
                    there.display_within(memory, fuel - 1)
                },
            },
            _ => Err(DebugError::NotReferential),
        }
    }

    /// Returns how many formatted children `value` has.
    fn num_children(&self, value: &Variable, memory: &MemoryDescriptor, fuel: u128) -> (r: Result<
        ChildCounts,
        DebugError,
    >)
        requires
            chosen(value.ty.model(), value.ty.root) == Some(Formatter::Referential),
        ensures
            counts_of(r) == counted(value.ty.model(), value@, memory@, fuel as nat),
        decreases fuel, 0nat,
    {
        match map_reference(value, memory) {
            Ok(Follow::Nothing) => Ok(ChildCounts::none()),
            Ok(Follow::Scalar(_)) => Ok(ChildCounts::named(1)),
            Ok(Follow::Other(there)) => {
                if fuel == 0 {
                    return Err(DebugError::Unsupported);
                }
                there.num_children_within(memory, fuel - 1)
            },
            Err(e) => Err(e),
        }
    }

    /// Returns indexed children in `range`.
    fn indexed_children(
        &self,
        value: &Variable,
        memory: &MemoryDescriptor,
        range: Range<usize>,
        fuel: u128,
    ) -> (r: Result<Vec<Variable>, DebugError>)
        requires
            chosen(value.ty.model(), value.ty.root) == Some(Formatter::Referential),
        ensures
            list_of(r) == indexed(
                value.ty.model(),
                value@,
                memory@,
                range.start as nat,
                range.end as nat,
                fuel as nat,
            ),
            r is Ok ==> all_in(r->Ok_0@, value.ty.graph),
        decreases fuel, 0nat,
    {
        match map_reference(value, memory) {
            Ok(Follow::Nothing) => Ok(no_children()),
            Ok(Follow::Scalar(_)) => Ok(no_children()),
            Ok(Follow::Other(there)) => {
                if fuel == 0 {
                    return Err(DebugError::Unsupported);
                }
                there.indexed_children_within(memory, range, fuel - 1)
            },
            Err(e) => Err(e),
        }
    }

    /// Returns named children in `range`.
    fn named_children(
        &self,
        value: &Variable,
        memory: &MemoryDescriptor,
        range: Range<usize>,
        fuel: u128,
    ) -> (r: Result<Vec<Variable>, DebugError>)
        requires
            chosen(value.ty.model(), value.ty.root) == Some(Formatter::Referential),
        ensures
            list_of(r) == named(
                value.ty.model(),
                value@,
                memory@,
                range.start as nat,
                range.end as nat,
                fuel as nat,
            ),
            r is Ok ==> all_in(r->Ok_0@, value.ty.graph),
        decreases fuel, 0nat,
    {
        match map_reference(value, memory) {
            Ok(Follow::Nothing) => Ok(no_children()),
            Ok(Follow::Scalar(there)) => {
                let mut out = no_children();
                if range.start == 0 && 0 < range.end {
                    let mut name = String::new();
                    name.push('*');
                    name.append(value.name());
                    assert(name@ =~= seq!['*'] + value@.name);
                    let child = there.with_name(name.as_str());
                    out.push(child);
                    assert(vars_of(out@) =~= seq![child@]);
                }
                Ok(out)
            },
            Ok(Follow::Other(there)) => {
                if fuel == 0 {
                    return Err(DebugError::Unsupported);
                }
                there.named_children_within(memory, range, fuel - 1)
            },
            Err(e) => Err(e),
        }
    }
}

impl Variable {
    fn display_within(&self, memory: &MemoryDescriptor, fuel: u128) -> (r: Result<
        Rendered,
        DebugError,
    >)
        ensures
            rendered_of(r) == shown(self.ty.model(), self@, memory@, fuel as nat),
        decreases fuel, 1nat,
    {
        match formatter_for(&self.ty) {
            None => Ok(Rendered::Text(own("<unknown>"))),
            Some(Formatter::Scalar) => ScalarFormatter.display(self, memory),
            Some(Formatter::Referential) => ReferentialFormatter.display(self, memory, fuel),
            Some(Formatter::Structure) => StructureFormatter.display(self),
            Some(Formatter::StdVector) => StructureFormatter.display(self),
            Some(Formatter::StdMap) => StructureFormatter.display(self),
            Some(Formatter::StdString) => Err(DebugError::NotImplemented),
        }
    }

    fn num_children_within(&self, memory: &MemoryDescriptor, fuel: u128) -> (r: Result<
        ChildCounts,
        DebugError,
    >)
        ensures
            counts_of(r) == counted(self.ty.model(), self@, memory@, fuel as nat),
        decreases fuel, 1nat,
    {
        match formatter_for(&self.ty) {
            None => Ok(ChildCounts::none()),
            Some(Formatter::Scalar) => Ok(ChildCounts::none()),
            Some(Formatter::Referential) => ReferentialFormatter.num_children(self, memory, fuel),
            Some(Formatter::Structure) => StructureFormatter.num_children(self),
            Some(Formatter::StdVector) => StdVectorFormatter.num_children(self, memory),
            Some(Formatter::StdMap) => StdMapFormatter.num_children(self, memory),
            Some(Formatter::StdString) => Err(DebugError::NotImplemented),
        }
    }

    fn indexed_children_within(
        &self,
        memory: &MemoryDescriptor,
        range: Range<usize>,
        fuel: u128,
    ) -> (r: Result<Vec<Variable>, DebugError>)
        ensures
            list_of(r) == indexed(
                self.ty.model(),
                self@,
                memory@,
                range.start as nat,
                range.end as nat,
                fuel as nat,
            ),
            r is Ok ==> all_in(r->Ok_0@, self.ty.graph),
        decreases fuel, 1nat,
    {
        match formatter_for(&self.ty) {
            None => Ok(no_children()),
            Some(Formatter::Scalar) => Ok(no_children()),
            Some(Formatter::Referential) => ReferentialFormatter.indexed_children(
                self,
                memory,
                range,
                fuel,
            ),
            Some(Formatter::Structure) => Ok(no_children()),
            Some(Formatter::StdVector) => StdVectorFormatter.indexed_children(
                self,
                memory,
                range,
            ),
            Some(Formatter::StdMap) => StdMapFormatter.indexed_children(self, memory, range),
            Some(Formatter::StdString) => Err(DebugError::NotImplemented),
        }
    }

    fn named_children_within(
        &self,
        memory: &MemoryDescriptor,
        range: Range<usize>,
        fuel: u128,
    ) -> (r: Result<Vec<Variable>, DebugError>)
        ensures
            list_of(r) == named(
                self.ty.model(),
                self@,
                memory@,
                range.start as nat,
                range.end as nat,
                fuel as nat,
            ),
            r is Ok ==> all_in(r->Ok_0@, self.ty.graph),
        decreases fuel, 1nat,
    {
        match formatter_for(&self.ty) {
            None => Ok(no_children()),
            Some(Formatter::Scalar) => Ok(no_children()),
            Some(Formatter::Referential) => ReferentialFormatter.named_children(
                self,
                memory,
                range,
                fuel,
            ),
            Some(Formatter::Structure) => StructureFormatter.named_children(self, memory, range),
            Some(Formatter::StdVector) => Ok(no_children()),
            Some(Formatter::StdMap) => Ok(no_children()),
            Some(Formatter::StdString) => Err(DebugError::NotImplemented),
        }
    }

    /// Renders this variable for display in the variables view.
    pub fn display(&self, memory: &MemoryDescriptor) -> (r: Result<Rendered, DebugError>)
        ensures
            rendered_of(r) == shown(self.ty.model(), self@, memory@, self.ty.model().size),
    {
        self.display_within(memory, self.ty.graph.size())
    }

    /// Returns how many formatted children this variable has.
    pub fn num_children(&self, memory: &MemoryDescriptor) -> (r: Result<ChildCounts, DebugError>)
        ensures
            counts_of(r) == counted(self.ty.model(), self@, memory@, self.ty.model().size),
    {
        self.num_children_within(memory, self.ty.graph.size())
    }

    /// Returns the indexed children in `range`.
    pub fn indexed_children(&self, memory: &MemoryDescriptor, range: Range<usize>) -> (r: Result<
        Vec<Variable>,
        DebugError,
    >)
        ensures
            list_of(r) == indexed(
                self.ty.model(),
                self@,
                memory@,
                range.start as nat,
                range.end as nat,
                self.ty.model().size,
            ),
            r is Ok ==> all_in(r->Ok_0@, self.ty.graph),
    {
        self.indexed_children_within(memory, range, self.ty.graph.size())
    }

    /// Returns the named children in `range`.
    pub fn named_children(&self, memory: &MemoryDescriptor, range: Range<usize>) -> (r: Result<
        Vec<Variable>,
        DebugError,
    >)
        ensures
            list_of(r) == named(
                self.ty.model(),
                self@,
                memory@,
                range.start as nat,
                range.end as nat,
                self.ty.model().size,
            ),
            r is Ok ==> all_in(r->Ok_0@, self.ty.graph),
    {
        self.named_children_within(memory, range, self.ty.graph.size())
    }
}

} // verus!
