//! `std::vector` of libc++.
use std::ops::Range;

use vstd::prelude::*;

use crate::debug::graph::{GraphModel, Type, size_of_decl};
use crate::debug::types::{DeclModel, TypeId};
use crate::debug::variables::{VarModel, Variable, all_in, child_space, named_child, pieces_from,
    pointer_of, vars_of};
use crate::error::{Child, DebugError, Needed};
use crate::text::{decimal, unsigned_text};
use crate::types::MemoryDescriptor;
use super::ChildCounts;
use super::choice::{StdVectorFormatter, meaning_in};

verus! {

broadcast use vstd::seq_lib::group_seq_properties;

/// The value `offset` bytes into the space that the children of `v` lie in.
pub open spec fn value_at(g: GraphModel, v: VarModel, memory: Seq<u8>, offset: u64) -> VarModel {
    VarModel {
        name: seq![],
        pieces: pieces_from(child_space(meaning_in(g, v.ty), v.pieces, memory), offset),
        ty: v.ty,
    }
}

/// The member of `v` called `name`.
pub open spec fn member_value(
    g: GraphModel,
    v: VarModel,
    memory: Seq<u8>,
    name: Seq<char>,
) -> Option<VarModel> {
    match named_child(meaning_in(g, v.ty), name) {
        Some((offset, ty)) => Some(
            VarModel { name, pieces: value_at(g, v, memory, offset as usize as u64).pieces, ty },
        ),
        None => None,
    }
}

/// How an indexed child is called: `[i]`.
pub open spec fn index_name(i: nat) -> Seq<char> {
    seq!['['] + decimal(i) + seq![']']
}

/// Writes the name of an indexed child.
pub fn index_text(i: usize) -> (r: String)
    ensures
        r@ == index_name(i as nat),
{
    let mut out = String::new();
    out.push('[');
    let digits = unsigned_text(i as u64);
    out.append(digits.as_str());
    out.push(']');
    assert(out@ =~= index_name(i as nat));
    out
}

/// Where a vector keeps its elements.
pub struct VectorModel {
    /// The pointer to the first element.
    pub begin: VarModel,
    pub count: nat,
    pub elem_ty: TypeId,
    pub elem_size: nat,
}

/// Where a vector keeps its elements whose first element `begin` points to, and
/// behind whose last element `end` points.
pub open spec fn vector_between(
    g: GraphModel,
    begin: VarModel,
    end: VarModel,
    memory: Seq<u8>,
) -> Result<VectorModel, DebugError> {
    match (pointer_of(begin.pieces, memory), pointer_of(end.pieces, memory)) {
        (None, _) => Err(DebugError::Unavailable(Needed::Begin)),
        (_, None) => Err(DebugError::Unavailable(Needed::End)),
        (Some(first), Some(past)) => match meaning_in(g, begin.ty) {
            Some(DeclModel::Referential { target, .. }) => match size_of_decl(
                meaning_in(g, target),
            ) {
                Some(size) => {
                    let elem_size = size as usize as nat;
                    let bytes = if past >= first {
                        (past - first) as nat
                    } else {
                        0
                    };
                    Ok(
                        VectorModel {
                            begin,
                            count: if elem_size == 0 {
                                0
                            } else {
                                bytes / elem_size
                            },
                            elem_ty: target,
                            elem_size,
                        },
                    )
                },
                None => Err(DebugError::Unavailable(Needed::ElementSize)),
            },
            _ => Err(DebugError::Unavailable(Needed::ElementType)),
        },
    }
}

/// Where the vector `v` keeps its elements.
pub open spec fn vector_model(g: GraphModel, v: VarModel, memory: Seq<u8>) -> Result<
    VectorModel,
    DebugError,
> {
    match member_value(g, v, memory, "__begin_"@) {
        None => Err(DebugError::ChildMissing(Child::Begin)),
        Some(begin) => match member_value(g, v, memory, "__end_"@) {
            None => Err(DebugError::ChildMissing(Child::End)),
            Some(end) => vector_between(g, begin, end, memory),
        },
    }
}

/// The element `i` of a vector.
pub open spec fn vector_element(g: GraphModel, d: VectorModel, memory: Seq<u8>, i: nat) -> VarModel {
    VarModel {
        name: index_name(i),
        pieces: value_at(g, d.begin, memory, (i * d.elem_size) as u64).pieces,
        ty: d.elem_ty,
    }
}

/// The elements of a vector from `start` up to, not including, `end`, as far
/// as there are any.
pub open spec fn vector_elements(
    g: GraphModel,
    d: VectorModel,
    memory: Seq<u8>,
    start: nat,
    end: nat,
) -> Seq<VarModel> {
    let from = if start < d.count {
        start
    } else {
        d.count
    };
    let to = if end < d.count {
        end
    } else {
        d.count
    };
    if d.elem_size == 0 || to <= from {
        seq![]
    } else {
        Seq::new((to - from) as nat, |k: int| vector_element(g, d, memory, (from + k) as nat))
    }
}

struct VectorData {
    begin: Variable,
    count: usize,
    elem_ty: Type,
    elem_size: usize,
}

impl VectorData {
    spec fn model(&self) -> VectorModel {
        VectorModel {
            begin: self.begin@,
            count: self.count as nat,
            elem_ty: self.elem_ty.root,
            elem_size: self.elem_size as nat,
        }
    }
}

impl StdVectorFormatter {
    fn data(value: &Variable, memory: &MemoryDescriptor) -> (r: Result<VectorData, DebugError>)
        ensures
            match r {
                Ok(d) => {
                    &&& vector_model(value.ty.model(), value@, memory@) == Ok::<
                        VectorModel,
                        DebugError,
                    >(d.model())
                    &&& d.begin.ty.graph == value.ty.graph
                    &&& d.elem_ty.graph == value.ty.graph
                    &&& d.count * d.elem_size <= u32::MAX
                },
                Err(e) => vector_model(value.ty.model(), value@, memory@) == Err::<
                    VectorModel,
                    DebugError,
                >(e),
            },
    {
        let begin = match value.child_with_name(memory, "__begin_") {
            Some(child) => child,
            None => {
                return Err(DebugError::ChildMissing(Child::Begin));
            },
        };
        let end = match value.child_with_name(memory, "__end_") {
            Some(child) => child,
            None => {
                return Err(DebugError::ChildMissing(Child::End));
            },
        };
        let first: u64 = match begin.pointer_value(memory) {
            Some(address) => address.0,
            None => {
                return Err(DebugError::Unavailable(Needed::Begin));
            },
        };
        let past: u64 = match end.pointer_value(memory) {
            Some(address) => address.0,
            None => {
                return Err(DebugError::Unavailable(Needed::End));
            },
        };
        let elem_ty = match begin.ty.pointee() {
            Some(ty) => ty,
            None => {
                return Err(DebugError::Unavailable(Needed::ElementType));
            },
        };
        let elem_size: usize = match elem_ty.byte_size() {
            Some(size) => size as usize,
            None => {
                return Err(DebugError::Unavailable(Needed::ElementSize));
            },
        };
        if elem_size == 0 {
            let empty = VectorData { begin, count: 0, elem_ty, elem_size: 0 };
            assert(empty.count * empty.elem_size == 0) by (nonlinear_arith)
                requires
                    empty.count == 0,
            ;
            return Ok(empty);
        }
        let bytes: u64 = if past >= first {
            past - first
        } else {
            0
        };
        assert(bytes <= u32::MAX);
        let count: usize = bytes as usize / elem_size;
        assert(count * elem_size <= bytes) by (nonlinear_arith)
            requires
                count == bytes as int / elem_size as int,
                elem_size > 0,
                bytes >= 0,
        ;
        Ok(VectorData { begin, count, elem_ty, elem_size })
    }

    /// How many elements the vector has.
    pub fn num_children(&self, value: &Variable, memory: &MemoryDescriptor) -> (r: Result<
        ChildCounts,
        DebugError,
    >)
        ensures
            match vector_model(value.ty.model(), value@, memory@) {
                Ok(d) => r is Ok && r->Ok_0.indexed == d.count && r->Ok_0.named == 0,
                Err(e) => r == Err::<ChildCounts, DebugError>(e),
            },
    {
        match Self::data(value, memory) {
            Ok(d) => Ok(ChildCounts::indexed(d.count)),
            Err(e) => Err(e),
        }
    }

    /// The elements of the vector in `range`, as far as there are any.
    pub fn indexed_children(
        &self,
        value: &Variable,
        memory: &MemoryDescriptor,
        range: Range<usize>,
    ) -> (r: Result<Vec<Variable>, DebugError>)
        ensures
            match vector_model(value.ty.model(), value@, memory@) {
                Ok(d) => {
                    &&& r is Ok
                    &&& vars_of(r->Ok_0@) == vector_elements(
                        value.ty.model(),
                        d,
                        memory@,
                        range.start as nat,
                        range.end as nat,
                    )
                    &&& all_in(r->Ok_0@, value.ty.graph)
                },
                Err(e) => r is Err && r->Err_0 == e,
            },
    {
        let data = match Self::data(value, memory) {
            Ok(d) => d,
            Err(e) => {
                return Err(e);
            },
        };
        let ghost g = value.ty.model();
        let ghost d = data.model();
        let from: usize = if range.start < data.count {
            range.start
        } else {
            data.count
        };
        let to: usize = if range.end < data.count {
            range.end
        } else {
            data.count
        };
        let mut out: Vec<Variable> = Vec::new();
        let ghost want = vector_elements(g, d, memory@, range.start as nat, range.end as nat);
        if data.elem_size == 0 || to <= from {
            assert(vars_of(out@) =~= want);
            return Ok(out);
        }
        let mut i: usize = from;
        while i < to
            invariant
                from <= i <= to <= data.count,
                data.count * data.elem_size <= u32::MAX,
                data.elem_size > 0,
                d == data.model(),
                g == value.ty.model(),
                data.begin.ty.graph == value.ty.graph,
                data.elem_ty.graph == value.ty.graph,
                want == Seq::new(
                    (to - from) as nat,
                    |k: int| vector_element(g, d, memory@, (from + k) as nat),
                ),
                vars_of(out@) =~= want.take(i - from),
                all_in(out@, value.ty.graph),
            decreases to - i,
        {
            let ghost before = out@;
            assert(i * data.elem_size <= data.count * data.elem_size) by (nonlinear_arith)
                requires
                    i <= data.count,
            ;
            let name = index_text(i);
            let child = data.begin.child_at_offset(memory, i * data.elem_size).with_name(
                name.as_str(),
            ).with_type(&data.elem_ty);
            assert(child@ == vector_element(g, d, memory@, i as nat));
            out.push(child);
            i = i + 1;
            assert(vars_of(out@) =~= vars_of(before).push(child@));
            assert(want.take(i - from) =~= want.take(i - 1 - from).push(want[i - 1 - from]));
        }
        assert(want.take(to - from) =~= want);
        Ok(out)
    }
}

/// Asking a vector for elements in two neighbouring ranges yields the same
/// elements as asking for both at once.
pub proof fn vector_ranges_join(
    g: GraphModel,
    d: VectorModel,
    memory: Seq<u8>,
    start: nat,
    middle: nat,
    end: nat,
)
    requires
        start <= middle <= end,
    ensures
        vector_elements(g, d, memory, start, end) == vector_elements(g, d, memory, start, middle)
            + vector_elements(g, d, memory, middle, end),
        vector_elements(g, d, memory, start, end).len() <= end - start,
{
    assert(vector_elements(g, d, memory, start, end) =~= vector_elements(
        g,
        d,
        memory,
        start,
        middle,
    ) + vector_elements(g, d, memory, middle, end));
}

} // verus!
