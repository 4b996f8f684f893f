//! `std::map` and `std::set` of libc++, which are kept in a tree.
//!
//! The nodes of the tree lie in memory like this:
//!
//! ```text
//!        +-----------------------------+
//! node   | pointer __left_;            |
//!        | pointer __right_;           |
//!        | pointer __parent_;          |
//!        | bool __is_black_;           |
//!        +-----------------------------+
//!        | __node_value_type __value_; | <<< our key/value pair
//!        +-----------------------------+
//! ```
use std::ops::Range;

use vstd::prelude::*;

use crate::debug::graph::{GraphModel, Type, decl_at, nested_type, unmodified};
use crate::debug::types::TypeId;
use crate::debug::variables::{VarModel, Variable, all_in, unsigned_of, vars_of};
use crate::error::{Child, DebugError, Needed};
use crate::types::MemoryDescriptor;
use super::ChildCounts;
use super::choice::{StdMapFormatter, meaning_in};
use super::vector::{index_name, index_text, member_value, value_at};

verus! {

broadcast use vstd::seq_lib::group_seq_properties;

/// The size of an address in bytes.
pub const ADDRESS_SIZE: usize = 4;

/// Where the value of a node lies behind its start.
pub const NODE_VALUE_OFFSET: usize = 16;

// ---------------------------------------------------------------------------
// The tree
// ---------------------------------------------------------------------------

/// The address of the node that an entry points to; 0 where it points nowhere.
pub open spec fn node_address(g: GraphModel, e: VarModel, memory: Seq<u8>) -> u64 {
    match unsigned_of(meaning_in(g, e.ty), e.pieces, memory) {
        Some(a) => a,
        None => 0,
    }
}

/// The entry in the node that `e` points to that points to its left child.
pub open spec fn left_of(g: GraphModel, e: VarModel, memory: Seq<u8>) -> VarModel {
    value_at(g, e, memory, 0)
}

/// The entry in the node that `e` points to that points to its right child.
pub open spec fn right_of(g: GraphModel, e: VarModel, memory: Seq<u8>) -> VarModel {
    value_at(g, e, memory, ADDRESS_SIZE as u64)
}

/// The entry in the node that `e` points to that points to its parent.
pub open spec fn parent_of(g: GraphModel, e: VarModel, memory: Seq<u8>) -> VarModel {
    value_at(g, e, memory, (2 * ADDRESS_SIZE) as u64)
}

/// Whether the node that `e` points to is the left child of its parent.
pub open spec fn is_left_child(g: GraphModel, e: VarModel, memory: Seq<u8>) -> bool {
    let parent = parent_of(g, e, memory);
    &&& node_address(g, e, memory) != 0
    &&& node_address(g, parent, memory) != 0
    &&& node_address(g, e, memory) == node_address(g, left_of(g, parent, memory), memory)
}

/// The entry reached from `e` by going left as long as there is a left child,
/// at most `n` times.
pub open spec fn leftmost(g: GraphModel, e: VarModel, memory: Seq<u8>, n: nat) -> VarModel
    decreases n,
{
    let left = left_of(g, e, memory);
    if n == 0 || node_address(g, e, memory) == 0 || node_address(g, left, memory) == 0 {
        e
    } else {
        leftmost(g, left, memory, (n - 1) as nat)
    }
}

/// The entry reached from `e` by going up until a left child was left behind,
/// at most `n` times past the first.
pub open spec fn climbed(g: GraphModel, e: VarModel, memory: Seq<u8>, n: nat) -> VarModel
    decreases n,
{
    let parent = parent_of(g, e, memory);
    if node_address(g, e, memory) == 0 {
        e
    } else if is_left_child(g, e, memory) {
        parent
    } else if n == 0 {
        parent
    } else {
        climbed(g, parent, memory, (n - 1) as nat)
    }
}

/// The entry that comes behind `e` in order, in a tree of `size` nodes.
pub open spec fn next_entry_of(g: GraphModel, e: VarModel, memory: Seq<u8>, size: nat) -> VarModel {
    let right = right_of(g, e, memory);
    if node_address(g, e, memory) == 0 {
        e
    } else if node_address(g, right, memory) != 0 {
        leftmost(g, right, memory, size + 1)
    } else {
        climbed(g, e, memory, size)
    }
}

/// The entry that comes `n` entries behind `e` in order.
pub open spec fn nth_entry(
    g: GraphModel,
    e: VarModel,
    memory: Seq<u8>,
    size: nat,
    n: nat,
) -> VarModel
    decreases n,
{
    if n == 0 {
        e
    } else {
        next_entry_of(g, nth_entry(g, e, memory, size, (n - 1) as nat), memory, size)
    }
}

/// A tree: its first entry, the type of its values and its size.
pub struct TreeModel {
    pub begin: VarModel,
    pub value_type: TypeId,
    pub size: nat,
}

/// The tree that the container `v` is kept in.
pub open spec fn tree_model(g: GraphModel, v: VarModel, memory: Seq<u8>) -> Result<
    TreeModel,
    DebugError,
> {
    match member_value(g, v, memory, "__tree_"@) {
        Some(tree) => match member_value(g, tree, memory, "__begin_node_"@) {
            Some(begin) => match nested_type(
                decl_at(g, unmodified(g, tree.ty, g.size)),
                "value_type"@,
            ) {
                Some(nested) => match member_value(g, tree, memory, "__size_"@) {
                    Some(size) => match unsigned_of(meaning_in(g, size.ty), size.pieces, memory) {
                        Some(n) => Ok(
                            TreeModel {
                                begin,
                                value_type: unmodified(g, nested, g.size),
                                size: n as usize as nat,
                            },
                        ),
                        None => Err(DebugError::Unavailable(Needed::Size)),
                    },
                    None => Err(DebugError::ChildMissing(Child::Size)),
                },
                None => Err(DebugError::ChildMissing(Child::ValueType)),
            },
            None => Err(DebugError::ChildMissing(Child::BeginNode)),
        },
        None => Err(DebugError::ChildMissing(Child::Tree)),
    }
}

/// The value `i` of a tree, in order.
pub open spec fn tree_value(g: GraphModel, t: TreeModel, memory: Seq<u8>, i: nat) -> VarModel {
    VarModel {
        name: index_name(i),
        pieces: value_at(
            g,
            nth_entry(g, t.begin, memory, t.size, i),
            memory,
            NODE_VALUE_OFFSET as u64,
        ).pieces,
        ty: t.value_type,
    }
}

/// The values of a tree from `start` up to, not including, `end`, as far as
/// there are any.
pub open spec fn tree_values(
    g: GraphModel,
    t: TreeModel,
    memory: Seq<u8>,
    start: nat,
    end: nat,
) -> Seq<VarModel> {
    let to = if end < t.size {
        end
    } else {
        t.size
    };
    if to <= start {
        seq![]
    } else {
        Seq::new((to - start) as nat, |k: int| tree_value(g, t, memory, (start + k) as nat))
    }
}

/// Asking a tree for values in two neighbouring ranges yields the same values
/// as asking for both at once.
pub proof fn tree_ranges_join(
    g: GraphModel,
    t: TreeModel,
    memory: Seq<u8>,
    start: nat,
    middle: nat,
    end: nat,
)
    requires
        start <= middle <= end,
    ensures
        tree_values(g, t, memory, start, end) == tree_values(g, t, memory, start, middle)
            + tree_values(g, t, memory, middle, end),
        tree_values(g, t, memory, start, end).len() <= end - start,
{
    assert(tree_values(g, t, memory, start, end) =~= tree_values(g, t, memory, start, middle)
        + tree_values(g, t, memory, middle, end));
}

// ---------------------------------------------------------------------------
// Walking
// ---------------------------------------------------------------------------

/// Wraps a variable representing a pointer to a tree node.
struct MapEntry(Variable);

impl MapEntry {
    spec fn at(&self, e: VarModel, g: std::rc::Rc<crate::debug::graph::TypeGraph>) -> bool {
        self.0@ == e && self.0.ty.graph == g
    }

    fn value(&self, memory: &MemoryDescriptor) -> (r: u64)
        ensures
            r == node_address(self.0.ty.model(), self.0@, memory@),
    {
        match self.0.unsigned_value(memory) {
            Some(a) => a,
            None => 0,
        }
    }

    fn null(&self, memory: &MemoryDescriptor) -> (r: bool)
        ensures
            r == (node_address(self.0.ty.model(), self.0@, memory@) == 0),
    {
        self.value(memory) == 0
    }

    fn field(&self, memory: &MemoryDescriptor, offset: usize) -> (r: MapEntry)
        ensures
            r.at(
                value_at(self.0.ty.model(), self.0@, memory@, offset as u64),
                self.0.ty.graph,
            ),
    {
        let v = self.0.child_at_offset(memory, offset);
        assert(v@.name =~= seq![]);
        MapEntry(v)
    }

    fn left(&self, memory: &MemoryDescriptor) -> (r: MapEntry)
        ensures
            r.at(left_of(self.0.ty.model(), self.0@, memory@), self.0.ty.graph),
    {
        self.field(memory, 0)
    }

    fn right(&self, memory: &MemoryDescriptor) -> (r: MapEntry)
        ensures
            r.at(right_of(self.0.ty.model(), self.0@, memory@), self.0.ty.graph),
    {
        self.field(memory, ADDRESS_SIZE)
    }

    fn parent(&self, memory: &MemoryDescriptor) -> (r: MapEntry)
        ensures
            r.at(parent_of(self.0.ty.model(), self.0@, memory@), self.0.ty.graph),
    {
        self.field(memory, 2 * ADDRESS_SIZE)
    }

    fn is_left_child(&self, memory: &MemoryDescriptor) -> (r: bool)
        ensures
            r == is_left_child(self.0.ty.model(), self.0@, memory@),
    {
        if self.null(memory) {
            return false;
        }
        let parent = self.parent(memory);
        if parent.null(memory) {
            return false;
        }
        let left = parent.left(memory);
        self.value(memory) == left.value(memory)
    }

    fn copy(&self) -> (r: MapEntry)
        ensures
            r.at(self.0@, self.0.ty.graph),
    {
        MapEntry(self.0.copy())
    }
}

struct TreeIterator {
    current: MapEntry,
    value_type: Type,
    size: usize,
}

impl TreeIterator {
    fn new(container: &Variable, memory: &MemoryDescriptor) -> (r: Result<Self, DebugError>)
        ensures
            match r {
                Ok(it) => {
                    &&& tree_model(container.ty.model(), container@, memory@) == Ok::<
                        TreeModel,
                        DebugError,
                    >(
                        TreeModel {
                            begin: it.current.0@,
                            value_type: it.value_type.root,
                            size: it.size as nat,
                        },
                    )
                    &&& it.current.0.ty.graph == container.ty.graph
                    &&& it.value_type.graph == container.ty.graph
                },
                Err(e) => tree_model(container.ty.model(), container@, memory@) == Err::<
                    TreeModel,
                    DebugError,
                >(e),
            },
    {
        let tree = match container.child_with_name(memory, "__tree_") {
            Some(child) => child,
            None => {
                return Err(DebugError::ChildMissing(Child::Tree));
            },
        };
        let begin_node = match tree.child_with_name(memory, "__begin_node_") {
            Some(child) => child,
            None => {
                return Err(DebugError::ChildMissing(Child::BeginNode));
            },
        };
        let value_type = match tree.ty.discard_modifiers().direct_nested_type_with_name(
            "value_type",
        ) {
            Some(ty) => ty.discard_modifiers(),
            None => {
                return Err(DebugError::ChildMissing(Child::ValueType));
            },
        };
        let size = match tree.child_with_name(memory, "__size_") {
            Some(child) => child,
            None => {
                return Err(DebugError::ChildMissing(Child::Size));
            },
        };
        match size.unsigned_value(memory) {
            Some(n) => Ok(
                TreeIterator { current: MapEntry(begin_node), value_type, size: n as usize },
            ),
            None => Err(DebugError::Unavailable(Needed::Size)),
        }
    }

    fn value(&self, memory: &MemoryDescriptor) -> (r: Variable)
        ensures
            r@ == value_at(
                self.current.0.ty.model(),
                self.current.0@,
                memory@,
                NODE_VALUE_OFFSET as u64,
            ),
            r.ty.graph == self.current.0.ty.graph,
    {
        self.current.field(memory, NODE_VALUE_OFFSET).0
    }

    fn next(&mut self, memory: &MemoryDescriptor)
        ensures
            final(self).current.at(
                next_entry_of(
                    old(self).current.0.ty.model(),
                    old(self).current.0@,
                    memory@,
                    old(self).size as nat,
                ),
                old(self).current.0.ty.graph,
            ),
            final(self).value_type == old(self).value_type,
            final(self).size == old(self).size,
    {
        if self.current.null(memory) {
            return;
        }
        let right = self.current.right(memory);
        if !right.null(memory) {
            self.current = self.tree_min(right, memory);
            return;
        }
        let ghost g = self.current.0.ty.model();
        let ghost start = self.current.0@;
        let ghost graph = self.current.0.ty.graph;
        let size: usize = self.size;
        let mut n: usize = size;
        let mut entry = self.current.copy();
        while !entry.is_left_child(memory)
            invariant
                n <= size,
                entry.0.ty.graph == graph,
                g == (*graph)@,
                climbed(g, start, memory@, size as nat) == climbed(
                    g,
                    entry.0@,
                    memory@,
                    n as nat,
                ),
                next_entry_of(g, start, memory@, size as nat) == climbed(
                    g,
                    start,
                    memory@,
                    size as nat,
                ),
                start == old(self).current.0@,
                graph == old(self).current.0.ty.graph,
                size == old(self).size,
                self.value_type == old(self).value_type,
                self.size == old(self).size,
            decreases n,
        {
            if entry.null(memory) {
                self.current = entry;
                return;
            }
            let parent = entry.parent(memory);
            if n == 0 {
                self.current = parent;
                return;
            }
            entry = parent;
            n = n - 1;
        }
        self.current = entry.parent(memory);
    }

    fn tree_min(&self, entry: MapEntry, memory: &MemoryDescriptor) -> (r: MapEntry)
        ensures
            r.at(
                leftmost(entry.0.ty.model(), entry.0@, memory@, (self.size + 1) as nat),
                entry.0.ty.graph,
            ),
    {
        let ghost g = entry.0.ty.model();
        let ghost start = entry.0@;
        let ghost graph = entry.0.ty.graph;
        let mut n: u128 = self.size as u128 + 1;
        let mut curr = entry;
        while n > 0
            invariant
                start == entry.0@,
                graph == entry.0.ty.graph,
                curr.0.ty.graph == graph,
                g == (*graph)@,
                leftmost(g, start, memory@, (self.size + 1) as nat) == leftmost(
                    g,
                    curr.0@,
                    memory@,
                    n as nat,
                ),
            decreases n,
        {
            if curr.null(memory) {
                return curr;
            }
            let left = curr.left(memory);
            if left.null(memory) {
                return curr;
            }
            curr = left;
            n = n - 1;
        }
        curr
    }
}

impl StdMapFormatter {
    /// How many values the container has.
    pub fn num_children(&self, value: &Variable, memory: &MemoryDescriptor) -> (r: Result<
        ChildCounts,
        DebugError,
    >)
        ensures
            match tree_model(value.ty.model(), value@, memory@) {
                Ok(t) => r is Ok && r->Ok_0.indexed == t.size && r->Ok_0.named == 0,
                Err(e) => r == Err::<ChildCounts, DebugError>(e),
            },
    {
        match TreeIterator::new(value, memory) {
            Ok(tree) => Ok(ChildCounts::indexed(tree.size)),
            Err(e) => Err(e),
        }
    }

    /// The values of the container in `range`, as far as there are any.
    pub fn indexed_children(
        &self,
        value: &Variable,
        memory: &MemoryDescriptor,
        range: Range<usize>,
    ) -> (r: Result<Vec<Variable>, DebugError>)
        ensures
            match tree_model(value.ty.model(), value@, memory@) {
                Ok(t) => {
                    &&& r is Ok
                    &&& vars_of(r->Ok_0@) == tree_values(
                        value.ty.model(),
                        t,
                        memory@,
                        range.start as nat,
                        range.end as nat,
                    )
                    &&& all_in(r->Ok_0@, value.ty.graph)
                },
                Err(e) => r is Err && r->Err_0 == e,
            },
    {
        let mut iter = match TreeIterator::new(value, memory) {
            Ok(iter) => iter,
            Err(e) => {
                return Err(e);
            },
        };
        let ghost g = value.ty.model();
        let ghost t = TreeModel {
            begin: iter.current.0@,
            value_type: iter.value_type.root,
            size: iter.size as nat,
        };
        let start: usize = range.start;
        let end: usize = if range.end < iter.size {
            range.end
        } else {
            iter.size
        };
        let ghost want = tree_values(g, t, memory@, range.start as nat, range.end as nat);
        let mut out: Vec<Variable> = Vec::new();
        let mut i: usize = 0;
        while i < start
            invariant
                i <= start,
                g == value.ty.model(),
                iter.current.at(
                    nth_entry(g, t.begin, memory@, t.size, i as nat),
                    value.ty.graph,
                ),
                iter.size == t.size,
                iter.value_type.root == t.value_type,
                iter.value_type.graph == value.ty.graph,
            decreases start - i,
        {
            iter.next(memory);
            i = i + 1;
        }
        if end <= start {
            assert(vars_of(out@) =~= want);
            return Ok(out);
        }
        while i < end
            invariant
                start <= i <= end,
                g == value.ty.model(),
                iter.current.at(
                    nth_entry(g, t.begin, memory@, t.size, i as nat),
                    value.ty.graph,
                ),
                iter.size == t.size,
                iter.value_type.root == t.value_type,
                iter.value_type.graph == value.ty.graph,
                want == Seq::new(
                    (end - start) as nat,
                    |k: int| tree_value(g, t, memory@, (start + k) as nat),
                ),
                vars_of(out@) =~= want.take(i - start),
                all_in(out@, value.ty.graph),
            decreases end - i,
        {
            let ghost before = out@;
            let name = index_text(i);
            let child = iter.value(memory).with_name(name.as_str()).with_type(&iter.value_type);
            assert(child@ == tree_value(g, t, memory@, i as nat));
            out.push(child);
            iter.next(memory);
            i = i + 1;
            assert(vars_of(out@) =~= vars_of(before).push(child@));
            assert(want.take(i - start) =~= want.take(i - 1 - start).push(want[i - 1 - start]));
        }
        assert(want.take(end - start) =~= want);
        Ok(out)
    }
}

} // verus!
