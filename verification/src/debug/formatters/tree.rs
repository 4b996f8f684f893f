//! Trees in memory, and the proof that they are listed in order.
use vstd::prelude::*;

use crate::bytes::{byte_range_of_words, le_value, le_value_bound, window};
use crate::debug::graph::GraphModel;
use crate::debug::types::{DeclModel, ReferenceKind, TypeId};
use crate::debug::variables::{VarModel, child_space, pieces_at, pieces_from, pointer_of};
use super::choice::meaning_in;
use super::map::{ADDRESS_SIZE, NODE_VALUE_OFFSET, TreeModel, climbed, is_left_child, left_of,
    leftmost, next_entry_of, node_address, nth_entry, parent_of, right_of, tree_value, tree_values};
use super::vector::{index_name, value_at};

verus! {

broadcast use vstd::seq_lib::group_seq_properties;

/// A binary tree whose nodes lie in memory.
pub enum Tree {
    Empty,
    Node { at: u64, left: Box<Tree>, right: Box<Tree> },
}

/// The address of the root of a tree, 0 where there is none.
pub open spec fn root_of(t: Tree) -> u64 {
    match t {
        Tree::Empty => 0,
        Tree::Node { at, .. } => at,
    }
}

/// The addresses of the nodes of a tree, in order.
pub open spec fn nodes(t: Tree) -> Seq<u64>
    decreases t,
{
    match t {
        Tree::Empty => seq![],
        Tree::Node { at, left, right } => nodes(*left) + seq![at] + nodes(*right),
    }
}

/// The address that memory holds at an address, in four bytes.
pub open spec fn pointer_in(memory: Seq<u8>, at: u64) -> u64 {
    le_value(window(memory, at as usize as int, 4)) as u64
}

/// Whether a tree lies in memory below the node `parent`: every node points to
/// its left child at its start, to its right child four bytes behind that and to
/// its parent eight bytes behind it. Addresses have 32 bits.
pub open spec fn laid_out(memory: Seq<u8>, t: Tree, parent: u64) -> bool
    decreases t,
{
    match t {
        Tree::Empty => true,
        Tree::Node { at, left, right } => {
            &&& at != 0
            &&& at + 16 <= u32::MAX
            &&& pointer_in(memory, at) == root_of(*left)
            &&& pointer_in(memory, (at + 4) as u64) == root_of(*right)
            &&& pointer_in(memory, (at + 8) as u64) == parent
            &&& laid_out(memory, *left, at)
            &&& laid_out(memory, *right, at)
        },
    }
}

/// Whether the nodes of a tree are ordered by their keys.
pub open spec fn keys_ordered(t: Tree, key: spec_fn(u64) -> int) -> bool
    decreases t,
{
    match t {
        Tree::Empty => true,
        Tree::Node { at, left, right } => {
            &&& keys_ordered(*left, key)
            &&& keys_ordered(*right, key)
            &&& forall|i: int| 0 <= i < nodes(*left).len() ==> key(#[trigger] nodes(*left)[i]) < key(at)
            &&& forall|i: int|
                0 <= i < nodes(*right).len() ==> key(at) < key(#[trigger] nodes(*right)[i])
        },
    }
}

/// Whether values of the type `id` are pointers.
pub open spec fn is_pointer_type(g: GraphModel, id: TypeId) -> bool {
    meaning_in(g, id) matches Some(DeclModel::Referential { kind: ReferenceKind::Pointer, .. })
}

// ---------------------------------------------------------------------------
// Going along addresses
// ---------------------------------------------------------------------------

spec fn lowest(memory: Seq<u8>, a: u64, n: nat) -> u64
    decreases n,
{
    let left = pointer_in(memory, a);
    if n == 0 || a == 0 || left == 0 {
        a
    } else {
        lowest(memory, left, (n - 1) as nat)
    }
}

spec fn raised(memory: Seq<u8>, a: u64, n: nat) -> u64
    decreases n,
{
    let parent = pointer_in(memory, (a + 2 * ADDRESS_SIZE) as u64);
    if a == 0 {
        a
    } else if parent != 0 && pointer_in(memory, parent) == a {
        parent
    } else if n == 0 {
        parent
    } else {
        raised(memory, parent, (n - 1) as nat)
    }
}

spec fn following(memory: Seq<u8>, a: u64, size: nat) -> u64 {
    let right = pointer_in(memory, (a + ADDRESS_SIZE) as u64);
    if a == 0 {
        a
    } else if right != 0 {
        lowest(memory, right, size + 1)
    } else {
        raised(memory, a, size)
    }
}

proof fn pointers_are_short(memory: Seq<u8>, a: u64)
    ensures
        pointer_in(memory, a) <= u32::MAX,
{
    le_value_bound(window(memory, a as usize as int, 4));
    byte_range_of_words();
}

/// What lies behind a pointer.
proof fn field_of(g: GraphModel, e: VarModel, memory: Seq<u8>, offset: u64)
    requires
        is_pointer_type(g, e.ty),
        node_address(g, e, memory) != 0,
        node_address(g, e, memory) + offset <= u64::MAX,
    ensures
        value_at(g, e, memory, offset).pieces == pieces_at(
            (node_address(g, e, memory) + offset) as u64,
        ),
        value_at(g, e, memory, offset).ty == e.ty,
        node_address(g, value_at(g, e, memory, offset), memory) == pointer_in(
            memory,
            (node_address(g, e, memory) + offset) as u64,
        ),
{
    let a = node_address(g, e, memory);
    assert(pointer_of(e.pieces, memory) == Some(a));
    assert(child_space(meaning_in(g, e.ty), e.pieces, memory) == pieces_at(a));
    assert(pieces_from(pieces_at(a), offset) =~= pieces_at((a + offset) as u64));
}

proof fn leftmost_is_lowest(g: GraphModel, e: VarModel, memory: Seq<u8>, n: nat)
    requires
        is_pointer_type(g, e.ty),
    ensures
        leftmost(g, e, memory, n).ty == e.ty,
        node_address(g, leftmost(g, e, memory, n), memory) == lowest(
            memory,
            node_address(g, e, memory),
            n,
        ),
    decreases n,
{
    if n > 0 && node_address(g, e, memory) != 0 {
        field_of(g, e, memory, 0);
        leftmost_is_lowest(g, left_of(g, e, memory), memory, (n - 1) as nat);
    }
}

proof fn climbed_is_raised(g: GraphModel, e: VarModel, memory: Seq<u8>, n: nat)
    requires
        is_pointer_type(g, e.ty),
        node_address(g, e, memory) <= u32::MAX,
    ensures
        climbed(g, e, memory, n).ty == e.ty,
        node_address(g, climbed(g, e, memory, n), memory) == raised(
            memory,
            node_address(g, e, memory),
            n,
        ),
    decreases n,
{
    let a = node_address(g, e, memory);
    if a != 0 {
        field_of(g, e, memory, (2 * ADDRESS_SIZE) as u64);
        let parent = parent_of(g, e, memory);
        pointers_are_short(memory, (a + 2 * ADDRESS_SIZE) as u64);
        if node_address(g, parent, memory) != 0 {
            field_of(g, parent, memory, 0);
        }
        if !is_left_child(g, e, memory) && n > 0 {
            climbed_is_raised(g, parent, memory, (n - 1) as nat);
        }
    }
}

proof fn next_is_following(g: GraphModel, e: VarModel, memory: Seq<u8>, size: nat)
    requires
        is_pointer_type(g, e.ty),
        node_address(g, e, memory) <= u32::MAX,
    ensures
        next_entry_of(g, e, memory, size).ty == e.ty,
        node_address(g, next_entry_of(g, e, memory, size), memory) == following(
            memory,
            node_address(g, e, memory),
            size,
        ),
{
    if node_address(g, e, memory) != 0 {
        field_of(g, e, memory, ADDRESS_SIZE as u64);
        leftmost_is_lowest(g, right_of(g, e, memory), memory, size + 1);
        climbed_is_raised(g, e, memory, size);
    }
}

// ---------------------------------------------------------------------------
// Going along a tree
// ---------------------------------------------------------------------------

proof fn roots_are_nodes(t: Tree)
    requires
        t is Node,
    ensures
        nodes(t).contains(root_of(t)),
        nodes(t).len() > 0,
{
    if let Tree::Node { at, left, right } = t {
        assert(nodes(t)[nodes(*left).len() as int] == at);
    }
}

proof fn nodes_are_somewhere(memory: Seq<u8>, t: Tree, parent: u64, i: int)
    requires
        laid_out(memory, t, parent),
        0 <= i < nodes(t).len(),
    ensures
        nodes(t)[i] != 0,
        nodes(t)[i] + 16 <= u32::MAX,
    decreases t,
{
    if let Tree::Node { at, left, right } = t {
        let n = nodes(*left).len();
        if i < n {
            nodes_are_somewhere(memory, *left, at, i);
        } else if i > n {
            nodes_are_somewhere(memory, *right, at, i - n - 1);
        }
    }
}

/// Going left from the root leads to the first node.
proof fn lowest_is_first(memory: Seq<u8>, t: Tree, parent: u64, n: nat)
    requires
        laid_out(memory, t, parent),
        t is Node,
        n >= nodes(t).len(),
    ensures
        lowest(memory, root_of(t), n) == nodes(t)[0],
    decreases t,
{
    if let Tree::Node { at, left, right } = t {
        if *left is Node {
            roots_are_nodes(*left);
            nodes_are_somewhere(memory, *left, at, nodes(*left).index_of(root_of(*left)));
            lowest_is_first(memory, *left, at, (n - 1) as nat);
        } else {
            reveal_with_fuel(nodes, 2);
        }
    }
}

/// The last node has nothing to its right, and going up from it leads past the
/// root.
proof fn last_leads_up(memory: Seq<u8>, t: Tree, parent: u64, n: nat) -> (k: nat)
    requires
        laid_out(memory, t, parent),
        t is Node,
        nodes(t).no_duplicates(),
        n >= nodes(t).len(),
    ensures
        k < nodes(t).len(),
        pointer_in(memory, (nodes(t).last() + ADDRESS_SIZE) as u64) == 0,
        raised(memory, nodes(t).last(), n) == raised(memory, root_of(t), (n - k) as nat),
    decreases t,
{
    match t {
        Tree::Node { at, left, right } => {
            if *right is Node {
                roots_are_nodes(*right);
                let before = nodes(*left).len() + 1;
                assert(nodes(*right) =~= nodes(t).skip(before as int));
                assert(nodes(*right).no_duplicates());
                let k = last_leads_up(memory, *right, at, n);
                assert(nodes(t).last() == nodes(*right).last());
                let r = root_of(*right);
                let j = nodes(*right).index_of(r);
                assert(nodes(t)[before + j] == r);
                nodes_are_somewhere(memory, *right, at, j);
                assert(root_of(*left) != r) by {
                    if *left is Node {
                        roots_are_nodes(*left);
                        let i = nodes(*left).index_of(root_of(*left));
                        assert(nodes(t)[i] == root_of(*left));
                    }
                }
                reveal_with_fuel(laid_out, 2);
                assert(raised(memory, r, (n - k) as nat) == raised(
                    memory,
                    at,
                    (n - k - 1) as nat,
                ));
                k + 1
            } else {
                reveal_with_fuel(nodes, 2);
                assert(nodes(t).last() == at);
                0
            }
        },
        Tree::Empty => 0,
    }
}

/// Behind every node but the last comes the next one.
proof fn next_in_tree(memory: Seq<u8>, t: Tree, parent: u64, i: int, size: nat)
    requires
        laid_out(memory, t, parent),
        nodes(t).no_duplicates(),
        0 <= i < nodes(t).len() - 1,
        size >= nodes(t).len(),
    ensures
        following(memory, nodes(t)[i], size) == nodes(t)[i + 1],
    decreases t,
{
    if let Tree::Node { at, left, right } = t {
        let n = nodes(*left).len();
        assert(nodes(*left) =~= nodes(t).take(n as int));
        assert(nodes(*right) =~= nodes(t).skip((n + 1) as int));
        assert(nodes(*left).no_duplicates());
        assert(nodes(*right).no_duplicates());
        nodes_are_somewhere(memory, t, parent, i);
        if i < n - 1 {
            next_in_tree(memory, *left, at, i, size);
        } else if i == n - 1 {
            assert(*left is Node);
            let k = last_leads_up(memory, *left, at, size);
            roots_are_nodes(*left);
            nodes_are_somewhere(memory, *left, at, nodes(*left).index_of(root_of(*left)));
            assert(nodes(t)[i] == nodes(*left).last());
            reveal_with_fuel(laid_out, 2);
            assert(raised(memory, root_of(*left), (size - k) as nat) == at);
        } else if i == n {
            assert(*right is Node);
            roots_are_nodes(*right);
            nodes_are_somewhere(memory, *right, at, nodes(*right).index_of(root_of(*right)));
            lowest_is_first(memory, *right, at, size + 1);
        } else {
            next_in_tree(memory, *right, at, i - n - 1, size);
        }
    }
}

proof fn keys_grow(t: Tree, key: spec_fn(u64) -> int, i: int, j: int)
    requires
        keys_ordered(t, key),
        0 <= i < j < nodes(t).len(),
    ensures
        key(nodes(t)[i]) < key(nodes(t)[j]),
    decreases t,
{
    if let Tree::Node { at, left, right } = t {
        let n = nodes(*left).len();
        if i < n {
            assert(nodes(t)[i] == nodes(*left)[i]);
        } else if i > n {
            assert(nodes(t)[i] == nodes(*right)[i - n - 1]);
        }
        if j < n {
            assert(nodes(t)[j] == nodes(*left)[j]);
            keys_grow(*left, key, i, j);
        } else if j > n {
            assert(nodes(t)[j] == nodes(*right)[j - n - 1]);
            if i > n {
                keys_grow(*right, key, i - n - 1, j - n - 1);
            }
        }
    }
}

// ---------------------------------------------------------------------------
// Laws
// ---------------------------------------------------------------------------

proof fn entries_are_nodes(
    g: GraphModel,
    t: TreeModel,
    memory: Seq<u8>,
    tree: Tree,
    parent: u64,
    i: nat,
)
    requires
        is_pointer_type(g, t.begin.ty),
        laid_out(memory, tree, parent),
        nodes(tree).no_duplicates(),
        t.size == nodes(tree).len(),
        i < t.size,
        node_address(g, t.begin, memory) == nodes(tree)[0],
    ensures
        nth_entry(g, t.begin, memory, t.size, i).ty == t.begin.ty,
        node_address(g, nth_entry(g, t.begin, memory, t.size, i), memory) == nodes(tree)[i as int],
    decreases i,
{
    if i > 0 {
        let before = (i - 1) as nat;
        entries_are_nodes(g, t, memory, tree, parent, before);
        nodes_are_somewhere(memory, tree, parent, before as int);
        next_is_following(g, nth_entry(g, t.begin, memory, t.size, before), memory, t.size);
        next_in_tree(memory, tree, parent, before as int, t.size);
    }
}

/// The values of a tree that lies in memory are listed in its order, each of
/// them once: the one numbered `i` lies in the node number `i`, and where the
/// keys are ordered along the tree, they grow from value to value. A range is
/// cut off at the size of the tree.
pub proof fn trees_are_listed_in_order(
    g: GraphModel,
    t: TreeModel,
    memory: Seq<u8>,
    tree: Tree,
    parent: u64,
    key: spec_fn(u64) -> int,
    start: nat,
    end: nat,
)
    requires
        is_pointer_type(g, t.begin.ty),
        laid_out(memory, tree, parent),
        nodes(tree).no_duplicates(),
        t.size == nodes(tree).len(),
        t.size > 0 ==> node_address(g, t.begin, memory) == nodes(tree)[0],
    ensures
        ({
            let listed = tree_values(g, t, memory, start, end);
            let to = if end < t.size {
                end
            } else {
                t.size
            };
            &&& listed.len() == if to <= start {
                0
            } else {
                to - start
            }
            &&& forall|j: int|
                0 <= j < listed.len() ==> #[trigger] listed[j] == (VarModel {
                    name: index_name((start + j) as nat),
                    pieces: pieces_at((nodes(tree)[start + j] + 16) as u64),
                    ty: t.value_type,
                })
        }),
        keys_ordered(tree, key) ==> forall|i: int, j: int|
            0 <= i < j < nodes(tree).len() ==> key(#[trigger] nodes(tree)[i]) < key(
                #[trigger] nodes(tree)[j],
            ),
{
    let listed = tree_values(g, t, memory, start, end);
    assert forall|j: int| 0 <= j < listed.len() implies #[trigger] listed[j] == (VarModel {
        name: index_name((start + j) as nat),
        pieces: pieces_at((nodes(tree)[start + j] + 16) as u64),
        ty: t.value_type,
    }) by {
        let i = (start + j) as nat;
        entries_are_nodes(g, t, memory, tree, parent, i);
        nodes_are_somewhere(memory, tree, parent, i as int);
        field_of(
            g,
            nth_entry(g, t.begin, memory, t.size, i),
            memory,
            NODE_VALUE_OFFSET as u64,
        );
        assert(listed[j] == tree_value(g, t, memory, i));
    }
    if keys_ordered(tree, key) {
        assert forall|i: int, j: int| 0 <= i < j < nodes(tree).len() implies key(
            #[trigger] nodes(tree)[i],
        ) < key(#[trigger] nodes(tree)[j]) by {
            keys_grow(tree, key, i, j);
        }
    }
}

} // verus!
