//! The types of a program and how they are made of each other.
use std::collections::HashMap;
use std::rc::Rc;

use vstd::prelude::*;

use crate::text::{concat, own, same, signed_decimal, signed_text};
use super::dwarf::{Dwarf, unit_views};
use super::dwarf::entry::{EntryModel, as_path, namespaces, path_namespaces, path_to, step_path,
    subtree_end};
use super::dwarf::unit::{Unit, UnitView};
use super::types::{BoundModel, DeclModel, Modifier, NamespaceHierarchy, ReferenceKind,
    TypeDeclaration, TypeId, Value, declared, nested_of, parse_type_declaration, qualified};

verus! {

broadcast use {vstd::seq_lib::group_seq_properties, vstd::std_specs::hash::group_hash_axioms};

/// The declarations of a program by the entries that hold them.
#[derive(Debug)]
pub struct TypeGraph {
    units: Vec<HashMap<usize, TypeDeclaration>>,
    size: u128,
}

/// The mathematical value of a [`TypeGraph`].
pub struct GraphModel {
    /// The declarations of each unit, by offset.
    pub units: Seq<Map<usize, DeclModel>>,
    /// More than there are declarations: one more than the entries that they were
    /// looked for in.
    pub size: nat,
}

/// The declarations that a map holds.
pub open spec fn decls_of(m: Map<usize, TypeDeclaration>) -> Map<usize, DeclModel> {
    m.map_values(|d: TypeDeclaration| d@)
}

impl View for TypeGraph {
    type V = GraphModel;

    closed spec fn view(&self) -> GraphModel {
        GraphModel {
            units: self.units@.map_values(|m: HashMap<usize, TypeDeclaration>| decls_of(m@)),
            size: self.size as nat,
        }
    }
}

/// The declarations of a unit, among its first `n` entries.
pub open spec fn unit_decls(u: UnitView, n: int) -> Map<usize, DeclModel>
    decreases n,
{
    if n <= 0 {
        Map::empty()
    } else {
        let before = unit_decls(u, n - 1);
        match declared(u, n - 1, namespaces(u.entries, path_to(u.entries, n - 1))) {
            Some(d) => before.insert(u.entries[n - 1].offset, d),
            None => before,
        }
    }
}

/// How many of the entries stand in the tree of the first.
pub open spec fn root_end(es: Seq<EntryModel>) -> int {
    if es.len() == 0 {
        0
    } else {
        subtree_end(es, 0, 1)
    }
}

/// How many entries the units have.
pub open spec fn entry_count(units: Seq<UnitView>) -> nat
    decreases units.len(),
{
    if units.len() == 0 {
        0
    } else {
        entry_count(units.drop_last()) + units.last().entries.len()
    }
}

/// The declarations of a program.
pub open spec fn graph_of(units: Seq<UnitView>) -> GraphModel {
    GraphModel {
        units: units.map_values(|u: UnitView| unit_decls(u, root_end(u.entries))),
        size: entry_count(units) + 1,
    }
}

/// The declaration of the type `id`.
pub open spec fn decl_at(g: GraphModel, id: TypeId) -> Option<DeclModel> {
    if id.unit_index < g.units.len() && g.units[id.unit_index as int].contains_key(id.unit_ofs) {
        Some(g.units[id.unit_index as int][id.unit_ofs])
    } else {
        None
    }
}

/// The declaration behind the modifiers of the type `id`, of which at most
/// `fuel` are looked through.
pub open spec fn resolve(g: GraphModel, id: TypeId, fuel: nat) -> Option<DeclModel>
    decreases fuel,
{
    match decl_at(g, id) {
        Some(DeclModel::ModifiedType { inner, .. }) => if fuel == 0 {
            None
        } else {
            resolve(g, inner, (fuel - 1) as nat)
        },
        Some(d) => Some(d),
        None => None,
    }
}

/// The type behind the modifiers of the type `id`, of which at most `fuel` are
/// looked through.
pub open spec fn unmodified(g: GraphModel, id: TypeId, fuel: nat) -> TypeId
    decreases fuel,
{
    match decl_at(g, id) {
        Some(DeclModel::ModifiedType { inner, .. }) => if fuel == 0 {
            id
        } else {
            unmodified(g, inner, (fuel - 1) as nat)
        },
        _ => id,
    }
}

fn declarations(u: &Unit) -> (r: HashMap<usize, TypeDeclaration>)
    ensures
        decls_of(r@) == unit_decls(u@, root_end(u@.entries)),
{
    let ghost all = u@.entries;
    let mut types: HashMap<usize, TypeDeclaration> = HashMap::new();
    let mut path: Vec<usize> = Vec::new();
    let mut i: usize = 0;
    let len: usize = u.entries.len();
    assert(as_path(path@) =~= path_to(all, -1));
    assert(decls_of(types@) =~= unit_decls(u@, 0));
    while i < len && (i == 0 || u.entries[i].depth > u.entries[0].depth)
        invariant
            all == u@.entries,
            len == u.entries@.len() == all.len(),
            i <= len,
            i == 0 || subtree_end(all, 0, 1) == subtree_end(all, 0, i as int),
            as_path(path@) == path_to(all, i - 1),
            forall|n: int| 0 <= n < path@.len() ==> (#[trigger] path@[n]) < i,
            decls_of(types@) == unit_decls(u@, i as int),
        decreases len - i,
    {
        assert(all[i as int] == u.entries@[i as int]@);
        assert(all[0] == u.entries@[0]@);
        step_path(&u.entries, &mut path, i);
        let ns = NamespaceHierarchy(path_namespaces(&u.entries, &path));
        let ghost before = types@;
        if let Some(d) = parse_type_declaration(u, i, ns) {
            let offset: usize = u.entries[i].offset;
            types.insert(offset, d);
            assert(decls_of(types@) =~= decls_of(before).insert(offset, d@));
        }
        i = i + 1;
    }
    assert(i == root_end(all)) by {
        if all.len() > 0 {
            if i < len {
                assert(all[i as int] == u.entries@[i as int]@);
                assert(all[0] == u.entries@[0]@);
            }
        }
    }
    types
}

impl TypeGraph {
    /// The declarations of a program.
    pub fn new(dwarf: &Dwarf) -> (r: TypeGraph)
        ensures
            r@ == graph_of(dwarf@.units),
    {
        let list = dwarf.units();
        let ghost all = dwarf@.units;
        let mut units: Vec<HashMap<usize, TypeDeclaration>> = Vec::new();
        let mut size: u128 = 1;
        let mut i: usize = 0;
        while i < list.len()
            invariant
                all == unit_views(list@),
                i <= list@.len(),
                size == entry_count(all.take(i as int)) + 1,
                size <= i * usize::MAX + 1,
                units@.map_values(|m: HashMap<usize, TypeDeclaration>| decls_of(m@)) =~= graph_of(
                    all,
                ).units.take(i as int),
            decreases list@.len() - i,
        {
            let ghost before = units@;
            let types = declarations(&list[i]);
            let count: usize = list[i].entries.len();
            assert(all[i as int] == list@[i as int]@);
            assert(all.take(i + 1).drop_last() =~= all.take(i as int));
            assert(all.take(i + 1).last() == list@[i as int]@);
            assert((i + 1) * usize::MAX == i * usize::MAX + usize::MAX) by (nonlinear_arith);
            assert((i + 1) * usize::MAX < u128::MAX) by (nonlinear_arith)
                requires
                    i + 1 <= usize::MAX,
            ;
            size = size + count as u128;
            units.push(types);
            assert(units@.map_values(|m: HashMap<usize, TypeDeclaration>| decls_of(m@))
                =~= before.map_values(|m: HashMap<usize, TypeDeclaration>| decls_of(m@)).push(
                decls_of(types@),
            ));
            i = i + 1;
            assert(graph_of(all).units.take(i as int) =~= graph_of(all).units.take(i - 1).push(
                graph_of(all).units[i - 1],
            ));
        }
        assert(all.take(all.len() as int) =~= all);
        assert(graph_of(all).units.take(all.len() as int) =~= graph_of(all).units);
        TypeGraph { units, size }
    }

    /// More than there are declarations: one more than the entries that they were
    /// looked for in.
    pub fn size(&self) -> (r: u128)
        ensures
            r == self@.size,
    {
        self.size
    }

    /// The declaration of the type `id`.
    pub fn get(&self, id: TypeId) -> (r: Option<&TypeDeclaration>)
        ensures
            match r {
                Some(d) => decl_at(self@, id) == Some(d@),
                None => decl_at(self@, id) is None,
            },
    {
        if id.unit_index < self.units.len() {
            let m = &self.units[id.unit_index];
            assert(self@.units[id.unit_index as int] == decls_of(m@));
            m.get(&id.unit_ofs)
        } else {
            None
        }
    }
}

/// `Rc::clone` of the standard library: another handle on the same graph.
#[verifier::external_body]
pub(crate) fn share(graph: &Rc<TypeGraph>) -> (r: Rc<TypeGraph>)
    ensures
        r == graph,
{
    Rc::clone(graph)
}

/// A type of a program.
#[derive(Debug)]
pub struct Type {
    pub root: TypeId,
    pub graph: Rc<TypeGraph>,
}

impl Type {
    /// The declarations that this type is made of.
    pub open spec fn model(&self) -> GraphModel {
        (*self.graph)@
    }

    /// The declaration of this type behind its modifiers.
    pub open spec fn meaning(&self) -> Option<DeclModel> {
        resolve(self.model(), self.root, self.model().size)
    }

    pub fn new(root: TypeId, graph: Rc<TypeGraph>) -> (r: Self)
        ensures
            r.root == root,
            r.graph == graph,
    {
        Type { root, graph }
    }

    /// The declaration of this type.
    pub fn declaration(&self) -> (r: Option<&TypeDeclaration>)
        ensures
            match r {
                Some(d) => decl_at(self.model(), self.root) == Some(d@),
                None => decl_at(self.model(), self.root) is None,
            },
    {
        self.graph.get(self.root)
    }

    /// Returns a [`Type`] over the same graph, rooted at `id`.
    pub fn child(&self, id: TypeId) -> (r: Type)
        ensures
            r.root == id,
            r.graph == self.graph,
    {
        Type { root: id, graph: share(&self.graph) }
    }

    /// Walks past `typedef`/cv-qualifier modifiers and returns the underlying declaration.
    pub fn resolved(&self) -> (r: Option<&TypeDeclaration>)
        ensures
            match r {
                Some(d) => self.meaning() == Some(d@),
                None => self.meaning() is None,
            },
    {
        let mut id: TypeId = self.root;
        let mut fuel: u128 = self.graph.size;
        loop
            invariant
                self.meaning() == resolve(self.model(), id, fuel as nat),
            decreases fuel,
        {
            match self.graph.get(id) {
                Some(d) => match d {
                    TypeDeclaration::ModifiedType { inner, .. } => {
                        if fuel == 0 {
                            return None;
                        }
                        id = *inner;
                        fuel = fuel - 1;
                    },
                    _ => {
                        return Some(d);
                    },
                },
                None => {
                    return None;
                },
            }
        }
    }

    /// This type without its outermost modifier, if it has one.
    pub fn skip_one_modifier(&self) -> (r: Type)
        ensures
            r.graph == self.graph,
            r.root == match decl_at(self.model(), self.root) {
                Some(DeclModel::ModifiedType { inner, .. }) => inner,
                _ => self.root,
            },
    {
        match self.declaration() {
            Some(TypeDeclaration::ModifiedType { inner, .. }) => self.child(*inner),
            _ => self.child(self.root),
        }
    }

    /// This type without its modifiers.
    pub fn discard_modifiers(&self) -> (r: Type)
        ensures
            r.graph == self.graph,
            r.root == unmodified(self.model(), self.root, self.model().size),
    {
        let mut id: TypeId = self.root;
        let mut fuel: u128 = self.graph.size;
        loop
            invariant
                unmodified(self.model(), self.root, self.model().size) == unmodified(
                    self.model(),
                    id,
                    fuel as nat,
                ),
            decreases fuel,
        {
            match self.graph.get(id) {
                Some(TypeDeclaration::ModifiedType { inner, .. }) => {
                    if fuel == 0 {
                        return self.child(id);
                    }
                    id = *inner;
                    fuel = fuel - 1;
                },
                _ => {
                    return self.child(id);
                },
            }
        }
    }

    /// The type that a pointer or a reference refers to.
    pub fn pointee(&self) -> (r: Option<Type>)
        ensures
            match self.meaning() {
                Some(DeclModel::Referential { target, .. }) => {
                    &&& r is Some
                    &&& r->0.root == target
                    &&& r->0.graph == self.graph
                },
                _ => r is None,
            },
    {
        match self.resolved() {
            Some(TypeDeclaration::Referential { target, .. }) => Some(self.child(*target)),
            _ => None,
        }
    }

    /// The type called `name` that this structure declares inside itself.
    pub fn direct_nested_type_with_name(&self, name: &str) -> (r: Option<Type>)
        ensures
            match r {
                Some(ty) => ty.graph == self.graph && nested_type(
                    decl_at(self.model(), self.root),
                    name@,
                ) == Some(ty.root),
                None => nested_type(decl_at(self.model(), self.root), name@) is None,
            },
    {
        match self.declaration() {
            Some(TypeDeclaration::Structure { nested, .. }) => {
                let ghost all = nested_of(nested@);
                let mut i: usize = 0;
                assert(all.skip(0) =~= all);
                while i < nested.len()
                    invariant
                        all == nested_of(nested@),
                        i <= nested@.len(),
                        nested_type(decl_at(self.model(), self.root), name@) == find_nested(
                            all.skip(i as int),
                            name@,
                        ),
                    decreases nested@.len() - i,
                {
                    assert(all.skip(i as int)[0] == (nested@[i as int].name@, nested@[
                        i as int
                    ].ty));
                    assert(all.skip(i as int).skip(1) =~= all.skip(i + 1));
                    if same(nested[i].name.as_str(), name) {
                        return Some(self.child(nested[i].ty));
                    }
                    i = i + 1;
                }
                None
            },
            _ => None,
        }
    }

    /// Human-readable name of this type (e.g. `int`, `Point`, `int*`).
    pub fn name(&self) -> (r: String)
        ensures
            r@ == type_text(self.model(), self.root),
    {
        decl_name(self.declaration(), &self.graph)
    }

    /// Size in bytes of this type, or `None` if unknown.
    pub fn byte_size(&self) -> (r: Option<u64>)
        ensures
            r == size_of_decl(self.meaning()),
    {
        match self.resolved() {
            Some(TypeDeclaration::Scalar { byte_size, .. }) => Some(*byte_size),
            Some(TypeDeclaration::Structure { byte_size, .. }) => Some(*byte_size),
            Some(TypeDeclaration::Array { byte_size, .. }) => *byte_size,
            Some(TypeDeclaration::Referential { .. }) => Some(4),
            _ => None,
        }
    }

    /// The namespaces that this type is declared in.
    pub fn ns(&self) -> (r: NamespaceHierarchy)
        ensures
            r@ == ns_of_decl(self.meaning()),
    {
        match self.resolved() {
            Some(TypeDeclaration::Scalar { ns, .. }) => ns.copy(),
            Some(TypeDeclaration::Array { ns, .. }) => ns.copy(),
            Some(TypeDeclaration::Referential { ns, .. }) => ns.copy(),
            Some(TypeDeclaration::Structure { ns, .. }) => ns.copy(),
            Some(TypeDeclaration::ModifiedType { ns, .. }) => ns.copy(),
            None => NamespaceHierarchy::new(),
        }
    }

    /// Another handle on this type.
    pub fn copy(&self) -> (r: Type)
        ensures
            r.root == self.root,
            r.graph == self.graph,
    {
        self.child(self.root)
    }
}

/// The first of the nested types that is called `name`.
pub open spec fn find_nested(all: Seq<(Seq<char>, TypeId)>, name: Seq<char>) -> Option<TypeId>
    decreases all.len(),
{
    if all.len() == 0 {
        None
    } else if all[0].0 == name {
        Some(all[0].1)
    } else {
        find_nested(all.skip(1), name)
    }
}

/// The type called `name` that a declaration holds inside itself.
pub open spec fn nested_type(d: Option<DeclModel>, name: Seq<char>) -> Option<TypeId> {
    match d {
        Some(DeclModel::Structure { nested, .. }) => find_nested(nested, name),
        _ => None,
    }
}

/// The size of what a declaration declares. Pointers and references take four
/// bytes.
pub open spec fn size_of_decl(d: Option<DeclModel>) -> Option<u64> {
    match d {
        Some(DeclModel::Scalar { byte_size, .. }) => Some(byte_size),
        Some(DeclModel::Structure { byte_size, .. }) => Some(byte_size),
        Some(DeclModel::Array { byte_size, .. }) => byte_size,
        Some(DeclModel::Referential { .. }) => Some(4),
        _ => None,
    }
}

/// The namespaces of a declaration.
pub open spec fn ns_of_decl(d: Option<DeclModel>) -> Seq<Seq<char>> {
    match d {
        Some(DeclModel::Scalar { ns, .. }) => ns,
        Some(DeclModel::Array { ns, .. }) => ns,
        Some(DeclModel::Referential { ns, .. }) => ns,
        Some(DeclModel::Structure { ns, .. }) => ns,
        Some(DeclModel::ModifiedType { ns, .. }) => ns,
        None => seq![],
    }
}

/// How many elements an array has, where both its bounds are constants.
pub open spec fn element_count(lower: BoundModel, upper: Option<BoundModel>) -> Option<i64> {
    match (lower, upper) {
        (BoundModel::Constant(lo), Some(BoundModel::Constant(hi))) => Some(
            vstd::wrapping::i64_specs::wrapping_add(
                vstd::wrapping::i64_specs::wrapping_sub(hi, lo),
                1,
            ),
        ),
        _ => None,
    }
}

/// How a type is written that refers to the type written `inner`.
pub open spec fn reference_name(inner: Seq<char>, kind: ReferenceKind) -> Seq<char> {
    match kind {
        ReferenceKind::Pointer => inner + "*"@,
        ReferenceKind::Reference => inner + "&"@,
        ReferenceKind::Temporary => inner + "&&"@,
    }
}

/// How an array is written whose elements' type is written `element`.
pub open spec fn array_name(element: Seq<char>, count: Option<i64>) -> Seq<char> {
    match count {
        Some(c) => element + "["@ + signed_decimal(c as int) + "]"@,
        None => element + "[]"@,
    }
}

/// How a type without a name of its own is written that modifies the type
/// written `inner`.
pub open spec fn modified_name(inner: Seq<char>, modifier: Modifier) -> Seq<char> {
    match modifier {
        Modifier::TypeDef => inner,
        Modifier::Const => "const "@ + inner,
        Modifier::Volatile => "volatile "@ + inner,
        Modifier::Atomic => "_Atomic "@ + inner,
        Modifier::Restrict => "restrict "@ + inner,
    }
}

/// How a type is written. Types that are made of each other are followed
/// `fuel` times.
pub open spec fn written_type(g: GraphModel, d: Option<DeclModel>, fuel: nat) -> Seq<char>
    decreases fuel,
{
    match d {
        None => "<unknown>"@,
        Some(DeclModel::Scalar { name, ns, .. }) => qualified(ns, name),
        Some(DeclModel::Structure { name, ns, .. }) => match name {
            Some(n) => qualified(ns, n),
            None => "<anonymous>"@,
        },
        Some(DeclModel::Referential { target, kind, .. }) => if fuel == 0 {
            "<unknown>"@
        } else {
            reference_name(written_type(g, decl_at(g, target), (fuel - 1) as nat), kind)
        },
        Some(DeclModel::Array { element_type, lower_bound, upper_bound, .. }) => if fuel == 0 {
            "<unknown>"@
        } else {
            array_name(
                written_type(g, decl_at(g, element_type), (fuel - 1) as nat),
                element_count(lower_bound, upper_bound),
            )
        },
        Some(DeclModel::ModifiedType { name, ns, modifier, inner }) => match name {
            Some(n) => qualified(ns, n),
            None => if fuel == 0 {
                "<unknown>"@
            } else {
                modified_name(written_type(g, decl_at(g, inner), (fuel - 1) as nat), modifier)
            },
        },
    }
}

/// A declaration as it is written in a program. It is made of no more types than
/// the graph has.
pub fn decl_name(decl: Option<&TypeDeclaration>, graph: &TypeGraph) -> (r: String)
    ensures
        r@ == written_type(
            graph@,
            match decl {
                Some(d) => Some(d@),
                None => None,
            },
            graph@.size,
        ),
{
    written(decl, graph, graph.size)
}

fn written(decl: Option<&TypeDeclaration>, graph: &TypeGraph, fuel: u128) -> (r: String)
    ensures
        r@ == written_type(
            graph@,
            match decl {
                Some(d) => Some(d@),
                None => None,
            },
            fuel as nat,
        ),
    decreases fuel,
{
    let decl = match decl {
        Some(d) => d,
        None => {
            return own("<unknown>");
        },
    };
    match decl {
        TypeDeclaration::Scalar { name, ns, .. } => ns.qualify(name.as_str()),
        TypeDeclaration::Structure { name, ns, .. } => match name {
            Some(name) => ns.qualify(name.as_str()),
            None => own("<anonymous>"),
        },
        TypeDeclaration::Referential { target, kind, .. } => {
            if fuel == 0 {
                return own("<unknown>");
            }
            let inner = written(graph.get(*target), graph, fuel - 1);
            match kind {
                ReferenceKind::Pointer => concat(inner.as_str(), "*"),
                ReferenceKind::Reference => concat(inner.as_str(), "&"),
                ReferenceKind::Temporary => concat(inner.as_str(), "&&"),
            }
        },
        TypeDeclaration::Array { element_type, lower_bound, upper_bound, .. } => {
            if fuel == 0 {
                return own("<unknown>");
            }
            let element = written(graph.get(*element_type), graph, fuel - 1);
            let count: Option<i64> = match (lower_bound, upper_bound) {
                (Value::Constant(lo), Some(Value::Constant(hi))) => Some(
                    hi.wrapping_sub(*lo).wrapping_add(1),
                ),
                _ => None,
            };
            match count {
                Some(c) => {
                    let head = concat(element.as_str(), "[");
                    let digits = signed_text(c);
                    let head = concat(head.as_str(), digits.as_str());
                    concat(head.as_str(), "]")
                },
                None => concat(element.as_str(), "[]"),
            }
        },
        TypeDeclaration::ModifiedType { name, ns, modifier, inner } => {
            if let Some(name) = name {
                return ns.qualify(name.as_str());
            }
            if fuel == 0 {
                return own("<unknown>");
            }
            let inner_name = written(graph.get(*inner), graph, fuel - 1);
            match modifier {
                Modifier::TypeDef => inner_name,
                Modifier::Const => concat("const ", inner_name.as_str()),
                Modifier::Volatile => concat("volatile ", inner_name.as_str()),
                Modifier::Atomic => concat("_Atomic ", inner_name.as_str()),
                Modifier::Restrict => concat("restrict ", inner_name.as_str()),
            }
        },
    }
}

// ---------------------------------------------------------------------------
// Chains of modifiers
// ---------------------------------------------------------------------------

/// The type reached from `id` by looking through `n` modifiers.
pub open spec fn hop(g: GraphModel, id: TypeId, n: nat) -> Option<TypeId>
    decreases n,
{
    if n == 0 {
        Some(id)
    } else {
        match hop(g, id, (n - 1) as nat) {
            Some(j) => match decl_at(g, j) {
                Some(DeclModel::ModifiedType { inner, .. }) => Some(inner),
                _ => None,
            },
            None => None,
        }
    }
}

/// Whether the type reached after `m` modifiers is declared and is none.
pub open spec fn ends_at(g: GraphModel, id: TypeId, m: nat) -> bool {
    match hop(g, id, m) {
        Some(j) => match decl_at(g, j) {
            Some(DeclModel::ModifiedType { .. }) => false,
            Some(_) => true,
            None => false,
        },
        None => false,
    }
}

proof fn hop_from_inner(g: GraphModel, id: TypeId, inner: TypeId, n: nat)
    requires
        hop(g, id, 1) == Some(inner),
    ensures
        hop(g, id, n + 1) == hop(g, inner, n),
    decreases n,
{
    if n > 0 {
        hop_from_inner(g, id, inner, (n - 1) as nat);
    }
}

proof fn hop_defined_before(g: GraphModel, id: TypeId, n: nat, m: nat)
    requires
        n <= m,
        hop(g, id, m) is Some,
    ensures
        hop(g, id, n) is Some,
    decreases m,
{
    if n < m {
        hop_defined_before(g, id, n, (m - 1) as nat);
    }
}

proof fn hops_repeat(g: GraphModel, id: TypeId, a: nat, b: nat, n: nat)
    requires
        hop(g, id, a) == hop(g, id, b),
    ensures
        hop(g, id, a + n) == hop(g, id, b + n),
    decreases n,
{
    if n > 0 {
        hops_repeat(g, id, a, b, (n - 1) as nat);
        assert(hop(g, id, (a + n - 1) as nat) == hop(g, id, (b + n - 1) as nat));
    }
}

/// A chain that ends is found with any fuel that reaches its end.
proof fn resolve_at_end(g: GraphModel, id: TypeId, m: nat, fuel: nat)
    requires
        ends_at(g, id, m),
        m <= fuel,
    ensures
        resolve(g, id, fuel) == decl_at(g, hop(g, id, m)->0),
    decreases m,
{
    if m > 0 {
        hop_defined_before(g, id, 1, m);
        assert(hop(g, id, 0) == Some(id));
        let inner = hop(g, id, 1)->0;
        hop_from_inner(g, id, inner, (m - 1) as nat);
        resolve_at_end(g, inner, (m - 1) as nat, (fuel - 1) as nat);
    }
}

proof fn resolve_finds_end(g: GraphModel, id: TypeId, fuel: nat) -> (m: nat)
    requires
        resolve(g, id, fuel) is Some,
    ensures
        m <= fuel,
        ends_at(g, id, m),
    decreases fuel,
{
    match decl_at(g, id) {
        Some(DeclModel::ModifiedType { inner, .. }) => {
            let n = resolve_finds_end(g, inner, (fuel - 1) as nat);
            assert(hop(g, id, 0) == Some(id));
            hop_from_inner(g, id, inner, n);
            n + 1
        },
        _ => {
            assert(hop(g, id, 0) == Some(id));
            0
        },
    }
}

/// The types that the units declare.
pub open spec fn declared_ids(units: Seq<Map<usize, DeclModel>>) -> Set<TypeId>
    decreases units.len(),
{
    if units.len() == 0 {
        Set::empty()
    } else {
        let unit = (units.len() - 1) as usize;
        declared_ids(units.drop_last()).union(
            units.last().dom().map(
                |ofs: usize| TypeId { unit_index: unit, unit_ofs: ofs },
            ),
        )
    }
}

proof fn declared_ids_complete(units: Seq<Map<usize, DeclModel>>, id: TypeId)
    requires
        id.unit_index < units.len(),
        units[id.unit_index as int].contains_key(id.unit_ofs),
    ensures
        declared_ids(units).contains(id),
    decreases units.len(),
{
    if id.unit_index == units.len() - 1 {
        let unit = (units.len() - 1) as usize;
        let name = |ofs: usize| TypeId { unit_index: unit, unit_ofs: ofs };
        assert(name(id.unit_ofs) == id);
        assert(units.last().dom().contains(id.unit_ofs));
        assert(units.last().dom().map(name).contains(id));
    } else {
        declared_ids_complete(units.drop_last(), id);
    }
}

proof fn unit_decls_bounded(u: UnitView, n: int)
    requires
        0 <= n,
    ensures
        unit_decls(u, n).dom().finite(),
        unit_decls(u, n).dom().len() <= n,
    decreases n,
{
    broadcast use vstd::set::group_set_axioms;

    if n > 0 {
        unit_decls_bounded(u, n - 1);
        let before = unit_decls(u, n - 1);
        match declared(u, n - 1, namespaces(u.entries, path_to(u.entries, n - 1))) {
            Some(d) => {
                let ofs = u.entries[n - 1].offset;
                assert(before.insert(ofs, d).dom() =~= before.dom().insert(ofs));
            },
            None => {},
        }
    }
}

proof fn declared_ids_bounded(units: Seq<UnitView>)
    ensures
        declared_ids(graph_of(units).units).finite(),
        declared_ids(graph_of(units).units).len() <= entry_count(units),
    decreases units.len(),
{
    broadcast use vstd::set::group_set_axioms;

    let maps = graph_of(units).units;
    if units.len() > 0 {
        declared_ids_bounded(units.drop_last());
        assert(maps.drop_last() =~= graph_of(units.drop_last()).units);
        let u = units.last();
        if u.entries.len() > 0 {
            super::dwarf::entry::subtree_end_bounds(u.entries, 0, 1);
        }
        unit_decls_bounded(u, root_end(u.entries));
        let unit = (units.len() - 1) as usize;
        let name = |ofs: usize| TypeId { unit_index: unit, unit_ofs: ofs };
        let dom = maps.last().dom();
        vstd::set_lib::lemma_map_size_bound(dom, dom.map(name), name);
        vstd::set_lib::lemma_len_union(declared_ids(maps.drop_last()), dom.map(name));
    }
}

/// The types along a chain that ends differ from each other.
proof fn chain_is_distinct(g: GraphModel, id: TypeId, m: nat, a: nat, b: nat)
    requires
        ends_at(g, id, m),
        a < b <= m,
    ensures
        hop(g, id, a) != hop(g, id, b),
{
    if hop(g, id, a) == hop(g, id, b) {
        let rest = (m - b) as nat;
        hops_repeat(g, id, a, b, rest);
        let early = (a + rest) as nat;
        assert(hop(g, id, early) == hop(g, id, m));
        assert(hop(g, id, early + 1) is None);
        hop_defined_before(g, id, early + 1, m);
    }
}

/// A chain of modifiers that ends anywhere is looked through to its end: a
/// type means what its chain ends at, however long the chain is.
pub proof fn chains_are_walked_to_their_end(units: Seq<UnitView>, id: TypeId, fuel: nat)
    requires
        resolve(graph_of(units), id, fuel) is Some,
    ensures
        resolve(graph_of(units), id, graph_of(units).size) == resolve(graph_of(units), id, fuel),
{
    broadcast use vstd::set::group_set_axioms;

    let g = graph_of(units);
    let m = resolve_finds_end(g, id, fuel);
    resolve_at_end(g, id, m, fuel);
    let chain = Seq::new(m + 1, |i: int| hop(g, id, i as nat)->0);
    let ids = declared_ids(g.units);
    assert forall|i: int| 0 <= i < chain.len() implies ids.contains(#[trigger] chain[i]) by {
        hop_defined_before(g, id, i as nat, m);
        if i < m {
            hop_defined_before(g, id, (i + 1) as nat, m);
        }
        declared_ids_complete(g.units, chain[i]);
    }
    assert(chain.no_duplicates()) by {
        assert forall|i: int, j: int|
            0 <= i < chain.len() && 0 <= j < chain.len() && i != j implies chain[i] != chain[j] by {
            hop_defined_before(g, id, i as nat, m);
            hop_defined_before(g, id, j as nat, m);
            if i < j {
                chain_is_distinct(g, id, m, i as nat, j as nat);
            } else {
                chain_is_distinct(g, id, m, j as nat, i as nat);
            }
        }
    }
    chain.unique_seq_to_set();
    declared_ids_bounded(units);
    assert(chain.to_set().subset_of(ids)) by {
        assert forall|x: TypeId| chain.to_set().contains(x) implies ids.contains(x) by {
            let i = choose|i: int| 0 <= i < chain.len() && chain[i] == x;
            assert(ids.contains(chain[i]));
        }
    }
    vstd::set_lib::lemma_len_subset(chain.to_set(), ids);
    resolve_at_end(g, id, m, g.size);
}

// ---------------------------------------------------------------------------
// How types are written out
// ---------------------------------------------------------------------------

/// The type in terms of which a declaration is written, where it has no name
/// of its own.
pub open spec fn written_with(d: Option<DeclModel>) -> Option<TypeId> {
    match d {
        Some(DeclModel::Referential { target, .. }) => Some(target),
        Some(DeclModel::Array { element_type, .. }) => Some(element_type),
        Some(DeclModel::ModifiedType { name: None, inner, .. }) => Some(inner),
        _ => None,
    }
}

/// How a declaration is written, where the type in terms of which it is
/// written is written `inner`.
pub open spec fn written_over(d: Option<DeclModel>, inner: Seq<char>) -> Seq<char> {
    match d {
        None => "<unknown>"@,
        Some(DeclModel::Scalar { name, ns, .. }) => qualified(ns, name),
        Some(DeclModel::Structure { name, ns, .. }) => match name {
            Some(n) => qualified(ns, n),
            None => "<anonymous>"@,
        },
        Some(DeclModel::Referential { kind, .. }) => reference_name(inner, kind),
        Some(DeclModel::Array { lower_bound, upper_bound, .. }) => array_name(
            inner,
            element_count(lower_bound, upper_bound),
        ),
        Some(DeclModel::ModifiedType { name, ns, modifier, .. }) => match name {
            Some(n) => qualified(ns, n),
            None => modified_name(inner, modifier),
        },
    }
}

/// How a type of the program is written.
pub open spec fn type_text(g: GraphModel, id: TypeId) -> Seq<char> {
    written_type(g, decl_at(g, id), g.size)
}

/// The type reached from `id` by going `n` times to the type in terms of which
/// the one before is written.
pub open spec fn spelled(g: GraphModel, id: TypeId, n: nat) -> Option<TypeId>
    decreases n,
{
    if n == 0 {
        Some(id)
    } else {
        match spelled(g, id, (n - 1) as nat) {
            Some(j) => written_with(decl_at(g, j)),
            None => None,
        }
    }
}

/// Whether the type reached after `m` such steps is the last one.
pub open spec fn spelling_ends(g: GraphModel, id: TypeId, m: nat) -> bool {
    match spelled(g, id, m) {
        Some(j) => written_with(decl_at(g, j)) is None,
        None => false,
    }
}

proof fn spelled_from_next(g: GraphModel, id: TypeId, next: TypeId, n: nat)
    requires
        written_with(decl_at(g, id)) == Some(next),
    ensures
        spelled(g, id, n + 1) == spelled(g, next, n),
    decreases n,
{
    if n > 0 {
        spelled_from_next(g, id, next, (n - 1) as nat);
    } else {
        assert(spelled(g, id, 0) == Some(id));
    }
}

proof fn spelled_before(g: GraphModel, id: TypeId, n: nat, m: nat)
    requires
        n <= m,
        spelled(g, id, m) is Some,
    ensures
        spelled(g, id, n) is Some,
    decreases m,
{
    if n < m {
        spelled_before(g, id, n, (m - 1) as nat);
    }
}

proof fn spelling_repeats(g: GraphModel, id: TypeId, a: nat, b: nat, n: nat)
    requires
        spelled(g, id, a) == spelled(g, id, b),
    ensures
        spelled(g, id, a + n) == spelled(g, id, b + n),
    decreases n,
{
    if n > 0 {
        spelling_repeats(g, id, a, b, (n - 1) as nat);
        assert(spelled(g, id, (a + n - 1) as nat) == spelled(g, id, (b + n - 1) as nat));
    }
}

proof fn spelling_is_distinct(g: GraphModel, id: TypeId, m: nat, a: nat, b: nat)
    requires
        spelling_ends(g, id, m),
        a < b <= m,
    ensures
        spelled(g, id, a) != spelled(g, id, b),
{
    if spelled(g, id, a) == spelled(g, id, b) {
        let rest = (m - b) as nat;
        spelling_repeats(g, id, a, b, rest);
        let early = (a + rest) as nat;
        assert(spelled(g, id, early) == spelled(g, id, m));
        assert(spelled(g, id, early + 1) is None);
        spelled_before(g, id, early + 1, m);
    }
}

/// A spelling that ends takes no more steps than there are types.
proof fn spelling_is_short(units: Seq<UnitView>, id: TypeId, m: nat)
    requires
        spelling_ends(graph_of(units), id, m),
    ensures
        m < graph_of(units).size,
{
    broadcast use vstd::set::group_set_axioms;

    let g = graph_of(units);
    let chain = Seq::new(m, |i: int| spelled(g, id, i as nat)->0);
    let ids = declared_ids(g.units);
    assert forall|i: int| 0 <= i < chain.len() implies ids.contains(#[trigger] chain[i]) by {
        spelled_before(g, id, i as nat, m);
        spelled_before(g, id, (i + 1) as nat, m);
        declared_ids_complete(g.units, chain[i]);
    }
    assert(chain.no_duplicates()) by {
        assert forall|i: int, j: int|
            0 <= i < chain.len() && 0 <= j < chain.len() && i != j implies chain[i] != chain[j] by {
            spelled_before(g, id, i as nat, m);
            spelled_before(g, id, j as nat, m);
            if i < j {
                spelling_is_distinct(g, id, m, i as nat, j as nat);
            } else {
                spelling_is_distinct(g, id, m, j as nat, i as nat);
            }
        }
    }
    chain.unique_seq_to_set();
    declared_ids_bounded(units);
    assert(chain.to_set().subset_of(ids)) by {
        assert forall|x: TypeId| chain.to_set().contains(x) implies ids.contains(x) by {
            let i = choose|i: int| 0 <= i < chain.len() && chain[i] == x;
            assert(ids.contains(chain[i]));
        }
    }
    vstd::set_lib::lemma_len_subset(chain.to_set(), ids);
}

proof fn any_fuel_writes(g: GraphModel, id: TypeId, m: nat, a: nat, b: nat)
    requires
        spelling_ends(g, id, m),
        m <= a,
        m <= b,
    ensures
        written_type(g, decl_at(g, id), a) == written_type(g, decl_at(g, id), b),
    decreases m,
{
    assert(spelled(g, id, 0) == Some(id));
    if m > 0 {
        spelled_before(g, id, 1, m);
        let next = spelled(g, id, 1)->0;
        assert(written_with(decl_at(g, id)) == Some(next));
        spelled_from_next(g, id, next, (m - 1) as nat);
        any_fuel_writes(g, next, (m - 1) as nat, (a - 1) as nat, (b - 1) as nat);
    }
}

/// A type that is not made of itself is written out in full, however many
/// types lie between it and the names that it is made of: what refers to a type
/// is written as that type with `*`, `&` or `&&` behind it, an array with its
/// length, a modifier without a name with its word in front, and a type with a
/// name is written with its namespaces.
pub proof fn types_are_written_out(units: Seq<UnitView>, id: TypeId, m: nat)
    requires
        spelling_ends(graph_of(units), id, m),
    ensures
        ({
            let g = graph_of(units);
            let d = decl_at(g, id);
            type_text(g, id) == written_over(
                d,
                match written_with(d) {
                    Some(next) => type_text(g, next),
                    None => seq![],
                },
            )
        }),
        forall|fuel: nat|
            fuel >= graph_of(units).size ==> #[trigger] written_type(
                graph_of(units),
                decl_at(graph_of(units), id),
                fuel,
            ) == type_text(graph_of(units), id),
{
    let g = graph_of(units);
    spelling_is_short(units, id, m);
    assert forall|fuel: nat| fuel >= g.size implies #[trigger] written_type(
        g,
        decl_at(g, id),
        fuel,
    ) == type_text(g, id) by {
        any_fuel_writes(g, id, m, fuel, g.size);
    }
    assert(spelled(g, id, 0) == Some(id));
    if m > 0 {
        spelled_before(g, id, 1, m);
        let next = spelled(g, id, 1)->0;
        assert(written_with(decl_at(g, id)) == Some(next));
        spelled_from_next(g, id, next, (m - 1) as nat);
        any_fuel_writes(g, next, (m - 1) as nat, (g.size - 1) as nat, g.size);
    }
}

/// A declaration is written in terms of the type that it refers to, wherever the
/// declaration itself comes from: where that type is not made of itself, it is
/// written in full.
pub proof fn declarations_are_written_out(units: Seq<UnitView>, d: DeclModel, m: nat)
    requires
        written_with(Some(d)) matches Some(next) ==> spelling_ends(graph_of(units), next, m),
    ensures
        ({
            let g = graph_of(units);
            written_type(g, Some(d), g.size) == written_over(
                Some(d),
                match written_with(Some(d)) {
                    Some(next) => type_text(g, next),
                    None => seq![],
                },
            )
        }),
{
    let g = graph_of(units);
    if let Some(next) = written_with(Some(d)) {
        spelling_is_short(units, next, m);
        any_fuel_writes(g, next, m, (g.size - 1) as nat, g.size);
    }
}

} // verus!
