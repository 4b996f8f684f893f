//! The types of a program.

use vstd::prelude::*;

use crate::bytes::copy_bytes;
use crate::text::{concat, join, joined, own, pieces, replace, replaced, same, split, texts};
use super::dwarf::constants::{DW_AT_BYTE_SIZE, DW_AT_COUNT, DW_AT_DATA_MEMBER_LOCATION,
    DW_AT_ENCODING, DW_AT_LOWER_BOUND, DW_AT_NAME, DW_AT_UPPER_BOUND, DW_TAG_ARRAY_TYPE,
    DW_TAG_ATOMIC_TYPE, DW_TAG_BASE_TYPE, DW_TAG_CLASS_TYPE, DW_TAG_CONST_TYPE, DW_TAG_MEMBER,
    DW_TAG_POINTER_TYPE, DW_TAG_REFERENCE_TYPE, DW_TAG_RESTRICT_TYPE,
    DW_TAG_RVALUE_REFERENCE_TYPE, DW_TAG_STRUCTURE_TYPE, DW_TAG_SUBRANGE_TYPE, DW_TAG_TYPEDEF,
    DW_TAG_UNION_TYPE, DW_TAG_VOLATILE_TYPE};
use super::dwarf::die::{Die, DieReference};
use super::dwarf::entry::{AttrValue, DieEntry, EntryModel, ValueModel, as_path, attr_value,
    child_indices, children, entries_of, name_of, namespaces, namespaces_at, path_to, text_of,
    type_offset};
use super::dwarf::unit::{Unit, UnitView};

verus! {

broadcast use {vstd::seq_lib::group_seq_properties, vstd::std_specs::hash::group_hash_axioms};

/// Names a type by the entry that declares it.
pub type TypeId = DieReference;

// ---------------------------------------------------------------------------
// Namespaces
// ---------------------------------------------------------------------------

/// The namespaces that something stands in, from the outermost.
#[derive(Debug)]
pub struct NamespaceHierarchy(pub Vec<String>);

impl View for NamespaceHierarchy {
    type V = Seq<Seq<char>>;

    open spec fn view(&self) -> Seq<Seq<char>> {
        texts(self.0@)
    }
}

/// `name` behind the namespaces `ns`. The inline marker `std::__2` of the
/// standard library is left out.
pub open spec fn qualified(ns: Seq<Seq<char>>, name: Seq<char>) -> Seq<char> {
    let full = if ns.len() == 0 {
        name
    } else {
        joined(ns, "::"@) + "::"@ + name
    };
    replaced(full, "std::__2::"@, "std::"@)
}

/// Whether the namespaces `ns` begin with those that `target` names. An empty
/// name matches nothing.
pub open spec fn ns_matches(ns: Seq<Seq<char>>, target: Seq<char>) -> bool {
    target.len() > 0 && pieces(target, "::"@).is_prefix_of(ns)
}

impl NamespaceHierarchy {
    /// No namespace.
    pub fn new() -> (r: Self)
        ensures
            r@ == Seq::<Seq<char>>::empty(),
    {
        let r = NamespaceHierarchy(Vec::new());
        assert(r@ =~= Seq::<Seq<char>>::empty());
        r
    }

    /// Enters the namespace `name`.
    pub fn push(&mut self, name: String)
        ensures
            final(self)@ == old(self)@.push(name@),
    {
        let ghost before = self.0@;
        self.0.push(name);
        assert(texts(self.0@) =~= texts(before).push(name@));
    }

    /// Leaves the innermost namespace, if there is one.
    pub fn pop(&mut self)
        ensures
            final(self)@ == if old(self)@.len() > 0 {
                old(self)@.drop_last()
            } else {
                old(self)@
            },
    {
        let ghost before = self.0@;
        let _ = self.0.pop();
        proof {
            if before.len() > 0 {
                assert(texts(self.0@) =~= texts(before).drop_last());
            }
        }
    }

    /// `name` as it is written outside of all namespaces.
    pub fn qualify(&self, name: &str) -> (r: String)
        ensures
            r@ == qualified(self@, name@),
    {
        let full = if self.0.len() == 0 {
            own(name)
        } else {
            let prefix = join(&self.0, "::");
            let prefix = concat(prefix.as_str(), "::");
            concat(prefix.as_str(), name)
        };
        proof {
            reveal_strlit("std::__2::");
        }
        replace(full.as_str(), "std::__2::", "std::")
    }

    /// Whether these namespaces begin with those that `target` names.
    pub fn matches(&self, target: &str) -> (r: bool)
        ensures
            r == ns_matches(self@, target@),
    {
        if target.unicode_len() == 0 {
            return false;
        }
        proof {
            reveal_strlit("::");
        }
        let parts = split(target, "::");
        let ghost want = pieces(target@, "::"@);
        if self.0.len() < parts.len() {
            return false;
        }
        let mut i: usize = 0;
        while i < parts.len()
            invariant
                target@.len() > 0,
                want == texts(parts@),
                want == pieces(target@, "::"@),
                parts@.len() <= self.0@.len(),
                i <= parts@.len(),
                forall|k: int| 0 <= k < i ==> want[k] == #[trigger] self@[k],
            decreases parts@.len() - i,
        {
            assert(want[i as int] == parts@[i as int]@);
            assert(self@[i as int] == self.0@[i as int]@);
            if !same(self.0[i].as_str(), parts[i].as_str()) {
                assert(!want.is_prefix_of(self@));
                return false;
            }
            i = i + 1;
        }
        assert(want =~= self@.subrange(0, want.len() as int));
        true
    }

    /// A copy.
    pub fn copy(&self) -> (r: Self)
        ensures
            r@ == self@,
    {
        NamespaceHierarchy(copy_strings(&self.0))
    }
}

impl Default for NamespaceHierarchy {
    fn default() -> (r: Self)
        ensures
            r@ == Seq::<Seq<char>>::empty(),
    {
        NamespaceHierarchy::new()
    }
}

/// A copy of a list of strings.
pub fn copy_strings(v: &Vec<String>) -> (r: Vec<String>)
    ensures
        texts(r@) == texts(v@),
{
    let mut out: Vec<String> = Vec::new();
    let mut i: usize = 0;
    while i < v.len()
        invariant
            i <= v@.len(),
            texts(out@) =~= texts(v@).take(i as int),
        decreases v@.len() - i,
    {
        let ghost before = out@;
        out.push(own(v[i].as_str()));
        i = i + 1;
        assert(texts(out@) =~= texts(before).push(v@[i - 1]@));
        assert(texts(v@).take(i as int) =~= texts(v@).take(i - 1).push(texts(v@)[i - 1]));
    }
    assert(texts(v@).take(v@.len() as int) =~= texts(v@));
    out
}

/// Leaving a namespace that was just entered changes nothing.
pub proof fn namespaces_nest(ns: Seq<Seq<char>>, name: Seq<char>)
    ensures
        ns.push(name).drop_last() == ns,
{
    assert(ns.push(name).drop_last() =~= ns);
}

// ---------------------------------------------------------------------------
// Declarations
// ---------------------------------------------------------------------------

/// Represents a value that can either hold a constant integer value
/// or be encoded as an expression.
#[derive(Debug)]
pub enum Value {
    Constant(i64),
    Expr(Vec<u8>),
}

/// The mathematical value of a [`Value`].
pub enum BoundModel {
    Constant(i64),
    Expr(Seq<u8>),
}

impl View for Value {
    type V = BoundModel;

    open spec fn view(&self) -> BoundModel {
        match self {
            Value::Constant(c) => BoundModel::Constant(*c),
            Value::Expr(e) => BoundModel::Expr(e@),
        }
    }
}

/// What an optional value holds.
pub open spec fn bound_of(v: Option<Value>) -> Option<BoundModel> {
    match v {
        Some(x) => Some(x@),
        None => None,
    }
}

/// A member of a structure.
#[derive(Debug)]
pub struct StructureMember {
    pub location: Option<Value>,
    pub name: Option<String>,
    pub ty: TypeId,
}

/// The mathematical value of a [`StructureMember`].
pub struct MemberModel {
    pub location: Option<BoundModel>,
    pub name: Option<Seq<char>>,
    pub ty: TypeId,
}

impl View for StructureMember {
    type V = MemberModel;

    open spec fn view(&self) -> MemberModel {
        MemberModel { location: bound_of(self.location), name: text_of(self.name), ty: self.ty }
    }
}

/// The members of a structure.
pub open spec fn members_of(v: Seq<StructureMember>) -> Seq<MemberModel> {
    v.map_values(|m: StructureMember| m@)
}

/// A type that is declared inside a structure.
#[derive(Debug)]
pub struct NestedType {
    pub name: String,
    pub ty: TypeId,
}

/// The types that are declared inside a structure.
pub open spec fn nested_of(v: Seq<NestedType>) -> Seq<(Seq<char>, TypeId)> {
    v.map_values(|n: NestedType| (n.name@, n.ty))
}

/// How a type refers to another.
#[derive(Debug, Clone, Copy, PartialEq, Eq, Structural)]
pub enum ReferenceKind {
    Pointer,
    Reference,
    /// Equivalent to an rvalue reference in C++
    Temporary,
}

/// How a type differs from the type it is made of.
#[derive(Debug, Clone, Copy, PartialEq, Eq, Structural)]
pub enum Modifier {
    TypeDef,
    Const,
    Volatile,
    Atomic,
    Restrict,
}

/// What a type is.
#[derive(Debug)]
#[allow(inconsistent_fields)]
pub enum TypeDeclaration {
    Scalar { ns: NamespaceHierarchy, name: String, byte_size: u64, encoding: u8 },
    Array {
        ns: NamespaceHierarchy,
        byte_size: Option<u64>,
        element_type: TypeId,
        lower_bound: Value,
        upper_bound: Option<Value>,
    },
    Referential { ns: NamespaceHierarchy, target: TypeId, kind: ReferenceKind },
    Structure {
        ns: NamespaceHierarchy,
        name: Option<String>,
        byte_size: u64,
        members: Vec<StructureMember>,
        nested: Vec<NestedType>,
    },
    ModifiedType { ns: NamespaceHierarchy, name: Option<String>, modifier: Modifier, inner: TypeId },
}

/// The mathematical value of a [`TypeDeclaration`].
#[allow(inconsistent_fields)]
pub enum DeclModel {
    Scalar { ns: Seq<Seq<char>>, name: Seq<char>, byte_size: u64, encoding: u8 },
    Array {
        ns: Seq<Seq<char>>,
        byte_size: Option<u64>,
        element_type: TypeId,
        lower_bound: BoundModel,
        upper_bound: Option<BoundModel>,
    },
    Referential { ns: Seq<Seq<char>>, target: TypeId, kind: ReferenceKind },
    Structure {
        ns: Seq<Seq<char>>,
        name: Option<Seq<char>>,
        byte_size: u64,
        members: Seq<MemberModel>,
        nested: Seq<(Seq<char>, TypeId)>,
    },
    ModifiedType { ns: Seq<Seq<char>>, name: Option<Seq<char>>, modifier: Modifier, inner: TypeId },
}

impl View for TypeDeclaration {
    type V = DeclModel;

    open spec fn view(&self) -> DeclModel {
        match self {
            TypeDeclaration::Scalar { ns, name, byte_size, encoding } => DeclModel::Scalar {
                ns: ns@,
                name: name@,
                byte_size: *byte_size,
                encoding: *encoding,
            },
            TypeDeclaration::Array { ns, byte_size, element_type, lower_bound, upper_bound } =>
                DeclModel::Array {
                ns: ns@,
                byte_size: *byte_size,
                element_type: *element_type,
                lower_bound: lower_bound@,
                upper_bound: bound_of(*upper_bound),
            },
            TypeDeclaration::Referential { ns, target, kind } => DeclModel::Referential {
                ns: ns@,
                target: *target,
                kind: *kind,
            },
            TypeDeclaration::Structure { ns, name, byte_size, members, nested } =>
                DeclModel::Structure {
                ns: ns@,
                name: text_of(*name),
                byte_size: *byte_size,
                members: members_of(members@),
                nested: nested_of(nested@),
            },
            TypeDeclaration::ModifiedType { ns, name, modifier, inner } =>
                DeclModel::ModifiedType {
                ns: ns@,
                name: text_of(*name),
                modifier: *modifier,
                inner: *inner,
            },
        }
    }
}

// ---------------------------------------------------------------------------
// What an entry declares
// ---------------------------------------------------------------------------

/// The unsigned number that an attribute holds.
pub open spec fn u64_attr_of(e: EntryModel, name: u16) -> Option<u64> {
    match attr_value(e, name) {
        Some(ValueModel::Udata(v)) => Some(v),
        Some(ValueModel::Sdata(s)) => if s >= 0 {
            Some(s as u64)
        } else {
            None
        },
        _ => None,
    }
}

/// The bound or offset that an attribute holds.
pub open spec fn bound_attr(e: EntryModel, name: u16) -> Option<BoundModel> {
    match attr_value(e, name) {
        Some(ValueModel::Udata(u)) => Some(BoundModel::Constant(u as i64)),
        Some(ValueModel::Sdata(s)) => Some(BoundModel::Constant(s)),
        Some(ValueModel::Exprloc(x)) => Some(BoundModel::Expr(x)),
        _ => None,
    }
}

/// The type that an entry refers to, in the unit `unit`.
pub open spec fn type_ref_of(e: EntryModel, unit: usize) -> Option<TypeId> {
    match type_offset(e) {
        Some(ofs) => Some(DieReference { unit_index: unit, unit_ofs: ofs }),
        None => None,
    }
}

/// The member that an entry declares.
pub open spec fn member_of(e: EntryModel, unit: usize) -> Option<MemberModel> {
    if e.tag != DW_TAG_MEMBER {
        None
    } else {
        match type_ref_of(e, unit) {
            Some(ty) => Some(
                MemberModel {
                    location: bound_attr(e, DW_AT_DATA_MEMBER_LOCATION),
                    name: name_of(e),
                    ty,
                },
            ),
            None => None,
        }
    }
}

/// The members that the entries `below` declare, in order.
pub open spec fn members_among(es: Seq<EntryModel>, below: Seq<int>, unit: usize) -> Seq<MemberModel>
    decreases below.len(),
{
    if below.len() == 0 {
        seq![]
    } else {
        let before = members_among(es, below.drop_last(), unit);
        match member_of(es[below.last()], unit) {
            Some(m) => before.push(m),
            None => before,
        }
    }
}

/// Whether entries with this tag declare types.
pub open spec fn is_type_tag(tag: u16) -> bool {
    ||| tag == DW_TAG_BASE_TYPE
    ||| tag == DW_TAG_POINTER_TYPE
    ||| tag == DW_TAG_REFERENCE_TYPE
    ||| tag == DW_TAG_RVALUE_REFERENCE_TYPE
    ||| tag == DW_TAG_TYPEDEF
    ||| tag == DW_TAG_CONST_TYPE
    ||| tag == DW_TAG_VOLATILE_TYPE
    ||| tag == DW_TAG_ATOMIC_TYPE
    ||| tag == DW_TAG_RESTRICT_TYPE
    ||| tag == DW_TAG_ARRAY_TYPE
    ||| tag == DW_TAG_STRUCTURE_TYPE
    ||| tag == DW_TAG_UNION_TYPE
    ||| tag == DW_TAG_CLASS_TYPE
}

/// The named types that the entries `below` declare, in order.
pub open spec fn nested_among(
    es: Seq<EntryModel>,
    below: Seq<int>,
    unit: usize,
) -> Seq<(Seq<char>, TypeId)>
    decreases below.len(),
{
    if below.len() == 0 {
        seq![]
    } else {
        let before = nested_among(es, below.drop_last(), unit);
        let e = es[below.last()];
        match name_of(e) {
            Some(name) => if is_type_tag(e.tag) {
                before.push((name, DieReference { unit_index: unit, unit_ofs: e.offset }))
            } else {
                before
            },
            None => before,
        }
    }
}

/// The bounds that an entry gives an array. Without a lower bound the array
/// starts at 0.
pub open spec fn subrange_of(e: EntryModel) -> (BoundModel, Option<BoundModel>) {
    (
        match bound_attr(e, DW_AT_LOWER_BOUND) {
            Some(b) => b,
            None => BoundModel::Constant(0),
        },
        match bound_attr(e, DW_AT_UPPER_BOUND) {
            Some(b) => Some(b),
            None => bound_attr(e, DW_AT_COUNT),
        },
    )
}

/// The bounds that the first subrange among the entries `below` gives an
/// array.
pub open spec fn bounds_among(
    es: Seq<EntryModel>,
    below: Seq<int>,
) -> (BoundModel, Option<BoundModel>)
    decreases below.len(),
{
    if below.len() == 0 {
        (BoundModel::Constant(0), None)
    } else if es[below[0]].tag == DW_TAG_SUBRANGE_TYPE {
        subrange_of(es[below[0]])
    } else {
        bounds_among(es, below.skip(1))
    }
}

/// The type that entry `i` declares inside the namespaces `ns`.
pub open spec fn declared(u: UnitView, i: int, ns: Seq<Seq<char>>) -> Option<DeclModel> {
    let es = u.entries;
    let e = es[i];
    let unit = u.properties.index;
    if e.tag == DW_TAG_BASE_TYPE {
        match (u64_attr_of(e, DW_AT_BYTE_SIZE), attr_value(e, DW_AT_ENCODING)) {
            (Some(byte_size), Some(ValueModel::Encoding(encoding))) => Some(
                DeclModel::Scalar {
                    ns,
                    name: match name_of(e) {
                        Some(n) => n,
                        None => seq![],
                    },
                    byte_size,
                    encoding,
                },
            ),
            _ => None,
        }
    } else if e.tag == DW_TAG_POINTER_TYPE || e.tag == DW_TAG_REFERENCE_TYPE || e.tag
        == DW_TAG_RVALUE_REFERENCE_TYPE {
        match type_ref_of(e, unit) {
            Some(target) => Some(
                DeclModel::Referential { ns, target, kind: reference_kind(e.tag) },
            ),
            None => None,
        }
    } else if e.tag == DW_TAG_TYPEDEF || e.tag == DW_TAG_CONST_TYPE || e.tag
        == DW_TAG_VOLATILE_TYPE || e.tag == DW_TAG_ATOMIC_TYPE || e.tag == DW_TAG_RESTRICT_TYPE {
        match type_ref_of(e, unit) {
            Some(inner) => Some(
                DeclModel::ModifiedType { ns, name: name_of(e), modifier: modifier_of(e.tag), inner },
            ),
            None => None,
        }
    } else if e.tag == DW_TAG_ARRAY_TYPE {
        match type_ref_of(e, unit) {
            Some(element_type) => {
                let bounds = bounds_among(es, children(es, i));
                Some(
                    DeclModel::Array {
                        ns,
                        byte_size: u64_attr_of(e, DW_AT_BYTE_SIZE),
                        element_type,
                        lower_bound: bounds.0,
                        upper_bound: bounds.1,
                    },
                )
            },
            None => None,
        }
    } else if e.tag == DW_TAG_STRUCTURE_TYPE || e.tag == DW_TAG_UNION_TYPE || e.tag
        == DW_TAG_CLASS_TYPE {
        match u64_attr_of(e, DW_AT_BYTE_SIZE) {
            Some(byte_size) => Some(
                DeclModel::Structure {
                    ns,
                    name: name_of(e),
                    byte_size,
                    members: members_among(es, children(es, i), unit),
                    nested: nested_among(es, children(es, i), unit),
                },
            ),
            None => None,
        }
    } else {
        None
    }
}

/// How an entry with this tag refers to another type.
pub open spec fn reference_kind(tag: u16) -> ReferenceKind {
    if tag == DW_TAG_POINTER_TYPE {
        ReferenceKind::Pointer
    } else if tag == DW_TAG_REFERENCE_TYPE {
        ReferenceKind::Reference
    } else {
        ReferenceKind::Temporary
    }
}

/// How an entry with this tag modifies another type.
pub open spec fn modifier_of(tag: u16) -> Modifier {
    if tag == DW_TAG_TYPEDEF {
        Modifier::TypeDef
    } else if tag == DW_TAG_CONST_TYPE {
        Modifier::Const
    } else if tag == DW_TAG_VOLATILE_TYPE {
        Modifier::Volatile
    } else if tag == DW_TAG_ATOMIC_TYPE {
        Modifier::Atomic
    } else {
        Modifier::Restrict
    }
}

/// Reads an unsigned number from an attribute.
pub fn u64_attr(e: &DieEntry, name: u16) -> (r: Option<u64>)
    ensures
        r == u64_attr_of(e@, name),
{
    match e.attr_value(name) {
        Some(AttrValue::Udata(v)) => Some(*v),
        Some(AttrValue::Sdata(s)) => if *s >= 0 {
            Some(*s as u64)
        } else {
            None
        },
        _ => None,
    }
}

/// Reads a bound or an offset from an attribute.
pub fn array_bound(e: &DieEntry, name: u16) -> (r: Option<Value>)
    ensures
        bound_of(r) == bound_attr(e@, name),
{
    match e.attr_value(name) {
        Some(AttrValue::Udata(u)) => Some(Value::Constant(*u as i64)),
        Some(AttrValue::Sdata(s)) => Some(Value::Constant(*s)),
        Some(AttrValue::Exprloc(x)) => Some(Value::Expr(copy_bytes(x))),
        _ => None,
    }
}

fn type_ref(e: &DieEntry, unit: usize) -> (r: Option<TypeId>)
    ensures
        r == type_ref_of(e@, unit),
{
    match e.type_offset() {
        Some(ofs) => Some(DieReference { unit_index: unit, unit_ofs: ofs }),
        None => None,
    }
}

fn parse_member(e: &DieEntry, unit: usize) -> (r: Option<StructureMember>)
    ensures
        match r {
            Some(m) => member_of(e@, unit) == Some(m@),
            None => member_of(e@, unit) is None,
        },
{
    if e.tag != DW_TAG_MEMBER {
        return None;
    }
    match type_ref(e, unit) {
        Some(ty) => Some(
            StructureMember {
                location: array_bound(e, DW_AT_DATA_MEMBER_LOCATION),
                name: e.attr_text(DW_AT_NAME),
                ty,
            },
        ),
        None => None,
    }
}

fn parse_subrange(e: &DieEntry) -> (r: (Value, Option<Value>))
    ensures
        (r.0@, bound_of(r.1)) == subrange_of(e@),
{
    let lower = match array_bound(e, DW_AT_LOWER_BOUND) {
        Some(b) => b,
        None => Value::Constant(0),
    };
    let upper = match array_bound(e, DW_AT_UPPER_BOUND) {
        Some(b) => Some(b),
        None => array_bound(e, DW_AT_COUNT),
    };
    (lower, upper)
}

fn parse_bounds(es: &Vec<DieEntry>, below: &Vec<usize>) -> (r: (Value, Option<Value>))
    requires
        forall|n: int| 0 <= n < below@.len() ==> (#[trigger] below@[n]) < es@.len(),
    ensures
        (r.0@, bound_of(r.1)) == bounds_among(entries_of(es@), as_path(below@)),
{
    let ghost all = as_path(below@);
    let mut i: usize = 0;
    assert(all.skip(0) =~= all);
    while i < below.len()
        invariant
            forall|n: int| 0 <= n < below@.len() ==> (#[trigger] below@[n]) < es@.len(),
            all == as_path(below@),
            i <= below@.len(),
            bounds_among(entries_of(es@), all) == bounds_among(
                entries_of(es@),
                all.skip(i as int),
            ),
        decreases below@.len() - i,
    {
        let e = &es[below[i]];
        assert(all.skip(i as int)[0] == below@[i as int]);
        assert(entries_of(es@)[below@[i as int] as int] == e@);
        assert(all.skip(i as int).skip(1) =~= all.skip(i + 1));
        if e.tag == DW_TAG_SUBRANGE_TYPE {
            return parse_subrange(e);
        }
        i = i + 1;
    }
    (Value::Constant(0), None)
}

fn parse_members(es: &Vec<DieEntry>, below: &Vec<usize>, unit: usize) -> (r: Vec<StructureMember>)
    requires
        forall|n: int| 0 <= n < below@.len() ==> (#[trigger] below@[n]) < es@.len(),
    ensures
        members_of(r@) == members_among(entries_of(es@), as_path(below@), unit),
{
    let ghost all = as_path(below@);
    let mut out: Vec<StructureMember> = Vec::new();
    let mut i: usize = 0;
    assert(members_of(out@) =~= members_among(entries_of(es@), all.take(0), unit));
    while i < below.len()
        invariant
            forall|n: int| 0 <= n < below@.len() ==> (#[trigger] below@[n]) < es@.len(),
            all == as_path(below@),
            i <= below@.len(),
            members_of(out@) == members_among(entries_of(es@), all.take(i as int), unit),
        decreases below@.len() - i,
    {
        let ghost before = out@;
        let e = &es[below[i]];
        assert(all.take(i + 1).drop_last() =~= all.take(i as int));
        assert(all.take(i + 1).last() == below@[i as int]);
        assert(entries_of(es@)[below@[i as int] as int] == e@);
        if let Some(m) = parse_member(e, unit) {
            out.push(m);
            assert(members_of(out@) =~= members_of(before).push(m@));
        }
        i = i + 1;
    }
    assert(all.take(all.len() as int) =~= all);
    out
}

fn declares_type(tag: u16) -> (r: bool)
    ensures
        r == is_type_tag(tag),
{
    tag == DW_TAG_BASE_TYPE || tag == DW_TAG_POINTER_TYPE || tag == DW_TAG_REFERENCE_TYPE || tag
        == DW_TAG_RVALUE_REFERENCE_TYPE || tag == DW_TAG_TYPEDEF || tag == DW_TAG_CONST_TYPE || tag
        == DW_TAG_VOLATILE_TYPE || tag == DW_TAG_ATOMIC_TYPE || tag == DW_TAG_RESTRICT_TYPE || tag
        == DW_TAG_ARRAY_TYPE || tag == DW_TAG_STRUCTURE_TYPE || tag == DW_TAG_UNION_TYPE || tag
        == DW_TAG_CLASS_TYPE
}

fn parse_nested(es: &Vec<DieEntry>, below: &Vec<usize>, unit: usize) -> (r: Vec<NestedType>)
    requires
        forall|n: int| 0 <= n < below@.len() ==> (#[trigger] below@[n]) < es@.len(),
    ensures
        nested_of(r@) == nested_among(entries_of(es@), as_path(below@), unit),
{
    let ghost all = as_path(below@);
    let mut out: Vec<NestedType> = Vec::new();
    let mut i: usize = 0;
    assert(nested_of(out@) =~= nested_among(entries_of(es@), all.take(0), unit));
    while i < below.len()
        invariant
            forall|n: int| 0 <= n < below@.len() ==> (#[trigger] below@[n]) < es@.len(),
            all == as_path(below@),
            i <= below@.len(),
            nested_of(out@) == nested_among(entries_of(es@), all.take(i as int), unit),
        decreases below@.len() - i,
    {
        let ghost before = out@;
        let e = &es[below[i]];
        assert(all.take(i + 1).drop_last() =~= all.take(i as int));
        assert(all.take(i + 1).last() == below@[i as int]);
        assert(entries_of(es@)[below@[i as int] as int] == e@);
        if declares_type(e.tag) {
            if let Some(name) = e.attr_text(DW_AT_NAME) {
                let ty = DieReference { unit_index: unit, unit_ofs: e.offset };
                out.push(NestedType { name, ty });
                assert(nested_of(out@) =~= nested_of(before).push((name@, ty)));
            }
        }
        i = i + 1;
    }
    assert(all.take(all.len() as int) =~= all);
    out
}

/// The type that entry `i` declares inside the namespaces `ns`.
pub fn parse_type_declaration(u: &Unit, i: usize, ns: NamespaceHierarchy) -> (r: Option<
    TypeDeclaration,
>)
    requires
        i < u@.entries.len(),
    ensures
        match r {
            Some(d) => declared(u@, i as int, ns@) == Some(d@),
            None => declared(u@, i as int, ns@) is None,
        },
{
    let e = &u.entries[i];
    let unit: usize = u.properties.index;
    let tag: u16 = e.tag;
    if tag == DW_TAG_BASE_TYPE {
        let byte_size: u64 = match u64_attr(e, DW_AT_BYTE_SIZE) {
            Some(size) => size,
            None => {
                return None;
            },
        };
        let name = match e.attr_text(DW_AT_NAME) {
            Some(name) => name,
            None => String::new(),
        };
        assert(name@ =~= match name_of(e@) {
            Some(n) => n,
            None => seq![],
        });
        match e.attr_value(DW_AT_ENCODING) {
            Some(AttrValue::Encoding(encoding)) => Some(
                TypeDeclaration::Scalar { ns, name, byte_size, encoding: *encoding },
            ),
            _ => None,
        }
    } else if tag == DW_TAG_POINTER_TYPE || tag == DW_TAG_REFERENCE_TYPE || tag
        == DW_TAG_RVALUE_REFERENCE_TYPE {
        let kind = if tag == DW_TAG_POINTER_TYPE {
            ReferenceKind::Pointer
        } else if tag == DW_TAG_REFERENCE_TYPE {
            ReferenceKind::Reference
        } else {
            ReferenceKind::Temporary
        };
        match type_ref(e, unit) {
            Some(target) => Some(TypeDeclaration::Referential { ns, target, kind }),
            None => None,
        }
    } else if tag == DW_TAG_TYPEDEF || tag == DW_TAG_CONST_TYPE || tag == DW_TAG_VOLATILE_TYPE
        || tag == DW_TAG_ATOMIC_TYPE || tag == DW_TAG_RESTRICT_TYPE {
        let modifier = if tag == DW_TAG_TYPEDEF {
            Modifier::TypeDef
        } else if tag == DW_TAG_CONST_TYPE {
            Modifier::Const
        } else if tag == DW_TAG_VOLATILE_TYPE {
            Modifier::Volatile
        } else if tag == DW_TAG_ATOMIC_TYPE {
            Modifier::Atomic
        } else {
            Modifier::Restrict
        };
        match type_ref(e, unit) {
            Some(inner) => Some(
                TypeDeclaration::ModifiedType { ns, name: e.attr_text(DW_AT_NAME), modifier, inner },
            ),
            None => None,
        }
    } else if tag == DW_TAG_ARRAY_TYPE {
        match type_ref(e, unit) {
            Some(element_type) => {
                let below = child_indices(&u.entries, i);
                let (lower_bound, upper_bound) = parse_bounds(&u.entries, &below);
                Some(
                    TypeDeclaration::Array {
                        ns,
                        byte_size: u64_attr(e, DW_AT_BYTE_SIZE),
                        element_type,
                        lower_bound,
                        upper_bound,
                    },
                )
            },
            None => None,
        }
    } else if tag == DW_TAG_STRUCTURE_TYPE || tag == DW_TAG_UNION_TYPE || tag
        == DW_TAG_CLASS_TYPE {
        match u64_attr(e, DW_AT_BYTE_SIZE) {
            Some(byte_size) => {
                let below = child_indices(&u.entries, i);
                Some(
                    TypeDeclaration::Structure {
                        ns,
                        name: e.attr_text(DW_AT_NAME),
                        byte_size,
                        members: parse_members(&u.entries, &below, unit),
                        nested: parse_nested(&u.entries, &below, unit),
                    },
                )
            },
            None => None,
        }
    } else {
        None
    }
}

// ---------------------------------------------------------------------------
// Names of entries
// ---------------------------------------------------------------------------

/// The name of entry `i` behind the namespaces that it stands in.
pub open spec fn qualified_entry_name(es: Seq<EntryModel>, i: int) -> Option<Seq<char>> {
    match name_of(es[i]) {
        Some(name) => Some(qualified(namespaces(es, path_to(es, i)), name)),
        None => None,
    }
}

impl<'a> Die<'a> {
    /// The name of this entry behind the namespaces that it stands in.
    pub fn qualified_name(&self) -> (r: Option<String>)
        requires
            self.wf(),
        ensures
            text_of(r) == qualified_entry_name(self.ctx.unit@.entries, self.index as int),
    {
        let entries = &self.ctx.unit.entries;
        match self.name() {
            Some(name) => {
                let ns = NamespaceHierarchy(namespaces_at(entries, self.index));
                Some(ns.qualify(name.as_str()))
            },
            None => None,
        }
    }
}

} // verus!
