//! Which formatter presents a type.
use vstd::prelude::*;

use crate::debug::graph::{GraphModel, Type, decl_at, ns_of_decl, resolve, type_text};
use crate::debug::types::{DeclModel, TypeDeclaration, TypeId, ns_matches};
use crate::text::{begins_with, contains, holds, occurs_at, same, starts_with};

verus! {

broadcast use vstd::seq_lib::group_seq_properties;

/// The formatters of the debugger.
#[derive(Debug, Clone, Copy, PartialEq, Eq, Structural)]
pub enum Formatter {
    Scalar,
    Referential,
    Structure,
    StdString,
    StdMap,
    StdVector,
}

/// Presents scalars.
#[derive(Debug, Clone, Copy)]
pub struct ScalarFormatter;

/// Presents pointers and references.
#[derive(Debug, Clone, Copy)]
pub struct ReferentialFormatter;

/// Presents structures, unions and classes.
#[derive(Debug, Clone, Copy)]
pub struct StructureFormatter;

/// Presents `std::string`.
#[derive(Debug, Clone, Copy)]
pub struct StdStringFormatter;

/// Presents `std::map` and `std::set`.
#[derive(Debug, Clone, Copy)]
pub struct StdMapFormatter;

/// Presents `std::vector`.
#[derive(Debug, Clone, Copy)]
pub struct StdVectorFormatter;

/// What the type `id` means.
pub open spec fn meaning_in(g: GraphModel, id: TypeId) -> Option<DeclModel> {
    resolve(g, id, g.size)
}

/// Whether the type `id` is declared in the namespace `std`.
pub open spec fn in_std(g: GraphModel, id: TypeId) -> bool {
    ns_matches(ns_of_decl(meaning_in(g, id)), "std"@)
}

/// Whether a type with this name is an instance of the standard container
/// whose name, up to the `<`, is given, and not something declared inside one.
pub open spec fn is_container_name(name: Seq<char>, container: Seq<char>) -> bool {
    begins_with(name, container) && !holds(name, ">::"@)
}

/// Whether a formatter presents the type `id`.
pub open spec fn suits(f: Formatter, g: GraphModel, id: TypeId) -> bool {
    match f {
        Formatter::Scalar => meaning_in(g, id) matches Some(DeclModel::Scalar { .. }),
        Formatter::Referential => meaning_in(g, id) matches Some(DeclModel::Referential { .. }),
        Formatter::Structure => meaning_in(g, id) matches Some(DeclModel::Structure { .. }),
        Formatter::StdString => in_std(g, id) && (type_text(g, id) == "std::string"@ || begins_with(
            type_text(g, id),
            "std::string"@,
        )),
        Formatter::StdMap => is_container_name(type_text(g, id), "std::map<"@) || is_container_name(
            type_text(g, id),
            "std::set<"@,
        ),
        Formatter::StdVector => in_std(g, id) && (type_text(g, id) == "std::vector"@ || begins_with(
            type_text(g, id),
            "std::vector<"@,
        )),
    }
}

impl ScalarFormatter {
    /// Whether this formatter presents values of type `ty`.
    pub fn matches(&self, ty: &Type) -> (r: bool)
        ensures
            r == suits(Formatter::Scalar, ty.model(), ty.root),
    {
        match ty.resolved() {
            Some(TypeDeclaration::Scalar { .. }) => true,
            _ => false,
        }
    }
}

impl ReferentialFormatter {
    /// Whether this formatter presents values of type `ty`.
    pub fn matches(&self, ty: &Type) -> (r: bool)
        ensures
            r == suits(Formatter::Referential, ty.model(), ty.root),
    {
        match ty.resolved() {
            Some(TypeDeclaration::Referential { .. }) => true,
            _ => false,
        }
    }
}

impl StructureFormatter {
    /// Whether this formatter presents values of type `ty`.
    pub fn matches(&self, ty: &Type) -> (r: bool)
        ensures
            r == suits(Formatter::Structure, ty.model(), ty.root),
    {
        match ty.resolved() {
            Some(TypeDeclaration::Structure { .. }) => true,
            _ => false,
        }
    }
}

impl StdStringFormatter {
    /// Whether this formatter presents values of type `ty`.
    pub fn matches(&self, ty: &Type) -> (r: bool)
        ensures
            r == suits(Formatter::StdString, ty.model(), ty.root),
    {
        let name = ty.name();
        ty.ns().matches("std") && (same(name.as_str(), "std::string") || starts_with(
            name.as_str(),
            "std::string",
        ))
    }
}

fn is_container(ty: &Type, container: &str) -> (r: bool)
    ensures
        r == is_container_name(type_text(ty.model(), ty.root), container@),
{
    let name = ty.name();
    starts_with(name.as_str(), container) && !contains(name.as_str(), ">::")
}

impl StdMapFormatter {
    /// Whether this formatter presents values of type `ty`.
    pub fn matches(&self, ty: &Type) -> (r: bool)
        ensures
            r == suits(Formatter::StdMap, ty.model(), ty.root),
    {
        is_container(ty, "std::map<") || is_container(ty, "std::set<")
    }
}

impl StdVectorFormatter {
    /// Whether this formatter presents values of type `ty`.
    pub fn matches(&self, ty: &Type) -> (r: bool)
        ensures
            r == suits(Formatter::StdVector, ty.model(), ty.root),
    {
        let name = ty.name();
        ty.ns().matches("std") && (same(name.as_str(), "std::vector") || starts_with(
            name.as_str(),
            "std::vector<",
        ))
    }
}

impl Formatter {
    /// Whether this formatter presents values of type `ty`.
    pub fn matches(&self, ty: &Type) -> (r: bool)
        ensures
            r == suits(*self, ty.model(), ty.root),
    {
        match self {
            Formatter::Scalar => ScalarFormatter.matches(ty),
            Formatter::Referential => ReferentialFormatter.matches(ty),
            Formatter::Structure => StructureFormatter.matches(ty),
            Formatter::StdString => StdStringFormatter.matches(ty),
            Formatter::StdMap => StdMapFormatter.matches(ty),
            Formatter::StdVector => StdVectorFormatter.matches(ty),
        }
    }
}

/// Represents a category of formatters.
///
/// When determining which formatter to use for a variable,
/// the debugger will exhaust all possibilities *within* a category
/// before moving onto the next one.
///
/// This allows us to, for example, try all user formatters before trying
/// all standard library formatters before all core formatters, etc.
#[derive(Debug)]
pub struct FormatterCategory {
    pub name: &'static str,
    pub formatters: Vec<Formatter>,
}

/// The first of the formatters that presents the type `id`.
pub open spec fn first_suiting(fs: Seq<Formatter>, g: GraphModel, id: TypeId) -> Option<Formatter>
    decreases fs.len(),
{
    if fs.len() == 0 {
        None
    } else if suits(fs[0], g, id) {
        Some(fs[0])
    } else {
        first_suiting(fs.skip(1), g, id)
    }
}

/// Whether the formatter at `i` is the first that presents the type `id`.
pub open spec fn owns(fs: Seq<Formatter>, i: int, g: GraphModel, id: TypeId) -> bool {
    &&& 0 <= i < fs.len()
    &&& suits(fs[i], g, id)
    &&& forall|j: int| 0 <= j < i ==> !suits(#[trigger] fs[j], g, id)
}

/// The formatter among `fs` for the type `id`, or else for the type behind its
/// outermost modifier, and so on.
pub open spec fn suiting_along(
    fs: Seq<Formatter>,
    g: GraphModel,
    id: TypeId,
    fuel: nat,
) -> Option<Formatter>
    decreases fuel,
{
    match first_suiting(fs, g, id) {
        Some(f) => Some(f),
        None => match decl_at(g, id) {
            Some(DeclModel::ModifiedType { inner, .. }) => if fuel == 0 || inner == id {
                None
            } else {
                suiting_along(fs, g, inner, (fuel - 1) as nat)
            },
            _ => None,
        },
    }
}

/// The formatters of the core language.
pub open spec fn default_formatters() -> Seq<Formatter> {
    seq![Formatter::Scalar, Formatter::Referential, Formatter::Structure]
}

/// The formatters of the C++ standard library.
pub open spec fn cpp_formatters() -> Seq<Formatter> {
    seq![Formatter::StdString, Formatter::StdMap, Formatter::StdVector]
}

/// The formatter that presents the type `id`. Those of the standard library
/// come before those of the core language.
pub open spec fn chosen(g: GraphModel, id: TypeId) -> Option<Formatter> {
    match suiting_along(cpp_formatters(), g, id, g.size) {
        Some(f) => Some(f),
        None => suiting_along(default_formatters(), g, id, g.size),
    }
}

impl FormatterCategory {
    /// The first formatter of this category that presents `ty`.
    pub fn formatter_for(&self, ty: &Type) -> (r: Option<Formatter>)
        ensures
            r == first_suiting(self.formatters@, ty.model(), ty.root),
            match r {
                Some(f) => exists|i: int| #[trigger]
                    owns(self.formatters@, i, ty.model(), ty.root) && f == self.formatters@[i],
                None => forall|i: int|
                    0 <= i < self.formatters@.len() ==> !suits(
                        #[trigger] self.formatters@[i],
                        ty.model(),
                        ty.root,
                    ),
            },
    {
        let ghost all = self.formatters@;
        let mut i: usize = 0;
        assert(all.skip(0) =~= all);
        while i < self.formatters.len()
            invariant
                all == self.formatters@,
                i <= all.len(),
                first_suiting(all, ty.model(), ty.root) == first_suiting(
                    all.skip(i as int),
                    ty.model(),
                    ty.root,
                ),
                forall|j: int| 0 <= j < i ==> !suits(#[trigger] all[j], ty.model(), ty.root),
            decreases all.len() - i,
        {
            assert(all.skip(i as int)[0] == all[i as int]);
            assert(all.skip(i as int).skip(1) =~= all.skip(i + 1));
            if self.formatters[i].matches(ty) {
                assert(owns(all, i as int, ty.model(), ty.root));
                return Some(self.formatters[i]);
            }
            i = i + 1;
        }
        None
    }

    fn formatter_along(&self, ty: &Type) -> (r: Option<Formatter>)
        ensures
            r == suiting_along(self.formatters@, ty.model(), ty.root, ty.model().size),
    {
        let mut current = ty.copy();
        let mut fuel: u128 = ty.graph.size();
        loop
            invariant
                current.graph == ty.graph,
                suiting_along(self.formatters@, ty.model(), ty.root, ty.model().size)
                    == suiting_along(self.formatters@, ty.model(), current.root, fuel as nat),
            decreases fuel,
        {
            if let Some(formatter) = self.formatter_for(&current) {
                return Some(formatter);
            }
            match current.declaration() {
                Some(TypeDeclaration::ModifiedType { .. }) => {},
                _ => {
                    return None;
                },
            }
            let next = current.skip_one_modifier();
            if fuel == 0 || next.root == current.root {
                return None;
            }
            current = next;
            fuel = fuel - 1;
        }
    }
}

/// Computes the formatter for a given type, if any
pub fn formatter_for(ty: &Type) -> (r: Option<Formatter>)
    ensures
        r == chosen(ty.model(), ty.root),
{
    let cpp = FormatterCategory {
        name: "cpp",
        formatters: vec![Formatter::StdString, Formatter::StdMap, Formatter::StdVector],
    };
    assert(cpp.formatters@ =~= cpp_formatters());
    if let Some(formatter) = cpp.formatter_along(ty) {
        return Some(formatter);
    }
    let default = FormatterCategory {
        name: "default",
        formatters: vec![Formatter::Scalar, Formatter::Referential, Formatter::Structure],
    };
    assert(default.formatters@ =~= default_formatters());
    default.formatter_along(ty)
}

// ---------------------------------------------------------------------------
// What is presented how
// ---------------------------------------------------------------------------

proof fn prefixes_differ(t: Seq<char>, a: Seq<char>, b: Seq<char>, k: int)
    requires
        begins_with(t, a),
        0 <= k < a.len(),
        k < b.len(),
        a[k] != b[k],
    ensures
        !begins_with(t, b),
{
    assert(t.subrange(0, a.len() as int)[k] == t[k]);
    if begins_with(t, b) {
        assert(t.subrange(0, b.len() as int)[k] == t[k]);
    }
}

proof fn prefixes_are_short(t: Seq<char>, long: Seq<char>, short: Seq<char>)
    requires
        begins_with(t, long),
        short.len() <= long.len(),
        short == long.take(short.len() as int),
    ensures
        begins_with(t, short),
{
    assert(t.subrange(0, short.len() as int) =~= t.subrange(0, long.len() as int).take(
        short.len() as int,
    ));
}

proof fn container_names()
    ensures
        "std::vector<"@.len() == 12,
        "std::vector"@.len() == 11,
        "std::string"@.len() == 11,
        "std::map<"@.len() == 9,
        "std::set<"@.len() == 9,
        "std::"@.len() == 5,
        "std::vector<"@[5] == 'v',
        "std::vector"@[5] == 'v',
        "std::string"@[5] == 's',
        "std::string"@[6] == 't',
        "std::map<"@[5] == 'm',
        "std::set<"@[5] == 's',
        "std::set<"@[6] == 'e',
        "std::"@ == "std::vector<"@.take(5),
        "std::"@ == "std::vector"@.take(5),
        "std::"@ == "std::string"@.take(5),
        "std::"@ == "std::map<"@.take(5),
        "std::"@ == "std::set<"@.take(5),
{
    reveal_strlit("std::vector<");
    reveal_strlit("std::vector");
    reveal_strlit("std::string");
    reveal_strlit("std::map<");
    reveal_strlit("std::set<");
    reveal_strlit("std::");
    assert("std::"@ =~= "std::vector<"@.take(5));
    assert("std::"@ =~= "std::vector"@.take(5));
    assert("std::"@ =~= "std::string"@.take(5));
    assert("std::"@ =~= "std::map<"@.take(5));
    assert("std::"@ =~= "std::set<"@.take(5));
}

/// The containers of the standard library are recognised by how their types are
/// written, up to the `<` or, for `std::string`, from its beginning on. What is
/// declared inside a map or a set is not one.
pub proof fn containers_are_recognised(g: GraphModel, id: TypeId)
    ensures
        ({
            let text = type_text(g, id);
            &&& in_std(g, id) && occurs_at(text, "std::vector<"@, 0) ==> chosen(g, id) == Some(
                Formatter::StdVector,
            )
            &&& in_std(g, id) && occurs_at(text, "std::string"@, 0) ==> chosen(g, id) == Some(
                Formatter::StdString,
            )
            &&& (occurs_at(text, "std::map<"@, 0) || occurs_at(text, "std::set<"@, 0)) && !holds(
                text,
                ">::"@,
            ) ==> chosen(g, id) == Some(Formatter::StdMap)
        }),
{
    let text = type_text(g, id);
    let fs = cpp_formatters();
    container_names();
    assert(fs[0] == Formatter::StdString);
    assert(fs.skip(1)[0] == Formatter::StdMap);
    assert(fs.skip(1).skip(1)[0] == Formatter::StdVector);
    if occurs_at(text, "std::vector<"@, 0) {
        prefixes_differ(text, "std::vector<"@, "std::string"@, 5);
        prefixes_differ(text, "std::vector<"@, "std::map<"@, 5);
        prefixes_differ(text, "std::vector<"@, "std::set<"@, 5);
        assert(text != "std::string"@) by {
            assert(text.subrange(0, 12)[5] == text[5]);
        }
        assert(first_suiting(fs, g, id) == first_suiting(fs.skip(1), g, id));
        assert(first_suiting(fs.skip(1), g, id) == first_suiting(fs.skip(1).skip(1), g, id));
    }
    if occurs_at(text, "std::map<"@, 0) {
        prefixes_differ(text, "std::map<"@, "std::string"@, 5);
        assert(text != "std::string"@) by {
            assert(text.subrange(0, 9)[5] == text[5]);
        }
        assert(first_suiting(fs, g, id) == first_suiting(fs.skip(1), g, id));
    }
    if occurs_at(text, "std::set<"@, 0) {
        prefixes_differ(text, "std::set<"@, "std::string"@, 6);
        assert(text != "std::string"@) by {
            assert(text.subrange(0, 9)[6] == text[6]);
        }
        assert(first_suiting(fs, g, id) == first_suiting(fs.skip(1), g, id));
    }
}

/// Types that are not written with `std::` in front are presented by what they are:
/// scalars, pointers and references, or structures. What is none of these is not
/// presented.
pub proof fn other_types_are_presented_by_what_they_are(g: GraphModel, id: TypeId)
    requires
        decl_at(g, id) matches Some(d) && !(d is ModifiedType),
        !occurs_at(type_text(g, id), "std::"@, 0),
    ensures
        chosen(g, id) == match decl_at(g, id)->0 {
            DeclModel::Scalar { .. } => Some(Formatter::Scalar),
            DeclModel::Referential { .. } => Some(Formatter::Referential),
            DeclModel::Structure { .. } => Some(Formatter::Structure),
            _ => None,
        },
{
    let text = type_text(g, id);
    let fs = cpp_formatters();
    container_names();
    if begins_with(text, "std::vector<"@) {
        prefixes_are_short(text, "std::vector<"@, "std::"@);
    }
    if begins_with(text, "std::string"@) {
        prefixes_are_short(text, "std::string"@, "std::"@);
    }
    if begins_with(text, "std::map<"@) {
        prefixes_are_short(text, "std::map<"@, "std::"@);
    }
    if begins_with(text, "std::set<"@) {
        prefixes_are_short(text, "std::set<"@, "std::"@);
    }
    if text == "std::string"@ || text == "std::vector"@ {
        assert(text.subrange(0, 5) =~= text.take(5));
    }
    assert(fs[0] == Formatter::StdString);
    assert(fs.skip(1)[0] == Formatter::StdMap);
    assert(fs.skip(1).skip(1)[0] == Formatter::StdVector);
    assert(fs.skip(1).skip(1).skip(1) =~= seq![]);
    assert(first_suiting(fs, g, id) == first_suiting(fs.skip(1), g, id));
    assert(first_suiting(fs.skip(1), g, id) == first_suiting(fs.skip(1).skip(1), g, id));
    assert(first_suiting(fs.skip(1).skip(1), g, id) == first_suiting(
        fs.skip(1).skip(1).skip(1),
        g,
        id,
    ));
    let core = default_formatters();
    assert(core[0] == Formatter::Scalar);
    assert(core.skip(1)[0] == Formatter::Referential);
    assert(core.skip(1).skip(1)[0] == Formatter::Structure);
    assert(core.skip(1).skip(1).skip(1) =~= seq![]);
    assert(meaning_in(g, id) == decl_at(g, id));
    if !suits(core[0], g, id) {
        assert(first_suiting(core, g, id) == first_suiting(core.skip(1), g, id));
        if !suits(core.skip(1)[0], g, id) {
            assert(first_suiting(core.skip(1), g, id) == first_suiting(
                core.skip(1).skip(1),
                g,
                id,
            ));
            if !suits(core.skip(1).skip(1)[0], g, id) {
                assert(first_suiting(core.skip(1).skip(1), g, id) == first_suiting(
                    core.skip(1).skip(1).skip(1),
                    g,
                    id,
                ));
            }
        }
    }
}

} // verus!
