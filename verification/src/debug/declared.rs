//! What the declarations of a program say, in terms of the entries that make them.
//!
//! Tags and attributes are given by the numbers that they have in the debugging
//! information.
use vstd::prelude::*;

use crate::text::{first_from, first_from_is_first, holds, joined, numerals_spell_numbers, occurs_at,
    patterns_are_replaced, pieces, spells};
use super::dwarf::die::DieReference;
use super::dwarf::entry::{EntryModel, ValueModel, attr_value, children, is_below, name_of, namespaces,
    path_above, path_to, subtree_end, type_offset};
use super::dwarf::unit::UnitView;
use super::graph::{decl_at, element_count, find_nested, graph_of, root_end, size_of_decl, unit_decls,
    written_over, written_with};
use super::types::{BoundModel, DeclModel, TypeId, bounds_among, declared, members_among,
    nested_among, ns_matches, qualified};

verus! {

broadcast use vstd::seq_lib::group_seq_properties;

// ---------------------------------------------------------------------------
// Namespaces
// ---------------------------------------------------------------------------

/// Whether a way down leads through the entries in order, each deeper than the one
/// before.
pub open spec fn goes_down(es: Seq<EntryModel>, path: Seq<int>) -> bool {
    forall|a: int, b: int|
        0 <= a < b < path.len() ==> #[trigger] path[a] < #[trigger] path[b] && es[path[a]].depth
            < es[path[b]].depth
}

proof fn cut_path(es: Seq<EntryModel>, path: Seq<int>, depth: isize, x: int)
    requires
        goes_down(es, path),
    ensures
        goes_down(es, path_above(es, path, depth)),
        path_above(es, path, depth).contains(x) <==> path.contains(x) && es[x].depth < depth,
        path_above(es, path, depth).len() <= path.len(),
        path_above(es, path, depth) == path.take(path_above(es, path, depth).len() as int),
    decreases path.len(),
{
    assert(path.take(path.len() as int) =~= path);
    if path.len() > 0 && es[path.last()].depth >= depth {
        let rest = path.drop_last();
        assert(goes_down(es, rest)) by {
            assert forall|a: int, b: int| 0 <= a < b < rest.len() implies #[trigger] rest[a]
                < #[trigger] rest[b] && es[rest[a]].depth < es[rest[b]].depth by {
                assert(rest[a] == path[a] && rest[b] == path[b]);
            }
        }
        cut_path(es, rest, depth, x);
        let n = path_above(es, rest, depth).len() as int;
        assert(rest.take(n) =~= path.take(n));
        if path.contains(x) && es[x].depth < depth {
            let k = choose|k: int| 0 <= k < path.len() && path[k] == x;
            assert(rest[k] == x);
        }
        if rest.contains(x) {
            let k = choose|k: int| 0 <= k < rest.len() && rest[k] == x;
            assert(path[k] == x);
        }
    } else if path.contains(x) {
        let k = choose|k: int| 0 <= k < path.len() && path[k] == x;
        if k < path.len() - 1 {
            assert(es[path[k]].depth < es[path[path.len() - 1]].depth);
        }
    }
}

/// The way down to an entry leads through those entries that it is below, from the
/// outermost, and ends at the entry itself.
pub proof fn paths_lead_down(es: Seq<EntryModel>, i: int, a: int)
    requires
        0 <= i < es.len(),
        0 <= a,
    ensures
        path_to(es, i).contains(a) <==> a == i || is_below(es, a, i),
        goes_down(es, path_to(es, i)),
        path_to(es, i).len() > 0,
        path_to(es, i).last() == i,
    decreases i,
{
    let path = path_to(es, i);
    let outer = path_to(es, i - 1);
    let above = path_above(es, outer, es[i].depth);
    if i == 0 {
        assert(outer =~= seq![]);
        assert(above =~= seq![]);
        assert(path =~= seq![0int]);
        assert(path[0] == 0);
    } else {
        paths_lead_down(es, i - 1, a);
        cut_path(es, outer, es[i].depth, a);
        assert forall|x: int, y: int| 0 <= x < y < path.len() implies #[trigger] path[x]
            < #[trigger] path[y] && es[path[x]].depth < es[path[y]].depth by {
            assert(path[x] == above[x]);
            if y < above.len() {
                assert(path[y] == above[y]);
            } else {
                assert(above[x] == outer[x]);
                assert(outer[outer.len() - 1] == i - 1);
                if x < outer.len() - 1 {
                    assert(outer[x] < outer[outer.len() - 1]);
                }
                cut_path(es, outer, es[i].depth, above[x]);
                assert(above.contains(above[x]));
            }
        }
        if above.contains(a) {
            let k = choose|k: int| 0 <= k < above.len() && above[k] == a;
            assert(path[k] == a);
            if a != i - 1 {
                assert(is_below(es, a, i - 1));
            }
            assert(is_below(es, a, i)) by {
                assert forall|j: int| a < j <= i implies (#[trigger] es[j]).depth > es[a].depth by {}
            }
        }
        if is_below(es, a, i) {
            if a < i - 1 {
                assert(is_below(es, a, i - 1));
            }
            assert(es[i].depth > es[a].depth);
            assert(above.contains(a));
        }
        if path.contains(a) {
            let k = choose|k: int| 0 <= k < path.len() && path[k] == a;
            if k < above.len() {
                assert(above[k] == a);
            }
        }
        if a == i {
            assert(path[path.len() - 1] == i);
        }
    }
}

/// One step further down, a named namespace that is not exported adds its name, and
/// nothing else does.
pub proof fn namespaces_add_their_name(es: Seq<EntryModel>, path: Seq<int>, k: int)
    ensures
        ({
            let outer = namespaces(es, path);
            let exported = attr_value(es[k], 0x89) == Some(ValueModel::Flag(true));
            if es[k].tag == 0x39 && !exported && name_of(es[k]) is Some {
                namespaces(es, path.push(k)) == outer.push(name_of(es[k])->0)
            } else {
                namespaces(es, path.push(k)) == outer
            }
        }),
        namespaces(es, seq![]).len() == 0,
{
    assert(path.push(k).drop_last() =~= path);
}

/// A name stands behind the namespaces that it is in, with `::` between them, and
/// `std::__2::` is written `std::`.
pub proof fn names_stand_behind_their_namespaces(ns: Seq<Seq<char>>, name: Seq<char>)
    ensures
        first_from(name, "std::__2::"@, 0) is None ==> qualified(seq![], name) == name,
        ns.len() > 0 && first_from(joined(ns, "::"@) + "::"@ + name, "std::__2::"@, 0) is None
            ==> qualified(ns, name) == joined(ns, "::"@) + "::"@ + name,
        qualified(seq!["std"@, "__2"@], name) == "std::"@ + qualified(seq![], name),
{
    reveal_strlit("std::__2::");
    reveal_strlit("std::");
    reveal_strlit("std");
    reveal_strlit("__2");
    reveal_strlit("::");
    patterns_are_replaced(name, "std::__2::"@, "std::"@);
    if ns.len() > 0 {
        patterns_are_replaced(joined(ns, "::"@) + "::"@ + name, "std::__2::"@, "std::"@);
    }
    let both = seq!["std"@, "__2"@];
    assert(both.drop_last() =~= seq!["std"@]);
    assert(joined(seq!["std"@], "::"@) == "std"@);
    let full = joined(both, "::"@) + "::"@ + name;
    assert(full =~= "std::__2::"@ + name);
    assert(full.subrange(0, 10) =~= "std::__2::"@);
    assert(full.skip(10) =~= name);
}

// ---------------------------------------------------------------------------
// Declarations
// ---------------------------------------------------------------------------

/// The type that an entry refers to in its own unit.
pub open spec fn referred(u: UnitView, i: int) -> Option<TypeId> {
    match type_offset(u.entries[i]) {
        Some(ofs) => Some(DieReference { unit_index: u.properties.index, unit_ofs: ofs }),
        None => None,
    }
}

/// Types that are made of another are written by what their tag says: a pointer with
/// `*`, references with `&` and `&&` behind the other, and a modifier without a name
/// of its own with its word in front. One that does not say what it is made of
/// declares nothing.
pub proof fn tags_say_how_types_are_written(u: UnitView, i: int, ns: Seq<Seq<char>>, inner: Seq<char>)
    ensures
        ({
            let e = u.entries[i];
            let d = declared(u, i, ns);
            let refers = e.tag == 0x0f || e.tag == 0x10 || e.tag == 0x42;
            let modifies = e.tag == 0x16 || e.tag == 0x26 || e.tag == 0x35 || e.tag == 0x47 || e.tag
                == 0x37;
            &&& refers || modifies || e.tag == 0x01 ==> (d is Some <==> referred(u, i) is Some)
            &&& d is Some && (refers || e.tag == 0x01 || modifies && name_of(e) is None)
                ==> written_with(d) == referred(u, i)
            &&& d is Some && e.tag == 0x0f ==> written_over(d, inner) == inner + "*"@
            &&& d is Some && e.tag == 0x10 ==> written_over(d, inner) == inner + "&"@
            &&& d is Some && e.tag == 0x42 ==> written_over(d, inner) == inner + "&&"@
            &&& d is Some && modifies ==> match name_of(e) {
                Some(name) => written_with(d) is None && written_over(d, inner) == qualified(ns, name),
                None => {
                    &&& e.tag == 0x16 ==> written_over(d, inner) == inner
                    &&& e.tag == 0x26 ==> written_over(d, inner) == "const "@ + inner
                    &&& e.tag == 0x35 ==> written_over(d, inner) == "volatile "@ + inner
                    &&& e.tag == 0x47 ==> written_over(d, inner) == "_Atomic "@ + inner
                    &&& e.tag == 0x37 ==> written_over(d, inner) == "restrict "@ + inner
                },
            }
            &&& d is Some && refers ==> size_of_decl(d) == Some(4u64)
        }),
{
}

/// Base types and structures give their size in `DW_AT_byte_size`; base types say in
/// `DW_AT_encoding` how they are encoded. They are written by their names, behind
/// their namespaces. Without these attributes they declare nothing.
pub proof fn types_say_their_size(u: UnitView, i: int, ns: Seq<Seq<char>>, inner: Seq<char>)
    ensures
        ({
            let e = u.entries[i];
            let d = declared(u, i, ns);
            &&& e.tag == 0x24 ==> match (attr_value(e, 0x0b), attr_value(e, 0x3e)) {
                (Some(ValueModel::Udata(size)), Some(ValueModel::Encoding(encoding))) => {
                    &&& d matches Some(DeclModel::Scalar { byte_size, encoding: c, .. }) && byte_size
                        == size && c == encoding
                    &&& size_of_decl(d) == Some(size)
                    &&& name_of(e) matches Some(name) ==> written_over(d, inner) == qualified(ns, name)
                },
                (None, _) => d is None,
                (_, None) => d is None,
                _ => true,
            }
            &&& e.tag == 0x13 || e.tag == 0x17 || e.tag == 0x02 ==> match attr_value(e, 0x0b) {
                Some(ValueModel::Udata(size)) => {
                    &&& d matches Some(DeclModel::Structure { byte_size, members, .. }) && byte_size
                        == size && members == members_among(
                        u.entries,
                        children(u.entries, i),
                        u.properties.index,
                    )
                    &&& size_of_decl(d) == Some(size)
                    &&& match name_of(e) {
                        Some(name) => written_over(d, inner) == qualified(ns, name),
                        None => written_over(d, inner) == "<anonymous>"@,
                    }
                },
                None => d is None,
                _ => true,
            }
            &&& !(e.tag == 0x24 || e.tag == 0x0f || e.tag == 0x10 || e.tag == 0x42 || e.tag == 0x16
                || e.tag == 0x26 || e.tag == 0x35 || e.tag == 0x47 || e.tag == 0x37 || e.tag == 0x01
                || e.tag == 0x13 || e.tag == 0x17 || e.tag == 0x02) ==> d is None
        }),
{
}

/// The constant that an attribute holds, where it holds one.
pub open spec fn constant_in(e: EntryModel, name: u16) -> Option<int> {
    match attr_value(e, name) {
        Some(ValueModel::Udata(v)) if v <= i64::MAX => Some(v as int),
        Some(ValueModel::Sdata(s)) => Some(s as int),
        _ => None,
    }
}

/// One more entry below a structure is one more member where it is a
/// `DW_TAG_member` with a type. The member has the entry's name and type, and lies
/// where `DW_AT_data_member_location` says.
pub proof fn members_are_declared(es: Seq<EntryModel>, below: Seq<int>, k: int, unit: usize)
    ensures
        ({
            let before = members_among(es, below, unit);
            let after = members_among(es, below.push(k), unit);
            if es[k].tag == 0x0d && type_offset(es[k]) is Some {
                &&& after.len() == before.len() + 1
                &&& after.drop_last() == before
                &&& after.last().name == name_of(es[k])
                &&& after.last().ty.unit_index == unit
                &&& after.last().ty.unit_ofs == type_offset(es[k])->0
                &&& constant_in(es[k], 0x38) matches Some(o) ==> after.last().location == Some(
                    BoundModel::Constant(o as i64),
                )
                &&& attr_value(es[k], 0x38) is None ==> after.last().location is None
            } else {
                after == before
            }
        }),
        members_among(es, seq![], unit).len() == 0,
{
    assert(below.push(k).drop_last() =~= below);
    let before = members_among(es, below, unit);
    assert(members_among(es, below.push(k), unit).len() > before.len() ==> members_among(
        es,
        below.push(k),
        unit,
    ).drop_last() =~= before);
}

/// An array is written with the number of its elements: one more than its upper bound
/// is above its lower bound, which is 0 where it is not given. The bounds stand in the
/// first `DW_TAG_subrange_type` below it; where that has no `DW_AT_upper_bound`, its
/// `DW_AT_count` is taken for one.
pub proof fn arrays_are_written_with_their_length(
    u: UnitView,
    i: int,
    ns: Seq<Seq<char>>,
    inner: Seq<char>,
    k: int,
    lower: int,
    upper: int,
)
    requires
        u.entries[i].tag == 0x01,
        referred(u, i) is Some,
        0 <= k < children(u.entries, i).len(),
        u.entries[children(u.entries, i)[k]].tag == 0x21,
        forall|j: int| 0 <= j < k ==> u.entries[#[trigger] children(u.entries, i)[j]].tag != 0x21,
        match attr_value(u.entries[children(u.entries, i)[k]], 0x2f) {
            Some(_) => constant_in(u.entries[children(u.entries, i)[k]], 0x2f) == Some(upper),
            None => constant_in(u.entries[children(u.entries, i)[k]], 0x37) == Some(upper),
        },
        match attr_value(u.entries[children(u.entries, i)[k]], 0x22) {
            Some(_) => constant_in(u.entries[children(u.entries, i)[k]], 0x22) == Some(lower),
            None => lower == 0,
        },
        i64::MIN <= upper - lower <= i64::MAX - 1,
    ensures
        declared(u, i, ns) is Some,
        exists|digits: Seq<char>| #[trigger]
            spells(digits, upper - lower + 1) && written_over(declared(u, i, ns), inner) == inner
                + "["@ + digits + "]"@,
{
    let below = children(u.entries, i);
    first_subrange(u.entries, below, k);
    numerals_spell_numbers(upper - lower + 1);
    let d = declared(u, i, ns);
    assert(d->0->Array_lower_bound == BoundModel::Constant(lower as i64));
    assert(d->0->Array_upper_bound == Some(BoundModel::Constant(upper as i64)));
    assert(element_count(d->0->Array_lower_bound, d->0->Array_upper_bound) == Some(
        (upper - lower + 1) as i64,
    ));
}

proof fn first_subrange(es: Seq<EntryModel>, below: Seq<int>, k: int)
    requires
        0 <= k < below.len(),
        es[below[k]].tag == 0x21,
        forall|j: int| 0 <= j < k ==> es[#[trigger] below[j]].tag != 0x21,
    ensures
        bounds_among(es, below) == bounds_among(es, seq![below[k]]),
    decreases below.len(),
{
    if k > 0 {
        assert(es[below[0]].tag != 0x21);
        let rest = below.skip(1);
        assert(rest[k - 1] == below[k]);
        assert forall|j: int| 0 <= j < k - 1 implies es[#[trigger] rest[j]].tag != 0x21 by {
            assert(rest[j] == below[j + 1]);
        }
        first_subrange(es, rest, k - 1);
    }
}

// ---------------------------------------------------------------------------
// Finding declarations
// ---------------------------------------------------------------------------

proof fn declarations_stay(u: UnitView, i: int, n: int)
    requires
        0 <= i < n <= u.entries.len(),
        forall|j: int| i < j < n ==> (#[trigger] u.entries[j]).offset != u.entries[i].offset,
        forall|j: int| 0 <= j < i ==> (#[trigger] u.entries[j]).offset != u.entries[i].offset,
    ensures
        ({
            let d = declared(u, i, namespaces(u.entries, path_to(u.entries, i)));
            let all = unit_decls(u, n);
            &&& all.contains_key(u.entries[i].offset) <==> d is Some
            &&& d is Some ==> all[u.entries[i].offset] == d->0
        }),
    decreases n,
{
    if n - 1 == i {
        nothing_before(u, i, i);
    } else {
        declarations_stay(u, i, n - 1);
        assert(u.entries[n - 1].offset != u.entries[i].offset);
    }
}

proof fn nothing_before(u: UnitView, i: int, n: int)
    requires
        n <= i < u.entries.len(),
        forall|j: int| 0 <= j < n ==> (#[trigger] u.entries[j]).offset != u.entries[i].offset,
    ensures
        !unit_decls(u, n).contains_key(u.entries[i].offset),
    decreases n,
{
    if n > 0 {
        assert(u.entries[n - 1].offset != u.entries[i].offset);
        nothing_before(u, i, n - 1);
    }
}

/// A type is found by the unit and the offset of the entry that declares it, and is
/// what that entry declares in the namespaces that it stands in.
pub proof fn types_are_found_by_their_entry(units: Seq<UnitView>, n: int, i: int, id: TypeId)
    requires
        0 <= n < units.len(),
        0 <= i < units[n].entries.len(),
        i == 0 || is_below(units[n].entries, 0, i),
        id.unit_index == n,
        id.unit_ofs == units[n].entries[i].offset,
        forall|j: int|
            0 <= j < units[n].entries.len() && j != i ==> (#[trigger] units[n].entries[j]).offset
                != id.unit_ofs,
    ensures
        decl_at(graph_of(units), id) == declared(
            units[n],
            i,
            namespaces(units[n].entries, path_to(units[n].entries, i)),
        ),
{
    let u = units[n];
    let end = root_end(u.entries);
    ends_behind(u.entries, i, 1);
    super::dwarf::entry::subtree_end_bounds(u.entries, 0, 1);
    declarations_stay(u, i, end);
}

proof fn ends_behind(es: Seq<EntryModel>, i: int, from: int)
    requires
        1 <= from <= es.len(),
        i == 0 || is_below(es, 0, i),
    ensures
        i < from || i < subtree_end(es, 0, from),
    decreases es.len() - from,
{
    if from < es.len() && i >= from {
        assert(es[from].depth > es[0].depth);
        ends_behind(es, i, from + 1);
        super::dwarf::entry::subtree_end_bounds(es, 0, from + 1);
    }
}

/// One more entry below a structure is one more nested type where it declares a type
/// and has a name; it is found by that name, the first of it.
pub proof fn nested_types_are_found(
    es: Seq<EntryModel>,
    below: Seq<int>,
    k: int,
    unit: usize,
    name: Seq<char>,
)
    ensures
        ({
            let before = nested_among(es, below, unit);
            let after = nested_among(es, below.push(k), unit);
            let tag = es[k].tag;
            let declares = tag == 0x24 || tag == 0x0f || tag == 0x10 || tag == 0x42 || tag == 0x16
                || tag == 0x26 || tag == 0x35 || tag == 0x47 || tag == 0x37 || tag == 0x01 || tag
                == 0x13 || tag == 0x17 || tag == 0x02;
            match name_of(es[k]) {
                Some(called) if declares => {
                    &&& after.len() == before.len() + 1
                    &&& after.drop_last() == before
                    &&& after.last().0 == called
                    &&& after.last().1.unit_index == unit
                    &&& after.last().1.unit_ofs == es[k].offset
                    &&& find_nested(before, name) is None && called == name ==> find_nested(
                        after,
                        name,
                    ) == Some(after.last().1)
                    &&& find_nested(before, name) is Some ==> find_nested(after, name)
                        == find_nested(before, name)
                },
                _ => after == before,
            }
        }),
        nested_among(es, seq![], unit).len() == 0,
{
    assert(below.push(k).drop_last() =~= below);
    let before = nested_among(es, below, unit);
    let after = nested_among(es, below.push(k), unit);
    if after.len() > before.len() {
        assert(after.drop_last() =~= before);
        assert(after =~= before.push(after.last()));
        found_behind(before, after.last(), name);
    }
}

proof fn found_behind(all: Seq<(Seq<char>, TypeId)>, last: (Seq<char>, TypeId), name: Seq<char>)
    ensures
        find_nested(all, name) is Some ==> find_nested(all.push(last), name) == find_nested(
            all,
            name,
        ),
        find_nested(all, name) is None && last.0 == name ==> find_nested(all.push(last), name)
            == Some(last.1),
    decreases all.len(),
{
    let more = all.push(last);
    if all.len() == 0 {
        assert(more[0] == last);
    } else {
        assert(more[0] == all[0]);
        assert(more.skip(1) =~= all.skip(1).push(last));
        found_behind(all.skip(1), last, name);
    }
}

/// Something stands in a namespace of a plain name where that is the outermost of its
/// namespaces. An empty name is no namespace.
pub proof fn namespaces_are_matched_from_the_outermost(ns: Seq<Seq<char>>, target: Seq<char>)
    requires
        !holds(target, "::"@),
    ensures
        ns_matches(ns, target) <==> target.len() > 0 && ns.len() > 0 && ns[0] == target,
{
    first_from_is_first(target, "::"@, 0);
    if let Some(at) = first_from(target, "::"@, 0) {
        assert(occurs_at(target, "::"@, at));
    }
    let one = pieces(target, "::"@);
    assert(one == seq![target]);
    if ns.len() > 0 && ns[0] == target {
        assert(one =~= ns.subrange(0, 1));
    }
    if one.is_prefix_of(ns) {
        assert(one[0] == ns.subrange(0, 1)[0]);
    }
}

} // verus!
