//! Debugging information entries: their attributes, and the tree they form.
//!
//! The entries of a unit stand in one list, in the order in which a
//! depth-first walk meets them, each with its depth. That list is the tree:
//! the children of an entry are the entries one level below it that follow it
//! before the walk comes back to its own level.
use vstd::prelude::*;

use crate::bytes::copy_bytes;
use super::constants::{DW_AT_EXPORT_SYMBOLS, DW_AT_HIGH_PC, DW_AT_LOW_PC, DW_AT_NAME, DW_AT_TYPE,
    DW_TAG_NAMESPACE};

verus! {

broadcast use vstd::seq_lib::group_seq_properties;

// ---------------------------------------------------------------------------
// Attributes
// ---------------------------------------------------------------------------

/// The value of an attribute, as far as the debugger reads it.
#[derive(Debug)]
pub enum AttrValue {
    /// An address of the program.
    Addr(u64),
    /// A constant of one, two, four or eight bytes whose sign is not known.
    Data(u64),
    /// An unsigned constant.
    Udata(u64),
    /// A signed constant.
    Sdata(i64),
    Flag(bool),
    /// How a base type is encoded.
    Encoding(u8),
    /// The offset of another entry of the same unit.
    UnitRef(usize),
    /// The bytes of an expression.
    Exprloc(Vec<u8>),
    /// Any other form.
    Other,
}

/// The mathematical value of an [`AttrValue`].
pub enum ValueModel {
    Addr(u64),
    Data(u64),
    Udata(u64),
    Sdata(i64),
    Flag(bool),
    Encoding(u8),
    UnitRef(usize),
    Exprloc(Seq<u8>),
    Other,
}

impl View for AttrValue {
    type V = ValueModel;

    open spec fn view(&self) -> ValueModel {
        match self {
            AttrValue::Addr(a) => ValueModel::Addr(*a),
            AttrValue::Data(d) => ValueModel::Data(*d),
            AttrValue::Udata(u) => ValueModel::Udata(*u),
            AttrValue::Sdata(s) => ValueModel::Sdata(*s),
            AttrValue::Flag(b) => ValueModel::Flag(*b),
            AttrValue::Encoding(e) => ValueModel::Encoding(*e),
            AttrValue::UnitRef(o) => ValueModel::UnitRef(*o),
            AttrValue::Exprloc(e) => ValueModel::Exprloc(e@),
            AttrValue::Other => ValueModel::Other,
        }
    }
}

/// The constant that a value spells where it is read as unsigned.
pub open spec fn udata_of(value: ValueModel) -> Option<u64> {
    match value {
        ValueModel::Data(d) => Some(d),
        ValueModel::Udata(u) => Some(u),
        ValueModel::Sdata(s) => if s >= 0 {
            Some(s as u64)
        } else {
            None
        },
        _ => None,
    }
}

impl AttrValue {
    /// The constant that this value spells where it is read as unsigned.
    pub fn udata_value(&self) -> (r: Option<u64>)
        ensures
            r == udata_of(self@),
    {
        match self {
            AttrValue::Data(d) => Some(*d),
            AttrValue::Udata(u) => Some(*u),
            AttrValue::Sdata(s) => if *s >= 0 {
                Some(*s as u64)
            } else {
                None
            },
            _ => None,
        }
    }
}

/// An expression that holds from `begin` up to, not including, `end`.
#[derive(Debug)]
pub struct LocationRange {
    pub begin: u64,
    pub end: u64,
    pub expr: Vec<u8>,
}

/// The mathematical value of a [`LocationRange`].
pub struct RangeModel {
    pub begin: u64,
    pub end: u64,
    pub expr: Seq<u8>,
}

impl View for LocationRange {
    type V = RangeModel;

    open spec fn view(&self) -> RangeModel {
        RangeModel { begin: self.begin, end: self.end, expr: self.expr@ }
    }
}

/// An attribute: its name, its value, and what the value refers to.
#[derive(Debug)]
pub struct Attr {
    pub name: u16,
    pub value: AttrValue,
    /// The text, where the value is or refers to a string.
    pub text: Option<String>,
    /// The number of the location list, where the value is one.
    pub list: Option<usize>,
    /// The ranges, where the value refers to a location list.
    pub locations: Option<Vec<LocationRange>>,
}

/// The mathematical value of an [`Attr`].
pub struct AttrModel {
    pub name: u16,
    pub value: ValueModel,
    pub text: Option<Seq<char>>,
    pub list: Option<usize>,
    pub locations: Option<Seq<RangeModel>>,
}

/// The texts that optional strings hold.
pub open spec fn text_of(s: Option<String>) -> Option<Seq<char>> {
    match s {
        Some(t) => Some(t@),
        None => None,
    }
}

/// The ranges of a location list.
pub open spec fn ranges_of(v: Seq<LocationRange>) -> Seq<RangeModel> {
    v.map_values(|r: LocationRange| r@)
}

impl View for Attr {
    type V = AttrModel;

    open spec fn view(&self) -> AttrModel {
        AttrModel {
            name: self.name,
            value: self.value@,
            text: text_of(self.text),
            list: self.list,
            locations: match self.locations {
                Some(v) => Some(ranges_of(v@)),
                None => None,
            },
        }
    }
}

// ---------------------------------------------------------------------------
// Entries
// ---------------------------------------------------------------------------

/// A debugging information entry.
#[derive(Debug)]
pub struct DieEntry {
    /// The offset of the entry in its unit.
    pub offset: usize,
    /// How deep the entry stands in the tree.
    pub depth: isize,
    pub tag: u16,
    pub attrs: Vec<Attr>,
}

/// The mathematical value of a [`DieEntry`].
pub struct EntryModel {
    pub offset: usize,
    pub depth: isize,
    pub tag: u16,
    pub attrs: Seq<AttrModel>,
}

/// The attributes of an entry.
pub open spec fn attrs_of(v: Seq<Attr>) -> Seq<AttrModel> {
    v.map_values(|a: Attr| a@)
}

impl View for DieEntry {
    type V = EntryModel;

    open spec fn view(&self) -> EntryModel {
        EntryModel {
            offset: self.offset,
            depth: self.depth,
            tag: self.tag,
            attrs: attrs_of(self.attrs@),
        }
    }
}

/// The entries of a unit.
pub open spec fn entries_of(v: Seq<DieEntry>) -> Seq<EntryModel> {
    v.map_values(|e: DieEntry| e@)
}

/// The first attribute called `name`.
pub open spec fn find_attr(attrs: Seq<AttrModel>, name: u16) -> Option<AttrModel>
    decreases attrs.len(),
{
    if attrs.len() == 0 {
        None
    } else if attrs[0].name == name {
        Some(attrs[0])
    } else {
        find_attr(attrs.skip(1), name)
    }
}

/// The value of the attribute called `name`.
pub open spec fn attr_value(e: EntryModel, name: u16) -> Option<ValueModel> {
    match find_attr(e.attrs, name) {
        Some(a) => Some(a.value),
        None => None,
    }
}

/// The text of the attribute called `name`.
pub open spec fn attr_text(e: EntryModel, name: u16) -> Option<Seq<char>> {
    match find_attr(e.attrs, name) {
        Some(a) => a.text,
        None => None,
    }
}

/// The name of an entry.
pub open spec fn name_of(e: EntryModel) -> Option<Seq<char>> {
    attr_text(e, DW_AT_NAME)
}

/// The entry of the same unit that is the type of this one.
pub open spec fn type_offset(e: EntryModel) -> Option<usize> {
    match attr_value(e, DW_AT_TYPE) {
        Some(ValueModel::UnitRef(o)) => Some(o),
        _ => None,
    }
}

/// The first of the ranges that holds `pc`.
pub open spec fn range_at(ranges: Seq<RangeModel>, pc: u64) -> Option<Seq<u8>>
    decreases ranges.len(),
{
    if ranges.len() == 0 {
        None
    } else if ranges[0].begin <= pc < ranges[0].end {
        Some(ranges[0].expr)
    } else {
        range_at(ranges.skip(1), pc)
    }
}

/// The expression that the attribute called `name` holds at `pc`: its own, or
/// that of the first range that holds `pc`.
pub open spec fn expression_at(e: EntryModel, name: u16, pc: u64) -> Option<Seq<u8>> {
    match find_attr(e.attrs, name) {
        Some(a) => match a.value {
            ValueModel::Exprloc(x) => Some(x),
            _ => match a.locations {
                Some(ranges) => range_at(ranges, pc),
                None => None,
            },
        },
        None => None,
    }
}

/// The address that the attribute called `name` holds.
pub open spec fn attr_address(e: EntryModel, name: u16) -> Option<u64> {
    match attr_value(e, name) {
        Some(ValueModel::Addr(a)) => Some(a),
        _ => None,
    }
}

/// The addresses that an entry covers: from its low address up to, not
/// including, its high address, which may be given as an offset from the low.
pub open spec fn pc_range(e: EntryModel) -> Option<(u64, u64)> {
    match attr_value(e, DW_AT_LOW_PC) {
        Some(ValueModel::Addr(low)) => match attr_value(e, DW_AT_HIGH_PC) {
            Some(ValueModel::Addr(high)) => Some((low, high)),
            Some(ValueModel::Udata(len)) => Some((low, vstd::wrapping::u64_specs::wrapping_add(low, len))),
            _ => None,
        },
        _ => None,
    }
}

impl DieEntry {
    /// The first attribute called `name`.
    pub fn attr(&self, name: u16) -> (r: Option<&Attr>)
        ensures
            match r {
                Some(a) => find_attr(self@.attrs, name) == Some(a@),
                None => find_attr(self@.attrs, name) is None,
            },
    {
        let ghost all = self@.attrs;
        let mut i: usize = 0;
        assert(all.skip(0) =~= all);
        while i < self.attrs.len()
            invariant
                i <= self.attrs@.len(),
                all == self@.attrs,
                find_attr(all, name) == find_attr(all.skip(i as int), name),
            decreases self.attrs@.len() - i,
        {
            assert(all.skip(i as int)[0] == self.attrs@[i as int]@);
            if self.attrs[i].name == name {
                return Some(&self.attrs[i]);
            }
            assert(all.skip(i as int).skip(1) =~= all.skip(i + 1));
            i = i + 1;
        }
        None
    }

    /// The value of the attribute called `name`.
    pub fn attr_value(&self, name: u16) -> (r: Option<&AttrValue>)
        ensures
            match r {
                Some(v) => attr_value(self@, name) == Some(v@),
                None => attr_value(self@, name) is None,
            },
    {
        match self.attr(name) {
            Some(a) => Some(&a.value),
            None => None,
        }
    }

    /// The text of the attribute called `name`.
    pub fn attr_text(&self, name: u16) -> (r: Option<String>)
        ensures
            text_of(r) == attr_text(self@, name),
    {
        match self.attr(name) {
            Some(a) => match &a.text {
                Some(t) => Some(crate::text::own(t.as_str())),
                None => None,
            },
            None => None,
        }
    }

    /// The address that the attribute called `name` holds.
    pub fn attr_address(&self, name: u16) -> (r: Option<u64>)
        ensures
            r == attr_address(self@, name),
    {
        match self.attr_value(name) {
            Some(AttrValue::Addr(a)) => Some(*a),
            _ => None,
        }
    }

    /// The entry of the same unit that is the type of this one.
    pub fn type_offset(&self) -> (r: Option<usize>)
        ensures
            r == type_offset(self@),
    {
        match self.attr_value(DW_AT_TYPE) {
            Some(AttrValue::UnitRef(o)) => Some(*o),
            _ => None,
        }
    }

    /// The expression that the attribute called `name` holds at `pc`.
    pub fn expression(&self, name: u16, pc: u64) -> (r: Option<Vec<u8>>)
        ensures
            match r {
                Some(x) => expression_at(self@, name, pc) == Some(x@),
                None => expression_at(self@, name, pc) is None,
            },
    {
        let a = match self.attr(name) {
            Some(a) => a,
            None => {
                return None;
            },
        };
        if let AttrValue::Exprloc(x) = &a.value {
            return Some(copy_bytes(x));
        }
        let ranges = match &a.locations {
            Some(ranges) => ranges,
            None => {
                return None;
            },
        };
        let ghost all = ranges_of(ranges@);
        let mut i: usize = 0;
        assert(all.skip(0) =~= all);
        while i < ranges.len()
            invariant
                i <= ranges@.len(),
                all == ranges_of(ranges@),
                range_at(all, pc) == range_at(all.skip(i as int), pc),
                expression_at(self@, name, pc) == range_at(all, pc),
            decreases ranges@.len() - i,
        {
            assert(all.skip(i as int)[0] == ranges@[i as int]@);
            if ranges[i].begin <= pc && pc < ranges[i].end {
                return Some(copy_bytes(&ranges[i].expr));
            }
            assert(all.skip(i as int).skip(1) =~= all.skip(i + 1));
            i = i + 1;
        }
        None
    }

    /// The addresses that this entry covers.
    pub fn pc_range(&self) -> (r: Option<(u64, u64)>)
        ensures
            r == pc_range(self@),
    {
        let low: u64 = match self.attr_value(DW_AT_LOW_PC) {
            Some(AttrValue::Addr(a)) => *a,
            _ => {
                return None;
            },
        };
        match self.attr_value(DW_AT_HIGH_PC) {
            Some(AttrValue::Addr(a)) => Some((low, *a)),
            Some(AttrValue::Udata(len)) => Some((low, low.wrapping_add(*len))),
            _ => None,
        }
    }
}

// ---------------------------------------------------------------------------
// The tree
// ---------------------------------------------------------------------------

/// The children of entry `i` that stand at `from` or behind it.
pub open spec fn children_from(es: Seq<EntryModel>, i: int, from: int) -> Seq<int>
    decreases es.len() - from,
{
    if from >= es.len() || es[from].depth <= es[i].depth {
        seq![]
    } else if es[from].depth == es[i].depth + 1 {
        seq![from] + children_from(es, i, from + 1)
    } else {
        children_from(es, i, from + 1)
    }
}

/// The children of entry `i`, in order.
pub open spec fn children(es: Seq<EntryModel>, i: int) -> Seq<int> {
    children_from(es, i, i + 1)
}

/// `path` without the entries at its end that are not above `depth`.
pub open spec fn path_above(es: Seq<EntryModel>, path: Seq<int>, depth: isize) -> Seq<int>
    decreases path.len(),
{
    if path.len() > 0 && es[path.last()].depth >= depth {
        path_above(es, path.drop_last(), depth)
    } else {
        path
    }
}

/// The way down to entry `i`: the entries that it stands under, from the
/// outermost, and the entry itself.
pub open spec fn path_to(es: Seq<EntryModel>, i: int) -> Seq<int>
    decreases i + 1,
{
    if i < 0 {
        seq![]
    } else {
        path_above(es, path_to(es, i - 1), es[i].depth).push(i)
    }
}

/// The namespace that an entry opens. An exported namespace is an inline one
/// (`__2` in `std::__2`), which names leave out.
pub open spec fn namespace_part(e: EntryModel) -> Option<Seq<char>> {
    if e.tag != DW_TAG_NAMESPACE || attr_value(e, DW_AT_EXPORT_SYMBOLS) == Some(
        ValueModel::Flag(true),
    ) {
        None
    } else {
        name_of(e)
    }
}

/// The namespaces that the entries of a path open, from the outermost.
pub open spec fn namespaces(es: Seq<EntryModel>, path: Seq<int>) -> Seq<Seq<char>>
    decreases path.len(),
{
    if path.len() == 0 {
        seq![]
    } else {
        let outer = namespaces(es, path.drop_last());
        match namespace_part(es[path.last()]) {
            Some(part) => outer.push(part),
            None => outer,
        }
    }
}

/// The index of the entry at `offset`.
pub open spec fn index_at(es: Seq<EntryModel>, offset: usize) -> Option<int>
    decreases es.len(),
{
    if es.len() == 0 {
        None
    } else if es.last().offset == offset {
        Some(es.len() - 1)
    } else {
        index_at(es.drop_last(), offset)
    }
}

/// Where an entry is found, it stands at the offset asked for.
pub proof fn index_at_found(es: Seq<EntryModel>, offset: usize)
    ensures
        match index_at(es, offset) {
            Some(i) => 0 <= i < es.len() && es[i].offset == offset,
            None => forall|i: int| 0 <= i < es.len() ==> es[i].offset != offset,
        },
    decreases es.len(),
{
    if es.len() > 0 && es.last().offset != offset {
        index_at_found(es.drop_last(), offset);
        assert forall|i: int|
            0 <= i < es.len() && index_at(es, offset) is None implies es[i].offset != offset by {
            if i < es.len() - 1 {
                assert(es.drop_last()[i] == es[i]);
            }
        }
    }
}

/// Every child stands behind its parent, one level below it, and nothing
/// between the two comes back to the parent's level.
pub proof fn children_are_below(es: Seq<EntryModel>, i: int, from: int)
    requires
        0 <= i < from,
        forall|k: int| i < k < from && k < es.len() ==> es[k].depth > es[i].depth,
    ensures
        forall|n: int|
            0 <= n < children_from(es, i, from).len() ==> {
                let c = #[trigger] children_from(es, i, from)[n];
                &&& from <= c < es.len()
                &&& es[c].depth == es[i].depth + 1
                &&& forall|k: int| i < k <= c ==> es[k].depth > es[i].depth
            },
    decreases es.len() - from,
{
    if from < es.len() && es[from].depth > es[i].depth {
        children_are_below(es, i, from + 1);
        let rest = children_from(es, i, from + 1);
        assert forall|n: int| 0 <= n < children_from(es, i, from).len() implies {
            let c = #[trigger] children_from(es, i, from)[n];
            &&& from <= c < es.len()
            &&& es[c].depth == es[i].depth + 1
            &&& forall|k: int| i < k <= c ==> es[k].depth > es[i].depth
        } by {
            if es[from].depth == es[i].depth + 1 {
                if n > 0 {
                    assert(children_from(es, i, from)[n] == rest[n - 1]);
                }
            } else {
                assert(children_from(es, i, from)[n] == rest[n]);
            }
        }
    }
}

/// The children of entry `i`, in order.
pub fn child_indices(es: &Vec<DieEntry>, i: usize) -> (r: Vec<usize>)
    requires
        i < es@.len(),
    ensures
        r@.map_values(|c: usize| c as int) == children(entries_of(es@), i as int),
        forall|n: int| 0 <= n < r@.len() ==> i < #[trigger] r@[n] < es@.len(),
{
    let ghost all = entries_of(es@);
    let mut out: Vec<usize> = Vec::new();
    let len: usize = es.len();
    let mut j: usize = i + 1;
    assert(out@.map_values(|c: usize| c as int) + children_from(all, i as int, j as int)
        =~= children(all, i as int));
    while j < es.len() && es[j].depth > es[i].depth
        invariant
            all == entries_of(es@),
            len == es@.len(),
            i < j <= es@.len(),
            out@.map_values(|c: usize| c as int) + children_from(all, i as int, j as int)
                == children(all, i as int),
            forall|n: int| 0 <= n < out@.len() ==> i < #[trigger] out@[n] < es@.len(),
        decreases es@.len() - j,
    {
        let ghost before = out@;
        assert(all[j as int] == es@[j as int]@);
        assert(all[i as int] == es@[i as int]@);
        if es[j].depth - 1 == es[i].depth {
            out.push(j);
            assert(out@.map_values(|c: usize| c as int) =~= before.map_values(
                |c: usize| c as int,
            ).push(j as int));
            assert(out@.map_values(|c: usize| c as int) + children_from(all, i as int, j + 1)
                =~= before.map_values(|c: usize| c as int) + children_from(
                all,
                i as int,
                j as int,
            ));
        }
        j = j + 1;
    }
    assert(children_from(all, i as int, j as int) =~= seq![]) by {
        if j < es@.len() {
            assert(all[j as int] == es@[j as int]@);
            assert(all[i as int] == es@[i as int]@);
        }
    }
    assert(out@.map_values(|c: usize| c as int) =~= children(all, i as int));
    out
}

/// The index of the entry at `offset`.
pub fn find_entry(es: &Vec<DieEntry>, offset: usize) -> (r: Option<usize>)
    ensures
        match r {
            Some(i) => index_at(entries_of(es@), offset) == Some(i as int) && i < es@.len(),
            None => index_at(entries_of(es@), offset) is None,
        },
{
    let ghost all = entries_of(es@);
    let mut i: usize = es.len();
    assert(all.take(all.len() as int) =~= all);
    while i > 0
        invariant
            all == entries_of(es@),
            i <= es@.len(),
            index_at(all, offset) == index_at(all.take(i as int), offset),
        decreases i,
    {
        i = i - 1;
        assert(all.take(i + 1).drop_last() =~= all.take(i as int));
        assert(all.take(i + 1).last() == es@[i as int]@);
        if es[i].offset == offset {
            return Some(i);
        }
    }
    None
}

/// The namespace that an entry opens.
pub fn namespace_component(e: &DieEntry) -> (r: Option<String>)
    ensures
        text_of(r) == namespace_part(e@),
{
    if e.tag != DW_TAG_NAMESPACE {
        return None;
    }
    if let Some(AttrValue::Flag(exported)) = e.attr_value(DW_AT_EXPORT_SYMBOLS) {
        if *exported {
            return None;
        }
    }
    e.attr_text(DW_AT_NAME)
}

// ---------------------------------------------------------------------------
// The way down to an entry
// ---------------------------------------------------------------------------

/// The indices of a path.
pub open spec fn as_path(v: Seq<usize>) -> Seq<int> {
    v.map_values(|i: usize| i as int)
}

/// Turns the way down to the entry before `i` into the way down to `i`.
pub fn step_path(es: &Vec<DieEntry>, path: &mut Vec<usize>, i: usize)
    requires
        i < es@.len(),
        as_path(old(path)@) == path_to(entries_of(es@), i - 1),
        forall|n: int| 0 <= n < old(path)@.len() ==> (#[trigger] old(path)@[n]) < i,
    ensures
        as_path(final(path)@) == path_to(entries_of(es@), i as int),
        forall|n: int| 0 <= n < final(path)@.len() ==> (#[trigger] final(path)@[n]) <= i,
{
    let ghost all = entries_of(es@);
    let ghost depth = all[i as int].depth;
    while path.len() > 0 && es[path[path.len() - 1]].depth >= es[i].depth
        invariant
            i < es@.len(),
            all == entries_of(es@),
            depth == es@[i as int].depth,
            path_above(all, as_path(path@), depth) == path_above(
                all,
                path_to(all, i - 1),
                depth,
            ),
            forall|n: int| 0 <= n < path@.len() ==> (#[trigger] path@[n]) < i,
        decreases path@.len(),
    {
        let ghost before = path@;
        assert(all[before.last() as int] == es@[before.last() as int]@);
        path.pop();
        assert(as_path(path@) =~= as_path(before).drop_last());
        assert(as_path(before).last() == before.last() as int);
    }
    assert(path_above(all, as_path(path@), depth) == as_path(path@)) by {
        if path@.len() > 0 {
            assert(as_path(path@).last() == path@.last() as int);
            assert(all[path@.last() as int] == es@[path@.last() as int]@);
        }
    }
    let ghost above = path@;
    path.push(i);
    assert(as_path(path@) =~= as_path(above).push(i as int));
}

/// The namespaces around and at entry `i`, from the outermost.
pub fn namespaces_at(es: &Vec<DieEntry>, i: usize) -> (r: Vec<String>)
    requires
        i < es@.len(),
    ensures
        crate::text::texts(r@) == namespaces(entries_of(es@), path_to(entries_of(es@), i as int)),
{
    let ghost all = entries_of(es@);
    let mut path: Vec<usize> = Vec::new();
    let mut k: usize = 0;
    let len: usize = es.len();
    assert(as_path(path@) =~= path_to(all, -1));
    while k <= i
        invariant
            i < len == es@.len(),
            k <= i + 1,
            all == entries_of(es@),
            as_path(path@) == path_to(all, k - 1),
            forall|n: int| 0 <= n < path@.len() ==> (#[trigger] path@[n]) < k,
        decreases i + 1 - k,
    {
        step_path(es, &mut path, k);
        k = k + 1;
    }
    path_namespaces(es, &path)
}

/// The namespaces that the entries of a path open, from the outermost.
pub fn path_namespaces(es: &Vec<DieEntry>, path: &Vec<usize>) -> (r: Vec<String>)
    requires
        forall|n: int| 0 <= n < path@.len() ==> (#[trigger] path@[n]) < es@.len(),
    ensures
        crate::text::texts(r@) == namespaces(entries_of(es@), as_path(path@)),
{
    let ghost all = entries_of(es@);
    let ghost way = as_path(path@);
    let mut out: Vec<String> = Vec::new();
    let mut n: usize = 0;
    assert(crate::text::texts(out@) =~= namespaces(all, way.take(0)));
    while n < path.len()
        invariant
            all == entries_of(es@),
            way == as_path(path@),
            n <= path@.len(),
            forall|m: int| 0 <= m < path@.len() ==> (#[trigger] path@[m]) < es@.len(),
            crate::text::texts(out@) == namespaces(all, way.take(n as int)),
        decreases path@.len() - n,
    {
        let ghost before = out@;
        let e = &es[path[n]];
        assert(way.take(n + 1).drop_last() =~= way.take(n as int));
        assert(way.take(n + 1).last() == path@[n as int]);
        assert(all[path@[n as int] as int] == e@);
        if let Some(part) = namespace_component(e) {
            out.push(part);
            assert(crate::text::texts(out@) =~= crate::text::texts(before).push(part@));
        }
        n = n + 1;
    }
    assert(way.take(way.len() as int) =~= way);
    out
}

// ---------------------------------------------------------------------------
// Walking
// ---------------------------------------------------------------------------

/// What a walk does at an entry.
#[derive(Debug, Clone, Copy, PartialEq, Eq, Structural)]
pub enum Visit {
    /// Traverse the next node, including children
    Continue,
    /// Skip the children of this node
    SkipChildren,
    /// Stop traversal immediately
    Break,
}

/// The first entry behind `i`, from `from` on, that is not below `i`.
pub open spec fn subtree_end(es: Seq<EntryModel>, i: int, from: int) -> int
    decreases es.len() - from,
{
    if from >= es.len() || es[from].depth <= es[i].depth {
        from
    } else {
        subtree_end(es, i, from + 1)
    }
}

/// How many entries there are from entry `i` down.
pub open spec fn subtree_size(es: Seq<EntryModel>, i: int) -> int {
    subtree_end(es, i, i + 1) - i
}

/// How many entries there are from the entries of `queue` down.
pub open spec fn queue_size(es: Seq<EntryModel>, queue: Seq<int>) -> int
    decreases queue.len(),
{
    if queue.len() == 0 {
        0
    } else {
        subtree_size(es, queue[0]) + queue_size(es, queue.skip(1))
    }
}

/// The entries up to the end of a subtree are below its root, and what stands
/// at the end is not.
pub proof fn subtree_end_bounds(es: Seq<EntryModel>, i: int, from: int)
    requires
        from <= es.len(),
    ensures
        from <= subtree_end(es, i, from) <= es.len(),
        forall|k: int| from <= k < subtree_end(es, i, from) ==> es[k].depth > es[i].depth,
        subtree_end(es, i, from) < es.len() ==> es[subtree_end(es, i, from)].depth
            <= es[i].depth,
    decreases es.len() - from,
{
    if from < es.len() && es[from].depth > es[i].depth {
        subtree_end_bounds(es, i, from + 1);
    }
}

/// Skipping entries below a child skips no child.
proof fn children_resume(es: Seq<EntryModel>, i: int, from: int, to: int)
    requires
        from <= to <= es.len(),
        forall|k: int| from <= k < to ==> es[k].depth > es[i].depth + 1,
    ensures
        children_from(es, i, from) == children_from(es, i, to),
        subtree_end(es, i, from) == subtree_end(es, i, to),
    decreases to - from,
{
    if from < to {
        children_resume(es, i, from + 1, to);
    }
}

/// The children of an entry, with all below them, are all that is below it.
proof fn children_fit(es: Seq<EntryModel>, i: int, from: int)
    requires
        0 <= i < from <= es.len(),
    ensures
        queue_size(es, children_from(es, i, from)) <= subtree_end(es, i, from) - from,
        forall|n: int|
            0 <= n < children_from(es, i, from).len() ==> 0 <= #[trigger] children_from(
                es,
                i,
                from,
            )[n] < es.len(),
    decreases es.len() - from,
{
    subtree_end_bounds(es, i, from);
    if from < es.len() && es[from].depth > es[i].depth {
        if es[from].depth == es[i].depth + 1 {
            let end = subtree_end(es, from, from + 1);
            subtree_end_bounds(es, from, from + 1);
            children_resume(es, i, from + 1, end);
            children_fit(es, i, end);
            let all = children_from(es, i, from);
            let rest = children_from(es, i, from + 1);
            assert(all.skip(1) =~= rest);
            assert forall|n: int| 0 <= n < all.len() implies 0 <= #[trigger] all[n] < es.len() by {
                if n > 0 {
                    assert(all[n] == rest[n - 1]);
                }
            }
        } else {
            children_fit(es, i, from + 1);
        }
    }
}

proof fn queue_size_adds(es: Seq<EntryModel>, a: Seq<int>, b: Seq<int>)
    ensures
        queue_size(es, a + b) == queue_size(es, a) + queue_size(es, b),
    decreases a.len(),
{
    if a.len() == 0 {
        assert(a + b =~= b);
    } else {
        queue_size_adds(es, a.skip(1), b);
        assert((a + b).skip(1) =~= a.skip(1) + b);
    }
}

proof fn queue_size_bounds(es: Seq<EntryModel>, queue: Seq<int>)
    requires
        forall|n: int| 0 <= n < queue.len() ==> 0 <= #[trigger] queue[n] < es.len(),
    ensures
        queue_size(es, queue) >= queue.len(),
    decreases queue.len(),
{
    if queue.len() > 0 {
        subtree_end_bounds(es, queue[0], queue[0] + 1);
        assert forall|n: int| 0 <= n < queue.skip(1).len() implies 0 <= #[trigger] queue.skip(
            1,
        )[n] < es.len() by {
            assert(queue.skip(1)[n] == queue[n + 1]);
        }
        queue_size_bounds(es, queue.skip(1));
    }
}

/// Whether `queue` holds entries only.
pub open spec fn is_queue(es: Seq<EntryModel>, queue: Seq<int>) -> bool {
    forall|n: int| 0 <= n < queue.len() ==> 0 <= #[trigger] queue[n] < es.len()
}

/// Taking the first entry of a queue and adding its children leaves less to
/// walk.
pub proof fn walk_shrinks(es: Seq<EntryModel>, queue: Seq<int>)
    requires
        is_queue(es, queue),
        queue.len() > 0,
    ensures
        is_queue(es, queue.skip(1)),
        is_queue(es, queue.skip(1) + children(es, queue[0])),
        0 <= queue_size(es, queue.skip(1)) < queue_size(es, queue),
        0 <= queue_size(es, queue.skip(1) + children(es, queue[0])) < queue_size(es, queue),
{
    let i = queue[0];
    let rest = queue.skip(1);
    let below = children(es, i);
    subtree_end_bounds(es, i, i + 1);
    children_fit(es, i, i + 1);
    queue_size_adds(es, rest, below);
    assert forall|n: int| 0 <= n < rest.len() implies 0 <= #[trigger] rest[n] < es.len() by {
        assert(rest[n] == queue[n + 1]);
    }
    let next = rest + below;
    assert forall|n: int| 0 <= n < next.len() implies 0 <= #[trigger] next[n] < es.len() by {
        if n < rest.len() {
            assert(next[n] == rest[n]);
        } else {
            assert(next[n] == below[n - rest.len()]);
        }
    }
    queue_size_bounds(es, rest);
    queue_size_bounds(es, next);
}

/// The entries that a walk visits, in order: the entries of the queue, each
/// followed, behind what is queued already, by its children where `visit` says
/// so, up to the entry where `visit` says to stop.
pub open spec fn walk(
    es: Seq<EntryModel>,
    queue: Seq<int>,
    visit: spec_fn(int) -> Visit,
) -> Seq<int>
    decreases queue_size(es, queue),
{
    if queue.len() == 0 || !is_queue(es, queue) {
        seq![]
    } else {
        proof {
            walk_shrinks(es, queue);
        }
        let i = queue[0];
        match visit(i) {
            Visit::Break => seq![i],
            Visit::SkipChildren => seq![i] + walk(es, queue.skip(1), visit),
            Visit::Continue => seq![i] + walk(es, queue.skip(1) + children(es, i), visit),
        }
    }
}

// ---------------------------------------------------------------------------
// What attributes and walks say
// ---------------------------------------------------------------------------

proof fn first_attr(attrs: Seq<AttrModel>, name: u16, k: int)
    requires
        0 <= k < attrs.len(),
        attrs[k].name == name,
        forall|j: int| 0 <= j < k ==> (#[trigger] attrs[j]).name != name,
    ensures
        find_attr(attrs, name) == Some(attrs[k]),
    decreases attrs.len(),
{
    if k > 0 {
        assert(attrs[0].name != name);
        let rest = attrs.skip(1);
        assert(rest[k - 1] == attrs[k]);
        assert forall|j: int| 0 <= j < k - 1 implies (#[trigger] rest[j]).name != name by {
            assert(rest[j] == attrs[j + 1]);
        }
        first_attr(rest, name, k - 1);
    }
}

/// Whether attribute `k` is the first of an entry that has its name.
pub open spec fn is_first_of_its_name(e: EntryModel, k: int) -> bool {
    &&& 0 <= k < e.attrs.len()
    &&& forall|j: int| 0 <= j < k ==> (#[trigger] e.attrs[j]).name != e.attrs[k].name
}

/// What an entry says of itself stands in its attributes: its name in the text of
/// attribute `DW_AT_name`, its type in `DW_AT_type`, and an expression in the
/// attribute that is asked for, either as it is or in the first range that holds the
/// address.
pub proof fn attributes_are_found_by_name(e: EntryModel, k: int, pc: u64, n: int)
    requires
        is_first_of_its_name(e, k),
    ensures
        attr_value(e, e.attrs[k].name) == Some(e.attrs[k].value),
        attr_text(e, e.attrs[k].name) == e.attrs[k].text,
        e.attrs[k].name == 0x03 ==> name_of(e) == e.attrs[k].text,
        e.attrs[k].name == 0x49 ==> match e.attrs[k].value {
            ValueModel::UnitRef(o) => type_offset(e) == Some(o),
            _ => type_offset(e) is None,
        },
        match e.attrs[k].value {
            ValueModel::Exprloc(x) => expression_at(e, e.attrs[k].name, pc) == Some(x),
            _ => match e.attrs[k].locations {
                Some(ranges) => 0 <= n < ranges.len() && ranges[n].begin <= pc < ranges[n].end && (
                forall|j: int| 0 <= j < n ==> !((#[trigger] ranges[j]).begin <= pc < ranges[j].end))
                    ==> expression_at(e, e.attrs[k].name, pc) == Some(ranges[n].expr),
                None => expression_at(e, e.attrs[k].name, pc) is None,
            },
        },
{
    first_attr(e.attrs, e.attrs[k].name, k);
    if let Some(ranges) = e.attrs[k].locations {
        if 0 <= n < ranges.len() && ranges[n].begin <= pc < ranges[n].end && (forall|j: int|
            0 <= j < n ==> !((#[trigger] ranges[j]).begin <= pc < ranges[j].end)) {
            first_range(ranges, pc, n);
        }
    }
}

proof fn first_range(ranges: Seq<RangeModel>, pc: u64, n: int)
    requires
        0 <= n < ranges.len(),
        ranges[n].begin <= pc < ranges[n].end,
        forall|j: int| 0 <= j < n ==> !((#[trigger] ranges[j]).begin <= pc < ranges[j].end),
    ensures
        range_at(ranges, pc) == Some(ranges[n].expr),
    decreases ranges.len(),
{
    if n > 0 {
        assert(!(ranges[0].begin <= pc < ranges[0].end));
        let rest = ranges.skip(1);
        assert(rest[n - 1] == ranges[n]);
        assert forall|j: int| 0 <= j < n - 1 implies !((#[trigger] rest[j]).begin <= pc
            < rest[j].end) by {
            assert(rest[j] == ranges[j + 1]);
        }
        first_range(rest, pc, n - 1);
    }
}

/// An expression that holds only in ranges holds nowhere else.
pub proof fn ranges_end(ranges: Seq<RangeModel>, pc: u64)
    requires
        forall|j: int|
            0 <= j < ranges.len() ==> !((#[trigger] ranges[j]).begin <= pc < ranges[j].end),
    ensures
        range_at(ranges, pc) is None,
    decreases ranges.len(),
{
    if ranges.len() > 0 {
        assert(!(ranges[0].begin <= pc < ranges[0].end));
        let rest = ranges.skip(1);
        assert forall|j: int| 0 <= j < rest.len() implies !((#[trigger] rest[j]).begin <= pc
            < rest[j].end) by {
            assert(rest[j] == ranges[j + 1]);
        }
        ranges_end(rest, pc);
    }
}

/// The addresses of an entry start at `DW_AT_low_pc` and end before `DW_AT_high_pc`;
/// a number there says how many they are.
pub proof fn addresses_are_covered(e: EntryModel, low: int, high: int, start: u64)
    requires
        is_first_of_its_name(e, low),
        is_first_of_its_name(e, high),
        e.attrs[low].name == 0x11,
        e.attrs[low].value == ValueModel::Addr(start),
        e.attrs[high].name == 0x12,
    ensures
        match e.attrs[high].value {
            ValueModel::Addr(end) => pc_range(e) == Some((start, end)),
            ValueModel::Udata(len) => start + len <= u64::MAX ==> pc_range(e) == Some(
                (start, (start + len) as u64),
            ),
            _ => pc_range(e) is None,
        },
{
    first_attr(e.attrs, 0x11, low);
    first_attr(e.attrs, 0x12, high);
}

/// Whether entry `k` is below entry `i`: it stands behind it, and nothing comes back
/// to the level of entry `i` in between.
pub open spec fn is_below(es: Seq<EntryModel>, i: int, k: int) -> bool {
    &&& 0 <= i < k < es.len()
    &&& forall|j: int| i < j <= k ==> (#[trigger] es[j]).depth > es[i].depth
}

/// Whether a walk from entry `i` may come to entry `k`: the way leads through entries
/// below which it goes on.
pub open spec fn is_open_to(
    es: Seq<EntryModel>,
    i: int,
    k: int,
    visit: spec_fn(int) -> Visit,
) -> bool {
    &&& k == i || is_below(es, i, k)
    &&& forall|a: int| i <= a && #[trigger] is_below(es, a, k) ==> visit(a) == Visit::Continue
}

proof fn open_to_children(
    es: Seq<EntryModel>,
    i: int,
    q: int,
    n: int,
    visit: spec_fn(int) -> Visit,
)
    requires
        0 <= i,
        0 <= q < es.len(),
        is_open_to(es, i, q, visit),
        visit(q) == Visit::Continue,
        0 <= n < children(es, q).len(),
    ensures
        is_open_to(es, i, children(es, q)[n], visit),
{
    children_are_below(es, q, q + 1);
    let c = children(es, q)[n];
    assert(is_below(es, q, c));
    if q != i {
        assert forall|j: int| i < j <= c implies (#[trigger] es[j]).depth > es[i].depth by {
            if j <= q {
            } else {
                assert(es[j].depth > es[q].depth);
                assert(es[q].depth > es[i].depth);
            }
        }
        assert(is_below(es, i, c));
    }
    assert forall|a: int| i <= a && #[trigger] is_below(es, a, c) implies visit(a)
        == Visit::Continue by {
        if a < q {
            assert(is_below(es, a, q));
        } else if a > q {
            assert(es[a].depth > es[q].depth);
            assert(es[c].depth > es[a].depth);
        }
    }
}

proof fn walks_stay_in_the_open(
    es: Seq<EntryModel>,
    queue: Seq<int>,
    i: int,
    visit: spec_fn(int) -> Visit,
)
    requires
        0 <= i,
        is_queue(es, queue),
        forall|n: int| 0 <= n < queue.len() ==> is_open_to(es, i, #[trigger] queue[n], visit),
    ensures
        forall|n: int|
            0 <= n < walk(es, queue, visit).len() ==> is_open_to(
                es,
                i,
                #[trigger] walk(es, queue, visit)[n],
                visit,
            ),
    decreases queue_size(es, queue),
{
    if queue.len() > 0 {
        walk_shrinks(es, queue);
        let q = queue[0];
        let rest = queue.skip(1);
        let below = children(es, q);
        assert forall|n: int| 0 <= n < rest.len() implies is_open_to(
            es,
            i,
            #[trigger] rest[n],
            visit,
        ) by {
            assert(rest[n] == queue[n + 1]);
        }
        let all = walk(es, queue, visit);
        match visit(q) {
            Visit::Break => {
                assert(all =~= seq![q]);
            },
            Visit::SkipChildren => {
                walks_stay_in_the_open(es, rest, i, visit);
                let more = walk(es, rest, visit);
                assert forall|n: int| 0 <= n < all.len() implies is_open_to(
                    es,
                    i,
                    #[trigger] all[n],
                    visit,
                ) by {
                    if n > 0 {
                        assert(all[n] == more[n - 1]);
                    }
                }
            },
            Visit::Continue => {
                let next = rest + below;
                assert forall|n: int| 0 <= n < next.len() implies is_open_to(
                    es,
                    i,
                    #[trigger] next[n],
                    visit,
                ) by {
                    if n < rest.len() {
                        assert(next[n] == rest[n]);
                    } else {
                        open_to_children(es, i, q, n - rest.len(), visit);
                        assert(next[n] == below[n - rest.len()]);
                    }
                }
                walks_stay_in_the_open(es, next, i, visit);
                let more = walk(es, next, visit);
                assert forall|n: int| 0 <= n < all.len() implies is_open_to(
                    es,
                    i,
                    #[trigger] all[n],
                    visit,
                ) by {
                    if n > 0 {
                        assert(all[n] == more[n - 1]);
                    }
                }
            },
        }
    }
}

/// Whether every level of the list is entered from the level above it.
pub open spec fn is_tree(es: Seq<EntryModel>) -> bool {
    forall|k: int| 0 < k < es.len() ==> (#[trigger] es[k]).depth <= es[k - 1].depth + 1
}

proof fn child_is_listed(es: Seq<EntryModel>, i: int, from: int, c: int) -> (n: int)
    requires
        0 <= i < from <= c < es.len(),
        forall|j: int| i < j <= c ==> (#[trigger] es[j]).depth > es[i].depth,
        es[c].depth == es[i].depth + 1,
    ensures
        0 <= n < children_from(es, i, from).len(),
        children_from(es, i, from)[n] == c,
    decreases c - from,
{
    assert(es[from].depth > es[i].depth);
    if from == c {
        0
    } else {
        let n = child_is_listed(es, i, from + 1, c);
        if es[from].depth == es[i].depth + 1 {
            n + 1
        } else {
            n
        }
    }
}

proof fn next_on_the_way(es: Seq<EntryModel>, q: int, k: int, last: int) -> (c: int)
    requires
        is_tree(es),
        is_below(es, q, k),
        q < last <= k,
        forall|j: int| last < j <= k ==> (#[trigger] es[j]).depth > es[q].depth + 1,
    ensures
        q < c <= k,
        es[c].depth == es[q].depth + 1,
        c == k || is_below(es, c, k),
    decreases last - q,
{
    if es[last].depth == es[q].depth + 1 {
        last
    } else {
        assert(es[last].depth > es[q].depth + 1);
        if last == q + 1 {
            assert(es[last].depth <= es[last - 1].depth + 1);
        }
        next_on_the_way(es, q, k, last - 1)
    }
}

proof fn walks_reach(
    es: Seq<EntryModel>,
    queue: Seq<int>,
    n: int,
    k: int,
    visit: spec_fn(int) -> Visit,
) -> (m: int)
    requires
        is_tree(es),
        is_queue(es, queue),
        0 <= n < queue.len(),
        is_open_to(es, queue[n], k, visit),
        forall|j: int| #[trigger] visit(j) != Visit::Break,
    ensures
        0 <= m < walk(es, queue, visit).len(),
        walk(es, queue, visit)[m] == k,
    decreases queue_size(es, queue),
{
    walk_shrinks(es, queue);
    let q = queue[0];
    let rest = queue.skip(1);
    assert(visit(q) != Visit::Break);
    if n == 0 && q == k {
        0
    } else if n > 0 {
        assert(rest[n - 1] == queue[n]);
        if visit(q) == Visit::Continue {
            let next = rest + children(es, q);
            assert(next[n - 1] == queue[n]);
            walks_reach(es, next, n - 1, k, visit) + 1
        } else {
            walks_reach(es, rest, n - 1, k, visit) + 1
        }
    } else {
        assert(is_below(es, q, k));
        assert(visit(q) == Visit::Continue);
        let c = next_on_the_way(es, q, k, k);
        let at = child_is_listed(es, q, q + 1, c);
        let next = rest + children(es, q);
        assert(next[rest.len() + at] == c);
        walks_reach(es, next, rest.len() + at, k, visit) + 1
    }
}

/// A walk that is never stopped comes to every entry to which the way is open, and to
/// no other.
pub proof fn walks_visit_what_is_open(
    es: Seq<EntryModel>,
    i: int,
    k: int,
    visit: spec_fn(int) -> Visit,
)
    requires
        0 <= i < es.len(),
        is_tree(es),
        forall|j: int| #[trigger] visit(j) != Visit::Break,
    ensures
        walk(es, seq![i], visit).contains(k) <==> is_open_to(es, i, k, visit),
{
    let queue = seq![i];
    assert forall|n: int| 0 <= n < queue.len() implies is_open_to(
        es,
        i,
        #[trigger] queue[n],
        visit,
    ) by {
        assert forall|a: int| i <= a && #[trigger] is_below(es, a, i) implies visit(a)
            == Visit::Continue by {}
    }
    walks_stay_in_the_open(es, queue, i, visit);
    if is_open_to(es, i, k, visit) {
        assert(queue[0] == i);
        let m = walks_reach(es, queue, 0, k, visit);
    }
}

/// A constant is read as an unsigned number by its value, unless it is negative; what is
/// no constant is not read.
pub proof fn constants_are_read(d: u64, s: i64)
    ensures
        udata_of(ValueModel::Data(d)) == Some(d),
        udata_of(ValueModel::Udata(d)) == Some(d),
        s >= 0 ==> udata_of(ValueModel::Sdata(s)) == Some(s as u64),
        s < 0 ==> udata_of(ValueModel::Sdata(s)) is None,
        udata_of(ValueModel::Addr(d)) is None,
        udata_of(ValueModel::Other) is None,
{
}

} // verus!
