//! Debugging information entries with the unit that they stand in.
use vstd::prelude::*;

use crate::error::DebugError;
use crate::types::CodeOffset;
use super::{Dwarf, unit_views};
use super::constants::{DW_AT_HIGH_PC, DW_AT_LOW_PC, DW_AT_NAME};
use super::entry::{DieEntry, EntryModel, Visit, as_path, attr_address, attr_text, child_indices,
    children, expression_at, find_entry, index_at, is_queue, name_of, pc_range, queue_size, text_of,
    type_offset, walk, walk_shrinks};
use super::unit::{Unit, UnitView};

verus! {

broadcast use vstd::seq_lib::group_seq_properties;

/// Names an entry by its unit and its offset there.
#[derive(Debug, Clone, Copy, PartialEq, Eq, Structural, Hash)]
pub struct DieReference {
    pub unit_index: usize,
    pub unit_ofs: usize,
}

/// The unit and the index there of the entry that a reference names.
pub open spec fn entry_named(units: Seq<UnitView>, r: DieReference) -> Result<(int, int), DebugError> {
    if r.unit_index >= units.len() {
        Err(DebugError::UnitOutOfBounds)
    } else {
        match index_at(units[r.unit_index as int].entries, r.unit_ofs) {
            Some(i) => Ok((r.unit_index as int, i)),
            None => Err(DebugError::EntryNotFound),
        }
    }
}

/// What an entry needs to be understood.
#[derive(Debug, Clone, Copy)]
pub struct DerefContext<'a> {
    pub dwarf: &'a Dwarf,
    pub unit: &'a Unit,
}

impl<'a> DerefContext<'a> {
    pub fn new(dwarf: &'a Dwarf, unit: &'a Unit) -> (r: Self)
        ensures
            r.dwarf == dwarf,
            r.unit == unit,
    {
        DerefContext { dwarf, unit }
    }
}

/// A debugging information entry of a unit.
#[derive(Debug, Clone, Copy)]
pub struct Die<'a> {
    pub ctx: DerefContext<'a>,
    /// Where the entry stands among those of its unit.
    pub index: usize,
}

impl DieReference {
    /// Finds the entry that this reference names.
    pub fn deref<'a>(&self, dwarf: &'a Dwarf) -> (r: Result<Die<'a>, DebugError>)
        ensures
            match r {
                Ok(die) => {
                    &&& entry_named(dwarf@.units, *self) == Ok::<(int, int), DebugError>(
                        (self.unit_index as int, die.index as int),
                    )
                    &&& die.wf()
                    &&& die.ctx.dwarf == dwarf
                    &&& die.ctx.unit@ == dwarf@.units[self.unit_index as int]
                },
                Err(e) => entry_named(dwarf@.units, *self) == Err::<(int, int), DebugError>(e),
            },
    {
        let units = dwarf.units();
        if self.unit_index >= units.len() {
            return Err(DebugError::UnitOutOfBounds);
        }
        let unit = &units[self.unit_index];
        assert(unit_views(units@)[self.unit_index as int] == unit@);
        match find_entry(&unit.entries, self.unit_ofs) {
            Some(index) => Ok(Die { ctx: DerefContext::new(dwarf, unit), index }),
            None => Err(DebugError::EntryNotFound),
        }
    }
}

/// Whether `visit` decides by `decide` at every entry of the unit.
pub open spec fn decides_by<'a, F: Fn(Die<'a>) -> Visit>(
    visit: F,
    decide: spec_fn(int) -> Visit,
    ctx: DerefContext<'a>,
) -> bool {
    forall|die: Die<'a>, verdict: Visit| #[trigger]
        visit.ensures((die,), verdict) && die.ctx == ctx && die.wf() ==> verdict == decide(
            die.index as int,
        )
}

/// The indices of entries of one unit.
pub open spec fn die_indices(dies: Seq<Die>) -> Seq<int> {
    dies.map_values(|d: Die| d.index as int)
}

impl<'a> Die<'a> {
    /// Whether this is an entry of its unit.
    pub open spec fn wf(&self) -> bool {
        self.index < self.ctx.unit@.entries.len()
    }

    /// The entry.
    pub open spec fn entry(&self) -> EntryModel {
        self.ctx.unit@.entries[self.index as int]
    }

    /// The unit that this entry stands in, and all others.
    pub fn ctx(&self) -> (r: &DerefContext<'a>)
        ensures
            *r == self.ctx,
    {
        &self.ctx
    }

    /// The entry itself.
    pub fn die(&self) -> (r: &'a DieEntry)
        requires
            self.wf(),
        ensures
            r@ == self.entry(),
    {
        &self.ctx.unit.entries[self.index]
    }

    /// What kind of entry this is.
    pub fn tag(&self) -> (r: u16)
        requires
            self.wf(),
        ensures
            r == self.entry().tag,
    {
        self.die().tag
    }

    /// The name of this entry.
    pub fn name(&self) -> (r: Option<String>)
        requires
            self.wf(),
        ensures
            text_of(r) == name_of(self.entry()),
    {
        self.attr_to_string(DW_AT_NAME)
    }

    /// The first address of this entry.
    pub fn low_pc(&self) -> (r: Option<CodeOffset>)
        requires
            self.wf(),
        ensures
            r == match attr_address(self.entry(), DW_AT_LOW_PC) {
                Some(pc) => Some(CodeOffset(pc)),
                None => None,
            },
    {
        match self.die().attr_address(DW_AT_LOW_PC) {
            Some(pc) => Some(CodeOffset(pc)),
            None => None,
        }
    }

    /// The first address behind this entry, where it is given as an address.
    pub fn high_pc(&self) -> (r: Option<CodeOffset>)
        requires
            self.wf(),
        ensures
            r == match attr_address(self.entry(), DW_AT_HIGH_PC) {
                Some(pc) => Some(CodeOffset(pc)),
                None => None,
            },
    {
        match self.die().attr_address(DW_AT_HIGH_PC) {
            Some(pc) => Some(CodeOffset(pc)),
            None => None,
        }
    }

    /// The addresses that this entry covers.
    pub fn addr_range(&self) -> (r: Option<(CodeOffset, CodeOffset)>)
        requires
            self.wf(),
        ensures
            r == match pc_range(self.entry()) {
                Some((low, high)) => Some((CodeOffset(low), CodeOffset(high))),
                None => None,
            },
    {
        match self.die().pc_range() {
            Some((low, high)) => Some((CodeOffset(low), CodeOffset(high))),
            None => None,
        }
    }

    /// The reference that names this entry.
    pub fn die_ref(&self) -> (r: DieReference)
        requires
            self.wf(),
        ensures
            r.unit_index == self.ctx.unit@.properties.index,
            r.unit_ofs == self.entry().offset,
    {
        DieReference { unit_index: self.ctx.unit.index(), unit_ofs: self.die().offset }
    }

    /// The reference that names the type of this entry.
    pub fn type_ref(&self) -> (r: Option<DieReference>)
        requires
            self.wf(),
        ensures
            r == match type_offset(self.entry()) {
                Some(ofs) => Some(
                    DieReference { unit_index: self.ctx.unit@.properties.index, unit_ofs: ofs },
                ),
                None => None,
            },
    {
        match self.die().type_offset() {
            Some(ofs) => Some(DieReference { unit_index: self.ctx.unit.index(), unit_ofs: ofs }),
            None => None,
        }
    }

    /// The expression that the attribute `attr` holds at `pc`.
    pub fn expression(&self, attr: u16, pc: CodeOffset) -> (r: Option<Vec<u8>>)
        requires
            self.wf(),
        ensures
            match r {
                Some(x) => expression_at(self.entry(), attr, pc.0) == Some(x@),
                None => expression_at(self.entry(), attr, pc.0) is None,
            },
    {
        self.die().expression(attr, pc.0)
    }

    /// The text of the attribute `attr`.
    pub fn attr_to_string(&self, attr: u16) -> (r: Option<String>)
        requires
            self.wf(),
        ensures
            text_of(r) == attr_text(self.entry(), attr),
    {
        self.die().attr_text(attr)
    }

    /// The children of this entry, in order.
    pub fn children(&self) -> (r: Vec<Die<'a>>)
        requires
            self.wf(),
        ensures
            die_indices(r@) == children(self.ctx.unit@.entries, self.index as int),
            forall|n: int|
                0 <= n < r@.len() ==> (#[trigger] r@[n]).wf() && r@[n].ctx == self.ctx,
    {
        let ghost want = children(self.ctx.unit@.entries, self.index as int);
        let indices = child_indices(&self.ctx.unit.entries, self.index);
        let mut out: Vec<Die<'a>> = Vec::new();
        let mut i: usize = 0;
        while i < indices.len()
            invariant
                i <= indices@.len(),
                as_path(indices@) == want,
                forall|n: int|
                    0 <= n < indices@.len() ==> (#[trigger] indices@[n])
                        < self.ctx.unit.entries@.len(),
                die_indices(out@) =~= want.take(i as int),
                forall|n: int|
                    0 <= n < out@.len() ==> (#[trigger] out@[n]).wf() && out@[n].ctx == self.ctx,
            decreases indices@.len() - i,
        {
            let ghost before = out@;
            out.push(Die { ctx: self.ctx, index: indices[i] });
            assert(want[i as int] == indices@[i as int]);
            i = i + 1;
            assert(die_indices(out@) =~= die_indices(before).push(want[i - 1]));
            assert(want.take(i as int) =~= want.take(i - 1).push(want[i - 1]));
        }
        assert(want.take(want.len() as int) =~= want);
        out
    }

    /// Loop through child DIEs until a value is found, returning it (if any)
    pub fn find_children<T, F: Fn(Die<'a>) -> Option<T>>(&self, f: F) -> (r: Option<T>)
        requires
            self.wf(),
            forall|die: Die<'a>| die.wf() && die.ctx == self.ctx ==> #[trigger] f.requires((die,)),
        ensures
            ({
                let below = children(self.ctx.unit@.entries, self.index as int);
                match r {
                    Some(value) => exists|n: int, die: Die<'a>|
                        0 <= n < below.len() && die.ctx == self.ctx && die.index == below[n]
                            && #[trigger] found_at(f, self.ctx, below, n, die, value),
                    None => forall|n: int|
                        0 <= n < below.len() ==> #[trigger] nothing_at(f, self.ctx, below[n]),
                }
            }),
    {
        let ghost below = children(self.ctx.unit@.entries, self.index as int);
        let dies = self.children();
        let mut i: usize = 0;
        while i < dies.len()
            invariant
                i <= dies@.len(),
                below == die_indices(dies@),
                forall|die: Die<'a>|
                    die.wf() && die.ctx == self.ctx ==> #[trigger] f.requires((die,)),
                forall|n: int|
                    0 <= n < dies@.len() ==> (#[trigger] dies@[n]).wf() && dies@[n].ctx
                        == self.ctx,
                below == children(self.ctx.unit@.entries, self.index as int),
                forall|n: int| 0 <= n < i ==> #[trigger] nothing_at(f, self.ctx, below[n]),
            decreases dies@.len() - i,
        {
            let die = dies[i];
            assert(below[i as int] == die.index);
            match f(die) {
                Some(value) => {
                    assert(found_at(f, self.ctx, below, i as int, die, value));
                    return Some(value);
                },
                None => {
                    assert(nothing_at(f, self.ctx, below[i as int]));
                },
            }
            i = i + 1;
        }
        None
    }

    /// Recursively traverses the tree, including this node.
    ///
    /// The return value of `visit` controls the traversal. Yields the entries
    /// that were visited, in order.
    pub fn traverse<F: Fn(Die<'a>) -> Visit>(&self, visit: F) -> (r: Vec<Die<'a>>)
        requires
            self.wf(),
            forall|die: Die<'a>|
                die.wf() && die.ctx == self.ctx ==> #[trigger] visit.requires((die,)),
        ensures
            forall|decide: spec_fn(int) -> Visit|
                #![trigger decides_by(visit, decide, self.ctx)]
                decides_by(visit, decide, self.ctx) ==> die_indices(r@) == walk(
                    self.ctx.unit@.entries,
                    seq![self.index as int],
                    decide,
                ),
            forall|n: int|
                0 <= n < r@.len() ==> (#[trigger] r@[n]).wf() && r@[n].ctx == self.ctx,
    {
        let ghost es = self.ctx.unit@.entries;
        let ghost start = seq![self.index as int];
        let mut queue: Vec<Die<'a>> = Vec::new();
        queue.push(*self);
        let mut out: Vec<Die<'a>> = Vec::new();
        assert(die_indices(queue@) =~= start);
        assert forall|decide: spec_fn(int) -> Visit|
            #![trigger decides_by(visit, decide, self.ctx)]
            decides_by(visit, decide, self.ctx) implies die_indices(out@) + walk(
            es,
            die_indices(queue@),
            decide,
        ) == walk(es, start, decide) by {
            assert(die_indices(out@) + walk(es, start, decide) =~= walk(es, start, decide));
        }
        while queue.len() > 0
            invariant
                es == self.ctx.unit@.entries,
                start == seq![self.index as int],
                forall|die: Die<'a>|
                    die.wf() && die.ctx == self.ctx ==> #[trigger] visit.requires((die,)),
                forall|n: int|
                    0 <= n < queue@.len() ==> (#[trigger] queue@[n]).wf() && queue@[n].ctx
                        == self.ctx,
                forall|n: int|
                    0 <= n < out@.len() ==> (#[trigger] out@[n]).wf() && out@[n].ctx == self.ctx,
                forall|decide: spec_fn(int) -> Visit|
                    #![trigger decides_by(visit, decide, self.ctx)]
                    decides_by(visit, decide, self.ctx) ==> die_indices(out@) + walk(
                        es,
                        die_indices(queue@),
                        decide,
                    ) == walk(es, start, decide),
            decreases queue_size(es, die_indices(queue@)),
        {
            let ghost before = out@;
            let ghost waiting = die_indices(queue@);
            assert(is_queue(es, waiting));
            proof {
                walk_shrinks(es, waiting);
            }
            let die = queue.remove(0);
            assert(waiting[0] == die.index);
            assert(die_indices(queue@) =~= waiting.skip(1));
            out.push(die);
            assert(die_indices(out@) =~= die_indices(before).push(die.index as int));
            let verdict = visit(die);
            match verdict {
                Visit::Break => {
                    assert forall|decide: spec_fn(int) -> Visit|
                        #![trigger decides_by(visit, decide, self.ctx)]
                        decides_by(visit, decide, self.ctx) implies die_indices(out@) == walk(
                        es,
                        start,
                        decide,
                    ) by {
                        assert(walk(es, waiting, decide) == seq![die.index as int]);
                        assert(die_indices(out@) =~= die_indices(before) + walk(
                            es,
                            waiting,
                            decide,
                        ));
                    }
                    return out;
                },
                Visit::SkipChildren => {
                    assert forall|decide: spec_fn(int) -> Visit|
                        #![trigger decides_by(visit, decide, self.ctx)]
                        decides_by(visit, decide, self.ctx) implies die_indices(out@) + walk(
                        es,
                        die_indices(queue@),
                        decide,
                    ) == walk(es, start, decide) by {
                        assert(die_indices(out@) + walk(es, waiting.skip(1), decide)
                            =~= die_indices(before) + walk(es, waiting, decide));
                    }
                },
                Visit::Continue => {
                    let ghost rest = queue@;
                    let mut below = die.children();
                    let ghost added = below@;
                    queue.append(&mut below);
                    assert(queue@ =~= rest + added);
                    assert(die_indices(queue@) =~= waiting.skip(1) + children(es, waiting[0]));
                    assert forall|decide: spec_fn(int) -> Visit|
                        #![trigger decides_by(visit, decide, self.ctx)]
                        decides_by(visit, decide, self.ctx) implies die_indices(out@) + walk(
                        es,
                        die_indices(queue@),
                        decide,
                    ) == walk(es, start, decide) by {
                        assert(die_indices(out@) + walk(es, die_indices(queue@), decide)
                            =~= die_indices(before) + walk(es, waiting, decide));
                    }
                },
            }
        }
        assert forall|decide: spec_fn(int) -> Visit|
            #![trigger decides_by(visit, decide, self.ctx)]
            decides_by(visit, decide, self.ctx) implies die_indices(out@) == walk(
            es,
            start,
            decide,
        ) by {
            assert(walk(es, die_indices(queue@), decide) =~= seq![]);
            assert(die_indices(out@) + seq![] =~= die_indices(out@));
        }
        out
    }
}

/// `f` finds `value` at the child `n`, and nothing at the children before it.
pub open spec fn found_at<'a, T, F: Fn(Die<'a>) -> Option<T>>(
    f: F,
    ctx: DerefContext<'a>,
    below: Seq<int>,
    n: int,
    die: Die<'a>,
    value: T,
) -> bool {
    &&& f.ensures((die,), Some(value))
    &&& forall|m: int| 0 <= m < n ==> #[trigger] nothing_at(f, ctx, below[m])
}

/// `f` finds nothing at the entry `index`.
pub open spec fn nothing_at<'a, T, F: Fn(Die<'a>) -> Option<T>>(
    f: F,
    ctx: DerefContext<'a>,
    index: int,
) -> bool {
    exists|die: Die<'a>|
        die.ctx == ctx && die.index == index && #[trigger] f.ensures((die,), None::<T>)
}

} // verus!
