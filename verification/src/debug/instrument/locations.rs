//! Which WebAssembly values the variables of a function are found by.
use vstd::prelude::*;

use crate::error::DebugError;
use crate::seqs::{all_readable, readable};
use crate::types::{CodeOffset, WasmLocation};
use crate::debug::dwarf::constants::{DW_AT_FRAME_BASE, DW_AT_LOCATION, DW_TAG_SUBPROGRAM};
use crate::debug::dwarf::die::{Die, die_indices};
use crate::debug::dwarf::entry::{EntryModel, expression_at};
use crate::debug::dwarf::expression::{ExprOp, operations, operations_of};
use crate::debug::dwarf::reader::UnitEncoding;
use crate::debug::dwarf::unit::UnitView;
use crate::debug::variables::{get_location, get_variables, live_variables};

verus! {

broadcast use vstd::seq_lib::group_seq_properties;

/// Whether numbers stand in increasing order, each of them once.
pub open spec fn increasing(s: Seq<usize>) -> bool {
    forall|i: int, j: int| 0 <= i < j < s.len() ==> (#[trigger] s[i]) < (#[trigger] s[j])
}

/// Increasing numbers with `x` among them.
pub open spec fn with_index(s: Seq<usize>, x: usize) -> Seq<usize>
    decreases s.len(),
{
    if s.len() == 0 || s.last() < x {
        s.push(x)
    } else if s.last() == x {
        s
    } else {
        with_index(s.drop_last(), x).push(s.last())
    }
}

/// Putting a number among increasing ones keeps them increasing, and puts that
/// number and no other among them.
pub proof fn indices_stay_increasing(s: Seq<usize>, x: usize)
    requires
        increasing(s),
    ensures
        increasing(with_index(s, x)),
        forall|y: usize| #[trigger] with_index(s, x).contains(y) <==> y == x || s.contains(y),
    decreases s.len(),
{
    let r = with_index(s, x);
    if s.len() == 0 || s.last() < x {
        assert(r == s.push(x));
        assert forall|i: int, j: int| 0 <= i < j < r.len() implies (#[trigger] r[i]) < (
        #[trigger] r[j]) by {
            if j == s.len() && i < s.len() - 1 {
                assert(s[i] < s[s.len() - 1]);
            }
        }
        assert forall|y: usize| #[trigger] r.contains(y) <==> y == x || s.contains(y) by {
            if s.contains(y) {
                let k = choose|k: int| 0 <= k < s.len() && s[k] == y;
                assert(r[k] == y);
            }
            assert(r[s.len() as int] == x);
        }
    } else if s.last() == x {
        assert(s[s.len() - 1] == x);
    } else {
        let rest = s.drop_last();
        let last = s.last();
        indices_stay_increasing(rest, x);
        let inner = with_index(rest, x);
        assert(r == inner.push(last));
        assert forall|y: usize| inner.contains(y) implies y < last by {
            if y != x {
                let k = choose|k: int| 0 <= k < rest.len() && rest[k] == y;
                assert(s[k] < s[s.len() - 1]);
            }
        }
        assert forall|i: int, j: int| 0 <= i < j < r.len() implies (#[trigger] r[i]) < (
        #[trigger] r[j]) by {
            if j == inner.len() {
                assert(inner.contains(inner[i]));
            }
        }
        assert forall|y: usize| #[trigger] r.contains(y) <==> y == x || s.contains(y) by {
            if r.contains(y) {
                let k = choose|k: int| 0 <= k < r.len() && r[k] == y;
                if k < inner.len() {
                    assert(inner.contains(inner[k]));
                    if y != x {
                        let m = choose|m: int| 0 <= m < rest.len() && rest[m] == y;
                        assert(s[m] == y);
                    }
                } else {
                    assert(s[s.len() - 1] == y);
                }
            }
            if s.contains(y) {
                let k = choose|k: int| 0 <= k < s.len() && s[k] == y;
                if k < rest.len() {
                    assert(rest[k] == y);
                    assert(inner.contains(y));
                    let m = choose|m: int| 0 <= m < inner.len() && inner[m] == y;
                    assert(r[m] == y);
                } else {
                    assert(r[inner.len() as int] == y);
                }
            }
            if y == x {
                assert(inner.contains(x));
                let m = choose|m: int| 0 <= m < inner.len() && inner[m] == x;
                assert(r[m] == x);
            }
        }
    }
}

/// The WebAssembly values that expressions ask for.
#[derive(Debug)]
pub struct WasmLocations {
    pub operands: Vec<usize>,
    pub locals: Vec<usize>,
    pub globals: Vec<usize>,
}

/// The mathematical value of [`WasmLocations`]: the indices, in increasing
/// order.
#[verifier::ext_equal]
pub struct LocationsModel {
    pub operands: Seq<usize>,
    pub locals: Seq<usize>,
    pub globals: Seq<usize>,
}

impl View for WasmLocations {
    type V = LocationsModel;

    open spec fn view(&self) -> LocationsModel {
        LocationsModel {
            operands: self.operands@,
            locals: self.locals@,
            globals: self.globals@,
        }
    }
}

impl LocationsModel {
    /// Whether the indices are in increasing order.
    pub open spec fn wf(self) -> bool {
        increasing(self.operands) && increasing(self.locals) && increasing(self.globals)
    }
}

/// No values.
pub open spec fn no_locations() -> LocationsModel {
    LocationsModel { operands: seq![], locals: seq![], globals: seq![] }
}

/// The values with the one that an operation asks for.
pub open spec fn with_operation(l: LocationsModel, op: ExprOp) -> LocationsModel {
    match op {
        ExprOp::WasmLocal(i) => LocationsModel { locals: with_index(l.locals, i as usize), ..l },
        ExprOp::WasmGlobal(i) => LocationsModel { globals: with_index(l.globals, i as usize), ..l },
        ExprOp::WasmStack(i) => LocationsModel {
            operands: with_index(l.operands, i as usize),
            ..l
        },
        _ => l,
    }
}

/// The values that operations ask for.
pub open spec fn with_operations(l: LocationsModel, ops: Seq<ExprOp>) -> LocationsModel
    decreases ops.len(),
{
    if ops.len() == 0 {
        l
    } else {
        with_operation(with_operations(l, ops.drop_last()), ops.last())
    }
}

/// Whether an operation is relative to the frame base.
pub open spec fn needs_frame_base(ops: Seq<ExprOp>) -> bool {
    exists|i: int| 0 <= i < ops.len() && (#[trigger] ops[i]) is FrameOffset
}

/// The operations of the location expressions of the variables `vars`; `None`
/// where one of them cannot be read.
pub open spec fn variable_operations(
    es: Seq<EntryModel>,
    vars: Seq<int>,
    pc: u64,
    encoding: UnitEncoding,
) -> Option<Seq<ExprOp>>
    decreases vars.len(),
{
    if vars.len() == 0 {
        Some(seq![])
    } else {
        match variable_operations(es, vars.drop_last(), pc, encoding) {
            Some(before) => match expression_at(es[vars.last()], DW_AT_LOCATION, pc) {
                Some(expr) => if all_readable(operations_of(expr, encoding)) {
                    Some(before + readable(operations_of(expr, encoding)))
                } else {
                    None
                },
                None => Some(before),
            },
            None => None,
        }
    }
}

/// The values that the variables that are live at `pc` in the function that
/// entry `i` declares are found by.
pub open spec fn needed_locations(u: UnitView, i: int, pc: u64) -> Result<
    LocationsModel,
    DebugError,
> {
    let es = u.entries;
    if es[i].tag != DW_TAG_SUBPROGRAM {
        Err(DebugError::NotSubprogram)
    } else {
        match variable_operations(es, live_variables(es, i, pc), pc, u.encoding) {
            None => Err(DebugError::Malformed),
            Some(ops) => {
                let found = with_operations(no_locations(), ops);
                match expression_at(es[i], DW_AT_FRAME_BASE, pc) {
                    Some(base) => if !needs_frame_base(ops) {
                        Ok(found)
                    } else if all_readable(operations_of(base, u.encoding)) {
                        Ok(with_operations(found, readable(operations_of(base, u.encoding))))
                    } else {
                        Err(DebugError::Malformed)
                    },
                    None => Ok(found),
                }
            },
        }
    }
}

proof fn operations_keep_order(l: LocationsModel, ops: Seq<ExprOp>)
    requires
        l.wf(),
    ensures
        with_operations(l, ops).wf(),
    decreases ops.len(),
{
    if ops.len() > 0 {
        operations_keep_order(l, ops.drop_last());
        let before = with_operations(l, ops.drop_last());
        match ops.last() {
            ExprOp::WasmLocal(i) => indices_stay_increasing(before.locals, i as usize),
            ExprOp::WasmGlobal(i) => indices_stay_increasing(before.globals, i as usize),
            ExprOp::WasmStack(i) => indices_stay_increasing(before.operands, i as usize),
            _ => {},
        }
    }
}

/// The values that variables are found by come in increasing order.
pub proof fn needed_locations_are_ordered(u: UnitView, i: int, pc: u64)
    ensures
        needed_locations(u, i, pc) matches Ok(l) ==> l.wf(),
{
    if let Ok(_) = needed_locations(u, i, pc) {
        let ops = variable_operations(
            u.entries,
            live_variables(u.entries, i, pc),
            pc,
            u.encoding,
        )->0;
        operations_keep_order(no_locations(), ops);
        if let Some(base) = expression_at(u.entries[i], DW_AT_FRAME_BASE, pc) {
            operations_keep_order(
                with_operations(no_locations(), ops),
                readable(operations_of(base, u.encoding)),
            );
        }
    }
}

/// Puts `x` among increasing numbers.
fn insert_index(s: &mut Vec<usize>, x: usize)
    ensures
        final(s)@ == with_index(old(s)@, x),
{
    let ghost all = s@;
    let mut at: usize = s.len();
    let ghost mut tail: Seq<usize> = seq![];
    assert(all.take(at as int) =~= all);
    assert(with_index(all, x) + tail =~= with_index(all, x));
    while at > 0 && s[at - 1] > x
        invariant
            all == s@,
            at <= all.len(),
            tail == all.skip(at as int),
            with_index(all, x) == with_index(all.take(at as int), x) + tail,
        decreases at,
    {
        at = at - 1;
        assert(all.take(at + 1).drop_last() =~= all.take(at as int));
        assert(all.take(at + 1).last() == all[at as int]);
        proof {
            let inner = with_index(all.take(at as int), x);
            assert(inner.push(all[at as int]) + tail =~= inner + (seq![all[at as int]] + tail));
            tail = seq![all[at as int]] + tail;
            assert(tail =~= all.skip(at as int));
        }
    }
    if at > 0 {
        assert(all.take(at as int).last() == all[at - 1]);
        if s[at - 1] == x {
            assert(all.take(at as int) + tail =~= all);
            return ;
        }
    }
    s.insert(at, x);
    assert(s@ =~= all.take(at as int).push(x) + tail);
}

impl WasmLocations {
    /// No values.
    pub fn new() -> (r: Self)
        ensures
            r@ == no_locations(),
    {
        let r = WasmLocations { operands: Vec::new(), locals: Vec::new(), globals: Vec::new() };
        assert(r@ =~= no_locations());
        r
    }

    /// Adds the value that an operation asks for.
    pub fn operation(&mut self, op: ExprOp)
        ensures
            final(self)@ == with_operation(old(self)@, op),
    {
        match op {
            ExprOp::WasmLocal(index) => insert_index(&mut self.locals, index as usize),
            ExprOp::WasmGlobal(index) => insert_index(&mut self.globals, index as usize),
            ExprOp::WasmStack(index) => insert_index(&mut self.operands, index as usize),
            _ => {},
        }
    }

    /// Adds the values that operations ask for. Says whether one of them is
    /// relative to the frame base.
    fn add_operations(&mut self, ops: &Vec<ExprOp>) -> (r: bool)
        ensures
            final(self)@ == with_operations(old(self)@, ops@),
            r == needs_frame_base(ops@),
    {
        let ghost all = ops@;
        let ghost start = self@;
        let mut based = false;
        let mut i: usize = 0;
        assert(all.take(0) =~= seq![]);
        while i < ops.len()
            invariant
                all == ops@,
                i <= all.len(),
                self@ == with_operations(start, all.take(i as int)),
                based <==> exists|k: int| 0 <= k < i && (#[trigger] all[k]) is FrameOffset,
            decreases all.len() - i,
        {
            assert(all.take(i + 1).drop_last() =~= all.take(i as int));
            assert(all.take(i + 1).last() == all[i as int]);
            self.operation(ops[i]);
            if let ExprOp::FrameOffset(_) = ops[i] {
                based = true;
            }
            i = i + 1;
        }
        assert(all.take(all.len() as int) =~= all);
        based
    }
}

proof fn operations_join(l: LocationsModel, a: Seq<ExprOp>, b: Seq<ExprOp>)
    ensures
        with_operations(with_operations(l, a), b) == with_operations(l, a + b),
        needs_frame_base(a + b) <==> needs_frame_base(a) || needs_frame_base(b),
    decreases b.len(),
{
    if b.len() == 0 {
        assert(a + b =~= a);
    } else {
        operations_join(l, a, b.drop_last());
        assert((a + b).drop_last() =~= a + b.drop_last());
        assert((a + b).last() == b.last());
    }
    assert(needs_frame_base(a + b) <==> needs_frame_base(a) || needs_frame_base(b)) by {
        if needs_frame_base(a) {
            let k = choose|k: int| 0 <= k < a.len() && (#[trigger] a[k]) is FrameOffset;
            assert((a + b)[k] is FrameOffset);
        }
        if needs_frame_base(b) {
            let k = choose|k: int| 0 <= k < b.len() && (#[trigger] b[k]) is FrameOffset;
            assert((a + b)[a.len() + k] is FrameOffset);
        }
        if needs_frame_base(a + b) {
            let k = choose|k: int| 0 <= k < (a + b).len() && (#[trigger] (a + b)[k]) is FrameOffset;
            if k < a.len() {
                assert(a[k] is FrameOffset);
            } else {
                assert(b[k - a.len()] is FrameOffset);
            }
        }
    }
}

/// The values that the variables that are live at `pc` in a function are found
/// by. The values that give the frame base are among them where a variable is
/// found by it.
pub fn locations_at(die: &Die<'_>, pc: CodeOffset) -> (r: Result<WasmLocations, DebugError>)
    requires
        die.wf(),
    ensures
        match r {
            Ok(locs) => needed_locations(die.ctx.unit@, die.index as int, pc.0) == Ok::<
                LocationsModel,
                DebugError,
            >(locs@),
            Err(e) => needed_locations(die.ctx.unit@, die.index as int, pc.0) == Err::<
                LocationsModel,
                DebugError,
            >(e),
        },
{
    if die.tag() != DW_TAG_SUBPROGRAM {
        return Err(DebugError::NotSubprogram);
    }
    let vars = get_variables(die, pc);
    let encoding = die.ctx.unit.encoding;
    let ghost es = die.ctx.unit@.entries;
    let ghost all = die_indices(vars@);
    let mut locs = WasmLocations::new();
    let mut based = false;
    let mut i: usize = 0;
    let ghost mut seen: Seq<ExprOp> = seq![];
    while i < vars.len()
        invariant
            i <= vars@.len(),
            all == die_indices(vars@),
            all == live_variables(es, die.index as int, pc.0),
            es == die.ctx.unit@.entries,
            encoding == die.ctx.unit@.encoding,
            die.wf(),
            die.entry().tag == DW_TAG_SUBPROGRAM,
            forall|n: int|
                0 <= n < vars@.len() ==> (#[trigger] vars@[n]).wf() && vars@[n].ctx == die.ctx,
            variable_operations(es, all.take(i as int), pc.0, encoding) == Some(seen),
            locs@ == with_operations(no_locations(), seen),
            based == needs_frame_base(seen),
        decreases vars@.len() - i,
    {
        assert(all.take(i + 1).drop_last() =~= all.take(i as int));
        assert(all.take(i + 1).last() == vars@[i as int].index);
        assert(es[all[i as int]] == vars@[i as int].entry());
        if let Some(expr) = get_location(&vars[i], pc) {
            match operations(&expr, encoding) {
                Ok(ops) => {
                    if locs.add_operations(&ops) {
                        based = true;
                    }
                    proof {
                        operations_join(no_locations(), seen, ops@);
                        seen = seen + ops@;
                    }
                },
                Err(_) => {
                    proof {
                        some_unreadable(es, all, pc.0, encoding, i + 1);
                    }
                    return Err(DebugError::Malformed);
                },
            }
        }
        i = i + 1;
    }
    assert(all.take(all.len() as int) =~= all);
    if based {
        if let Some(base) = die.expression(DW_AT_FRAME_BASE, pc) {
            match operations(&base, encoding) {
                Ok(ops) => {
                    locs.add_operations(&ops);
                },
                Err(_) => {
                    return Err(DebugError::Malformed);
                },
            }
        }
    }
    Ok(locs)
}

proof fn some_unreadable(
    es: Seq<EntryModel>,
    vars: Seq<int>,
    pc: u64,
    encoding: UnitEncoding,
    n: int,
)
    requires
        0 <= n <= vars.len(),
        variable_operations(es, vars.take(n), pc, encoding) is None,
    ensures
        variable_operations(es, vars, pc, encoding) is None,
    decreases vars.len() - n,
{
    if n < vars.len() {
        assert(vars.take(n + 1).drop_last() =~= vars.take(n));
        some_unreadable(es, vars, pc, encoding, n + 1);
    } else {
        assert(vars.take(n) =~= vars);
    }
}

proof fn operations_are_kept(l: LocationsModel, ops: Seq<ExprOp>, x: usize)
    requires
        l.wf(),
    ensures
        with_operations(l, ops).wf(),
        with_operations(l, ops).locals.contains(x) <==> l.locals.contains(x) || exists|j: int|
            0 <= j < ops.len() && (#[trigger] ops[j] matches ExprOp::WasmLocal(i) && i == x),
        with_operations(l, ops).globals.contains(x) <==> l.globals.contains(x) || exists|j: int|
            0 <= j < ops.len() && (#[trigger] ops[j] matches ExprOp::WasmGlobal(i) && i == x),
        with_operations(l, ops).operands.contains(x) <==> l.operands.contains(x) || exists|j: int|
            0 <= j < ops.len() && (#[trigger] ops[j] matches ExprOp::WasmStack(i) && i == x),
    decreases ops.len(),
{
    if ops.len() > 0 {
        let rest = ops.drop_last();
        operations_are_kept(l, rest, x);
        let before = with_operations(l, rest);
        assert(ops[ops.len() - 1] == ops.last());
        assert forall|j: int| 0 <= j < rest.len() implies #[trigger] rest[j] == ops[j] by {}
        match ops.last() {
            ExprOp::WasmLocal(i) => {
                indices_stay_increasing(before.locals, i as usize);
                assert(with_index(before.locals, i as usize).contains(x) <==> x == i
                    || before.locals.contains(x));
            },
            ExprOp::WasmGlobal(i) => {
                indices_stay_increasing(before.globals, i as usize);
                assert(with_index(before.globals, i as usize).contains(x) <==> x == i
                    || before.globals.contains(x));
            },
            ExprOp::WasmStack(i) => {
                indices_stay_increasing(before.operands, i as usize);
                assert(with_index(before.operands, i as usize).contains(x) <==> x == i
                    || before.operands.contains(x));
            },
            _ => {},
        }
        if exists|j: int|
            0 <= j < rest.len() && (#[trigger] rest[j] matches ExprOp::WasmLocal(i) && i == x) {
            let j = choose|j: int|
                0 <= j < rest.len() && (#[trigger] rest[j] matches ExprOp::WasmLocal(i) && i == x);
            assert(ops[j] == rest[j]);
        }
        if exists|j: int|
            0 <= j < rest.len() && (#[trigger] rest[j] matches ExprOp::WasmGlobal(i) && i == x) {
            let j = choose|j: int|
                0 <= j < rest.len() && (#[trigger] rest[j] matches ExprOp::WasmGlobal(i) && i == x);
            assert(ops[j] == rest[j]);
        }
        if exists|j: int|
            0 <= j < rest.len() && (#[trigger] rest[j] matches ExprOp::WasmStack(i) && i == x) {
            let j = choose|j: int|
                0 <= j < rest.len() && (#[trigger] rest[j] matches ExprOp::WasmStack(i) && i == x);
            assert(ops[j] == rest[j]);
        }
        if exists|j: int|
            0 <= j < ops.len() && (#[trigger] ops[j] matches ExprOp::WasmLocal(i) && i == x) {
            let j = choose|j: int|
                0 <= j < ops.len() && (#[trigger] ops[j] matches ExprOp::WasmLocal(i) && i == x);
            if j < rest.len() {
                assert(rest[j] == ops[j]);
            }
        }
        if exists|j: int|
            0 <= j < ops.len() && (#[trigger] ops[j] matches ExprOp::WasmGlobal(i) && i == x) {
            let j = choose|j: int|
                0 <= j < ops.len() && (#[trigger] ops[j] matches ExprOp::WasmGlobal(i) && i == x);
            if j < rest.len() {
                assert(rest[j] == ops[j]);
            }
        }
        if exists|j: int|
            0 <= j < ops.len() && (#[trigger] ops[j] matches ExprOp::WasmStack(i) && i == x) {
            let j = choose|j: int|
                0 <= j < ops.len() && (#[trigger] ops[j] matches ExprOp::WasmStack(i) && i == x);
            if j < rest.len() {
                assert(rest[j] == ops[j]);
            }
        }
    }
}

/// Whether an operation asks for a value: for the local, the global or the operand with
/// a number.
pub open spec fn asks_for(op: ExprOp, location: WasmLocation) -> bool {
    match location {
        WasmLocation::Local(x) => op matches ExprOp::WasmLocal(i) && i == x,
        WasmLocation::Global(x) => op matches ExprOp::WasmGlobal(i) && i == x,
        WasmLocation::Operand(x) => op matches ExprOp::WasmStack(i) && i == x,
    }
}

/// Whether a value is among those that variables are found by.
pub open spec fn is_among(l: LocationsModel, location: WasmLocation) -> bool {
    match location {
        WasmLocation::Local(x) => l.locals.contains(x),
        WasmLocation::Global(x) => l.globals.contains(x),
        WasmLocation::Operand(x) => l.operands.contains(x),
    }
}

/// Whether one of the operations asks for a value.
pub open spec fn some_asks_for(ops: Seq<ExprOp>, location: WasmLocation) -> bool {
    exists|j: int| 0 <= j < ops.len() && asks_for(#[trigger] ops[j], location)
}

proof fn asked_is_among(l: LocationsModel, ops: Seq<ExprOp>, location: WasmLocation)
    requires
        l.wf(),
    ensures
        is_among(with_operations(l, ops), location) <==> is_among(l, location) || some_asks_for(
            ops,
            location,
        ),
{
    let x = match location {
        WasmLocation::Local(x) => x,
        WasmLocation::Global(x) => x,
        WasmLocation::Operand(x) => x,
    };
    operations_are_kept(l, ops, x);
    if is_among(with_operations(l, ops), location) && !is_among(l, location) {
        match location {
            WasmLocation::Local(x) => {
                let j = choose|j: int|
                    0 <= j < ops.len() && (#[trigger] ops[j] matches ExprOp::WasmLocal(i) && i == x);
                assert(asks_for(ops[j], location));
            },
            WasmLocation::Global(x) => {
                let j = choose|j: int|
                    0 <= j < ops.len() && (#[trigger] ops[j] matches ExprOp::WasmGlobal(i) && i
                        == x);
                assert(asks_for(ops[j], location));
            },
            WasmLocation::Operand(x) => {
                let j = choose|j: int|
                    0 <= j < ops.len() && (#[trigger] ops[j] matches ExprOp::WasmStack(i) && i == x);
                assert(asks_for(ops[j], location));
            },
        }
    }
}

/// The operations of the location of a variable are among those of all of them, and so
/// are none but those.
pub proof fn variables_have_operations(
    es: Seq<EntryModel>,
    vars: Seq<int>,
    k: int,
    pc: u64,
    encoding: UnitEncoding,
)
    ensures
        ({
            let before = variable_operations(es, vars, pc, encoding);
            let after = variable_operations(es, vars.push(k), pc, encoding);
            match (before, expression_at(es[k], 0x02, pc)) {
                (None, _) => after is None,
                (Some(ops), None) => after == Some(ops),
                (Some(ops), Some(expr)) => {
                    let more = operations_of(expr, encoding);
                    if forall|j: int| 0 <= j < more.len() ==> (#[trigger] more[j]) is Some {
                        after matches Some(all) && all == ops + readable(more)
                    } else {
                        after is None
                    }
                },
            }
        }),
        variable_operations(es, seq![], pc, encoding) == Some(Seq::<ExprOp>::empty()),
{
    assert(vars.push(k).drop_last() =~= vars);
}

/// At a breakpoint a value is needed where the location of a live variable asks for it,
/// or where such a location is relative to the frame base and the expression of that
/// asks for it. Nothing else is needed.
pub proof fn what_variables_ask_for_is_needed(
    u: UnitView,
    i: int,
    pc: u64,
    ops: Seq<ExprOp>,
    location: WasmLocation,
)
    requires
        u.entries[i].tag == 0x2e,
        variable_operations(u.entries, live_variables(u.entries, i, pc), pc, u.encoding) == Some(ops),
        needed_locations(u, i, pc) is Ok,
    ensures
        ({
            let relative = exists|j: int| 0 <= j < ops.len() && (#[trigger] ops[j]) is FrameOffset;
            is_among(needed_locations(u, i, pc)->Ok_0, location) <==> some_asks_for(ops, location) || (
            relative && match expression_at(u.entries[i], 0x40, pc) {
                Some(base) => some_asks_for(readable(operations_of(base, u.encoding)), location),
                None => false,
            })
        }),
{
    asked_is_among(no_locations(), ops, location);
    let found = with_operations(no_locations(), ops);
    operations_keep_order(no_locations(), ops);
    if let Some(base) = expression_at(u.entries[i], 0x40, pc) {
        asked_is_among(found, readable(operations_of(base, u.encoding)), location);
    }
}

} // verus!
