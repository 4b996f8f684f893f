//! Instrumenting a module.
use std::collections::HashMap;
use vstd::prelude::*;
use vstd::std_specs::hash::*;

use crate::debug::dwarf::unit::{Location, UnitView};
use crate::debug::dwarf::{all_locations, dwarf_of};
use crate::debug::info::{MAX_PAGES, MEMORY_GROWTH, all_functions, by_pc,
    create_breakpoints_buffer, fresh_buffer, is_info_of, parse_debug_info};
use crate::error::DebugError;
use crate::types::{BP_PREFIX_BYTES, CodeOffset, DebugInfo, FunctionModel, MemoryType, function_at,
    functions_are_found, functions_of};
use crate::wasm::module::{custom_sections, initial_pages, module_readable};
use crate::wasm::reader::{ImportKind, SectionCursor, SectionKind, SectionModel, check_section,
    current_section, import_cursor, imports_left, next_import, next_section, open_body, parts_of,
    section_cursor, section_unchecked, sections_left, sections_of, within_module};
use super::function::{FnInstrumenter, FunctionPlan, PlanModel, Surroundings, function_planned,
    instrumented_frames_are_well_laid_out};

verus! {

broadcast use {vstd::seq_lib::group_seq_properties, vstd::std_specs::hash::group_hash_axioms};

/// How the functions and globals of an instrumented module are numbered: the
/// breakpoint function and the debug stack pointer are the last imports.
#[derive(Debug, Clone, Copy, PartialEq, Eq, Structural)]
pub struct Numbering {
    pub num_imported_functions: u32,
    pub num_imported_globals: u32,
    /// Where the contents of the code section start in the module.
    pub code_section_start: u64,
}

impl Numbering {
    /// The number of the breakpoint function.
    pub open spec fn bkpt(self) -> u32 {
        self.num_imported_functions
    }

    /// The number of the debug stack pointer.
    pub open spec fn sp(self) -> u32 {
        self.num_imported_globals
    }

    /// The number that a function has in the instrumented module.
    pub open spec fn renumbered_function(self, func: u32) -> u32 {
        if func >= self.num_imported_functions {
            vstd::wrapping::u32_specs::wrapping_add(func, 1)
        } else {
            func
        }
    }

    /// The number that a global has in the instrumented module.
    pub open spec fn renumbered_global(self, global: u32) -> u32 {
        if global >= self.num_imported_globals {
            vstd::wrapping::u32_specs::wrapping_add(global, 1)
        } else {
            global
        }
    }

    /// An offset into the module as one into the code section.
    pub open spec fn code_offset(self, address: u64) -> CodeOffset {
        CodeOffset(
            if address >= self.code_section_start {
                (address - self.code_section_start) as u64
            } else {
                0
            },
        )
    }

    pub fn bkpt_fn_index(&self) -> (r: u32)
        ensures
            r == self.bkpt(),
    {
        self.num_imported_functions
    }

    pub fn sp_gl_index(&self) -> (r: u32)
        ensures
            r == self.sp(),
    {
        self.num_imported_globals
    }

    pub fn function_index(&self, func: u32) -> (r: u32)
        ensures
            r == self.renumbered_function(func),
    {
        if func >= self.num_imported_functions {
            func.wrapping_add(1)
        } else {
            func
        }
    }

    pub fn global_index(&self, global: u32) -> (r: u32)
        ensures
            r == self.renumbered_global(global),
    {
        if global >= self.num_imported_globals {
            global.wrapping_add(1)
        } else {
            global
        }
    }

    /// Converts an offset into the WASM binary into an offset relative to the code section.
    /// DWARF represents PC values relative to start of the code section.
    pub fn code_ofs(&self, address: u64) -> (r: CodeOffset)
        ensures
            r == self.code_offset(address),
    {
        CodeOffset(address.saturating_sub(self.code_section_start))
    }
}

/// Functions and globals keep apart when they are renumbered, and none of them
/// takes the number of the breakpoint function or of the debug stack pointer.
pub proof fn renumbering_makes_room(n: Numbering, a: u32, b: u32)
    requires
        a < u32::MAX,
        b < u32::MAX,
    ensures
        n.renumbered_function(a) != n.bkpt(),
        n.renumbered_global(a) != n.sp(),
        a != b ==> n.renumbered_function(a) != n.renumbered_function(b),
        a != b ==> n.renumbered_global(a) != n.renumbered_global(b),
        a < n.num_imported_functions ==> n.renumbered_function(a) == a,
        a < n.num_imported_globals ==> n.renumbered_global(a) == a,
        a >= n.num_imported_functions ==> n.renumbered_function(a) == a + 1,
        a >= n.num_imported_globals ==> n.renumbered_global(a) == a + 1,
{
}

/// What an instrumented module imports from `debug`, behind its own imports.
#[derive(Debug, Clone, Copy, PartialEq, Eq, Structural)]
pub enum DebugImport {
    /// The breakpoint function, which takes the number of a location.
    Breakpoint,
    /// The memory of the program, which it shares with the debugger.
    Memory(MemoryType),
    /// The debug stack.
    Stack(MemoryType),
    /// The debug stack pointer, a mutable number.
    StackPointer,
}

impl DebugImport {
    /// The name of the import.
    pub open spec fn named(self) -> Seq<char> {
        match self {
            DebugImport::Breakpoint => "bkpt"@,
            DebugImport::Memory(_) => "memory"@,
            DebugImport::Stack(_) => "stack"@,
            DebugImport::StackPointer => "sp"@,
        }
    }

    /// The name of the import.
    pub fn name(&self) -> (r: &'static str)
        ensures
            r@ == self.named(),
    {
        match self {
            DebugImport::Breakpoint => "bkpt",
            DebugImport::Memory(_) => "memory",
            DebugImport::Stack(_) => "stack",
            DebugImport::StackPointer => "sp",
        }
    }
}

/// What an instrumented module imports from `debug`, in order: the memory of
/// the program comes before the debug stack.
pub fn debug_imports(info: &DebugInfo) -> (r: Vec<DebugImport>)
    ensures
        r@ == seq![
            DebugImport::Breakpoint,
            DebugImport::Memory(info.memory.ty),
            DebugImport::Stack(info.stack.ty),
            DebugImport::StackPointer,
        ],
{
    let mut out: Vec<DebugImport> = Vec::new();
    out.push(DebugImport::Breakpoint);
    out.push(DebugImport::Memory(info.memory.ty));
    out.push(DebugImport::Stack(info.stack.ty));
    out.push(DebugImport::StackPointer);
    out
}

/// The first place that the debug information knows at an address.
pub open spec fn location_at(known: Seq<Location>, pc: CodeOffset) -> Option<Location>
    decreases known.len(),
{
    if known.len() == 0 {
        None
    } else if known[0].address == pc {
        Some(known[0])
    } else {
        location_at(known.skip(1), pc)
    }
}

/// A place that is found is one of those known at the address, and none before it
/// is; where none is found, none is known.
pub proof fn place_is_first(known: Seq<Location>, pc: CodeOffset)
    ensures
        match location_at(known, pc) {
            Some(l) => exists|i: int|
                {
                    &&& 0 <= i < known.len()
                    &&& #[trigger] known[i] == l
                    &&& l.address.0 == pc.0
                    &&& forall|j: int| 0 <= j < i ==> (#[trigger] known[j]).address.0 != pc.0
                },
            None => forall|i: int|
                0 <= i < known.len() ==> (#[trigger] known[i]).address.0 != pc.0,
        },
    decreases known.len(),
{
    if known.len() > 0 {
        if known[0].address == pc {
            assert(known[0] == location_at(known, pc)->0);
        } else {
            let rest = known.skip(1);
            place_is_first(rest, pc);
            assert forall|j: int| 0 < j < known.len() implies known[j] == rest[j - 1] by {}
            if let Some(l) = location_at(rest, pc) {
                let i = choose|i: int|
                    {
                        &&& 0 <= i < rest.len()
                        &&& #[trigger] rest[i] == l
                        &&& l.address.0 == pc.0
                        &&& forall|j: int| 0 <= j < i ==> (#[trigger] rest[j]).address.0 != pc.0
                    };
                assert(known[i + 1] == l);
                assert forall|j: int| 0 <= j < i + 1 implies (#[trigger] known[j]).address.0
                    != pc.0 by {
                    if j > 0 {
                        assert(rest[j - 1] == known[j]);
                    }
                }
            }
        }
    }
}

/// The places that the debug information knows, by address.
#[derive(Debug)]
pub struct Breakpoints {
    known: Vec<Location>,
    /// The first place of each address.
    by_address: HashMap<u64, usize>,
}

impl View for Breakpoints {
    type V = Seq<Location>;

    closed spec fn view(&self) -> Seq<Location> {
        self.known@
    }
}

impl Breakpoints {
    /// Whether the places are found by their addresses.
    pub closed spec fn wf(&self) -> bool {
        forall|pc: CodeOffset|
            #[trigger] location_at(self.known@, pc) == found_by(
                self.known@,
                self.by_address@,
                pc,
            )
    }

    pub fn new(known: Vec<Location>) -> (r: Self)
        ensures
            r.wf(),
            r@ == known@,
    {
        let ghost all = known@;
        let mut by_address: HashMap<u64, usize> = HashMap::new();
        let mut i: usize = known.len();
        assert(all.skip(all.len() as int) =~= seq![]);
        while i > 0
            invariant
                all == known@,
                i <= all.len(),
                forall|pc: CodeOffset|
                    #[trigger] location_at(all.skip(i as int), pc) == found_by(
                        all,
                        by_address@,
                        pc,
                    ),
            decreases i,
        {
            let ghost before = by_address@;
            i = i - 1;
            by_address.insert(known[i].address.0, i);
            assert(all.skip(i as int)[0] == all[i as int]);
            assert(all.skip(i as int).skip(1) =~= all.skip(i + 1));
            assert forall|pc: CodeOffset|
                #[trigger] location_at(all.skip(i as int), pc) == found_by(
                    all,
                    by_address@,
                    pc,
                ) by {
                assert(location_at(all.skip(i + 1), pc) == found_by(all, before, pc));
            }
        }
        assert(all.skip(0) =~= all);
        Breakpoints { known, by_address }
    }

    /// The first place at an address.
    pub fn get(&self, pc: CodeOffset) -> (r: Option<Location>)
        requires
            self.wf(),
        ensures
            r == location_at(self@, pc),
    {
        assert(location_at(self.known@, pc) == found_by(self.known@, self.by_address@, pc));
        match self.by_address.get(&pc.0) {
            Some(i) => if *i < self.known.len() {
                Some(self.known[*i])
            } else {
                None
            },
            None => None,
        }
    }
}

/// The place that is found by an address.
spec fn found_by(known: Seq<Location>, by_address: Map<u64, usize>, pc: CodeOffset) -> Option<
    Location,
> {
    if by_address.contains_key(pc.0) && by_address[pc.0] < known.len() {
        Some(known[by_address[pc.0] as int])
    } else {
        None
    }
}


// ---------------------------------------------------------------------------
// The whole module
// ---------------------------------------------------------------------------

/// How many of the imports are of a kind.
pub open spec fn imported(imports: Seq<Option<ImportKind>>, kind: ImportKind) -> nat
    decreases imports.len(),
{
    if imports.len() == 0 {
        0
    } else {
        imported(imports.drop_last(), kind) + if imports.last() == Some(kind) {
            1nat
        } else {
            0
        }
    }
}

/// What has been made of a module.
pub struct ModuleModel {
    pub numbers: Numbering,
    pub functions: Seq<FunctionModel>,
    /// The places that breakpoints can be set at.
    pub locations: Seq<Location>,
    /// The functions of the module in their order, `None` for one that stays
    /// as it is.
    pub plans: Seq<Option<PlanModel>>,
}

/// What a section that holds imports adds.
pub open spec fn imports_counted(s: SectionModel, m: ModuleModel) -> Result<
    ModuleModel,
    DebugError,
> {
    let functions = m.numbers.num_imported_functions + imported(s.imports, ImportKind::Function);
    let globals = m.numbers.num_imported_globals + imported(s.imports, ImportKind::Global);
    if exists|i: int| 0 <= i < s.imports.len() && (#[trigger] s.imports[i]) is None {
        Err(DebugError::Malformed)
    } else if functions > u32::MAX || globals > u32::MAX {
        Err(DebugError::OutOfRange)
    } else {
        Ok(
            ModuleModel {
                numbers: Numbering {
                    num_imported_functions: functions as u32,
                    num_imported_globals: globals as u32,
                    ..m.numbers
                },
                ..m
            },
        )
    }
}

/// What the code of a function adds. One that the debug information does not
/// know stays as it is.
pub open spec fn body_planned(
    units: Seq<UnitView>,
    known: Seq<Location>,
    s: SectionModel,
    start: u64,
    m: ModuleModel,
) -> Result<ModuleModel, DebugError> {
    match function_at(m.functions, m.numbers.code_offset(start)) {
        None => Ok(ModuleModel { plans: m.plans.push(None), ..m }),
        Some(f) => match s.body {
            None => Err(DebugError::Malformed),
            Some(body) => match function_planned(
                Surroundings {
                    numbers: m.numbers,
                    units,
                    known,
                    locals: body.locals,
                    globals: body.globals,
                },
                body,
                m.functions[f],
                m.locations,
            ) {
                Err(e) => Err(e),
                Ok((plan, func, locations)) => Ok(
                    ModuleModel {
                        functions: m.functions.update(f, func),
                        locations,
                        plans: m.plans.push(Some(plan)),
                        ..m
                    },
                ),
            },
        },
    }
}

/// What a section adds. Nothing but a module is instrumented.
pub open spec fn section_planned(
    units: Seq<UnitView>,
    known: Seq<Location>,
    s: SectionModel,
    m: ModuleModel,
) -> Result<ModuleModel, DebugError> {
    if s.kind == SectionKind::Component || !s.accepted {
        Err(DebugError::Malformed)
    } else {
        match s.kind {
            SectionKind::Imports => imports_counted(s, m),
            SectionKind::CodeStart(start) => Ok(
                ModuleModel {
                    numbers: Numbering { code_section_start: start, ..m.numbers },
                    ..m
                },
            ),
            SectionKind::Body(start) => body_planned(units, known, s, start, m),
            _ => Ok(m),
        }
    }
}

/// What the sections from `k` on add.
pub open spec fn module_planned(
    units: Seq<UnitView>,
    known: Seq<Location>,
    sections: Seq<Option<SectionModel>>,
    k: int,
    m: ModuleModel,
) -> Result<ModuleModel, DebugError>
    decreases sections.len() - k,
{
    if k >= sections.len() {
        Ok(m)
    } else {
        match sections[k] {
            None => Err(DebugError::Malformed),
            Some(s) => match section_planned(units, known, s, m) {
                Err(e) => Err(e),
                Ok(m) => module_planned(units, known, sections, k + 1, m),
            },
        }
    }
}

/// A module of which nothing has been read.
pub open spec fn nothing_planned(functions: Seq<FunctionModel>) -> ModuleModel {
    ModuleModel {
        numbers: Numbering {
            num_imported_functions: 0,
            num_imported_globals: 0,
            code_section_start: 0,
        },
        functions,
        locations: seq![],
        plans: seq![],
    }
}

/// The values of a list of plans.
pub open spec fn plans_of(v: Seq<Option<FunctionPlan>>) -> Seq<Option<PlanModel>> {
    v.map_values(
        |p: Option<FunctionPlan>|
            match p {
                Some(plan) => Some(plan@),
                None => None,
            },
    )
}

/// How a module is instrumented, and what is known of it.
#[derive(Debug)]
pub struct InstrumenterResult {
    pub numbers: Numbering,
    /// The functions of the module in their order, `None` for one that stays
    /// as it is.
    pub functions: Vec<Option<FunctionPlan>>,
    pub info: DebugInfo,
}

/// Plans the instrumentation of a module.
pub struct Instrumenter {
    info: DebugInfo,
    numbers: Numbering,
    breakpoints: Breakpoints,
    locations: Vec<Location>,
    plans: Vec<Option<FunctionPlan>>,
}

impl View for Instrumenter {
    type V = ModuleModel;

    closed spec fn view(&self) -> ModuleModel {
        ModuleModel {
            numbers: self.numbers,
            functions: self.info@.functions,
            locations: self.locations@,
            plans: plans_of(self.plans@),
        }
    }
}

impl Instrumenter {
    /// The units of the program.
    pub closed spec fn units(&self) -> Seq<UnitView> {
        self.info.dwarf@.units
    }

    /// The places that the debug information knows.
    pub closed spec fn known(&self) -> Seq<Location> {
        self.breakpoints@
    }

    /// Whether the places are found by their addresses.
    pub closed spec fn wf(&self) -> bool {
        self.breakpoints.wf()
    }

    pub fn new(info: DebugInfo) -> (r: Self)
        ensures
            r.wf(),
            r@ == nothing_planned(info@.functions),
            r.units() == info.dwarf@.units,
            r.known() == all_locations(info.dwarf@.units),
            r.kept() == info,
    {
        let breakpoints = Breakpoints::new(info.dwarf.locations());
        let locations: Vec<Location> = Vec::new();
        let plans: Vec<Option<FunctionPlan>> = Vec::new();
        assert(locations@ =~= seq![]);
        assert(plans_of(plans@) =~= seq![]);
        Instrumenter {
            info,
            numbers: Numbering {
                num_imported_functions: 0,
                num_imported_globals: 0,
                code_section_start: 0,
            },
            breakpoints,
            locations,
            plans,
        }
    }

    /// What is known of the program.
    pub closed spec fn kept(&self) -> DebugInfo {
        self.info
    }

    /// Whether nothing but what is planned differs from `other`.
    pub closed spec fn continues(&self, other: &Instrumenter) -> bool {
        &&& self.breakpoints == other.breakpoints
        &&& self.info.dwarf == other.info.dwarf
        &&& self.info.memory == other.info.memory
        &&& self.info.stack == other.info.stack
        &&& self.info.separate_stack == other.info.separate_stack
    }

    /// Counts the imports that the cursor stands on.
    fn count_imports(&mut self, sections: &SectionCursor<'_>) -> (r: Result<(), DebugError>)
        requires
            current_section(*sections).kind is Imports,
        ensures
            match r {
                Ok(_) => imports_counted(current_section(*sections), old(self)@) == Ok::<
                    ModuleModel,
                    DebugError,
                >(final(self)@),
                Err(e) => imports_counted(current_section(*sections), old(self)@) == Err::<
                    ModuleModel,
                    DebugError,
                >(e),
            },
            final(self).continues(old(self)),
    {
        let ghost all = current_section(*sections).imports;
        let mut cursor = import_cursor(sections);
        let mut functions: u64 = 0;
        let mut globals: u64 = 0;
        let ghost mut n: int = 0;
        assert(all.skip(0) =~= all);
        let mut over = false;
        loop
            invariant_except_break
                imports_left(cursor) == all.skip(n),
            invariant
                all == current_section(*sections).imports,
                *self == *old(self),
                0 <= n <= all.len(),
                forall|i: int| 0 <= i < n ==> (#[trigger] all[i]) is Some,
                over ==> imported(all.take(n), ImportKind::Function) > u32::MAX || imported(
                    all.take(n),
                    ImportKind::Global,
                ) > u32::MAX,
                !over ==> functions == imported(all.take(n), ImportKind::Function) <= u32::MAX,
                !over ==> globals == imported(all.take(n), ImportKind::Global) <= u32::MAX,
            ensures
                n == all.len(),
            decreases all.len() - n,
        {
            let ghost rest = all.skip(n);
            let kind = match next_import(&mut cursor) {
                Ok(Some(kind)) => kind,
                Ok(None) => {
                    break ;
                },
                Err(_) => {
                    assert(rest[0] == all[n]);
                    return Err(DebugError::Malformed);
                },
            };
            assert(rest[0] == all[n]);
            assert(rest.skip(1) =~= all.skip(n + 1));
            assert(all.take(n + 1).drop_last() =~= all.take(n));
            assert(all.take(n + 1).last() == all[n]);
            if !over {
                match kind {
                    ImportKind::Function => {
                        functions = functions + 1;
                    },
                    ImportKind::Global => {
                        globals = globals + 1;
                    },
                    ImportKind::Other => {},
                }
                if functions > u32::MAX as u64 || globals > u32::MAX as u64 {
                    over = true;
                }
            }
            proof {
                n = n + 1;
            }
        }
        assert(all.take(n) =~= all);
        if over {
            return Err(DebugError::OutOfRange);
        }
        let f: u64 = self.numbers.num_imported_functions as u64 + functions;
        let g: u64 = self.numbers.num_imported_globals as u64 + globals;
        if f > u32::MAX as u64 || g > u32::MAX as u64 {
            return Err(DebugError::OutOfRange);
        }
        self.numbers.num_imported_functions = f as u32;
        self.numbers.num_imported_globals = g as u32;
        Ok(())
    }

    /// Plans the function that the cursor stands on.
    fn plan_body(&mut self, sections: &mut SectionCursor<'_>, start: u64) -> (r: Result<
        (),
        DebugError,
    >)
        requires
            old(self).wf(),
            current_section(*old(sections)).kind is Body,
            !section_unchecked(*old(sections)),
            within_module(*old(sections)),
        ensures
            match r {
                Ok(_) => body_planned(
                    old(self).units(),
                    old(self).known(),
                    current_section(*old(sections)),
                    start,
                    old(self)@,
                ) == Ok::<ModuleModel, DebugError>(final(self)@),
                Err(e) => body_planned(
                    old(self).units(),
                    old(self).known(),
                    current_section(*old(sections)),
                    start,
                    old(self)@,
                ) == Err::<ModuleModel, DebugError>(e),
            },
            final(self).continues(old(self)),
            sections_left(*final(sections)) == sections_left(*old(sections)),
            !section_unchecked(*final(sections)),
            within_module(*final(sections)),
    {
        let ghost plans_before = self.plans@;
        let f: usize = match self.info.fn_index_at(self.numbers.code_ofs(start)) {
            Some(f) => f,
            None => {
                self.plans.push(None);
                assert(plans_of(self.plans@) =~= plans_of(plans_before).push(None));
                return Ok(());
            },
        };
        let body = match open_body(sections) {
            Ok(body) => body,
            Err(_) => {
                return Err(DebugError::Malformed);
            },
        };
        let instrumenter = FnInstrumenter {
            numbers: self.numbers,
            dwarf: &self.info.dwarf,
            breakpoints: &self.breakpoints,
            body,
        };
        let ghost functions_before = self.info.functions@;
        assert(self.info@.functions[f as int] == functions_before[f as int]@);
        match instrumenter.instrument(&self.info.functions[f], &mut self.locations) {
            Ok(result) => {
                self.info.functions.set(f, result.func);
                self.plans.push(Some(result.plan));
                assert(plans_of(self.plans@) =~= plans_of(plans_before).push(
                    Some(result.plan@),
                ));
                assert(functions_of(self.info.functions@) =~= functions_of(
                    functions_before,
                ).update(f as int, result.func@));
                Ok(())
            },
            Err(e) => Err(e),
        }
    }

    /// Plans the module whose sections are `sections`.
    fn plan_sections(&mut self, wasm: &Vec<u8>) -> (r: Result<(), DebugError>)
        requires
            old(self).wf(),
        ensures
            match r {
                Ok(_) => module_planned(
                    old(self).units(),
                    old(self).known(),
                    sections_of(wasm@),
                    0,
                    old(self)@,
                ) == Ok::<ModuleModel, DebugError>(final(self)@),
                Err(e) => module_planned(
                    old(self).units(),
                    old(self).known(),
                    sections_of(wasm@),
                    0,
                    old(self)@,
                ) == Err::<ModuleModel, DebugError>(e),
            },
            final(self).continues(old(self)),
    {
        let ghost all = sections_of(wasm@);
        let ghost units = self.units();
        let ghost known = self.known();
        let ghost start = self@;
        let mut sections = section_cursor(wasm);
        let ghost mut n: int = 0;
        assert(all.skip(0) =~= all);
        loop
            invariant
                all == sections_of(wasm@),
                self.wf(),
                self.units() == units,
                self.known() == known,
                units == old(self).units(),
                known == old(self).known(),
                start == old(self)@,
                self.continues(old(self)),
                0 <= n <= all.len(),
                sections_left(sections) == all.skip(n),
                !section_unchecked(sections),
                within_module(sections),
                module_planned(units, known, all, 0, start) == module_planned(
                    units,
                    known,
                    all,
                    n,
                    self@,
                ),
            decreases all.len() - n,
        {
            let ghost rest = all.skip(n);
            let kind = match next_section(&mut sections) {
                Ok(Some(kind)) => kind,
                Ok(None) => {
                    return Ok(());
                },
                Err(_) => {
                    assert(rest[0] == all[n]);
                    return Err(DebugError::Malformed);
                },
            };
            assert(rest[0] == all[n]);
            assert(rest.skip(1) =~= all.skip(n + 1));
            if kind == SectionKind::Component {
                return Err(DebugError::Malformed);
            }
            match check_section(&mut sections) {
                Ok(_) => {},
                Err(_) => {
                    return Err(DebugError::Malformed);
                },
            }
            let r = match kind {
                SectionKind::Imports => self.count_imports(&sections),
                SectionKind::CodeStart(start) => {
                    self.numbers.code_section_start = start;
                    Ok(())
                },
                SectionKind::Body(start) => self.plan_body(&mut sections, start),
                _ => Ok(()),
            };
            if let Err(e) = r {
                return Err(e);
            }
            proof {
                n = n + 1;
            }
        }
    }

    /// What has been planned, and what is known of the program now: its
    /// frames, and the places that breakpoints can be set at.
    fn finish(self) -> (r: Result<InstrumenterResult, DebugError>)
        ensures
            match r {
                Ok(result) => {
                    &&& result.numbers == self@.numbers
                    &&& plans_of(result.functions@) == self@.plans
                    &&& result.info@.functions == self@.functions
                    &&& result.info@.locations == self@.locations
                    &&& result.info@.breakpoints == fresh_buffer(self@.locations.len())
                    &&& result.info.memory == self.kept().memory
                    &&& result.info.stack == self.kept().stack
                    &&& result.info.separate_stack == self.kept().separate_stack
                    &&& result.info.dwarf == self.kept().dwarf
                },
                Err(e) => e == DebugError::OutOfRange && self@.locations.len() + BP_PREFIX_BYTES
                    > usize::MAX,
            },
    {
        if self.locations.len() > usize::MAX - BP_PREFIX_BYTES {
            return Err(DebugError::OutOfRange);
        }
        let breakpoints = create_breakpoints_buffer(self.locations.len());
        let info = DebugInfo {
            functions: self.info.functions,
            locations: self.locations,
            breakpoints,
            memory: self.info.memory,
            stack: self.info.stack,
            separate_stack: self.info.separate_stack,
            dwarf: self.info.dwarf,
        };
        Ok(InstrumenterResult { numbers: self.numbers, functions: self.plans, info })
    }
}

/// Whether `result` is how the module that is known as `info` is instrumented.
pub open spec fn is_instrumented(wasm: Seq<u8>, info: DebugInfo, result: InstrumenterResult) -> bool {
    let units = info.dwarf@.units;
    let planned = module_planned(
        units,
        all_locations(units),
        sections_of(wasm),
        0,
        nothing_planned(info@.functions),
    );
    &&& planned is Ok
    &&& result.numbers == planned->Ok_0.numbers
    &&& plans_of(result.functions@) == planned->Ok_0.plans
    &&& result.info@.functions == planned->Ok_0.functions
    &&& result.info@.locations == planned->Ok_0.locations
    &&& result.info@.breakpoints == fresh_buffer(planned->Ok_0.locations.len())
    &&& result.info.memory == info.memory
    &&& result.info.stack == info.stack
    &&& result.info.separate_stack == info.separate_stack
    &&& result.info.dwarf == info.dwarf
}

/// Plans how a module is instrumented, of which `info` is known.
pub fn instrument_known(wasm: &Vec<u8>, info: DebugInfo) -> (r: Result<
    InstrumenterResult,
    DebugError,
>)
    ensures
        ({
            let units = info.dwarf@.units;
            let planned = module_planned(
                units,
                all_locations(units),
                sections_of(wasm@),
                0,
                nothing_planned(info@.functions),
            );
            match r {
                Ok(result) => is_instrumented(wasm@, info, result),
                Err(e) => planned == Err::<ModuleModel, DebugError>(e) || e
                    == DebugError::OutOfRange && planned is Ok && planned->Ok_0.locations.len()
                    + BP_PREFIX_BYTES > usize::MAX,
            }
        }),
{
    let mut instrumenter = Instrumenter::new(info);
    match instrumenter.plan_sections(wasm) {
        Ok(_) => instrumenter.finish(),
        Err(e) => Err(e),
    }
}

/// Instrument a WASM binary to support debugging
pub fn instrument_wasm(wasm: &Vec<u8>) -> (r: Result<InstrumenterResult, DebugError>)
    ensures
        ({
            let parts = parts_of(wasm@);
            let dwarf = dwarf_of(custom_sections(parts));
            let planned = module_planned(
                dwarf.units,
                all_locations(dwarf.units),
                sections_of(wasm@),
                0,
                nothing_planned(by_pc(all_functions(dwarf.units))),
            );
            match r {
                Ok(result) => {
                    &&& module_readable(parts)
                    &&& initial_pages(parts) is Ok
                    &&& exists|info: DebugInfo|
                        is_info_of(info, dwarf, initial_pages(parts)->Ok_0) && is_instrumented(
                            wasm@,
                            info,
                            result,
                        )
                },
                Err(e) => {
                    let readable = module_readable(parts) && initial_pages(parts) is Ok;
                    ||| e == DebugError::Malformed && !readable
                    ||| e == DebugError::OutOfRange && readable && (initial_pages(parts)->Ok_0
                        * MEMORY_GROWTH > MAX_PAGES || all_locations(dwarf.units).len()
                        + BP_PREFIX_BYTES > usize::MAX)
                    ||| readable && planned == Err::<ModuleModel, DebugError>(e)
                    ||| e == DebugError::OutOfRange && readable && planned is Ok
                        && planned->Ok_0.locations.len() + BP_PREFIX_BYTES > usize::MAX
                },
            }
        }),
{
    match parse_debug_info(wasm) {
        Ok(info) => instrument_known(wasm, info),
        Err(e) => Err(e),
    }
}

// ---------------------------------------------------------------------------
// What becomes of a module
// ---------------------------------------------------------------------------

/// An address of the module is one of the code section less where that starts.
pub proof fn addresses_are_those_of_the_code_section(n: Numbering, address: u64)
    requires
        n.code_section_start <= address,
    ensures
        n.code_offset(address).0 + n.code_section_start == address,
{
}

/// One more import is one more of its kind, and of no other.
pub proof fn imports_are_counted(
    imports: Seq<Option<ImportKind>>,
    last: Option<ImportKind>,
    kind: ImportKind,
)
    ensures
        last == Some(kind) ==> imported(imports.push(last), kind) == imported(imports, kind) + 1,
        last != Some(kind) ==> imported(imports.push(last), kind) == imported(imports, kind),
        imported(seq![], kind) == 0,
{
    assert(imports.push(last).drop_last() =~= imports);
}

/// What a section of a module changes. Imports are counted on by their kinds, and the
/// code section says where addresses are counted from. The code of a function adds one
/// function, which is instrumented where the debug information knows its addresses:
/// then the frame of that function is laid out, it keeps its addresses and its entry,
/// and places are added behind those that there are. Other functions stay as they are,
/// and other sections change nothing.
pub proof fn sections_are_planned(
    units: Seq<UnitView>,
    known: Seq<Location>,
    s: SectionModel,
    m: ModuleModel,
)
    ensures
        section_planned(units, known, s, m) matches Ok(after) ==> {
            &&& s.accepted
            &&& match s.kind {
                SectionKind::Imports => {
                    &&& after.numbers.num_imported_functions == m.numbers.num_imported_functions
                        + imported(s.imports, ImportKind::Function)
                    &&& after.numbers.num_imported_globals == m.numbers.num_imported_globals
                        + imported(s.imports, ImportKind::Global)
                    &&& after.numbers.code_section_start == m.numbers.code_section_start
                },
                SectionKind::CodeStart(start) => after.numbers == (Numbering {
                    code_section_start: start,
                    ..m.numbers
                }),
                _ => after.numbers == m.numbers,
            }
            &&& match s.kind {
                SectionKind::Body(start) => {
                    let f = function_at(m.functions, m.numbers.code_offset(start));
                    &&& after.plans.len() == m.plans.len() + 1
                    &&& after.plans.drop_last() == m.plans
                    &&& after.plans.last() is Some <==> f is Some
                    &&& m.locations.is_prefix_of(after.locations)
                    &&& f is None ==> after.locations == m.locations && after.functions
                        == m.functions
                    &&& f matches Some(f) ==> {
                        &&& m.functions[f].low_pc.0 <= m.numbers.code_offset(start).0
                            < m.functions[f].high_pc.0
                        &&& after.functions.len() == m.functions.len()
                        &&& after.functions[f].low_pc == m.functions[f].low_pc
                        &&& after.functions[f].high_pc == m.functions[f].high_pc
                        &&& after.functions[f].die_ref == m.functions[f].die_ref
                        &&& after.functions[f].frame_wf()
                        &&& forall|g: int|
                            0 <= g < m.functions.len() && g != f ==> #[trigger] after.functions[g]
                                == m.functions[g]
                    }
                },
                _ => after.plans == m.plans && after.locations == m.locations && after.functions
                    == m.functions,
            }
        },
{
    if let SectionKind::Body(start) = s.kind {
        if let Ok(after) = section_planned(units, known, s, m) {
            functions_are_found(m.functions, m.numbers.code_offset(start));
            assert(after.plans.drop_last() =~= m.plans);
            if let Some(f) = function_at(m.functions, m.numbers.code_offset(start)) {
                let body = s.body->0;
                let c = Surroundings {
                    numbers: m.numbers,
                    units,
                    known,
                    locals: body.locals,
                    globals: body.globals,
                };
                instrumented_frames_are_well_laid_out(c, body, m.functions[f], m.locations);
            }
        }
    }
}

/// The sections of a module are planned one after the other, from nothing.
pub proof fn modules_are_planned_in_order(
    units: Seq<UnitView>,
    known: Seq<Location>,
    sections: Seq<Option<SectionModel>>,
    k: int,
    m: ModuleModel,
    functions: Seq<FunctionModel>,
)
    requires
        0 <= k < sections.len(),
    ensures
        match sections[k] {
            Some(s) => match section_planned(units, known, s, m) {
                Ok(next) => module_planned(units, known, sections, k, m) == module_planned(
                    units,
                    known,
                    sections,
                    k + 1,
                    next,
                ),
                Err(_) => module_planned(units, known, sections, k, m) is Err,
            },
            None => module_planned(units, known, sections, k, m) is Err,
        },
        module_planned(units, known, sections, sections.len() as int, m) == Ok::<
            ModuleModel,
            DebugError,
        >(m),
        ({
            let none = nothing_planned(functions);
            &&& none.numbers.num_imported_functions == 0
            &&& none.numbers.num_imported_globals == 0
            &&& none.functions == functions
            &&& none.locations.len() == 0
            &&& none.plans.len() == 0
        }),
{
}

/// What a module imports from `debug` is called by what it is: the breakpoint function,
/// the memory of the program, the debug stack and the debug stack pointer.
pub proof fn imports_are_called_by_what_they_are(import: DebugImport)
    ensures
        import is Breakpoint <==> import.named() == "bkpt"@,
        import is Memory <==> import.named() == "memory"@,
        import is Stack <==> import.named() == "stack"@,
        import is StackPointer <==> import.named() == "sp"@,
{
    reveal_strlit("bkpt");
    reveal_strlit("memory");
    reveal_strlit("stack");
    reveal_strlit("sp");
    assert("bkpt"@.len() == 4);
    assert("memory"@.len() == 6);
    assert("stack"@.len() == 5);
    assert("sp"@.len() == 2);
}

} // verus!
