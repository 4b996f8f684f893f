//! The values that the worker, the debugger and the client exchange.
use vstd::prelude::*;

use crate::bytes::{as_signed, byte_range_of_words, le_value, le_value_bound, read_le,
    read_signed_le, read_window, window};
use crate::debug::dwarf::Dwarf;
use crate::debug::dwarf::die::DieReference;
use crate::debug::dwarf::unit::{Location, UnitView};
use crate::text::{hex, hex_text};

verus! {

broadcast use vstd::seq_lib::group_seq_properties;

// ---------------------------------------------------------------------------
// Offsets
// ---------------------------------------------------------------------------

/// A byte offset into program memory.
#[derive(Debug, Clone, Copy, PartialEq, Eq, Structural, PartialOrd, Ord, Hash)]
pub struct MemoryOffset(pub u64);

impl Default for MemoryOffset {
    fn default() -> (r: Self)
        ensures
            r.0 == 0,
    {
        MemoryOffset(0)
    }
}

impl MemoryOffset {
    /// Whether this is the null address.
    pub fn is_null(&self) -> (r: bool)
        ensures
            r == (self.0 == 0),
    {
        *self == Self::default()
    }

    /// The offset in hexadecimal, as `0x1f`.
    pub fn to_text(&self) -> (r: String)
        ensures
            r@ == offset_text(self.0),
    {
        hex_offset(self.0)
    }
}

/// A byte offset into the code section.
#[derive(Debug, Clone, Copy, PartialEq, Eq, Structural, PartialOrd, Ord, Hash)]
pub struct CodeOffset(pub u64);

impl Default for CodeOffset {
    fn default() -> (r: Self)
        ensures
            r.0 == 0,
    {
        CodeOffset(0)
    }
}

impl CodeOffset {
    /// The offset in hexadecimal, as `0x1f`.
    pub fn to_text(&self) -> (r: String)
        ensures
            r@ == offset_text(self.0),
    {
        hex_offset(self.0)
    }
}

/// How an offset is written: `0x` and its hexadecimal digits.
pub open spec fn offset_text(value: u64) -> Seq<char> {
    seq!['0', 'x'] + hex(value as nat)
}

fn hex_offset(value: u64) -> (r: String)
    ensures
        r@ == offset_text(value),
{
    let mut out = String::new();
    out.push('0');
    out.push('x');
    let digits = hex_text(value);
    out.append(digits.as_str());
    assert(out@ =~= offset_text(value));
    out
}

impl From<u32> for MemoryOffset {
    fn from(v: u32) -> (r: Self) {
        MemoryOffset(v as u64)
    }
}

impl vstd::std_specs::convert::FromSpecImpl<u32> for MemoryOffset {
    open spec fn obeys_from_spec() -> bool {
        true
    }

    open spec fn from_spec(v: u32) -> Self {
        MemoryOffset(v as u64)
    }
}

impl From<u64> for MemoryOffset {
    fn from(v: u64) -> (r: Self) {
        MemoryOffset(v)
    }
}

impl vstd::std_specs::convert::FromSpecImpl<u64> for MemoryOffset {
    open spec fn obeys_from_spec() -> bool {
        true
    }

    open spec fn from_spec(v: u64) -> Self {
        MemoryOffset(v)
    }
}

impl From<usize> for MemoryOffset {
    fn from(v: usize) -> (r: Self) {
        MemoryOffset(v as u64)
    }
}

impl vstd::std_specs::convert::FromSpecImpl<usize> for MemoryOffset {
    open spec fn obeys_from_spec() -> bool {
        true
    }

    open spec fn from_spec(v: usize) -> Self {
        MemoryOffset(v as u64)
    }
}

impl From<MemoryOffset> for u32 {
    fn from(v: MemoryOffset) -> (r: Self) {
        #[verifier::truncate]
        (v.0 as u32)
    }
}

impl vstd::std_specs::convert::FromSpecImpl<MemoryOffset> for u32 {
    open spec fn obeys_from_spec() -> bool {
        true
    }

    open spec fn from_spec(v: MemoryOffset) -> Self {
        v.0 as u32
    }
}

impl From<MemoryOffset> for u64 {
    fn from(v: MemoryOffset) -> (r: Self) {
        v.0
    }
}

impl vstd::std_specs::convert::FromSpecImpl<MemoryOffset> for u64 {
    open spec fn obeys_from_spec() -> bool {
        true
    }

    open spec fn from_spec(v: MemoryOffset) -> Self {
        v.0
    }
}

impl From<MemoryOffset> for usize {
    fn from(v: MemoryOffset) -> (r: Self) {
        #[verifier::truncate]
        (v.0 as usize)
    }
}

impl vstd::std_specs::convert::FromSpecImpl<MemoryOffset> for usize {
    open spec fn obeys_from_spec() -> bool {
        true
    }

    open spec fn from_spec(v: MemoryOffset) -> Self {
        v.0 as usize
    }
}

impl From<u32> for CodeOffset {
    fn from(v: u32) -> (r: Self) {
        CodeOffset(v as u64)
    }
}

impl vstd::std_specs::convert::FromSpecImpl<u32> for CodeOffset {
    open spec fn obeys_from_spec() -> bool {
        true
    }

    open spec fn from_spec(v: u32) -> Self {
        CodeOffset(v as u64)
    }
}

impl From<u64> for CodeOffset {
    fn from(v: u64) -> (r: Self) {
        CodeOffset(v)
    }
}

impl vstd::std_specs::convert::FromSpecImpl<u64> for CodeOffset {
    open spec fn obeys_from_spec() -> bool {
        true
    }

    open spec fn from_spec(v: u64) -> Self {
        CodeOffset(v)
    }
}

impl From<usize> for CodeOffset {
    fn from(v: usize) -> (r: Self) {
        CodeOffset(v as u64)
    }
}

impl vstd::std_specs::convert::FromSpecImpl<usize> for CodeOffset {
    open spec fn obeys_from_spec() -> bool {
        true
    }

    open spec fn from_spec(v: usize) -> Self {
        CodeOffset(v as u64)
    }
}

impl From<CodeOffset> for u32 {
    fn from(v: CodeOffset) -> (r: Self) {
        #[verifier::truncate]
        (v.0 as u32)
    }
}

impl vstd::std_specs::convert::FromSpecImpl<CodeOffset> for u32 {
    open spec fn obeys_from_spec() -> bool {
        true
    }

    open spec fn from_spec(v: CodeOffset) -> Self {
        v.0 as u32
    }
}

impl From<CodeOffset> for u64 {
    fn from(v: CodeOffset) -> (r: Self) {
        v.0
    }
}

impl vstd::std_specs::convert::FromSpecImpl<CodeOffset> for u64 {
    open spec fn obeys_from_spec() -> bool {
        true
    }

    open spec fn from_spec(v: CodeOffset) -> Self {
        v.0
    }
}

impl From<CodeOffset> for usize {
    fn from(v: CodeOffset) -> (r: Self) {
        #[verifier::truncate]
        (v.0 as usize)
    }
}

impl vstd::std_specs::convert::FromSpecImpl<CodeOffset> for usize {
    open spec fn obeys_from_spec() -> bool {
        true
    }

    open spec fn from_spec(v: CodeOffset) -> Self {
        v.0 as usize
    }
}

/// A 32-bit offset survives the way into a [`MemoryOffset`] or a
/// [`CodeOffset`] and back.
pub proof fn offsets_round_trip(v: u32)
    ensures
        MemoryOffset(v as u64).0 as u32 == v,
        CodeOffset(v as u64).0 as u32 == v,
{
}

// ---------------------------------------------------------------------------
// Messages
// ---------------------------------------------------------------------------

/// A file or a directory of the user's file system. The names in a directory
/// differ from each other: see [`names_differ`].
#[derive(Debug)]
pub enum FsNode {
    File(String),
    Dir(Vec<(String, FsNode)>),
}

/// Whether the names in a directory, and in every directory below it, differ
/// from each other.
pub open spec fn names_differ(children: Seq<(String, FsNode)>) -> bool
    decreases children,
{
    children.len() == 0 || {
        let last = children[children.len() - 1];
        &&& names_differ(children.drop_last())
        &&& forall|i: int| 0 <= i < children.len() - 1 ==> (#[trigger] children[i]).0@ != last.0@
        &&& match last.1 {
            FsNode::File(_) => true,
            FsNode::Dir(below) => names_differ(below@),
        }
    }
}

#[derive(Debug, Clone, Copy, PartialEq, Eq, Structural)]
pub enum Lang {
    C,
    Python,
    Rust,
}

/// Which of the two output streams a chunk belongs to.
#[derive(Debug, Clone, Copy, PartialEq, Eq, Structural)]
pub enum StdoutMode {
    Out,
    Error,
}

impl StdoutMode {
    /// The number the client knows the stream by.
    pub fn code(&self) -> (r: u8)
        ensures
            r == match *self {
                StdoutMode::Out => 1u8,
                StdoutMode::Error => 2u8,
            },
    {
        match self {
            StdoutMode::Out => 1,
            StdoutMode::Error => 2,
        }
    }
}

/// Why execution paused.
#[derive(Debug, Clone, Copy, PartialEq, Eq, Structural)]
pub enum PauseReason {
    Breakpoint,
    Step,
}

/// What to do at the instrumented sites that execution reaches next.
#[derive(Debug, Clone, Copy, PartialEq, Eq, Structural)]
pub enum BreakpointMode {
    /// Stop on locations that have breakpoints set (default)
    Normal,
    /// Stop on the next location unconditionally
    StepInto,
    /// Stop on the next location in the same or an older frame
    StepOver,
    /// Stop on the next location in an older frame
    StepOut,
}

/// The number a mode is stored as.
pub open spec fn mode_code(mode: BreakpointMode) -> i32 {
    match mode {
        BreakpointMode::Normal => 0,
        BreakpointMode::StepInto => 1,
        BreakpointMode::StepOver => 2,
        BreakpointMode::StepOut => 3,
    }
}

/// The mode a stored number stands for.
pub open spec fn mode_of(value: i32) -> Result<BreakpointMode, ()> {
    if value == 0 {
        Ok(BreakpointMode::Normal)
    } else if value == 1 {
        Ok(BreakpointMode::StepInto)
    } else if value == 2 {
        Ok(BreakpointMode::StepOver)
    } else if value == 3 {
        Ok(BreakpointMode::StepOut)
    } else {
        Err(())
    }
}

impl TryFrom<i32> for BreakpointMode {
    type Error = ();

    fn try_from(value: i32) -> (r: Result<Self, ()>) {
        match value {
            0 => Ok(BreakpointMode::Normal),
            1 => Ok(BreakpointMode::StepInto),
            2 => Ok(BreakpointMode::StepOver),
            3 => Ok(BreakpointMode::StepOut),
            _ => Err(()),
        }
    }
}

impl vstd::std_specs::convert::TryFromSpecImpl<i32> for BreakpointMode {
    open spec fn obeys_try_from_spec() -> bool {
        true
    }

    open spec fn try_from_spec(value: i32) -> Result<Self, ()> {
        mode_of(value)
    }
}

impl From<BreakpointMode> for i32 {
    fn from(value: BreakpointMode) -> (r: Self) {
        match value {
            BreakpointMode::Normal => 0,
            BreakpointMode::StepInto => 1,
            BreakpointMode::StepOver => 2,
            BreakpointMode::StepOut => 3,
        }
    }
}

impl vstd::std_specs::convert::FromSpecImpl<BreakpointMode> for i32 {
    open spec fn obeys_from_spec() -> bool {
        true
    }

    open spec fn from_spec(value: BreakpointMode) -> Self {
        mode_code(value)
    }
}

/// Storing a mode and reading it back gives the mode, and a number is read as
/// a mode exactly where it is stored for one.
pub proof fn modes_round_trip(mode: BreakpointMode, value: i32)
    ensures
        mode_of(mode_code(mode)) == Ok::<BreakpointMode, ()>(mode),
        mode_of(value) is Ok <==> 0 <= value <= 3,
        mode_of(value) is Ok ==> mode_code(mode_of(value)->Ok_0) == value,
{
}

// ---------------------------------------------------------------------------
// Memory
// ---------------------------------------------------------------------------

/// The size of a WebAssembly page in bytes.
pub const PAGE_BYTES: usize = 65536;

/// The limits of a memory, in pages.
#[derive(Debug, Clone, Copy, PartialEq, Eq, Structural)]
pub struct MemoryType {
    pub minimum: u32,
    pub maximum: Option<u32>,
    pub shared: bool,
}

/// A linear memory: the bytes it holds and the limits it was made with.
#[derive(Debug)]
pub struct MemoryDescriptor {
    pub bytes: Vec<u8>,
    pub ty: MemoryType,
}

impl View for MemoryDescriptor {
    type V = Seq<u8>;

    open spec fn view(&self) -> Seq<u8> {
        self.bytes@
    }
}

impl MemoryDescriptor {
    /// A zeroed shared memory of `initial` pages.
    pub fn new(initial: u32, maximum: u32) -> (r: Self)
        requires
            initial <= maximum,
            initial * PAGE_BYTES <= usize::MAX,
        ensures
            r@ == Seq::new((initial * PAGE_BYTES) as nat, |i: int| 0u8),
            r.ty == (MemoryType { minimum: initial, maximum: Some(maximum), shared: true }),
    {
        let empty: Vec<u8> = Vec::new();
        let bytes = read_window(&empty, 0, initial as usize * PAGE_BYTES);
        assert(bytes@ =~= Seq::new((initial * PAGE_BYTES) as nat, |i: int| 0u8));
        MemoryDescriptor {
            bytes,
            ty: MemoryType { minimum: initial, maximum: Some(maximum), shared: true },
        }
    }

    /// Returns the actual number of bytes currently allocated in this memory
    pub fn byte_size(&self) -> (r: usize)
        ensures
            r == self@.len(),
    {
        self.bytes.len()
    }

    /// Reads `len` bytes at `addr`; what lies past the end of the memory reads
    /// as zero.
    pub fn read(&self, addr: MemoryOffset, len: usize) -> (r: Vec<u8>)
        ensures
            r@ == window(self@, addr.0 as usize as int, len as nat),
    {
        let offset: usize = addr.into();
        read_window(&self.bytes, offset, len)
    }

    /// Reads the little-endian 64-bit word at `addr`.
    pub fn read_u64(&self, addr: MemoryOffset) -> (r: u64)
        ensures
            r == le_value(window(self@, addr.0 as usize as int, 8)),
    {
        let bytes = self.read(addr, 8);
        read_le(&bytes)
    }

    /// Reads the little-endian 32-bit word at `addr`.
    pub fn read_u32(&self, addr: MemoryOffset) -> (r: u32)
        ensures
            r == le_value(window(self@, addr.0 as usize as int, 4)),
    {
        let bytes = self.read(addr, 4);
        proof {
            le_value_bound(bytes@);
            byte_range_of_words();
        }
        read_le(&bytes) as u32
    }
}

/// A read always yields the length asked for, and wherever it stays inside the
/// memory it yields the bytes that stand there.
pub proof fn reads_are_complete(memory: Seq<u8>, at: int, len: nat)
    requires
        0 <= at,
    ensures
        window(memory, at, len).len() == len,
        at + len <= memory.len() ==> window(memory, at, len) == memory.subrange(at, at + len),
        at >= memory.len() ==> forall|i: int| 0 <= i < len ==> window(memory, at, len)[i] == 0,
{
    if at + len <= memory.len() {
        assert(window(memory, at, len) =~= memory.subrange(at, at + len));
    }
}

// ---------------------------------------------------------------------------
// Debug frames
// ---------------------------------------------------------------------------

/// Where WebAssembly holds a value.
#[derive(Debug, Clone, Copy, PartialEq, Eq, Structural, Hash)]
pub enum WasmLocation {
    /// The index of a local in the currently executing function.
    Local(usize),
    /// The index of a global.
    Global(usize),
    /// The index of an item on the operand stack. 0 is the bottom of the operand stack.
    Operand(usize),
}

/// One saved value in a debug frame.
#[derive(Debug, Clone, Copy, PartialEq, Eq, Structural)]
pub struct DebugFrameEntry {
    /// The byte offset of this entry in its containing stack frame
    pub offset: usize,
    /// The WebAssembly location (local, global, or stack) represented by this entry's value
    pub location: WasmLocation,
}

/// A function that can be debugged.
#[derive(Debug)]
pub struct DebugFunction {
    /// The first address in this function
    pub low_pc: CodeOffset,
    /// The first address past the end of this function
    pub high_pc: CodeOffset,
    /// Reference to dwarf die for this function
    pub die_ref: DieReference,
    /// The total size in bytes of the stack frame, including its 32-bit tag
    pub size: usize,
    /// The entries in this stack frame
    pub layout: Vec<DebugFrameEntry>,
}

/// The mathematical value of a [`DebugFunction`].
pub struct FunctionModel {
    pub low_pc: CodeOffset,
    pub high_pc: CodeOffset,
    pub die_ref: DieReference,
    pub size: usize,
    pub layout: Seq<DebugFrameEntry>,
}

impl View for DebugFunction {
    type V = FunctionModel;

    open spec fn view(&self) -> FunctionModel {
        FunctionModel {
            low_pc: self.low_pc,
            high_pc: self.high_pc,
            die_ref: self.die_ref,
            size: self.size,
            layout: self.layout@,
        }
    }
}

/// The values of a list of functions.
pub open spec fn functions_of(v: Seq<DebugFunction>) -> Seq<FunctionModel> {
    v.map_values(|f: DebugFunction| f@)
}

/// The bytes that a frame takes before any value is saved in it: the address
/// that its function is at.
pub const FRAME_TAG_BYTES: usize = 4;

/// The bytes that a saved value takes.
pub const FRAME_ENTRY_BYTES: usize = 8;

/// The first entry that holds the value of `location`.
pub open spec fn entry_for(layout: Seq<DebugFrameEntry>, location: WasmLocation) -> Option<
    DebugFrameEntry,
>
    decreases layout.len(),
{
    if layout.len() == 0 {
        None
    } else if layout[0].location == location {
        Some(layout[0])
    } else {
        entry_for(layout.skip(1), location)
    }
}

impl FunctionModel {
    /// Whether `pc` is an address of this function.
    pub open spec fn covers(self, pc: CodeOffset) -> bool {
        self.low_pc.0 <= pc.0 < self.high_pc.0
    }

    /// Whether the frame is laid out without gaps or overlaps: the tag, and
    /// then the saved values, none of them twice.
    pub open spec fn frame_wf(self) -> bool {
        &&& self.size == FRAME_TAG_BYTES + FRAME_ENTRY_BYTES * self.layout.len()
        &&& forall|i: int|
            0 <= i < self.layout.len() ==> (#[trigger] self.layout[i]).offset == FRAME_TAG_BYTES
                + FRAME_ENTRY_BYTES * i
        &&& forall|i: int, j: int|
            0 <= i < j < self.layout.len() ==> (#[trigger] self.layout[i]).location != (
            #[trigger] self.layout[j]).location
    }

    /// The frame with nothing saved in it.
    pub open spec fn cleared(self) -> FunctionModel {
        FunctionModel { size: FRAME_TAG_BYTES, layout: seq![], ..self }
    }

    /// The frame with an entry for `location`.
    pub open spec fn with_entry(self, location: WasmLocation) -> FunctionModel {
        match entry_for(self.layout, location) {
            Some(_) => self,
            None => FunctionModel {
                size: (self.size + FRAME_ENTRY_BYTES) as usize,
                layout: self.layout.push(DebugFrameEntry { offset: self.size, location }),
                ..self
            },
        }
    }

    /// Where the entry for `location` lies, or would be put.
    pub open spec fn offset_for(self, location: WasmLocation) -> usize {
        match entry_for(self.layout, location) {
            Some(e) => e.offset,
            None => self.size,
        }
    }
}

/// An entry that is found is one of the layout's, and is for the location
/// asked for; where none is found, there is none.
pub proof fn entry_for_found(layout: Seq<DebugFrameEntry>, location: WasmLocation)
    ensures
        match entry_for(layout, location) {
            Some(e) => e.location == location && exists|i: int|
                0 <= i < layout.len() && #[trigger] layout[i] == e,
            None => forall|i: int|
                0 <= i < layout.len() ==> (#[trigger] layout[i]).location != location,
        },
    decreases layout.len(),
{
    if layout.len() > 0 {
        if layout[0].location == location {
            assert(layout[0] == entry_for(layout, location)->0);
        } else {
            entry_for_found(layout.skip(1), location);
            match entry_for(layout, location) {
                Some(e) => {
                    let i = choose|i: int|
                        0 <= i < layout.skip(1).len() && #[trigger] layout.skip(1)[i] == e;
                    assert(layout[i + 1] == e);
                },
                None => {
                    assert forall|i: int| 0 <= i < layout.len() implies (
                    #[trigger] layout[i]).location != location by {
                        if i > 0 {
                            assert(layout.skip(1)[i - 1] == layout[i]);
                        }
                    }
                },
            }
        }
    }
}

proof fn entry_for_pushed(layout: Seq<DebugFrameEntry>, location: WasmLocation, e: DebugFrameEntry)
    requires
        entry_for(layout, location) is None,
        e.location == location,
    ensures
        entry_for(layout.push(e), location) == Some(e),
    decreases layout.len(),
{
    if layout.len() > 0 {
        assert(layout.push(e).skip(1) =~= layout.skip(1).push(e));
        entry_for_pushed(layout.skip(1), location, e);
    }
}

/// Saving a value in a frame keeps the frame well laid out, and saving it
/// again changes nothing and finds it at the same place. Clearing a frame lays
/// it out well, whatever it held.
pub proof fn frames_stay_well_laid_out(f: FunctionModel, location: WasmLocation)
    requires
        f.size + FRAME_ENTRY_BYTES <= usize::MAX,
    ensures
        f.cleared().frame_wf(),
        f.frame_wf() ==> f.with_entry(location).frame_wf(),
        f.with_entry(location).with_entry(location) == f.with_entry(location),
        f.with_entry(location).offset_for(location) == f.offset_for(location),
{
    entry_for_found(f.layout, location);
    let e = DebugFrameEntry { offset: f.size, location };
    if entry_for(f.layout, location) is None {
        entry_for_pushed(f.layout, location, e);
        let g = f.with_entry(location);
        if f.frame_wf() {
            assert forall|i: int, j: int| 0 <= i < j < g.layout.len() implies (
            #[trigger] g.layout[i]).location != (#[trigger] g.layout[j]).location by {
                assert(g.layout[i] == f.layout[i]);
                if j < f.layout.len() {
                    assert(g.layout[j] == f.layout[j]);
                }
            }
        }
    }
}

/// In a well laid out frame every saved value lies behind the tag and inside
/// the frame, and two saved values do not overlap.
pub proof fn frame_entries_are_apart(f: FunctionModel, i: int, j: int)
    requires
        f.frame_wf(),
        0 <= i < f.layout.len(),
        0 <= j < f.layout.len(),
        i != j,
    ensures
        FRAME_TAG_BYTES <= f.layout[i].offset,
        f.layout[i].offset + FRAME_ENTRY_BYTES <= f.size,
        f.layout[i].offset + FRAME_ENTRY_BYTES <= f.layout[j].offset || f.layout[j].offset
            + FRAME_ENTRY_BYTES <= f.layout[i].offset,
{
}

impl DebugFunction {
    /// Whether `pc` is an address of this function.
    pub fn contains(&self, pc: CodeOffset) -> (r: bool)
        ensures
            r == self@.covers(pc),
    {
        pc.0 >= self.low_pc.0 && pc.0 < self.high_pc.0
    }

    /// Clears the layout of the stack frame and resets it to its minimum size.
    pub fn reset(&mut self)
        ensures
            final(self)@ == old(self)@.cleared(),
    {
        self.size = FRAME_TAG_BYTES;
        self.layout = Vec::new();
        assert(self.layout@ =~= seq![]);
    }

    /// The first entry that holds the value of `location`.
    pub fn find(&self, location: WasmLocation) -> (r: Option<DebugFrameEntry>)
        ensures
            r == entry_for(self@.layout, location),
    {
        let ghost all = self.layout@;
        let mut i: usize = 0;
        assert(all.skip(0) =~= all);
        while i < self.layout.len()
            invariant
                all == self.layout@,
                i <= all.len(),
                entry_for(all, location) == entry_for(all.skip(i as int), location),
            decreases all.len() - i,
        {
            assert(all.skip(i as int)[0] == all[i as int]);
            assert(all.skip(i as int).skip(1) =~= all.skip(i + 1));
            if self.layout[i].location == location {
                return Some(self.layout[i]);
            }
            i = i + 1;
        }
        None
    }

    /// Ensures an entry exists for `location` and returns its offset.
    pub fn place(&mut self, location: WasmLocation) -> (r: usize)
        requires
            old(self).size + FRAME_ENTRY_BYTES <= usize::MAX,
        ensures
            final(self)@ == old(self)@.with_entry(location),
            r == old(self)@.offset_for(location),
    {
        if let Some(e) = self.find(location) {
            return e.offset;
        }
        let offset: usize = self.size;
        self.size = self.size + FRAME_ENTRY_BYTES;
        self.layout.push(DebugFrameEntry { offset, location });
        offset
    }
}

// ---------------------------------------------------------------------------
// Debug information
// ---------------------------------------------------------------------------

/// Size in bytes of the `breakpoints` buffer prefix (SP + mode).
pub const BP_PREFIX_BYTES: usize = 8;

/// Debug information parsed from DWARF
#[derive(Debug)]
pub struct DebugInfo {
    /// List of debuggable functions, sorted by low_pc
    pub functions: Vec<DebugFunction>,
    /// List of locations where breakpoints can be placed.
    /// Each location has had instrumentation code generated for it,
    /// and has an entry in [DebugInfo::breakpoints].
    pub locations: Vec<Location>,
    /// This buffer encodes execution state and breakpoint metadata in a
    /// compact, fixed layout. All fields are little-endian.
    ///
    /// ```md
    /// ┌────────┬──────────────┬──────────────────────────────────────────────┐
    /// │ Offset │ Size         │ Field                                        │
    /// ├────────┼──────────────┼──────────────────────────────────────────────┤
    /// │ 0      │ u32          │ Stack Pointer                                │
    /// │        │              │   Current value of the stack pointer (SP).   │
    /// │        │              │   Will be 0 while the debuggee is running,   │
    /// │        │              │   and non-zero when paused on a breakpoint.  │
    /// │        │              │                                              │
    /// │ 4      │ u32          │ Mode                                         │
    /// │        │              │   Execution control mode:                    │
    /// │        │              │     0 → Pause on breakpoints                 │
    /// │        │              │     1 → Step into                            │
    /// │        │              │     2 → Step over                            │
    /// │        │              │     3 → Step out                             │
    /// │        │              │                                              │
    /// │ 8      │ u8[N]        │ Breakpoint flags                             │
    /// │        │              │   One byte per breakpoint location.          │
    /// │        │              │   Each entry counts how many times the       │
    /// │        │              │   corresponding breakpoint has been set.     │
    /// └────────┴──────────────┴──────────────────────────────────────────────┘
    /// ```
    pub breakpoints: Vec<u8>,
    /// The main memory of the executing program
    pub memory: MemoryDescriptor,
    /// The debug stack of the executing program
    pub stack: MemoryDescriptor,
    /// Whether the debug stack has a memory of its own.
    pub separate_stack: bool,
    /// DWARF debug information
    pub dwarf: Dwarf,
}

/// The mathematical value of a [`DebugInfo`].
pub struct InfoModel {
    pub functions: Seq<FunctionModel>,
    pub locations: Seq<Location>,
    pub breakpoints: Seq<u8>,
    pub memory: Seq<u8>,
    pub memory_type: MemoryType,
    pub stack: Seq<u8>,
    pub stack_type: MemoryType,
    pub separate_stack: bool,
    pub units: Seq<UnitView>,
    /// The sections that the units were read from.
    pub sections: Map<Seq<char>, Seq<u8>>,
}

impl View for DebugInfo {
    type V = InfoModel;

    open spec fn view(&self) -> InfoModel {
        InfoModel {
            functions: functions_of(self.functions@),
            locations: self.locations@,
            breakpoints: self.breakpoints@,
            memory: self.memory@,
            memory_type: self.memory.ty,
            stack: self.stack@,
            stack_type: self.stack.ty,
            separate_stack: self.separate_stack,
            units: self.dwarf@.units,
            sections: self.dwarf@.sections,
        }
    }
}

/// Whether the functions follow each other without overlap.
pub open spec fn functions_sorted(fs: Seq<FunctionModel>) -> bool {
    &&& forall|i: int|
        0 <= i < fs.len() ==> (#[trigger] fs[i]).low_pc.0 <= fs[i].high_pc.0
    &&& forall|i: int, j: int|
        0 <= i < j < fs.len() ==> (#[trigger] fs[i]).high_pc.0 <= (#[trigger] fs[j]).low_pc.0
}

/// The stack pointer and the mode that the prefix of a breakpoint buffer holds.
pub open spec fn bp_words(buffer: Seq<u8>) -> (i32, i32) {
    (
        as_signed(le_value(window(buffer, 0, 4)), 4) as i32,
        as_signed(le_value(window(buffer, 4, 4)), 4) as i32,
    )
}

fn read_i32(buffer: &Vec<u8>, from: usize) -> (r: i32)
    ensures
        r == as_signed(le_value(window(buffer@, from as int, 4)), 4),
{
    let bytes = read_window(buffer, from, 4);
    proof {
        le_value_bound(bytes@);
        byte_range_of_words();
    }
    read_signed_le(&bytes) as i32
}

impl DebugInfo {
    /// Whether we store the debug stack separately from the main program memory.
    pub fn is_multi_memory(&self) -> (r: bool)
        ensures
            r == self.separate_stack,
    {
        self.separate_stack
    }

    /// The stack pointer and the mode.
    pub fn get_bp_state(&self) -> (r: (i32, i32))
        ensures
            r == bp_words(self@.breakpoints),
    {
        (read_i32(&self.breakpoints, 0), read_i32(&self.breakpoints, 4))
    }

    /// The breakpoint flags, one byte for each location.
    pub fn get_bp_flags(&self) -> (r: Vec<u8>)
        ensures
            r@ == if self@.breakpoints.len() < BP_PREFIX_BYTES {
                seq![]
            } else {
                self@.breakpoints.skip(BP_PREFIX_BYTES as int)
            },
    {
        let total: usize = self.breakpoints.len();
        let len: usize = if total < BP_PREFIX_BYTES {
            0
        } else {
            total - BP_PREFIX_BYTES
        };
        let flags = read_window(&self.breakpoints, BP_PREFIX_BYTES, len);
        assert(flags@ =~= if self@.breakpoints.len() < BP_PREFIX_BYTES {
            seq![]
        } else {
            self@.breakpoints.skip(BP_PREFIX_BYTES as int)
        });
        flags
    }

    /// Finds the index of the function containing this address, if any
    pub fn fn_index_at(&self, pc: CodeOffset) -> (r: Option<usize>)
        ensures
            match r {
                Some(i) => function_at(self@.functions, pc) == Some(i as int) && i
                    < self@.functions.len(),
                None => function_at(self@.functions, pc) is None,
            },
    {
        let ghost all = self@.functions;
        proof {
            bisect_finds_the_function(all, pc);
        }
        let mut lo: usize = 0;
        let mut hi: usize = self.functions.len();
        while lo < hi
            invariant
                function_at(all, pc) == bisect(all, pc, 0, all.len() as int),
                all == self@.functions,
                lo <= hi <= self.functions@.len(),
                bisect(all, pc, 0, all.len() as int) == bisect(all, pc, lo as int, hi as int),
            decreases hi - lo,
        {
            let mid: usize = lo + (hi - lo) / 2;
            let f = &self.functions[mid];
            assert(all[mid as int] == f@);
            if pc.0 < f.low_pc.0 {
                hi = mid;
            } else if pc.0 >= f.high_pc.0 {
                lo = mid + 1;
            } else {
                return Some(mid);
            }
        }
        None
    }

    /// Finds the function containing this address, if any
    pub fn fn_at(&self, pc: CodeOffset) -> (r: Option<&DebugFunction>)
        ensures
            match r {
                Some(f) => function_at(self@.functions, pc) is Some && f@ == self@.functions[
                    function_at(self@.functions, pc)->0
                ],
                None => function_at(self@.functions, pc) is None,
            },
    {
        match self.fn_index_at(pc) {
            Some(i) => {
                assert(self@.functions[i as int] == self.functions@[i as int]@);
                Some(&self.functions[i])
            },
            None => None,
        }
    }
}

/// The function that is found by halving the functions from `lo` up to, not
/// including, `hi`.
spec fn bisect(fs: Seq<FunctionModel>, pc: CodeOffset, lo: int, hi: int) -> Option<int>
    decreases hi - lo,
{
    if lo >= hi {
        None
    } else {
        let mid = lo + (hi - lo) / 2;
        if pc.0 < fs[mid].low_pc.0 {
            bisect(fs, pc, lo, mid)
        } else if pc.0 >= fs[mid].high_pc.0 {
            bisect(fs, pc, mid + 1, hi)
        } else {
            Some(mid)
        }
    }
}

/// The function that a binary search comes upon among functions that overlap
/// or are out of order, where several or none may be found.
pub closed spec fn function_met(fs: Seq<FunctionModel>, pc: CodeOffset) -> Option<int> {
    bisect(fs, pc, 0, fs.len() as int)
}

/// The function that contains an address. Functions are looked up in their
/// order, so one is sure to be found where they follow each other.
pub open spec fn function_at(fs: Seq<FunctionModel>, pc: CodeOffset) -> Option<int> {
    if !functions_sorted(fs) {
        function_met(fs, pc)
    } else if exists|i: int| 0 <= i < fs.len() && #[trigger] fs[i].covers(pc) {
        Some(choose|i: int| 0 <= i < fs.len() && #[trigger] fs[i].covers(pc))
    } else {
        None
    }
}

proof fn bisect_finds_the_function(fs: Seq<FunctionModel>, pc: CodeOffset)
    ensures
        function_at(fs, pc) == bisect(fs, pc, 0, fs.len() as int),
{
    bisect_finds(fs, pc, 0, fs.len() as int);
    if functions_sorted(fs) {
        if let Some(i) = bisect(fs, pc, 0, fs.len() as int) {
            assert(fs[i].covers(pc));
            let j = choose|j: int| 0 <= j < fs.len() && #[trigger] fs[j].covers(pc);
            one_function_covers(fs, pc, i, j);
        }
    }
}

proof fn bisect_finds(fs: Seq<FunctionModel>, pc: CodeOffset, lo: int, hi: int)
    requires
        0 <= lo <= hi <= fs.len(),
    ensures
        match bisect(fs, pc, lo, hi) {
            Some(i) => lo <= i < hi && fs[i].covers(pc),
            None => functions_sorted(fs) ==> forall|i: int|
                lo <= i < hi ==> !(#[trigger] fs[i]).covers(pc),
        },
    decreases hi - lo,
{
    if lo < hi {
        let mid = lo + (hi - lo) / 2;
        if pc.0 < fs[mid].low_pc.0 {
            bisect_finds(fs, pc, lo, mid);
            if bisect(fs, pc, lo, hi) is None && functions_sorted(fs) {
                assert forall|i: int| lo <= i < hi implies !(#[trigger] fs[i]).covers(pc) by {
                    if mid < i {
                        assert(fs[mid].high_pc.0 <= fs[i].low_pc.0);
                    }
                }
            }
        } else if pc.0 >= fs[mid].high_pc.0 {
            bisect_finds(fs, pc, mid + 1, hi);
            if bisect(fs, pc, lo, hi) is None && functions_sorted(fs) {
                assert forall|i: int| lo <= i < hi implies !(#[trigger] fs[i]).covers(pc) by {
                    if i < mid {
                        assert(fs[i].high_pc.0 <= fs[mid].low_pc.0);
                    }
                }
            }
        }
    }
}

/// A function that is found contains the address. Among functions that follow
/// each other without overlap, the one that contains the address is found
/// wherever there is one.
pub proof fn functions_are_found(fs: Seq<FunctionModel>, pc: CodeOffset)
    ensures
        match function_at(fs, pc) {
            Some(i) => 0 <= i < fs.len() && fs[i].covers(pc),
            None => functions_sorted(fs) ==> forall|i: int|
                0 <= i < fs.len() ==> !(#[trigger] fs[i]).covers(pc),
        },
{
    bisect_finds(fs, pc, 0, fs.len() as int);
}

/// Among functions that do not overlap, at most one covers an address.
pub proof fn one_function_covers(fs: Seq<FunctionModel>, pc: CodeOffset, i: int, j: int)
    requires
        functions_sorted(fs),
        0 <= i < fs.len(),
        0 <= j < fs.len(),
        fs[i].covers(pc),
        fs[j].covers(pc),
    ensures
        i == j,
{
    if i < j {
        assert(fs[i].high_pc.0 <= fs[j].low_pc.0);
    } else if j < i {
        assert(fs[j].high_pc.0 <= fs[i].low_pc.0);
    }
}

} // verus!
