//! A byte stream between a program and its host.
//!
//! Each direction is a mailbox: one slot of bytes with its length. The length
//! is 0 while the slot is empty and negative once it is closed.
use vstd::prelude::*;

verus! {

broadcast use vstd::seq_lib::group_seq_properties;

/// How many bytes a mailbox holds.
pub const CAPACITY: u32 = 65536;

/// How many bytes the buffer of a mailbox has: the length, and the bytes.
pub const MAILBOX_BYTES: u32 = 65540;

/// Why a stream fails.
#[derive(Debug, Clone, Copy, PartialEq, Eq, Structural)]
pub enum StreamError {
    /// The buffers do not make two mailboxes.
    InvalidInput,
    /// The other side has closed the stream.
    BrokenPipe,
}

/// Whether two buffers make the two mailboxes of a stream: they differ, and
/// have the right size.
pub fn check_mailboxes(incoming_bytes: u32, outgoing_bytes: u32, same_buffer: bool) -> (r: Result<
    (),
    StreamError,
>)
    ensures
        r == if same_buffer || incoming_bytes != MAILBOX_BYTES || outgoing_bytes != MAILBOX_BYTES {
            Err::<(), StreamError>(StreamError::InvalidInput)
        } else {
            Ok(())
        },
{
    if same_buffer || incoming_bytes != MAILBOX_BYTES || outgoing_bytes != MAILBOX_BYTES {
        Err(StreamError::InvalidInput)
    } else {
        Ok(())
    }
}

/// What a slot holds after a side that found the length `expected` asked for
/// the length `length`.
pub open spec fn published(slot: i32, expected: i32, length: i32) -> i32 {
    if slot == expected {
        length
    } else {
        slot
    }
}

/// Whether a change of a slot went through, by what was `found` there.
pub fn publish(found: i32, expected: i32) -> (r: Result<(), StreamError>)
    ensures
        r == if found == expected {
            Ok::<(), StreamError>(())
        } else {
            Err(StreamError::BrokenPipe)
        },
{
    if found == expected {
        Ok(())
    } else {
        Err(StreamError::BrokenPipe)
    }
}

/// A concurrent close must never be overwritten by a reader or writer: a slot
/// that is closed stays closed, and the side that tried to change it is told.
pub proof fn closing_is_final(slot: i32, expected: i32, length: i32)
    requires
        slot < 0,
        expected >= 0,
    ensures
        published(slot, expected, length) == slot,
        slot != expected,
{
}

/// What a read does.
#[derive(Debug, Clone, Copy, PartialEq, Eq, Structural)]
pub enum DeviceRead {
    /// Nothing is asked for, or the stream is closed.
    Nothing,
    /// Waits for the length of the slot to change.
    Wait,
    /// Takes `count` bytes at `from`. Where the slot is used up it is emptied.
    Take { from: u32, count: u32, emptied: bool },
}

/// How many of the bytes in a slot a read takes.
pub open spec fn taken(length: i32, offset: u32, wanted: u32) -> int {
    if wanted < length - offset {
        wanted as int
    } else {
        length - offset
    }
}

/// What a read of up to `wanted` bytes does, of a slot with a length of which `offset`
/// bytes have been read, and how many have been read after it.
pub open spec fn read_decision(length: i32, offset: u32, wanted: u32) -> (DeviceRead, u32) {
    if wanted == 0 || length < 0 {
        (DeviceRead::Nothing, offset)
    } else if length == 0 {
        (DeviceRead::Wait, offset)
    } else if wanted < length - offset {
        (DeviceRead::Take { from: offset, count: wanted, emptied: false }, (offset + wanted) as u32)
    } else {
        (DeviceRead::Take { from: offset, count: (length - offset) as u32, emptied: true }, 0)
    }
}

/// The read side of a stream.
#[derive(Debug)]
pub struct HostDeviceFile {
    /// How many bytes of the slot have been read.
    pub read_offset: u32,
}

impl HostDeviceFile {
    pub fn new() -> (r: Self)
        ensures
            r.read_offset == 0,
    {
        HostDeviceFile { read_offset: 0 }
    }

    /// Decides what a read of up to `wanted` bytes does, by the length of the
    /// incoming slot.
    pub fn read_step(&mut self, length: i32, wanted: u32) -> (r: DeviceRead)
        requires
            length > 0 ==> old(self).read_offset <= length,
        ensures
            ({
                let offset = old(self).read_offset;
                if wanted == 0 || length < 0 {
                    r == DeviceRead::Nothing && final(self).read_offset == offset
                } else if length == 0 {
                    r == DeviceRead::Wait && final(self).read_offset == offset
                } else {
                    let count = taken(length, offset, wanted);
                    let emptied = offset + count == length;
                    &&& r == DeviceRead::Take { from: offset, count: count as u32, emptied }
                    &&& final(self).read_offset == if emptied {
                        0
                    } else {
                        offset + count
                    }
                }
            }),
            (r, final(self).read_offset) == read_decision(length, old(self).read_offset, wanted),
    {
        if wanted == 0 || length < 0 {
            return DeviceRead::Nothing;
        }
        if length == 0 {
            return DeviceRead::Wait;
        }
        let from: u32 = self.read_offset;
        let rest: u32 = length as u32 - from;
        let count: u32 = if wanted < rest {
            wanted
        } else {
            rest
        };
        let end: u32 = from + count;
        let emptied = end == length as u32;
        self.read_offset = if emptied {
            0
        } else {
            end
        };
        DeviceRead::Take { from, count, emptied }
    }
}

/// The bytes that reads of the sizes `wanted` take from a slot of which
/// `offset` bytes have been read.
pub open spec fn bytes_read(slot: Seq<u8>, offset: u32, wanted: Seq<u32>) -> Seq<u8>
    decreases wanted.len(),
{
    if wanted.len() == 0 || offset >= slot.len() {
        seq![]
    } else {
        let count = taken(slot.len() as i32, offset, wanted[0]);
        slot.subrange(offset as int, offset + count) + bytes_read(
            slot,
            (offset + count) as u32,
            wanted.skip(1),
        )
    }
}

/// The reads of a slot give its bytes in order, none of them twice: what they
/// give is the part of the slot that follows what was read before, as far as
/// they reach.
pub proof fn slots_are_read_in_order(slot: Seq<u8>, offset: u32, wanted: Seq<u32>)
    requires
        slot.len() <= CAPACITY,
        offset <= slot.len(),
    ensures
        bytes_read(slot, offset, wanted).len() <= slot.len() - offset,
        bytes_read(slot, offset, wanted) == slot.subrange(
            offset as int,
            offset + bytes_read(slot, offset, wanted).len(),
        ),
    decreases wanted.len(),
{
    if wanted.len() > 0 && offset < slot.len() {
        let count = taken(slot.len() as i32, offset, wanted[0]);
        let next = (offset + count) as u32;
        slots_are_read_in_order(slot, next, wanted.skip(1));
        let rest = bytes_read(slot, next, wanted.skip(1));
        assert(bytes_read(slot, offset, wanted) =~= slot.subrange(
            offset as int,
            offset + count + rest.len(),
        ));
    } else {
        assert(bytes_read(slot, offset, wanted) =~= slot.subrange(offset as int, offset as int));
    }
}

/// What a write does.
#[derive(Debug, Clone, Copy, PartialEq, Eq, Structural)]
pub enum DeviceWrite {
    /// Nothing is given.
    Nothing,
    /// The stream is closed.
    Broken,
    /// Waits for the length of the slot to change.
    Wait,
    /// Puts the first `count` bytes into the slot, and wakes the host.
    Put(u32),
}

/// What a write of `len` bytes does, by the length of the outgoing slot.
pub open spec fn write_decision(length: i32, len: usize) -> DeviceWrite {
    if len == 0 {
        DeviceWrite::Nothing
    } else if length < 0 {
        DeviceWrite::Broken
    } else if length > 0 {
        DeviceWrite::Wait
    } else if len < CAPACITY {
        DeviceWrite::Put(len as u32)
    } else {
        DeviceWrite::Put(CAPACITY)
    }
}

/// Decides what a write of `len` bytes does, by the length of the outgoing
/// slot.
pub fn write_step(length: i32, len: usize) -> (r: DeviceWrite)
    ensures
        r == if len == 0 {
            DeviceWrite::Nothing
        } else if length < 0 {
            DeviceWrite::Broken
        } else if length != 0 {
            DeviceWrite::Wait
        } else if len < CAPACITY {
            DeviceWrite::Put(len as u32)
        } else {
            DeviceWrite::Put(CAPACITY)
        },
        r == write_decision(length, len),
{
    if len == 0 {
        DeviceWrite::Nothing
    } else if length < 0 {
        DeviceWrite::Broken
    } else if length != 0 {
        DeviceWrite::Wait
    } else if len < CAPACITY as usize {
        DeviceWrite::Put(len as u32)
    } else {
        DeviceWrite::Put(CAPACITY)
    }
}

/// A read of a slot gives the bytes behind those that were read, as many as were asked
/// for or all that are left; the slot is emptied exactly where none are left, and is
/// then read from its start. Nothing is given where nothing was asked for or the
/// stream is closed, and an empty slot is waited for.
pub proof fn reads_give_what_is_left(length: i32, offset: u32, wanted: u32)
    requires
        length > 0 ==> offset < length,
    ensures
        ({
            let (read, after) = read_decision(length, offset, wanted);
            match read {
                DeviceRead::Nothing => (wanted == 0 || length < 0) && after == offset,
                DeviceRead::Wait => wanted > 0 && length == 0 && after == offset,
                DeviceRead::Take { from, count, emptied } => {
                    &&& wanted > 0 && length > 0
                    &&& from == offset
                    &&& 0 < count <= wanted
                    &&& from + count <= length
                    &&& count == wanted || from + count == length
                    &&& emptied <==> from + count == length
                    &&& !emptied ==> after == from + count
                    &&& emptied ==> after == 0
                },
            }
        }),
{
}

/// A write never disturbs a slot that holds something or is closed. An empty one is
/// given all bytes, or as many as a slot holds.
pub proof fn writes_fill_empty_slots(length: i32, len: usize)
    ensures
        match write_decision(length, len) {
            DeviceWrite::Nothing => len == 0,
            DeviceWrite::Broken => len > 0 && length < 0,
            DeviceWrite::Wait => len > 0 && length > 0,
            DeviceWrite::Put(count) => {
                &&& length == 0
                &&& 0 < count <= len
                &&& count <= 0x1_0000
                &&& count == len || count == 0x1_0000
            },
        },
{
}

/// The buffer of a mailbox holds its length in four bytes and 64 KiB of data.
pub proof fn mailboxes_hold_their_length_and_data()
    ensures
        CAPACITY == 0x1_0000,
        MAILBOX_BYTES == 4 + 0x1_0000,
{
}

} // verus!
