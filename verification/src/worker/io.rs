//! The standard streams of a program.
use vstd::prelude::*;

use crate::types::StdoutMode;

verus! {

broadcast use vstd::seq_lib::group_seq_properties;

// ---------------------------------------------------------------------------
// Stdin
// ---------------------------------------------------------------------------

/// The bytes that wait in a ring, from the read index up to the write index.
pub open spec fn waiting(data: Seq<u8>, read: int, write: int) -> Seq<u8> {
    if read <= write {
        data.subrange(read, write)
    } else {
        data.subrange(read, data.len() as int) + data.subrange(0, write)
    }
}

/// What a read does: it waits for the write index to change, or takes
/// contiguous bytes and leaves the read index behind them.
#[derive(Debug, Clone, Copy, PartialEq, Eq, Structural)]
pub enum StdinStep {
    Wait,
    Take { from: u32, count: u32, next: u32 },
}

/// How many bytes can be read without going round the end of the ring.
pub open spec fn contiguous(read: u32, write: u32, capacity: u32) -> int {
    if read <= write {
        write - read
    } else {
        capacity - read
    }
}

/// What a read of up to `wanted` bytes does.
pub open spec fn stdin_decision(read: u32, write: u32, capacity: u32, wanted: u32) -> StdinStep {
    let available = contiguous(read, write, capacity);
    if wanted == 0 {
        StdinStep::Take { from: read, count: 0, next: read }
    } else if available == 0 {
        StdinStep::Wait
    } else if wanted < available {
        StdinStep::Take { from: read, count: wanted, next: (read + wanted) as u32 }
    } else if read + available == capacity {
        StdinStep::Take { from: read, count: available as u32, next: 0 }
    } else {
        StdinStep::Take { from: read, count: available as u32, next: (read + available) as u32 }
    }
}

/// Decides what a read of up to `wanted` bytes does. A read of no bytes is done
/// at once and leaves the read index where it is, whatever waits in the ring.
pub fn stdin_step(read_idx: u32, write_idx: u32, capacity: u32, wanted: u32) -> (r: StdinStep)
    requires
        read_idx < capacity,
        write_idx < capacity,
    ensures
        ({
            let available = contiguous(read_idx, write_idx, capacity);
            let count = if wanted < available {
                wanted as int
            } else {
                available
            };
            r == if available == 0 && wanted > 0 {
                StdinStep::Wait
            } else {
                StdinStep::Take {
                    from: read_idx,
                    count: count as u32,
                    next: ((read_idx + count) % (capacity as int)) as u32,
                }
            }
        }),
        wanted == 0 ==> r == (StdinStep::Take { from: read_idx, count: 0, next: read_idx }),
        r == stdin_decision(read_idx, write_idx, capacity, wanted),
{
    let available: u32 = if read_idx <= write_idx {
        write_idx - read_idx
    } else {
        capacity - read_idx
    };
    if available == 0 && wanted > 0 {
        return StdinStep::Wait;
    }
    let count: u32 = if wanted < available {
        wanted
    } else {
        available
    };
    let end: u32 = read_idx + count;
    let next: u32 = if end == capacity {
        0
    } else {
        end
    };
    assert(next == (read_idx + count) % (capacity as int)) by {
        if end == capacity {
            assert((capacity as int) % (capacity as int) == 0) by (nonlinear_arith)
                requires
                    capacity > 0,
            ;
        } else {
            assert((end as int) % (capacity as int) == end) by (nonlinear_arith)
                requires
                    end < capacity,
            ;
        }
    }
    StdinStep::Take { from: read_idx, count, next }
}

/// A read takes the bytes that have waited longest, in order, and leaves the
/// others waiting; it waits only where nothing else does.
pub proof fn reads_take_from_the_front(data: Seq<u8>, read: u32, write: u32, count: int)
    requires
        read < data.len(),
        write < data.len(),
        data.len() <= u32::MAX,
        0 <= count <= contiguous(read, write, data.len() as u32),
    ensures
        waiting(data, read as int, write as int).take(count) == data.subrange(
            read as int,
            read + count,
        ),
        waiting(data, (read + count) % (data.len() as int), write as int) == waiting(
            data,
            read as int,
            write as int,
        ).skip(count),
        contiguous(read, write, data.len() as u32) == 0 <==> waiting(
            data,
            read as int,
            write as int,
        ).len() == 0,
{
    let all = waiting(data, read as int, write as int);
    assert(all.take(count) =~= data.subrange(read as int, read + count));
    let end = read + count;
    if end == data.len() {
        assert(end % (data.len() as int) == 0) by (nonlinear_arith)
            requires
                end == data.len(),
                data.len() > 0,
        ;
        assert(waiting(data, 0, write as int) =~= all.skip(count));
    } else {
        assert(end % (data.len() as int) == end) by (nonlinear_arith)
            requires
                0 <= end < data.len(),
        ;
        assert(waiting(data, end, write as int) =~= all.skip(count));
    }
}

/// A read gives the bytes that have waited longest, no more than were asked for, and
/// leaves the others waiting; it gives fewer only where no more wait or where the ring
/// goes round. It waits exactly where something is asked for and nothing waits.
pub proof fn reads_give_what_waits(data: Seq<u8>, read: u32, write: u32, wanted: u32)
    requires
        read < data.len(),
        write < data.len(),
        data.len() <= u32::MAX,
    ensures
        ({
            let all = waiting(data, read as int, write as int);
            match stdin_decision(read, write, data.len() as u32, wanted) {
                StdinStep::Wait => wanted > 0 && all.len() == 0,
                StdinStep::Take { from, count, next } => {
                    &&& wanted > 0 ==> all.len() > 0 && count > 0
                    &&& count <= wanted
                    &&& count <= all.len()
                    &&& from + count <= data.len()
                    &&& next < data.len()
                    &&& data.subrange(from as int, from + count) == all.take(count as int)
                    &&& waiting(data, next as int, write as int) == all.skip(count as int)
                    &&& count == wanted || count == all.len() || from + count == data.len()
                },
            }
        }),
{
    let capacity = data.len() as u32;
    let all = waiting(data, read as int, write as int);
    match stdin_decision(read, write, capacity, wanted) {
        StdinStep::Wait => {
            reads_take_from_the_front(data, read, write, 0);
        },
        StdinStep::Take { from, count, next } => {
            reads_take_from_the_front(data, read, write, count as int);
            assert(data.subrange(from as int, from + count) =~= all.take(count as int));
            assert(waiting(data, next as int, write as int) =~= all.skip(count as int));
        },
    }
}

// ---------------------------------------------------------------------------
// Stdout
// ---------------------------------------------------------------------------

/// An output stream.
#[derive(Debug)]
pub struct Stdout {
    pub mode: StdoutMode,
}

impl Stdout {
    pub fn new(mode: StdoutMode) -> (r: Self)
        ensures
            r.mode == mode,
    {
        Stdout { mode }
    }

    /// The number of the file that this stream is.
    pub fn special_fd(&self) -> (r: u32)
        ensures
            r == match self.mode {
                StdoutMode::Out => 1u32,
                StdoutMode::Error => 2,
            },
    {
        match self.mode {
            StdoutMode::Out => 1,
            StdoutMode::Error => 2,
        }
    }
}

} // verus!
