//! Bytes: little-endian numbers and byte ranges.
use vstd::prelude::*;

verus! {

broadcast use vstd::seq_lib::group_seq_properties;

/// The number that `bytes` spell, least significant byte first.
pub open spec fn le_value(bytes: Seq<u8>) -> nat
    decreases bytes.len(),
{
    if bytes.len() == 0 {
        0
    } else {
        bytes[0] as nat + 256 * le_value(bytes.skip(1))
    }
}

/// The number of distinct values that `n` bytes can spell.
pub open spec fn byte_range(n: nat) -> nat
    decreases n,
{
    if n == 0 {
        1
    } else {
        256 * byte_range((n - 1) as nat)
    }
}

/// `n` bytes spell a number below `byte_range(n)`.
pub proof fn le_value_bound(bytes: Seq<u8>)
    ensures
        le_value(bytes) < byte_range(bytes.len()),
    decreases bytes.len(),
{
    if bytes.len() > 0 {
        le_value_bound(bytes.skip(1));
    }
}

/// More bytes spell more numbers.
pub proof fn byte_range_grows(a: nat, b: nat)
    requires
        a <= b,
    ensures
        byte_range(a) <= byte_range(b),
    decreases b,
{
    if a < b {
        byte_range_grows(a, (b - 1) as nat);
    }
}

/// Eight bytes spell exactly the 64-bit numbers.
pub proof fn byte_range_of_words()
    ensures
        byte_range(1) == 0x100,
        byte_range(2) == 0x1_0000,
        byte_range(4) == 0x1_0000_0000,
        byte_range(8) == 0x1_0000_0000_0000_0000,
{
    reveal_with_fuel(byte_range, 9);
}

/// The first byte counts ones, and every byte counts for as much more as a byte can
/// hold than the one before it.
pub proof fn low_bytes_come_first(bytes: Seq<u8>)
    ensures
        bytes.len() == 1 ==> le_value(bytes) == bytes[0],
        bytes.len() == 2 ==> le_value(bytes) == bytes[0] + 0x100 * bytes[1],
        bytes.len() == 4 ==> le_value(bytes) == bytes[0] + 0x100 * bytes[1] + 0x1_0000 * bytes[2]
            + 0x100_0000 * bytes[3],
        bytes.len() == 8 ==> le_value(bytes) == bytes[0] + 0x100 * bytes[1] + 0x1_0000 * bytes[2]
            + 0x100_0000 * bytes[3] + 0x1_0000_0000 * bytes[4] + 0x100_0000_0000 * bytes[5]
            + 0x1_0000_0000_0000 * bytes[6] + 0x100_0000_0000_0000 * bytes[7],
{
    reveal_with_fuel(le_value, 10);
}

/// The number that at most eight bytes spell, least significant byte first.
pub fn read_le(bytes: &Vec<u8>) -> (r: u64)
    requires
        bytes@.len() <= 8,
    ensures
        r == le_value(bytes@),
{
    let len: usize = bytes.len();
    let mut i: usize = len;
    let mut value: u64 = 0;
    assert(bytes@.skip(len as int) =~= seq![]);
    while i > 0
        invariant
            len == bytes@.len(),
            i <= len <= 8,
            value == le_value(bytes@.skip(i as int)),
        decreases i,
    {
        let ghost rest = bytes@.skip(i - 1);
        assert(rest.skip(1) =~= bytes@.skip(i as int));
        proof {
            le_value_bound(rest);
            byte_range_grows(rest.len(), 8);
            byte_range_of_words();
        }
        i = i - 1;
        value = bytes[i] as u64 + 256 * value;
    }
    assert(bytes@.skip(0) =~= bytes@);
    value
}

/// The bytes of `value`, least significant byte first, `width` of them.
pub open spec fn le_bytes(value: nat, width: nat) -> Seq<u8>
    decreases width,
{
    if width == 0 {
        seq![]
    } else {
        seq![(value % 256) as u8] + le_bytes(value / 256, (width - 1) as nat)
    }
}

/// `le_bytes` yields as many bytes as asked for, and they spell the number
/// wherever it fits.
pub proof fn le_round_trip(value: nat, width: nat)
    ensures
        le_bytes(value, width).len() == width,
        value < byte_range(width) ==> le_value(le_bytes(value, width)) == value,
    decreases width,
{
    if width > 0 {
        le_round_trip(value / 256, (width - 1) as nat);
        assert(le_bytes(value, width).skip(1) =~= le_bytes(value / 256, (width - 1) as nat));
        if value < byte_range(width) {
            assert(value / 256 < byte_range((width - 1) as nat)) by (nonlinear_arith)
                requires
                    value < 256 * byte_range((width - 1) as nat),
            ;
        }
    }
}

/// Spells `value` in `width` bytes, least significant byte first.
pub fn write_le(value: u64, width: usize) -> (r: Vec<u8>)
    ensures
        r@ == le_bytes(value as nat, width as nat),
{
    let mut out: Vec<u8> = Vec::new();
    let mut rest: u64 = value;
    let mut i: usize = 0;
    assert(out@ + le_bytes(rest as nat, width as nat) =~= le_bytes(value as nat, width as nat));
    while i < width
        invariant
            i <= width,
            out@ + le_bytes(rest as nat, (width - i) as nat) == le_bytes(
                value as nat,
                width as nat,
            ),
        decreases width - i,
    {
        let ghost before = out@;
        let ghost old_rest = rest;
        out.push((rest % 256) as u8);
        rest = rest / 256;
        i = i + 1;
        assert(out@ + le_bytes(rest as nat, (width - i) as nat) =~= before + le_bytes(
            old_rest as nat,
            (width - i + 1) as nat,
        ));
    }
    assert(out@ =~= le_bytes(value as nat, width as nat));
    out
}

/// The two's complement reading of `value` as a number of `size` bytes.
pub open spec fn as_signed(value: nat, size: nat) -> int {
    if 2 * value >= byte_range(size) {
        value - byte_range(size)
    } else {
        value as int
    }
}

/// The two's complement number that the bytes spell, least significant byte
/// first.
pub fn read_signed_le(bytes: &Vec<u8>) -> (r: i64)
    requires
        1 <= bytes@.len() <= 8,
    ensures
        r == as_signed(le_value(bytes@), bytes@.len()),
{
    proof {
        le_value_bound(bytes@);
        byte_range_of_words();
        byte_range_grows(bytes@.len(), 8);
        byte_range_grows(1, bytes@.len());
    }
    let value: u64 = read_le(bytes);
    let len: usize = bytes.len();
    if len == 8 {
        if value >= 0x8000_0000_0000_0000 {
            (value as i128 - 0x1_0000_0000_0000_0000i128) as i64
        } else {
            value as i64
        }
    } else {
        let mut range: u64 = 1;
        let mut i: usize = 0;
        while i < len
            invariant
                i <= len < 8,
                range == byte_range(i as nat),
            decreases len - i,
        {
            proof {
                byte_range_grows((i + 1) as nat, 7);
                byte_range_of_words();
                assert(byte_range(8) == 256 * byte_range(7));
                assert(byte_range((i + 1) as nat) == 256 * byte_range(i as nat));
            }
            range = 256 * range;
            i = i + 1;
        }
        proof {
            byte_range_grows(len as nat, 7);
            assert(byte_range(8) == 256 * byte_range(7));
        }
        if value >= range / 2 {
            assert(2 * value >= range) by {
                assert(range % 2 == 0) by {
                    assert(byte_range(len as nat) == 256 * byte_range((len - 1) as nat));
                }
            }
            (value as i128 - range as i128) as i64
        } else {
            value as i64
        }
    }
}

/// The bytes of `data` from `from`, `len` of them, zero where `data` ends.
pub open spec fn window(data: Seq<u8>, from: int, len: nat) -> Seq<u8> {
    Seq::new(
        len,
        |i: int|
            if 0 <= from + i < data.len() {
                data[from + i]
            } else {
                0u8
            },
    )
}

/// Reads `len` bytes of `data` from `from`, zero where `data` ends.
pub fn read_window(data: &Vec<u8>, from: usize, len: usize) -> (r: Vec<u8>)
    ensures
        r@ == window(data@, from as int, len as nat),
{
    let mut out: Vec<u8> = Vec::new();
    let mut i: usize = 0;
    let total: usize = data.len();
    while i < len
        invariant
            i <= len,
            total == data@.len(),
            out@ =~= window(data@, from as int, i as nat),
        decreases len - i,
    {
        if from < total && i < total - from {
            out.push(data[from + i]);
        } else {
            out.push(0);
        }
        i = i + 1;
    }
    out
}

/// A copy of a byte vector.
pub fn copy_bytes(data: &Vec<u8>) -> (r: Vec<u8>)
    ensures
        r@ == data@,
{
    let mut out: Vec<u8> = Vec::new();
    let mut i: usize = 0;
    while i < data.len()
        invariant
            i <= data@.len(),
            out@ == data@.take(i as int),
        decreases data@.len() - i,
    {
        out.push(data[i]);
        i = i + 1;
        assert(data@.take(i as int) =~= data@.take(i - 1).push(data@[i - 1]));
    }
    assert(data@.take(data@.len() as int) =~= data@);
    out
}

/// `data` with `part` written over it from `at` on, as far as it reaches.
pub open spec fn put(data: Seq<u8>, at: int, part: Seq<u8>) -> Seq<u8> {
    Seq::new(
        data.len(),
        |i: int|
            if at <= i < at + part.len() {
                part[i - at]
            } else {
                data[i]
            },
    )
}

/// Writes `part` over `data` from `at` on.
pub fn put_bytes(data: &mut Vec<u8>, at: usize, part: &Vec<u8>)
    ensures
        final(data)@ == put(old(data)@, at as int, part@),
{
    let ghost before = data@;
    let len: usize = data.len();
    let mut i: usize = 0;
    assert(data@ =~= put(before, at as int, part@.take(0)));
    while i < part.len() && at < len && i < len - at
        invariant
            i <= part@.len(),
            len == before.len(),
            at < len ==> i <= len - at,
            data@ == put(before, at as int, part@.take(i as int)),
        decreases part@.len() - i,
    {
        data.set(at + i, part[i]);
        i = i + 1;
        assert(data@ =~= put(before, at as int, part@.take(i as int)));
    }
    assert(data@ =~= put(before, at as int, part@));
}

/// What is written can be read back, and what lies apart from it is as it was.
pub proof fn writes_are_read_back(data: Seq<u8>, at: int, part: Seq<u8>, from: int, len: nat)
    requires
        0 <= at,
        at + part.len() <= data.len(),
        0 <= from,
    ensures
        window(put(data, at, part), at, part.len()) == part,
        from + len <= at || at + part.len() <= from ==> window(put(data, at, part), from, len)
            == window(data, from, len),
{
    assert(window(put(data, at, part), at, part.len()) =~= part);
    if from + len <= at || at + part.len() <= from {
        assert(window(put(data, at, part), from, len) =~= window(data, from, len));
    }
}

} // verus!
