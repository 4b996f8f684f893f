//! The members of a tarball, as far as their sizes go.
//!
//! A tarball is a row of blocks. A member has a block for its head and then as
//! many as its contents take; some members only describe the one that follows.
//! Where the members stand is told here from their heads, without their
//! contents, so that a tarball whose sizes cannot be counted is turned away
//! before it is unpacked.
//!
//! The members are followed block by block. `tar` can list them as they stand, but
//! then it takes the map of a sparse file for its contents, and is out of step
//! with the members that follow.
use flate2::read::GzDecoder;
use std::io::Read;
use vstd::prelude::*;

use crate::bytes::read_window;

verus! {

broadcast use vstd::seq_lib::group_seq_properties;

/// How many bytes a block has.
pub const BLOCK: usize = 512;

/// Where a block that goes on with the map of a sparse file says whether another
/// such block follows it.
pub const MORE: usize = 504;

// ---------------------------------------------------------------------------
// Blocks
// ---------------------------------------------------------------------------

/// The blocks of a gzipped tarball, read one by one.
#[verifier::external_body]
pub struct BlockReader<'a> {
    decoder: GzDecoder<&'a [u8]>,
}

/// What a gzipped tarball holds: the bytes of its whole blocks, up to the first
/// that cannot be decoded.
pub uninterp spec fn unzipped(data: Seq<u8>) -> Seq<u8>;

/// The bytes of the blocks that a reader has not handed out yet.
pub uninterp spec fn blocks_left(reader: BlockReader) -> Seq<u8>;

/// `flate2::read::GzDecoder::new`, which reads nothing yet. What it decodes
/// depends on the bytes alone.
#[verifier::external_body]
fn open_blocks<'a>(data: &'a Vec<u8>) -> (r: BlockReader<'a>)
    ensures
        blocks_left(r) == unzipped(data@),
{
    BlockReader { decoder: GzDecoder::new(data.as_slice()) }
}

/// `GzDecoder`'s `read_exact` of a block; none at the end and where the block
/// cannot be decoded.
#[verifier::external_body]
fn next_block(reader: &mut BlockReader) -> (r: Option<Vec<u8>>)
    ensures
        match r {
            Some(block) => {
                &&& blocks_left(*old(reader)).len() >= BLOCK
                &&& block@ == blocks_left(*old(reader)).take(BLOCK as int)
                &&& blocks_left(*final(reader)) == blocks_left(*old(reader)).skip(BLOCK as int)
            },
            None => blocks_left(*old(reader)).len() == 0,
        },
{
    let mut block = vec![0; BLOCK];
    reader.decoder.read_exact(&mut block).ok()?;
    Some(block)
}

/// The bytes of the whole blocks of a gzipped tarball.
pub(crate) fn unzip(data: &Vec<u8>) -> (r: Vec<u8>)
    ensures
        r@ == unzipped(data@),
{
    let mut reader = open_blocks(data);
    let mut out: Vec<u8> = Vec::new();
    assert(out@ + blocks_left(reader) =~= unzipped(data@));
    loop
        invariant
            out@ + blocks_left(reader) == unzipped(data@),
        decreases blocks_left(reader).len(),
    {
        let ghost before = out@;
        let ghost left = blocks_left(reader);
        match next_block(&mut reader) {
            Some(mut block) => {
                let ghost bytes = block@;
                out.append(&mut block);
                assert(out@ =~= before + bytes);
                assert(before + bytes + left.skip(BLOCK as int) =~= before + left);
            },
            None => {
                assert(out@ =~= before + left);
                return out;
            },
        }
    }
}

// ---------------------------------------------------------------------------
// Heads
// ---------------------------------------------------------------------------

/// What the head of a member says of its size and of its kind.
#[derive(Debug, Clone, Copy, PartialEq, Eq, Structural)]
pub struct MemberHead {
    /// The size, where it can be read.
    pub size: Option<u64>,
    pub is_gnu: bool,
    pub is_ustar: bool,
    pub is_long_name: bool,
    pub is_long_link: bool,
    pub is_local: bool,
    pub is_global: bool,
    pub is_sparse: bool,
    /// Whether the map of a sparse file goes on behind the head.
    pub is_extended: bool,
}

/// What `tar` reads in the head of a member.
pub uninterp spec fn head_of(block: Seq<u8>) -> MemberHead;

/// `tar::Header::from_byte_slice`, which takes a block and nothing else, with
/// `Header::entry_size`, `Header::as_gnu`, `Header::as_ustar`, the questions of
/// `Header::entry_type`, and `GnuHeader::is_extended`.
#[verifier::external_body]
fn read_head(block: &Vec<u8>) -> (r: MemberHead)
    requires
        block@.len() == BLOCK,
    ensures
        r == head_of(block@),
{
    let header = tar::Header::from_byte_slice(block);
    let kind = header.entry_type();
    MemberHead {
        size: header.entry_size().ok(),
        is_gnu: header.as_gnu().is_some(),
        is_ustar: header.as_ustar().is_some(),
        is_long_name: kind.is_gnu_longname(),
        is_long_link: kind.is_gnu_longlink(),
        is_local: kind.is_pax_local_extensions(),
        is_global: kind.is_pax_global_extensions(),
        is_sparse: kind.is_gnu_sparse(),
        is_extended: header.as_gnu().map(|h| h.is_extended()).unwrap_or_default(),
    }
}

/// The records that `tar` reads in a description, `None` for one that cannot be
/// read: a key and a value each.
pub uninterp spec fn records_of(data: Seq<u8>) -> Seq<Option<(Seq<u8>, Seq<u8>)>>;

/// The record at `index` of those that `tar::PaxExtensions` goes through, by
/// `PaxExtension::key_bytes` and `PaxExtension::value_bytes`. Every record takes
/// a byte at least.
#[verifier::external_body]
fn read_record(data: &Vec<u8>, index: usize) -> (r: Option<Option<(Vec<u8>, Vec<u8>)>>)
    ensures
        match r {
            Some(record) => {
                &&& index < records_of(data@).len() <= data@.len()
                &&& records_of(data@)[index as int] == match record {
                    Some(pair) => Some((pair.0@, pair.1@)),
                    None => None,
                }
            },
            None => index >= records_of(data@).len(),
        },
{
    let record = tar::PaxExtensions::new(data).nth(index)?;
    Some(record.ok().map(|r| (r.key_bytes().to_vec(), r.value_bytes().to_vec())))
}

// ---------------------------------------------------------------------------
// Sizes
// ---------------------------------------------------------------------------

/// Whether a byte is a decimal digit.
pub open spec fn is_digit(b: u8) -> bool {
    0x30 <= b <= 0x39
}

/// Whether all bytes are decimal digits.
pub open spec fn all_digits(bytes: Seq<u8>) -> bool {
    forall|i: int| 0 <= i < bytes.len() ==> is_digit(#[trigger] bytes[i])
}

/// The bytes behind a plus, where they begin with one.
pub open spec fn without_plus(bytes: Seq<u8>) -> Seq<u8> {
    if bytes.len() > 0 && bytes[0] == 0x2b {
        bytes.skip(1)
    } else {
        bytes
    }
}

/// The number that decimal digits spell.
pub open spec fn digits_value(digits: Seq<u8>) -> nat
    decreases digits.len(),
{
    if digits.len() == 0 {
        0
    } else {
        10 * digits_value(digits.drop_last()) + (digits.last() - 0x30) as nat
    }
}

/// The 64-bit number that bytes spell in decimal digits, with or without a plus
/// before them.
pub open spec fn spelled(bytes: Seq<u8>) -> Option<u64> {
    let digits = without_plus(bytes);
    if digits.len() > 0 && all_digits(digits) && digits_value(digits) <= u64::MAX {
        Some(digits_value(digits) as u64)
    } else {
        None
    }
}

/// The key of the record that gives the size of a member: `size`.
pub open spec fn size_key() -> Seq<u8> {
    seq![0x73u8, 0x69u8, 0x7au8, 0x65u8]
}

/// The size that a description gives: what its first record with that key
/// spells, where all records before it can be read.
pub open spec fn described_size(records: Seq<Option<(Seq<u8>, Seq<u8>)>>) -> Option<u64>
    decreases records.len(),
{
    if records.len() == 0 {
        None
    } else {
        match records[0] {
            None => None,
            Some((key, value)) => if key == size_key() {
                spelled(value)
            } else {
                described_size(records.skip(1))
            },
        }
    }
}

/// The size of a member: what the description before it gives, or else what its
/// head says. A description is not of another description.
pub open spec fn member_size(head: MemberHead, described: Option<Seq<u8>>) -> Option<u64> {
    match (head.size, described) {
        (None, _) => None,
        (Some(size), None) => Some(size),
        (Some(size), Some(data)) => if head.is_long_name || head.is_long_link || head.is_local
            || head.is_global {
            Some(size)
        } else {
            match described_size(records_of(data)) {
                Some(size) => Some(size),
                None => Some(size),
            }
        },
    }
}

/// How many bytes the blocks of so many bytes have.
pub open spec fn in_blocks(size: u64) -> int {
    (size + 511) / 512 * 512
}

/// The end of the blocks from `at` on that go on with the map of a sparse file.
pub open spec fn map_end(bytes: Seq<u8>, at: int) -> int
    decreases bytes.len() - at,
{
    if at + BLOCK > bytes.len() {
        at
    } else if bytes[at + MORE] == 1 {
        map_end(bytes, at + BLOCK)
    } else {
        at + BLOCK
    }
}

/// Where the next member stands, behind one whose head ends at `at`.
pub open spec fn next_member(bytes: Seq<u8>, at: int, head: MemberHead, size: u64) -> int {
    if head.is_sparse && head.is_gnu && head.is_extended {
        map_end(bytes, at) + in_blocks(size)
    } else {
        at + in_blocks(size)
    }
}

/// The description of the next member, behind one whose head ends at `at`.
pub open spec fn next_described(
    bytes: Seq<u8>,
    at: int,
    head: MemberHead,
    size: u64,
    described: Option<Seq<u8>>,
) -> Option<Seq<u8>> {
    if !head.is_gnu && !head.is_ustar {
        None
    } else if head.is_local {
        if at + size <= bytes.len() {
            Some(bytes.subrange(at, at + size))
        } else {
            None
        }
    } else if head.is_long_name || head.is_long_link {
        described
    } else {
        None
    }
}

/// How many bytes there are from `at` on.
pub open spec fn behind(bytes: Seq<u8>, at: int) -> nat {
    if at < bytes.len() {
        (bytes.len() - at) as nat
    } else {
        0
    }
}

/// Whether the members of a tarball have sizes that can be counted, from the one
/// at `at` on up to the first whose head cannot be read: no size is beyond the
/// signed numbers.
pub open spec fn sizes_fit(bytes: Seq<u8>, at: int, described: Option<Seq<u8>>) -> bool
    decreases behind(bytes, at),
    via sizes_fit_ends
{
    if at < 0 || at + BLOCK > bytes.len() {
        true
    } else {
        let head = head_of(bytes.subrange(at, at + BLOCK));
        match member_size(head, described) {
            None => true,
            Some(size) => {
                &&& size <= i64::MAX
                &&& sizes_fit(
                    bytes,
                    next_member(bytes, at + BLOCK, head, size),
                    next_described(bytes, at + BLOCK, head, size, described),
                )
            },
        }
    }
}

#[via_fn]
proof fn sizes_fit_ends(bytes: Seq<u8>, at: int, described: Option<Seq<u8>>) {
    if 0 <= at && at + BLOCK <= bytes.len() {
        map_goes_on(bytes, at + BLOCK);
    }
}

proof fn map_goes_on(bytes: Seq<u8>, at: int)
    ensures
        map_end(bytes, at) >= at,
        at <= bytes.len() ==> map_end(bytes, at) <= bytes.len(),
    decreases bytes.len() - at,
{
    if at + BLOCK <= bytes.len() && bytes[at + MORE] == 1 {
        map_goes_on(bytes, at + BLOCK);
    }
}

/// The number that bytes spell in decimal digits.
fn read_spelled(bytes: &Vec<u8>) -> (r: Option<u64>)
    ensures
        r == spelled(bytes@),
{
    let start: usize = if bytes.len() > 0 && bytes[0] == 0x2b {
        1
    } else {
        0
    };
    let ghost digits = bytes@.skip(start as int);
    assert(bytes@.skip(0) =~= bytes@);
    if bytes.len() == start {
        return None;
    }
    let mut value: u64 = 0;
    let mut i: usize = start;
    assert(digits.take(0) =~= seq![]);
    while i < bytes.len()
        invariant
            start <= i <= bytes@.len(),
            digits == bytes@.skip(start as int),
            digits == without_plus(bytes@),
            forall|k: int| 0 <= k < i - start ==> is_digit(#[trigger] digits[k]),
            value == digits_value(digits.take(i - start)),
        decreases bytes@.len() - i,
    {
        let b: u8 = bytes[i];
        let ghost seen = digits.take(i + 1 - start);
        assert(b == digits[i - start]);
        if b < 0x30 || b > 0x39 {
            assert(!is_digit(digits[i - start]));
            return None;
        }
        assert(seen.drop_last() =~= digits.take(i - start));
        let next: u128 = 10 * value as u128 + (b - 0x30) as u128;
        assert(digits_value(seen) == next);
        if next > u64::MAX as u128 {
            proof {
                more_digits_spell_more(digits, i + 1 - start);
            }
            return None;
        }
        value = next as u64;
        i = i + 1;
    }
    assert(digits.take(i - start) =~= digits);
    Some(value)
}

proof fn more_digits_spell_more(digits: Seq<u8>, n: int)
    requires
        0 <= n <= digits.len(),
    ensures
        digits_value(digits.take(n)) <= digits_value(digits),
    decreases digits.len() - n,
{
    if n < digits.len() {
        more_digits_spell_more(digits, n + 1);
        assert(digits.take(n + 1).drop_last() =~= digits.take(n));
    } else {
        assert(digits.take(n) =~= digits);
    }
}

/// The size that a description gives.
fn read_described(data: &Vec<u8>) -> (r: Option<u64>)
    ensures
        r == described_size(records_of(data@)),
{
    let ghost all = records_of(data@);
    let count: usize = data.len();
    let mut i: usize = 0;
    assert(all.skip(0) =~= all);
    loop
        invariant
            all == records_of(data@),
            count == data@.len(),
            i <= all.len(),
            described_size(all) == described_size(all.skip(i as int)),
        decreases all.len() - i,
    {
        let record = match read_record(data, i) {
            Some(record) => record,
            None => {
                return None;
            },
        };
        assert(all.skip(i as int)[0] == all[i as int]);
        assert(all.skip(i as int).skip(1) =~= all.skip(i + 1));
        let (key, value) = match record {
            Some(record) => record,
            None => {
                return None;
            },
        };
        if key.len() == 4 && key[0] == 0x73 && key[1] == 0x69 && key[2] == 0x7a && key[3] == 0x65 {
            assert(key@ =~= size_key());
            return read_spelled(&value);
        }
        assert(key@ != size_key());
        i = i + 1;
    }
}

/// The end of the blocks that go on with the map of a sparse file.
fn find_map_end(bytes: &Vec<u8>, start: usize) -> (r: usize)
    requires
        start <= bytes@.len(),
    ensures
        r == map_end(bytes@, start as int),
        start <= r <= bytes@.len(),
{
    let mut at: usize = start;
    while bytes.len() - at >= BLOCK
        invariant
            start <= at <= bytes@.len(),
            map_end(bytes@, start as int) == map_end(bytes@, at as int),
        decreases bytes@.len() - at,
    {
        if bytes[at + MORE] != 1 {
            return at + BLOCK;
        }
        at = at + BLOCK;
    }
    at
}

/// Whether the members of a tarball have sizes that can be counted.
pub fn sizes_can_be_counted(bytes: &Vec<u8>) -> (r: bool)
    ensures
        r == sizes_fit(bytes@, 0, None),
{
    let mut at: usize = 0;
    let mut described: Option<Vec<u8>> = None;
    while bytes.len() - at >= BLOCK
        invariant
            at <= bytes@.len(),
            sizes_fit(bytes@, 0, None) == sizes_fit(
                bytes@,
                at as int,
                match described {
                    Some(data) => Some(data@),
                    None => None,
                },
            ),
        decreases bytes@.len() - at,
    {
        let block = read_window(bytes, at, BLOCK);
        assert(block@ =~= bytes@.subrange(at as int, at + BLOCK));
        let head = read_head(&block);
        let describes = head.is_long_name || head.is_long_link || head.is_local || head.is_global;
        let size: u64 = match head.size {
            None => {
                return true;
            },
            Some(size) => match &described {
                Some(data) => if describes {
                    size
                } else {
                    match read_described(data) {
                        Some(size) => size,
                        None => size,
                    }
                },
                None => size,
            },
        };
        if size > i64::MAX as u64 {
            return false;
        }
        let start: usize = at + BLOCK;
        let recognised = head.is_gnu || head.is_ustar;
        if recognised && head.is_local {
            if size as u128 <= (bytes.len() - start) as u128 {
                let data = read_window(bytes, start, size as usize);
                assert(data@ =~= bytes@.subrange(start as int, start + size));
                described = Some(data);
            } else {
                described = None;
            }
        } else if !(recognised && (head.is_long_name || head.is_long_link)) {
            described = None;
        }
        let contents: usize = if head.is_sparse && head.is_gnu && head.is_extended {
            find_map_end(bytes, start)
        } else {
            start
        };
        let padded: u64 = (size + 511) / 512 * 512;
        if padded as u128 > (bytes.len() - contents) as u128 {
            proof {
                reveal_with_fuel(sizes_fit, 2);
            }
            return true;
        }
        at = contents + padded as usize;
    }
    true
}

// ---------------------------------------------------------------------------
// What sizes say
// ---------------------------------------------------------------------------

/// A member takes as many whole blocks of 512 bytes as it needs, and no more; the next
/// member stands right behind them, unless the map of a sparse file goes on before
/// them.
pub proof fn members_take_whole_blocks(bytes: Seq<u8>, at: int, head: MemberHead, size: u64)
    ensures
        in_blocks(size) % 512 == 0,
        size <= in_blocks(size) < size + 512,
        !(head.is_sparse && head.is_gnu && head.is_extended) ==> next_member(bytes, at, head, size)
            == at + in_blocks(size),
        head.is_sparse && head.is_gnu && head.is_extended && at + 512 <= bytes.len() && bytes[at + MORE]
            != 1 ==> next_member(bytes, at, head, size) == at + 512 + in_blocks(size),
{
}

/// A size in a description is spelled in decimal: its first digit counts most.
pub proof fn sizes_are_spelled_in_decimal(digits: Seq<u8>, last: u8)
    requires
        all_digits(digits),
        0x30 <= last <= 0x39,
        10 * digits_value(digits) + (last - 0x30) <= u64::MAX,
    ensures
        spelled(digits.push(last)) == Some((10 * digits_value(digits) + (last - 0x30)) as u64),
        spelled(seq![0x2bu8] + digits.push(last)) == spelled(digits.push(last)),
        digits_value(seq![]) == 0,
        spelled(seq![]) is None,
{
    let all = digits.push(last);
    assert(all.drop_last() =~= digits);
    assert(all_digits(all)) by {
        assert forall|i: int| 0 <= i < all.len() implies is_digit(#[trigger] all[i]) by {
            if i < digits.len() {
                assert(all[i] == digits[i]);
            }
        }
    }
    assert(is_digit(all[0]));
    let signed = seq![0x2bu8] + all;
    assert(signed.skip(1) =~= all);
}

/// Whether a record can be read and is not called `size`.
pub open spec fn is_other_record(record: Option<(Seq<u8>, Seq<u8>)>) -> bool {
    match record {
        Some((key, _)) => key != seq![0x73u8, 0x69u8, 0x7au8, 0x65u8],
        None => false,
    }
}

/// The size of a member is what the record `size` of the description before it spells,
/// the first of that name; without one it is what the head says.
pub proof fn descriptions_give_the_size(
    head: MemberHead,
    data: Seq<u8>,
    before: Seq<Option<(Seq<u8>, Seq<u8>)>>,
    value: Seq<u8>,
    after: Seq<Option<(Seq<u8>, Seq<u8>)>>,
)
    requires
        forall|i: int|
            0 <= i < before.len() ==> is_other_record(#[trigger] before[i]),
    ensures
        described_size(before + seq![Some((seq![0x73u8, 0x69u8, 0x7au8, 0x65u8], value))] + after)
            == spelled(value),
        described_size(before) is None,
        head.size matches Some(size) ==> {
            &&& member_size(head, None) == Some(size)
            &&& !(head.is_long_name || head.is_long_link || head.is_local || head.is_global)
                ==> match described_size(records_of(data)) {
                Some(given) => member_size(head, Some(data)) == Some(given),
                None => member_size(head, Some(data)) == Some(size),
            }
        },
        head.size is None ==> member_size(head, Some(data)) is None,
    decreases before.len(),
{
    let record = Some((seq![0x73u8, 0x69u8, 0x7au8, 0x65u8], value));
    let all = before + seq![record] + after;
    if before.len() > 0 {
        assert(all[0] == before[0]);
        assert(is_other_record(before[0]));
        let rest = before.skip(1);
        assert(all.skip(1) =~= rest + seq![record] + after);
        assert forall|i: int| 0 <= i < rest.len() implies is_other_record(
            #[trigger] rest[i],
        ) by {
            assert(rest[i] == before[i + 1]);
        }
        descriptions_give_the_size(head, data, rest, value, after);
    } else {
        assert(all[0] == record);
    }
}

} // verus!
