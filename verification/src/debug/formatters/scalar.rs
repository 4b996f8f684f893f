//! Scalar values as text.
use vstd::prelude::*;

use crate::bytes::{as_signed, byte_range_of_words, le_value, le_value_bound, read_le,
    read_signed_le};
use crate::debug::dwarf::constants::{DW_ATE_ASCII, DW_ATE_BOOLEAN, DW_ATE_FLOAT, DW_ATE_SIGNED,
    DW_ATE_SIGNED_CHAR, DW_ATE_UNSIGNED, DW_ATE_UNSIGNED_CHAR, DW_ATE_UTF};
use crate::text::{decimal, numerals_spell_numbers, own, signed_decimal, signed_text, spells,
    unsigned_text};

verus! {

/// A value ready to be shown. Floating-point numbers are handed on by their
/// bits; how their digits are chosen is left to whoever shows them.
#[derive(Debug)]
pub enum Rendered {
    Text(String),
    Float32(u32),
    Float64(u64),
}

/// The mathematical value of a [`Rendered`].
pub enum RenderedModel {
    Text(Seq<char>),
    Float32(u32),
    Float64(u64),
}

impl View for Rendered {
    type V = RenderedModel;

    open spec fn view(&self) -> RenderedModel {
        match self {
            Rendered::Text(t) => RenderedModel::Text(t@),
            Rendered::Float32(b) => RenderedModel::Float32(*b),
            Rendered::Float64(b) => RenderedModel::Float64(*b),
        }
    }
}

/// A character between single quotes, escaped as in source code.
pub uninterp spec fn quoted_char(c: char) -> Seq<char>;

/// `format!` of the standard library with `{:?}` on a character: the character
/// between single quotes, escaped as in source code.
#[verifier::external_body]
fn quote_char(c: char) -> (r: String)
    ensures
        r@ == quoted_char(c),
{
    format!("{:?}", c)
}

/// Whether a size is one of the sizes that machine integers have.
pub open spec fn is_word_size(size: nat) -> bool {
    size == 1 || size == 2 || size == 4 || size == 8
}

/// How the bytes of a scalar are shown.
pub open spec fn shown_scalar(bytes: Seq<u8>, encoding: u8) -> RenderedModel {
    let size = bytes.len();
    if encoding == DW_ATE_SIGNED || encoding == DW_ATE_SIGNED_CHAR {
        if is_word_size(size) {
            RenderedModel::Text(signed_decimal(as_signed(le_value(bytes), size)))
        } else {
            RenderedModel::Text("<unsupported size>"@)
        }
    } else if encoding == DW_ATE_UNSIGNED || encoding == DW_ATE_UNSIGNED_CHAR {
        if is_word_size(size) {
            RenderedModel::Text(decimal(le_value(bytes)))
        } else {
            RenderedModel::Text("<unsupported size>"@)
        }
    } else if encoding == DW_ATE_BOOLEAN {
        RenderedModel::Text(
            if exists|i: int| 0 <= i < size && bytes[i] != 0 {
                "true"@
            } else {
                "false"@
            },
        )
    } else if encoding == DW_ATE_FLOAT {
        if size == 4 {
            RenderedModel::Float32(le_value(bytes) as u32)
        } else if size == 8 {
            RenderedModel::Float64(le_value(bytes) as u64)
        } else {
            RenderedModel::Text("<unsupported float size>"@)
        }
    } else if encoding == DW_ATE_UTF || encoding == DW_ATE_ASCII {
        if size == 1 {
            RenderedModel::Text(quoted_char(bytes[0] as char))
        } else {
            RenderedModel::Text("<unsupported char size>"@)
        }
    } else {
        RenderedModel::Text("<unsupported encoding>"@)
    }
}

/// Shows the bytes of a scalar.
pub fn format_scalar(bytes: &Vec<u8>, encoding: u8) -> (r: Rendered)
    ensures
        r@ == shown_scalar(bytes@, encoding),
{
    let size: usize = bytes.len();
    let word = size == 1 || size == 2 || size == 4 || size == 8;
    proof {
        le_value_bound(bytes@);
        byte_range_of_words();
    }
    if encoding == DW_ATE_SIGNED || encoding == DW_ATE_SIGNED_CHAR {
        if word {
            Rendered::Text(signed_text(read_signed_le(bytes)))
        } else {
            Rendered::Text(own("<unsupported size>"))
        }
    } else if encoding == DW_ATE_UNSIGNED || encoding == DW_ATE_UNSIGNED_CHAR {
        if word {
            Rendered::Text(unsigned_text(read_le(bytes)))
        } else {
            Rendered::Text(own("<unsupported size>"))
        }
    } else if encoding == DW_ATE_BOOLEAN {
        let mut i: usize = 0;
        while i < size
            invariant
                size == bytes@.len(),
                i <= size,
                encoding == DW_ATE_BOOLEAN,
                forall|k: int| 0 <= k < i ==> bytes@[k] == 0,
            decreases size - i,
        {
            if bytes[i] != 0 {
                assert(bytes@[i as int] != 0);
                return Rendered::Text(own("true"));
            }
            i = i + 1;
        }
        Rendered::Text(own("false"))
    } else if encoding == DW_ATE_FLOAT {
        if size == 4 {
            Rendered::Float32(read_le(bytes) as u32)
        } else if size == 8 {
            Rendered::Float64(read_le(bytes))
        } else {
            Rendered::Text(own("<unsupported float size>"))
        }
    } else if encoding == DW_ATE_UTF || encoding == DW_ATE_ASCII {
        if size == 1 {
            Rendered::Text(quote_char(bytes[0] as char))
        } else {
            Rendered::Text(own("<unsupported char size>"))
        }
    } else {
        Rendered::Text(own("<unsupported encoding>"))
    }
}

// ---------------------------------------------------------------------------
// Laws
// ---------------------------------------------------------------------------

/// Half of how many numbers `size` bytes can spell.
pub open spec fn half_range(size: nat) -> int {
    if size == 1 {
        0x80
    } else if size == 2 {
        0x8000
    } else if size == 4 {
        0x8000_0000
    } else {
        0x8000_0000_0000_0000
    }
}

/// Whether bytes spell a number in two's complement.
pub open spec fn spells_signed(bytes: Seq<u8>, v: int) -> bool {
    let half = half_range(bytes.len());
    if v < 0 {
        -half <= v && le_value(bytes) == v + 2 * half
    } else {
        v < half && le_value(bytes) == v
    }
}

/// A signed number of one, two, four or eight bytes is shown as its decimal numeral,
/// with a minus where it is negative.
pub proof fn signed_numbers_are_shown(bytes: Seq<u8>, encoding: u8, v: int)
    requires
        encoding == 0x05 || encoding == 0x06,
        bytes.len() == 1 || bytes.len() == 2 || bytes.len() == 4 || bytes.len() == 8,
        spells_signed(bytes, v),
    ensures
        shown_scalar(bytes, encoding) matches RenderedModel::Text(t) && spells(t, v),
{
    byte_range_of_words();
    numerals_spell_numbers(v);
}

/// Every sequence of one, two, four or eight bytes spells a number in two's
/// complement, and only one.
pub proof fn every_word_is_signed(bytes: Seq<u8>, a: int, b: int)
    requires
        bytes.len() == 1 || bytes.len() == 2 || bytes.len() == 4 || bytes.len() == 8,
    ensures
        exists|v: int| spells_signed(bytes, v),
        spells_signed(bytes, a) && spells_signed(bytes, b) ==> a == b,
{
    le_value_bound(bytes);
    byte_range_of_words();
    let n = le_value(bytes) as int;
    let half = half_range(bytes.len());
    if n < half {
        assert(spells_signed(bytes, n));
    } else {
        assert(spells_signed(bytes, n - 2 * half));
    }
}

/// An unsigned number of one, two, four or eight bytes is shown as its decimal
/// numeral, which never has a minus.
pub proof fn unsigned_numbers_are_shown(bytes: Seq<u8>, encoding: u8)
    requires
        encoding == 0x07 || encoding == 0x08,
        bytes.len() == 1 || bytes.len() == 2 || bytes.len() == 4 || bytes.len() == 8,
    ensures
        shown_scalar(bytes, encoding) matches RenderedModel::Text(t) && spells(
            t,
            le_value(bytes) as int,
        ),
{
    numerals_spell_numbers(le_value(bytes) as int);
}

/// A truth value is shown as `false` exactly where all of its bytes are zero, and
/// as `true` otherwise.
pub proof fn truth_values_are_shown(bytes: Seq<u8>)
    ensures
        shown_scalar(bytes, 0x02) == RenderedModel::Text("false"@) <==> forall|i: int|
            0 <= i < bytes.len() ==> #[trigger] bytes[i] == 0,
        shown_scalar(bytes, 0x02) == RenderedModel::Text("true"@) <==> exists|i: int|
            0 <= i < bytes.len() && #[trigger] bytes[i] != 0,
{
    reveal_strlit("true");
    reveal_strlit("false");
    assert("true"@.len() != "false"@.len());
    if forall|i: int| 0 <= i < bytes.len() ==> #[trigger] bytes[i] == 0 {
        assert(shown_scalar(bytes, 0x02) == RenderedModel::Text("false"@));
    } else {
        let i = choose|i: int| 0 <= i < bytes.len() && #[trigger] bytes[i] != 0;
        assert(bytes[i] != 0);
        assert(shown_scalar(bytes, 0x02) == RenderedModel::Text("true"@));
    }
}

/// A floating-point number is handed on by all of its bits, and a character of one
/// byte is shown as that character. What has none of the known sizes is said to be
/// unsupported.
pub proof fn other_scalars_are_shown(bytes: Seq<u8>, encoding: u8)
    ensures
        encoding == 0x04 && bytes.len() == 4 ==> (shown_scalar(
            bytes,
            encoding,
        ) matches RenderedModel::Float32(b) && b == le_value(bytes)),
        encoding == 0x04 && bytes.len() == 8 ==> (shown_scalar(
            bytes,
            encoding,
        ) matches RenderedModel::Float64(b) && b == le_value(bytes)),
        encoding == 0x04 && bytes.len() != 4 && bytes.len() != 8 ==> shown_scalar(bytes, encoding)
            == RenderedModel::Text("<unsupported float size>"@),
        (encoding == 0x10 || encoding == 0x12) && bytes.len() == 1 ==> shown_scalar(bytes, encoding)
            == RenderedModel::Text(quoted_char(bytes[0] as char)),
        (encoding == 0x10 || encoding == 0x12) && bytes.len() != 1 ==> shown_scalar(bytes, encoding)
            == RenderedModel::Text("<unsupported char size>"@),
        0x05 <= encoding <= 0x08 && bytes.len() != 1 && bytes.len() != 2 && bytes.len() != 4
            && bytes.len() != 8 ==> shown_scalar(bytes, encoding) == RenderedModel::Text(
            "<unsupported size>"@,
        ),
        encoding != 0x02 && encoding != 0x10 && encoding != 0x12 && !(0x04 <= encoding <= 0x08)
            ==> shown_scalar(bytes, encoding) == RenderedModel::Text("<unsupported encoding>"@),
{
    le_value_bound(bytes);
    byte_range_of_words();
}

} // verus!
