//! Text: the string operations that the debugger's rules are stated with.
//!
//! A string is modelled by the sequence of its characters. The executable
//! functions work on character vectors and are proved against the sequence
//! model.
use vstd::prelude::*;

verus! {

broadcast use {vstd::seq_lib::group_seq_properties, vstd::string::group_string_axioms};

/// `String::push` of the standard library: appends one character.
pub assume_specification[ String::push ](s: &mut String, ch: char)
    ensures
        final(s)@ == old(s)@.push(ch),
;

/// The characters of a string, in order.
pub fn chars_of(s: &str) -> (r: Vec<char>)
    ensures
        r@ == s@,
{
    let mut out: Vec<char> = Vec::new();
    for c in it: s.chars()
        invariant
            it.seq() == s@,
            out@ == s@.take(it.index() as int),
    {
        out.push(c);
        assert(s@.take(it.index() as int + 1) =~= s@.take(it.index() as int).push(c));
    }
    assert(s@.take(s@.len() as int) =~= s@);
    out
}

/// The string whose characters are those of `v`, in order.
pub fn string_of(v: &Vec<char>) -> (r: String)
    ensures
        r@ == v@,
{
    let mut out = String::new();
    let mut i: usize = 0;
    while i < v.len()
        invariant
            i <= v@.len(),
            out@ == v@.take(i as int),
        decreases v@.len() - i,
    {
        out.push(v[i]);
        i = i + 1;
        assert(v@.take(i as int) =~= v@.take(i - 1).push(v@[i - 1]));
    }
    assert(v@.take(v@.len() as int) =~= v@);
    out
}

/// A copy of a string slice.
pub fn own(s: &str) -> (r: String)
    ensures
        r@ == s@,
{
    let mut out = String::new();
    out.append(s);
    assert(out@ =~= s@);
    out
}

/// Two strings written one after the other.
pub fn concat(a: &str, b: &str) -> (r: String)
    ensures
        r@ == a@ + b@,
{
    let mut out = own(a);
    out.append(b);
    out
}

/// Whether two character vectors hold the same characters.
pub fn same_chars(a: &Vec<char>, b: &Vec<char>) -> (r: bool)
    ensures
        r == (a@ == b@),
{
    if a.len() != b.len() {
        return false;
    }
    let mut i: usize = 0;
    while i < a.len()
        invariant
            a@.len() == b@.len(),
            i <= a@.len(),
            a@.take(i as int) =~= b@.take(i as int),
        decreases a@.len() - i,
    {
        if a[i] != b[i] {
            assert(a@[i as int] != b@[i as int]);
            return false;
        }
        i = i + 1;
        assert(a@.take(i as int) =~= a@.take(i - 1).push(a@[i - 1]));
        assert(b@.take(i as int) =~= b@.take(i - 1).push(b@[i - 1]));
    }
    assert(a@ =~= a@.take(a@.len() as int));
    assert(b@ =~= b@.take(b@.len() as int));
    true
}

/// Whether two strings hold the same text.
pub fn same(a: &str, b: &str) -> (r: bool)
    ensures
        r == (a@ == b@),
{
    same_chars(&chars_of(a), &chars_of(b))
}

// ---------------------------------------------------------------------------
// Numbers
// ---------------------------------------------------------------------------

/// The decimal digit for `d`.
pub open spec fn decimal_digit(d: nat) -> char {
    (('0' as int + d) as u8) as char
}

/// The decimal numeral of a natural number, without leading zeros.
pub open spec fn decimal(n: nat) -> Seq<char>
    decreases n,
{
    if n < 10 {
        seq![decimal_digit(n)]
    } else {
        decimal(n / 10).push(decimal_digit(n % 10))
    }
}

/// The decimal numeral of an integer, with a leading `-` where it is negative.
pub open spec fn signed_decimal(i: int) -> Seq<char> {
    if i < 0 {
        seq!['-'] + decimal((-i) as nat)
    } else {
        decimal(i as nat)
    }
}

/// The number that a decimal numeral spells.
pub open spec fn numeral_value(t: Seq<char>) -> int
    decreases t.len(),
{
    if t.len() == 0 {
        0
    } else {
        10 * numeral_value(t.drop_last()) + (t.last() as int - '0' as int)
    }
}

/// Whether a text is a decimal numeral without leading zeros.
pub open spec fn is_numeral(t: Seq<char>) -> bool {
    &&& t.len() > 0
    &&& forall|i: int| 0 <= i < t.len() ==> '0' <= #[trigger] t[i] <= '9'
    &&& t[0] == '0' ==> t.len() == 1
}

/// Whether a text spells a number in decimal, with a minus where it is negative.
pub open spec fn spells(t: Seq<char>, i: int) -> bool {
    if i < 0 {
        t.len() > 0 && t[0] == '-' && is_numeral(t.skip(1)) && numeral_value(t.skip(1)) == -i
    } else {
        is_numeral(t) && numeral_value(t) == i
    }
}

/// What is rendered in decimal spells the number that it was rendered from.
pub proof fn numerals_spell_numbers(i: int)
    ensures
        spells(signed_decimal(i), i),
        i >= 0 ==> spells(decimal(i as nat), i),
{
    if i < 0 {
        decimal_spells((-i) as nat);
        assert(signed_decimal(i).skip(1) =~= decimal((-i) as nat));
    } else {
        decimal_spells(i as nat);
    }
}

proof fn decimal_spells(n: nat)
    ensures
        is_numeral(decimal(n)),
        numeral_value(decimal(n)) == n,
        n > 0 ==> decimal(n)[0] != '0',
    decreases n,
{
    if n < 10 {
        assert(decimal(n).drop_last() =~= seq![]);
        assert(numeral_value(seq![]) == 0);
    } else {
        decimal_spells(n / 10);
        assert(decimal(n).drop_last() =~= decimal(n / 10));
        assert(decimal(n)[0] == decimal(n / 10)[0]);
    }
}

fn digit_char(d: u8) -> (r: char)
    requires
        d < 10,
    ensures
        r == decimal_digit(d as nat),
{
    (48 + d) as char
}

/// Renders `n` in decimal.
pub fn unsigned_text(n: u64) -> (r: String)
    ensures
        r@ == decimal(n as nat),
    decreases n,
{
    if n < 10 {
        let mut out = String::new();
        out.push(digit_char(n as u8));
        assert(out@ =~= decimal(n as nat));
        out
    } else {
        let mut out = unsigned_text(n / 10);
        out.push(digit_char((n % 10) as u8));
        out
    }
}

/// Renders `i` in decimal.
pub fn signed_text(i: i64) -> (r: String)
    ensures
        r@ == signed_decimal(i as int),
{
    if i < 0 {
        let mut out = String::new();
        out.push('-');
        let magnitude: u64 = (-(i as i128)) as u64;
        let digits = unsigned_text(magnitude);
        out.append(digits.as_str());
        assert(out@ =~= signed_decimal(i as int));
        out
    } else {
        unsigned_text(i as u64)
    }
}

/// The lower-case hexadecimal digit for `d`.
pub open spec fn hex_digit(d: nat) -> char {
    if d < 10 {
        (('0' as int + d) as u8) as char
    } else {
        (('a' as int + (d - 10)) as u8) as char
    }
}

/// The lower-case hexadecimal numeral of a natural number, without leading zeros.
pub open spec fn hex(n: nat) -> Seq<char>
    decreases n,
{
    if n < 16 {
        seq![hex_digit(n)]
    } else {
        hex(n / 16).push(hex_digit(n % 16))
    }
}

/// The low `width` hexadecimal digits of a natural number, zeros included.
pub open spec fn padded_hex(n: nat, width: nat) -> Seq<char>
    decreases width,
{
    if width == 0 {
        seq![]
    } else {
        padded_hex(n / 16, (width - 1) as nat).push(hex_digit(n % 16))
    }
}

/// How much a lower-case hexadecimal digit counts.
pub open spec fn hex_digit_value(c: char) -> int {
    if '0' <= c <= '9' {
        c as int - '0' as int
    } else {
        c as int - 'a' as int + 10
    }
}

/// The number that a hexadecimal numeral spells.
pub open spec fn hex_value(t: Seq<char>) -> int
    decreases t.len(),
{
    if t.len() == 0 {
        0
    } else {
        16 * hex_value(t.drop_last()) + hex_digit_value(t.last())
    }
}

/// Whether a text consists of lower-case hexadecimal digits.
pub open spec fn all_hex_digits(t: Seq<char>) -> bool {
    forall|i: int|
        0 <= i < t.len() ==> '0' <= #[trigger] t[i] <= '9' || 'a' <= t[i] <= 'f'
}

/// What is rendered in hexadecimal spells the number that it was rendered from,
/// without leading zeros; what is rendered in a fixed width spells as much of it
/// as fits.
pub proof fn hex_numerals_spell_numbers(n: nat, width: nat)
    ensures
        hex(n).len() > 0,
        all_hex_digits(hex(n)),
        hex_value(hex(n)) == n,
        n > 0 ==> hex(n)[0] != '0',
        padded_hex(n, width).len() == width,
        all_hex_digits(padded_hex(n, width)),
        width == 8 ==> hex_value(padded_hex(n, width)) == n % 0x1_0000_0000,
{
    hex_spells(n);
    padded_hex_spells(n, width);
    assert(sixteens(8) == 0x1_0000_0000) by {
        reveal_with_fuel(sixteens, 9);
    }
}

spec fn sixteens(width: nat) -> nat
    decreases width,
{
    if width == 0 {
        1
    } else {
        16 * sixteens((width - 1) as nat)
    }
}

proof fn hex_spells(n: nat)
    ensures
        hex(n).len() > 0,
        all_hex_digits(hex(n)),
        hex_value(hex(n)) == n,
        n > 0 ==> hex(n)[0] != '0',
    decreases n,
{
    if n < 16 {
        assert(hex(n).drop_last() =~= seq![]);
        assert(hex_value(seq![]) == 0);
    } else {
        hex_spells(n / 16);
        assert(hex(n).drop_last() =~= hex(n / 16));
        assert(hex(n)[0] == hex(n / 16)[0]);
    }
}

proof fn padded_hex_spells(n: nat, width: nat)
    ensures
        sixteens(width) > 0,
        padded_hex(n, width).len() == width,
        all_hex_digits(padded_hex(n, width)),
        hex_value(padded_hex(n, width)) == n % sixteens(width),
    decreases width,
{
    if width > 0 {
        let w = (width - 1) as nat;
        padded_hex_spells(n / 16, w);
        assert(padded_hex(n, width).drop_last() =~= padded_hex(n / 16, w));
        let s = sixteens(w) as int;
        let m = n as int;
        assert(16 * ((m / 16) % s) + m % 16 == m % (16 * s)) by {
            vstd::arithmetic::div_mod::lemma_breakdown(m, 16, s);
        }
    } else {
        assert(n % 1 == 0);
    }
}

fn hex_char(d: u8) -> (r: char)
    requires
        d < 16,
    ensures
        r == hex_digit(d as nat),
{
    if d < 10 {
        (48 + d) as char
    } else {
        (97 + (d - 10)) as char
    }
}

/// Renders `n` in lower-case hexadecimal.
pub fn hex_text(n: u64) -> (r: String)
    ensures
        r@ == hex(n as nat),
    decreases n,
{
    if n < 16 {
        let mut out = String::new();
        out.push(hex_char(n as u8));
        assert(out@ =~= hex(n as nat));
        out
    } else {
        let mut out = hex_text(n / 16);
        out.push(hex_char((n % 16) as u8));
        out
    }
}

/// Renders the low `width` hexadecimal digits of `n`.
pub fn padded_hex_text(n: u64, width: usize) -> (r: String)
    ensures
        r@ == padded_hex(n as nat, width as nat),
    decreases width,
{
    if width == 0 {
        let out = String::new();
        assert(out@ =~= padded_hex(n as nat, 0));
        out
    } else {
        let mut out = padded_hex_text(n / 16, width - 1);
        out.push(hex_char((n % 16) as u8));
        out
    }
}

// ---------------------------------------------------------------------------
// Searching
// ---------------------------------------------------------------------------

/// Whether `pat` stands in `s` at position `at`.
pub open spec fn occurs_at(s: Seq<char>, pat: Seq<char>, at: int) -> bool {
    &&& 0 <= at
    &&& at + pat.len() <= s.len()
    &&& s.subrange(at, at + pat.len()) == pat
}

/// Whether `s` begins with `pat`.
pub open spec fn begins_with(s: Seq<char>, pat: Seq<char>) -> bool {
    occurs_at(s, pat, 0)
}

/// Whether `pat` stands anywhere in `s`.
pub open spec fn holds(s: Seq<char>, pat: Seq<char>) -> bool {
    exists|at: int| occurs_at(s, pat, at)
}

/// The first position at or after `from` where `pat` stands in `s`.
pub open spec fn first_from(s: Seq<char>, pat: Seq<char>, from: int) -> Option<int>
    decreases s.len() + 1 - from,
{
    if from > s.len() {
        None
    } else if occurs_at(s, pat, from) {
        Some(from)
    } else {
        first_from(s, pat, from + 1)
    }
}

/// `first_from` gives a position where the pattern stands, and the least one.
pub proof fn first_from_is_first(s: Seq<char>, pat: Seq<char>, from: int)
    requires
        0 <= from,
    ensures
        match first_from(s, pat, from) {
            Some(at) => {
                &&& from <= at
                &&& occurs_at(s, pat, at)
                &&& forall|i: int| from <= i < at ==> !occurs_at(s, pat, i)
            },
            None => forall|i: int| from <= i ==> !occurs_at(s, pat, i),
        },
    decreases s.len() + 1 - from,
{
    if from <= s.len() && !occurs_at(s, pat, from) {
        first_from_is_first(s, pat, from + 1);
    }
}

/// Whether `pat` stands in `s` at position `at`.
pub fn matches_at(s: &Vec<char>, pat: &Vec<char>, at: usize) -> (r: bool)
    ensures
        r == occurs_at(s@, pat@, at as int),
{
    if at > s.len() || pat.len() > s.len() - at {
        return false;
    }
    let len: usize = s.len();
    let mut i: usize = 0;
    while i < pat.len()
        invariant
            len == s@.len(),
            i <= pat@.len(),
            at + pat@.len() <= s@.len(),
            s@.subrange(at as int, at + i) =~= pat@.take(i as int),
        decreases pat@.len() - i,
    {
        if s[at + i] != pat[i] {
            assert(s@.subrange(at as int, at + pat@.len())[i as int] == s@[at + i]);
            return false;
        }
        i = i + 1;
        assert(s@.subrange(at as int, at + i) =~= s@.subrange(at as int, at + i - 1).push(
            s@[at + i - 1],
        ));
        assert(pat@.take(i as int) =~= pat@.take(i - 1).push(pat@[i - 1]));
    }
    assert(pat@.take(pat@.len() as int) =~= pat@);
    true
}

/// The first position at or after `from` where `pat` stands in `s`.
pub fn find_from(s: &Vec<char>, pat: &Vec<char>, from: usize) -> (r: Option<usize>)
    requires
        from <= s@.len(),
    ensures
        match r {
            Some(at) => first_from(s@, pat@, from as int) == Some(at as int) && at + pat@.len()
                <= s@.len(),
            None => first_from(s@, pat@, from as int) is None,
        },
{
    let mut at: usize = from;
    while at < s.len()
        invariant
            from <= at <= s@.len(),
            first_from(s@, pat@, from as int) == first_from(s@, pat@, at as int),
        decreases s@.len() - at,
    {
        if matches_at(s, pat, at) {
            return Some(at);
        }
        at = at + 1;
    }
    if matches_at(s, pat, at) {
        Some(at)
    } else {
        assert(first_from(s@, pat@, at + 1) is None);
        None
    }
}

/// Whether `s` begins with `pat`.
pub fn starts_with(s: &str, pat: &str) -> (r: bool)
    ensures
        r == begins_with(s@, pat@),
{
    matches_at(&chars_of(s), &chars_of(pat), 0)
}

/// Whether `pat` stands anywhere in `s`.
pub fn contains(s: &str, pat: &str) -> (r: bool)
    ensures
        r == holds(s@, pat@),
{
    let v = chars_of(s);
    let p = chars_of(pat);
    proof {
        first_from_is_first(s@, pat@, 0);
    }
    find_from(&v, &p, 0).is_some()
}

// ---------------------------------------------------------------------------
// Replacing, splitting and joining
// ---------------------------------------------------------------------------

/// `s` with every occurrence of `pat`, taken from the left and without
/// overlaps, replaced by `with`.
pub open spec fn replaced(s: Seq<char>, pat: Seq<char>, with: Seq<char>) -> Seq<char>
    decreases s.len(),
{
    if s.len() == 0 || pat.len() == 0 {
        s
    } else if begins_with(s, pat) {
        with + replaced(s.skip(pat.len() as int), pat, with)
    } else {
        seq![s[0]] + replaced(s.skip(1), pat, with)
    }
}

/// Replaces every occurrence of `pat` in `s` by `with`.
pub fn replace(s: &str, pat: &str, with: &str) -> (r: String)
    requires
        pat@.len() > 0,
    ensures
        r@ == replaced(s@, pat@, with@),
{
    let v = chars_of(s);
    let p = chars_of(pat);
    let mut out = String::new();
    let mut i: usize = 0;
    assert(v@.skip(0) =~= v@);
    assert(out@ + replaced(v@, p@, with@) =~= replaced(v@, p@, with@));
    while i < v.len()
        invariant
            p@.len() > 0,
            i <= v@.len(),
            out@ + replaced(v@.skip(i as int), p@, with@) == replaced(v@, p@, with@),
        decreases v@.len() - i,
    {
        let ghost rest = v@.skip(i as int);
        let ghost before = out@;
        if matches_at(&v, &p, i) {
            assert(rest.subrange(0, p@.len() as int) =~= v@.subrange(i as int, i + p@.len()));
            out.append(with);
            i = i + p.len();
            assert(v@.skip(i as int) =~= rest.skip(p@.len() as int));
        } else {
            assert(!begins_with(rest, p@)) by {
                if begins_with(rest, p@) {
                    assert(rest.subrange(0, p@.len() as int) =~= v@.subrange(
                        i as int,
                        i + p@.len(),
                    ));
                }
            }
            out.push(v[i]);
            i = i + 1;
            assert(v@.skip(i as int) =~= rest.skip(1));
            assert(out@ =~= before + seq![rest[0]]);
        }
        assert(out@ + replaced(v@.skip(i as int), p@, with@) =~= before + replaced(
            rest,
            p@,
            with@,
        ));
    }
    assert(replaced(v@.skip(i as int), p@, with@) =~= seq![]);
    assert(out@ =~= replaced(v@, p@, with@));
    out
}

/// The pieces of `s` between the occurrences of `sep`, taken from the left.
pub open spec fn pieces(s: Seq<char>, sep: Seq<char>) -> Seq<Seq<char>>
    decreases s.len(),
{
    match first_from(s, sep, 0) {
        Some(at) => if sep.len() > 0 && 0 <= at && at + sep.len() <= s.len() {
            seq![s.take(at)] + pieces(s.skip(at + sep.len()), sep)
        } else {
            seq![s]
        },
        None => seq![s],
    }
}

/// The texts of a list of strings.
pub open spec fn texts(v: Seq<String>) -> Seq<Seq<char>> {
    v.map_values(|s: String| s@)
}

/// The texts of a list, written one after the other with `sep` between them.
pub open spec fn joined(parts: Seq<Seq<char>>, sep: Seq<char>) -> Seq<char>
    decreases parts.len(),
{
    if parts.len() == 0 {
        seq![]
    } else if parts.len() == 1 {
        parts[0]
    } else {
        joined(parts.drop_last(), sep) + sep + parts.last()
    }
}

/// Writes the strings one after the other with `sep` between them.
pub fn join(parts: &Vec<String>, sep: &str) -> (r: String)
    ensures
        r@ == joined(texts(parts@), sep@),
{
    let mut out = String::new();
    let mut i: usize = 0;
    let ghost all = texts(parts@);
    assert(out@ =~= joined(all.take(0), sep@));
    while i < parts.len()
        invariant
            i <= parts@.len(),
            all == texts(parts@),
            all.len() == parts@.len(),
            out@ == joined(all.take(i as int), sep@),
        decreases parts@.len() - i,
    {
        if i > 0 {
            out.append(sep);
        }
        out.append(parts[i].as_str());
        i = i + 1;
        assert(all.take(i as int).drop_last() =~= all.take(i - 1));
        assert(all.take(i as int).last() == parts@[i - 1]@);
        if i == 1 {
            assert(out@ =~= joined(all.take(i as int), sep@));
        }
    }
    assert(all.take(all.len() as int) =~= all);
    out
}

/// The characters of `v` from `from` up to, not including, `to`.
pub fn slice_chars(v: &Vec<char>, from: usize, to: usize) -> (r: Vec<char>)
    requires
        from <= to <= v@.len(),
    ensures
        r@ == v@.subrange(from as int, to as int),
{
    let mut out: Vec<char> = Vec::new();
    let mut i: usize = from;
    while i < to
        invariant
            from <= i <= to <= v@.len(),
            out@ == v@.subrange(from as int, i as int),
        decreases to - i,
    {
        out.push(v[i]);
        i = i + 1;
        assert(v@.subrange(from as int, i as int) =~= v@.subrange(from as int, i - 1).push(
            v@[i - 1],
        ));
    }
    out
}

/// The pieces of `s` between the occurrences of `sep`.
pub fn split(s: &str, sep: &str) -> (r: Vec<String>)
    requires
        sep@.len() > 0,
    ensures
        texts(r@) == pieces(s@, sep@),
{
    let mut rest = chars_of(s);
    let p = chars_of(sep);
    let mut out: Vec<String> = Vec::new();
    assert(texts(out@) + pieces(s@, sep@) =~= pieces(s@, sep@));
    loop
        invariant_except_break
            texts(out@) + pieces(rest@, p@) == pieces(s@, sep@),
        invariant
            p@ == sep@,
            p@.len() > 0,
        ensures
            texts(out@) == pieces(s@, sep@),
        decreases rest@.len(),
    {
        proof {
            first_from_is_first(rest@, p@, 0);
        }
        let ghost before = out@;
        match find_from(&rest, &p, 0) {
            Some(at) => {
                let len: usize = rest.len();
                let head = slice_chars(&rest, 0, at);
                let tail = slice_chars(&rest, at + p.len(), len);
                out.push(string_of(&head));
                assert(head@ =~= rest@.take(at as int));
                assert(tail@ =~= rest@.skip(at + p@.len()));
                assert(texts(out@) =~= texts(before).push(head@));
                assert(texts(out@) + pieces(tail@, p@) =~= texts(before) + pieces(rest@, p@));
                rest = tail;
            },
            None => {
                out.push(string_of(&rest));
                assert(texts(out@) =~= texts(before).push(rest@));
                assert(texts(out@) =~= texts(before) + pieces(rest@, p@));
                break;
            },
        }
    }
    out
}

// ---------------------------------------------------------------------------
// Letter case
// ---------------------------------------------------------------------------

/// The lower-case form of an ASCII letter; every other character unchanged.
pub open spec fn lower_char(c: char) -> char {
    if 'A' <= c && c <= 'Z' {
        ((c as int + 32) as u8) as char
    } else {
        c
    }
}

/// `s` with its ASCII letters in lower case.
pub open spec fn lowered(s: Seq<char>) -> Seq<char> {
    s.map_values(|c: char| lower_char(c))
}

/// Turns the ASCII letters of `s` to lower case.
pub fn lower(s: &str) -> (r: String)
    ensures
        r@ == lowered(s@),
{
    let v = chars_of(s);
    let mut out = String::new();
    let mut i: usize = 0;
    assert(out@ =~= lowered(v@.take(0)));
    while i < v.len()
        invariant
            i <= v@.len(),
            out@ == lowered(v@.take(i as int)),
        decreases v@.len() - i,
    {
        let c = v[i];
        if 'A' <= c && c <= 'Z' {
            out.push((c as u8 + 32) as char);
        } else {
            out.push(c);
        }
        i = i + 1;
        assert(lowered(v@.take(i as int)) =~= lowered(v@.take(i - 1)).push(
            lower_char(v@[i - 1]),
        ));
    }
    assert(v@.take(v@.len() as int) =~= v@);
    out
}

// ---------------------------------------------------------------------------
// What is taken apart and put together
// ---------------------------------------------------------------------------

/// What stands first in a list is written first, with the separator behind it.
pub proof fn joins_start_with_the_first(first: Seq<char>, rest: Seq<Seq<char>>, sep: Seq<char>)
    ensures
        joined(seq![first], sep) == first,
        rest.len() > 0 ==> joined(seq![first] + rest, sep) == first + sep + joined(rest, sep),
    decreases rest.len(),
{
    let all = seq![first] + rest;
    assert(seq![first][0] == first);
    if rest.len() == 1 {
        assert(all.drop_last() =~= seq![first]);
        assert(all.last() == rest[0]);
        assert(rest[0] == rest.last());
    } else if rest.len() > 1 {
        joins_start_with_the_first(first, rest.drop_last(), sep);
        assert(all.drop_last() =~= seq![first] + rest.drop_last());
        assert(all.last() == rest.last());
        assert(joined(all, sep) =~= first + sep + joined(rest, sep));
    }
}

/// A text that is taken apart at a separator is put together again with it, and no
/// piece holds the separator.
pub proof fn pieces_make_the_text(s: Seq<char>, sep: Seq<char>)
    requires
        sep.len() > 0,
    ensures
        joined(pieces(s, sep), sep) == s,
        pieces(s, sep).len() > 0,
        forall|i: int| 0 <= i < pieces(s, sep).len() ==> !holds(#[trigger] pieces(s, sep)[i], sep),
    decreases s.len(),
{
    first_from_is_first(s, sep, 0);
    let all = pieces(s, sep);
    match first_from(s, sep, 0) {
        Some(at) => {
            let rest = pieces(s.skip(at + sep.len()), sep);
            pieces_make_the_text(s.skip(at + sep.len()), sep);
            joins_start_with_the_first(s.take(at), rest, sep);
            assert(s =~= s.take(at) + s.subrange(at, at + sep.len()) + s.skip(at + sep.len()));
            assert forall|i: int| 0 <= i < all.len() implies !holds(#[trigger] all[i], sep) by {
                if i > 0 {
                    assert(all[i] == rest[i - 1]);
                } else if holds(s.take(at), sep) {
                    let n = choose|n: int| occurs_at(s.take(at), sep, n);
                    assert(s.subrange(n, n + sep.len()) =~= s.take(at).subrange(n, n + sep.len()));
                    assert(occurs_at(s, sep, n));
                }
            }
        },
        None => {
            joins_start_with_the_first(s, seq![], sep);
            if holds(s, sep) {
                let n = choose|n: int| occurs_at(s, sep, n);
                assert(!occurs_at(s, sep, n));
            }
        },
    }
}

/// A text stays as it is up to where a pattern first stands in it, and there the
/// replacement takes the pattern's place; a text without the pattern stays as it is.
pub proof fn patterns_are_replaced(s: Seq<char>, pat: Seq<char>, with: Seq<char>)
    requires
        pat.len() > 0,
    ensures
        match first_from(s, pat, 0) {
            Some(at) => replaced(s, pat, with) == s.take(at) + with + replaced(
                s.skip(at + pat.len()),
                pat,
                with,
            ),
            None => replaced(s, pat, with) == s,
        },
    decreases s.len(),
{
    first_from_is_first(s, pat, 0);
    if s.len() > 0 && !begins_with(s, pat) {
        let rest = s.skip(1);
        patterns_are_replaced(rest, pat, with);
        first_from_is_first(rest, pat, 0);
        assert forall|n: int| 0 <= n implies occurs_at(rest, pat, n) == occurs_at(
            s,
            pat,
            #[trigger] (n + 1),
        ) by {
            if n + 1 + pat.len() <= s.len() {
                assert(rest.subrange(n, n + pat.len()) =~= s.subrange(n + 1, n + 1 + pat.len()));
            }
        }
        match first_from(rest, pat, 0) {
            Some(at) => {
                assert(occurs_at(s, pat, at + 1));
                let found = first_from(s, pat, 0)->0;
                if found < at + 1 {
                    assert(occurs_at(s, pat, (found - 1) + 1));
                    assert(occurs_at(rest, pat, found - 1));
                }
                assert(found == at + 1);
                assert(rest.skip(at + pat.len()) =~= s.skip(at + 1 + pat.len()));
                assert(seq![s[0]] + (rest.take(at) + with + replaced(
                    rest.skip(at + pat.len()),
                    pat,
                    with,
                )) =~= s.take(at + 1) + with + replaced(rest.skip(at + pat.len()), pat, with));
            },
            None => {
                if let Some(found) = first_from(s, pat, 0) {
                    assert(occurs_at(s, pat, (found - 1) + 1));
                    assert(occurs_at(rest, pat, found - 1));
                }
                assert(seq![s[0]] + rest =~= s);
            },
        }
    } else if s.len() > 0 {
        assert(first_from(s, pat, 0) == Some(0int));
        assert(s.take(0) + with =~= with);
    }
}

} // verus!
