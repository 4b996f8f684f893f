//! A report on the breakpoints that instrumenting a module has added.
use vstd::prelude::*;

use crate::debug::dwarf::unit::Location;
use crate::text::{begins_with, chars_of, concat, find_from, first_from, first_from_is_first,
    numeral_value, occurs_at, slice_chars, spells, starts_with, texts};
use crate::wasm::reader::{ModulePart, PartModel, next_part, next_text, part_cursor, part_model,
    parts_left, parts_of, text_cursor, texts_left};

verus! {

broadcast use vstd::seq_lib::group_seq_properties;

// ---------------------------------------------------------------------------
// Numbers in the texts of operators
// ---------------------------------------------------------------------------

/// Whether a character is white space.
pub open spec fn is_space(c: char) -> bool {
    let n = c as int;
    ||| 9 <= n <= 13
    ||| n == 32
    ||| n == 0x85
    ||| n == 0xa0
    ||| n == 0x1680
    ||| 0x2000 <= n <= 0x200a
    ||| n == 0x2028
    ||| n == 0x2029
    ||| n == 0x202f
    ||| n == 0x205f
    ||| n == 0x3000
}

/// A text without the closing braces at its end.
pub open spec fn without_braces(s: Seq<char>) -> Seq<char>
    decreases s.len(),
{
    if s.len() > 0 && s.last() == '}' {
        without_braces(s.drop_last())
    } else {
        s
    }
}

/// A text without the white space at its end.
pub open spec fn trimmed_end(s: Seq<char>) -> Seq<char>
    decreases s.len(),
{
    if s.len() > 0 && is_space(s.last()) {
        trimmed_end(s.drop_last())
    } else {
        s
    }
}

/// A text without the white space at its beginning.
pub open spec fn trimmed_start(s: Seq<char>) -> Seq<char>
    decreases s.len(),
{
    if s.len() > 0 && is_space(s[0]) {
        trimmed_start(s.skip(1))
    } else {
        s
    }
}

/// The number that decimal digits make; none where a character is no digit.
pub open spec fn digits_value(s: Seq<char>) -> Option<nat>
    decreases s.len(),
{
    if s.len() == 0 {
        Some(0)
    } else {
        match digits_value(s.drop_last()) {
            Some(n) if '0' <= s.last() && s.last() <= '9' => Some(
                (10 * n + (s.last() as int - '0' as int)) as nat,
            ),
            _ => None,
        }
    }
}

/// The number that a text is: digits, behind a sign or not. A `-` is a sign
/// where the number is signed.
pub open spec fn number(s: Seq<char>, signed: bool) -> Option<int> {
    let negative = signed && s.len() > 0 && s[0] == '-';
    let digits = if negative || (s.len() > 0 && s[0] == '+') {
        s.skip(1)
    } else {
        s
    };
    match digits_value(digits) {
        Some(n) if digits.len() > 0 => Some(
            if negative {
                -(n as int)
            } else {
                n as int
            },
        ),
        _ => None,
    }
}

/// What stands behind the first `prefix` in a text, up to the next blank, or
/// without its last character where no blank follows.
pub open spec fn field_after(s: Seq<char>, prefix: Seq<char>) -> Option<Seq<char>> {
    match first_from(s, prefix, 0) {
        None => None,
        Some(at) => {
            let rest = s.skip(at + prefix.len());
            match first_from(rest, " "@, 0) {
                Some(end) => Some(rest.take(end)),
                None => if rest.len() == 0 {
                    None
                } else {
                    Some(rest.drop_last())
                },
            }
        },
    }
}

/// The number behind `prefix` in the text of an operator.
pub open spec fn number_after(s: Seq<char>, prefix: Seq<char>, signed: bool) -> Option<int> {
    match field_after(s, prefix) {
        None => None,
        Some(field) => number(trimmed_end(trimmed_start(without_braces(field))), signed),
    }
}

/// The function that the text of an operator calls.
pub open spec fn call_index(s: Seq<char>) -> Option<u32> {
    match number_after(s, "Call { function_index: "@, false) {
        Some(n) if n <= u32::MAX => Some(n as u32),
        _ => None,
    }
}

/// The constant that the text of an operator gives.
pub open spec fn i32_const(s: Seq<char>) -> Option<i32> {
    match number_after(s, "I32Const { value: "@, true) {
        Some(n) if i32::MIN <= n <= i32::MAX => Some(n as i32),
        _ => None,
    }
}

fn space(c: char) -> (r: bool)
    ensures
        r == is_space(c),
{
    ('\u{9}' <= c && c <= '\u{d}') || c == '\u{20}' || c == '\u{85}' || c == '\u{a0}' || c
        == '\u{1680}' || ('\u{2000}' <= c && c <= '\u{200a}') || c == '\u{2028}' || c == '\u{2029}'
        || c == '\u{202f}' || c == '\u{205f}' || c == '\u{3000}'
}

/// Takes the closing braces from the end of a text.
fn cut_braces(s: Vec<char>) -> (r: Vec<char>)
    ensures
        r@ == without_braces(s@),
{
    let mut end: usize = s.len();
    assert(s@.take(end as int) =~= s@);
    while end > 0 && s[end - 1] == '}'
        invariant
            end <= s@.len(),
            without_braces(s@.take(end as int)) == without_braces(s@),
        decreases end,
    {
        assert(s@.take(end as int).drop_last() =~= s@.take(end - 1));
        end = end - 1;
    }
    slice_chars(&s, 0, end)
}

/// Takes the white space from the end of a text.
fn cut_end(s: Vec<char>) -> (r: Vec<char>)
    ensures
        r@ == trimmed_end(s@),
{
    let mut end: usize = s.len();
    assert(s@.take(end as int) =~= s@);
    while end > 0 && space(s[end - 1])
        invariant
            end <= s@.len(),
            trimmed_end(s@.take(end as int)) == trimmed_end(s@),
        decreases end,
    {
        assert(s@.take(end as int).drop_last() =~= s@.take(end - 1));
        end = end - 1;
    }
    slice_chars(&s, 0, end)
}

/// Takes the white space from the beginning of a text.
fn cut_start(s: Vec<char>) -> (r: Vec<char>)
    ensures
        r@ == trimmed_start(s@),
{
    let mut start: usize = 0;
    assert(s@.skip(0) =~= s@);
    while start < s.len() && space(s[start])
        invariant
            start <= s@.len(),
            trimmed_start(s@.skip(start as int)) == trimmed_start(s@),
        decreases s@.len() - start,
    {
        assert(s@.skip(start as int).skip(1) =~= s@.skip(start + 1));
        start = start + 1;
    }
    let r = slice_chars(&s, start, s.len());
    assert(r@ =~= s@.skip(start as int));
    r
}

proof fn digits_grow(s: Seq<char>, k: int)
    requires
        0 <= k <= s.len(),
    ensures
        digits_value(s.take(k)) is None ==> digits_value(s) is None,
        digits_value(s) is Some && digits_value(s.take(k)) is Some ==> digits_value(
            s,
        )->Some_0 >= digits_value(s.take(k))->Some_0,
    decreases s.len() - k,
{
    if k == s.len() {
        assert(s.take(k) =~= s);
    } else {
        digits_grow(s, k + 1);
        assert(s.take(k + 1).drop_last() =~= s.take(k));
    }
}

/// The number that a text is, where it is far from the ends of 64 bits.
fn parse_number(s: &Vec<char>, signed: bool) -> (r: Option<i64>)
    ensures
        match number(s@, signed) {
            Some(n) if -0x1_0000_0000 < n < 0x1_0000_0000 => r == Some(n as i64),
            _ => r is None,
        },
{
    let negative = signed && s.len() > 0 && s[0] == '-';
    let from: usize = if negative || (s.len() > 0 && s[0] == '+') {
        1
    } else {
        0
    };
    let ghost digits = s@.skip(from as int);
    assert(s@.skip(0) =~= s@);
    if from == s.len() {
        return None;
    }
    let mut value: u64 = 0;
    let mut i: usize = from;
    assert(digits.take(0) =~= seq![]);
    while i < s.len()
        invariant
            from <= i <= s@.len(),
            digits == s@.skip(from as int),
            number(s@, signed) == (match digits_value(digits) {
                Some(n) => Some(
                    if negative {
                        -(n as int)
                    } else {
                        n as int
                    },
                ),
                None => None,
            }),
            digits_value(digits.take(i - from)) == Some(value as nat),
            value < 0x1_0000_0000,
        decreases s@.len() - i,
    {
        let c: char = s[i];
        proof {
            let next = digits.take(i + 1 - from);
            assert(next.drop_last() =~= digits.take(i - from));
            assert(next.last() == c);
            digits_grow(digits, i + 1 - from);
        }
        if c < '0' || c > '9' {
            return None;
        }
        value = 10 * value + (c as u64 - '0' as u64);
        if value >= 0x1_0000_0000 {
            return None;
        }
        i = i + 1;
    }
    assert(digits.take(i - from) =~= digits);
    if negative {
        Some(-(value as i64))
    } else {
        Some(value as i64)
    }
}

/// The number behind `prefix` in the text of an operator.
fn parse_after(s: &str, prefix: &str, signed: bool) -> (r: Option<i64>)
    ensures
        match number_after(s@, prefix@, signed) {
            Some(n) if -0x1_0000_0000 < n < 0x1_0000_0000 => r == Some(n as i64),
            _ => r is None,
        },
{
    let s = chars_of(s);
    let len: usize = s.len();
    let prefix = chars_of(prefix);
    let start: usize = match find_from(&s, &prefix, 0) {
        Some(at) => at + prefix.len(),
        None => {
            return None;
        },
    };
    let rest = slice_chars(&s, start, len);
    assert(rest@ =~= s@.skip(start as int));
    let blank = chars_of(" ");
    let end: usize = match find_from(&rest, &blank, 0) {
        Some(end) => end,
        None => {
            if rest.len() == 0 {
                return None;
            }
            rest.len() - 1
        },
    };
    let field = slice_chars(&rest, 0, end);
    assert(field@ =~= rest@.take(end as int));
    assert(rest@.len() > 0 ==> rest@.take(rest@.len() - 1) =~= rest@.drop_last());
    let field = cut_end(cut_start(cut_braces(field)));
    parse_number(&field, signed)
}

/// The function that the text of an operator calls; none where it is not the
/// text of a call.
pub fn parse_call_index(s: &str) -> (r: Option<u32>)
    ensures
        r == call_index(s@),
{
    match parse_after(s, "Call { function_index: ", false) {
        Some(n) => Some(n as u32),
        None => None,
    }
}

/// The constant that the text of an operator gives; none where it gives none.
pub fn parse_i32_const(s: &str) -> (r: Option<i32>)
    ensures
        r == i32_const(s@),
{
    match parse_after(s, "I32Const { value: ", true) {
        Some(n) => if -0x8000_0000 <= n && n <= 0x7fff_ffff {
            Some(n as i32)
        } else {
            None
        },
        None => None,
    }
}

// ---------------------------------------------------------------------------
// The breakpoint function
// ---------------------------------------------------------------------------

/// The functions that are called right behind a constant, for each such call.
pub open spec fn calls_behind_constants(instrs: Seq<Seq<char>>) -> Seq<u32>
    decreases instrs.len(),
{
    if instrs.len() < 2 {
        seq![]
    } else {
        let before = calls_behind_constants(instrs.drop_last());
        match call_index(instrs.last()) {
            Some(f) if begins_with(instrs[instrs.len() - 2], "I32Const"@) => before.push(f),
            _ => before,
        }
    }
}

/// The texts of the operators of functions.
pub open spec fn code_texts(funcs: Seq<Vec<String>>) -> Seq<Seq<Seq<char>>> {
    funcs.map_values(|f: Vec<String>| texts(f@))
}

/// The functions that are called right behind a constant, in all functions.
pub open spec fn all_calls(funcs: Seq<Seq<Seq<char>>>) -> Seq<u32>
    decreases funcs.len(),
{
    if funcs.len() == 0 {
        seq![]
    } else {
        all_calls(funcs.drop_last()) + calls_behind_constants(funcs.last())
    }
}

/// How often a number stands in a list.
pub open spec fn times(s: Seq<u32>, x: u32) -> nat
    decreases s.len(),
{
    if s.len() == 0 {
        0
    } else {
        times(s.drop_last(), x) + if s.last() == x {
            1nat
        } else {
            0
        }
    }
}

proof fn times_bound(s: Seq<u32>, x: u32)
    ensures
        times(s, x) <= s.len(),
        times(s, x) > 0 <==> s.contains(x),
    decreases s.len(),
{
    if s.len() > 0 {
        times_bound(s.drop_last(), x);
        if s.contains(x) && s.last() != x {
            let i = choose|i: int| 0 <= i < s.len() && s[i] == x;
            assert(s.drop_last()[i] == x);
        }
        if s.last() == x {
            assert(s[s.len() - 1] == x);
        } else if s.drop_last().contains(x) {
            let i = choose|i: int| 0 <= i < s.len() - 1 && s.drop_last()[i] == x;
            assert(s[i] == x);
        }
    }
}

spec fn has_count(counts: Seq<(u32, usize)>, f: u32) -> bool {
    exists|k: int| 0 <= k < counts.len() && (#[trigger] counts[k]).0 == f
}

/// The calls behind constants in all functions.
fn collect_calls(funcs: &Vec<Vec<String>>) -> (r: Vec<u32>)
    ensures
        r@ == all_calls(code_texts(funcs@)),
{
    let ghost all = code_texts(funcs@);
    let mut out: Vec<u32> = Vec::new();
    let mut i: usize = 0;
    assert(all.take(0) =~= seq![]);
    while i < funcs.len()
        invariant
            i <= funcs@.len(),
            all == code_texts(funcs@),
            out@ == all_calls(all.take(i as int)),
        decreases funcs@.len() - i,
    {
        let instrs = &funcs[i];
        let ghost code = texts(instrs@);
        let ghost before = out@;
        assert(all.take(i + 1).drop_last() =~= all.take(i as int));
        assert(all.take(i + 1).last() == code);
        let mut k: usize = 1;
        assert(before + calls_behind_constants(code.take(0)) =~= before);
        if instrs.len() > 0 {
            assert(before + calls_behind_constants(code.take(1)) =~= before);
            while k < instrs.len()
                invariant
                    1 <= k <= instrs@.len(),
                    code == texts(instrs@),
                    out@ == before + calls_behind_constants(code.take(k as int)),
                decreases instrs@.len() - k,
            {
                proof {
                    let next = code.take(k + 1);
                    assert(next.drop_last() =~= code.take(k as int));
                    assert(next.last() == instrs@[k as int]@);
                    assert(next[next.len() - 2] == instrs@[k - 1]@);
                }
                if starts_with(instrs[k - 1].as_str(), "I32Const") {
                    if let Some(f) = parse_call_index(instrs[k].as_str()) {
                        out.push(f);
                    }
                }
                k = k + 1;
                assert(out@ =~= before + calls_behind_constants(code.take(k as int)));
            }
            assert(code.take(k as int) =~= code);
        } else {
            assert(code.take(0) =~= code);
        }
        i = i + 1;
    }
    assert(all.take(i as int) =~= all);
    out
}

/// The function that is called most often right behind a constant. Where
/// several are called as often, one of them.
pub fn find_breakpoint_fn(funcs: &Vec<Vec<String>>) -> (r: Option<u32>)
    ensures
        ({
            let calls = all_calls(code_texts(funcs@));
            match r {
                Some(f) => {
                    &&& calls.contains(f)
                    &&& forall|g: u32| #[trigger] times(calls, g) <= times(calls, f)
                },
                None => calls.len() == 0,
            }
        }),
{
    let calls = collect_calls(funcs);
    let ghost all = calls@;
    if calls.len() == 0 {
        return None;
    }
    let total: usize = calls.len();
    // How often each function is called.
    let mut counts: Vec<(u32, usize)> = Vec::new();
    let mut i: usize = 0;
    while i < total
        invariant
            total == calls@.len(),
            i <= total,
            all == calls@,
            forall|k: int|
                0 <= k < counts@.len() ==> (#[trigger] counts@[k]).1 == times(
                    all.take(i as int),
                    counts@[k].0,
                ),
            forall|j: int| 0 <= j < i ==> has_count(counts@, #[trigger] all[j]),
        decreases total - i,
    {
        let ghost before = counts@;
        let ghost next = all.take(i + 1);
        assert(next.drop_last() =~= all.take(i as int));
        assert(next.last() == all[i as int]);
        let f: u32 = calls[i];
        let mut k: usize = 0;
        let mut fresh = true;
        while k < counts.len()
            invariant
                total == calls@.len(),
                i < total,
                all == calls@,
                f == all[i as int],
                k <= counts@.len(),
                counts@.len() == before.len(),
                next == all.take(i + 1),
                next.drop_last() == all.take(i as int),
                next.last() == f,
                next.len() > 0,
                forall|n: int| 0 <= n < before.len() ==> (#[trigger] counts@[n]).0 == before[n].0,
                forall|n: int|
                    0 <= n < before.len() ==> (#[trigger] before[n]).1 == times(
                        all.take(i as int),
                        before[n].0,
                    ),
                forall|n: int|
                    0 <= n < k ==> (#[trigger] counts@[n]).1 == times(next, counts@[n].0),
                forall|n: int| k <= n < before.len() ==> #[trigger] counts@[n] == before[n],
                fresh ==> forall|n: int| 0 <= n < k ==> (#[trigger] before[n]).0 != f,
                !fresh ==> exists|n: int| 0 <= n < before.len() && (#[trigger] before[n]).0 == f,
            decreases counts@.len() - k,
        {
            assert(counts@[k as int] == before[k as int]);
            if counts[k].0 == f {
                proof {
                    times_bound(all.take(i as int), f);
                }
                let more: usize = counts[k].1 + 1;
                counts.set(k, (f, more));
                fresh = false;
            }
            k = k + 1;
        }
        let ghost counted = counts@;
        if fresh {
            proof {
                times_bound(all.take(i as int), f);
                if all.take(i as int).contains(f) {
                    let j = choose|j: int| 0 <= j < i && all.take(i as int)[j] == f;
                    assert(all[j] == f);
                    let n = choose|n: int| 0 <= n < before.len() && (#[trigger] before[n]).0 == all[j];
                    assert(before[n].0 != f);
                }
            }
            counts.push((f, 1));
        }
        proof {
            assert forall|j: int| 0 <= j < i + 1 implies has_count(
                counts@,
                #[trigger] all[j],
            ) by {
                if j < i {
                    let n = choose|n: int| 0 <= n < before.len() && (#[trigger] before[n]).0 == all[j];
                    assert(counted[n].0 == before[n].0);
                    assert(counts@[n].0 == all[j]);
                } else if fresh {
                    assert(counts@[counts@.len() - 1].0 == all[j]);
                } else {
                    let n = choose|n: int| 0 <= n < before.len() && (#[trigger] before[n]).0 == f;
                    assert(counted[n].0 == f);
                    assert(counts@[n].0 == all[j]);
                }
            }
            assert forall|k: int| 0 <= k < counts@.len() implies (#[trigger] counts@[k]).1
                == times(next, counts@[k].0) by {
                if k < counted.len() {
                    assert(counts@[k] == counted[k]);
                }
            }
        }
        i = i + 1;
    }
    assert(all.take(i as int) =~= all);
    assert(counts@.len() > 0) by {
        assert(has_count(counts@, all[0]));
    }
    let mut best: usize = 0;
    let mut k: usize = 1;
    while k < counts.len()
        invariant
            best < k <= counts@.len(),
            forall|n: int| 0 <= n < k ==> (#[trigger] counts@[n]).1 <= counts@[best as int].1,
        decreases counts@.len() - k,
    {
        if counts[k].1 > counts[best].1 {
            best = k;
        }
        k = k + 1;
    }
    let f: u32 = counts[best].0;
    proof {
        assert forall|g: u32| #[trigger] times(all, g) <= times(all, f) by {
            times_bound(all, g);
            if all.contains(g) {
                let j = choose|j: int| 0 <= j < all.len() && all[j] == g;
                assert(has_count(counts@, all[j]));
                let n = choose|n: int| 0 <= n < counts@.len() && (#[trigger] counts@[n]).0 == all[j];
                assert(counts@[n].1 <= counts@[best as int].1);
            }
        }
        times_bound(all, all[0]);
        assert(all.contains(all[0]));
        times_bound(all, f);
    }
    Some(f)
}

/// A breakpoint that was added.
#[derive(Debug, Clone, Copy, PartialEq, Eq, Structural)]
pub struct BreakpointHit {
    pub index: i32,
}

/// The numbers that are handed to the breakpoint function in the code of a
/// function, from operator `i` on.
pub open spec fn breakpoints_from(instrs: Seq<Seq<char>>, i: int, bkpt_fn: u32) -> Seq<
    BreakpointHit,
>
    decreases instrs.len() - i,
{
    if i + 1 >= instrs.len() {
        seq![]
    } else {
        match i32_const(instrs[i]) {
            Some(index) if call_index(instrs[i + 1]) == Some(bkpt_fn) => seq![
                BreakpointHit { index },
            ] + breakpoints_from(instrs, i + 2, bkpt_fn),
            _ => breakpoints_from(instrs, i + 1, bkpt_fn),
        }
    }
}

/// The numbers that are handed to the breakpoint function in the code of a
/// function.
pub open spec fn breakpoints_in(instrs: Seq<Seq<char>>, bkpt_fn: Option<u32>) -> Seq<
    BreakpointHit,
> {
    match bkpt_fn {
        Some(f) => breakpoints_from(instrs, 0, f),
        None => seq![],
    }
}

/// The breakpoints in the code of a function.
pub fn extract_breakpoints(instrs: &Vec<String>, bkpt_fn: Option<u32>) -> (r: Vec<BreakpointHit>)
    ensures
        r@ == breakpoints_in(texts(instrs@), bkpt_fn),
{
    let mut result: Vec<BreakpointHit> = Vec::new();
    let bkpt_fn: u32 = match bkpt_fn {
        Some(f) => f,
        None => {
            return result;
        },
    };
    let ghost code = texts(instrs@);
    let ghost want = breakpoints_from(code, 0, bkpt_fn);
    let mut i: usize = 0;
    assert(result@ + want =~= want);
    while i < instrs.len() && instrs.len() - i > 1
        invariant
            i <= instrs@.len(),
            code == texts(instrs@),
            result@ + breakpoints_from(code, i as int, bkpt_fn) == want,
        decreases instrs@.len() - i,
    {
        assert(code[i as int] == instrs@[i as int]@);
        assert(code[i + 1] == instrs@[i + 1]@);
        let ghost before = result@;
        if let (Some(val), Some(call_idx)) = (
            parse_i32_const(instrs[i].as_str()),
            parse_call_index(instrs[i + 1].as_str()),
        ) {
            if call_idx == bkpt_fn {
                result.push(BreakpointHit { index: val });
                assert(result@ + breakpoints_from(code, i + 2, bkpt_fn) =~= before + (seq![
                    BreakpointHit { index: val },
                ] + breakpoints_from(code, i + 2, bkpt_fn)));
                i = i + 2;
                continue;
            }
        }
        i = i + 1;
    }
    assert(result@ + seq![] =~= result@);
    result
}

// ---------------------------------------------------------------------------
// Functions as texts
// ---------------------------------------------------------------------------

/// The text of an operator, or of what went wrong with it.
pub open spec fn shown_operator(op: Result<Seq<char>, Seq<char>>) -> Seq<char> {
    match op {
        Ok(text) => text,
        Err(e) => "<error: "@ + e + ">"@,
    }
}

/// The code of a module's functions as texts. What follows a part that cannot
/// be read is left out.
pub open spec fn disassembled(parts: Seq<Option<PartModel>>) -> Seq<Seq<Seq<char>>>
    decreases parts.len(),
{
    if parts.len() == 0 {
        seq![]
    } else {
        let before = disassembled(parts.drop_last());
        match parts.last() {
            Some(PartModel::Body(ops)) => before.push(
                ops.map_values(|op: Result<Seq<char>, Seq<char>>| shown_operator(op)),
            ),
            _ => before,
        }
    }
}

/// The code of a module's functions as texts.
pub fn disassemble_functions(wasm_bytes: &Vec<u8>) -> (r: Vec<Vec<String>>)
    ensures
        code_texts(r@) == disassembled(parts_of(wasm_bytes@)),
{
    let ghost all = parts_of(wasm_bytes@);
    let mut cursor = part_cursor(wasm_bytes);
    let mut functions: Vec<Vec<String>> = Vec::new();
    let ghost mut n: int = 0;
    assert(all.skip(0) =~= all);
    assert(code_texts(functions@) =~= disassembled(all.take(0)));
    loop
        invariant
            all == parts_of(wasm_bytes@),
            0 <= n <= all.len(),
            parts_left(cursor) == all.skip(n),
            code_texts(functions@) == disassembled(all.take(n)),
        decreases all.len() - n,
    {
        let ghost rest = all.skip(n);
        let part = match next_part(&mut cursor) {
            Ok(Some(part)) => part,
            Ok(None) => {
                assert(all.take(n) =~= all);
                return functions;
            },
            Err(_) => {
                assert(rest[0] == all[n]);
                assert(all.take(n + 1).drop_last() =~= all.take(n));
                assert(all.take(n + 1) =~= all);
                return functions;
            },
        };
        assert(rest[0] == all[n]);
        assert(rest.skip(1) =~= all.skip(n + 1));
        assert(all.take(n + 1).drop_last() =~= all.take(n));
        assert(all.take(n + 1).last() == Some(part_model(part)));
        if let ModulePart::Body(code) = part {
            let mut texts_cursor = text_cursor(&code);
            let ghost ops = texts_left(texts_cursor);
            let ghost shown = |op: Result<Seq<char>, Seq<char>>| shown_operator(op);
            let mut instrs: Vec<String> = Vec::new();
            let ghost mut k: int = 0;
            assert(ops.skip(0) =~= ops);
            loop
                invariant_except_break
                    texts_left(texts_cursor) == ops.skip(k),
                invariant
                    0 <= k <= ops.len(),
                    instrs@.len() == k,
                    forall|i: int| 0 <= i < k ==> (#[trigger] instrs@[i])@ == shown_operator(ops[i]),
                ensures
                    k == ops.len(),
                    instrs@.len() == k,
                    forall|i: int| 0 <= i < k ==> (#[trigger] instrs@[i])@ == shown_operator(ops[i]),
                decreases ops.len() - k,
            {
                let ghost left = ops.skip(k);
                let text = match next_text(&mut texts_cursor) {
                    None => {
                        break;
                    },
                    Some(Ok(text)) => text,
                    Some(Err(e)) => {
                        let start = concat("<error: ", e.as_str());
                        concat(start.as_str(), ">")
                    },
                };
                assert(left[0] == ops[k]);
                assert(left.skip(1) =~= ops.skip(k + 1));
                instrs.push(text);
                proof {
                    k = k + 1;
                }
            }
            assert(texts(instrs@) =~= ops.map_values(shown));
            let ghost before = code_texts(functions@);
            functions.push(instrs);
            assert(code_texts(functions@) =~= before.push(texts(instrs@)));
        }
        proof {
            n = n + 1;
        }
    }
}

// ---------------------------------------------------------------------------
// The report
// ---------------------------------------------------------------------------

/// The breakpoints in functions of an instrumented module, in those whose code
/// has not the length that it had.
pub open spec fn injected_in(
    plain: Seq<Seq<Seq<char>>>,
    instrumented: Seq<Seq<Seq<char>>>,
    bkpt_fn: Option<u32>,
) -> Seq<BreakpointHit>
    decreases instrumented.len(),
{
    if instrumented.len() == 0 {
        seq![]
    } else {
        let at = instrumented.len() - 1;
        let before = injected_in(plain, instrumented.drop_last(), bkpt_fn);
        let old_len = if at < plain.len() {
            plain[at].len()
        } else {
            0
        };
        if instrumented[at].len() == old_len {
            before
        } else {
            before + breakpoints_in(instrumented[at], bkpt_fn)
        }
    }
}

/// The breakpoints that instrumenting a module has added to its functions.
pub fn injected(
    plain: &Vec<Vec<String>>,
    instrumented: &Vec<Vec<String>>,
    bkpt_fn: Option<u32>,
) -> (r: Vec<BreakpointHit>)
    ensures
        r@ == injected_in(code_texts(plain@), code_texts(instrumented@), bkpt_fn),
{
    let ghost old_code = code_texts(plain@);
    let ghost all = code_texts(instrumented@);
    let mut out: Vec<BreakpointHit> = Vec::new();
    let mut i: usize = 0;
    assert(all.take(0) =~= seq![]);
    while i < instrumented.len()
        invariant
            i <= instrumented@.len(),
            old_code == code_texts(plain@),
            all == code_texts(instrumented@),
            out@ == injected_in(old_code, all.take(i as int), bkpt_fn),
        decreases instrumented@.len() - i,
    {
        assert(all.take(i + 1).drop_last() =~= all.take(i as int));
        assert(all.take(i + 1)[i as int] == texts(instrumented@[i as int]@));
        let old_len: usize = if i < plain.len() {
            assert(old_code[i as int] == texts(plain@[i as int]@));
            plain[i].len()
        } else {
            0
        };
        if instrumented[i].len() != old_len {
            let mut more = extract_breakpoints(&instrumented[i], bkpt_fn);
            out.append(&mut more);
        }
        i = i + 1;
    }
    assert(all.take(i as int) =~= all);
    out
}

/// The location that a breakpoint belongs to. The numbers of breakpoints count
/// from one here.
pub open spec fn hit_location(locations: Seq<Location>, hit: BreakpointHit) -> Option<Location> {
    if 1 <= hit.index <= locations.len() {
        Some(locations[hit.index - 1])
    } else {
        None
    }
}

/// Whether a breakpoint belongs to a line.
pub open spec fn is_on(locations: Seq<Location>, hit: BreakpointHit, file: usize, line: usize) -> bool {
    match hit_location(locations, hit) {
        Some(l) => l.file_index == file && l.line == line,
        None => false,
    }
}

/// How many breakpoints belong to a line.
pub open spec fn hits_on(
    locations: Seq<Location>,
    hits: Seq<BreakpointHit>,
    file: usize,
    line: usize,
) -> nat
    decreases hits.len(),
{
    if hits.len() == 0 {
        0
    } else {
        hits_on(locations, hits.drop_last(), file, line) + if is_on(
            locations,
            hits.last(),
            file,
            line,
        ) {
            1nat
        } else {
            0
        }
    }
}

/// A line with breakpoints, and how many.
#[derive(Debug, Clone, Copy, PartialEq, Eq, Structural)]
pub struct LineCount {
    pub file: usize,
    pub line: usize,
    pub count: usize,
}

/// Whether a line stands before another: in a file before the other's, or
/// before it in the same file.
pub open spec fn line_before(a: LineCount, b: LineCount) -> bool {
    a.file < b.file || (a.file == b.file && a.line < b.line)
}

/// Whether lines stand in order, each once.
pub open spec fn lines_in_order(v: Seq<LineCount>) -> bool {
    forall|i: int, j: int| 0 <= i < j < v.len() ==> line_before(#[trigger] v[i], #[trigger] v[j])
}

/// Whether a line stands among those that were counted.
pub open spec fn has_line(v: Seq<LineCount>, file: usize, line: usize) -> bool {
    exists|i: int| 0 <= i < v.len() && (#[trigger] v[i]).file == file && v[i].line == line
}

/// Whether `v` counts the breakpoints of all lines that have any.
pub open spec fn counts_lines(
    v: Seq<LineCount>,
    locations: Seq<Location>,
    hits: Seq<BreakpointHit>,
) -> bool {
    &&& lines_in_order(v)
    &&& forall|i: int|
        0 <= i < v.len() ==> (#[trigger] v[i]).count > 0 && v[i].count == hits_on(
            locations,
            hits,
            v[i].file,
            v[i].line,
        )
    &&& forall|file: usize, line: usize| #[trigger]
        hits_on(locations, hits, file, line) > 0 ==> has_line(v, file, line)
}

proof fn hits_bound(locations: Seq<Location>, hits: Seq<BreakpointHit>, file: usize, line: usize)
    ensures
        hits_on(locations, hits, file, line) <= hits.len(),
    decreases hits.len(),
{
    if hits.len() > 0 {
        hits_bound(locations, hits.drop_last(), file, line);
    }
}

/// Counts one more breakpoint on a line.
fn count_line(v: &mut Vec<LineCount>, file: usize, line: usize)
    requires
        lines_in_order(old(v)@),
        forall|i: int| 0 <= i < old(v)@.len() ==> (#[trigger] old(v)@[i]).count < usize::MAX,
    ensures
        lines_in_order(final(v)@),
        has_line(final(v)@, file, line),
        forall|i: int|
            0 <= i < final(v)@.len() ==> {
                let entry = #[trigger] final(v)@[i];
                if entry.file == file && entry.line == line {
                    if has_line(old(v)@, file, line) {
                        old(v)@.contains(LineCount { count: (entry.count - 1) as usize, ..entry })
                            && entry.count > 0
                    } else {
                        entry.count == 1
                    }
                } else {
                    old(v)@.contains(entry)
                }
            },
        forall|i: int|
            0 <= i < old(v)@.len() ==> has_line(
                final(v)@,
                (#[trigger] old(v)@[i]).file,
                old(v)@[i].line,
            ),
{
    let ghost before = v@;
    let mut k: usize = 0;
    while k < v.len() && (v[k].file < file || (v[k].file == file && v[k].line < line))
        invariant
            v@ == before,
            k <= before.len(),
            forall|i: int|
                0 <= i < k ==> (#[trigger] before[i]).file < file || (before[i].file == file
                    && before[i].line < line),
        decreases before.len() - k,
    {
        k = k + 1;
    }
    if k < v.len() && v[k].file == file && v[k].line == line {
        let more: usize = v[k].count + 1;
        v.set(k, LineCount { file, line, count: more });
        proof {
            assert(before[k as int].file == file);
            assert(has_line(before, file, line));
            assert forall|i: int| 0 <= i < v@.len() implies ({
                let entry = #[trigger] v@[i];
                if entry.file == file && entry.line == line {
                    before.contains(LineCount { count: (entry.count - 1) as usize, ..entry })
                        && entry.count > 0
                } else {
                    before.contains(entry)
                }
            }) by {
                if i == k {
                    assert(before[k as int] == (LineCount {
                        count: (v@[i].count - 1) as usize,
                        ..v@[i]
                    }));
                } else {
                    assert(before[i] == v@[i]);
                    if i < k {
                        assert(line_before(before[i], before[k as int]));
                    } else {
                        assert(line_before(before[k as int], before[i]));
                    }
                }
            }
            assert forall|i: int| 0 <= i < before.len() implies has_line(
                v@,
                (#[trigger] before[i]).file,
                before[i].line,
            ) by {
                assert(v@[i].file == before[i].file && v@[i].line == before[i].line);
            }
            assert forall|i: int, j: int| 0 <= i < j < v@.len() implies line_before(
                #[trigger] v@[i],
                #[trigger] v@[j],
            ) by {
                assert(line_before(before[i], before[j]));
            }
            assert(v@[k as int].file == file);
        }
    } else {
        let entry = LineCount { file, line, count: 1 };
        v.insert(k, entry);
        proof {
            assert(v@ =~= before.insert(k as int, entry));
            if k < before.len() {
                assert(line_before(entry, before[k as int]));
            }
            assert forall|i: int| k <= i < before.len() implies line_before(
                entry,
                #[trigger] before[i],
            ) by {
                if i > k {
                    assert(line_before(before[k as int], before[i]));
                }
            }
            assert(!has_line(before, file, line)) by {
                assert forall|i: int| 0 <= i < before.len() implies !((
                #[trigger] before[i]).file == file && before[i].line == line) by {
                    if i >= k {
                        assert(line_before(entry, before[i]));
                    }
                }
            }
            assert forall|i: int, j: int| 0 <= i < j < v@.len() implies line_before(
                #[trigger] v@[i],
                #[trigger] v@[j],
            ) by {
                if j < k {
                    assert(line_before(before[i], before[j]));
                } else if j == k {
                    assert(v@[i] == before[i]);
                } else if i == k {
                    assert(v@[j] == before[j - 1]);
                    assert(line_before(entry, before[j - 1]));
                } else if i > k {
                    assert(line_before(before[i - 1], before[j - 1]));
                } else {
                    assert(v@[j] == before[j - 1]);
                    assert(line_before(before[i], before[j - 1]));
                }
            }
            assert forall|i: int| 0 <= i < v@.len() implies ({
                let e = #[trigger] v@[i];
                if e.file == file && e.line == line {
                    e.count == 1
                } else {
                    before.contains(e)
                }
            }) by {
                if i < k {
                    assert(before[i] == v@[i]);
                } else if i > k {
                    assert(before[i - 1] == v@[i]);
                    assert(line_before(entry, before[i - 1]));
                }
            }
            assert forall|i: int| 0 <= i < before.len() implies has_line(
                v@,
                (#[trigger] before[i]).file,
                before[i].line,
            ) by {
                if i < k {
                    assert(v@[i] == before[i]);
                } else {
                    assert(v@[i + 1] == before[i]);
                }
            }
            assert(v@[k as int] == entry);
        }
    }
}

/// Counts the breakpoints of each line.
pub fn count_lines(locations: &Vec<Location>, hits: &Vec<BreakpointHit>) -> (r: Vec<LineCount>)
    ensures
        counts_lines(r@, locations@, hits@),
{
    let ghost all = hits@;
    let ghost locs = locations@;
    let mut out: Vec<LineCount> = Vec::new();
    let mut i: usize = 0;
    while i < hits.len()
        invariant
            i <= hits@.len(),
            all == hits@,
            locs == locations@,
            counts_lines(out@, locs, all.take(i as int)),
        decreases hits@.len() - i,
    {
        let ghost done = all.take(i as int);
        let ghost next = all.take(i + 1);
        assert(next.drop_last() =~= done);
        assert(next.last() == all[i as int]);
        let ghost before = out@;
        let index: i32 = hits[i].index;
        proof {
            assert forall|k: int| 0 <= k < before.len() implies (#[trigger] before[k]).count
                < usize::MAX by {
                hits_bound(locs, done, before[k].file, before[k].line);
            }
        }
        if index >= 1 && (index as usize) <= locations.len() {
            let at: usize = index as usize - 1;
            let file: usize = locations[at].file_index;
            let line: usize = locations[at].line;
            count_line(&mut out, file, line);
            proof {
                assert forall|k: int| 0 <= k < out@.len() implies (#[trigger] out@[k]).count > 0
                    && out@[k].count == hits_on(locs, next, out@[k].file, out@[k].line) by {
                    let entry = out@[k];
                    if entry.file == file && entry.line == line {
                        if has_line(before, file, line) {
                            let old_entry = LineCount {
                                count: (entry.count - 1) as usize,
                                ..entry
                            };
                            let n = choose|n: int| 0 <= n < before.len() && before[n] == old_entry;
                            assert(before[n].count == hits_on(locs, done, file, line));
                        } else {
                            assert(hits_on(locs, done, file, line) == 0);
                        }
                    } else {
                        let n = choose|n: int| 0 <= n < before.len() && before[n] == entry;
                        assert(before[n].count == hits_on(locs, done, entry.file, entry.line));
                    }
                }
                assert forall|f: usize, l: usize| #[trigger] hits_on(locs, next, f, l)
                    > 0 implies has_line(out@, f, l) by {
                    if !(f == file && l == line) {
                        assert(hits_on(locs, done, f, l) > 0);
                        let n = choose|n: int|
                            0 <= n < before.len() && (#[trigger] before[n]).file == f
                                && before[n].line == l;
                        assert(has_line(out@, before[n].file, before[n].line));
                    }
                }
            }
        } else {
            proof {
                assert forall|f: usize, l: usize| #[trigger] hits_on(locs, next, f, l) == hits_on(
                    locs,
                    done,
                    f,
                    l,
                ) by {}
            }
        }
        i = i + 1;
    }
    assert(all.take(i as int) =~= all);
    out
}

/// Whether lines are left out between a line and the one before it.
pub fn has_gap(previous: &LineCount, next: &LineCount) -> (r: bool)
    ensures
        r == (previous.file == next.file && next.line > previous.line + 1),
{
    previous.file == next.file && next.line > previous.line && next.line - previous.line > 1
}

/// The locations that have no breakpoint, among the first `n`.
pub open spec fn missed_up_to(hits: Seq<BreakpointHit>, n: int) -> Seq<usize>
    decreases n,
{
    if n <= 0 {
        seq![]
    } else if hits.contains(BreakpointHit { index: n as i32 }) {
        missed_up_to(hits, n - 1)
    } else {
        missed_up_to(hits, n - 1).push((n - 1) as usize)
    }
}

/// The locations that have no breakpoint.
pub fn missed(locations: &Vec<Location>, hits: &Vec<BreakpointHit>) -> (r: Vec<usize>)
    ensures
        r@ == missed_up_to(hits@, locations@.len() as int),
{
    let mut out: Vec<usize> = Vec::new();
    let mut i: usize = 0;
    while i < locations.len()
        invariant
            i <= locations@.len(),
            out@ == missed_up_to(hits@, i as int),
        decreases locations@.len() - i,
    {
        let index: i32 = (i + 1) as i32;
        let mut found = false;
        let mut k: usize = 0;
        while k < hits.len()
            invariant
                k <= hits@.len(),
                found <==> exists|j: int| 0 <= j < k && (#[trigger] hits@[j]).index == index,
            decreases hits@.len() - k,
        {
            if hits[k].index == index {
                found = true;
            }
            k = k + 1;
        }
        proof {
            let hit = BreakpointHit { index };
            if found {
                let j = choose|j: int| 0 <= j < k && (#[trigger] hits@[j]).index == index;
                assert(hits@[j] == hit);
            } else if hits@.contains(hit) {
                let j = choose|j: int| 0 <= j < hits@.len() && hits@[j] == hit;
                assert(hits@[j].index == index);
            }
        }
        if !found {
            out.push(i);
        }
        i = i + 1;
    }
    out
}

// ---------------------------------------------------------------------------
// What the report says
// ---------------------------------------------------------------------------

proof fn numerals_are_read(t: Seq<char>)
    requires
        t.len() > 0,
        forall|i: int| 0 <= i < t.len() ==> '0' <= #[trigger] t[i] <= '9',
    ensures
        digits_value(t) == Some(numeral_value(t) as nat),
        numeral_value(t) >= 0,
    decreases t.len(),
{
    let rest = t.drop_last();
    assert(forall|i: int| 0 <= i < rest.len() ==> rest[i] == t[i]);
    if rest.len() > 0 {
        numerals_are_read(rest);
    } else {
        assert(digits_value(rest) == Some(0nat));
        assert(numeral_value(rest) == 0);
    }
}

proof fn field_is_found(prefix: Seq<char>, t: Seq<char>, signed: bool, n: int)
    requires
        prefix.len() > 0,
        spells(t, n),
        signed || n >= 0,
    ensures
        number_after(prefix + t + seq![' ', '}'], prefix, signed) == Some(n),
{
    reveal_strlit(" ");
    let s = prefix + t + seq![' ', '}'];
    first_from_is_first(s, prefix, 0);
    assert(s.subrange(0, prefix.len() as int) =~= prefix);
    assert(occurs_at(s, prefix, 0));
    let rest = s.skip(prefix.len() as int);
    assert(rest =~= t + seq![' ', '}']);
    let digits = if n < 0 {
        t.skip(1)
    } else {
        t
    };
    assert forall|i: int| 0 <= i < t.len() implies t[i] == '-' || '0' <= #[trigger] t[i] <= '9' by {
        if n < 0 && i > 0 {
            assert(t.skip(1)[i - 1] == t[i]);
        }
    }
    first_from_is_first(rest, " "@, 0);
    assert(rest.subrange(t.len() as int, t.len() as int + 1) =~= " "@);
    assert(occurs_at(rest, " "@, t.len() as int));
    assert forall|i: int| 0 <= i < t.len() implies !occurs_at(rest, " "@, i) by {
        assert(rest[i] == t[i]);
        if occurs_at(rest, " "@, i) {
            assert(rest.subrange(i, i + 1)[0] == " "@[0]);
        }
    }
    assert(first_from(rest, " "@, 0) == Some(t.len() as int));
    assert(rest.take(t.len() as int) =~= t);
    assert(t.last() == digits.last());
    assert('0' <= digits[digits.len() - 1] <= '9');
    assert(without_braces(t) == t);
    assert(t[0] == '-' || '0' <= t[0] <= '9');
    assert(trimmed_start(t) == t);
    assert(trimmed_end(t) == t);
    numerals_are_read(digits);
    if n >= 0 {
        assert('0' <= t[0] <= '9');
    }
}

/// The texts of operators are read back: the function that a call names, and the
/// number that a constant gives, whichever they are.
pub proof fn operators_are_read_back(function: u32, value: i32, f: Seq<char>, v: Seq<char>)
    requires
        spells(f, function as int),
        spells(v, value as int),
    ensures
        call_index("Call { function_index: "@ + f + " }"@) == Some(function),
        i32_const("I32Const { value: "@ + v + " }"@) == Some(value),
{
    reveal_strlit(" }");
    reveal_strlit("Call { function_index: ");
    reveal_strlit("I32Const { value: ");
    assert(" }"@ =~= seq![' ', '}']);
    field_is_found("Call { function_index: "@, f, false, function as int);
    field_is_found("I32Const { value: "@, v, true, value as int);
}

/// Whether operator `k` hands a number to the breakpoint function: it gives a
/// constant, and the next operator calls the function.
pub open spec fn hands_over(instrs: Seq<Seq<char>>, k: int, bkpt_fn: u32) -> bool {
    &&& 0 <= k
    &&& k + 1 < instrs.len()
    &&& i32_const(instrs[k]) is Some
    &&& call_index(instrs[k + 1]) == Some(bkpt_fn)
}

proof fn hits_are_found(instrs: Seq<Seq<char>>, i: int, bkpt_fn: u32) -> (at: Seq<int>)
    requires
        0 <= i,
    ensures
        ({
            let hits = breakpoints_from(instrs, i, bkpt_fn);
            &&& at.len() == hits.len()
            &&& forall|j: int|
                0 <= j < at.len() ==> i <= #[trigger] at[j] && hands_over(instrs, at[j], bkpt_fn)
                    && i32_const(instrs[at[j]]) == Some(hits[j].index)
            &&& forall|j: int, l: int| 0 <= j < l < at.len() ==> #[trigger] at[j] < #[trigger] at[l]
            &&& forall|k: int|
                i <= k && #[trigger] hands_over(instrs, k, bkpt_fn) && call_index(instrs[k]) is None
                    ==> at.contains(k)
        }),
    decreases instrs.len() - i,
{
    let hits = breakpoints_from(instrs, i, bkpt_fn);
    if i + 1 >= instrs.len() {
        seq![]
    } else if hands_over(instrs, i, bkpt_fn) {
        let rest = hits_are_found(instrs, i + 2, bkpt_fn);
        let at = seq![i] + rest;
        assert(at[0] == i);
        assert forall|j: int| 0 < j < at.len() implies at[j] == rest[j - 1] by {}
        assert forall|k: int|
            i <= k && #[trigger] hands_over(instrs, k, bkpt_fn) && call_index(
                instrs[k],
            ) is None implies at.contains(k) by {
            if k != i {
                assert(rest.contains(k));
                let j = choose|j: int| 0 <= j < rest.len() && rest[j] == k;
                assert(at[j + 1] == k);
            }
        }
        at
    } else {
        hits_are_found(instrs, i + 1, bkpt_fn)
    }
}

/// The breakpoints of a function are found where its code hands a number to the
/// breakpoint function. They come in the order of the code, each with its number,
/// and none is left out.
pub proof fn breakpoints_are_extracted(instrs: Seq<Seq<char>>, bkpt_fn: u32) -> (at: Seq<int>)
    ensures
        ({
            let hits = breakpoints_in(instrs, Some(bkpt_fn));
            &&& at.len() == hits.len()
            &&& forall|j: int|
                0 <= j < at.len() ==> hands_over(instrs, #[trigger] at[j], bkpt_fn) && i32_const(
                    instrs[at[j]],
                ) == Some(hits[j].index)
            &&& forall|j: int, l: int| 0 <= j < l < at.len() ==> #[trigger] at[j] < #[trigger] at[l]
            &&& forall|k: int|
                #[trigger] hands_over(instrs, k, bkpt_fn) && call_index(instrs[k]) is None
                    ==> at.contains(k)
        }),
        breakpoints_in(instrs, None).len() == 0,
{
    hits_are_found(instrs, 0, bkpt_fn)
}

/// Whether operator `k` calls a function, right behind a constant.
pub open spec fn calls_behind(instrs: Seq<Seq<char>>, k: int, f: u32) -> bool {
    &&& 1 <= k < instrs.len()
    &&& call_index(instrs[k]) == Some(f)
    &&& occurs_at(instrs[k - 1], "I32Const"@, 0)
}

/// How many of the first `n` operators call a function, right behind a constant.
pub open spec fn count_calls_behind(instrs: Seq<Seq<char>>, n: int, f: u32) -> nat
    decreases n,
{
    if n <= 0 {
        0
    } else if calls_behind(instrs, n - 1, f) {
        count_calls_behind(instrs, n - 1, f) + 1
    } else {
        count_calls_behind(instrs, n - 1, f)
    }
}

/// A function is counted as often as it is called right behind a constant.
pub proof fn calls_are_counted(instrs: Seq<Seq<char>>, f: u32)
    ensures
        times(calls_behind_constants(instrs), f) == count_calls_behind(
            instrs,
            instrs.len() as int,
            f,
        ),
{
    calls_counted_up_to(instrs, instrs.len() as int, f);
    assert(instrs.take(instrs.len() as int) =~= instrs);
}

proof fn calls_counted_up_to(instrs: Seq<Seq<char>>, n: int, f: u32)
    requires
        0 <= n <= instrs.len(),
    ensures
        times(calls_behind_constants(instrs.take(n)), f) == count_calls_behind(instrs, n, f),
    decreases n,
{
    if n > 0 {
        calls_counted_up_to(instrs, n - 1, f);
        let some = instrs.take(n);
        assert(some.drop_last() =~= instrs.take(n - 1));
        assert(some.last() == instrs[n - 1]);
        let before = calls_behind_constants(instrs.take(n - 1));
        if n > 1 {
            assert(some[n - 2] == instrs[n - 2]);
        } else {
            assert(before =~= seq![]);
        }
        if let Some(g) = call_index(instrs[n - 1]) {
            assert(before.push(g).drop_last() =~= before);
        }
    }
}

/// Only functions whose code has another length than it had are looked at.
pub proof fn changed_functions_are_looked_at(
    plain: Seq<Seq<Seq<char>>>,
    instrumented: Seq<Seq<Seq<char>>>,
    code: Seq<Seq<char>>,
    bkpt_fn: Option<u32>,
)
    ensures
        ({
            let before = injected_in(plain, instrumented, bkpt_fn);
            let n = instrumented.len() as int;
            let after = injected_in(plain, instrumented.push(code), bkpt_fn);
            if n < plain.len() && plain[n].len() == code.len() {
                after == before
            } else if n < plain.len() || code.len() > 0 {
                after == before + breakpoints_in(code, bkpt_fn)
            } else {
                after == before
            }
        }),
        injected_in(plain, seq![], bkpt_fn).len() == 0,
{
    assert(instrumented.push(code).drop_last() =~= instrumented);
}

/// A breakpoint counts for the line of the location that has its number, the first
/// location being number one, and for no other line.
pub proof fn breakpoints_count_for_their_line(
    locations: Seq<Location>,
    hits: Seq<BreakpointHit>,
    hit: BreakpointHit,
    file: usize,
    line: usize,
)
    ensures
        hits_on(locations, hits.push(hit), file, line) == hits_on(locations, hits, file, line) + if 1
            <= hit.index <= locations.len() && locations[hit.index - 1].file_index == file
            && locations[hit.index - 1].line == line {
            1nat
        } else {
            0
        },
        hits_on(locations, seq![], file, line) == 0,
{
    assert(hits.push(hit).drop_last() =~= hits);
}

/// A location is reported as missed where no breakpoint has its number, the first
/// location being number one. The missed ones come in order.
pub proof fn missed_locations_have_no_breakpoint(hits: Seq<BreakpointHit>, n: int)
    requires
        n <= i32::MAX,
    ensures
        forall|i: usize| #[trigger]
            missed_up_to(hits, n).contains(i) <==> i < n && forall|j: int|
                0 <= j < hits.len() ==> (#[trigger] hits[j]).index != i + 1,
        forall|a: int, b: int|
            0 <= a < b < missed_up_to(hits, n).len() ==> #[trigger] missed_up_to(hits, n)[a]
                < #[trigger] missed_up_to(hits, n)[b],
        forall|a: int| 0 <= a < missed_up_to(hits, n).len() ==> #[trigger] missed_up_to(hits, n)[a] < n,
    decreases n,
{
    if n > 0 {
        missed_locations_have_no_breakpoint(hits, n - 1);
        let before = missed_up_to(hits, n - 1);
        let all = missed_up_to(hits, n);
        let hit = BreakpointHit { index: n as i32 };
        let none = forall|j: int| 0 <= j < hits.len() ==> (#[trigger] hits[j]).index != n;
        if hits.contains(hit) {
            let j = choose|j: int| 0 <= j < hits.len() && hits[j] == hit;
            assert(hits[j].index == n);
            assert(!none);
        } else {
            assert forall|j: int| 0 <= j < hits.len() implies (#[trigger] hits[j]).index != n by {
                assert(hits[j] != hit);
            }
            assert(all == before.push((n - 1) as usize));
        }
        assert forall|i: usize| #[trigger]
            all.contains(i) <==> i < n && forall|j: int|
                0 <= j < hits.len() ==> (#[trigger] hits[j]).index != i + 1 by {
            assert(before.contains(i) <==> i < n - 1 && forall|j: int|
                0 <= j < hits.len() ==> (#[trigger] hits[j]).index != i + 1);
            if before.contains(i) {
                let k = choose|k: int| 0 <= k < before.len() && before[k] == i;
                assert(all[k] == i);
            }
            if all.contains(i) {
                let k = choose|k: int| 0 <= k < all.len() && all[k] == i;
                if k < before.len() {
                    assert(before[k] == i);
                }
            }
            if i == n - 1 && !hits.contains(hit) {
                assert(all[before.len() as int] == i);
            }
        }
    }
}

/// One more part of a module is one more function where it is the code of one, with a
/// text for each of its operators, in order; what went wrong with an operator stands in
/// its place. Other parts add nothing.
pub proof fn functions_are_disassembled(
    parts: Seq<Option<PartModel>>,
    part: Option<PartModel>,
    k: int,
)
    ensures
        ({
            let before = disassembled(parts);
            let after = disassembled(parts.push(part));
            match part {
                Some(PartModel::Body(ops)) => {
                    &&& after.len() == before.len() + 1
                    &&& after.drop_last() == before
                    &&& after.last().len() == ops.len()
                    &&& 0 <= k < ops.len() ==> match ops[k] {
                        Ok(text) => after.last()[k] == text,
                        Err(why) => after.last()[k] == "<error: "@ + why + ">"@,
                    }
                },
                _ => after == before,
            }
        }),
        disassembled(seq![]).len() == 0,
{
    assert(parts.push(part).drop_last() =~= parts);
    let before = disassembled(parts);
    let after = disassembled(parts.push(part));
    if after.len() > before.len() {
        assert(after.drop_last() =~= before);
    }
}

/// The calls of all functions are those of one function after the other.
pub proof fn calls_come_function_by_function(funcs: Seq<Seq<Seq<char>>>, code: Seq<Seq<char>>)
    ensures
        all_calls(funcs.push(code)) == all_calls(funcs) + calls_behind_constants(code),
        all_calls(seq![]).len() == 0,
{
    assert(funcs.push(code).drop_last() =~= funcs);
}

} // verus!
