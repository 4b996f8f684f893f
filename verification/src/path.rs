//! Paths as text, with `/` between their parts.
use vstd::prelude::*;

use crate::text::{begins_with, chars_of, concat, first_from, first_from_is_first, occurs_at, own,
    pieces, pieces_make_the_text, same, slice_chars, split, starts_with, string_of, texts};

verus! {

broadcast use vstd::seq_lib::group_seq_properties;

/// The separator between the parts of a path.
pub open spec fn separator() -> Seq<char> {
    seq!['/']
}

/// Whether a path starts at the root.
pub open spec fn is_rooted(path: Seq<char>) -> bool {
    begins_with(path, separator())
}

/// `base` extended by `part`: `part` alone where it starts at the root, else
/// `part` behind `base`, with one separator between them where `base` is
/// neither empty nor ends in one.
pub open spec fn path_join(base: Seq<char>, part: Seq<char>) -> Seq<char> {
    if is_rooted(part) {
        part
    } else if base.len() == 0 || base.last() == '/' {
        base + part
    } else {
        base + separator() + part
    }
}

/// Whether the piece at `i` between separators is a part of the path. Empty
/// pieces are none, nor is `.`, except at the very beginning.
pub open spec fn is_part(piece: Seq<char>, i: int) -> bool {
    piece.len() > 0 && (piece == seq!['.'] ==> i == 0)
}

/// The parts among the pieces, in order.
pub open spec fn parts_among(all: Seq<Seq<char>>, from: int) -> Seq<Seq<char>>
    decreases all.len() - from,
{
    if from >= all.len() {
        seq![]
    } else if is_part(all[from], from) {
        seq![all[from]] + parts_among(all, from + 1)
    } else {
        parts_among(all, from + 1)
    }
}

/// The parts of a path. Repeated separators, a separator at the end, and `.`
/// behind another part make no difference.
pub open spec fn path_parts(path: Seq<char>) -> Seq<Seq<char>> {
    parts_among(pieces(path, separator()), 0)
}

/// Whether two texts name the same path.
pub open spec fn is_same_path(a: Seq<char>, b: Seq<char>) -> bool {
    is_rooted(a) == is_rooted(b) && path_parts(a) == path_parts(b)
}

/// The last part of a path, unless it leads upwards.
pub open spec fn file_name_of(path: Seq<char>) -> Option<Seq<char>> {
    let parts = path_parts(path);
    if parts.len() == 0 || parts.last() == seq!['.', '.'] || parts.last() == seq!['.'] {
        None
    } else {
        Some(parts.last())
    }
}

/// The position of the last `.` in `name` before `end`.
pub open spec fn last_dot(name: Seq<char>, end: int) -> Option<int>
    decreases end,
{
    if end <= 0 {
        None
    } else if name[end - 1] == '.' {
        Some(end - 1)
    } else {
        last_dot(name, end - 1)
    }
}

/// What follows the last `.` of the file name; none where the name has no `.`
/// but perhaps its first character.
pub open spec fn extension_of(path: Seq<char>) -> Option<Seq<char>> {
    match file_name_of(path) {
        Some(name) => match last_dot(name, name.len() as int) {
            Some(at) => if at == 0 {
                None
            } else {
                Some(name.skip(at + 1))
            },
            None => None,
        },
        None => None,
    }
}

/// The separator as a string.
fn slash() -> (r: String)
    ensures
        r@ == separator(),
{
    let mut s = String::new();
    s.push('/');
    assert(s@ =~= separator());
    s
}

/// Whether a path starts at the root.
pub fn is_absolute(path: &str) -> (r: bool)
    ensures
        r == is_rooted(path@),
{
    let s = slash();
    starts_with(path, s.as_str())
}

/// `base` extended by `part`.
pub fn join_path(base: &str, part: &str) -> (r: String)
    ensures
        r@ == path_join(base@, part@),
{
    if is_absolute(part) {
        return own(part);
    }
    let v = chars_of(base);
    if v.len() == 0 || v[v.len() - 1] == '/' {
        concat(base, part)
    } else {
        let mut out = own(base);
        out.push('/');
        out.append(part);
        assert(out@ =~= base@ + separator() + part@);
        out
    }
}

/// The parts of a path.
pub fn parts_of_path(path: &str) -> (r: Vec<String>)
    ensures
        texts(r@) == path_parts(path@),
{
    let s = slash();
    let all = split(path, s.as_str());
    let ghost want = pieces(path@, separator());
    let mut dot = String::new();
    dot.push('.');
    assert(dot@ =~= seq!['.']);
    let mut out: Vec<String> = Vec::new();
    let mut i: usize = 0;
    assert(texts(out@) + parts_among(want, 0) =~= parts_among(want, 0));
    while i < all.len()
        invariant
            i <= all@.len(),
            want == texts(all@),
            dot@ == seq!['.'],
            texts(out@) + parts_among(want, i as int) == parts_among(want, 0),
        decreases all@.len() - i,
    {
        let ghost before = out@;
        assert(want[i as int] == all@[i as int]@);
        let chars = chars_of(all[i].as_str());
        if chars.len() > 0 && (i == 0 || !same(all[i].as_str(), dot.as_str())) {
            out.push(own(all[i].as_str()));
            assert(texts(out@) =~= texts(before).push(want[i as int]));
        }
        i = i + 1;
        assert(texts(out@) + parts_among(want, i as int) =~= texts(before) + parts_among(
            want,
            i - 1,
        ));
    }
    assert(texts(out@) =~= parts_among(want, 0));
    out
}

/// Whether two lists of strings hold the same texts.
pub fn same_texts(a: &Vec<String>, b: &Vec<String>) -> (r: bool)
    ensures
        r == (texts(a@) == texts(b@)),
{
    if a.len() != b.len() {
        assert(texts(a@).len() != texts(b@).len());
        return false;
    }
    let mut i: usize = 0;
    while i < a.len()
        invariant
            a@.len() == b@.len(),
            i <= a@.len(),
            forall|k: int| 0 <= k < i ==> (#[trigger] a@[k])@ == b@[k]@,
        decreases a@.len() - i,
    {
        if !same(a[i].as_str(), b[i].as_str()) {
            assert(texts(a@)[i as int] != texts(b@)[i as int]);
            return false;
        }
        i = i + 1;
    }
    assert(texts(a@) =~= texts(b@));
    true
}

/// Whether two texts name the same path.
pub fn same_path(a: &str, b: &str) -> (r: bool)
    ensures
        r == is_same_path(a@, b@),
{
    let x = parts_of_path(a);
    let y = parts_of_path(b);
    is_absolute(a) == is_absolute(b) && same_texts(&x, &y)
}

/// What follows the last `.` of the file name.
pub fn extension(path: &str) -> (r: Option<String>)
    ensures
        match r {
            Some(e) => extension_of(path@) == Some(e@),
            None => extension_of(path@) is None,
        },
{
    let parts = parts_of_path(path);
    if parts.len() == 0 {
        return None;
    }
    let ghost last = path_parts(path@).last();
    let name = chars_of(parts[parts.len() - 1].as_str());
    assert(last == name@);
    if name.len() == 2 && name[0] == '.' && name[1] == '.' {
        assert(name@ =~= seq!['.', '.']);
        return None;
    }
    if name.len() == 1 && name[0] == '.' {
        assert(name@ =~= seq!['.']);
        return None;
    }
    assert(file_name_of(path@) == Some(name@));
    let len: usize = name.len();
    let mut end: usize = len;
    while end > 0
        invariant
            end <= len == name@.len(),
            file_name_of(path@) == Some(name@),
            last_dot(name@, len as int) == last_dot(name@, end as int),
        decreases end,
    {
        if name[end - 1] == '.' {
            if end == 1 {
                return None;
            }
            let tail = slice_chars(&name, end, len);
            assert(tail@ =~= name@.skip(end as int));
            return Some(string_of(&tail));
        }
        end = end - 1;
    }
    None
}

/// Joining a rooted part leaves nothing of the base, and joining to a rooted
/// base gives a rooted path.
pub proof fn joins_keep_the_root(base: Seq<char>, part: Seq<char>)
    ensures
        is_rooted(part) ==> path_join(base, part) == part,
        is_rooted(base) ==> is_rooted(path_join(base, part)),
{
    if is_rooted(base) && !is_rooted(part) {
        let joined = path_join(base, part);
        assert(base.subrange(0, 1)[0] == base[0]);
        assert(joined[0] == base[0]);
        assert(joined.subrange(0, 1) =~= separator());
    }
}

// ---------------------------------------------------------------------------
// What paths are made of
// ---------------------------------------------------------------------------

proof fn separators_stand(s: Seq<char>, at: int)
    ensures
        occurs_at(s, separator(), at) <==> 0 <= at < s.len() && s[at] == '/',
{
    if 0 <= at < s.len() {
        if s[at] == '/' {
            assert(s.subrange(at, at + 1) =~= separator());
        } else {
            assert(s.subrange(at, at + 1)[0] == s[at]);
        }
    }
}

proof fn pieces_go_on(a: Seq<char>, b: Seq<char>)
    requires
        !b.contains('/'),
    ensures
        pieces(a + separator() + b, separator()) == pieces(a, separator()).push(b),
    decreases a.len(),
{
    let sep = separator();
    let s = a + sep + b;
    first_from_is_first(a, sep, 0);
    first_from_is_first(s, sep, 0);
    first_from_is_first(b, sep, 0);
    assert forall|n: int| #![trigger occurs_at(a, sep, n)] #![trigger occurs_at(s, sep, n)]
        n < a.len() implies occurs_at(a, sep, n) == occurs_at(s, sep, n) by {
        separators_stand(a, n);
        separators_stand(s, n);
    }
    separators_stand(s, a.len() as int);
    match first_from(a, sep, 0) {
        Some(at) => {
            separators_stand(a, at);
            assert(occurs_at(s, sep, at));
            let found = first_from(s, sep, 0)->0;
            if found < at {
                assert(occurs_at(a, sep, found));
            }
            assert(found == at);
            assert(s.take(at) =~= a.take(at));
            assert(s.skip(at + 1) =~= a.skip(at + 1) + sep + b);
            pieces_go_on(a.skip(at + 1), b);
            assert(pieces(s, sep) =~= pieces(a, sep).push(b));
        },
        None => {
            let found = first_from(s, sep, 0)->0;
            if found < a.len() {
                assert(occurs_at(a, sep, found));
            }
            assert(found == a.len());
            assert(s.take(found) =~= a);
            assert(s.skip(found + 1) =~= b);
            if let Some(n) = first_from(b, sep, 0) {
                separators_stand(b, n);
                assert(b.contains(b[n]));
            }
            assert(first_from(b, sep, 0) is None);
            assert(pieces(b, sep) == seq![b]);
            assert(pieces(a, sep) == seq![a]);
            assert(pieces(s, sep) == seq![s.take(found)] + pieces(s.skip(found + sep.len()), sep));
            assert(seq![a] + seq![b] =~= seq![a].push(b));
        },
    }
}

proof fn parts_go_on(all: Seq<Seq<char>>, last: Seq<char>, from: int)
    requires
        0 <= from <= all.len(),
        all.len() > 0,
    ensures
        parts_among(all.push(last), from) == if last.len() > 0 && last != seq!['.'] {
            parts_among(all, from).push(last)
        } else {
            parts_among(all, from)
        },
    decreases all.len() - from,
{
    if from < all.len() {
        parts_go_on(all, last, from + 1);
        assert(all.push(last)[from] == all[from]);
        assert(parts_among(all.push(last), from) =~= if last.len() > 0 && last != seq!['.'] {
            parts_among(all, from).push(last)
        } else {
            parts_among(all, from)
        });
    } else {
        assert(all.push(last)[from] == last);
        assert(parts_among(all.push(last), from + 1) =~= seq![]);
        assert(seq![last] + seq![] =~= Seq::<Seq<char>>::empty().push(last));
    }
}

/// A name behind a directory is one more part of the path, and the name of the file; a
/// separator or a `.` at the end changes nothing.
pub proof fn names_are_parts(base: Seq<char>, name: Seq<char>)
    requires
        !name.contains('/'),
    ensures
        name.len() > 0 && name != seq!['.'] ==> path_parts(base + seq!['/'] + name) == path_parts(
            base,
        ).push(name),
        name.len() > 0 && name != seq!['.'] && name != seq!['.', '.'] ==> file_name_of(
            base + seq!['/'] + name,
        ) == Some(name),
        path_parts(base + seq!['/']) == path_parts(base),
        path_parts(base + seq!['/', '.']) == path_parts(base),
{
    let sep = separator();
    pieces_go_on(base, name);
    pieces_make_the_text(base, sep);
    parts_go_on(pieces(base, sep), name, 0);
    let none = Seq::<char>::empty();
    pieces_go_on(base, none);
    parts_go_on(pieces(base, sep), none, 0);
    assert(base + sep + none =~= base + seq!['/']);
    pieces_go_on(base, seq!['.']);
    parts_go_on(pieces(base, sep), seq!['.'], 0);
    assert(base + sep + seq!['.'] =~= base + seq!['/', '.']);
}

/// Two texts that name the same directory and go on with the same name are the same
/// path, and those that go on with different names are not.
pub proof fn same_paths_have_the_same_names(
    a: Seq<char>,
    b: Seq<char>,
    name: Seq<char>,
    other: Seq<char>,
)
    requires
        !name.contains('/'),
        !other.contains('/'),
        name.len() > 0 && name != seq!['.'],
        other.len() > 0 && other != seq!['.'],
        a.len() > 0 && a[0] == '/',
        b.len() > 0 && b[0] == '/',
        is_same_path(a, b),
    ensures
        is_same_path(a + seq!['/'] + name, b + seq!['/'] + other) <==> name == other,
{
    names_are_parts(a, name);
    names_are_parts(b, other);
    separators_stand(a + seq!['/'] + name, 0);
    separators_stand(b + seq!['/'] + other, 0);
    assert(path_parts(a).push(name).last() == name);
    assert(path_parts(b).push(other).last() == other);
}

proof fn last_dot_is_last(name: Seq<char>, at: int, end: int)
    requires
        0 <= at < end <= name.len(),
        name[at] == '.',
        forall|i: int| at < i < end ==> name[i] != '.',
    ensures
        last_dot(name, end) == Some(at),
    decreases end,
{
    if at < end - 1 {
        last_dot_is_last(name, at, end - 1);
    }
}

/// The extension of a file is what stands behind the last `.` of its name.
pub proof fn extensions_stand_behind_the_last_dot(
    base: Seq<char>,
    stem: Seq<char>,
    ext: Seq<char>,
)
    requires
        stem.len() > 0,
        !stem.contains('/'),
        !ext.contains('/'),
        !ext.contains('.'),
        stem != seq!['.'] || ext.len() > 0,
    ensures
        extension_of(base + seq!['/'] + (stem + seq!['.'] + ext)) == Some(ext),
{
    let name = stem + seq!['.'] + ext;
    assert forall|i: int| 0 <= i < name.len() implies name[i] != '/' by {
        if i < stem.len() {
            assert(stem.contains(stem[i]));
        } else if i > stem.len() {
            assert(ext.contains(ext[i - stem.len() - 1]));
        }
    }
    assert(name[stem.len() as int] == '.');
    assert(name != seq!['.', '.']) by {
        if name == seq!['.', '.'] {
            assert(name.len() == 2);
            assert(stem =~= seq!['.']);
        }
    }
    names_are_parts(base, name);
    assert forall|i: int| stem.len() < i < name.len() implies name[i] != '.' by {
        assert(ext.contains(ext[i - stem.len() - 1]));
    }
    last_dot_is_last(name, stem.len() as int, name.len() as int);
    assert(name.skip(stem.len() as int + 1) =~= ext);
}

/// A path from the root is never the same as one that does not start there, and every
/// path is the same as itself.
pub proof fn same_paths_start_together(a: Seq<char>, b: Seq<char>)
    ensures
        is_same_path(a, b) ==> ((a.len() > 0 && a[0] == '/') <==> (b.len() > 0 && b[0] == '/')),
        is_same_path(a, a),
        is_same_path(a, b) ==> is_same_path(b, a),
{
    separators_stand(a, 0);
    separators_stand(b, 0);
}

} // verus!
