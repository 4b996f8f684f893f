//! The user's files, and the programs that are run to build and run them.
use vstd::prelude::*;

use crate::path::{extension, extension_of, extensions_stand_behind_the_last_dot, is_rooted,
    join_path, path_join, separator};
use crate::text::{chars_of, lower, lowered, own, same, texts};
use crate::types::{FsNode, names_differ};
use crate::worker::execution::{Step, StepModel, step_models};

verus! {

broadcast use vstd::seq_lib::group_seq_properties;

// ---------------------------------------------------------------------------
// Source files
// ---------------------------------------------------------------------------

/// Whether a file is a source file, by its extension.
pub open spec fn is_source(path: Seq<char>) -> bool {
    match extension_of(path) {
        Some(e) => {
            let e = lowered(e);
            e == "c"@ || e == "cc"@ || e == "cp"@ || e == "cpp"@ || e == "cxx"@ || e == "c++"@
        },
        None => false,
    }
}

/// The source files at and below `path`, where `node` stands.
pub open spec fn sources_at(node: FsNode, path: Seq<char>) -> Seq<Seq<char>>
    decreases node,
{
    match node {
        FsNode::File(_) => if is_source(path) {
            seq![path]
        } else {
            seq![]
        },
        FsNode::Dir(children) => sources_in(children@, path),
    }
}

/// The source files of a directory.
pub open spec fn sources_in(children: Seq<(String, FsNode)>, base: Seq<char>) -> Seq<Seq<char>>
    decreases children,
{
    if children.len() == 0 {
        seq![]
    } else {
        sources_in(children.drop_last(), base) + sources_at(
            children[children.len() - 1].1,
            path_join(base, children[children.len() - 1].0@),
        )
    }
}

/// Whether a file is a source file.
fn is_source_file(path: &str) -> (r: bool)
    ensures
        r == is_source(path@),
{
    match extension(path) {
        Some(e) => {
            let e = lower(e.as_str());
            let e = e.as_str();
            same(e, "c") || same(e, "cc") || same(e, "cp") || same(e, "cpp") || same(e, "cxx")
                || same(e, "c++")
        },
        None => false,
    }
}

/// Adds the source files at and below `base_path`, where `node` stands.
pub fn collect_sources(node: &FsNode, base_path: &str, sources: &mut Vec<String>)
    ensures
        texts(final(sources)@) == texts(old(sources)@) + sources_at(*node, base_path@),
    decreases *node,
{
    match node {
        FsNode::File(_) => {
            if is_source_file(base_path) {
                sources.push(own(base_path));
                assert(texts(sources@) =~= texts(old(sources)@) + seq![base_path@]);
            } else {
                assert(texts(sources@) =~= texts(old(sources)@) + seq![]);
            }
        },
        FsNode::Dir(children) => {
            proof {
                assert(decreases_to!(*node => children@));
            }
            collect_dir_sources(children, base_path, sources);
        },
    }
}

/// Adds the source files of a directory.
pub fn collect_dir_sources(
    children: &Vec<(String, FsNode)>,
    base_path: &str,
    sources: &mut Vec<String>,
)
    ensures
        texts(final(sources)@) == texts(old(sources)@) + sources_in(children@, base_path@),
    decreases children@,
{
    let ghost all = children@;
    let ghost before = texts(sources@);
    let mut i: usize = 0;
    assert(all.take(0) =~= seq![]);
    assert(before + sources_in(all.take(0), base_path@) =~= before);
    while i < children.len()
        invariant
            i <= children@.len(),
            all == children@,
            texts(sources@) == before + sources_in(all.take(i as int), base_path@),
        decreases children@.len() - i,
    {
        assert(all.take(i + 1).drop_last() =~= all.take(i as int));
        let child_path = join_path(base_path, children[i].0.as_str());
        proof {
            assert(decreases_to!(children@ => children@[i as int]));
            assert(decreases_to!(children@[i as int] => children@[i as int].1));
        }
        collect_sources(&children[i].1, child_path.as_str(), sources);
        i = i + 1;
        assert(texts(sources@) =~= before + sources_in(all.take(i as int), base_path@));
    }
    assert(all.take(i as int) =~= all);
}

// ---------------------------------------------------------------------------
// The order of texts
// ---------------------------------------------------------------------------

/// Whether a text stands before another, or is the same, in the order of their
/// characters.
pub open spec fn text_le(a: Seq<char>, b: Seq<char>) -> bool
    decreases a.len(),
{
    if a.len() == 0 {
        true
    } else if b.len() == 0 {
        false
    } else if a[0] != b[0] {
        a[0] as int <= b[0] as int
    } else {
        text_le(a.skip(1), b.skip(1))
    }
}

/// A text put behind those of a sorted list that do not come after it.
pub open spec fn inserted(s: Seq<Seq<char>>, t: Seq<char>) -> Seq<Seq<char>>
    decreases s.len(),
{
    if s.len() == 0 {
        seq![t]
    } else if text_le(s.last(), t) {
        s.push(t)
    } else {
        inserted(s.drop_last(), t).push(s.last())
    }
}

/// The texts in order.
pub open spec fn sorted(s: Seq<Seq<char>>) -> Seq<Seq<char>>
    decreases s.len(),
{
    if s.len() == 0 {
        seq![]
    } else {
        inserted(sorted(s.drop_last()), s.last())
    }
}

proof fn text_le_total(a: Seq<char>, b: Seq<char>)
    ensures
        text_le(a, b) || text_le(b, a),
    decreases a.len(),
{
    if a.len() > 0 && b.len() > 0 {
        text_le_total(a.skip(1), b.skip(1));
    }
}

proof fn text_le_transitive(a: Seq<char>, b: Seq<char>, c: Seq<char>)
    requires
        text_le(a, b),
        text_le(b, c),
    ensures
        text_le(a, c),
    decreases a.len(),
{
    if a.len() > 0 && b.len() > 0 && c.len() > 0 && a[0] == b[0] && b[0] == c[0] {
        text_le_transitive(a.skip(1), b.skip(1), c.skip(1));
    }
}

/// Whether texts stand in order.
pub open spec fn in_order(s: Seq<Seq<char>>) -> bool {
    forall|i: int, j: int| 0 <= i < j < s.len() ==> text_le(#[trigger] s[i], #[trigger] s[j])
}

proof fn inserting_keeps_the_order(s: Seq<Seq<char>>, t: Seq<char>)
    requires
        in_order(s),
    ensures
        in_order(inserted(s, t)),
        inserted(s, t).to_multiset() == s.to_multiset().insert(t),
        forall|x: Seq<char>| #[trigger]
            inserted(s, t).contains(x) ==> x == t || s.contains(x),
    decreases s.len(),
{
    if s.len() == 0 {
        assert(inserted(s, t) =~= s.push(t));
        vstd::seq_lib::to_multiset_build(s, t);
    } else if text_le(s.last(), t) {
        assert forall|i: int| 0 <= i < s.len() implies text_le(#[trigger] s[i], t) by {
            if i < s.len() - 1 {
                text_le_transitive(s[i], s.last(), t);
            }
        }
        vstd::seq_lib::to_multiset_build(s, t);
    } else {
        text_le_total(s.last(), t);
        let rest = s.drop_last();
        inserting_keeps_the_order(rest, t);
        let more = inserted(rest, t);
        assert forall|i: int| 0 <= i < more.len() implies text_le(#[trigger] more[i], s.last()) by {
            assert(more.contains(more[i]));
            if more[i] != t {
                let k = choose|k: int| 0 <= k < rest.len() && rest[k] == more[i];
                assert(s[k] == more[i]);
            }
        }
        vstd::seq_lib::to_multiset_build(more, s.last());
        vstd::seq_lib::to_multiset_build(rest, s.last());
        assert(rest.push(s.last()) =~= s);
        assert(rest.to_multiset().insert(t).insert(s.last()) =~= rest.to_multiset().insert(
            s.last(),
        ).insert(t));
        assert forall|x: Seq<char>| #[trigger] inserted(s, t).contains(x) implies x == t
            || s.contains(x) by {
            if x == s.last() {
                assert(s[s.len() - 1] == x);
            } else {
                let k = choose|k: int| 0 <= k < inserted(s, t).len() && inserted(s, t)[k] == x;
                assert(more[k] == x);
                assert(more.contains(x));
                if x != t {
                    let j = choose|j: int| 0 <= j < rest.len() && rest[j] == x;
                    assert(s[j] == x);
                }
            }
        }
    }
}

/// Sorting keeps the texts and puts them in order.
pub proof fn sorting_orders(s: Seq<Seq<char>>)
    ensures
        in_order(sorted(s)),
        sorted(s).to_multiset() == s.to_multiset(),
    decreases s.len(),
{
    if s.len() > 0 {
        sorting_orders(s.drop_last());
        inserting_keeps_the_order(sorted(s.drop_last()), s.last());
        vstd::seq_lib::to_multiset_build(s.drop_last(), s.last());
        assert(s.drop_last().push(s.last()) =~= s);
    }
}

/// Whether a text stands before another or is the same.
fn stands_before(a: &str, b: &str) -> (r: bool)
    ensures
        r == text_le(a@, b@),
{
    let left = chars_of(a);
    let right = chars_of(b);
    let mut i: usize = 0;
    assert(a@.skip(0) =~= a@);
    assert(b@.skip(0) =~= b@);
    while i < left.len() && i < right.len()
        invariant
            left@ == a@,
            right@ == b@,
            i <= left@.len(),
            i <= right@.len(),
            text_le(a@, b@) == text_le(a@.skip(i as int), b@.skip(i as int)),
        decreases left@.len() - i,
    {
        if left[i] != right[i] {
            return left[i] <= right[i];
        }
        assert(a@.skip(i as int).skip(1) =~= a@.skip(i + 1));
        assert(b@.skip(i as int).skip(1) =~= b@.skip(i + 1));
        i = i + 1;
    }
    i == left.len()
}

proof fn inserted_behind(s: Seq<Seq<char>>, t: Seq<char>, k: int)
    requires
        0 <= k <= s.len(),
        k > 0 ==> text_le(s[k - 1], t),
        forall|j: int| k <= j < s.len() ==> !text_le(#[trigger] s[j], t),
    ensures
        inserted(s, t) == s.insert(k, t),
    decreases s.len(),
{
    if s.len() == 0 {
        assert(s.insert(k, t) =~= seq![t]);
    } else if k == s.len() {
        assert(s.insert(k, t) =~= s.push(t));
    } else {
        inserted_behind(s.drop_last(), t, k);
        assert(s.insert(k, t) =~= s.drop_last().insert(k, t).push(s.last()));
    }
}

/// Puts a text behind those that do not come after it.
fn insert(out: &mut Vec<String>, t: String)
    ensures
        texts(final(out)@) == inserted(texts(old(out)@), t@),
{
    let ghost before = texts(out@);
    let mut k: usize = out.len();
    while k > 0 && !stands_before(out[k - 1].as_str(), t.as_str())
        invariant
            k <= out@.len(),
            before == texts(out@),
            forall|j: int| k <= j < before.len() ==> !text_le(#[trigger] before[j], t@),
        decreases k,
    {
        k = k - 1;
        assert(before[k as int] == out@[k as int]@);
    }
    proof {
        if k > 0 {
            assert(before[k - 1] == out@[k - 1]@);
        }
        inserted_behind(before, t@, k as int);
    }
    let ghost text = t@;
    out.insert(k, t);
    assert(texts(out@) =~= before.insert(k as int, text));
}

/// Sorts texts.
pub fn sort(all: Vec<String>) -> (r: Vec<String>)
    ensures
        texts(r@) == sorted(texts(all@)),
{
    let ghost want = texts(all@);
    let mut out: Vec<String> = Vec::new();
    let mut i: usize = 0;
    assert(texts(out@) =~= sorted(want.take(0)));
    while i < all.len()
        invariant
            i <= all@.len(),
            want == texts(all@),
            texts(out@) == sorted(want.take(i as int)),
        decreases all@.len() - i,
    {
        assert(want.take(i + 1).drop_last() =~= want.take(i as int));
        assert(want.take(i + 1).last() == all@[i as int]@);
        insert(&mut out, own(all[i].as_str()));
        i = i + 1;
    }
    assert(want.take(i as int) =~= want);
    out
}

// ---------------------------------------------------------------------------
// Every source file once
// ---------------------------------------------------------------------------

/// Whether a name is one of a single file: it is not empty, and holds no
/// separator.
pub open spec fn is_plain(name: Seq<char>) -> bool {
    name.len() > 0 && !name.contains('/')
}

/// Whether the names in a directory, and in every directory below it, are names
/// of single files.
pub open spec fn names_are_plain(children: Seq<(String, FsNode)>) -> bool
    decreases children,
{
    children.len() == 0 || {
        let last = children[children.len() - 1];
        &&& names_are_plain(children.drop_last())
        &&& is_plain(last.0@)
        &&& match last.1 {
            FsNode::File(_) => true,
            FsNode::Dir(below) => names_are_plain(below@),
        }
    }
}

/// Whether a path is `base` itself or goes on behind it with a separator.
spec fn at_or_below(path: Seq<char>, base: Seq<char>) -> bool {
    &&& base.len() <= path.len()
    &&& base == path.take(base.len() as int)
    &&& path.len() > base.len() ==> path[base.len() as int] == '/'
}

/// Whether a path is at or below one of the names in a directory.
spec fn below_some(path: Seq<char>, children: Seq<(String, FsNode)>, base: Seq<char>) -> bool {
    exists|k: int|
        0 <= k < children.len() && at_or_below(path, path_join(base, (#[trigger] children[k]).0@))
}

proof fn joined_plainly(base: Seq<char>, name: Seq<char>)
    requires
        is_plain(name),
    ensures
        path_join(base, name).len() >= name.len(),
        path_join(base, name).last() != '/',
        base.len() > 0 && base.last() != '/' ==> at_or_below(path_join(base, name), base),
        path_join(base, name) == path_join(base, seq![]) + name,
{
    assert(name.contains(name[0]));
    assert(name.contains(name.last()));
    assert(base + separator() + seq![] + name =~= base + separator() + name);
    assert(base + seq![] + name =~= base + name);
    assert(!is_rooted(name)) by {
        if is_rooted(name) {
            assert(name.take(1)[0] == separator()[0]);
        }
    }
    assert(!is_rooted(seq![]));
    let path = path_join(base, name);
    assert(path.last() == name.last());
    assert(base =~= path.take(base.len() as int));
    assert(path =~= path_join(base, seq![]) + name);
}

proof fn at_or_below_again(path: Seq<char>, middle: Seq<char>, base: Seq<char>)
    requires
        at_or_below(path, middle),
        at_or_below(middle, base),
    ensures
        at_or_below(path, base),
{
    assert(path.take(middle.len() as int).take(base.len() as int) =~= path.take(base.len() as int));
    if path.len() > base.len() && middle.len() > base.len() {
        assert(path.take(middle.len() as int)[base.len() as int] == path[base.len() as int]);
    }
}

/// Paths at or below different names in a directory are different.
proof fn names_part_paths(a: Seq<char>, b: Seq<char>, base: Seq<char>, m: Seq<char>, n: Seq<char>)
    requires
        is_plain(m),
        is_plain(n),
        m != n,
        at_or_below(a, path_join(base, m)),
        at_or_below(b, path_join(base, n)),
    ensures
        a != b,
{
    if a == b {
        joined_plainly(base, m);
        joined_plainly(base, n);
        let start = path_join(base, seq![]);
        let p = path_join(base, m);
        let q = path_join(base, n);
        assert forall|i: int| 0 <= i < m.len() implies m[i] == a[start.len() + i] by {
            assert(p.take(p.len() as int)[start.len() + i] == m[i]);
            assert(a.take(p.len() as int)[start.len() + i] == a[start.len() + i]);
        }
        assert forall|i: int| 0 <= i < n.len() implies n[i] == a[start.len() + i] by {
            assert(q.take(q.len() as int)[start.len() + i] == n[i]);
            assert(a.take(q.len() as int)[start.len() + i] == a[start.len() + i]);
        }
        if m.len() < n.len() {
            assert(n[m.len() as int] == '/');
            assert(n.contains('/'));
        } else if n.len() < m.len() {
            assert(m[n.len() as int] == '/');
            assert(m.contains('/'));
        } else {
            assert(m =~= n);
        }
    }
}

proof fn sources_at_lie_below(node: FsNode, path: Seq<char>)
    requires
        node matches FsNode::Dir(children) ==> names_are_plain(children@),
        path.len() > 0,
        path.last() != '/',
    ensures
        forall|i: int|
            0 <= i < sources_at(node, path).len() ==> at_or_below(
                #[trigger] sources_at(node, path)[i],
                path,
            ),
    decreases node,
{
    if let FsNode::Dir(children) = node {
        assert(decreases_to!(node => children@));
        sources_in_lie_below(children@, path);
        let all = sources_at(node, path);
        assert(all == sources_in(children@, path));
        assert forall|i: int| 0 <= i < all.len() implies at_or_below(#[trigger] all[i], path) by {
            assert(below_some(all[i], children@, path));
            let k = choose|k: int|
                0 <= k < children@.len() && at_or_below(
                    all[i],
                    path_join(path, (#[trigger] children@[k]).0@),
                );
            plain_at(children@, k);
            joined_plainly(path, children@[k].0@);
            at_or_below_again(all[i], path_join(path, children@[k].0@), path);
        }
    }
}

proof fn plain_at(children: Seq<(String, FsNode)>, k: int)
    requires
        names_are_plain(children),
        0 <= k < children.len(),
    ensures
        is_plain(children[k].0@),
    decreases children.len(),
{
    if k < children.len() - 1 {
        plain_at(children.drop_last(), k);
    }
}

proof fn sources_in_lie_below(children: Seq<(String, FsNode)>, base: Seq<char>)
    requires
        names_are_plain(children),
    ensures
        forall|i: int|
            0 <= i < sources_in(children, base).len() ==> below_some(
                #[trigger] sources_in(children, base)[i],
                children,
                base,
            ),
    decreases children,
{
    if children.len() > 0 {
        let before = children.drop_last();
        let last = children[children.len() - 1];
        let path = path_join(base, last.0@);
        sources_in_lie_below(before, base);
        joined_plainly(base, last.0@);
        assert(decreases_to!(children => last));
        assert(decreases_to!(last => last.1));
        sources_at_lie_below(last.1, path);
        let all = sources_in(children, base);
        let n = sources_in(before, base).len();
        assert forall|i: int| 0 <= i < all.len() implies below_some(
            #[trigger] all[i],
            children,
            base,
        ) by {
            if i < n {
                assert(all[i] == sources_in(before, base)[i]);
                assert(below_some(all[i], before, base));
                let k = choose|k: int|
                    0 <= k < before.len() && at_or_below(
                        all[i],
                        path_join(base, (#[trigger] before[k]).0@),
                    );
                assert(children[k] == before[k]);
            } else {
                assert(all[i] == sources_at(last.1, path)[i - n]);
                assert(at_or_below(all[i], path_join(base, children[children.len() - 1].0@)));
            }
        }
    }
}

proof fn sources_at_differ(node: FsNode, path: Seq<char>)
    requires
        node matches FsNode::Dir(children) ==> names_are_plain(children@) && names_differ(children@),
    ensures
        sources_at(node, path).no_duplicates(),
    decreases node,
{
    if let FsNode::Dir(children) = node {
        assert(decreases_to!(node => children@));
        sources_in_differ(children@, path);
    }
}

proof fn sources_in_differ(children: Seq<(String, FsNode)>, base: Seq<char>)
    requires
        names_are_plain(children),
        names_differ(children),
    ensures
        sources_in(children, base).no_duplicates(),
    decreases children,
{
    if children.len() > 0 {
        let before = children.drop_last();
        let last = children[children.len() - 1];
        let path = path_join(base, last.0@);
        sources_in_differ(before, base);
        sources_in_lie_below(before, base);
        joined_plainly(base, last.0@);
        assert(decreases_to!(children => last));
        assert(decreases_to!(last => last.1));
        sources_at_differ(last.1, path);
        sources_at_lie_below(last.1, path);
        let a = sources_in(before, base);
        let b = sources_at(last.1, path);
        assert forall|i: int, j: int| 0 <= i < a.len() && 0 <= j < b.len() implies a[i] != b[j] by {
            assert(below_some(a[i], before, base));
            let k = choose|k: int|
                0 <= k < before.len() && at_or_below(
                    a[i],
                    path_join(base, (#[trigger] before[k]).0@),
                );
            plain_at(before, k);
            assert(children[k] == before[k]);
            names_part_paths(a[i], b[j], base, before[k].0@, last.0@);
        }
        vstd::seq_lib::lemma_no_dup_in_concat(a, b);
    }
}

/// Every source file is found once, and given to the compiler once: the names in
/// a directory differ, and none reaches into another directory.
pub proof fn sources_are_listed_once(fs: Seq<(String, FsNode)>, base: Seq<char>)
    requires
        names_differ(fs),
        names_are_plain(fs),
    ensures
        sources_in(fs, base).no_duplicates(),
        sorted(sources_in(fs, base)).no_duplicates(),
{
    let all = sources_in(fs, base);
    sources_in_differ(fs, base);
    sorting_orders(all);
    all.lemma_multiset_has_no_duplicates();
    sorted(all).lemma_multiset_has_no_duplicates_conv();
}

// ---------------------------------------------------------------------------
// The programs that are run
// ---------------------------------------------------------------------------

/// Where the compiler and the linker are found.
pub open spec fn llvm_url() -> Seq<char> {
    "https://fabioibanez.github.io/website/llvm.core.wasm"@
}

/// The arguments of the compiler.
pub open spec fn clang_arguments(sources: Seq<Seq<char>>, is_debug: bool) -> Seq<Seq<char>> {
    let common = seq![
        "-cc1"@,
        "-triple"@,
        "wasm32-wasip1"@,
        "-Werror"@,
        "-emit-obj"@,
        "-disable-free"@,
        "-isysroot"@,
        "/"@,
        "-internal-isystem"@,
        "/include/c++/v1"@,
        "-internal-isystem"@,
        "/include"@,
        "-internal-isystem"@,
        "/include/wasm32-wasip1"@,
        "-ferror-limit"@,
        "4"@,
        "-fcolor-diagnostics"@,
        "-x"@,
        "c++"@,
        "-std=c++23"@,
        "-o"@,
        "/main.o"@,
    ];
    if is_debug {
        common.push("-O0"@).push("-debug-info-kind=standalone"@).push("-dwarf-version=5"@) + sources
    } else {
        common + sources
    }
}

/// The arguments of the linker.
pub open spec fn linker_arguments() -> Seq<Seq<char>> {
    seq![
        "--export-dynamic"@,
        "-z"@,
        "stack-size=1048576"@,
        "-L/lib/wasm32-wasip1"@,
        "/lib/wasm32-wasip1/crt1.o"@,
        "/main.o"@,
        "-lc++"@,
        "-lc++abi"@,
        "/lib/wasm32-unknown-wasip1/libclang_rt.builtins.a"@,
        "-lc"@,
        "-o"@,
        "/main.wasm"@,
    ]
}

/// The steps that compile, link and run the sources: the compiler sees the
/// user's files, and only the program itself is debugged.
pub open spec fn build_steps(sources: Seq<Seq<char>>, is_debug: bool) -> Seq<StepModel> {
    seq![
        StepModel {
            name: "clang"@,
            binary: Some(llvm_url()),
            sysroot: Some("https://fabioibanez.github.io/website/llvm-resources.tar.gz"@),
            user_files: true,
            args: clang_arguments(sources, is_debug),
            debug: false,
        },
        StepModel {
            name: "wasm-ld"@,
            binary: Some(llvm_url()),
            sysroot: None,
            user_files: false,
            args: linker_arguments(),
            debug: false,
        },
        StepModel {
            name: "main"@,
            binary: Some("/main.wasm"@),
            sysroot: None,
            user_files: false,
            args: seq![],
            debug: is_debug,
        },
    ]
}

fn put_text(v: &mut Vec<String>, s: &str)
    ensures
        texts(final(v)@) == texts(old(v)@).push(s@),
{
    v.push(own(s));
    assert(texts(v@) =~= texts(old(v)@).push(s@));
}

fn clang_args(sources: &Vec<String>, is_debug: bool) -> (r: Vec<String>)
    ensures
        texts(r@) == clang_arguments(texts(sources@), is_debug),
{
    let mut v: Vec<String> = Vec::new();
    assert(texts(v@) =~= Seq::empty());
    put_text(&mut v, "-cc1");
    put_text(&mut v, "-triple");
    put_text(&mut v, "wasm32-wasip1");
    put_text(&mut v, "-Werror");
    put_text(&mut v, "-emit-obj");
    put_text(&mut v, "-disable-free");
    put_text(&mut v, "-isysroot");
    put_text(&mut v, "/");
    put_text(&mut v, "-internal-isystem");
    put_text(&mut v, "/include/c++/v1");
    put_text(&mut v, "-internal-isystem");
    put_text(&mut v, "/include");
    put_text(&mut v, "-internal-isystem");
    put_text(&mut v, "/include/wasm32-wasip1");
    put_text(&mut v, "-ferror-limit");
    put_text(&mut v, "4");
    put_text(&mut v, "-fcolor-diagnostics");
    put_text(&mut v, "-x");
    put_text(&mut v, "c++");
    put_text(&mut v, "-std=c++23");
    put_text(&mut v, "-o");
    put_text(&mut v, "/main.o");
    if is_debug {
        put_text(&mut v, "-O0");
        // because of the -cc1 flag
        put_text(&mut v, "-debug-info-kind=standalone");
        put_text(&mut v, "-dwarf-version=5");
    }
    let ghost options = texts(v@);
    let ghost all = texts(sources@);
    let mut i: usize = 0;
    assert(options + all.take(0) =~= options);
    while i < sources.len()
        invariant
            i <= sources@.len(),
            all == texts(sources@),
            texts(v@) == options + all.take(i as int),
        decreases sources@.len() - i,
    {
        put_text(&mut v, sources[i].as_str());
        i = i + 1;
        assert(texts(v@) =~= options + all.take(i as int));
    }
    assert(all.take(i as int) =~= all);
    v
}

fn linker_args() -> (r: Vec<String>)
    ensures
        texts(r@) == linker_arguments(),
{
    let mut v: Vec<String> = Vec::new();
    assert(texts(v@) =~= Seq::empty());
    put_text(&mut v, "--export-dynamic");
    put_text(&mut v, "-z");
    put_text(&mut v, "stack-size=1048576");
    put_text(&mut v, "-L/lib/wasm32-wasip1");
    put_text(&mut v, "/lib/wasm32-wasip1/crt1.o");
    put_text(&mut v, "/main.o");
    put_text(&mut v, "-lc++");
    put_text(&mut v, "-lc++abi");
    put_text(&mut v, "/lib/wasm32-unknown-wasip1/libclang_rt.builtins.a");
    put_text(&mut v, "-lc");
    put_text(&mut v, "-o");
    put_text(&mut v, "/main.wasm");
    v
}

/// The steps that build and run the user's files; none where no C or C++ source
/// file is among them.
pub fn start(fs: &Vec<(String, FsNode)>, is_debug: bool) -> (r: Option<Vec<Step>>)
    ensures
        r is None <==> sources_in(fs@, "/"@).len() == 0,
        r matches Some(steps) ==> step_models(steps@) == build_steps(
            sorted(sources_in(fs@, "/"@)),
            is_debug,
        ),
{
    let mut sources: Vec<String> = Vec::new();
    assert(texts(sources@) + sources_in(fs@, "/"@) =~= sources_in(fs@, "/"@));
    collect_dir_sources(fs, "/", &mut sources);
    assert(texts(sources@) == sources_in(fs@, "/"@));
    if sources.len() == 0 {
        return None;
    }
    let sources = sort(sources);
    let mut steps: Vec<Step> = Vec::new();
    steps.push(
        Step::new("clang").binary(
            "https://fabioibanez.github.io/website/llvm.core.wasm",
        ).sysroot("https://fabioibanez.github.io/website/llvm-resources.tar.gz").fs().args(
            clang_args(&sources, is_debug),
        ),
    );
    steps.push(
        Step::new("wasm-ld").binary(
            "https://fabioibanez.github.io/website/llvm.core.wasm",
        ).args(linker_args()),
    );
    steps.push(Step::new("main").binary("/main.wasm").debug(is_debug));
    assert(step_models(steps@) =~= build_steps(sorted(sources_in(fs@, "/"@)), is_debug));
    Some(steps)
}

// ---------------------------------------------------------------------------
// The user's files
// ---------------------------------------------------------------------------

/// Something done to a file system.
#[derive(Debug)]
pub enum FsAction {
    /// Makes a directory, with those above it.
    CreateDir(String),
    /// Creates a file with a text.
    WriteText(String, String),
    /// Creates a file with bytes.
    WriteBytes(String, Vec<u8>),
}

/// The mathematical value of a [`FsAction`].
pub enum FsActionModel {
    CreateDir(Seq<char>),
    WriteText(Seq<char>, Seq<char>),
    WriteBytes(Seq<char>, Seq<u8>),
}

impl View for FsAction {
    type V = FsActionModel;

    open spec fn view(&self) -> FsActionModel {
        match *self {
            FsAction::CreateDir(path) => FsActionModel::CreateDir(path@),
            FsAction::WriteText(path, text) => FsActionModel::WriteText(path@, text@),
            FsAction::WriteBytes(path, bytes) => FsActionModel::WriteBytes(path@, bytes@),
        }
    }
}

/// The values of actions.
pub open spec fn action_models(v: Seq<FsAction>) -> Seq<FsActionModel> {
    v.map_values(|a: FsAction| a@)
}

/// What creates `node` at `path`: a directory is made before what stands in it.
pub open spec fn files_at(node: FsNode, path: Seq<char>) -> Seq<FsActionModel>
    decreases node,
{
    match node {
        FsNode::File(contents) => seq![FsActionModel::WriteText(path, contents@)],
        FsNode::Dir(children) => seq![FsActionModel::CreateDir(path)] + files_in(children@, path),
    }
}

/// What creates the files in a directory.
pub open spec fn files_in(children: Seq<(String, FsNode)>, base: Seq<char>) -> Seq<FsActionModel>
    decreases children,
{
    if children.len() == 0 {
        seq![]
    } else {
        files_in(children.drop_last(), base) + files_at(
            children[children.len() - 1].1,
            path_join(base, children[children.len() - 1].0@),
        )
    }
}

/// Adds what creates `node` at `base_path`.
pub fn create_user_fs_rec(base_path: &str, node: &FsNode, actions: &mut Vec<FsAction>)
    ensures
        action_models(final(actions)@) == action_models(old(actions)@) + files_at(
            *node,
            base_path@,
        ),
    decreases *node,
{
    match node {
        FsNode::File(contents) => {
            actions.push(FsAction::WriteText(own(base_path), own(contents.as_str())));
            assert(action_models(actions@) =~= action_models(old(actions)@) + files_at(
                *node,
                base_path@,
            ));
        },
        FsNode::Dir(children) => {
            proof {
                assert(decreases_to!(*node => children@));
            }
            create_user_dir(base_path, children, actions);
        },
    }
}

/// Adds what creates a directory with `children` at `base_path`.
pub fn create_user_dir(
    base_path: &str,
    children: &Vec<(String, FsNode)>,
    actions: &mut Vec<FsAction>,
)
    ensures
        action_models(final(actions)@) == action_models(old(actions)@) + (seq![
            FsActionModel::CreateDir(base_path@),
        ] + files_in(children@, base_path@)),
    decreases children@,
{
    let ghost all = children@;
    let ghost before = action_models(actions@) + seq![FsActionModel::CreateDir(base_path@)];
    actions.push(FsAction::CreateDir(own(base_path)));
    assert(action_models(actions@) =~= before);
    let mut i: usize = 0;
    assert(all.take(0) =~= seq![]);
    assert(before + files_in(all.take(0), base_path@) =~= before);
    while i < children.len()
        invariant
            i <= children@.len(),
            all == children@,
            action_models(actions@) == before + files_in(all.take(i as int), base_path@),
        decreases children@.len() - i,
    {
        assert(all.take(i + 1).drop_last() =~= all.take(i as int));
        let child_path = join_path(base_path, children[i].0.as_str());
        proof {
            assert(decreases_to!(children@ => children@[i as int]));
            assert(decreases_to!(children@[i as int] => children@[i as int].1));
        }
        create_user_fs_rec(child_path.as_str(), &children[i].1, actions);
        i = i + 1;
        assert(action_models(actions@) =~= before + files_in(all.take(i as int), base_path@));
    }
    assert(all.take(i as int) =~= all);
    assert(action_models(actions@) =~= action_models(old(actions)@) + (seq![
        FsActionModel::CreateDir(base_path@),
    ] + files_in(children@, base_path@)));
}

// ---------------------------------------------------------------------------
// What is built of the user's files
// ---------------------------------------------------------------------------

/// Whether an extension is one of C or C++ sources.
pub open spec fn is_source_extension(e: Seq<char>) -> bool {
    e == "c"@ || e == "cc"@ || e == "cp"@ || e == "cpp"@ || e == "cxx"@ || e == "c++"@
}

/// A file is a source file by what stands behind the last `.` of its name, in upper or
/// lower case.
pub proof fn sources_are_told_by_their_extension(base: Seq<char>, stem: Seq<char>, ext: Seq<char>)
    requires
        stem.len() > 0,
        !stem.contains('/'),
        !ext.contains('/'),
        !ext.contains('.'),
        stem != seq!['.'] || ext.len() > 0,
    ensures
        is_source(base + seq!['/'] + (stem + seq!['.'] + ext)) <==> is_source_extension(lowered(ext)),
{
    extensions_stand_behind_the_last_dot(base, stem, ext);
}

/// Letters in upper case become the same letters in lower case, and nothing else
/// changes.
pub proof fn letters_are_lowered(s: Seq<char>, i: int)
    requires
        0 <= i < s.len(),
    ensures
        lowered(s).len() == s.len(),
        'A' <= s[i] <= 'Z' ==> lowered(s)[i] as int == s[i] as int + 32,
        !('A' <= s[i] <= 'Z') ==> lowered(s)[i] == s[i],
{
}

/// One more entry of a directory adds the source files at and below it: a file where it
/// is a source file, under its path, and those of a directory under the path of that.
/// It adds what creates it, too: a file with its text, and a directory before all that
/// stands in it.
pub proof fn directories_are_gone_through(
    children: Seq<(String, FsNode)>,
    name: String,
    node: FsNode,
    base: Seq<char>,
)
    ensures
        ({
            let path = path_join(base, name@);
            let all = children.push((name, node));
            &&& sources_in(all, base) == sources_in(children, base) + match node {
                FsNode::File(_) => if is_source(path) {
                    seq![path]
                } else {
                    seq![]
                },
                FsNode::Dir(below) => sources_in(below@, path),
            }
            &&& files_in(all, base) == files_in(children, base) + match node {
                FsNode::File(contents) => seq![FsActionModel::WriteText(path, contents@)],
                FsNode::Dir(below) => seq![FsActionModel::CreateDir(path)] + files_in(below@, path),
            }
        }),
        sources_in(seq![], base).len() == 0,
        files_in(seq![], base).len() == 0,
{
    let path = path_join(base, name@);
    let all = children.push((name, node));
    assert(all.drop_last() =~= children);
    assert(all[all.len() - 1] == (name, node));
    assert(sources_in(all, base) == sources_in(children, base) + sources_at(node, path));
    assert(files_in(all, base) == files_in(children, base) + files_at(node, path));
    assert(match node {
        FsNode::File(contents) => files_at(node, path) == seq![
            FsActionModel::WriteText(path, contents@),
        ],
        FsNode::Dir(below) => sources_at(node, path) == sources_in(below@, path) && files_at(
            node,
            path,
        ) == seq![FsActionModel::CreateDir(path)] + files_in(below@, path),
    });
}

/// The order of texts is that of their first characters, and of what stands behind
/// them where these are the same; what is shorter comes first.
pub proof fn texts_are_ordered(a: Seq<char>, b: Seq<char>, common: Seq<char>)
    ensures
        text_le(common, common + b),
        b.len() > 0 ==> !text_le(common + b, common),
        a.len() > 0 && b.len() > 0 && a[0] != b[0] ==> text_le(common + a, common + b) == ((a[0] as int)
            < (b[0] as int)),
    decreases common.len(),
{
    if common.len() > 0 {
        texts_are_ordered(a, b, common.skip(1));
        assert((common + a).skip(1) =~= common.skip(1) + a);
        assert((common + b).skip(1) =~= common.skip(1) + b);
        assert((common + a)[0] == common[0]);
        assert((common + b)[0] == common[0]);
    } else {
        assert(common + a =~= a);
        assert(common + b =~= b);
    }
}

/// Whether a program is told to put out a file: `-o` and the name of the file stand
/// behind each other in its arguments.
pub open spec fn puts_out(args: Seq<Seq<char>>, file: Seq<char>) -> bool {
    exists|i: int| 0 <= i < args.len() - 1 && #[trigger] args[i] == "-o"@ && args[i + 1] == file
}

/// The sources are compiled, linked and run, one after the other: the compiler is given
/// all of them and the user's files, the linker is given what the compiler puts out,
/// and what the linker puts out is run. Only the program that is run is debugged, and
/// only where that is asked for; the compiler is then told to write debug information
/// and not to optimise.
pub proof fn sources_are_compiled_linked_and_run(sources: Seq<Seq<char>>, is_debug: bool, k: int)
    requires
        0 <= k < sources.len(),
    ensures
        ({
            let steps = build_steps(sources, is_debug);
            let args = steps[0].args;
            &&& steps.len() == 3
            &&& args.len() >= sources.len()
            &&& args[args.len() - sources.len() + k] == sources[k]
            &&& puts_out(args, "/main.o"@)
            &&& steps[1].args.contains("/main.o"@)
            &&& puts_out(steps[1].args, "/main.wasm"@)
            &&& steps[2].binary == Some("/main.wasm"@)
            &&& steps[2].args.len() == 0
            &&& steps[0].user_files && !steps[1].user_files && !steps[2].user_files
            &&& steps[0].sysroot is Some && steps[1].sysroot is None && steps[2].sysroot is None
            &&& steps[0].binary == steps[1].binary
            &&& !steps[0].debug && !steps[1].debug
            &&& steps[2].debug == is_debug
            &&& steps[0].name == "clang"@ && steps[1].name == "wasm-ld"@ && steps[2].name == "main"@
            &&& args[0] == "-cc1"@
            &&& args[1] == "-triple"@ && args[2] == "wasm32-wasip1"@
            &&& is_debug ==> args.contains("-O0"@) && args.contains("-debug-info-kind=standalone"@)
                && args.contains("-dwarf-version=5"@)
            &&& args.len() == sources.len() + if is_debug {
                25int
            } else {
                22
            }
        }),
{
    let steps = build_steps(sources, is_debug);
    let args = steps[0].args;
    assert(args[20] == "-o"@);
    assert(args[21] == "/main.o"@);
    if is_debug {
        assert(args[22] == "-O0"@);
        assert(args[23] == "-debug-info-kind=standalone"@);
        assert(args[24] == "-dwarf-version=5"@);
    }
    assert(steps[1].args[5] == "/main.o"@);
    assert(steps[1].args[10] == "-o"@);
    assert(steps[1].args[11] == "/main.wasm"@);
}

} // verus!
