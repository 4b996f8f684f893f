//! Unpacking the archive of a sysroot.
//!
//! The archive and its entries are types of `tar` that are generic over the
//! reader's trait, and so they are kept in private fields.
use flate2::read::GzDecoder;
use std::io::{Cursor, Read};
use vstd::prelude::*;

use crate::path::{names_are_parts, parts_among, parts_of_path, path_parts, separator};
use crate::text::{concat, first_from_is_first, join, joined, pieces, pieces_make_the_text, texts};
use crate::worker::sources::{FsAction, FsActionModel, action_models};
use crate::worker::tarball::{sizes_can_be_counted, sizes_fit, unzip, unzipped};

verus! {

broadcast use vstd::seq_lib::group_seq_properties;

// ---------------------------------------------------------------------------
// Archives
// ---------------------------------------------------------------------------

/// An archive of `tar`, read through the gzip decoder of `flate2`.
#[verifier::external_body]
pub struct TarGz {
    archive: tar::Archive<GzDecoder<Cursor<Vec<u8>>>>,
}

/// The entries of an archive that are still to come.
#[verifier::external_body]
pub struct EntryCursor<'a> {
    entries: tar::Entries<'a, GzDecoder<Cursor<Vec<u8>>>>,
    current: Option<tar::Entry<'a, GzDecoder<Cursor<Vec<u8>>>>>,
}

/// An entry of an archive.
pub struct EntryModel {
    /// Its path, where it is text.
    pub path: Option<Seq<char>>,
    pub is_dir: bool,
    /// Its contents, where they can be read.
    pub contents: Option<Seq<u8>>,
}

/// The entries of an archive in order. One that cannot be read stands as
/// `None`.
pub uninterp spec fn entries_of(data: Seq<u8>) -> Seq<Option<EntryModel>>;

/// The entries of an opened archive.
pub uninterp spec fn archive_entries(archive: TarGz) -> Seq<Option<EntryModel>>;

/// The bytes that an opened archive is read from.
pub uninterp spec fn archive_data(archive: TarGz) -> Seq<u8>;

/// Whether nothing of an opened archive has been read.
pub uninterp spec fn is_unread(archive: TarGz) -> bool;

/// The entries that are still to come.
pub uninterp spec fn entries_left(cursor: EntryCursor) -> Seq<Option<EntryModel>>;

/// The bytes that the entries are read from.
pub uninterp spec fn cursor_data(cursor: EntryCursor) -> Seq<u8>;

/// The entry that came last.
pub uninterp spec fn current_entry(cursor: EntryCursor) -> Option<EntryModel>;

/// Makes an archive of bytes with `flate2::read::GzDecoder::new` and
/// `tar::Archive::new`, which read nothing yet. What the archive holds depends
/// on the bytes alone.
#[verifier::external_body]
fn open_archive(data: Vec<u8>) -> (r: TarGz)
    ensures
        archive_entries(r) == entries_of(data@),
        archive_data(r) == data@,
        is_unread(r),
{
    TarGz { archive: tar::Archive::new(GzDecoder::new(Cursor::new(data))) }
}

/// Starts to walk the entries of an archive with `tar::Archive::entries`. This
/// fails only where something of the archive has been read.
#[verifier::external_body]
fn entry_cursor<'a>(archive: &'a mut TarGz) -> (r: Result<EntryCursor<'a>, ()>)
    requires
        is_unread(*old(archive)),
    ensures
        r is Ok,
        r matches Ok(cursor) ==> entries_left(cursor) == archive_entries(*old(archive)),
        r matches Ok(cursor) ==> cursor_data(cursor) == archive_data(*old(archive)),
{
    match archive.archive.entries() {
        Ok(entries) => Ok(EntryCursor { entries, current: None }),
        Err(_) => Err(()),
    }
}

/// Takes the next entry with `tar::Entries::next`. `Some(false)` stands for an
/// entry that cannot be read. Where the map of a sparse file goes on behind its
/// head, this counts the blocks of the map onto the end of the entry, which is
/// told from the size; so the sizes have to leave room for that.
#[verifier::external_body]
fn next_entry<'a>(cursor: &mut EntryCursor<'a>) -> (r: Option<bool>)
    requires
        sizes_fit(unzipped(cursor_data(*old(cursor))), 0, None),
    ensures
        cursor_data(*final(cursor)) == cursor_data(*old(cursor)),
        ({
            let left = entries_left(*old(cursor));
            if left.len() == 0 {
                r is None
            } else {
                &&& r == Some(left[0] is Some)
                &&& entries_left(*final(cursor)) == left.skip(1)
                &&& current_entry(*final(cursor)) == left[0]
            }
        }),
{
    match cursor.entries.next() {
        None => None,
        Some(Ok(entry)) => {
            cursor.current = Some(entry);
            Some(true)
        },
        Some(Err(_)) => {
            cursor.current = None;
            Some(false)
        },
    }
}

/// Whether an entry is a directory, by `tar::EntryType::is_dir` of its header.
#[verifier::external_body]
fn entry_is_dir<'a>(cursor: &EntryCursor<'a>) -> (r: bool)
    requires
        current_entry(*cursor) is Some,
    ensures
        r == current_entry(*cursor)->Some_0.is_dir,
{
    cursor.current.as_ref().unwrap().header().entry_type().is_dir()
}

/// The path of an entry by `tar::Entry::path_bytes`, as text; none where it is
/// not UTF-8, as with `tar::Entry::path` on WebAssembly.
#[verifier::external_body]
fn entry_path<'a>(cursor: &EntryCursor<'a>) -> (r: Option<String>)
    requires
        current_entry(*cursor) is Some,
    ensures
        match r {
            Some(path) => current_entry(*cursor)->Some_0.path == Some(path@),
            None => current_entry(*cursor)->Some_0.path is None,
        },
{
    String::from_utf8(cursor.current.as_ref().unwrap().path_bytes().into_owned()).ok()
}

/// Reads the contents of an entry to their end with `tar::Entry`'s
/// `read_to_end`. This moves on only inside of the entry.
#[verifier::external_body]
fn entry_contents<'a>(cursor: &mut EntryCursor<'a>) -> (r: Option<Vec<u8>>)
    requires
        current_entry(*old(cursor)) is Some,
    ensures
        match r {
            Some(bytes) => current_entry(*old(cursor))->Some_0.contents == Some(bytes@),
            None => current_entry(*old(cursor))->Some_0.contents is None,
        },
        r is Some ==> entries_left(*final(cursor)) == entries_left(*old(cursor)),
        cursor_data(*final(cursor)) == cursor_data(*old(cursor)),
{
    let mut bytes = Vec::new();
    match cursor.current.as_mut().unwrap().read_to_end(&mut bytes) {
        Ok(_) => Some(bytes),
        Err(_) => None,
    }
}

// ---------------------------------------------------------------------------
// Unpacking
// ---------------------------------------------------------------------------

/// The directory that a path from the root stands in; the root is in none.
pub open spec fn parent_of(path: Seq<char>) -> Option<Seq<char>> {
    let parts = path_parts(path);
    if parts.len() == 0 {
        None
    } else {
        Some(separator() + joined(parts.drop_last(), separator()))
    }
}

/// What unpacks an entry: a directory is made, and a file is written once the
/// directory it stands in has been made. `None` where the entry cannot be read.
pub open spec fn entry_actions(e: EntryModel) -> Option<Seq<FsActionModel>> {
    match e.path {
        None => None,
        Some(path) => {
            let path = separator() + path;
            if e.is_dir {
                Some(seq![FsActionModel::CreateDir(path)])
            } else {
                match (parent_of(path), e.contents) {
                    (_, None) => None,
                    (Some(parent), Some(bytes)) => Some(
                        seq![
                            FsActionModel::CreateDir(parent),
                            FsActionModel::WriteBytes(path, bytes),
                        ],
                    ),
                    (None, Some(bytes)) => Some(seq![FsActionModel::WriteBytes(path, bytes)]),
                }
            }
        },
    }
}

/// What unpacks an archive; `None` where one of its entries cannot be read.
pub open spec fn archive_actions(all: Seq<Option<EntryModel>>) -> Option<Seq<FsActionModel>>
    decreases all.len(),
{
    if all.len() == 0 {
        Some(seq![])
    } else {
        match all[0] {
            None => None,
            Some(e) => match (entry_actions(e), archive_actions(all.skip(1))) {
                (Some(first), Some(rest)) => Some(first + rest),
                _ => None,
            },
        }
    }
}

/// What unpacks a gzipped tarball; `None` where its sizes cannot be counted or one
/// of its entries cannot be read.
pub open spec fn tarball_actions(data: Seq<u8>) -> Option<Seq<FsActionModel>> {
    if sizes_fit(unzipped(data), 0, None) {
        archive_actions(entries_of(data))
    } else {
        None
    }
}

/// Whether everything that an archive writes stands in a directory that was made
/// right before.
pub open spec fn writes_have_parents(actions: Seq<FsActionModel>) -> bool {
    forall|i: int|
        0 <= i < actions.len() ==> match #[trigger] actions[i] {
            FsActionModel::WriteBytes(path, _) => match parent_of(path) {
                Some(parent) => i > 0 && actions[i - 1] == FsActionModel::CreateDir(parent),
                None => true,
            },
            _ => true,
        }
}

/// Files can be unpacked in any order: the directory that a file stands in is
/// made before the file, even where the archive lists it later or not at all.
pub proof fn parents_come_first(all: Seq<Option<EntryModel>>)
    requires
        archive_actions(all) is Some,
    ensures
        writes_have_parents(archive_actions(all)->Some_0),
    decreases all.len(),
{
    if all.len() > 0 {
        parents_come_first(all.skip(1));
        let first = entry_actions(all[0]->Some_0)->Some_0;
        let rest = archive_actions(all.skip(1))->Some_0;
        let actions = archive_actions(all)->Some_0;
        assert(actions =~= first + rest);
        assert forall|i: int| 0 <= i < actions.len() implies match #[trigger] actions[i] {
            FsActionModel::WriteBytes(path, _) => match parent_of(path) {
                Some(parent) => i > 0 && actions[i - 1] == FsActionModel::CreateDir(parent),
                None => true,
            },
            _ => true,
        } by {
            if i < first.len() {
                assert(actions[i] == first[i]);
            } else {
                assert(actions[i] == rest[i - first.len()]);
            }
        }
    }
}

/// The directory that a path from the root stands in.
fn parent(path: &str) -> (r: Option<String>)
    ensures
        match r {
            Some(p) => parent_of(path@) == Some(p@),
            None => parent_of(path@) is None,
        },
{
    let mut parts = parts_of_path(path);
    assert(texts(parts@).len() == parts@.len());
    if parts.len() == 0 {
        return None;
    }
    let ghost all = texts(parts@);
    let _ = parts.pop();
    assert(texts(parts@) =~= all.drop_last());
    let mut slash = String::new();
    slash.push('/');
    assert(slash@ =~= separator());
    let rest = join(&parts, slash.as_str());
    Some(concat(slash.as_str(), rest.as_str()))
}

/// What puts the entries of a gzipped tarball into a file system; `Err` where
/// the archive cannot be read.
pub fn extract_tar_gz(data: Vec<u8>) -> (r: Result<Vec<FsAction>, ()>)
    ensures
        match r {
            Ok(actions) => tarball_actions(data@) == Some(action_models(actions@)),
            Err(_) => tarball_actions(data@) is None,
        },
{
    let bytes = unzip(&data);
    if !sizes_can_be_counted(&bytes) {
        return Err(());
    }
    let ghost all = entries_of(data@);
    let mut archive = open_archive(data);
    let mut cursor = match entry_cursor(&mut archive) {
        Ok(cursor) => cursor,
        Err(_) => {
            return Err(());
        },
    };
    let mut out: Vec<FsAction> = Vec::new();
    let mut slash = String::new();
    slash.push('/');
    assert(slash@ =~= separator());
    assert(action_models(out@) =~= seq![]);
    loop
        invariant
            slash@ == separator(),
            all == entries_of(data@),
            cursor_data(cursor) == data@,
            sizes_fit(unzipped(data@), 0, None),
            archive_actions(all) == match archive_actions(entries_left(cursor)) {
                Some(rest) => Some(action_models(out@) + rest),
                None => None,
            },
        decreases entries_left(cursor).len(),
    {
        let ghost left = entries_left(cursor);
        let ghost before = action_models(out@);
        let more = next_entry(&mut cursor);
        match more {
            None => {
                assert(action_models(out@) + seq![] =~= action_models(out@));
                return Ok(out);
            },
            Some(false) => {
                return Err(());
            },
            Some(true) => {},
        }
        let ghost entry = left[0]->Some_0;
        let is_dir = entry_is_dir(&cursor);
        let path = match entry_path(&cursor) {
            Some(path) => concat(slash.as_str(), path.as_str()),
            None => {
                return Err(());
            },
        };
        if is_dir {
            // in the case that a file is listed before the parent directory
            out.push(FsAction::CreateDir(path));
        } else {
            match parent(path.as_str()) {
                Some(parent) => {
                    out.push(FsAction::CreateDir(parent));
                },
                None => {},
            }
            match entry_contents(&mut cursor) {
                Some(bytes) => {
                    out.push(FsAction::WriteBytes(path, bytes));
                },
                None => {
                    return Err(());
                },
            }
        }
        proof {
            let first = entry_actions(entry)->Some_0;
            assert(action_models(out@) =~= before + first);
            match archive_actions(left.skip(1)) {
                Some(rest) => {
                    assert(before + (first + rest) =~= before + first + rest);
                },
                None => {},
            }
        }
    }
}

/// The directory that a file from the root stands in is what its path has before its
/// name.
pub proof fn parents_are_paths_without_the_name(base: Seq<char>, name: Seq<char>)
    requires
        !name.contains('/'),
        name.len() > 0,
        name != seq!['.'],
    ensures
        parent_of(base + seq!['/'] + name) == Some(
            seq!['/'] + joined(path_parts(base), seq!['/']),
        ),
        parent_of(seq!['/']) is None,
{
    names_are_parts(base, name);
    assert(path_parts(base).push(name).drop_last() =~= path_parts(base));
    let root = Seq::<char>::empty();
    names_are_parts(root, name);
    assert(root + seq!['/'] =~= seq!['/']);
    pieces_make_the_text(root, separator());
    first_from_is_first(root, separator(), 0);
    assert(pieces(root, separator()) =~= seq![root]);
    assert(parts_among(seq![root], 1) =~= seq![]);
    assert(path_parts(root) =~= seq![]);
}

/// Every entry of an archive is unpacked under its path from the root, in the order of
/// the archive: a directory is made, and a file is written with its contents, right
/// behind the directory that it stands in. An entry that cannot be read stops the
/// whole.
pub proof fn entries_are_unpacked(e: EntryModel, rest: Seq<Option<EntryModel>>)
    ensures
        ({
            let all = archive_actions(seq![Some(e)] + rest);
            let more = archive_actions(rest);
            if e.path is None || (!e.is_dir && e.contents is None) || more is None {
                all is None
            } else {
                let path = seq!['/'] + e.path->0;
                all == Some(
                    (if e.is_dir {
                        seq![FsActionModel::CreateDir(path)]
                    } else {
                        match parent_of(path) {
                            Some(parent) => seq![
                                FsActionModel::CreateDir(parent),
                                FsActionModel::WriteBytes(path, e.contents->0),
                            ],
                            None => seq![FsActionModel::WriteBytes(path, e.contents->0)],
                        }
                    }) + more->0,
                )
            }
        }),
        archive_actions(seq![]) == Some(Seq::<FsActionModel>::empty()),
        archive_actions(seq![None::<EntryModel>] + rest) is None,
{
    let all = seq![Some(e)] + rest;
    assert(all[0] == Some(e));
    assert(all.skip(1) =~= rest);
    assert((seq![None::<EntryModel>] + rest)[0] is None);
}

} // verus!
