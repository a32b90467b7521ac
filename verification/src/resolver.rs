//! The inclusion resolver: from the `includes` entries of a file to the
//! files to load next.
//!
//! Asking the file system is left to the caller. What is decided here is
//! what the answers mean: which paths are files and which directories, which
//! entries of a directory are live configuration files, and which list, in
//! which order, comes of it all.

use vstd::prelude::*;
use crate::paths::{
    file_name, file_name_of, is_valid_toml_file_path, is_valid_toml_path, join_path, joined_path,
    lowercase_of, normal_path, normalize_path, to_lowercase,
};
use crate::text::{
    goes_before, lemma_goes_before_total, lemma_goes_before_transitive, lemma_lex_le_antisymmetric,
    lemma_lex_le_transitive, string_le, texts,
};
use crate::warnings::{lemma_warnings_view_push, warnings_view, ConfigLoadWarning, WarningView};

verus! {

/// What the file system says a path is.
#[derive(Debug, Clone, Copy, PartialEq, Eq, Structural)]
pub enum PathKind {
    /// A regular file.
    File,
    /// A directory.
    Directory,
    /// Something that exists and is neither.
    Other,
    /// Nothing, or nothing that can be looked at.
    Missing,
}

/// One entry of a directory listing.
#[derive(Debug, Clone, PartialEq, Eq)]
pub struct DirEntry {
    /// The entry's full path.
    pub path: String,
    /// Whether the entry is itself a directory.
    pub is_dir: bool,
}

/// Each pattern of `includes` resolved against `config_dir`, in normal form.
pub open spec fn resolved(includes: Seq<Seq<char>>, config_dir: Seq<char>) -> Seq<Seq<char>> {
    Seq::new(includes.len(), |i: int| normal_path(joined_path(config_dir, includes[i])))
}

/// Resolves every include pattern against the base directory: a relative
/// pattern lies below it, an absolute one stands for itself. The paths are
/// brought into normal form, so that two spellings of one path are told to
/// be one.
pub fn resolve_include_paths(includes: &Vec<String>, config_dir: &str) -> (r: Vec<String>)
    ensures
        texts(r@) == resolved(texts(includes@), config_dir@),
{
    let mut out: Vec<String> = Vec::new();
    let mut i: usize = 0;
    while i < includes.len()
        invariant
            i <= includes.len(),
            out@.len() == i,
            forall|j: int| 0 <= j < i ==> out@[j]@ == normal_path(joined_path(config_dir@, includes@[j]@)),
        decreases includes.len() - i,
    {
        out.push(normalize_path(join_path(config_dir, includes[i].as_str()).as_str()));
        i += 1;
    }
    proof {
        assert(texts(out@) =~= resolved(texts(includes@), config_dir@));
    }
    out
}

/// The content of probed paths: each path with what it is.
pub open spec fn probed_view(probed: Seq<(String, PathKind)>) -> Seq<(Seq<char>, PathKind)> {
    Seq::new(probed.len(), |i: int| (probed[i].0@, probed[i].1))
}

/// Whether an include target is loaded as a file: it is a regular file and
/// names a live configuration file.
pub open spec fn is_loadable(target: (Seq<char>, PathKind)) -> bool {
    target.1 == PathKind::File && is_valid_toml_path(target.0)
}

/// The paths of `probed` that are loaded as files, in order.
pub open spec fn loadable_files(probed: Seq<(Seq<char>, PathKind)>) -> Seq<Seq<char>>
    decreases probed.len(),
{
    if probed.len() == 0 {
        Seq::empty()
    } else if is_loadable(probed.last()) {
        loadable_files(probed.drop_last()).push(probed.last().0)
    } else {
        loadable_files(probed.drop_last())
    }
}

/// The paths of `probed` that are directories, in order.
pub open spec fn directories(probed: Seq<(Seq<char>, PathKind)>) -> Seq<Seq<char>>
    decreases probed.len(),
{
    if probed.len() == 0 {
        Seq::empty()
    } else if probed.last().1 == PathKind::Directory {
        directories(probed.drop_last()).push(probed.last().0)
    } else {
        directories(probed.drop_last())
    }
}

/// One warning for each path of `probed` that is skipped, in order: a path
/// that is missing, one that is neither a file nor a directory, and a file
/// that does not name a live configuration file.
pub open spec fn skipped_warnings(probed: Seq<(Seq<char>, PathKind)>) -> Seq<WarningView>
    decreases probed.len(),
{
    if probed.len() == 0 {
        Seq::empty()
    } else if is_loadable(probed.last()) || probed.last().1 == PathKind::Directory {
        skipped_warnings(probed.drop_last())
    } else {
        skipped_warnings(probed.drop_last()).push(WarningView::SkippedInvalidFile { path: probed.last().0 })
    }
}

/// Sorts resolved include paths by what the file system said of each.
///
/// Returns the files to load and the directories to look into, each in the
/// order given. A file is loaded only where its name ends in `.toml` and not
/// in `.template.toml`, case disregarded. Every other target is skipped with
/// a warning: a path that is missing, a path that is neither a file nor a
/// directory, and a file that is no live configuration file. Nothing of
/// this fails the load: an include target may be absent.
pub fn classify_include_paths(probed: &Vec<(String, PathKind)>, warnings: &mut Vec<ConfigLoadWarning>) -> (r: (
    Vec<String>,
    Vec<String>,
))
    ensures
        texts(r.0@) == loadable_files(probed_view(probed@)),
        texts(r.1@) == directories(probed_view(probed@)),
        warnings_view(final(warnings)@) == warnings_view(old(warnings)@) + skipped_warnings(
            probed_view(probed@),
        ),
{
    let ghost view = probed_view(probed@);
    let mut files: Vec<String> = Vec::new();
    let mut dirs: Vec<String> = Vec::new();
    let mut i: usize = 0;
    proof {
        assert(view.subrange(0, 0) =~= Seq::<(Seq<char>, PathKind)>::empty());
        assert(texts(files@) =~= Seq::<Seq<char>>::empty());
        assert(texts(dirs@) =~= Seq::<Seq<char>>::empty());
        assert(warnings_view(warnings@) =~= warnings_view(old(warnings)@) + Seq::<WarningView>::empty());
    }
    while i < probed.len()
        invariant
            i <= probed.len(),
            view == probed_view(probed@),
            texts(files@) == loadable_files(view.subrange(0, i as int)),
            texts(dirs@) == directories(view.subrange(0, i as int)),
            warnings_view(warnings@) == warnings_view(old(warnings)@) + skipped_warnings(
                view.subrange(0, i as int),
            ),
        decreases probed.len() - i,
    {
        proof {
            let upto = view.subrange(0, i + 1);
            assert(upto.drop_last() =~= view.subrange(0, i as int));
            assert(upto.last() == (probed@[i as int].0@, probed@[i as int].1));
        }
        let path = &probed[i].0;
        let load = match probed[i].1 {
            PathKind::File => is_valid_toml_file_path(path.as_str()),
            _ => false,
        };
        let look_into = match probed[i].1 {
            PathKind::Directory => true,
            _ => false,
        };
        if load {
            let ghost before = texts(files@);
            files.push(path.clone());
            assert(texts(files@) =~= before.push(path@));
        } else if look_into {
            let ghost before = texts(dirs@);
            dirs.push(path.clone());
            assert(texts(dirs@) =~= before.push(path@));
        } else {
            let warning = ConfigLoadWarning::SkippedInvalidFile { path: path.clone() };
            proof {
                lemma_warnings_view_push(warnings@, warning);
                assert((warnings_view(old(warnings)@) + skipped_warnings(view.subrange(0, i as int))).push(
                    warning@,
                ) =~= warnings_view(old(warnings)@) + skipped_warnings(view.subrange(0, i as int)).push(
                    warning@,
                ));
            }
            warnings.push(warning);
        }
        i += 1;
    }
    proof {
        assert(view.subrange(0, probed.len() as int) =~= view);
    }
    (files, dirs)
}

/// Whether `paths` stands in load order under `key_of`: by key, and by the
/// text of the path where the keys do not tell two paths apart.
pub open spec fn in_load_order(paths: Seq<Seq<char>>, key_of: spec_fn(Seq<char>) -> Seq<char>) -> bool {
    forall|i: int, j: int|
        0 <= i < j < paths.len() ==> goes_before(
            key_of(#[trigger] paths[i]),
            paths[i],
            key_of(#[trigger] paths[j]),
            paths[j],
        )
}

/// Whether `items` holds a string equal to `item`.
fn contains_string(items: &Vec<String>, item: &String) -> (r: bool)
    ensures
        r == texts(items@).contains(item@),
{
    let mut i: usize = 0;
    while i < items.len()
        invariant
            i <= items.len(),
            forall|j: int| 0 <= j < i ==> texts(items@)[j] != item@,
        decreases items.len() - i,
    {
        if items[i] == *item {
            assert(texts(items@)[i as int] == item@);
            return true;
        }
        i += 1;
    }
    false
}

/// Whether the path `first` with key `first_key` goes before `second` with
/// key `second_key`, or may stand for it.
fn is_before(first_key: &String, first: &String, second_key: &String, second: &String) -> (r: bool)
    ensures
        r == goes_before(first_key@, first@, second_key@, second@),
{
    if !string_le(first_key.as_str(), second_key.as_str()) {
        return false;
    }
    if string_le(second_key.as_str(), first_key.as_str()) {
        string_le(first.as_str(), second.as_str())
    } else {
        true
    }
}

/// Where `path` with key `key` enters `paths`, which stand in load order
/// with the keys `keys`: behind every path that goes before it.
fn insertion_point(keys: &Vec<String>, paths: &Vec<String>, key: &String, path: &String) -> (pos: usize)
    requires
        keys@.len() == paths@.len(),
        forall|i: int, j: int|
            0 <= i < j < paths@.len() ==> goes_before(
                #[trigger] keys@[i]@,
                paths@[i]@,
                #[trigger] keys@[j]@,
                paths@[j]@,
            ),
    ensures
        pos <= paths.len(),
        forall|j: int| 0 <= j < pos ==> goes_before((#[trigger] keys@[j])@, paths@[j]@, key@, path@),
        forall|j: int| pos <= j < paths.len() ==> goes_before(key@, path@, (#[trigger] keys@[j])@, paths@[j]@),
{
    let mut pos: usize = 0;
    while pos < paths.len() && is_before(&keys[pos], &paths[pos], key, path)
        invariant
            pos <= paths.len(),
            keys@.len() == paths@.len(),
            forall|j: int| 0 <= j < pos ==> goes_before((#[trigger] keys@[j])@, paths@[j]@, key@, path@),
        decreases paths.len() - pos,
    {
        pos += 1;
    }
    proof {
        if pos < paths.len() {
            let stop_key = keys@[pos as int]@;
            let stop = paths@[pos as int]@;
            assert(!goes_before(stop_key, stop, key@, path@));
            assert forall|j: int| pos <= j < paths.len() implies goes_before(
                key@,
                path@,
                (#[trigger] keys@[j])@,
                paths@[j]@,
            ) by {
                let later_key = keys@[j]@;
                let later = paths@[j]@;
                lemma_goes_before_total(key@, path@, later_key, later);
                if goes_before(later_key, later, key@, path@) {
                    if j > pos {
                        assert(goes_before(stop_key, stop, later_key, later));
                        lemma_goes_before_transitive(stop_key, stop, later_key, later, key@, path@);
                    }
                }
            }
        }
    }
    pos
}

/// Inserting one element adds it to the elements, as often as it was there
/// plus once.
pub proof fn lemma_insert_multiset(items: Seq<Seq<char>>, at: int, item: Seq<char>)
    requires
        0 <= at <= items.len(),
    ensures
        items.insert(at, item).to_multiset() == items.to_multiset().insert(item),
        forall|p: Seq<char>| items.insert(at, item).contains(p) <==> (items.contains(p) || p == item),
{
    let bigger = items.insert(at, item);
    assert(bigger.remove(at) =~= items);
    assert(bigger[at] == item);
    vstd::seq_lib::to_multiset_remove(bigger, at);
    bigger.to_multiset_ensures();
    assert(bigger.contains(item));
    assert(bigger.to_multiset() =~= items.to_multiset().insert(item));
    assert forall|p: Seq<char>| bigger.contains(p) <==> (items.contains(p) || p == item) by {
        if items.contains(p) {
            let k = choose|k: int| 0 <= k < items.len() && items[k] == p;
            if k < at {
                assert(bigger[k] == p);
            } else {
                assert(bigger[k + 1] == p);
            }
        }
        if bigger.contains(p) && p != item {
            let k = choose|k: int| 0 <= k < bigger.len() && bigger[k] == p;
            if k < at {
                assert(items[k] == p);
            } else {
                assert(items[k - 1] == p);
            }
        }
    }
}

/// Puts `paths` in load order by `keys`, the key of each path; where
/// `unique` is set a path that came before is left out.
fn sort_paths(
    paths: &Vec<String>,
    keys: &Vec<String>,
    unique: bool,
    Ghost(key_of): Ghost<spec_fn(Seq<char>) -> Seq<char>>,
) -> (r: Vec<String>)
    requires
        keys@.len() == paths@.len(),
        forall|i: int| 0 <= i < paths@.len() ==> #[trigger] keys@[i]@ == key_of(paths@[i]@),
    ensures
        in_load_order(texts(r@), key_of),
        forall|p: Seq<char>| texts(r@).contains(p) <==> texts(paths@).contains(p),
        unique ==> texts(r@).no_duplicates(),
        !unique ==> texts(r@).to_multiset() == texts(paths@).to_multiset(),
{
    let ghost given = texts(paths@);
    let mut out: Vec<String> = Vec::new();
    let mut out_keys: Vec<String> = Vec::new();
    let mut i: usize = 0;
    proof {
        assert(given.subrange(0, 0) =~= Seq::<Seq<char>>::empty());
        assert(texts(out@) =~= Seq::<Seq<char>>::empty());
    }
    while i < paths.len()
        invariant
            i <= paths.len(),
            given == texts(paths@),
            keys@.len() == paths@.len(),
            forall|k: int| 0 <= k < paths@.len() ==> #[trigger] keys@[k]@ == key_of(paths@[k]@),
            out_keys@.len() == out@.len(),
            forall|k: int| 0 <= k < out@.len() ==> (#[trigger] out_keys@[k])@ == key_of(out@[k]@),
            forall|a: int, b: int|
                0 <= a < b < out@.len() ==> goes_before(
                    #[trigger] out_keys@[a]@,
                    out@[a]@,
                    #[trigger] out_keys@[b]@,
                    out@[b]@,
                ),
            forall|p: Seq<char>| texts(out@).contains(p) <==> given.subrange(0, i as int).contains(p),
            unique ==> texts(out@).no_duplicates(),
            !unique ==> texts(out@).to_multiset() == given.subrange(0, i as int).to_multiset(),
        decreases paths.len() - i,
    {
        let path = &paths[i];
        let key = &keys[i];
        let ghost before = texts(out@);
        let ghost held = out@;
        let ghost held_keys = out_keys@;
        let ghost seen = given.subrange(0, i as int);
        let ghost upto = given.subrange(0, i + 1);
        proof {
            assert(upto =~= seen.push(path@));
            vstd::seq_lib::to_multiset_build(seen, path@);
            assert forall|p: Seq<char>| upto.contains(p) <==> (seen.contains(p) || p == path@) by {
                if seen.contains(p) {
                    let k = choose|k: int| 0 <= k < seen.len() && seen[k] == p;
                    assert(upto[k] == p);
                }
                if p == path@ {
                    assert(upto[i as int] == p);
                }
            }
        }
        if unique && contains_string(&out, path) {
            proof {
                assert forall|p: Seq<char>| texts(out@).contains(p) <==> upto.contains(p) by {
                    assert(texts(out@).contains(p) <==> seen.contains(p));
                    assert(upto.contains(p) <==> (seen.contains(p) || p == path@));
                }
            }
        } else {
            let pos = insertion_point(&out_keys, &out, key, path);
            out.insert(pos, path.clone());
            out_keys.insert(pos, key.clone());
            proof {
                assert(texts(out@) =~= before.insert(pos as int, path@));
                lemma_insert_multiset(before, pos as int, path@);
                assert forall|p: Seq<char>| texts(out@).contains(p) <==> upto.contains(p) by {
                    assert(before.contains(p) <==> seen.contains(p));
                    assert(upto.contains(p) <==> (seen.contains(p) || p == path@));
                    assert(before.insert(pos as int, path@).contains(p) <==> (before.contains(p) || p
                        == path@));
                }
                assert forall|k: int| 0 <= k < out@.len() implies (#[trigger] out_keys@[k])@ == key_of(
                    out@[k]@,
                ) by {
                    if k < pos {
                        assert(out_keys@[k] == held_keys[k] && out@[k] == held[k]);
                    } else if k > pos {
                        assert(out_keys@[k] == held_keys[k - 1] && out@[k] == held[k - 1]);
                    }
                }
                assert forall|a: int, b: int| 0 <= a < b < out@.len() implies goes_before(
                    #[trigger] out_keys@[a]@,
                    out@[a]@,
                    #[trigger] out_keys@[b]@,
                    out@[b]@,
                ) by {
                    let ia = if a < pos { a } else { a - 1 };
                    let ib = if b < pos { b } else { b - 1 };
                    if a != pos {
                        assert(out_keys@[a] == held_keys[ia] && out@[a] == held[ia]);
                    }
                    if b != pos {
                        assert(out_keys@[b] == held_keys[ib] && out@[b] == held[ib]);
                    }
                    if a != pos && b != pos {
                        assert(goes_before(held_keys[ia]@, held[ia]@, held_keys[ib]@, held[ib]@));
                    } else if b == pos {
                        assert(goes_before(held_keys[ia]@, held[ia]@, key@, path@));
                    } else {
                        assert(goes_before(key@, path@, held_keys[ib]@, held[ib]@));
                    }
                }
                if unique {
                    assert(!before.contains(path@));
                    assert(texts(out@).no_duplicates()) by {
                        let after = texts(out@);
                        assert forall|a: int, b: int|
                            0 <= a < after.len() && 0 <= b < after.len() && a != b implies after[a]
                            != after[b] by {
                            let ia = if a < pos { a } else { a - 1 };
                            let ib = if b < pos { b } else { b - 1 };
                            if a != pos && b != pos {
                                assert(after[a] == before[ia] && after[b] == before[ib]);
                            } else if a == pos {
                                assert(after[b] == before[ib]);
                            } else {
                                assert(after[a] == before[ia]);
                            }
                        }
                    }
                }
            }
        }
        i += 1;
    }
    proof {
        assert(given.subrange(0, paths.len() as int) =~= given);
        assert forall|a: int, b: int| 0 <= a < b < texts(out@).len() implies goes_before(
            key_of(#[trigger] texts(out@)[a]),
            texts(out@)[a],
            key_of(#[trigger] texts(out@)[b]),
            texts(out@)[b],
        ) by {
            assert(goes_before(out_keys@[a]@, out@[a]@, out_keys@[b]@, out@[b]@));
        }
    }
    out
}

/// The key by which the files of one directory are ordered: the file name in
/// lower case.
pub open spec fn name_key(path: Seq<char>) -> Seq<char> {
    match file_name_of(path) {
        Some(name) => lowercase_of(name),
        None => Seq::empty(),
    }
}

/// The key by which the files to load are ordered: the path in lower case.
pub open spec fn path_key(path: Seq<char>) -> Seq<char> {
    lowercase_of(path)
}

/// The content of a directory listing: each path with whether it is a
/// directory.
pub open spec fn listing_view(entries: Seq<DirEntry>) -> Seq<(Seq<char>, bool)> {
    Seq::new(entries.len(), |i: int| (entries[i].path@, entries[i].is_dir))
}

/// The entries of a listing that are live configuration files, in order.
pub open spec fn live_files(entries: Seq<(Seq<char>, bool)>) -> Seq<Seq<char>>
    decreases entries.len(),
{
    if entries.len() == 0 {
        Seq::empty()
    } else if !entries.last().1 && is_valid_toml_path(entries.last().0) {
        live_files(entries.drop_last()).push(entries.last().0)
    } else {
        live_files(entries.drop_last())
    }
}

/// The paths of `paths` that name live configuration files, in order.
pub open spec fn valid_among(paths: Seq<Seq<char>>) -> Seq<Seq<char>>
    decreases paths.len(),
{
    if paths.len() == 0 {
        Seq::empty()
    } else if is_valid_toml_path(paths.last()) {
        valid_among(paths.drop_last()).push(paths.last())
    } else {
        valid_among(paths.drop_last())
    }
}

/// The strings of each list of `lists`.
pub open spec fn lists_view(lists: Seq<Vec<String>>) -> Seq<Seq<Seq<char>>> {
    Seq::new(lists.len(), |i: int| texts(lists[i]@))
}

/// The lists of `lists` one after the other.
pub open spec fn flattened(lists: Seq<Seq<Seq<char>>>) -> Seq<Seq<char>>
    decreases lists.len(),
{
    if lists.len() == 0 {
        Seq::empty()
    } else {
        flattened(lists.drop_last()) + lists.last()
    }
}

/// Each path of `paths` in normal form.
pub open spec fn normalized(paths: Seq<Seq<char>>) -> Seq<Seq<char>> {
    Seq::new(paths.len(), |i: int| normal_path(paths[i]))
}

/// Brings every path of `paths` into normal form.
pub fn normalize_paths(paths: &Vec<String>) -> (r: Vec<String>)
    ensures
        texts(r@) == normalized(texts(paths@)),
{
    let mut out: Vec<String> = Vec::new();
    let mut i: usize = 0;
    while i < paths.len()
        invariant
            i <= paths.len(),
            out@.len() == i,
            forall|j: int| 0 <= j < i ==> out@[j]@ == normal_path(paths@[j]@),
        decreases paths.len() - i,
    {
        out.push(normalize_path(paths[i].as_str()));
        i += 1;
    }
    proof {
        assert(texts(out@) =~= normalized(texts(paths@)));
    }
    out
}

/// The key of a path within its directory.
fn name_key_of(path: &String) -> (r: String)
    ensures
        r@ == name_key(path@),
{
    match file_name(path.as_str()) {
        Some(name) => to_lowercase(name.as_str()),
        None => String::new(),
    }
}

/// Picks the live configuration files out of the listing of one directory.
///
/// An entry is kept where it is not a directory and its name ends in
/// `.toml` and not in `.template.toml`, case disregarded. The result holds
/// each kept entry as often as the listing does, ordered by file name in
/// lower case and, where that is the same for two entries, by the path
/// itself, so that it does not depend on the order of the listing.
pub fn select_toml_files(entries: &Vec<DirEntry>) -> (r: Vec<String>)
    ensures
        texts(r@).to_multiset() == live_files(listing_view(entries@)).to_multiset(),
        forall|p: Seq<char>| texts(r@).contains(p) <==> live_files(listing_view(entries@)).contains(p),
        in_load_order(texts(r@), |p: Seq<char>| name_key(p)),
{
    let ghost view = listing_view(entries@);
    let mut kept: Vec<String> = Vec::new();
    let mut keys: Vec<String> = Vec::new();
    let mut i: usize = 0;
    proof {
        assert(view.subrange(0, 0) =~= Seq::<(Seq<char>, bool)>::empty());
        assert(texts(kept@) =~= Seq::<Seq<char>>::empty());
    }
    while i < entries.len()
        invariant
            i <= entries.len(),
            view == listing_view(entries@),
            texts(kept@) == live_files(view.subrange(0, i as int)),
            keys@.len() == kept@.len(),
            forall|k: int| 0 <= k < kept@.len() ==> #[trigger] keys@[k]@ == name_key(kept@[k]@),
        decreases entries.len() - i,
    {
        proof {
            let upto = view.subrange(0, i + 1);
            assert(upto.drop_last() =~= view.subrange(0, i as int));
            assert(upto.last() == (entries@[i as int].path@, entries@[i as int].is_dir));
        }
        let entry = &entries[i];
        if !entry.is_dir && is_valid_toml_file_path(entry.path.as_str()) {
            let ghost before = texts(kept@);
            keys.push(name_key_of(&entry.path));
            kept.push(entry.path.clone());
            assert(texts(kept@) =~= before.push(entry.path@));
        }
        i += 1;
    }
    proof {
        assert(view.subrange(0, entries.len() as int) =~= view);
    }
    sort_paths(&kept, &keys, false, Ghost(|p: Seq<char>| name_key(p)))
}

/// Makes the list of files to load out of the include targets that are
/// files and of the files found in the include targets that are directories.
///
/// A target that is a file is kept where it names a live configuration
/// file. To these come the files of the directories. Every path is brought
/// into normal form. The result holds each path once, ordered by the path in
/// lower case and, where that is the same for two paths, by the path
/// itself, so that it does not depend on the order in which the file system
/// was asked.
pub fn merge_include_files(files: &Vec<String>, dir_files: &Vec<Vec<String>>) -> (r: Vec<String>)
    ensures
        texts(r@).no_duplicates(),
        forall|p: Seq<char>|
            texts(r@).contains(p) <==> normalized(
                valid_among(texts(files@)) + flattened(lists_view(dir_files@)),
            ).contains(p),
        in_load_order(texts(r@), |p: Seq<char>| path_key(p)),
{
    let ghost given = texts(files@);
    let ghost lists = lists_view(dir_files@);
    let mut all: Vec<String> = Vec::new();
    let mut keys: Vec<String> = Vec::new();
    let mut i: usize = 0;
    proof {
        assert(given.subrange(0, 0) =~= Seq::<Seq<char>>::empty());
        assert(texts(all@) =~= normalized(Seq::<Seq<char>>::empty()));
    }
    while i < files.len()
        invariant
            i <= files.len(),
            given == texts(files@),
            texts(all@) == normalized(valid_among(given.subrange(0, i as int))),
            keys@.len() == all@.len(),
            forall|k: int| 0 <= k < all@.len() ==> #[trigger] keys@[k]@ == path_key(all@[k]@),
        decreases files.len() - i,
    {
        proof {
            let upto = given.subrange(0, i + 1);
            assert(upto.drop_last() =~= given.subrange(0, i as int));
            assert(upto.last() == files@[i as int]@);
        }
        if is_valid_toml_file_path(files[i].as_str()) {
            let ghost before = valid_among(given.subrange(0, i as int));
            let ghost held = texts(all@);
            let path = normalize_path(files[i].as_str());
            keys.push(to_lowercase(path.as_str()));
            all.push(path);
            proof {
                assert(texts(all@) =~= held.push(normal_path(files@[i as int]@)));
                assert(normalized(before.push(files@[i as int]@)) =~= normalized(before).push(
                    normal_path(files@[i as int]@),
                ));
            }
        }
        i += 1;
    }
    let ghost valid = valid_among(given);
    let mut d: usize = 0;
    proof {
        assert(given.subrange(0, files.len() as int) =~= given);
        assert(lists.subrange(0, 0) =~= Seq::<Seq<Seq<char>>>::empty());
        assert(valid + flattened(lists.subrange(0, 0)) =~= valid);
    }
    while d < dir_files.len()
        invariant
            d <= dir_files.len(),
            lists == lists_view(dir_files@),
            texts(all@) == normalized(valid + flattened(lists.subrange(0, d as int))),
            keys@.len() == all@.len(),
            forall|k: int| 0 <= k < all@.len() ==> #[trigger] keys@[k]@ == path_key(all@[k]@),
        decreases dir_files.len() - d,
    {
        let found = &dir_files[d];
        let ghost base = valid + flattened(lists.subrange(0, d as int));
        let mut k: usize = 0;
        proof {
            let upto = lists.subrange(0, d + 1);
            assert(upto.drop_last() =~= lists.subrange(0, d as int));
            assert(upto.last() == texts(found@));
            assert(base + texts(found@).subrange(0, 0) =~= base);
        }
        while k < found.len()
            invariant
                k <= found.len(),
                texts(all@) == normalized(base + texts(found@).subrange(0, k as int)),
                keys@.len() == all@.len(),
                forall|j: int| 0 <= j < all@.len() ==> #[trigger] keys@[j]@ == path_key(all@[j]@),
            decreases found.len() - k,
        {
            let ghost so_far = base + texts(found@).subrange(0, k as int);
            let ghost held = texts(all@);
            let path = normalize_path(found[k].as_str());
            keys.push(to_lowercase(path.as_str()));
            all.push(path);
            proof {
                assert(base + texts(found@).subrange(0, k + 1) =~= so_far.push(found@[k as int]@));
                assert(texts(all@) =~= held.push(normal_path(found@[k as int]@)));
                assert(normalized(so_far.push(found@[k as int]@)) =~= normalized(so_far).push(
                    normal_path(found@[k as int]@),
                ));
            }
            k += 1;
        }
        proof {
            assert(texts(found@).subrange(0, found.len() as int) =~= texts(found@));
            assert(base + texts(found@) =~= valid + flattened(lists.subrange(0, d + 1)));
        }
        d += 1;
    }
    proof {
        assert(lists.subrange(0, dir_files.len() as int) =~= lists);
    }
    sort_paths(&all, &keys, true, Ghost(|p: Seq<char>| path_key(p)))
}

/// The load order does not depend on the order in which the files were
/// met: two lists that hold the same paths, each in load order, are the same
/// list.
pub proof fn lemma_load_order_is_determined(
    first: Seq<Seq<char>>,
    second: Seq<Seq<char>>,
    key_of: spec_fn(Seq<char>) -> Seq<char>,
)
    requires
        first.to_multiset() == second.to_multiset(),
        in_load_order(first, key_of),
        in_load_order(second, key_of),
    ensures
        first == second,
    decreases first.len(),
{
    first.to_multiset_ensures();
    second.to_multiset_ensures();
    assert(first.len() == second.len());
    if first.len() > 0 {
        let a = first[0];
        let b = second[0];
        assert(second.contains(b));
        assert(first.to_multiset().count(b) > 0);
        assert(first.contains(b));
        let i = choose|i: int| 0 <= i < first.len() && first[i] == b;
        assert(first.contains(a));
        assert(second.to_multiset().count(a) > 0);
        assert(second.contains(a));
        let j = choose|j: int| 0 <= j < second.len() && second[j] == a;
        if i != 0 && j != 0 {
            assert(goes_before(key_of(first[0]), first[0], key_of(first[i]), first[i]));
            assert(goes_before(key_of(second[0]), second[0], key_of(second[j]), second[j]));
            lemma_lex_le_antisymmetric(a, b);
        }
        assert(a == b);
        let rest_first = first.drop_first();
        let rest_second = second.drop_first();
        assert(first.remove(0) =~= rest_first);
        assert(second.remove(0) =~= rest_second);
        vstd::seq_lib::to_multiset_remove(first, 0);
        vstd::seq_lib::to_multiset_remove(second, 0);
        assert(rest_first.to_multiset() == rest_second.to_multiset());
        assert(in_load_order(rest_first, key_of)) by {
            assert forall|x: int, y: int| 0 <= x < y < rest_first.len() implies goes_before(
                key_of(#[trigger] rest_first[x]),
                rest_first[x],
                key_of(#[trigger] rest_first[y]),
                rest_first[y],
            ) by {
                assert(rest_first[x] == first[x + 1] && rest_first[y] == first[y + 1]);
            }
        }
        assert(in_load_order(rest_second, key_of)) by {
            assert forall|x: int, y: int| 0 <= x < y < rest_second.len() implies goes_before(
                key_of(#[trigger] rest_second[x]),
                rest_second[x],
                key_of(#[trigger] rest_second[y]),
                rest_second[y],
            ) by {
                assert(rest_second[x] == second[x + 1] && rest_second[y] == second[y + 1]);
            }
        }
        lemma_load_order_is_determined(rest_first, rest_second, key_of);
        assert(first =~= seq![a] + rest_first);
        assert(second =~= seq![b] + rest_second);
    } else {
        assert(first =~= second);
    }
}

} // verus!
