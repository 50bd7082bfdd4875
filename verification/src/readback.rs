//! Reading back what a plan wrote: a template that is written out and then
//! loaded from the directory it was written to is the same template.
//!
//! The disk is modelled by the files that the plan wrote, by key. What the
//! library cannot see, that listing the destination shows exactly those
//! files, is the premise `shows`.

use vstd::prelude::*;
use vstd::string::*;
use crate::error::ErrorView;
use crate::file_map::{
    distinct_paths, has_path, lemma_pairs_map_at, pairs_map, path_at, position, put,
};
use crate::loading::{
    entry_named, holds_text_file, lemma_loaded_complete, lemma_loaded_keys, lemma_required_names,
    loaded, required_text, text_file_in, walked, well_named, Gathered,
};
use crate::paths::{child_key, is_entry_name};
use crate::plan::{lemma_written_is_mapping, steps_of, written};
use crate::source::{FileContent, SourceDir, SourceEntry};
use crate::template::{embedded_pairs, is_required, CMAKE_LISTS, MAIN_CPP};

verus! {

/// `entry` is a file called `name` with the text `text`.
pub open spec fn is_text_file(entry: SourceEntry, name: Seq<char>, text: Seq<char>) -> bool {
    entry matches SourceEntry::File { name: own, content: FileContent::Text(held) } && own@ == name
        && held@ == text
}

/// Among the entries from position `from` on, or below one of them, stands
/// a file with the text `text` whose key is `key`. `prefix` is the key of
/// the directory that `entries` lists.
pub open spec fn file_at(
    entries: Seq<SourceEntry>,
    from: int,
    prefix: Seq<char>,
    key: Seq<char>,
    text: Seq<char>,
) -> bool
    decreases entries, entries.len() - from,
{
    if from < 0 || from >= entries.len() {
        false
    } else {
        ||| match entries[from] {
            SourceEntry::File { name, content: FileContent::Text(held) } => child_key(
                prefix,
                name@,
            ) == key && held@ == text,
            SourceEntry::Directory { name, dir: SourceDir::Listing(children) } => file_at(
                children@,
                0,
                child_key(prefix, name@),
                key,
                text,
            ),
            _ => false,
        }
        ||| file_at(entries, from + 1, prefix, key, text)
    }
}

/// Every entry from position `from` on, and below, is a file with text or a
/// directory that could be listed.
pub open spec fn readable(entries: Seq<SourceEntry>, from: int) -> bool
    decreases entries, entries.len() - from,
{
    if from < 0 || from >= entries.len() {
        true
    } else {
        &&& match entries[from] {
            SourceEntry::File { content: FileContent::Text(_), .. } => true,
            SourceEntry::Directory { dir: SourceDir::Listing(children), .. } => readable(
                children@,
                0,
            ),
            _ => false,
        }
        &&& readable(entries, from + 1)
    }
}

/// No two entries of the listing have the same name.
pub open spec fn distinct_names(entries: Seq<SourceEntry>) -> bool {
    forall|i: int, j: int|
        0 <= i < j < entries.len() ==> (#[trigger] entries[i]).name() != (
        #[trigger] entries[j]).name()
}

/// The listing `dir` shows exactly the files of `disk`: everything in it
/// could be read and is properly named, no name stands twice at the root,
/// every file listed is a file of `disk` with its text, and every file of
/// `disk` is listed.
pub open spec fn shows(dir: SourceDir, disk: Map<Seq<char>, Seq<char>>) -> bool {
    dir matches SourceDir::Listing(entries) && {
        &&& readable(entries@, 0)
        &&& well_named(entries@, 0)
        &&& distinct_names(entries@)
        &&& forall|key: Seq<char>, text: Seq<char>| #[trigger]
            file_at(entries@, 0, Seq::<char>::empty(), key, text) ==> disk.dom().contains(key)
                && disk[key] == text
        &&& forall|key: Seq<char>| #[trigger]
            disk.dom().contains(key) ==> file_at(
                entries@,
                0,
                Seq::<char>::empty(),
                key,
                disk[key],
            )
    }
}

/// Every path of `pairs` is a file of `disk` with the same content.
pub open spec fn agrees(pairs: Seq<(Seq<char>, Seq<char>)>, disk: Map<Seq<char>, Seq<char>>) -> bool {
    forall|i: int|
        0 <= i < pairs.len() ==> disk.dom().contains((#[trigger] pairs[i]).0) && disk[pairs[i].0]
            == pairs[i].1
}

/// The key of a file below a directory begins with the directory's key
/// and a `/`.
pub proof fn lemma_nested_key(
    entries: Seq<SourceEntry>,
    from: int,
    prefix: Seq<char>,
    key: Seq<char>,
    text: Seq<char>,
)
    requires
        prefix.len() > 0,
        file_at(entries, from, prefix, key, text),
    ensures
        key.len() > prefix.len(),
        key.take(prefix.len() as int + 1) == prefix.push('/'),
    decreases entries, entries.len() - from,
{
    let here = match entries[from] {
        SourceEntry::File { name, content: FileContent::Text(held) } => child_key(prefix, name@)
            == key && held@ == text,
        SourceEntry::Directory { name, dir: SourceDir::Listing(children) } => file_at(
            children@,
            0,
            child_key(prefix, name@),
            key,
            text,
        ),
        _ => false,
    };
    if here {
        match entries[from] {
            SourceEntry::File { name, content: FileContent::Text(held) } => {
                assert(key.take(prefix.len() as int + 1) =~= prefix.push('/'));
            },
            SourceEntry::Directory { name, dir: SourceDir::Listing(children) } => {
                let inner = child_key(prefix, name@);
                lemma_nested_key(children@, 0, inner, key, text);
                assert(inner.len() >= prefix.len() + 1);
                assert forall|at: int| 0 <= at < prefix.len() + 1 implies key[at] == prefix.push(
                    '/',
                )[at] by {
                    assert(key.take(inner.len() as int + 1)[at] == inner.push('/')[at]);
                }
                assert(key.take(prefix.len() as int + 1) =~= prefix.push('/'));
            },
            _ => {},
        }
    } else {
        lemma_nested_key(entries, from + 1, prefix, key, text);
    }
}

/// A file at the root whose key holds no `/` is an entry of the root
/// listing itself.
pub proof fn lemma_root_file(
    entries: Seq<SourceEntry>,
    from: int,
    key: Seq<char>,
    text: Seq<char>,
) -> (at: int)
    requires
        0 <= from,
        well_named(entries, from),
        file_at(entries, from, Seq::<char>::empty(), key, text),
        forall|i: int| 0 <= i < key.len() ==> key[i] != '/',
    ensures
        from <= at < entries.len(),
        is_text_file(entries[at], key, text),
    decreases entries.len() - from,
{
    let empty = Seq::<char>::empty();
    match entries[from] {
        SourceEntry::File { name, content: FileContent::Text(held) } => {
            if child_key(empty, name@) == key && held@ == text {
                return from;
            }
        },
        SourceEntry::Directory { name, dir: SourceDir::Listing(children) } => {
            let inner = child_key(empty, name@);
            if file_at(children@, 0, inner, key, text) {
                assert(is_entry_name(name@));
                lemma_nested_key(children@, 0, inner, key, text);
                assert(key.take(inner.len() as int + 1)[inner.len() as int] == inner.push(
                    '/',
                )[inner.len() as int]);
                assert(key[inner.len() as int] == '/');
                assert(false);
            }
        },
        _ => {},
    }
    lemma_root_file(entries, from + 1, key, text)
}

/// Where an entry called `name` stands at position `at` and no name stands
/// twice, looking for `name` finds that entry.
pub proof fn lemma_entry_named_finds(
    entries: Seq<SourceEntry>,
    name: Seq<char>,
    from: int,
    at: int,
)
    requires
        0 <= from <= at < entries.len(),
        entries[at].name() == Some(name),
        distinct_names(entries),
    ensures
        entry_named(entries, name, from) == Some(at),
    decreases at - from,
{
    if from < at {
        assert(entries[from].name() != entries[at].name());
        lemma_entry_named_finds(entries, name, from + 1, at);
    }
}

/// A walk over entries that can all be read gets through.
pub proof fn lemma_walked_readable(
    entries: Seq<SourceEntry>,
    from: int,
    prefix: Seq<char>,
    so_far: Gathered,
)
    requires
        readable(entries, from),
    ensures
        walked(entries, from, prefix, so_far) is Ok,
    decreases entries, entries.len() - from,
{
    if 0 <= from < entries.len() {
        match entries[from] {
            SourceEntry::File { name, content } => {
                let key = child_key(prefix, name@);
                if prefix.len() == 0 && is_required(name@) {
                    lemma_walked_readable(entries, from + 1, prefix, so_far);
                } else {
                    match content {
                        FileContent::Text(text) => {
                            let next = Gathered { files: put(so_far.files, key, text@), ..so_far };
                            lemma_walked_readable(entries, from + 1, prefix, next);
                        },
                        FileContent::Unreadable(_) => {},
                    }
                }
            },
            SourceEntry::Directory { name, dir } => {
                match dir {
                    SourceDir::Listing(children) => {
                        let inner = child_key(prefix, name@);
                        lemma_walked_readable(children@, 0, inner, so_far);
                        match walked(children@, 0, inner, so_far) {
                            Ok(gathered) => {
                                lemma_walked_readable(entries, from + 1, prefix, gathered);
                            },
                            Err(_) => {},
                        }
                    },
                    SourceDir::Unreadable(_) => {},
                }
            },
            _ => {},
        }
    }
}

/// Setting a path to the content that `disk` has for it keeps the pairs in
/// agreement with `disk`.
pub proof fn lemma_put_agrees(
    pairs: Seq<(Seq<char>, Seq<char>)>,
    disk: Map<Seq<char>, Seq<char>>,
    path: Seq<char>,
    content: Seq<char>,
)
    requires
        agrees(pairs, disk),
        disk.dom().contains(path),
        disk[path] == content,
    ensures
        agrees(put(pairs, path, content), disk),
{
    let after = put(pairs, path, content);
    assert forall|i: int| 0 <= i < after.len() implies disk.dom().contains(
        (#[trigger] after[i]).0,
    ) && disk[after[i].0] == after[i].1 by {
        if i < pairs.len() && after[i] != (path, content) {
            assert(after[i] == pairs[i]);
        }
    }
}

/// A walk over files that are all files of `disk` keeps what is gathered
/// in agreement with `disk`.
pub proof fn lemma_walked_agrees(
    entries: Seq<SourceEntry>,
    from: int,
    prefix: Seq<char>,
    so_far: Gathered,
    disk: Map<Seq<char>, Seq<char>>,
)
    requires
        agrees(so_far.files, disk),
        forall|key: Seq<char>, text: Seq<char>| #[trigger]
            file_at(entries, from, prefix, key, text) ==> disk.dom().contains(key) && disk[key]
                == text,
    ensures
        walked(entries, from, prefix, so_far) matches Ok(gathered) ==> agrees(gathered.files, disk),
    decreases entries, entries.len() - from,
{
    if 0 <= from < entries.len() {
        assert forall|key: Seq<char>, text: Seq<char>| #[trigger]
            file_at(entries, from + 1, prefix, key, text) implies disk.dom().contains(key)
            && disk[key] == text by {
            assert(file_at(entries, from, prefix, key, text));
        }
        match entries[from] {
            SourceEntry::File { name, content } => {
                let key = child_key(prefix, name@);
                if prefix.len() == 0 && is_required(name@) {
                    lemma_walked_agrees(entries, from + 1, prefix, so_far, disk);
                } else {
                    match content {
                        FileContent::Text(text) => {
                            let next = Gathered { files: put(so_far.files, key, text@), ..so_far };
                            assert(file_at(entries, from, prefix, key, text@));
                            lemma_put_agrees(so_far.files, disk, key, text@);
                            lemma_walked_agrees(entries, from + 1, prefix, next, disk);
                        },
                        FileContent::Unreadable(_) => {
                            let next = Gathered { skipped: so_far.skipped.push(key), ..so_far };
                            lemma_walked_agrees(entries, from + 1, prefix, next, disk);
                        },
                    }
                }
            },
            SourceEntry::Directory { name, dir } => {
                match dir {
                    SourceDir::Listing(children) => {
                        let inner = child_key(prefix, name@);
                        assert forall|key: Seq<char>, text: Seq<char>| #[trigger]
                            file_at(children@, 0, inner, key, text) implies disk.dom().contains(
                            key,
                        ) && disk[key] == text by {
                            assert(file_at(entries, from, prefix, key, text));
                        }
                        lemma_walked_agrees(children@, 0, inner, so_far, disk);
                        match walked(children@, 0, inner, so_far) {
                            Ok(gathered) => {
                                lemma_walked_agrees(entries, from + 1, prefix, gathered, disk);
                            },
                            Err(_) => {},
                        }
                    },
                    SourceDir::Unreadable(_) => {},
                }
            },
            SourceEntry::Other { .. } => {
                lemma_walked_agrees(entries, from + 1, prefix, so_far, disk);
            },
            SourceEntry::Broken { .. } => {},
        }
    }
}

/// A key that the walk stores is the key of a file with some text.
pub proof fn lemma_held_is_file(
    entries: Seq<SourceEntry>,
    from: int,
    prefix: Seq<char>,
    key: Seq<char>,
) -> (text: Seq<char>)
    requires
        holds_text_file(entries, from, prefix, key),
    ensures
        file_at(entries, from, prefix, key, text),
    decreases entries, entries.len() - from,
{
    match entries[from] {
        SourceEntry::File { name, content: FileContent::Text(held) } => {
            if !(prefix.len() == 0 && is_required(name@)) && child_key(prefix, name@) == key {
                return held@;
            }
        },
        SourceEntry::Directory { name, dir: SourceDir::Listing(children) } => {
            if holds_text_file(children@, 0, child_key(prefix, name@), key) {
                return lemma_held_is_file(children@, 0, child_key(prefix, name@), key);
            }
        },
        _ => {},
    }
    lemma_held_is_file(entries, from + 1, prefix, key)
}

/// The key of a file with text is stored by the walk, unless it is one of
/// the two required files.
pub proof fn lemma_file_is_held(
    entries: Seq<SourceEntry>,
    from: int,
    prefix: Seq<char>,
    key: Seq<char>,
    text: Seq<char>,
)
    requires
        file_at(entries, from, prefix, key, text),
    ensures
        holds_text_file(entries, from, prefix, key) || is_required(key),
    decreases entries, entries.len() - from,
{
    match entries[from] {
        SourceEntry::File { name, content: FileContent::Text(held) } => {
            if child_key(prefix, name@) == key && held@ == text {
                return ;
            }
        },
        SourceEntry::Directory { name, dir: SourceDir::Listing(children) } => {
            if file_at(children@, 0, child_key(prefix, name@), key, text) {
                lemma_file_is_held(children@, 0, child_key(prefix, name@), key, text);
                return ;
            }
        },
        _ => {},
    }
    lemma_file_is_held(entries, from + 1, prefix, key, text);
}

/// A required file of `disk` is found at the root of a listing that shows
/// `disk`, with the text that `disk` has for it.
pub proof fn lemma_required_shown(
    entries: Vec<SourceEntry>,
    disk: Map<Seq<char>, Seq<char>>,
    name: Seq<char>,
)
    requires
        shows(SourceDir::Listing(entries), disk),
        disk.dom().contains(name),
        is_entry_name(name),
    ensures
        required_text(entries@, name) == Ok::<Seq<char>, ErrorView>(disk[name]),
{
    assert(file_at(entries@, 0, Seq::<char>::empty(), name, disk[name]));
    let at = lemma_root_file(entries@, 0, name, disk[name]);
    lemma_entry_named_finds(entries@, name, 0, at);
}

/// Loading a listing that shows the files of `disk`, the two required ones
/// among them, gives exactly the mapping `disk`, and passes no file over.
pub proof fn lemma_loaded_shows(dir: SourceDir, disk: Map<Seq<char>, Seq<char>>)
    requires
        shows(dir, disk),
        disk.dom().contains(MAIN_CPP@),
        disk.dom().contains(CMAKE_LISTS@),
    ensures
        loaded(dir) matches Ok(gathered) && pairs_map(gathered.files) == disk,
{
    let entries = dir->Listing_0;
    let empty = Seq::<char>::empty();
    lemma_required_names();
    lemma_required_shown(entries, disk, MAIN_CPP@);
    lemma_required_shown(entries, disk, CMAKE_LISTS@);
    let start = Gathered {
        files: embedded_pairs(disk[MAIN_CPP@], disk[CMAKE_LISTS@]),
        skipped: Seq::<Seq<char>>::empty(),
    };
    lemma_walked_readable(entries@, 0, empty, start);
    assert(agrees(start.files, disk));
    lemma_walked_agrees(entries@, 0, empty, start, disk);
    lemma_loaded_complete(dir);
    lemma_loaded_keys(dir);
    let gathered = loaded(dir)->Ok_0;
    assert(loaded(dir) == walked(entries@, 0, empty, start));
    assert forall|key: Seq<char>| #[trigger]
        pairs_map(gathered.files).dom().contains(key) <==> disk.dom().contains(key) by {
        if has_path(gathered.files, key) && !is_required(key) {
            assert(text_file_in(dir, key));
            let text = lemma_held_is_file(entries@, 0, empty, key);
            assert(file_at(entries@, 0, empty, key, text));
        }
        if disk.dom().contains(key) {
            assert(file_at(entries@, 0, empty, key, disk[key]));
            lemma_file_is_held(entries@, 0, empty, key, disk[key]);
        }
    }
    assert forall|key: Seq<char>| #[trigger]
        pairs_map(gathered.files).dom().contains(key) implies pairs_map(gathered.files)[key]
        == disk[key] by {
        let at = position(gathered.files, key);
        assert(path_at(gathered.files, key, at));
        lemma_pairs_map_at(gathered.files, at);
    }
    assert(pairs_map(gathered.files) =~= disk);
}

/// Writing a complete template out and loading it again gives the same
/// template: where the listing of the destination shows exactly what the
/// plan wrote, the load succeeds with the same keys and the same content
/// for every key.
pub proof fn lemma_copy_then_load(pairs: Seq<(Seq<char>, Seq<char>)>, dir: SourceDir)
    requires
        distinct_paths(pairs),
        has_path(pairs, MAIN_CPP@),
        has_path(pairs, CMAKE_LISTS@),
        shows(dir, written(steps_of(pairs))),
    ensures
        loaded(dir) matches Ok(gathered) && pairs_map(gathered.files) == pairs_map(pairs),
{
    lemma_written_is_mapping(pairs);
    lemma_loaded_shows(dir, pairs_map(pairs));
}

} // verus!
