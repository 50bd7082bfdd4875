//! Loading a template from what was found in its directory.

use vstd::prelude::*;
use vstd::string::*;
use crate::error::{ErrorView, ProconError};
use crate::file_map::{
    all_inside, distinct_paths, has_path, lemma_put, path_at, put, FileMap,
};
use crate::paths::{child, child_key, is_entry_name, is_inside, lemma_child_key_inside};
use crate::source::{FileContent, SourceDir, SourceEntry};
use crate::template::{embedded_pairs, is_required, lemma_embedded_pairs, CMAKE_LISTS, MAIN_CPP};
use crate::text::{same_string, same_text};

verus! {

/// The first position at or after `from` of an entry called `name`.
pub open spec fn entry_named(entries: Seq<SourceEntry>, name: Seq<char>, from: int) -> Option<int>
    decreases entries.len() - from,
{
    if from < 0 || from >= entries.len() {
        None
    } else if entries[from].name() == Some(name) {
        Some(from)
    } else {
        entry_named(entries, name, from + 1)
    }
}

/// The error for a template that lacks the required file `name`.
pub open spec fn missing(name: Seq<char>) -> ErrorView {
    ErrorView::TemplateNotFound(name + " not found in template"@)
}

/// The text of the required file `name` among the root `entries`, or why the
/// template cannot be used: the file is missing, or what stands under its
/// name cannot be read as text.
pub open spec fn required_text(entries: Seq<SourceEntry>, name: Seq<char>) -> Result<
    Seq<char>,
    ErrorView,
> {
    match entry_named(entries, name, 0) {
        None => Err(missing(name)),
        Some(at) => match entries[at] {
            SourceEntry::File { content: FileContent::Text(text), .. } => Ok(text@),
            SourceEntry::File { content: FileContent::Unreadable(reason), .. } => Err(
                ErrorView::Io(reason@),
            ),
            _ => Err(ErrorView::Io(name + " is not a regular file"@)),
        },
    }
}

/// What a walk has gathered: the files by key, in the order in which their
/// keys were first met, and the keys of the files that were passed over
/// because they could not be read as text.
pub struct Gathered {
    pub files: Seq<(Seq<char>, Seq<char>)>,
    pub skipped: Seq<Seq<char>>,
}

/// The walk over `entries` from position `from`, inside the directory whose
/// key is `prefix`, starting with what was gathered `so_far`.
///
/// Entries are taken in order and a subdirectory is walked in full where it
/// stands. A file is stored under its key, except the two required files at
/// the root, which are loaded beforehand; a file without text is passed over
/// and noted; what is neither file nor directory is ignored. The first
/// directory that could not be listed, or break in a listing, ends the walk
/// with its reason.
pub open spec fn walked(
    entries: Seq<SourceEntry>,
    from: int,
    prefix: Seq<char>,
    so_far: Gathered,
) -> Result<Gathered, ErrorView>
    decreases entries, entries.len() - from,
{
    if from < 0 || from >= entries.len() {
        Ok(so_far)
    } else {
        match entries[from] {
            SourceEntry::File { name, content } => {
                let key = child_key(prefix, name@);
                if prefix.len() == 0 && is_required(name@) {
                    walked(entries, from + 1, prefix, so_far)
                } else {
                    match content {
                        FileContent::Text(text) => walked(
                            entries,
                            from + 1,
                            prefix,
                            Gathered { files: put(so_far.files, key, text@), ..so_far },
                        ),
                        FileContent::Unreadable(_) => walked(
                            entries,
                            from + 1,
                            prefix,
                            Gathered { skipped: so_far.skipped.push(key), ..so_far },
                        ),
                    }
                }
            },
            SourceEntry::Directory { name, dir } => match dir {
                SourceDir::Listing(children) => match walked(
                    children@,
                    0,
                    child_key(prefix, name@),
                    so_far,
                ) {
                    Ok(inner) => walked(entries, from + 1, prefix, inner),
                    Err(error) => Err(error),
                },
                SourceDir::Unreadable(reason) => Err(ErrorView::Io(reason@)),
            },
            SourceEntry::Other { .. } => walked(entries, from + 1, prefix, so_far),
            SourceEntry::Broken { reason } => Err(ErrorView::Io(reason@)),
        }
    }
}

/// What loading the template directory `dir` gives: the two required files
/// first, then everything the walk finds.
pub open spec fn loaded(dir: SourceDir) -> Result<Gathered, ErrorView> {
    match dir {
        SourceDir::Unreadable(reason) => Err(ErrorView::Io(reason@)),
        SourceDir::Listing(entries) => match required_text(entries@, MAIN_CPP@) {
            Err(error) => Err(error),
            Ok(main_cpp) => match required_text(entries@, CMAKE_LISTS@) {
                Err(error) => Err(error),
                Ok(cmake) => walked(
                    entries@,
                    0,
                    Seq::<char>::empty(),
                    Gathered {
                        files: embedded_pairs(main_cpp, cmake),
                        skipped: Seq::<Seq<char>>::empty(),
                    },
                ),
            },
        },
    }
}

/// What has been gathered when the walk ends, whether it got through or
/// broke off at an error: in the second case, what was gathered up to the
/// entry that failed.
pub open spec fn reached(
    entries: Seq<SourceEntry>,
    from: int,
    prefix: Seq<char>,
    so_far: Gathered,
) -> Gathered
    decreases entries, entries.len() - from,
{
    if from < 0 || from >= entries.len() {
        so_far
    } else {
        match entries[from] {
            SourceEntry::File { name, content } => {
                let key = child_key(prefix, name@);
                if prefix.len() == 0 && is_required(name@) {
                    reached(entries, from + 1, prefix, so_far)
                } else {
                    match content {
                        FileContent::Text(text) => reached(
                            entries,
                            from + 1,
                            prefix,
                            Gathered { files: put(so_far.files, key, text@), ..so_far },
                        ),
                        FileContent::Unreadable(_) => reached(
                            entries,
                            from + 1,
                            prefix,
                            Gathered { skipped: so_far.skipped.push(key), ..so_far },
                        ),
                    }
                }
            },
            SourceEntry::Directory { name, dir } => match dir {
                SourceDir::Listing(children) => match walked(
                    children@,
                    0,
                    child_key(prefix, name@),
                    so_far,
                ) {
                    Ok(inner) => reached(entries, from + 1, prefix, inner),
                    Err(_) => reached(children@, 0, child_key(prefix, name@), so_far),
                },
                SourceDir::Unreadable(_) => so_far,
            },
            SourceEntry::Other { .. } => reached(entries, from + 1, prefix, so_far),
            SourceEntry::Broken { .. } => so_far,
        }
    }
}

/// A walk that gets through has reached what it gives.
pub proof fn lemma_walked_reached(
    entries: Seq<SourceEntry>,
    from: int,
    prefix: Seq<char>,
    so_far: Gathered,
)
    ensures
        walked(entries, from, prefix, so_far) matches Ok(gathered) ==> reached(
            entries,
            from,
            prefix,
            so_far,
        ) == gathered,
    decreases entries, entries.len() - from,
{
    if 0 <= from < entries.len() {
        match entries[from] {
            SourceEntry::File { name, content } => {
                let key = child_key(prefix, name@);
                if prefix.len() == 0 && is_required(name@) {
                    lemma_walked_reached(entries, from + 1, prefix, so_far);
                } else {
                    match content {
                        FileContent::Text(text) => {
                            let next = Gathered { files: put(so_far.files, key, text@), ..so_far };
                            lemma_walked_reached(entries, from + 1, prefix, next);
                        },
                        FileContent::Unreadable(_) => {
                            let next = Gathered { skipped: so_far.skipped.push(key), ..so_far };
                            lemma_walked_reached(entries, from + 1, prefix, next);
                        },
                    }
                }
            },
            SourceEntry::Directory { name, dir } => {
                match dir {
                    SourceDir::Listing(children) => {
                        match walked(children@, 0, child_key(prefix, name@), so_far) {
                            Ok(inner) => {
                                lemma_walked_reached(entries, from + 1, prefix, inner);
                            },
                            Err(_) => {},
                        }
                    },
                    SourceDir::Unreadable(_) => {},
                }
            },
            SourceEntry::Other { .. } => {
                lemma_walked_reached(entries, from + 1, prefix, so_far);
            },
            SourceEntry::Broken { .. } => {},
        }
    }
}

/// A walk only adds, also where it breaks off: paths stay distinct, and
/// every path gathered before the walk is still there when it ends.
pub proof fn lemma_reached_extends(
    entries: Seq<SourceEntry>,
    from: int,
    prefix: Seq<char>,
    so_far: Gathered,
)
    requires
        distinct_paths(so_far.files),
    ensures
        distinct_paths(reached(entries, from, prefix, so_far).files),
        forall|path: Seq<char>|
            has_path(so_far.files, path) ==> has_path(
                reached(entries, from, prefix, so_far).files,
                path,
            ),
    decreases entries, entries.len() - from,
{
    if 0 <= from < entries.len() {
        match entries[from] {
            SourceEntry::File { name, content } => {
                let key = child_key(prefix, name@);
                if prefix.len() == 0 && is_required(name@) {
                    lemma_reached_extends(entries, from + 1, prefix, so_far);
                } else {
                    match content {
                        FileContent::Text(text) => {
                            let next = Gathered { files: put(so_far.files, key, text@), ..so_far };
                            lemma_put(so_far.files, key, text@);
                            lemma_reached_extends(entries, from + 1, prefix, next);
                        },
                        FileContent::Unreadable(_) => {
                            let next = Gathered { skipped: so_far.skipped.push(key), ..so_far };
                            lemma_reached_extends(entries, from + 1, prefix, next);
                        },
                    }
                }
            },
            SourceEntry::Directory { name, dir } => {
                match dir {
                    SourceDir::Listing(children) => {
                        let inner_prefix = child_key(prefix, name@);
                        lemma_reached_extends(children@, 0, inner_prefix, so_far);
                        match walked(children@, 0, inner_prefix, so_far) {
                            Ok(inner) => {
                                lemma_walked_reached(children@, 0, inner_prefix, so_far);
                                lemma_reached_extends(entries, from + 1, prefix, inner);
                            },
                            Err(_) => {},
                        }
                    },
                    SourceDir::Unreadable(_) => {},
                }
            },
            SourceEntry::Other { .. } => {
                lemma_reached_extends(entries, from + 1, prefix, so_far);
            },
            SourceEntry::Broken { .. } => {},
        }
    }
}

/// A walk that gets through only adds: paths stay distinct, and every path
/// gathered before the walk is still there after it.
pub proof fn lemma_walked_extends(
    entries: Seq<SourceEntry>,
    from: int,
    prefix: Seq<char>,
    so_far: Gathered,
)
    requires
        distinct_paths(so_far.files),
    ensures
        walked(entries, from, prefix, so_far) matches Ok(gathered) ==> distinct_paths(
            gathered.files,
        ) && forall|path: Seq<char>|
            has_path(so_far.files, path) ==> has_path(gathered.files, path),
{
    lemma_walked_reached(entries, from, prefix, so_far);
    lemma_reached_extends(entries, from, prefix, so_far);
}

/// `key` is the key of a file with text among the entries from position
/// `from` on or below one of them, the two required files at the root
/// aside. `prefix` is the key of the directory that `entries` lists.
pub open spec fn holds_text_file(
    entries: Seq<SourceEntry>,
    from: int,
    prefix: Seq<char>,
    key: Seq<char>,
) -> bool
    decreases entries, entries.len() - from,
{
    if from < 0 || from >= entries.len() {
        false
    } else {
        ||| match entries[from] {
            SourceEntry::File { name, content: FileContent::Text(_) } => !(prefix.len() == 0
                && is_required(name@)) && child_key(prefix, name@) == key,
            SourceEntry::Directory { name, dir: SourceDir::Listing(children) } => holds_text_file(
                children@,
                0,
                child_key(prefix, name@),
                key,
            ),
            _ => false,
        }
        ||| holds_text_file(entries, from + 1, prefix, key)
    }
}

/// `key` is the key of a file with text in the directory `dir` or below it,
/// the two required files at the root aside.
pub open spec fn text_file_in(dir: SourceDir, key: Seq<char>) -> bool {
    match dir {
        SourceDir::Listing(entries) => holds_text_file(entries@, 0, Seq::<char>::empty(), key),
        SourceDir::Unreadable(_) => false,
    }
}

/// After a walk that gets through, a key is present exactly when it was
/// present before or is the key of a file with text that the walk passed.
pub proof fn lemma_walked_keys(
    entries: Seq<SourceEntry>,
    from: int,
    prefix: Seq<char>,
    so_far: Gathered,
)
    requires
        distinct_paths(so_far.files),
    ensures
        walked(entries, from, prefix, so_far) matches Ok(gathered) ==> forall|key: Seq<char>|
            #[trigger] has_path(gathered.files, key) <==> has_path(so_far.files, key)
                || holds_text_file(entries, from, prefix, key),
    decreases entries, entries.len() - from,
{
    if 0 <= from < entries.len() {
        match entries[from] {
            SourceEntry::File { name, content } => {
                let key = child_key(prefix, name@);
                if prefix.len() == 0 && is_required(name@) {
                    lemma_walked_keys(entries, from + 1, prefix, so_far);
                } else {
                    match content {
                        FileContent::Text(text) => {
                            let next = Gathered { files: put(so_far.files, key, text@), ..so_far };
                            lemma_put(so_far.files, key, text@);
                            lemma_walked_keys(entries, from + 1, prefix, next);
                        },
                        FileContent::Unreadable(_) => {
                            let next = Gathered { skipped: so_far.skipped.push(key), ..so_far };
                            lemma_walked_keys(entries, from + 1, prefix, next);
                        },
                    }
                }
            },
            SourceEntry::Directory { name, dir } => {
                match dir {
                    SourceDir::Listing(children) => {
                        let inner_prefix = child_key(prefix, name@);
                        lemma_walked_keys(children@, 0, inner_prefix, so_far);
                        lemma_walked_extends(children@, 0, inner_prefix, so_far);
                        match walked(children@, 0, inner_prefix, so_far) {
                            Ok(inner) => {
                                lemma_walked_keys(entries, from + 1, prefix, inner);
                            },
                            Err(_) => {},
                        }
                    },
                    SourceDir::Unreadable(_) => {},
                }
            },
            SourceEntry::Other { .. } => {
                lemma_walked_keys(entries, from + 1, prefix, so_far);
            },
            SourceEntry::Broken { .. } => {},
        }
    }
}

/// The keys of a template that loads are the two required files and the
/// keys of the files with text in its directory, and no others. The order
/// of the listing plays no part in this.
pub proof fn lemma_loaded_keys(dir: SourceDir)
    ensures
        loaded(dir) matches Ok(gathered) ==> forall|key: Seq<char>|
            #[trigger] has_path(gathered.files, key) <==> is_required(key) || text_file_in(
                dir,
                key,
            ),
{
    if let SourceDir::Listing(entries) = dir {
        if let Ok(main_cpp) = required_text(entries@, MAIN_CPP@) {
            if let Ok(cmake) = required_text(entries@, CMAKE_LISTS@) {
                let start = Gathered {
                    files: embedded_pairs(main_cpp, cmake),
                    skipped: Seq::<Seq<char>>::empty(),
                };
                lemma_embedded_pairs(main_cpp, cmake);
                lemma_walked_keys(entries@, 0, Seq::<char>::empty(), start);
                assert forall|key: Seq<char>| #[trigger]
                    has_path(start.files, key) <==> is_required(key) by {
                    if has_path(start.files, key) {
                        let at = choose|at: int| path_at(start.files, key, at);
                        assert(path_at(start.files, key, at));
                    }
                }
            }
        }
    }
}

/// Every entry from position `from` on, and every entry below one of them,
/// has a proper name.
pub open spec fn well_named(entries: Seq<SourceEntry>, from: int) -> bool
    decreases entries, entries.len() - from,
{
    if from < 0 || from >= entries.len() {
        true
    } else {
        &&& match entries[from] {
            SourceEntry::File { name, .. } => is_entry_name(name@),
            SourceEntry::Directory { name, dir } => is_entry_name(name@) && match dir {
                SourceDir::Listing(children) => well_named(children@, 0),
                SourceDir::Unreadable(_) => true,
            },
            SourceEntry::Other { .. } => true,
            SourceEntry::Broken { .. } => true,
        }
        &&& well_named(entries, from + 1)
    }
}

/// Every entry in `dir` and below it has a proper name.
pub open spec fn well_named_dir(dir: SourceDir) -> bool {
    match dir {
        SourceDir::Listing(entries) => well_named(entries@, 0),
        SourceDir::Unreadable(_) => true,
    }
}

/// A walk over properly named entries gathers only keys that lie strictly
/// inside the root.
pub proof fn lemma_walked_inside(
    entries: Seq<SourceEntry>,
    from: int,
    prefix: Seq<char>,
    so_far: Gathered,
)
    requires
        well_named(entries, from),
        prefix.len() == 0 || is_inside(prefix),
        all_inside(so_far.files),
        forall|i: int| 0 <= i < so_far.skipped.len() ==> is_inside(#[trigger] so_far.skipped[i]),
    ensures
        walked(entries, from, prefix, so_far) matches Ok(gathered) ==> all_inside(gathered.files)
            && forall|i: int|
            0 <= i < gathered.skipped.len() ==> is_inside(#[trigger] gathered.skipped[i]),
    decreases entries, entries.len() - from,
{
    if 0 <= from < entries.len() {
        match entries[from] {
            SourceEntry::File { name, content } => {
                let key = child_key(prefix, name@);
                if prefix.len() == 0 && is_required(name@) {
                    lemma_walked_inside(entries, from + 1, prefix, so_far);
                } else {
                    lemma_child_key_inside(prefix, name@);
                    match content {
                        FileContent::Text(text) => {
                            let next = Gathered { files: put(so_far.files, key, text@), ..so_far };
                            assert forall|i: int| 0 <= i < next.files.len() implies is_inside(
                                #[trigger] next.files[i].0,
                            ) by {
                                if i < so_far.files.len() && next.files[i].0 != key {
                                    assert(next.files[i] == so_far.files[i]);
                                }
                            }
                            lemma_walked_inside(entries, from + 1, prefix, next);
                        },
                        FileContent::Unreadable(_) => {
                            let next = Gathered { skipped: so_far.skipped.push(key), ..so_far };
                            assert forall|i: int| 0 <= i < next.skipped.len() implies is_inside(
                                #[trigger] next.skipped[i],
                            ) by {
                                if i < so_far.skipped.len() {
                                    assert(next.skipped[i] == so_far.skipped[i]);
                                }
                            }
                            lemma_walked_inside(entries, from + 1, prefix, next);
                        },
                    }
                }
            },
            SourceEntry::Directory { name, dir } => {
                match dir {
                    SourceDir::Listing(children) => {
                        let inner_prefix = child_key(prefix, name@);
                        lemma_child_key_inside(prefix, name@);
                        lemma_walked_inside(children@, 0, inner_prefix, so_far);
                        match walked(children@, 0, inner_prefix, so_far) {
                            Ok(inner) => {
                                lemma_walked_inside(entries, from + 1, prefix, inner);
                            },
                            Err(_) => {},
                        }
                    },
                    SourceDir::Unreadable(_) => {},
                }
            },
            SourceEntry::Other { .. } => {
                lemma_walked_inside(entries, from + 1, prefix, so_far);
            },
            SourceEntry::Broken { .. } => {},
        }
    }
}

/// The names of the two required files are proper entry names.
pub proof fn lemma_required_names()
    ensures
        is_entry_name(MAIN_CPP@),
        is_entry_name(CMAKE_LISTS@),
        is_inside(MAIN_CPP@),
        is_inside(CMAKE_LISTS@),
        MAIN_CPP@ != CMAKE_LISTS@,
{
    reveal_strlit("main.cpp");
    reveal_strlit("CMakeLists.txt");
    assert(MAIN_CPP@.len() == 8);
    assert(CMAKE_LISTS@.len() == 14);
    assert(seq!['.'].len() == 1);
    assert(seq!['.', '.'].len() == 2);
    lemma_child_key_inside(Seq::<char>::empty(), MAIN_CPP@);
    lemma_child_key_inside(Seq::<char>::empty(), CMAKE_LISTS@);
}

/// Every key of a template loaded from a directory with properly named
/// entries denotes a path strictly inside the template's root: it is not
/// absolute and no part of it is `..`.
pub proof fn lemma_loaded_inside(dir: SourceDir)
    requires
        well_named_dir(dir),
    ensures
        loaded(dir) matches Ok(gathered) ==> all_inside(gathered.files) && forall|i: int|
            0 <= i < gathered.skipped.len() ==> is_inside(#[trigger] gathered.skipped[i]),
{
    if let SourceDir::Listing(entries) = dir {
    if let Ok(main_cpp) = required_text(entries@, MAIN_CPP@) {
        if let Ok(cmake) = required_text(entries@, CMAKE_LISTS@) {
            lemma_required_names();
            let start = Gathered {
                files: embedded_pairs(main_cpp, cmake),
                skipped: Seq::<Seq<char>>::empty(),
            };
            lemma_walked_inside(entries@, 0, Seq::<char>::empty(), start);
        }
    }
    }
}

/// Every template that loads is complete: both required files are among its
/// files, and no path stands twice.
pub proof fn lemma_loaded_complete(dir: SourceDir)
    ensures
        loaded(dir) matches Ok(gathered) ==> distinct_paths(gathered.files) && has_path(
            gathered.files,
            MAIN_CPP@,
        ) && has_path(gathered.files, CMAKE_LISTS@),
{
    if let SourceDir::Listing(entries) = dir {
        if let Ok(main_cpp) = required_text(entries@, MAIN_CPP@) {
            if let Ok(cmake) = required_text(entries@, CMAKE_LISTS@) {
                lemma_embedded_pairs(main_cpp, cmake);
                lemma_walked_extends(
                    entries@,
                    0,
                    Seq::<char>::empty(),
                    Gathered {
                        files: embedded_pairs(main_cpp, cmake),
                        skipped: Seq::<Seq<char>>::empty(),
                    },
                );
            }
        }
    }
}

/// A directory without an entry called `main.cpp` does not load: the error
/// names the missing file.
pub proof fn lemma_missing_main_cpp(entries: Vec<SourceEntry>)
    requires
        entry_named(entries@, MAIN_CPP@, 0) is None,
    ensures
        loaded(SourceDir::Listing(entries)) == Err::<Gathered, ErrorView>(missing(MAIN_CPP@)),
        missing(MAIN_CPP@) == ErrorView::TemplateNotFound(
            MAIN_CPP@ + " not found in template"@,
        ),
{
}

/// A directory without an entry called `CMakeLists.txt` does not load.
/// Where its `main.cpp` can be read, the error names `CMakeLists.txt`;
/// otherwise the error is that of `main.cpp`, which is looked at first.
pub proof fn lemma_missing_cmake_lists(entries: Vec<SourceEntry>)
    requires
        entry_named(entries@, CMAKE_LISTS@, 0) is None,
    ensures
        loaded(SourceDir::Listing(entries)) is Err,
        required_text(entries@, MAIN_CPP@) is Ok ==> loaded(SourceDir::Listing(entries)) == Err::<
            Gathered,
            ErrorView,
        >(missing(CMAKE_LISTS@)),
        required_text(entries@, MAIN_CPP@) matches Err(error) ==> loaded(
            SourceDir::Listing(entries),
        ) == Err::<Gathered, ErrorView>(error),
{
}

/// The texts of `names`, in order.
pub open spec fn texts(names: Seq<String>) -> Seq<Seq<char>> {
    Seq::new(names.len(), |i: int| names[i]@)
}

/// Whether `entry` is called `name`.
fn is_named(entry: &SourceEntry, name: &String) -> (same: bool)
    ensures
        same == (entry.name() == Some(name@)),
{
    match entry {
        SourceEntry::File { name: own, .. } => same_string(own, name),
        SourceEntry::Directory { name: own, .. } => same_string(own, name),
        SourceEntry::Other { name: own } => same_string(own, name),
        SourceEntry::Broken { .. } => false,
    }
}

/// The text of the required file `name` among the root `entries`.
pub(crate) fn load_required(entries: &Vec<SourceEntry>, name: &str) -> (outcome: Result<String, ProconError>)
    ensures
        match outcome {
            Ok(text) => required_text(entries@, name@) == Ok::<Seq<char>, ErrorView>(text@),
            Err(error) => required_text(entries@, name@) == Err::<Seq<char>, ErrorView>(error@),
        },
{
    let wanted = String::from_str(name);
    let mut i: usize = 0;
    while i < entries.len()
        invariant
            i <= entries.len(),
            wanted@ == name@,
            entry_named(entries@, name@, 0) == entry_named(entries@, name@, i as int),
        decreases entries.len() - i,
    {
        if is_named(&entries[i], &wanted) {
            return match &entries[i] {
                SourceEntry::File { content: FileContent::Text(text), .. } => Ok(text.clone()),
                SourceEntry::File { content: FileContent::Unreadable(reason), .. } => Err(
                    ProconError::Io(reason.clone()),
                ),
                _ => Err(
                    ProconError::Io(String::from_str(name).concat(" is not a regular file")),
                ),
            };
        }
        i += 1;
    }
    Err(ProconError::TemplateNotFound(String::from_str(name).concat(" not found in template")))
}

/// Walks `entries`, the listing of the directory whose key is `prefix`, and
/// stores every file found in `files` under its key. The keys of files
/// without text are added to `skipped`. After an error, `files` and
/// `skipped` hold what was gathered up to the entry that failed; no key that
/// was in `files` before is ever lost.
pub fn load_directory_recursively(
    entries: &Vec<SourceEntry>,
    prefix: &str,
    files: &mut FileMap,
    skipped: &mut Vec<String>,
) -> (outcome: Result<(), ProconError>)
    ensures
        match walked(
            entries@,
            0,
            prefix@,
            Gathered { files: old(files).pairs(), skipped: texts(old(skipped)@) },
        ) {
            Ok(gathered) => outcome is Ok && final(files).pairs() == gathered.files && texts(
                final(skipped)@,
            ) == gathered.skipped,
            Err(error) => outcome matches Err(found) && found@ == error,
        },
        final(files).pairs() == reached(
            entries@,
            0,
            prefix@,
            Gathered { files: old(files).pairs(), skipped: texts(old(skipped)@) },
        ).files,
        texts(final(skipped)@) == reached(
            entries@,
            0,
            prefix@,
            Gathered { files: old(files).pairs(), skipped: texts(old(skipped)@) },
        ).skipped,
        forall|path: Seq<char>|
            has_path(old(files).pairs(), path) ==> has_path(final(files).pairs(), path),
    decreases entries,
{
    let ghost start = Gathered { files: files.pairs(), skipped: texts(skipped@) };
    proof {
        use_type_invariant(&*files);
        lemma_reached_extends(entries@, 0, prefix@, start);
    }
    let mut i: usize = 0;
    while i < entries.len()
        invariant
            i <= entries.len(),
            start == (Gathered { files: old(files).pairs(), skipped: texts(old(skipped)@) }),
            forall|path: Seq<char>|
                has_path(start.files, path) ==> has_path(
                    reached(entries@, 0, prefix@, start).files,
                    path,
                ),
            reached(entries@, 0, prefix@, start) == reached(
                entries@,
                i as int,
                prefix@,
                Gathered { files: files.pairs(), skipped: texts(skipped@) },
            ),
            walked(entries@, 0, prefix@, start) == walked(
                entries@,
                i as int,
                prefix@,
                Gathered { files: files.pairs(), skipped: texts(skipped@) },
            ),
        decreases entries.len() - i,
    {
        match &entries[i] {
            SourceEntry::File { name, content } => {
                let at_root = prefix.is_empty();
                if !(at_root && (same_text(name.as_str(), MAIN_CPP) || same_text(
                    name.as_str(),
                    CMAKE_LISTS,
                ))) {
                    let key = child(prefix, name.as_str());
                    match content {
                        FileContent::Text(text) => {
                            files.insert(key, text.clone());
                        },
                        FileContent::Unreadable(_) => {
                            let ghost before = texts(skipped@);
                            skipped.push(key);
                            assert(texts(skipped@) =~= before.push(key@));
                        },
                    }
                }
            },
            SourceEntry::Directory { name, dir } => {
                match dir {
                    SourceDir::Listing(children) => {
                        let inner_prefix = child(prefix, name.as_str());
                        match load_directory_recursively(
                            children,
                            inner_prefix.as_str(),
                            files,
                            skipped,
                        ) {
                            Ok(_) => {},
                            Err(error) => {
                                return Err(error);
                            },
                        }
                    },
                    SourceDir::Unreadable(reason) => {
                        return Err(ProconError::Io(reason.clone()));
                    },
                }
            },
            SourceEntry::Other { .. } => {},
            SourceEntry::Broken { reason } => {
                return Err(ProconError::Io(reason.clone()));
            },
        }
        i += 1;
    }
    Ok(())
}

} // verus!
