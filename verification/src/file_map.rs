//! A map from relative path to file content that remembers the order in
//! which paths were first inserted.

use vstd::prelude::*;
use vstd::string::*;
use crate::paths::is_inside;
use crate::text::same_string;

verus! {

/// No path stands twice in `pairs`.
pub open spec fn distinct_paths(pairs: Seq<(Seq<char>, Seq<char>)>) -> bool {
    forall|i: int, j: int|
        0 <= i < j < pairs.len() ==> (#[trigger] pairs[i]).0 != (#[trigger] pairs[j]).0
}

/// Every path of `pairs` lies strictly inside the root.
pub open spec fn all_inside(pairs: Seq<(Seq<char>, Seq<char>)>) -> bool {
    forall|i: int| 0 <= i < pairs.len() ==> is_inside(#[trigger] pairs[i].0)
}

/// `path` stands in `pairs` at position `at`.
pub open spec fn path_at(pairs: Seq<(Seq<char>, Seq<char>)>, path: Seq<char>, at: int) -> bool {
    0 <= at < pairs.len() && pairs[at].0 == path
}

/// `path` stands somewhere in `pairs`.
pub open spec fn has_path(pairs: Seq<(Seq<char>, Seq<char>)>, path: Seq<char>) -> bool {
    exists|at: int| path_at(pairs, path, at)
}

/// A position of `path` in `pairs`, where it has one.
pub open spec fn position(pairs: Seq<(Seq<char>, Seq<char>)>, path: Seq<char>) -> int {
    choose|at: int| path_at(pairs, path, at)
}

/// The mapping that `pairs` stands for.
pub open spec fn pairs_map(pairs: Seq<(Seq<char>, Seq<char>)>) -> Map<Seq<char>, Seq<char>> {
    Map::new(|path: Seq<char>| has_path(pairs, path), |path: Seq<char>| pairs[position(pairs, path)].1)
}

/// `pairs` after setting the content of `path`: replaced in place where the
/// path is present, added at the end where it is not.
pub open spec fn put(
    pairs: Seq<(Seq<char>, Seq<char>)>,
    path: Seq<char>,
    content: Seq<char>,
) -> Seq<(Seq<char>, Seq<char>)> {
    if has_path(pairs, path) {
        pairs.update(position(pairs, path), (path, content))
    } else {
        pairs.push((path, content))
    }
}

/// Setting a path keeps paths distinct and is insertion on the mapping.
pub proof fn lemma_put(pairs: Seq<(Seq<char>, Seq<char>)>, path: Seq<char>, content: Seq<char>)
    requires
        distinct_paths(pairs),
    ensures
        distinct_paths(put(pairs, path, content)),
        pairs_map(put(pairs, path, content)) == pairs_map(pairs).insert(path, content),
        has_path(put(pairs, path, content), path),
        forall|other: Seq<char>|
            other != path ==> (has_path(put(pairs, path, content), other) <==> has_path(
                pairs,
                other,
            )),
{
    let after = put(pairs, path, content);
    let at = if has_path(pairs, path) {
        position(pairs, path)
    } else {
        pairs.len() as int
    };
    assert(path_at(after, path, at));
    assert forall|i: int, j: int| 0 <= i < j < after.len() implies (#[trigger] after[i]).0 != (
    #[trigger] after[j]).0 by {
        if j < pairs.len() {
            assert(pairs[i].0 != pairs[j].0);
        } else {
            assert(!path_at(pairs, path, i));
        }
    }
    assert forall|other: Seq<char>| other != path implies (has_path(after, other) <==> has_path(
        pairs,
        other,
    )) by {
        if has_path(after, other) {
            let k = position(after, other);
            assert(path_at(pairs, other, k));
        }
        if has_path(pairs, other) {
            let k = position(pairs, other);
            assert(path_at(after, other, k));
        }
    }
    assert forall|key: Seq<char>| #[trigger]
        pairs_map(after).dom().contains(key) <==> pairs_map(pairs).insert(
            path,
            content,
        ).dom().contains(key) by {}
    assert forall|key: Seq<char>| pairs_map(after).dom().contains(key) implies #[trigger] pairs_map(
        after,
    )[key] == pairs_map(pairs).insert(path, content)[key] by {
        let k = position(after, key);
        assert(path_at(after, key, k));
        if key == path {
            if k < at {
                assert(after[k].0 != after[at].0);
            }
            if at < k {
                assert(after[at].0 != after[k].0);
            }
        } else {
            assert(path_at(pairs, key, k));
            let k0 = position(pairs, key);
            assert(path_at(pairs, key, k0));
            if k0 < k {
                assert(pairs[k0].0 != pairs[k].0);
            }
            if k < k0 {
                assert(pairs[k].0 != pairs[k0].0);
            }
        }
    }
    assert(pairs_map(after) =~= pairs_map(pairs).insert(path, content));
}

/// With distinct paths, each pair is what the mapping holds for its path.
pub proof fn lemma_pairs_map_at(pairs: Seq<(Seq<char>, Seq<char>)>, at: int)
    requires
        distinct_paths(pairs),
        0 <= at < pairs.len(),
    ensures
        pairs_map(pairs).dom().contains(pairs[at].0),
        pairs_map(pairs)[pairs[at].0] == pairs[at].1,
{
    let path = pairs[at].0;
    assert(path_at(pairs, path, at));
    let k = position(pairs, path);
    assert(path_at(pairs, path, k));
    if k < at {
        assert(pairs[k].0 != pairs[at].0);
    }
    if at < k {
        assert(pairs[at].0 != pairs[k].0);
    }
}

/// Files by relative path, in the order in which the paths were first set.
#[derive(Debug)]
pub struct FileMap {
    entries: Vec<(String, String)>,
}

impl View for FileMap {
    type V = Map<Seq<char>, Seq<char>>;

    /// The mapping from path to content.
    open spec fn view(&self) -> Map<Seq<char>, Seq<char>> {
        pairs_map(self.pairs())
    }
}

impl FileMap {
    /// The (path, content) pairs in stored order.
    pub closed spec fn pairs(&self) -> Seq<(Seq<char>, Seq<char>)> {
        Seq::new(self.entries@.len(), |i: int| (self.entries@[i].0@, self.entries@[i].1@))
    }

    /// No path is stored twice. This holds of every map at all times.
    #[verifier::type_invariant]
    pub open spec fn distinct(&self) -> bool {
        distinct_paths(self.pairs())
    }

    /// An empty map.
    pub fn new() -> (files: FileMap)
        ensures
            files.pairs() == Seq::<(Seq<char>, Seq<char>)>::empty(),
    {
        let files = FileMap { entries: Vec::new() };
        assert(files.pairs() =~= Seq::<(Seq<char>, Seq<char>)>::empty());
        files
    }

    /// The number of files.
    pub fn len(&self) -> (count: usize)
        ensures
            count == self.pairs().len(),
            distinct_paths(self.pairs()),
    {
        proof {
            use_type_invariant(self);
        }
        self.entries.len()
    }

    /// Where `path` is stored, if it is.
    fn find(&self, path: &str) -> (found: Option<usize>)
        ensures
            distinct_paths(self.pairs()),
            match found {
                Some(at) => path_at(self.pairs(), path@, at as int),
                None => !has_path(self.pairs(), path@),
            },
    {
        proof {
            use_type_invariant(self);
        }
        let wanted = String::from_str(path);
        let mut i: usize = 0;
        while i < self.entries.len()
            invariant
                i <= self.entries.len(),
                wanted@ == path@,
                self.entries@.len() == self.pairs().len(),
                distinct_paths(self.pairs()),
                forall|k: int| 0 <= k < i ==> (#[trigger] self.pairs()[k]).0 != path@,
            decreases self.entries.len() - i,
        {
            if same_string(&self.entries[i].0, &wanted) {
                return Some(i);
            }
            i += 1;
        }
        None
    }

    /// Whether the map holds a file at `path`.
    pub fn contains_key(&self, path: &str) -> (present: bool)
        ensures
            present == self@.dom().contains(path@),
            present == has_path(self.pairs(), path@),
    {
        self.find(path).is_some()
    }

    /// The content stored at `path`.
    pub fn get(&self, path: &str) -> (content: Option<&String>)
        ensures
            match content {
                Some(text) => self@.dom().contains(path@) && text@ == self@[path@],
                None => !self@.dom().contains(path@),
            },
    {
        match self.find(path) {
            Some(at) => {
                proof {
                    lemma_pairs_map_at(self.pairs(), at as int);
                }
                Some(&self.entries[at].1)
            },
            None => None,
        }
    }

    /// The path and content stored at position `at`, in stored order.
    pub fn entry(&self, at: usize) -> (pair: Option<(&String, &String)>)
        ensures
            distinct_paths(self.pairs()),
            match pair {
                Some((path, content)) => at < self.pairs().len() && (path@, content@)
                    == self.pairs()[at as int],
                None => at >= self.pairs().len(),
            },
    {
        proof {
            use_type_invariant(self);
        }
        if at < self.entries.len() {
            Some((&self.entries[at].0, &self.entries[at].1))
        } else {
            None
        }
    }

    /// Sets the content of `path`, replacing what was stored there.
    pub fn insert(&mut self, path: String, content: String)
        ensures
            final(self).pairs() == put(old(self).pairs(), path@, content@),
            final(self)@ == old(self)@.insert(path@, content@),
            distinct_paths(final(self).pairs()),
    {
        let ghost before = self.pairs();
        proof {
            use_type_invariant(&*self);
            lemma_put(before, path@, content@);
        }
        let found = self.find(path.as_str());
        let mut entries: Vec<(String, String)> = Vec::new();
        core::mem::swap(&mut self.entries, &mut entries);
        match found {
            Some(at) => {
                proof {
                    let k = position(before, path@);
                    assert(path_at(before, path@, k));
                    if k < at {
                        assert(before[k].0 != before[at as int].0);
                    }
                    if at < k {
                        assert(before[at as int].0 != before[k].0);
                    }
                }
                entries.set(at, (path, content));
            },
            None => {
                entries.push((path, content));
            },
        }
        proof {
            let after = FileMap { entries };
            assert(after.pairs() =~= put(before, path@, content@));
        }
        self.entries = entries;
    }
}

impl Clone for FileMap {
    /// A copy with the same pairs in the same order.
    fn clone(&self) -> (copy: FileMap)
        ensures
            copy.pairs() == self.pairs(),
    {
        proof {
            use_type_invariant(self);
        }
        let mut entries: Vec<(String, String)> = Vec::new();
        let mut i: usize = 0;
        while i < self.entries.len()
            invariant
                i <= self.entries.len(),
                entries@.len() == i,
                forall|k: int|
                    0 <= k < i ==> (#[trigger] entries@[k]).0@ == self.entries@[k].0@
                        && entries@[k].1@ == self.entries@[k].1@,
            decreases self.entries.len() - i,
        {
            entries.push((self.entries[i].0.clone(), self.entries[i].1.clone()));
            i += 1;
        }
        proof {
            let copy = FileMap { entries };
            assert(copy.pairs() =~= self.pairs());
        }
        FileMap { entries }
    }
}

} // verus!
