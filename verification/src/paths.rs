//! Paths as text, with `/` as the separator.

use vstd::prelude::*;
use vstd::string::*;
use crate::text::to_chars;

verus! {

/// `part` adjoined to `base`: an absolute `part` stands alone; otherwise the
/// two are joined by one `/`, which is left out where `base` is empty or
/// already ends in one.
pub open spec fn joined(base: Seq<char>, part: Seq<char>) -> Seq<char> {
    if part.len() > 0 && part[0] == '/' {
        part
    } else if base.len() == 0 || base.last() == '/' {
        base + part
    } else {
        base.push('/') + part
    }
}

/// The path of `part` under `base`.
pub fn join(base: &str, part: &str) -> (path: String)
    ensures
        path@ == joined(base@, part@),
{
    let head = to_chars(base);
    let tail = to_chars(part);
    if tail.len() > 0 && tail[0] == '/' {
        return String::from_str(part);
    }
    let mut path = String::from_str(base);
    if head.len() > 0 && head[head.len() - 1] != '/' {
        proof {
            reveal_strlit("/");
            assert(path@ + "/"@ =~= base@.push('/'));
        }
        path.append("/");
    }
    path.append(part);
    path
}

/// The key of the entry `name` inside the directory whose key is `prefix`;
/// the root directory has the empty key.
pub open spec fn child_key(prefix: Seq<char>, name: Seq<char>) -> Seq<char> {
    if prefix.len() == 0 {
        name
    } else {
        prefix.push('/') + name
    }
}

/// The key of `name` inside the directory `prefix`.
pub fn child(prefix: &str, name: &str) -> (key: String)
    ensures
        key@ == child_key(prefix@, name@),
{
    if prefix.is_empty() {
        String::from_str(name)
    } else {
        let mut key = String::from_str(prefix);
        proof {
            reveal_strlit("/");
            assert(key@ + "/"@ =~= prefix@.push('/'));
        }
        key.append("/");
        key.append(name);
        key
    }
}

/// The last position of `/` in `key`, or -1 where it has none.
pub open spec fn last_slash(key: Seq<char>) -> int
    decreases key.len(),
{
    if key.len() == 0 {
        -1
    } else if key.last() == '/' {
        key.len() - 1
    } else {
        last_slash(key.drop_last())
    }
}

/// The directory part of `key`: what stands before its last `/`, or the
/// empty text, the root, where it has none.
pub open spec fn parent_key(key: Seq<char>) -> Seq<char> {
    if last_slash(key) < 0 {
        Seq::<char>::empty()
    } else {
        key.take(last_slash(key))
    }
}

/// A last `/` is a position of `key`, and nothing after it is a `/`.
pub proof fn lemma_last_slash(key: Seq<char>)
    ensures
        -1 <= last_slash(key) < key.len(),
        last_slash(key) >= 0 ==> key[last_slash(key)] == '/',
        forall|i: int| last_slash(key) < i < key.len() ==> key[i] != '/',
    decreases key.len(),
{
    if key.len() > 0 && key.last() != '/' {
        let init = key.drop_last();
        lemma_last_slash(init);
        assert forall|i: int| last_slash(key) < i < key.len() implies key[i] != '/' by {
            if i < init.len() {
                assert(init[i] == key[i]);
            }
        }
    }
}

/// `name` can name an entry of a directory: it is not empty, holds no `/`,
/// and is neither `.` nor `..`.
pub open spec fn is_entry_name(name: Seq<char>) -> bool {
    &&& name.len() > 0
    &&& forall|i: int| 0 <= i < name.len() ==> name[i] != '/'
    &&& name != seq!['.']
    &&& name != seq!['.', '.']
}

/// `key` denotes a path strictly inside the root: one entry name, or
/// several joined by single `/`. Such a key is not absolute, does not end
/// in `/`, and none of its parts is `.` or `..`.
pub open spec fn is_inside(key: Seq<char>) -> bool
    decreases key.len(),
{
    let cut = last_slash(key);
    if cut < 0 {
        is_entry_name(key)
    } else if cut >= key.len() {
        false
    } else {
        is_entry_name(key.skip(cut + 1)) && is_inside(key.take(cut))
    }
}

/// The last `/` of a text that ends in a name without `/` is the last `/`
/// of what stands before the name.
pub proof fn lemma_last_slash_before_name(head: Seq<char>, name: Seq<char>)
    requires
        forall|i: int| 0 <= i < name.len() ==> name[i] != '/',
    ensures
        last_slash(head + name) == last_slash(head),
    decreases name.len(),
{
    if name.len() == 0 {
        assert(head + name =~= head);
    } else {
        let whole = head + name;
        assert(whole.last() == name.last());
        assert(whole.drop_last() =~= head + name.drop_last());
        lemma_last_slash_before_name(head, name.drop_last());
    }
}

/// The key of an entry with a proper name, inside the root or inside a
/// directory that lies inside the root, lies inside the root; its directory
/// part is the key of that directory.
pub proof fn lemma_child_key_inside(prefix: Seq<char>, name: Seq<char>)
    requires
        is_entry_name(name),
        prefix.len() == 0 || is_inside(prefix),
    ensures
        is_inside(child_key(prefix, name)),
        parent_key(child_key(prefix, name)) == prefix,
{
    let key = child_key(prefix, name);
    if prefix.len() == 0 {
        lemma_last_slash_before_name(Seq::<char>::empty(), name);
        assert(Seq::<char>::empty() + name =~= name);
        assert(parent_key(key) =~= prefix);
    } else {
        let head = prefix.push('/');
        lemma_last_slash_before_name(head, name);
        assert(head.last() == '/');
        assert(last_slash(head) == head.len() - 1);
        assert(key.take(prefix.len() as int) =~= prefix);
        assert(key.skip(prefix.len() as int + 1) =~= name);
    }
}

/// The directory part of `key`.
pub fn parent(key: &str) -> (dir: String)
    ensures
        dir@ == parent_key(key@),
{
    let chars = to_chars(key);
    let mut end: usize = chars.len();
    assert(chars@.take(end as int) =~= chars@);
    while end > 0 && chars[end - 1] != '/'
        invariant
            end <= chars.len(),
            last_slash(chars@) == last_slash(chars@.take(end as int)),
        decreases end,
    {
        proof {
            assert(chars@.take(end as int).drop_last() =~= chars@.take(end - 1));
        }
        end -= 1;
    }
    if end == 0 {
        return String::new();
    }
    String::from_str(key.substring_char(0, end - 1))
}

} // verus!
