//! Literal token replacement on text.
//!
//! Text is modelled as a sequence of characters. A token is replaced wherever
//! it occurs, scanning from the left; the text put in its place is never
//! scanned again.

use vstd::prelude::*;
use vstd::string::*;

verus! {

/// `token` stands in `text` at position `at`.
pub open spec fn occurs_at(text: Seq<char>, token: Seq<char>, at: int) -> bool {
    &&& 0 <= at
    &&& at + token.len() <= text.len()
    &&& text.subrange(at, at + token.len()) == token
}

/// `token` stands somewhere in `text`.
pub open spec fn occurs(text: Seq<char>, token: Seq<char>) -> bool {
    exists|at: int| occurs_at(text, token, at)
}

/// The first pair at or after position `from` of `pairs` whose token is not
/// empty and stands at the start of `text`.
pub open spec fn first_match(
    text: Seq<char>,
    pairs: Seq<(Seq<char>, Seq<char>)>,
    from: int,
) -> Option<int>
    decreases pairs.len() - from,
{
    if from < 0 || from >= pairs.len() {
        None
    } else if pairs[from].0.len() > 0 && occurs_at(text, pairs[from].0, 0) {
        Some(from)
    } else {
        first_match(text, pairs, from + 1)
    }
}

/// What `first_match` finds is a pair of `pairs` whose token is not empty
/// and stands at the start of `text`, and no pair before it is one; where it
/// finds nothing, there is no such pair.
pub proof fn lemma_first_match(text: Seq<char>, pairs: Seq<(Seq<char>, Seq<char>)>, from: int)
    requires
        0 <= from,
    ensures
        match first_match(text, pairs, from) {
            Some(k) => from <= k < pairs.len() && 0 < pairs[k].0.len() <= text.len() && occurs_at(
                text,
                pairs[k].0,
                0,
            ) && forall|j: int|
                from <= j < k ==> !(0 < (#[trigger] pairs[j]).0.len() && occurs_at(
                    text,
                    pairs[j].0,
                    0,
                )),
            None => forall|j: int|
                from <= j < pairs.len() ==> !(0 < (#[trigger] pairs[j]).0.len() && occurs_at(
                    text,
                    pairs[j].0,
                    0,
                )),
        },
    decreases pairs.len() - from,
{
    if from < pairs.len() && !(pairs[from].0.len() > 0 && occurs_at(text, pairs[from].0, 0)) {
        lemma_first_match(text, pairs, from + 1);
    }
}

/// `text` with the tokens of `pairs` replaced by their values in one pass
/// from the left. Where a token stands, its value is put in its place and
/// the pass goes on behind the token; any other character is kept. What was
/// put in is not looked at again. Where several tokens stand at one place,
/// the first of them in the order of `pairs` is taken; an empty token stands
/// nowhere.
pub open spec fn substituted(text: Seq<char>, pairs: Seq<(Seq<char>, Seq<char>)>) -> Seq<char>
    decreases text.len(),
{
    if text.len() == 0 {
        text
    } else {
        match first_match(text, pairs, 0) {
            Some(k) => {
                proof {
                    lemma_first_match(text, pairs, 0);
                }
                pairs[k].1 + substituted(text.skip(pairs[k].0.len() as int), pairs)
            },
            None => text.take(1) + substituted(text.skip(1), pairs),
        }
    }
}

/// No token of `pairs` stands anywhere in `text`.
pub open spec fn free_of_tokens(text: Seq<char>, pairs: Seq<(Seq<char>, Seq<char>)>) -> bool {
    forall|i: int| 0 <= i < pairs.len() ==> !occurs(text, #[trigger] pairs[i].0)
}

/// Substituting in a text that holds none of the tokens leaves it as it is.
pub proof fn lemma_substituted_free(text: Seq<char>, pairs: Seq<(Seq<char>, Seq<char>)>)
    requires
        free_of_tokens(text, pairs),
    ensures
        substituted(text, pairs) == text,
    decreases text.len(),
{
    if text.len() > 0 {
        lemma_first_match(text, pairs, 0);
        if let Some(k) = first_match(text, pairs, 0) {
            assert(occurs(text, pairs[k].0));
        }
        let rest = text.skip(1);
        assert forall|i: int| 0 <= i < pairs.len() implies !occurs(rest, #[trigger] pairs[i].0) by {
            let token = pairs[i].0;
            assert forall|at: int| !occurs_at(rest, token, at) by {
                if occurs_at(rest, token, at) {
                    assert(text.subrange(at + 1, at + 1 + token.len()) == rest.subrange(
                        at,
                        at + token.len(),
                    ));
                    assert(occurs_at(text, token, at + 1));
                }
            }
        }
        lemma_substituted_free(rest, pairs);
        assert(text.take(1) + rest == text);
    }
}

/// Substitution is idempotent on every text whose substituted form holds
/// none of the tokens: a second pass with the same pairs changes nothing.
pub proof fn lemma_substituted_idempotent(text: Seq<char>, pairs: Seq<(Seq<char>, Seq<char>)>)
    requires
        free_of_tokens(substituted(text, pairs), pairs),
    ensures
        substituted(substituted(text, pairs), pairs) == substituted(text, pairs),
{
    lemma_substituted_free(substituted(text, pairs), pairs);
}

/// Every token of `pairs` begins with `{{`.
pub open spec fn marked_tokens(pairs: Seq<(Seq<char>, Seq<char>)>) -> bool {
    forall|i: int|
        0 <= i < pairs.len() ==> (#[trigger] pairs[i]).0.len() >= 2 && pairs[i].0[0] == '{'
            && pairs[i].0[1] == '{'
}

/// No value of `pairs` holds a `{`.
pub open spec fn plain_values(pairs: Seq<(Seq<char>, Seq<char>)>) -> bool {
    forall|i: int, j: int|
        0 <= i < pairs.len() && 0 <= j < pairs[i].1.len() ==> #[trigger] pairs[i].1[j] != '{'
}

/// `{{` stands in `text` at position `at`.
pub open spec fn opens_at(text: Seq<char>, at: int) -> bool {
    0 <= at && at + 1 < text.len() && text[at] == '{' && text[at + 1] == '{'
}

/// Some token of `pairs` stands in `text` at position `at`.
pub open spec fn token_at(text: Seq<char>, pairs: Seq<(Seq<char>, Seq<char>)>, at: int) -> bool {
    exists|k: int| 0 <= k < pairs.len() && occurs_at(text, (#[trigger] pairs[k]).0, at)
}

/// Wherever `{{` stands in `text`, a token of `pairs` begins.
pub open spec fn braces_open_tokens(text: Seq<char>, pairs: Seq<(Seq<char>, Seq<char>)>) -> bool {
    forall|at: int| #[trigger] opens_at(text, at) ==> token_at(text, pairs, at)
}

/// `{{` stands nowhere in `text`.
pub open spec fn no_double_brace(text: Seq<char>) -> bool {
    forall|at: int| !#[trigger] opens_at(text, at)
}

/// A text without `{{` holds no token that begins with `{{`.
pub proof fn lemma_no_double_brace_free(text: Seq<char>, pairs: Seq<(Seq<char>, Seq<char>)>)
    requires
        marked_tokens(pairs),
        no_double_brace(text),
    ensures
        free_of_tokens(text, pairs),
{
    assert forall|i: int| 0 <= i < pairs.len() implies !occurs(text, #[trigger] pairs[i].0) by {
        let token = pairs[i].0;
        assert forall|at: int| !occurs_at(text, token, at) by {
            if occurs_at(text, token, at) {
                let piece = text.subrange(at, at + token.len());
                assert(piece[0] == text[at]);
                assert(piece[1] == text[at + 1]);
                assert(opens_at(text, at));
            }
        }
    }
}

/// Two texts without `{{` joined hold no `{{`, unless the first ends in
/// `{` and the second begins with one.
pub proof fn lemma_joined_no_double_brace(first: Seq<char>, second: Seq<char>)
    requires
        no_double_brace(first),
        no_double_brace(second),
        first.len() > 0 && second.len() > 0 ==> first.last() != '{' || second[0] != '{',
    ensures
        no_double_brace(first + second),
{
    let whole = first + second;
    assert forall|at: int| !#[trigger] opens_at(whole, at) by {
        if 0 <= at && at + 1 < whole.len() {
            if at + 1 < first.len() {
                assert(whole[at] == first[at] && whole[at + 1] == first[at + 1]);
                assert(!opens_at(first, at));
            } else if at >= first.len() {
                assert(whole[at] == second[at - first.len()]);
                assert(whole[at + 1] == second[at + 1 - first.len()]);
                assert(!opens_at(second, at - first.len()));
            } else {
                assert(whole[at] == first.last());
                assert(whole[at + 1] == second[0]);
            }
        }
    }
}

/// A token that begins with `{{` and stands at the start of a text makes
/// the text begin with `{{`.
pub proof fn lemma_marked_token_opens(text: Seq<char>, token: Seq<char>)
    requires
        token.len() >= 2,
        token[0] == '{',
        token[1] == '{',
        occurs_at(text, token, 0),
    ensures
        opens_at(text, 0),
{
    let piece = text.subrange(0, token.len() as int);
    assert(piece[0] == text[0]);
    assert(piece[1] == text[1]);
}

/// Where every token begins with `{{`, no value holds a `{`, and every `{{`
/// of the text begins a token, the substituted text holds no `{{` at all;
/// and it begins with `{` only where the text does.
pub proof fn lemma_substituted_closes_braces(text: Seq<char>, pairs: Seq<(Seq<char>, Seq<char>)>)
    requires
        marked_tokens(pairs),
        plain_values(pairs),
        braces_open_tokens(text, pairs),
    ensures
        no_double_brace(substituted(text, pairs)),
        substituted(text, pairs).len() > 0 && substituted(text, pairs)[0] == '{' ==> text.len() > 0
            && text[0] == '{',
    decreases text.len(),
{
    let out = substituted(text, pairs);
    if text.len() == 0 {
        assert forall|at: int| !#[trigger] opens_at(out, at) by {}
    } else {
        lemma_first_match(text, pairs, 0);
        match first_match(text, pairs, 0) {
            Some(k) => {
                let token = pairs[k].0;
                let value = pairs[k].1;
                let rest = text.skip(token.len() as int);
                let tail = substituted(rest, pairs);
                lemma_braces_shift(text, pairs, token.len() as int);
                lemma_substituted_closes_braces(rest, pairs);
                assert(out == value + tail);
                assert(no_double_brace(value)) by {
                    assert forall|at: int| !#[trigger] opens_at(value, at) by {
                        if 0 <= at < value.len() {
                            assert(pairs[k].1[at] != '{');
                        }
                    }
                }
                if value.len() > 0 {
                    assert(pairs[k].1[value.len() - 1] != '{');
                    assert(pairs[k].1[0] != '{');
                    assert(out[0] == value[0]);
                }
                lemma_joined_no_double_brace(value, tail);
                lemma_marked_token_opens(text, token);
            },
            None => {
                let head = text.take(1);
                let rest = text.skip(1);
                let tail = substituted(rest, pairs);
                lemma_braces_shift(text, pairs, 1);
                lemma_substituted_closes_braces(rest, pairs);
                assert(out == head + tail);
                assert(out[0] == text[0]);
                assert(no_double_brace(head)) by {
                    assert forall|at: int| !#[trigger] opens_at(head, at) by {}
                }
                if tail.len() > 0 && head.last() == '{' && tail[0] == '{' {
                    assert(rest[0] == text[1]);
                    assert(opens_at(text, 0));
                    assert(token_at(text, pairs, 0));
                    let k = choose|k: int|
                        0 <= k < pairs.len() && occurs_at(text, (#[trigger] pairs[k]).0, 0);
                    assert(0 < pairs[k].0.len() && occurs_at(text, pairs[k].0, 0));
                    assert(false);
                }
                lemma_joined_no_double_brace(head, tail);
            },
        }
    }
}

/// What holds of the `{{` of a text holds of the `{{` of what is left of it
/// behind its first `by` characters.
pub proof fn lemma_braces_shift(text: Seq<char>, pairs: Seq<(Seq<char>, Seq<char>)>, by: int)
    requires
        0 <= by <= text.len(),
        braces_open_tokens(text, pairs),
    ensures
        braces_open_tokens(text.skip(by), pairs),
{
    let rest = text.skip(by);
    assert forall|at: int| #[trigger] opens_at(rest, at) implies token_at(rest, pairs, at) by {
        assert(rest[at] == text[at + by]);
        assert(rest[at + 1] == text[at + by + 1]);
        assert(opens_at(text, at + by));
        assert(token_at(text, pairs, at + by));
        let k = choose|k: int|
            0 <= k < pairs.len() && occurs_at(text, (#[trigger] pairs[k]).0, at + by);
        assert(rest.subrange(at, at + pairs[k].0.len()) =~= text.subrange(
            at + by,
            at + by + pairs[k].0.len(),
        ));
        assert(occurs_at(rest, pairs[k].0, at));
    }
}

/// Substitution is idempotent on every text in which each `{{` begins a
/// token, provided every token begins with `{{` and no value holds a `{`.
pub proof fn lemma_substituted_idempotent_marked(
    text: Seq<char>,
    pairs: Seq<(Seq<char>, Seq<char>)>,
)
    requires
        marked_tokens(pairs),
        plain_values(pairs),
        braces_open_tokens(text, pairs),
    ensures
        free_of_tokens(substituted(text, pairs), pairs),
        substituted(substituted(text, pairs), pairs) == substituted(text, pairs),
{
    lemma_substituted_closes_braces(text, pairs);
    lemma_no_double_brace_free(substituted(text, pairs), pairs);
    lemma_substituted_free(substituted(text, pairs), pairs);
}

/// Whether two texts hold the same characters.
pub fn same_text(left: &str, right: &str) -> (same: bool)
    ensures
        same == (left@ == right@),
{
    let left = String::from_str(left);
    let right = String::from_str(right);
    left == right
}

/// Whether two strings hold the same characters.
pub fn same_string(left: &String, right: &String) -> (same: bool)
    ensures
        same == (left@ == right@),
{
    *left == *right
}

/// The characters of `text`, in order.
pub fn to_chars(text: &str) -> (chars: Vec<char>)
    ensures
        chars@ == text@,
{
    let mut chars: Vec<char> = Vec::new();
    for c in it: text.chars()
        invariant
            it.seq() == text@,
            chars@ == it.seq().take(it.index()),
    {
        chars.push(c);
    }
    chars
}

/// Whether `token` stands in `text` at position `at`.
pub fn matches_at(text: &Vec<char>, token: &Vec<char>, at: usize) -> (found: bool)
    ensures
        found == occurs_at(text@, token@, at as int),
{
    if token.len() > text.len() || at > text.len() - token.len() {
        return false;
    }
    let mut k: usize = 0;
    while k < token.len()
        invariant
            k <= token.len(),
            at + token.len() <= text.len(),
            forall|j: int| 0 <= j < k ==> text@[at + j] == token@[j],
        decreases token.len() - k,
    {
        if text[at + k] != token[k] {
            assert(text@.subrange(at as int, at + token.len())[k as int] == text@[at + k]);
            return false;
        }
        k += 1;
    }
    assert(text@.subrange(at as int, at + token.len()) =~= token@);
    true
}

/// The values of `pairs`: each token with its replacement, as characters.
pub open spec fn pair_views(pairs: Seq<(String, String)>) -> Seq<(Seq<char>, Seq<char>)> {
    Seq::new(pairs.len(), |i: int| (pairs[i].0@, pairs[i].1@))
}

/// The first pair whose token, given as `patterns`, stands in `chars` at
/// position `at`.
fn first_match_at(
    chars: &Vec<char>,
    patterns: &Vec<Vec<char>>,
    at: usize,
    Ghost(pairs): Ghost<Seq<(Seq<char>, Seq<char>)>>,
) -> (found: Option<usize>)
    requires
        at <= chars.len(),
        patterns.len() == pairs.len(),
        forall|k: int| 0 <= k < pairs.len() ==> (#[trigger] patterns@[k])@ == pairs[k].0,
    ensures
        match found {
            Some(k) => first_match(chars@.skip(at as int), pairs, 0) == Some(k as int),
            None => first_match(chars@.skip(at as int), pairs, 0) is None,
        },
{
    let ghost rest = chars@.skip(at as int);
    let mut k: usize = 0;
    while k < patterns.len()
        invariant
            k <= patterns.len(),
            at <= chars.len(),
            rest == chars@.skip(at as int),
            patterns.len() == pairs.len(),
            forall|j: int| 0 <= j < pairs.len() ==> (#[trigger] patterns@[j])@ == pairs[j].0,
            first_match(rest, pairs, 0) == first_match(rest, pairs, k as int),
        decreases patterns.len() - k,
    {
        let ghost token = pairs[k as int].0;
        proof {
            assert(patterns@[k as int]@ == token);
            if at + token.len() <= chars@.len() {
                assert(rest.subrange(0, token.len() as int) =~= chars@.subrange(
                    at as int,
                    at + token.len(),
                ));
            }
        }
        if patterns[k].len() > 0 && matches_at(chars, &patterns[k], at) {
            return Some(k);
        }
        k += 1;
    }
    None
}

/// `text` with the tokens of `pairs` replaced by their values in one pass
/// from the left; what is put in is not looked at again.
pub fn substitute(text: &str, pairs: &Vec<(String, String)>) -> (out: String)
    ensures
        out@ == substituted(text@, pair_views(pairs@)),
{
    let chars = to_chars(text);
    let ghost views = pair_views(pairs@);
    let mut patterns: Vec<Vec<char>> = Vec::new();
    let mut p: usize = 0;
    while p < pairs.len()
        invariant
            p <= pairs.len(),
            patterns.len() == p,
            views == pair_views(pairs@),
            forall|k: int| 0 <= k < p ==> (#[trigger] patterns@[k])@ == views[k].0,
        decreases pairs.len() - p,
    {
        patterns.push(to_chars(pairs[p].0.as_str()));
        p += 1;
    }
    let mut out = String::new();
    // `out` holds what has been settled; the characters from `kept` up to
    // `i` are known to stay as they are and are appended in one piece.
    let mut kept: usize = 0;
    let mut i: usize = 0;
    proof {
        assert(chars@.skip(0) =~= text@);
        assert(out@ + chars@.subrange(0, 0) + substituted(text@, views) =~= substituted(
            text@,
            views,
        ));
    }
    while i < chars.len()
        invariant
            kept <= i <= chars.len(),
            chars@ == text@,
            views == pair_views(pairs@),
            patterns.len() == views.len(),
            pairs.len() == views.len(),
            forall|k: int| 0 <= k < views.len() ==> (#[trigger] patterns@[k])@ == views[k].0,
            out@ + chars@.subrange(kept as int, i as int) + substituted(
                chars@.skip(i as int),
                views,
            ) == substituted(text@, views),
        decreases chars.len() - i,
    {
        let ghost rest = chars@.skip(i as int);
        let ghost piece = chars@.subrange(kept as int, i as int);
        proof {
            lemma_first_match(rest, views, 0);
        }
        match first_match_at(&chars, &patterns, i, Ghost(views)) {
            Some(k) => {
                let ghost token = views[k as int].0;
                let ghost value = views[k as int].1;
                proof {
                    assert(patterns@[k as int]@ == token);
                    assert(rest.skip(token.len() as int) =~= chars@.skip(i + token.len()));
                    assert(chars@.subrange(i + token.len(), i + token.len()) =~= Seq::<
                        char,
                    >::empty());
                    assert(out@ + piece + (value + substituted(
                        rest.skip(token.len() as int),
                        views,
                    )) =~= (out@ + piece + value) + Seq::<char>::empty() + substituted(
                        rest.skip(token.len() as int),
                        views,
                    ));
                }
                out.append(text.substring_char(kept, i));
                out.append(pairs[k].1.as_str());
                i += patterns[k].len();
                kept = i;
            },
            None => {
                proof {
                    assert(rest.skip(1) =~= chars@.skip(i + 1));
                    assert(piece + rest.take(1) =~= chars@.subrange(kept as int, i + 1));
                    assert(out@ + piece + (rest.take(1) + substituted(rest.skip(1), views)) =~= out@
                        + (piece + rest.take(1)) + substituted(rest.skip(1), views));
                }
                i += 1;
            },
        }
    }
    proof {
        assert(chars@.skip(i as int) =~= Seq::<char>::empty());
        assert(out@ + chars@.subrange(kept as int, i as int) + Seq::<char>::empty() =~= out@
            + chars@.subrange(kept as int, i as int));
    }
    out.append(text.substring_char(kept, i));
    out
}

} // verus!
