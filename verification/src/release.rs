//! Reading the newest release out of the reply of the release service.

use vstd::prelude::*;
use vstd::string::{StrSliceExecFns, StringExecFns};
use crate::version::{is_newer_version, newer_from, numbers_from};

verus! {

/// Whether the character is white space by the rules of Unicode.
pub open spec fn is_space(c: char) -> bool {
    let u = c as u32;
    ||| 0x09 <= u <= 0x0D
    ||| u == 0x20
    ||| u == 0x85
    ||| u == 0xA0
    ||| u == 0x1680
    ||| 0x2000 <= u <= 0x200A
    ||| u == 0x2028
    ||| u == 0x2029
    ||| u == 0x202F
    ||| u == 0x205F
    ||| u == 0x3000
}

/// The text that introduces the tag of a release in the reply.
pub open spec fn tag_marker() -> Seq<char> {
    seq!['"', 't', 'a', 'g', '_', 'n', 'a', 'm', 'e', '"', ':']
}

/// Whether `pattern` stands in `text` at position `at`.
pub open spec fn matches_at(text: Seq<char>, pattern: Seq<char>, at: int) -> bool {
    &&& 0 <= at
    &&& at + pattern.len() <= text.len()
    &&& text.subrange(at, at + pattern.len()) == pattern
}

/// First position at or after `from` at which `pattern` stands in `text`, or
/// the length of the text if it stands nowhere.
pub open spec fn first_match(text: Seq<char>, pattern: Seq<char>, from: int) -> int
    decreases text.len() - from,
{
    if from < 0 || from >= text.len() {
        text.len() as int
    } else if matches_at(text, pattern, from) {
        from
    } else {
        first_match(text, pattern, from + 1)
    }
}

/// First position at or after `from` that holds no white space, or the length
/// of the text.
pub open spec fn skip_space(text: Seq<char>, from: int) -> int
    decreases text.len() - from,
{
    if from < 0 || from >= text.len() {
        text.len() as int
    } else if is_space(text[from]) {
        skip_space(text, from + 1)
    } else {
        from
    }
}

/// First position at or after `from` that holds a double quote, or the length
/// of the text.
pub open spec fn next_quote(text: Seq<char>, from: int) -> int
    decreases text.len() - from,
{
    if from < 0 || from >= text.len() {
        text.len() as int
    } else if text[from] == '"' {
        from
    } else {
        next_quote(text, from + 1)
    }
}

/// The version that the reply names: what stands between double quotes after
/// the first tag marker and any white space, without a leading `v`. None where
/// the marker is missing, something else than a quoted text follows it, or the
/// closing quote is missing.
pub open spec fn release_version(body: Seq<char>) -> Option<Seq<char>> {
    let marker = first_match(body, tag_marker(), 0);
    if marker >= body.len() {
        None
    } else {
        let open = skip_space(body, marker + tag_marker().len());
        if open >= body.len() || body[open] != '"' {
            None
        } else {
            let close = next_quote(body, open + 1);
            if close >= body.len() {
                None
            } else if open + 1 < close && body[open + 1] == 'v' {
                Some(body.subrange(open + 2, close))
            } else {
                Some(body.subrange(open + 1, close))
            }
        }
    }
}

/// What `newer_release` returns: the version that the reply names, if it is
/// newer than the local one.
pub open spec fn newer_release_spec(local: Seq<char>, body: Seq<char>) -> Option<Seq<char>> {
    match release_version(body) {
        Some(version) => if newer_from(numbers_from(local, 0), numbers_from(version, 0), 0) {
            Some(version)
        } else {
            None
        },
        None => None,
    }
}

/// The characters of a text.
fn chars_of(text: &str) -> (chars: Vec<char>)
    ensures
        chars@ == text@,
{
    let mut chars: Vec<char> = Vec::new();
    for c in it: text.chars()
        invariant
            it.seq() == text@,
            chars@ == it.seq().take(it.index() as int),
    {
        proof {
            assert(it.seq().take(it.index() + 1) =~= it.seq().take(it.index() as int).push(c));
        }
        chars.push(c);
    }
    assert(chars@ =~= text@);
    chars
}

/// Whether the character is white space by the rules of Unicode.
fn is_whitespace(c: char) -> (space: bool)
    ensures
        space == is_space(c),
{
    let u: u32 = c as u32;
    (0x09 <= u && u <= 0x0D) || u == 0x20 || u == 0x85 || u == 0xA0 || u == 0x1680 || (0x2000 <= u && u <= 0x200A) || u
        == 0x2028 || u == 0x2029 || u == 0x202F || u == 0x205F || u == 0x3000
}

/// Whether `pattern` stands in `text` at position `at`.
fn stands_at(text: &Vec<char>, pattern: &Vec<char>, at: usize) -> (found: bool)
    ensures
        found == matches_at(text@, pattern@, at as int),
{
    if pattern.len() > text.len() || at > text.len() - pattern.len() {
        return false;
    }
    let mut k: usize = 0;
    while k < pattern.len()
        invariant
            k <= pattern@.len(),
            at + pattern@.len() <= text@.len() <= usize::MAX,
            forall|j: int| 0 <= j < k ==> text@[at + j] == pattern@[j],
        decreases pattern@.len() - k,
    {
        if text[at + k] != pattern[k] {
            proof {
                let part = text@.subrange(at as int, at + pattern@.len());
                assert(part[k as int] == text@[at + k]);
            }
            return false;
        }
        k = k + 1;
    }
    assert(text@.subrange(at as int, at + pattern@.len()) =~= pattern@);
    true
}

/// Finds in the reply of the release service the version of the newest
/// release and returns it if it is newer than `local`.
pub fn newer_release(local: &str, body: &str) -> (found: Option<String>)
    ensures
        found is Some <==> newer_release_spec(local@, body@) is Some,
        found is Some ==> found->0@ == newer_release_spec(local@, body@)->0,
{
    proof {
        reveal_strlit("\"tag_name\":");
    }
    let text: Vec<char> = chars_of(body);
    let marker: Vec<char> = chars_of("\"tag_name\":");
    assert(marker@ =~= tag_marker());
    let n: usize = text.len();
    let mut at: usize = 0;
    while at < n && !stands_at(&text, &marker, at)
        invariant
            at <= n,
            n == text@.len(),
            marker@ == tag_marker(),
            first_match(text@, tag_marker(), at as int) == first_match(text@, tag_marker(), 0),
        decreases n - at,
    {
        at = at + 1;
    }
    if at >= n {
        return None;
    }
    let mut open: usize = at + marker.len();
    while open < n && is_whitespace(text[open])
        invariant
            open <= n,
            n == text@.len(),
            skip_space(text@, open as int) == skip_space(text@, at + tag_marker().len()),
        decreases n - open,
    {
        open = open + 1;
    }
    if open >= n || text[open] != '"' {
        return None;
    }
    let mut close: usize = open + 1;
    while close < n && text[close] != '"'
        invariant
            open < close <= n,
            n == text@.len(),
            next_quote(text@, close as int) == next_quote(text@, open + 1),
        decreases n - close,
    {
        close = close + 1;
    }
    if close >= n {
        return None;
    }
    let start: usize = if open + 1 < close && text[open + 1] == 'v' { open + 2 } else { open + 1 };
    let version: &str = body.substring_char(start, close);
    if is_newer_version(local, version) {
        Some(String::from_str(version))
    } else {
        None
    }
}

} // verus!
