//! Comparing dotted version numbers.

use vstd::prelude::*;
use vstd::string::StrSliceExecFns;

verus! {

/// Whether the character is a decimal digit.
pub open spec fn is_digit(c: char) -> bool {
    48 <= c as u32 <= 57
}

/// The number that a decimal digit stands for.
pub open spec fn digit_value(c: char) -> nat {
    (c as u32 - 48) as nat
}

/// Whether every character is a decimal digit.
pub open spec fn all_digits(s: Seq<char>) -> bool {
    forall|i: int| 0 <= i < s.len() ==> is_digit(#[trigger] s[i])
}

/// The number that a run of decimal digits stands for.
pub open spec fn digits_value(s: Seq<char>) -> nat
    decreases s.len(),
{
    if s.len() == 0 {
        0
    } else {
        digits_value(s.drop_last()) * 10 + digit_value(s.last())
    }
}

/// The number that a component stands for: decimal digits, at least one,
/// after an optional plus sign, with a value that fits 32 bits. Anything else
/// is no number.
pub open spec fn parse_u32(s: Seq<char>) -> Option<u32> {
    let body = if s.len() > 0 && s[0] == '+' {
        s.skip(1)
    } else {
        s
    };
    if body.len() == 0 || !all_digits(body) || digits_value(body) > u32::MAX {
        None
    } else {
        Some(digits_value(body) as u32)
    }
}

/// Position of the first dot at or after `from`, or the length of the text.
pub open spec fn part_end(s: Seq<char>, from: int) -> int
    decreases s.len() - from,
{
    if from < 0 || from >= s.len() {
        s.len() as int
    } else if s[from] == '.' {
        from
    } else {
        part_end(s, from + 1)
    }
}

/// A component ends at or after its start and within the text.
pub proof fn lemma_part_end_bounds(s: Seq<char>, from: int)
    requires
        0 <= from <= s.len(),
    ensures
        from <= part_end(s, from) <= s.len(),
    decreases s.len() - from,
{
    if from < s.len() && s[from] != '.' {
        lemma_part_end_bounds(s, from + 1);
    }
}

/// The numbers among the components of the text from position `from` on,
/// where components are separated by dots and those that are no numbers are
/// left out.
pub open spec fn numbers_from(s: Seq<char>, from: int) -> Seq<u32>
    decreases s.len() - from,
{
    if from < 0 || from > s.len() {
        Seq::empty()
    } else {
        let end = part_end(s, from);
        let here = match parse_u32(s.subrange(from, end)) {
            Some(v) => seq![v],
            None => Seq::empty(),
        };
        proof {
            lemma_part_end_bounds(s, from);
        }
        if end < s.len() {
            here + numbers_from(s, end + 1)
        } else {
            here
        }
    }
}

/// Component `i` of a version, zero where the version has no such component.
pub open spec fn component(v: Seq<u32>, i: int) -> u32 {
    if 0 <= i < v.len() {
        v[i]
    } else {
        0
    }
}

/// Whether `remote` is larger than `local` at the first component from `i` on
/// at which they differ.
pub open spec fn newer_from(local: Seq<u32>, remote: Seq<u32>, i: int) -> bool
    decreases local.len() + remote.len() - i,
{
    if i < 0 || (i >= local.len() && i >= remote.len()) {
        false
    } else if component(remote, i) > component(local, i) {
        true
    } else if component(remote, i) < component(local, i) {
        false
    } else {
        newer_from(local, remote, i + 1)
    }
}

/// The numbers among the dot-separated components of a text.
fn version_numbers(s: &str) -> (numbers: Vec<u32>)
    ensures
        numbers@ == numbers_from(s@, 0),
{
    let n: usize = s.unicode_len();
    let mut numbers: Vec<u32> = Vec::new();
    let mut start: usize = 0;
    let mut done: bool = false;
    assert(numbers@ + numbers_from(s@, 0) =~= numbers_from(s@, 0));
    while !done
        invariant
            n == s@.len(),
            start <= n,
            !done ==> numbers@ + numbers_from(s@, start as int) == numbers_from(s@, 0),
            done ==> numbers@ == numbers_from(s@, 0),
        decreases n - start + (if done { 0int } else { 1int }),
    {
        let mut body: usize = start;
        if body < n && s.get_char(body) == '+' {
            body = body + 1;
        }
        let mut i: usize = body;
        let mut digits_only: bool = true;
        let mut overflow: bool = false;
        let mut value: u64 = 0;
        proof {
            if body > start {
                assert(s@[start as int] != '.');
                assert(part_end(s@, start as int) == part_end(s@, body as int));
            }
        }
        while i < n && s.get_char(i) != '.'
            invariant
                n == s@.len(),
                start <= body <= i <= n,
                part_end(s@, i as int) == part_end(s@, start as int),
                digits_only == all_digits(s@.subrange(body as int, i as int)),
                digits_only && !overflow ==> value == digits_value(s@.subrange(body as int, i as int)) && value <= u32::MAX,
                digits_only && overflow ==> digits_value(s@.subrange(body as int, i as int)) > u32::MAX,
            decreases n - i,
        {
            let c: char = s.get_char(i);
            proof {
                let before = s@.subrange(body as int, i as int);
                let after = s@.subrange(body as int, i + 1);
                assert(after.drop_last() =~= before);
                assert(after.last() == c);
                if all_digits(after) {
                    assert forall|j: int| 0 <= j < before.len() implies is_digit(#[trigger] before[j]) by {
                        assert(before[j] == after[j]);
                    }
                    assert(is_digit(after[after.len() - 1]));
                }
                if all_digits(before) && is_digit(c) {
                    assert forall|j: int| 0 <= j < after.len() implies is_digit(#[trigger] after[j]) by {
                        if j < before.len() {
                            assert(after[j] == before[j]);
                        }
                    }
                }
            }
            if c as u32 >= 48 && c as u32 <= 57 {
                if digits_only && !overflow {
                    value = value * 10 + (c as u32 - 48) as u64;
                    if value > u32::MAX as u64 {
                        overflow = true;
                    }
                }
            } else {
                digits_only = false;
            }
            i = i + 1;
        }
        proof {
            assert(part_end(s@, i as int) == i);
            let part = s@.subrange(start as int, i as int);
            let rest = s@.subrange(body as int, i as int);
            if body > start {
                assert(part[0] == '+');
                assert(part.skip(1) =~= rest);
            } else {
                assert(part =~= rest);
                if part.len() > 0 && part[0] == '+' {
                    assert(false);
                }
            }
        }
        let ghost so_far = numbers@;
        if digits_only && !overflow && i > body {
            numbers.push(value as u32);
        }
        if i < n {
            proof {
                let here = match parse_u32(s@.subrange(start as int, i as int)) {
                    Some(v) => seq![v],
                    None => Seq::<u32>::empty(),
                };
                assert(numbers@ =~= so_far + here);
                assert(numbers@ + numbers_from(s@, i + 1) =~= so_far + (here + numbers_from(s@, i + 1)));
            }
            start = i + 1;
        } else {
            proof {
                let here = match parse_u32(s@.subrange(start as int, i as int)) {
                    Some(v) => seq![v],
                    None => Seq::<u32>::empty(),
                };
                assert(numbers@ =~= so_far + here);
            }
            done = true;
        }
    }
    numbers
}

/// Compares two version texts such as "0.5.3" and "0.5.4", component by
/// component as numbers, a missing component counting as zero. Returns
/// whether `remote` is strictly newer than `local`.
pub fn is_newer_version(local: &str, remote: &str) -> (newer: bool)
    ensures
        newer == newer_from(numbers_from(local@, 0), numbers_from(remote@, 0), 0),
{
    let l: Vec<u32> = version_numbers(local);
    let r: Vec<u32> = version_numbers(remote);
    let len: usize = if l.len() >= r.len() { l.len() } else { r.len() };
    let mut i: usize = 0;
    while i < len
        invariant
            i <= len,
            len >= l@.len(),
            len >= r@.len(),
            len == l@.len() || len == r@.len(),
            l@ == numbers_from(local@, 0),
            r@ == numbers_from(remote@, 0),
            newer_from(l@, r@, i as int) == newer_from(l@, r@, 0),
        decreases len - i,
    {
        let lv: u32 = if i < l.len() { l[i] } else { 0 };
        let rv: u32 = if i < r.len() { r[i] } else { 0 };
        if rv > lv {
            return true;
        }
        if rv < lv {
            return false;
        }
        i = i + 1;
    }
    false
}

} // verus!
