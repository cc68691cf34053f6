//! Human-readable byte counts.

use vstd::prelude::*;
use vstd::string::{StringExecFns, StringSliceAdditionalSpecFns};
use vstd::utf8::{decode_utf8, is_char_boundary, encode_utf8_decode_utf8};

verus! {

pub const KB: u64 = 1024;

pub const MB: u64 = 1048576;

pub const GB: u64 = 1073741824;

pub const TB: u64 = 1099511627776;

/// The character of a decimal digit.
pub open spec fn digit_char(d: int) -> char {
    if d == 0 {
        '0'
    } else if d == 1 {
        '1'
    } else if d == 2 {
        '2'
    } else if d == 3 {
        '3'
    } else if d == 4 {
        '4'
    } else if d == 5 {
        '5'
    } else if d == 6 {
        '6'
    } else if d == 7 {
        '7'
    } else if d == 8 {
        '8'
    } else {
        '9'
    }
}

/// The decimal numeral of `n`, without leading zeros.
pub open spec fn decimal(n: nat) -> Seq<char>
    decreases n,
{
    if n < 10 {
        seq![digit_char(n as int)]
    } else {
        decimal(n / 10).push(digit_char((n % 10) as int))
    }
}

/// The last `count` decimal digits of `n`, with leading zeros.
pub open spec fn digits(n: nat, count: nat) -> Seq<char>
    decreases count,
{
    if count == 0 {
        Seq::empty()
    } else {
        digits(n / 10, (count - 1) as nat).push(digit_char((n % 10) as int))
    }
}

/// The integer nearest to `n / d`; a tie goes to the even one.
pub open spec fn rounded_div(n: nat, d: nat) -> nat {
    let q = n / d;
    let r = n % d;
    if 2 * r > d || (2 * r == d && q % 2 == 1) {
        q + 1
    } else {
        q
    }
}

/// The power of two that 64-bit numbers of the size of `n` are multiples of
/// once they are held with 53 significant bits.
pub open spec fn grain(n: nat) -> nat {
    if n < 0x20_0000_0000_0000 {
        1
    } else if n < 0x40_0000_0000_0000 {
        2
    } else if n < 0x80_0000_0000_0000 {
        4
    } else if n < 0x100_0000_0000_0000 {
        8
    } else if n < 0x200_0000_0000_0000 {
        16
    } else if n < 0x400_0000_0000_0000 {
        32
    } else if n < 0x800_0000_0000_0000 {
        64
    } else if n < 0x1000_0000_0000_0000 {
        128
    } else if n < 0x2000_0000_0000_0000 {
        256
    } else if n < 0x4000_0000_0000_0000 {
        512
    } else if n < 0x8000_0000_0000_0000 {
        1024
    } else {
        2048
    }
}

/// `n` held with 53 significant bits: the nearest multiple of its grain, a tie
/// going to the even multiple.
pub open spec fn with_53_bits(n: nat) -> nat {
    rounded_div(n, grain(n)) * grain(n)
}

/// Ten to the power of `places`.
pub open spec fn pow10(places: nat) -> nat
    decreases places,
{
    if places == 0 {
        1
    } else {
        10 * pow10((places - 1) as nat)
    }
}

/// The numeral of `n / unit` rounded to `places` decimals, a tie going to the
/// even last digit.
pub open spec fn fixed_decimal(n: nat, unit: nat, places: nat) -> Seq<char> {
    let scaled = rounded_div(n * pow10(places), unit);
    if places == 0 {
        decimal(scaled)
    } else {
        decimal(scaled / pow10(places)) + seq!['.'] + digits(scaled % pow10(places), places)
    }
}

/// What `format_size` returns.
pub open spec fn format_size_spec(bytes: u64) -> Seq<char> {
    if bytes >= TB {
        fixed_decimal(with_53_bits(bytes as nat), TB as nat, 2) + seq![' ', 'T', 'B']
    } else if bytes >= GB {
        fixed_decimal(bytes as nat, GB as nat, 2) + seq![' ', 'G', 'B']
    } else if bytes >= MB {
        fixed_decimal(bytes as nat, MB as nat, 1) + seq![' ', 'M', 'B']
    } else if bytes >= KB {
        fixed_decimal(bytes as nat, KB as nat, 0) + seq![' ', 'K', 'B']
    } else {
        decimal(bytes as nat) + seq![' ', 'B']
    }
}

fn digit_str(d: u8) -> (s: &'static str)
    requires
        d < 10,
    ensures
        s@ == seq![digit_char(d as int)],
{
    proof {
        reveal_strlit("0");
        reveal_strlit("1");
        reveal_strlit("2");
        reveal_strlit("3");
        reveal_strlit("4");
        reveal_strlit("5");
        reveal_strlit("6");
        reveal_strlit("7");
        reveal_strlit("8");
        reveal_strlit("9");
    }
    let s: &'static str = if d == 0 {
        "0"
    } else if d == 1 {
        "1"
    } else if d == 2 {
        "2"
    } else if d == 3 {
        "3"
    } else if d == 4 {
        "4"
    } else if d == 5 {
        "5"
    } else if d == 6 {
        "6"
    } else if d == 7 {
        "7"
    } else if d == 8 {
        "8"
    } else {
        "9"
    };
    assert(s@ =~= seq![digit_char(d as int)]);
    s
}

fn push_decimal(text: &mut String, n: u128)
    ensures
        final(text)@ == old(text)@ + decimal(n as nat),
    decreases n,
{
    if n >= 10 {
        push_decimal(text, n / 10);
    }
    text.append(digit_str((n % 10) as u8));
    assert(text@ =~= old(text)@ + decimal(n as nat));
}

fn push_digits(text: &mut String, n: u128, count: u8)
    ensures
        final(text)@ == old(text)@ + digits(n as nat, count as nat),
    decreases count,
{
    if count > 0 {
        push_digits(text, n / 10, count - 1);
        text.append(digit_str((n % 10) as u8));
    }
    assert(text@ =~= old(text)@ + digits(n as nat, count as nat));
}

fn round_div(n: u128, d: u128) -> (q: u128)
    requires
        0 < d <= 0x1_0000_0000_0000_0000,
        n <= 0x1000_0000_0000_0000_0000_0000,
    ensures
        q == rounded_div(n as nat, d as nat),
{
    let q: u128 = n / d;
    let r: u128 = n % d;
    assert(q <= n) by {
        vstd::arithmetic::div_mod::lemma_div_is_ordered_by_denominator(n as int, 1, d as int);
        vstd::arithmetic::div_mod::lemma_div_basics(n as int);
    }
    if 2 * r > d || (2 * r == d && q % 2 == 1) {
        q + 1
    } else {
        q
    }
}

fn nearest_double(n: u64) -> (v: u128)
    ensures
        v == with_53_bits(n as nat),
        v <= 0x1_0000_0000_0000_0000,
{
    let grain: u128 = if n < 0x20_0000_0000_0000 {
        1
    } else if n < 0x40_0000_0000_0000 {
        2
    } else if n < 0x80_0000_0000_0000 {
        4
    } else if n < 0x100_0000_0000_0000 {
        8
    } else if n < 0x200_0000_0000_0000 {
        16
    } else if n < 0x400_0000_0000_0000 {
        32
    } else if n < 0x800_0000_0000_0000 {
        64
    } else if n < 0x1000_0000_0000_0000 {
        128
    } else if n < 0x2000_0000_0000_0000 {
        256
    } else if n < 0x4000_0000_0000_0000 {
        512
    } else if n < 0x8000_0000_0000_0000 {
        1024
    } else {
        2048
    };
    let kept: u128 = round_div(n as u128, grain);
    assert(kept * grain <= 0x1_0000_0000_0000_0000) by {
        // kept <= n / grain + 1 and n < 2^64, with the grain dividing 2^64.
        assert(kept <= (n as int) / (grain as int) + 1);
        assert(((n as int) / (grain as int)) * grain <= n) by {
            vstd::arithmetic::div_mod::lemma_fundamental_div_mod(n as int, grain as int);
            vstd::arithmetic::div_mod::lemma_mod_bound(n as int, grain as int);
            assert(grain * ((n as int) / (grain as int)) == ((n as int) / (grain as int)) * grain) by (nonlinear_arith);
        }
        assert(kept * grain <= ((n as int) / (grain as int)) * grain + grain) by (nonlinear_arith)
            requires
                kept <= (n as int) / (grain as int) + 1,
                grain > 0,
        ;
        if kept * grain > 0x1_0000_0000_0000_0000 {
            // Then n + grain > 2^64 although n rounds to a multiple of the grain below it.
            assert(0x1_0000_0000_0000_0000int % (grain as int) == 0);
            assert(false) by (nonlinear_arith)
                requires
                    kept * grain > 0x1_0000_0000_0000_0000,
                    kept * grain <= n + grain,
                    n < 0x1_0000_0000_0000_0000,
                    grain == 1 || grain == 2 || grain == 4 || grain == 8 || grain == 16 || grain == 32 || grain == 64 || grain
                        == 128 || grain == 256 || grain == 512 || grain == 1024 || grain == 2048,
            ;
        }
    }
    kept * grain
}

fn fixed_decimal_string(n: u128, unit: u64, places: u8) -> (text: String)
    requires
        n <= 0x1_0000_0000_0000_0000,
        0 < unit,
        places <= 2,
    ensures
        text@ == fixed_decimal(n as nat, unit as nat, places as nat),
{
    let power: u128 = if places == 0 { 1 } else if places == 1 { 10 } else { 100 };
    assert(power == pow10(places as nat)) by {
        reveal_with_fuel(pow10, 3);
    }
    let scaled: u128 = round_div(n * power, unit as u128);
    let mut text: String = String::new();
    if places == 0 {
        push_decimal(&mut text, scaled);
        assert(text@ =~= decimal(scaled as nat));
    } else {
        push_decimal(&mut text, scaled / power);
        proof {
            reveal_strlit(".");
        }
        text.append(".");
        push_digits(&mut text, scaled % power, places);
        assert(text@ =~= decimal((scaled / power) as nat) + seq!['.'] + digits((scaled % power) as nat, places as nat));
    }
    text
}

/// A byte count as text: in TB or GB with two decimals, in MB with one, in KB
/// rounded to a whole number, below that in bytes. The number is the count
/// (held with 53 significant bits) divided by the unit and rounded to the
/// nearest value with that many decimals, ties to the even digit.
pub fn format_size(bytes: u64) -> (text: String)
    ensures
        text@ == format_size_spec(bytes),
{
    if bytes >= TB {
        let mut text: String = fixed_decimal_string(nearest_double(bytes), TB, 2);
        proof {
            reveal_strlit(" TB");
        }
        text.append(" TB");
        assert(text@ =~= format_size_spec(bytes));
        text
    } else if bytes >= GB {
        let mut text: String = fixed_decimal_string(bytes as u128, GB, 2);
        proof {
            reveal_strlit(" GB");
        }
        text.append(" GB");
        assert(text@ =~= format_size_spec(bytes));
        text
    } else if bytes >= MB {
        let mut text: String = fixed_decimal_string(bytes as u128, MB, 1);
        proof {
            reveal_strlit(" MB");
        }
        text.append(" MB");
        assert(text@ =~= format_size_spec(bytes));
        text
    } else if bytes >= KB {
        let mut text: String = fixed_decimal_string(bytes as u128, KB, 0);
        proof {
            reveal_strlit(" KB");
        }
        text.append(" KB");
        assert(text@ =~= format_size_spec(bytes));
        text
    } else {
        let mut text: String = String::new();
        push_decimal(&mut text, bytes as u128);
        proof {
            reveal_strlit(" B");
        }
        text.append(" B");
        assert(text@ =~= format_size_spec(bytes));
        text
    }
}


/// What `format_duration` returns.
pub open spec fn format_duration_spec(secs: u64) -> Seq<char> {
    if secs >= 3600 {
        decimal((secs / 3600) as nat) + seq!['h', ' '] + decimal(((secs % 3600) / 60) as nat) + seq!['m']
    } else if secs >= 60 {
        decimal((secs / 60) as nat) + seq!['m', ' '] + decimal((secs % 60) as nat) + seq!['s']
    } else {
        decimal(secs as nat) + seq!['s']
    }
}

/// A duration in whole seconds as text: hours and minutes from an hour on,
/// minutes and seconds from a minute on, seconds below that.
pub fn format_duration(secs: u64) -> (text: String)
    ensures
        text@ == format_duration_spec(secs),
{
    let mut text: String = String::new();
    proof {
        reveal_strlit("h ");
        reveal_strlit("m ");
        reveal_strlit("m");
        reveal_strlit("s");
    }
    if secs >= 3600 {
        push_decimal(&mut text, (secs / 3600) as u128);
        text.append("h ");
        push_decimal(&mut text, ((secs % 3600) / 60) as u128);
        text.append("m");
    } else if secs >= 60 {
        push_decimal(&mut text, (secs / 60) as u128);
        text.append("m ");
        push_decimal(&mut text, (secs % 60) as u128);
        text.append("s");
    } else {
        push_decimal(&mut text, secs as u128);
        text.append("s");
    }
    assert(text@ =~= format_duration_spec(secs));
    text
}

/// What `truncate_str` returns: nothing where fewer than four bytes are
/// allowed, the text itself where it fits, and otherwise the text cut three
/// bytes short of the allowance, with three dots in their place.
pub open spec fn truncated(s: &str, max_chars: usize) -> Seq<char> {
    if max_chars < 4 {
        Seq::empty()
    } else if s.len() <= max_chars {
        s@
    } else {
        decode_utf8(s.spec_bytes().subrange(0, max_chars - 3)) + seq!['.', '.', '.']
    }
}

/// Shortens a text to at most `max_chars` bytes, marking the cut with three
/// dots. The cut must not fall inside a character.
pub fn truncate_str(s: &str, max_chars: usize) -> (text: String)
    requires
        max_chars >= 4 && s.len() > max_chars ==> is_char_boundary(s.spec_bytes(), max_chars - 3),
    ensures
        text@ == truncated(s, max_chars),
{
    if max_chars < 4 {
        return String::new();
    }
    if s.len() <= max_chars {
        String::from_str(s)
    } else {
        let (head, _) = s.split_at(max_chars - 3);
        let mut text: String = String::from_str(head);
        proof {
            reveal_strlit("...");
            encode_utf8_decode_utf8(head@);
        }
        text.append("...");
        assert(text@ =~= truncated(s, max_chars));
        text
    }
}

} // verus!
