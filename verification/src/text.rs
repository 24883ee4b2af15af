//! Report text: numbers written out in decimal and hexadecimal, padded the
//! way the diagnostic tables lay them out.

use vstd::prelude::*;

verus! {

/// The character of digit `d` (0..16): `0`–`9`, then lowercase `a`–`f`.
pub open spec fn digit_char(d: int) -> char {
    if d < 10 {
        (48 + d) as char
    } else {
        (87 + d) as char
    }
}

/// The decimal digits of `v`, most significant first, without leading
/// zeros (`0` for zero).
pub open spec fn decimal_digits(v: nat) -> Seq<char>
    decreases v,
{
    if v < 10 {
        seq![digit_char(v as int)]
    } else {
        decimal_digits(v / 10).push(digit_char((v % 10) as int))
    }
}

/// The lowercase hexadecimal digits of `v`, most significant first, without
/// leading zeros (`0` for zero).
pub open spec fn hex_digits(v: nat) -> Seq<char>
    decreases v,
{
    if v < 16 {
        seq![digit_char(v as int)]
    } else {
        hex_digits(v / 16).push(digit_char((v % 16) as int))
    }
}

/// `n` copies of `unit`, one after another.
pub open spec fn repeat_text(unit: Seq<char>, n: nat) -> Seq<char>
    decreases n,
{
    if n == 0 {
        Seq::empty()
    } else {
        repeat_text(unit, (n - 1) as nat) + unit
    }
}

/// How much `text` falls short of `width` characters (0 when it does not).
pub open spec fn shortfall(text: Seq<char>, width: int) -> nat {
    if text.len() < width {
        (width - text.len()) as nat
    } else {
        0
    }
}

/// `v` in decimal, right-aligned with spaces in a field of `width`
/// characters (the `{:>width}` layout).
pub open spec fn right_aligned(v: u32, width: int) -> Seq<char> {
    repeat_text(" "@, shortfall(decimal_digits(v as nat), width)) + decimal_digits(v as nat)
}

/// `v` as `0x` and lowercase hex digits zero-padded to `digits` digits (the
/// `{:#0(digits + 2)x}` layout).
pub open spec fn hex_field(v: u32, digits: int) -> Seq<char> {
    "0x"@ + repeat_text("0"@, shortfall(hex_digits(v as nat), digits)) + hex_digits(v as nat)
}

/// Whether `t` holds no newline.
pub open spec fn no_newline(t: Seq<char>) -> bool {
    forall|k: int| 0 <= k < t.len() ==> t[k] != '\n'
}

/// Joining two texts without newlines gives a text without newlines.
pub proof fn lemma_concat_no_newline(a: Seq<char>, b: Seq<char>)
    requires
        no_newline(a),
        no_newline(b),
    ensures
        no_newline(a + b),
{
    assert forall|k: int| 0 <= k < (a + b).len() implies (a + b)[k] != '\n' by {
        if k >= a.len() {
            assert((a + b)[k] == b[k - a.len()]);
        }
    }
}

/// Decimal and hex digits hold no newline.
pub proof fn lemma_digits_no_newline(v: nat)
    ensures
        no_newline(decimal_digits(v)),
        no_newline(hex_digits(v)),
    decreases v,
{
    if v >= 10 {
        lemma_digits_no_newline(v / 10);
        lemma_concat_no_newline(decimal_digits(v / 10), seq![digit_char((v % 10) as int)]);
        assert(decimal_digits(v) =~= decimal_digits(v / 10) + seq![digit_char((v % 10) as int)]);
    }
    if v >= 16 {
        lemma_digits_no_newline(v / 16);
        lemma_concat_no_newline(hex_digits(v / 16), seq![digit_char((v % 16) as int)]);
        assert(hex_digits(v) =~= hex_digits(v / 16) + seq![digit_char((v % 16) as int)]);
    }
}

/// Repeating a text without newlines gives a text without newlines.
pub proof fn lemma_repeat_no_newline(unit: Seq<char>, n: nat)
    requires
        no_newline(unit),
    ensures
        no_newline(repeat_text(unit, n)),
    decreases n,
{
    if n > 0 {
        lemma_repeat_no_newline(unit, (n - 1) as nat);
        lemma_concat_no_newline(repeat_text(unit, (n - 1) as nat), unit);
    }
}

/// A right-aligned number and a hex field hold no newline.
pub proof fn lemma_fields_no_newline(v: u32, width: int)
    ensures
        no_newline(right_aligned(v, width)),
        no_newline(hex_field(v, width)),
{
    reveal_strlit(" ");
    reveal_strlit("0");
    reveal_strlit("0x");
    lemma_digits_no_newline(v as nat);
    lemma_repeat_no_newline(" "@, shortfall(decimal_digits(v as nat), width));
    lemma_repeat_no_newline("0"@, shortfall(hex_digits(v as nat), width));
    lemma_concat_no_newline(repeat_text(" "@, shortfall(decimal_digits(v as nat), width)), decimal_digits(v as nat));
    lemma_concat_no_newline("0x"@, repeat_text("0"@, shortfall(hex_digits(v as nat), width)));
    lemma_concat_no_newline(
        "0x"@ + repeat_text("0"@, shortfall(hex_digits(v as nat), width)),
        hex_digits(v as nat),
    );
}

/// The one-character text of digit `d` (0..16).
fn digit_str(d: u32) -> (t: &'static str)
    requires
        d < 16,
    ensures
        t@ == seq![digit_char(d as int)],
{
    proof {
        reveal_strlit("0");
        reveal_strlit("1");
        reveal_strlit("2");
        reveal_strlit("3");
        reveal_strlit("4");
        reveal_strlit("5");
        reveal_strlit("6");
        reveal_strlit("7");
        reveal_strlit("8");
        reveal_strlit("9");
        reveal_strlit("a");
        reveal_strlit("b");
        reveal_strlit("c");
        reveal_strlit("d");
        reveal_strlit("e");
        reveal_strlit("f");
    }
    let t = match d {
        0 => "0",
        1 => "1",
        2 => "2",
        3 => "3",
        4 => "4",
        5 => "5",
        6 => "6",
        7 => "7",
        8 => "8",
        9 => "9",
        10 => "a",
        11 => "b",
        12 => "c",
        13 => "d",
        14 => "e",
        _ => "f",
    };
    assert(t@ =~= seq![digit_char(d as int)]);
    t
}

/// Append the decimal digits of `v`.
pub fn push_decimal(s: &mut String, v: u64)
    ensures
        final(s)@ == old(s)@ + decimal_digits(v as nat),
    decreases v,
{
    let ghost start = s@;
    if v >= 10 {
        push_decimal(s, v / 10);
    }
    s.append(digit_str((v % 10) as u32));
    proof {
        assert(s@ =~= start + decimal_digits(v as nat));
    }
}

/// Append the lowercase hex digits of `v`.
fn push_hex(s: &mut String, v: u32)
    ensures
        final(s)@ == old(s)@ + hex_digits(v as nat),
    decreases v,
{
    let ghost start = s@;
    if v >= 16 {
        push_hex(s, v / 16);
    }
    s.append(digit_str(v % 16));
    proof {
        assert(s@ =~= start + hex_digits(v as nat));
    }
}

/// Append `n` copies of `unit`.
fn push_repeated(s: &mut String, unit: &str, n: usize)
    ensures
        final(s)@ == old(s)@ + repeat_text(unit@, n as nat),
{
    let ghost start = s@;
    let mut i: usize = 0;
    while i < n
        invariant
            i <= n,
            s@ == start + repeat_text(unit@, i as nat),
        decreases n - i,
    {
        s.append(unit);
        proof {
            assert(s@ =~= start + repeat_text(unit@, (i + 1) as nat));
        }
        i = i + 1;
    }
}

/// How many characters `t` falls short of `width`.
fn shortfall_of(t: &str, width: usize) -> (n: usize)
    ensures
        n == shortfall(t@, width as int),
{
    let len = t.unicode_len();
    if len < width {
        width - len
    } else {
        0
    }
}

/// Append `v` right-aligned in a field of `width` characters.
pub fn push_right_aligned(s: &mut String, v: u32, width: usize)
    ensures
        final(s)@ == old(s)@ + right_aligned(v, width as int),
{
    let mut digits = String::new();
    push_decimal(&mut digits, v as u64);
    let pad = shortfall_of(digits.as_str(), width);
    let ghost start = s@;
    push_repeated(s, " ", pad);
    s.append(digits.as_str());
    proof {
        assert(s@ =~= start + right_aligned(v, width as int));
    }
}

/// Append `v` as `0x` and hex digits zero-padded to `digits` digits.
pub fn push_hex_field(s: &mut String, v: u32, digits: usize)
    ensures
        final(s)@ == old(s)@ + hex_field(v, digits as int),
{
    let mut hex = String::new();
    push_hex(&mut hex, v);
    let pad = shortfall_of(hex.as_str(), digits);
    let ghost start = s@;
    s.append("0x");
    push_repeated(s, "0", pad);
    s.append(hex.as_str());
    proof {
        assert(s@ =~= start + hex_field(v, digits as int));
    }
}

} // verus!
