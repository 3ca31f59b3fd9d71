//! Numbers as text, for the refusal messages: decimal, and `0x`-prefixed
//! lowercase hexadecimal, minimal or zero-padded.

use vstd::prelude::*;
use vstd::string::StringExecFns;

verus! {

/// The one-character text of a decimal or hexadecimal digit.
pub open spec fn digit_text(d: int) -> Seq<char> {
    if d == 0 {
        "0"@
    } else if d == 1 {
        "1"@
    } else if d == 2 {
        "2"@
    } else if d == 3 {
        "3"@
    } else if d == 4 {
        "4"@
    } else if d == 5 {
        "5"@
    } else if d == 6 {
        "6"@
    } else if d == 7 {
        "7"@
    } else if d == 8 {
        "8"@
    } else if d == 9 {
        "9"@
    } else if d == 10 {
        "a"@
    } else if d == 11 {
        "b"@
    } else if d == 12 {
        "c"@
    } else if d == 13 {
        "d"@
    } else if d == 14 {
        "e"@
    } else {
        "f"@
    }
}

/// `n` in base `base`, most significant digit first, with no leading zeros
/// (zero is `"0"`).
pub open spec fn digits(n: nat, base: nat) -> Seq<char>
    decreases n,
{
    if base < 2 || n < base {
        digit_text(n as int)
    } else {
        proof {
            vstd::arithmetic::div_mod::lemma_div_decreases(n as int, base as int);
        }
        digits(n / base, base) + digit_text((n % base) as int)
    }
}

/// `n` in decimal.
pub open spec fn decimal(n: nat) -> Seq<char> {
    digits(n, 10)
}

/// `n` as `0x` and its lowercase hexadecimal digits.
pub open spec fn hex(n: nat) -> Seq<char> {
    "0x"@ + digits(n, 16)
}

/// The last `width` hexadecimal digits of `n`, zero-padded.
pub open spec fn hex_fixed(n: nat, width: nat) -> Seq<char>
    decreases width,
{
    if width == 0 {
        Seq::empty()
    } else {
        hex_fixed(n / 16, (width - 1) as nat) + digit_text((n % 16) as int)
    }
}

/// A 32-bit value as `0x` and exactly eight hexadecimal digits.
pub open spec fn hex8(n: u32) -> Seq<char> {
    "0x"@ + hex_fixed(n as nat, 8)
}

fn digit(d: u64) -> (r: &'static str)
    requires
        d < 16,
    ensures
        r@ == digit_text(d as int),
{
    match d {
        0 => "0",
        1 => "1",
        2 => "2",
        3 => "3",
        4 => "4",
        5 => "5",
        6 => "6",
        7 => "7",
        8 => "8",
        9 => "9",
        10 => "a",
        11 => "b",
        12 => "c",
        13 => "d",
        14 => "e",
        _ => "f",
    }
}

fn push_digits(out: &mut String, n: u64, base: u64)
    requires
        2 <= base <= 16,
    ensures
        final(out)@ == old(out)@ + digits(n as nat, base as nat),
    decreases n,
{
    if n < base {
        out.append(digit(n));
    } else {
        proof {
            vstd::arithmetic::div_mod::lemma_div_decreases(n as int, base as int);
        }
        push_digits(out, n / base, base);
        out.append(digit(n % base));
        proof {
            assert(out@ =~= old(out)@ + digits(n as nat, base as nat));
        }
    }
}

/// Append `n` in decimal.
pub fn push_decimal(out: &mut String, n: u64)
    ensures
        final(out)@ == old(out)@ + decimal(n as nat),
{
    push_digits(out, n, 10);
}

/// `i` in decimal, with a leading `-` when it is negative.
pub open spec fn signed_decimal(i: int) -> Seq<char> {
    if i < 0 {
        "-"@ + decimal((-i) as nat)
    } else {
        decimal(i as nat)
    }
}

/// Append `i` in decimal, with a leading `-` when it is negative.
pub fn push_signed_decimal(out: &mut String, i: i64)
    ensures
        final(out)@ == old(out)@ + signed_decimal(i as int),
{
    if i < 0 {
        out.append("-");
        let magnitude: u64 = if i == i64::MIN {
            0x8000_0000_0000_0000
        } else {
            (-i) as u64
        };
        push_decimal(out, magnitude);
        proof {
            assert(out@ =~= old(out)@ + signed_decimal(i as int));
        }
    } else {
        push_decimal(out, i as u64);
    }
}

/// Append `n` as `0x` and its lowercase hexadecimal digits.
pub fn push_hex(out: &mut String, n: u64)
    ensures
        final(out)@ == old(out)@ + hex(n as nat),
{
    out.append("0x");
    push_digits(out, n, 16);
    proof {
        assert(out@ =~= old(out)@ + hex(n as nat));
    }
}

fn push_hex_fixed(out: &mut String, n: u64, width: u32)
    ensures
        final(out)@ == old(out)@ + hex_fixed(n as nat, width as nat),
    decreases width,
{
    if width > 0 {
        push_hex_fixed(out, n / 16, width - 1);
        out.append(digit(n % 16));
        proof {
            assert(out@ =~= old(out)@ + hex_fixed(n as nat, width as nat));
        }
    }
}

/// `n` as `0x` and exactly `width` hexadecimal digits.
pub open spec fn hex_padded(n: nat, width: nat) -> Seq<char> {
    "0x"@ + hex_fixed(n, width)
}

/// Append `n` as `0x` and exactly `width` hexadecimal digits.
pub fn push_hex_padded(out: &mut String, n: u64, width: u32)
    ensures
        final(out)@ == old(out)@ + hex_padded(n as nat, width as nat),
{
    out.append("0x");
    push_hex_fixed(out, n, width);
    proof {
        assert(out@ =~= old(out)@ + hex_padded(n as nat, width as nat));
    }
}

/// Append a 32-bit value as `0x` and exactly eight hexadecimal digits.
pub fn push_hex8(out: &mut String, n: u32)
    ensures
        final(out)@ == old(out)@ + hex8(n),
{
    out.append("0x");
    push_hex_fixed(out, n as u64, 8);
    proof {
        assert(out@ =~= old(out)@ + hex8(n));
    }
}

} // verus!
