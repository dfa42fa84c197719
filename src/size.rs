//! Byte counts as text: raw decimal, or scaled to binary units.

use vstd::prelude::*;
use crate::text::{decimal, digit_char, push_char, push_decimal};

verus! {

/// Integers up to this bound are held exactly by a 64-bit float.
pub const EXACT_FLOAT_BOUND: u64 = 9007199254740992;

/// Spacing of the 64-bit floats near `n`.
pub open spec fn float_spacing(n: nat) -> nat
    decreases n,
{
    if n < EXACT_FLOAT_BOUND {
        1
    } else {
        2 * float_spacing(n / 2)
    }
}

/// `a / d` rounded to the nearest integer, ties to the even one.
pub open spec fn round_half_even(a: nat, d: nat) -> nat {
    let q = a / d;
    let r = a % d;
    if 2 * r > d || (2 * r == d && q % 2 == 1) {
        q + 1
    } else {
        q
    }
}

/// The 64-bit float nearest to `n` (ties to even), as an integer.
pub open spec fn nearest_float(n: nat) -> nat {
    round_half_even(n, float_spacing(n)) * float_spacing(n)
}

/// How many times the scaled value is divided by 1024: B, K, M, G, T.
pub open spec fn unit_index(n: nat) -> nat {
    if n < 1024 {
        0
    } else if n < 1048576 {
        1
    } else if n < 1073741824 {
        2
    } else if n < 1099511627776 {
        3
    } else {
        4
    }
}

/// 1024 to the power `k`, for the units in use.
pub open spec fn unit_divisor(k: nat) -> nat {
    if k == 0 {
        1
    } else if k == 1 {
        1024
    } else if k == 2 {
        1048576
    } else if k == 3 {
        1073741824
    } else {
        1099511627776
    }
}

/// The suffix letter of unit `k`.
pub open spec fn unit_letter(k: nat) -> char {
    if k == 0 {
        'B'
    } else if k == 1 {
        'K'
    } else if k == 2 {
        'M'
    } else if k == 3 {
        'G'
    } else {
        'T'
    }
}

/// The scaled size in tenths of its unit, rounded as float formatting
/// rounds one decimal place.
pub open spec fn scaled_tenths(n: nat) -> nat {
    round_half_even(10 * nearest_float(n), unit_divisor(unit_index(n)))
}

/// The text of a byte count: raw decimal digits, or scaled to a unit.
pub open spec fn size_text(n: nat, human: bool) -> Seq<char> {
    if !human {
        decimal(n)
    } else if unit_index(n) == 0 {
        decimal(n).push('B')
    } else {
        let t = scaled_tenths(n);
        (decimal(t / 10).push('.').push(digit_char(t % 10))).push(unit_letter(unit_index(n)))
    }
}

/// `a / d` rounded to the nearest integer, ties to the even one.
fn divide_rounded(a: u128, d: u128) -> (r: u128)
    requires
        d > 0,
        d <= 0x1_0000_0000_0000_0000,
        a < 0x1_0000_0000_0000_0000_0000_0000,
    ensures
        r == round_half_even(a as nat, d as nat),
{
    let q = a / d;
    let r = a % d;
    if 2 * r > d || (2 * r == d && q % 2 == 1) {
        q + 1
    } else {
        q
    }
}

/// The 64-bit float nearest to `n`, as an integer.
fn to_nearest_float(n: u64) -> (r: u128)
    ensures
        r == nearest_float(n as nat),
        r <= n + 4096,
{
    let mut m: u64 = n;
    let mut spacing: u64 = 1;
    while m >= EXACT_FLOAT_BOUND
        invariant
            float_spacing(n as nat) == spacing * float_spacing(m as nat),
            m * spacing <= n,
            1 <= spacing <= 4096,
            spacing > 1 ==> spacing * EXACT_FLOAT_BOUND <= 2 * n,
        decreases m,
    {
        proof {
            let s = float_spacing((m / 2) as nat);
            assert(spacing * (2 * s) == (2 * spacing) * s) by (nonlinear_arith);
            assert((m / 2) * (2 * spacing) <= m * spacing) by (nonlinear_arith)
                requires spacing >= 1;
            assert(spacing * EXACT_FLOAT_BOUND <= n) by (nonlinear_arith)
                requires m * spacing <= n, m >= EXACT_FLOAT_BOUND, spacing >= 1;
            assert(spacing < 2048);
        }
        m = m / 2;
        spacing = spacing * 2;
    }
    assert(float_spacing(m as nat) == 1);
    let q = divide_rounded(n as u128, spacing as u128);
    proof {
        assert(q <= n / spacing + 1);
        assert((n / spacing) * spacing <= n) by (nonlinear_arith)
            requires spacing >= 1;
        assert(q * spacing <= n + spacing) by (nonlinear_arith)
            requires q <= n / spacing + 1, (n / spacing) * spacing <= n;
    }
    q * (spacing as u128)
}

/// Formats a byte count: its decimal digits, or, when `human` is set, the
/// count scaled by 1024 to B, K, M, G or T (stopping at T), with no decimal
/// place for bytes and one for the larger units.
pub fn format_size(size: u64, human: bool) -> (r: String)
    ensures
        r@ == size_text(size as nat, human),
{
    let mut out = String::new();
    if !human {
        push_decimal(&mut out, size as u128);
        assert(out@ =~= size_text(size as nat, human));
        return out;
    }
    if size < 1024 {
        push_decimal(&mut out, size as u128);
        push_char(&mut out, 'B');
        assert(out@ =~= size_text(size as nat, human));
        return out;
    }
    let (divisor, letter): (u128, char) = if size < 1048576 {
        (1024, 'K')
    } else if size < 1073741824 {
        (1048576, 'M')
    } else if size < 1099511627776 {
        (1073741824, 'G')
    } else {
        (1099511627776, 'T')
    };
    let tenths = divide_rounded(10 * to_nearest_float(size), divisor);
    push_decimal(&mut out, tenths / 10);
    push_char(&mut out, '.');
    let d: u8 = (tenths % 10) as u8;
    push_char(&mut out, (d + 48) as char);
    push_char(&mut out, letter);
    assert(out@ =~= size_text(size as nat, human));
    out
}

} // verus!
