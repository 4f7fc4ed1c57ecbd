//! Sizes as the pages print them.

use vstd::prelude::*;

use crate::text::{append, decimal, decimal_nat, push_char, signed_decimal, write_decimal};

verus! {

/// Two to the 53rd: the first integer past which a double cannot hold every
/// integer.
pub const DOUBLE_EXACT_LIMIT: u64 = 0x20_0000_0000_0000;

/// The power of two by which `b` is scaled down to fit a double's 53-bit
/// significand: one when it fits already.
pub open spec fn double_scale(b: nat) -> nat
    decreases b,
{
    if b < DOUBLE_EXACT_LIMIT {
        1
    } else {
        2 * double_scale(b / 2)
    }
}

/// The integer a double holds after converting `b` to it: `b` rounded to 53
/// significant bits, half-way cases going to the even neighbour.
pub open spec fn nearest_double(b: nat) -> nat {
    let p = double_scale(b);
    let q = b / p;
    let r = b % p;
    if p > 1 && (r > p / 2 || (r == p / 2 && q % 2 == 1)) {
        (q + 1) * p
    } else {
        q * p
    }
}

/// Which binary unit a size of `n` bytes (at least 1024) is shown in:
/// 1 KiB, 2 MiB, 3 GiB, 4 TiB, the largest.
pub open spec fn unit_index(n: nat) -> nat {
    if n >= 1_099_511_627_776 {
        4
    } else if n >= 1_073_741_824 {
        3
    } else if n >= 1_048_576 {
        2
    } else {
        1
    }
}

/// Bytes in one of unit `u`.
pub open spec fn unit_bytes(u: nat) -> nat {
    if u == 4 {
        1_099_511_627_776
    } else if u == 3 {
        1_073_741_824
    } else if u == 2 {
        1_048_576
    } else {
        1024
    }
}

pub open spec fn unit_name(u: nat) -> Seq<char> {
    if u == 4 {
        "TiB"@
    } else if u == 3 {
        "GiB"@
    } else if u == 2 {
        "MiB"@
    } else {
        "KiB"@
    }
}

/// `x / d` in tenths, rounded to the nearest tenth with half-way cases
/// going to the even tenth, as `{:.1}` rounds.
pub open spec fn tenths(x: nat, d: nat) -> nat {
    let t = x * 10 / d;
    let r = x * 10 % d;
    if 2 * r > d || (2 * r == d && t % 2 == 1) {
        t + 1
    } else {
        t
    }
}

/// How a size reads: whole bytes below a KiB, otherwise one decimal in the
/// largest binary unit (up to TiB) that leaves at least one, computed from
/// the size as a double holds it.
pub open spec fn bytes_text(bytes: i64) -> Seq<char> {
    if bytes < 1024 {
        decimal(bytes as int) + " B"@
    } else {
        let n = nearest_double(bytes as nat);
        let u = unit_index(n);
        let t = tenths(n, unit_bytes(u));
        decimal_nat(t / 10) + "."@ + decimal_nat(t % 10) + " "@ + unit_name(u)
    }
}

/// The value `b as f64` holds.
fn as_double(b: u64) -> (n: u128)
    requires
        b < 0x8000_0000_0000_0000,
    ensures
        n == nearest_double(b as nat),
        n <= b + 2048,
{
    let mut p: u64 = 1;
    let mut c: u64 = b;
    while c >= DOUBLE_EXACT_LIMIT
        invariant
            1 <= p <= 2048,
            b < 0x8000_0000_0000_0000,
            c == b / p,
            double_scale(b as nat) == p * double_scale(c as nat),
        decreases c,
    {
        proof {
            vstd::arithmetic::div_mod::lemma_fundamental_div_mod(b as int, p as int);
            assert(p * c <= b) by (nonlinear_arith)
                requires
                    b == p * (b / p) + b % p,
                    c == b / p,
                    0 <= b % p,
            ;
            assert(p < 1024) by (nonlinear_arith)
                requires
                    p * c <= b,
                    c >= DOUBLE_EXACT_LIMIT,
                    b < 0x8000_0000_0000_0000,
                    p >= 1,
            ;
            vstd::arithmetic::div_mod::lemma_div_denominator(b as int, p as int, 2);
            assert(double_scale(c as nat) == 2 * double_scale((c / 2) as nat));
            assert(p * (2 * double_scale((c / 2) as nat)) == (p * 2) * double_scale((c / 2) as nat))
                by (nonlinear_arith);
        }
        c = c / 2;
        p = p * 2;
    }
    assert(double_scale(c as nat) == 1);
    assert(double_scale(b as nat) == p) by (nonlinear_arith)
        requires
            double_scale(b as nat) == p * double_scale(c as nat),
            double_scale(c as nat) == 1,
    ;
    let q = c;
    let r = b % p;
    let half = p / 2;
    let up = p > 1 && (r > half || (r == half && q % 2 == 1));
    proof {
        vstd::arithmetic::div_mod::lemma_fundamental_div_mod(b as int, p as int);
        assert(p * q <= b) by (nonlinear_arith)
            requires
                b == p * (b / p) + b % p,
                q == b / p,
                0 <= b % p,
        ;
        assert((q + 1) * p <= b + 2048) by (nonlinear_arith)
            requires
                p * q <= b,
                p <= 2048,
        ;
    }
    let scaled: u128 = if up {
        (q as u128 + 1) * p as u128
    } else {
        q as u128 * p as u128
    };
    scaled
}

/// A size in bytes as the pages print it: "512 B", "1.0 KiB", "3.0 GiB".
pub fn format_bytes(bytes: i64) -> (text: String)
    ensures
        text@ == bytes_text(bytes),
{
    if bytes < 1024 {
        let mut text = signed_decimal(bytes);
        append(&mut text, " B");
        return text;
    }
    let n = as_double(bytes as u64);
    let (divisor, name): (u128, &str) = if n >= 1_099_511_627_776 {
        (1_099_511_627_776, "TiB")
    } else if n >= 1_073_741_824 {
        (1_073_741_824, "GiB")
    } else if n >= 1_048_576 {
        (1_048_576, "MiB")
    } else {
        (1024, "KiB")
    };
    assert(divisor == unit_bytes(unit_index(n as nat)));
    assert(name@ == unit_name(unit_index(n as nat)));
    let scaled = n * 10;
    let t = scaled / divisor;
    let r = scaled % divisor;
    let rounded = if 2 * r > divisor || (2 * r == divisor && t % 2 == 1) {
        t + 1
    } else {
        t
    };
    assert(rounded == tenths(n as nat, divisor as nat));
    proof {
        reveal_strlit(".");
        reveal_strlit(" ");
    }
    let mut text = String::new();
    write_decimal(rounded / 10, &mut text);
    push_char(&mut text, '.');
    write_decimal(rounded % 10, &mut text);
    push_char(&mut text, ' ');
    append(&mut text, name);
    assert(text@ =~= bytes_text(bytes));
    text
}

} // verus!
