//! Rendering a rational as the display text.
//!
//! An integral value prints as a plain decimal integer; any other
//! value prints with a decimal point followed by its fractional
//! expansion, truncated toward zero after `FRAC_DIGITS` digits and
//! with trailing zeros removed.

use vstd::prelude::*;
use crate::chars::{digit_char, value_digit};
use crate::rat::{Rat, RatModel};

verus! {

/// How many fractional digits the display keeps at most.
pub const FRAC_DIGITS: u64 = 12;

/// The decimal digits of a nonnegative integer, most significant first.
pub open spec fn dec_digits(k: int) -> Seq<char>
    decreases k,
{
    if k < 10 {
        seq![digit_char(k)]
    } else {
        dec_digits(k / 10).push(digit_char(k % 10))
    }
}

/// The first `cnt` digits of the fractional expansion of `r / d`.
pub open spec fn frac_digits(r: int, d: int, cnt: nat) -> Seq<char>
    decreases cnt,
{
    if cnt == 0 {
        Seq::empty()
    } else {
        seq![digit_char((r * 10) / d)] + frac_digits((r * 10) % d, d, (cnt - 1) as nat)
    }
}

/// The sequence without its trailing `'0'` characters.
pub open spec fn strip_zeros(s: Seq<char>) -> Seq<char>
    decreases s.len(),
{
    if s.len() > 0 && s[s.len() - 1] == '0' {
        strip_zeros(s.drop_last())
    } else {
        s
    }
}

/// The text of the nonnegative value `m / d`.
pub open spec fn mag_chars(m: int, d: int) -> Seq<char> {
    let fr = strip_zeros(frac_digits(m % d, d, FRAC_DIGITS as nat));
    if fr.len() == 0 {
        dec_digits(m / d)
    } else {
        dec_digits(m / d) + seq!['.'] + fr
    }
}

/// Whether the value's magnitude shows as a bare `0`: no integer part
/// and no fractional digit survives the truncated expansion.
pub open spec fn shows_zero(m: int, d: int) -> bool {
    m / d == 0 && strip_zeros(frac_digits(m % d, d, FRAC_DIGITS as nat)).len() == 0
}

/// The display text of a rational value.  A magnitude too small for
/// the display shows as a plain `0`, never as `-0`.
pub open spec fn rat_to_chars(v: RatModel) -> Seq<char> {
    if v.n == 0 {
        seq!['0']
    } else if shows_zero(if v.n < 0 { -v.n } else { v.n }, v.d) {
        seq!['0']
    } else if v.n < 0 {
        seq!['-'] + mag_chars(-v.n, v.d)
    } else {
        mag_chars(v.n, v.d)
    }
}

/// Appends the decimal digits of `k`, exactly `dec_digits(k)`.
fn push_digits(k: u64, out: &mut Vec<char>)
    ensures
        final(out)@ == old(out)@ + dec_digits(k as int),
    decreases k,
{
    if k < 10 {
        out.push(value_digit(k));
        proof {
            assert(out@ =~= old(out)@ + dec_digits(k as int));
        }
    } else {
        push_digits(k / 10, out);
        out.push(value_digit(k % 10));
        proof {
            assert(out@ =~= old(out)@ + dec_digits(k as int));
        }
    }
}

/// Appends `cnt` fractional digits of `r / d`, exactly `frac_digits`.
fn push_frac(r: u64, d: u64, cnt: u64, out: &mut Vec<char>)
    requires
        1 <= d,
        r < d,
    ensures
        final(out)@ == old(out)@ + frac_digits(r as int, d as int, cnt as nat),
    decreases cnt,
{
    if cnt == 0 {
        proof {
            assert(out@ =~= old(out)@ + frac_digits(r as int, d as int, 0));
        }
    } else {
        let t: u128 = (r as u128) * 10;
        let dig: u64 = (t / (d as u128)) as u64;
        let r2: u64 = (t % (d as u128)) as u64;
        proof {
            assert((t as int) / (d as int) < 10) by (nonlinear_arith)
                requires (t as int) < 10 * (d as int), (d as int) >= 1;
        }
        out.push(value_digit(dig));
        push_frac(r2, d, cnt - 1, out);
        proof {
            assert(out@ =~= old(out)@ + frac_digits(r as int, d as int, cnt as nat));
        }
    }
}

/// Removes trailing zeros in place, exactly `strip_zeros`.
fn strip_trailing_zeros(v: &mut Vec<char>)
    ensures
        final(v)@ == strip_zeros(old(v)@),
{
    let ghost orig = v@;
    while v.len() > 0 && v[v.len() - 1] == '0'
        invariant
            strip_zeros(v@) == strip_zeros(orig),
        decreases v@.len(),
    {
        proof {
            assert(v@.drop_last() =~= v@.subrange(0, v@.len() - 1));
        }
        v.pop();
    }
}

/// Renders a rational value as its display text, exactly `rat_to_chars`.
pub fn render(x: &Rat) -> (out: Vec<char>)
    requires
        x.wf(),
    ensures
        out@ == rat_to_chars(x@),
{
    let mut out: Vec<char> = Vec::new();
    if x.num == 0 {
        out.push('0');
        proof {
            assert(out@ =~= seq!['0']);
        }
        return out;
    }
    let mag: u64 = if x.num < 0 {
        (-x.num) as u64
    } else {
        x.num as u64
    };
    let d: u64 = x.den as u64;
    let ip: u64 = mag / d;
    let r: u64 = mag % d;
    let mut fr: Vec<char> = Vec::new();
    push_frac(r, d, FRAC_DIGITS, &mut fr);
    strip_trailing_zeros(&mut fr);
    if ip == 0 && fr.len() == 0 {
        out.push('0');
        proof {
            assert(out@ =~= seq!['0']);
        }
        return out;
    }
    if x.num < 0 {
        out.push('-');
    }
    push_digits(ip, &mut out);
    if fr.len() > 0 {
        out.push('.');
        out.append(&mut fr);
    }
    proof {
        assert(out@ =~= rat_to_chars(x@));
    }
    out
}

} // verus!
