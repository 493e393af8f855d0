//! Rendering and re-evaluating agree.
//!
//! The display text produced for a result is itself a valid
//! expression; evaluating it either overflows the machine bounds or
//! yields a value whose display text is the same again.  This module
//! builds that theorem from facts about digit sequences.

use vstd::prelude::*;
use vstd::arithmetic::div_mod::{
    lemma_fundamental_div_mod, lemma_fundamental_div_mod_converse_div,
    lemma_fundamental_div_mod_converse_mod, lemma_div_multiples_vanish_quotient, lemma_mod_bound,
};
use crate::chars::{is_digit, digit_val, digit_char};
use crate::errors::EvalError;
use crate::eval::{
    sp_num_loop, sp_factor, sp_apply, sp_term_rest, sp_term, sp_expr_rest, sp_expr, spec_eval,
};
use crate::rat::{RatModel, model_wf, in_bounds, rm_neg, RAT_BOUND};
use crate::render::{
    dec_digits, frac_digits, strip_zeros, mag_chars, rat_to_chars, shows_zero, FRAC_DIGITS,
};

verus! {

/// The power of ten with exponent `k`.
pub open spec fn pow10(k: nat) -> int
    decreases k,
{
    if k == 0 {
        1
    } else {
        10 * pow10((k - 1) as nat)
    }
}

/// Every character of the sequence is a decimal digit.
pub open spec fn all_digits(ds: Seq<char>) -> bool {
    forall|i: int| 0 <= i < ds.len() ==> is_digit(#[trigger] ds[i])
}

/// Folds a digit sequence into an accumulator, front to back, the way
/// a left-to-right scan reads a number.
pub open spec fn acc_run(acc: int, ds: Seq<char>) -> int
    decreases ds.len(),
{
    if ds.len() == 0 {
        acc
    } else {
        acc_run(acc * 10 + digit_val(ds[0]), ds.drop_first())
    }
}

/// A run of `k` zero characters.
pub open spec fn zeros(k: nat) -> Seq<char> {
    Seq::new(k, |i: int| '0')
}

/// Powers of ten are positive.
pub proof fn lemma_pow10_pos(k: nat)
    ensures
        pow10(k) >= 1,
    decreases k,
{
    if k > 0 {
        lemma_pow10_pos((k - 1) as nat);
    }
}

/// The digit character of a value below ten reads back as the value.
pub proof fn lemma_digit_char_val(x: int)
    requires
        0 <= x < 10,
    ensures
        is_digit(digit_char(x)),
        digit_val(digit_char(x)) == x,
{
}

/// A digit character survives the trip through its value.
pub proof fn lemma_char_roundtrip(c: char)
    requires
        is_digit(c),
    ensures
        digit_char(digit_val(c)) == c,
{
}

/// Folding past an appended digit multiplies by ten and adds it.
pub proof fn lemma_acc_run_push(acc: int, ds: Seq<char>, c: char)
    ensures
        acc_run(acc, ds.push(c)) == acc_run(acc, ds) * 10 + digit_val(c),
    decreases ds.len(),
{
    if ds.len() == 0 {
        reveal_with_fuel(acc_run, 2);
        assert(ds.push(c)[0] == c);
        assert(ds.push(c).drop_first() =~= Seq::<char>::empty());
    } else {
        assert(ds.push(c)[0] == ds[0]);
        assert(ds.push(c).drop_first() =~= ds.drop_first().push(c));
        lemma_acc_run_push(acc * 10 + digit_val(ds[0]), ds.drop_first(), c);
    }
}

/// The accumulator contributes linearly: a run is the accumulator
/// scaled by the length's power of ten, plus the run from zero.
pub proof fn lemma_acc_run_linear(acc: int, ds: Seq<char>)
    ensures
        acc_run(acc, ds) == acc * pow10(ds.len()) + acc_run(0, ds),
    decreases ds.len(),
{
    if ds.len() > 0 {
        let d0 = digit_val(ds[0]);
        let rest = ds.drop_first();
        let p = pow10(rest.len());
        lemma_acc_run_linear(acc * 10 + d0, rest);
        lemma_acc_run_linear(d0, rest);
        assert((acc * 10 + d0) * p == acc * (10 * p) + d0 * p) by (nonlinear_arith);
    }
}

/// A run of digits from a nonnegative accumulator stays within the
/// accumulator's decade.
pub proof fn lemma_acc_run_bounds(acc: int, ds: Seq<char>)
    requires
        acc >= 0,
        all_digits(ds),
    ensures
        acc * pow10(ds.len()) <= acc_run(acc, ds) < (acc + 1) * pow10(ds.len()),
    decreases ds.len(),
{
    if ds.len() == 0 {
    } else {
        assert(is_digit(ds[0]));
        let d0 = digit_val(ds[0]);
        let rest = ds.drop_first();
        let p = pow10(rest.len());
        let acc1 = acc * 10 + d0;
        assert(all_digits(rest)) by {
            assert forall|i: int| 0 <= i < rest.len() implies is_digit(#[trigger] rest[i]) by {
                assert(rest[i] == ds[i + 1]);
            };
        };
        lemma_acc_run_bounds(acc1, rest);
        lemma_pow10_pos(rest.len());
        assert(acc * (10 * p) <= acc1 * p && (acc1 + 1) * p <= (acc + 1) * (10 * p))
            by (nonlinear_arith)
            requires
                acc >= 0,
                0 <= d0 <= 9,
                p >= 1,
                acc1 == acc * 10 + d0,
        ;
    }
}

/// The digits of a nonnegative integer read back as the integer.
pub proof fn lemma_dec_digits_props(m: int)
    requires
        m >= 0,
    ensures
        all_digits(dec_digits(m)),
        dec_digits(m).len() >= 1,
        acc_run(0, dec_digits(m)) == m,
    decreases m,
{
    if m < 10 {
        reveal_with_fuel(acc_run, 2);
        lemma_digit_char_val(m);
        assert(seq![digit_char(m)].drop_first() =~= Seq::<char>::empty());
    } else {
        lemma_dec_digits_props(m / 10);
        lemma_digit_char_val(m % 10);
        let ds = dec_digits(m / 10);
        lemma_acc_run_push(0, ds, digit_char(m % 10));
        assert(all_digits(ds.push(digit_char(m % 10)))) by {
            assert forall|i: int| 0 <= i < ds.len() + 1 implies is_digit(
                #[trigger] ds.push(digit_char(m % 10))[i],
            ) by {
                if i < ds.len() {
                    assert(ds.push(digit_char(m % 10))[i] == ds[i]);
                }
            };
        };
    }
}

/// The fractional expansion of zero is all zeros.
pub proof fn lemma_frac_zero(d: int, cnt: nat)
    requires
        d >= 1,
    ensures
        frac_digits(0, d, cnt) == zeros(cnt),
    decreases cnt,
{
    if cnt == 0 {
        assert(frac_digits(0, d, cnt) =~= zeros(cnt));
    } else {
        lemma_fundamental_div_mod_converse_div(0, d, 0, 0);
        lemma_fundamental_div_mod_converse_mod(0, d, 0, 0);
        assert((0int * 10) / d == 0 && (0int * 10) % d == 0);
        lemma_frac_zero(d, (cnt - 1) as nat);
        assert(frac_digits(0, d, cnt) =~= zeros(cnt));
    }
}

/// Every character of a fractional expansion is a digit.
pub proof fn lemma_frac_all_digits(r: int, d: int, cnt: nat)
    requires
        0 <= r < d,
    ensures
        all_digits(frac_digits(r, d, cnt)),
        frac_digits(r, d, cnt).len() == cnt,
    decreases cnt,
{
    if cnt > 0 {
        assert(0 <= (r * 10) / d < 10 && 0 <= (r * 10) % d < d) by (nonlinear_arith)
            requires
                0 <= r < d,
                d >= 1,
        ;
        lemma_digit_char_val((r * 10) / d);
        lemma_frac_all_digits((r * 10) % d, d, (cnt - 1) as nat);
        let hd = seq![digit_char((r * 10) / d)];
        let tl = frac_digits((r * 10) % d, d, (cnt - 1) as nat);
        assert forall|i: int| 0 <= i < (hd + tl).len() implies is_digit(#[trigger] (hd + tl)[i]) by {
            if i >= 1 {
                assert((hd + tl)[i] == tl[i - 1]);
            }
        };
    }
}

/// Scaling numerator and denominator alike leaves the expansion as it is.
pub proof fn lemma_frac_scale(r: int, d: int, c: int, cnt: nat)
    requires
        0 <= r,
        1 <= d,
        1 <= c,
    ensures
        frac_digits(r * c, d * c, cnt) == frac_digits(r, d, cnt),
    decreases cnt,
{
    if cnt == 0 {
        assert(frac_digits(r * c, d * c, cnt) =~= frac_digits(r, d, cnt));
    } else {
        let q = (r * 10) / d;
        let rr = (r * 10) % d;
        lemma_fundamental_div_mod(r * 10, d);
        lemma_mod_bound(r * 10, d);
        assert(r * 10 == q * d + rr && 0 <= rr < d) by (nonlinear_arith)
            requires
                r * 10 == d * q + rr,
                0 <= rr < d,
        ;
        lemma_div_multiples_vanish_quotient(c, r * 10, d);
        assert(c * (r * 10) == (r * c) * 10) by (nonlinear_arith);
        assert(c * d == d * c);
        assert(q == ((r * c) * 10) / (d * c));
        assert((r * c) * 10 == q * (d * c) + rr * c) by (nonlinear_arith)
            requires
                r * 10 == q * d + rr,
        ;
        assert(0 <= rr * c < d * c) by (nonlinear_arith)
            requires
                0 <= rr < d,
                c >= 1,
        ;
        lemma_fundamental_div_mod_converse_mod((r * c) * 10, d * c, q, rr * c);
        lemma_frac_scale(rr, d, c, (cnt - 1) as nat);
        assert(frac_digits(r * c, d * c, cnt) =~= frac_digits(r, d, cnt));
    }
}

/// Expanding the value of a digit sequence over its own power of ten
/// gives the sequence back, padded with zeros.
pub proof fn lemma_frac_expand(ds: Seq<char>, cnt: nat)
    requires
        all_digits(ds),
        ds.len() <= cnt,
    ensures
        frac_digits(acc_run(0, ds), pow10(ds.len()), cnt) == ds + zeros((cnt - ds.len()) as nat),
    decreases ds.len(),
{
    if ds.len() == 0 {
        lemma_frac_zero(1, cnt);
        assert(zeros(cnt) =~= ds + zeros((cnt - ds.len()) as nat));
    } else {
        assert(is_digit(ds[0]));
        let d0 = digit_val(ds[0]);
        let rest = ds.drop_first();
        assert(all_digits(rest)) by {
            assert forall|i: int| 0 <= i < rest.len() implies is_digit(#[trigger] rest[i]) by {
                assert(rest[i] == ds[i + 1]);
            };
        };
        let pr = pow10(rest.len());
        let p = pow10(ds.len());
        assert(p == 10 * pr);
        lemma_pow10_pos(rest.len());
        let fv = acc_run(0, ds);
        let fvr = acc_run(0, rest);
        assert(fv == acc_run(d0, rest));
        lemma_acc_run_linear(d0, rest);
        assert(fv == d0 * pr + fvr);
        lemma_acc_run_bounds(0, rest);
        assert(fvr < pr);
        assert(fv * 10 == d0 * p + fvr * 10) by (nonlinear_arith)
            requires
                fv == d0 * pr + fvr,
                p == 10 * pr,
        ;
        assert(0 <= fvr * 10 < p);
        assert(fv * 10 == d0 * p + fvr * 10);
        lemma_fundamental_div_mod_converse_div(fv * 10, p, d0, fvr * 10);
        lemma_fundamental_div_mod_converse_mod(fv * 10, p, d0, fvr * 10);
        lemma_char_roundtrip(ds[0]);
        lemma_frac_scale(fvr, pr, 10, (cnt - 1) as nat);
        assert(fvr * 10 == 10 * fvr) by (nonlinear_arith);
        assert(pr * 10 == 10 * pr) by (nonlinear_arith);
        lemma_frac_expand(rest, (cnt - 1) as nat);
        assert(frac_digits(fv, p, cnt) =~= ds + zeros((cnt - ds.len()) as nat)) by {
            assert(frac_digits(fv, p, cnt) == seq![digit_char((fv * 10) / p)] + frac_digits(
                (fv * 10) % p,
                p,
                (cnt - 1) as nat,
            ));
            assert((fv * 10) / p == d0);
            assert(digit_char(d0) == ds[0]);
            assert((fv * 10) % p == fvr * 10);
            assert(frac_digits(fvr * 10, p, (cnt - 1) as nat) == frac_digits(
                fvr,
                pr,
                (cnt - 1) as nat,
            ));
            assert(frac_digits(fvr, pr, (cnt - 1) as nat) == rest + zeros(
                ((cnt - 1) - rest.len()) as nat,
            ));
        };
    }
}

/// What stripping trailing zeros leaves: a prefix that does not end
/// in a zero character.
pub proof fn lemma_strip_prefix(s: Seq<char>)
    ensures
        strip_zeros(s).len() <= s.len(),
        strip_zeros(s) == s.subrange(0, strip_zeros(s).len() as int),
        strip_zeros(s).len() > 0 ==> strip_zeros(s).last() != '0',
    decreases s.len(),
{
    if s.len() > 0 && s[s.len() - 1] == '0' {
        lemma_strip_prefix(s.drop_last());
        let k = strip_zeros(s.drop_last()).len();
        assert(s.drop_last() =~= s.subrange(0, s.len() - 1));
        assert(s.drop_last().subrange(0, k as int) =~= s.subrange(0, k as int));
    } else {
        assert(s.subrange(0, s.len() as int) =~= s);
    }
}

/// Appended zeros vanish under stripping.
pub proof fn lemma_strip_pad(a: Seq<char>, k: nat)
    ensures
        strip_zeros(a + zeros(k)) == strip_zeros(a),
    decreases k,
{
    if k == 0 {
        assert(a + zeros(0) =~= a);
    } else {
        let s = a + zeros(k);
        assert(s[s.len() - 1] == '0');
        assert(s.drop_last() =~= a + zeros((k - 1) as nat));
        lemma_strip_pad(a, (k - 1) as nat);
    }
}

/// A sequence that does not end in a zero character strips to itself.
pub proof fn lemma_strip_noop(s: Seq<char>)
    requires
        s.len() == 0 || s.last() != '0',
    ensures
        strip_zeros(s) == s,
{
}

/// Scanning a run of `k` digit characters either overflows or lands
/// past the run with the digits folded into the accumulator.
pub proof fn lemma_numloop_digits(
    s: Seq<char>,
    i: int,
    acc: int,
    den: int,
    saw_dot: bool,
    sd: bool,
    fuel: nat,
    k: int,
)
    requires
        0 <= i,
        0 <= k,
        i + k <= s.len(),
        forall|j: int| i <= j < i + k ==> is_digit(#[trigger] s[j]),
        fuel >= s.len() - i + 1,
        acc >= 0,
        den >= 1,
    ensures
        sp_num_loop(s, i, acc, den, saw_dot, sd, fuel) == Err::<(RatModel, int), EvalError>(
            EvalError::Overflow,
        ) || sp_num_loop(s, i, acc, den, saw_dot, sd, fuel) == sp_num_loop(
            s,
            i + k,
            acc_run(acc, s.subrange(i, i + k)),
            if saw_dot {
                den * pow10(k as nat)
            } else {
                den
            },
            saw_dot,
            sd || k > 0,
            (fuel - k) as nat,
        ),
    decreases k,
{
    if k == 0 {
        assert(s.subrange(i, i) =~= Seq::<char>::empty());
    } else {
        assert(is_digit(s[i]));
        let dv = digit_val(s[i]);
        if saw_dot && !in_bounds(den * 10) {
        } else if !in_bounds(acc * 10 + dv) {
        } else {
            let acc1 = acc * 10 + dv;
            let den1: int = if saw_dot {
                den * 10
            } else {
                den
            };
            lemma_numloop_digits(s, i + 1, acc1, den1, saw_dot, true, (fuel - 1) as nat, k - 1);
            let run = s.subrange(i, i + k);
            assert(run[0] == s[i]);
            assert(run.drop_first() =~= s.subrange(i + 1, i + k));
            assert(acc_run(acc, run) == acc_run(acc1, s.subrange(i + 1, i + k)));
            if saw_dot {
                assert(pow10(k as nat) == 10 * pow10((k - 1) as nat));
                assert((den * 10) * pow10((k - 1) as nat) == den * (10 * pow10((k - 1) as nat)))
                    by (nonlinear_arith);
            }
        }
    }
}

/// A successful literal scan yields a well-formed value when started
/// from well-formed arguments.
pub proof fn lemma_numloop_wf(
    s: Seq<char>,
    i: int,
    acc: int,
    den: int,
    saw_dot: bool,
    sd: bool,
    fuel: nat,
)
    requires
        0 <= acc <= RAT_BOUND as int,
        1 <= den <= RAT_BOUND as int,
    ensures
        (match sp_num_loop(s, i, acc, den, saw_dot, sd, fuel) {
            Ok((w, j)) => model_wf(w) && 0 <= w.n,
            Err(_) => true,
        }),
    decreases fuel,
{
    if fuel == 0 {
    } else if i < s.len() && is_digit(s[i]) {
        let dv = digit_val(s[i]);
        if saw_dot && !in_bounds(den * 10) {
        } else if !in_bounds(acc * 10 + dv) {
        } else {
            let den1: int = if saw_dot {
                den * 10
            } else {
                den
            };
            lemma_numloop_wf(s, i + 1, acc * 10 + dv, den1, saw_dot, true, (fuel - 1) as nat);
        }
    } else if i < s.len() && s[i] == '.' && !saw_dot {
        lemma_numloop_wf(s, i + 1, acc, den, true, sd, (fuel - 1) as nat);
    }
}

/// A successful factor yields a well-formed value.
pub proof fn lemma_factor_wf(s: Seq<char>, i: int, fuel: nat)
    ensures
        (match sp_factor(s, i, fuel) {
            Ok((w, j)) => model_wf(w),
            Err(_) => true,
        }),
    decreases fuel,
{
    if fuel == 0 {
    } else if i < s.len() && s[i] == '-' {
        lemma_factor_wf(s, i + 1, (fuel - 1) as nat);
    } else {
        lemma_numloop_wf(s, i, 0, 1, false, false, (fuel - 1) as nat);
    }
}

/// Applying an operator to well-formed values yields a well-formed
/// value when it succeeds.
pub proof fn lemma_apply_wf(c: char, a: RatModel, b: RatModel)
    requires
        model_wf(a),
        model_wf(b),
    ensures
        (match sp_apply(c, a, b) {
            Ok(v) => model_wf(v),
            Err(_) => true,
        }),
{
    assert(a.d * b.d >= 1) by (nonlinear_arith)
        requires a.d >= 1, b.d >= 1;
    if b.n != 0 {
        assert(a.d * b.n != 0) by (nonlinear_arith)
            requires a.d >= 1, b.n != 0;
    }
}

/// A successful term tail preserves well-formedness.
pub proof fn lemma_term_rest_wf(s: Seq<char>, j: int, acc: RatModel, fuel: nat)
    requires
        model_wf(acc),
    ensures
        (match sp_term_rest(s, j, acc, fuel) {
            Ok((w, p)) => model_wf(w),
            Err(_) => true,
        }),
    decreases fuel,
{
    if fuel == 0 {
    } else if j < s.len() && (s[j] == '*' || s[j] == '/' || s[j] == '%') {
        lemma_factor_wf(s, j + 1, (fuel - 1) as nat);
        match sp_factor(s, j + 1, (fuel - 1) as nat) {
            Ok((w1, j2)) => {
                lemma_apply_wf(s[j], acc, w1);
                match sp_apply(s[j], acc, w1) {
                    Ok(v2) => {
                        lemma_term_rest_wf(s, j2, v2, (fuel - 1) as nat);
                    },
                    Err(_) => {},
                }
            },
            Err(_) => {},
        }
    }
}

/// A successful term yields a well-formed value.
pub proof fn lemma_term_wf(s: Seq<char>, i: int, fuel: nat)
    ensures
        (match sp_term(s, i, fuel) {
            Ok((w, j)) => model_wf(w),
            Err(_) => true,
        }),
    decreases fuel,
{
    if fuel == 0 {
    } else {
        lemma_factor_wf(s, i, (fuel - 1) as nat);
        match sp_factor(s, i, (fuel - 1) as nat) {
            Ok((v, j)) => {
                lemma_term_rest_wf(s, j, v, (fuel - 1) as nat);
            },
            Err(_) => {},
        }
    }
}

/// A successful expression tail preserves well-formedness.
pub proof fn lemma_expr_rest_wf(s: Seq<char>, j: int, acc: RatModel, fuel: nat)
    requires
        model_wf(acc),
    ensures
        (match sp_expr_rest(s, j, acc, fuel) {
            Ok((w, p)) => model_wf(w),
            Err(_) => true,
        }),
    decreases fuel,
{
    if fuel == 0 {
    } else if j < s.len() && (s[j] == '+' || s[j] == '-') {
        lemma_term_wf(s, j + 1, (fuel - 1) as nat);
        match sp_term(s, j + 1, (fuel - 1) as nat) {
            Ok((w1, j2)) => {
                lemma_apply_wf(s[j], acc, w1);
                match sp_apply(s[j], acc, w1) {
                    Ok(v2) => {
                        lemma_expr_rest_wf(s, j2, v2, (fuel - 1) as nat);
                    },
                    Err(_) => {},
                }
            },
            Err(_) => {},
        }
    }
}

/// A successful expression yields a well-formed value.
pub proof fn lemma_expr_wf(s: Seq<char>, i: int, fuel: nat)
    ensures
        (match sp_expr(s, i, fuel) {
            Ok((w, j)) => model_wf(w),
            Err(_) => true,
        }),
    decreases fuel,
{
    if fuel == 0 {
    } else {
        lemma_term_wf(s, i, (fuel - 1) as nat);
        match sp_term(s, i, (fuel - 1) as nat) {
            Ok((v, j)) => {
                lemma_expr_rest_wf(s, j, v, (fuel - 1) as nat);
            },
            Err(_) => {},
        }
    }
}

/// Scanning a rendered literal `digits [ '.' digits ]` that reaches
/// the end of the sequence either overflows or yields exactly the
/// literal's value over its power-of-ten denominator.
proof fn lemma_parse_literal(s: Seq<char>, i0: int, ip: int, fr: Seq<char>, fuel: nat)
    requires
        0 <= i0 <= s.len(),
        ip >= 0,
        all_digits(fr),
        ({
            let dd = dec_digits(ip);
            if fr.len() == 0 {
                s.subrange(i0, s.len() as int) == dd
            } else {
                s.subrange(i0, s.len() as int) == dd + seq!['.'] + fr
            }
        }),
        fuel >= s.len() - i0 + 1,
    ensures
        sp_num_loop(s, i0, 0, 1, false, false, fuel) == Err::<(RatModel, int), EvalError>(
            EvalError::Overflow,
        ) || sp_num_loop(s, i0, 0, 1, false, false, fuel) == Ok::<(RatModel, int), EvalError>(
            (
                RatModel { n: ip * pow10(fr.len()) + acc_run(0, fr), d: pow10(fr.len()) },
                s.len() as int,
            ),
        ),
{
    let len = s.len() as int;
    let dd = dec_digits(ip);
    lemma_dec_digits_props(ip);
    let n1 = dd.len() as int;
    let dpos = i0 + n1;
    let tail = s.subrange(i0, len);
    assert(tail.len() == len - i0);
    if fr.len() == 0 {
        assert(tail.len() == n1);
    } else {
        assert(tail.len() == n1 + 1 + fr.len());
    }
    assert(dpos <= len);
    assert(forall|j: int| i0 <= j < dpos ==> s[j] == dd[j - i0]) by {
        assert(forall|j: int| i0 <= j < len ==> s[j] == tail[j - i0]);
    };
    assert(forall|j: int| i0 <= j < dpos ==> is_digit(#[trigger] s[j]));
    assert(s.subrange(i0, dpos) =~= dd);
    lemma_numloop_digits(s, i0, 0, 1, false, false, fuel, n1);
    let mid = sp_num_loop(s, dpos, ip, 1, false, true, (fuel - n1) as nat);
    if sp_num_loop(s, i0, 0, 1, false, false, fuel) == Err::<(RatModel, int), EvalError>(
        EvalError::Overflow,
    ) {
    } else {
        assert(sp_num_loop(s, i0, 0, 1, false, false, fuel) == mid);
        if fr.len() == 0 {
            assert(dpos == len);
            assert(mid == Ok::<(RatModel, int), EvalError>((RatModel { n: ip, d: 1 }, len)));
            assert(pow10(0) == 1);
            assert(ip * 1 + acc_run(0, fr) == ip);
        } else {
            assert(s[dpos] == tail[n1]);
            assert(tail[n1] == '.');
            assert(!is_digit('.'));
            let f2 = (fuel - n1 - 1) as nat;
            assert(mid == sp_num_loop(s, dpos + 1, ip, 1, true, true, f2));
            let pre = dd + seq!['.'];
            let full = pre + fr;
            assert(tail == full);
            assert(pre.len() == n1 + 1);
            assert forall|j: int| dpos + 1 <= j < len implies s[j] == fr[j - (dpos + 1)] by {
                let x = j - i0;
                assert(s[j] == tail[x]);
                assert(0 <= x < full.len());
                assert(full[x] == fr[x - pre.len()]);
            };
            assert forall|j: int| dpos + 1 <= j < len implies is_digit(#[trigger] s[j]) by {
                assert(s[j] == fr[j - (dpos + 1)]);
                assert(is_digit(fr[j - (dpos + 1)]));
            };
            let k = fr.len() as int;
            assert(dpos + 1 + k == len);
            lemma_numloop_digits(s, dpos + 1, ip, 1, true, true, f2, k);
            assert(s.subrange(dpos + 1, len) =~= fr);
            if mid == Err::<(RatModel, int), EvalError>(EvalError::Overflow) {
            } else {
                let fin = sp_num_loop(
                    s,
                    len,
                    acc_run(ip, fr),
                    1 * pow10(fr.len()),
                    true,
                    true,
                    (f2 - k) as nat,
                );
                assert(mid == fin);
                lemma_pow10_pos(fr.len());
                assert(1 * pow10(fr.len()) == pow10(fr.len()));
                lemma_acc_run_linear(ip, fr);
                assert(fin == Ok::<(RatModel, int), EvalError>(
                    (
                        RatModel {
                            n: ip * pow10(fr.len()) + acc_run(0, fr),
                            d: pow10(fr.len()),
                        },
                        len,
                    ),
                ));
            }
        }
    }
}

/// Evaluating the text `0` yields the value zero, whose text is `0`
/// again.
proof fn lemma_reparse_zero_text()
    ensures
        (match spec_eval(seq!['0']) {
            Ok(w) => rat_to_chars(w) == seq!['0'],
            Err(e) => e == EvalError::Overflow,
        }),
{
    let t = seq!['0'];
    assert(t.len() == 1);
    assert(dec_digits(0) =~= t);
    assert(t.subrange(0, 1) =~= dec_digits(0));
    lemma_parse_literal(t, 0, 0, Seq::empty(), 2);
    let numres = sp_num_loop(t, 0, 0, 1, false, false, 2);
    assert(t[0] == '0');
    assert(sp_factor(t, 0, 3) == numres);
    if numres == Err::<(RatModel, int), EvalError>(EvalError::Overflow) {
        assert(sp_term(t, 0, 4) == Err::<(RatModel, int), EvalError>(EvalError::Overflow));
        assert(sp_expr(t, 0, 5) == Err::<(RatModel, int), EvalError>(EvalError::Overflow));
    } else {
        let w = RatModel { n: 0 * pow10(0) + acc_run(0, Seq::empty()), d: pow10(0) };
        assert(w.n == 0);
        assert(numres == Ok::<(RatModel, int), EvalError>((w, 1)));
        assert(sp_term_rest(t, 1, w, 3) == Ok::<(RatModel, int), EvalError>((w, 1)));
        assert(sp_term(t, 0, 4) == Ok::<(RatModel, int), EvalError>((w, 1)));
        assert(sp_expr_rest(t, 1, w, 4) == Ok::<(RatModel, int), EvalError>((w, 1)));
        assert(sp_expr(t, 0, 5) == Ok::<(RatModel, int), EvalError>((w, 1)));
        assert(spec_eval(t) == Ok::<RatModel, EvalError>(w));
    }
}

/// Whatever evaluation returns successfully is well-formed.
pub proof fn lemma_eval_wf(e: Seq<char>)
    ensures
        (match spec_eval(e) {
            Ok(w) => model_wf(w),
            Err(_) => true,
        }),
{
    if e.len() > 0 {
        lemma_expr_wf(e, 0, (e.len() + 4) as nat);
    }
}

/// Rendering a well-formed value and evaluating the rendered text
/// again either overflows the machine bounds or yields a value whose
/// rendered text is the same again.
pub proof fn lemma_render_reparse(val: RatModel)
    requires
        model_wf(val),
    ensures
        (match spec_eval(rat_to_chars(val)) {
            Ok(w) => rat_to_chars(w) == rat_to_chars(val),
            Err(e) => e == EvalError::Overflow,
        }),
{
    let t = rat_to_chars(val);
    let neg = val.n < 0;
    let mag: int = if neg {
        -val.n
    } else {
        val.n
    };
    let d = val.d;
    if val.n == 0 || shows_zero(mag, d) {
        assert(t == seq!['0']);
        lemma_reparse_zero_text();
    } else {
        let ip = mag / d;
        let r = mag % d;
        lemma_fundamental_div_mod(mag, d);
        lemma_mod_bound(mag, d);
        assert(ip >= 0) by (nonlinear_arith)
            requires
                mag == d * ip + r,
                0 <= r < d,
                mag >= 1,
                d >= 1,
        ;
        let f12 = frac_digits(r, d, FRAC_DIGITS as nat);
        lemma_frac_all_digits(r, d, FRAC_DIGITS as nat);
        let fr = strip_zeros(f12);
        lemma_strip_prefix(f12);
        let k = fr.len() as int;
        assert(k <= FRAC_DIGITS as int);
        assert(all_digits(fr)) by {
            assert forall|i: int| 0 <= i < fr.len() implies is_digit(#[trigger] fr[i]) by {
                assert(fr[i] == f12[i]);
            };
        };
        let dd = dec_digits(ip);
        lemma_dec_digits_props(ip);
        let body = if k == 0 {
            dd
        } else {
            dd + seq!['.'] + fr
        };
        assert(mag_chars(mag, d) == body);
        assert(!(ip == 0 && k == 0));
        assert(t == if neg {
            seq!['-'] + body
        } else {
            body
        });
        let l = t.len() as int;
        let i0: int = if neg {
            1
        } else {
            0
        };
        assert(t.subrange(i0, l) =~= body);
        let nf: nat = if neg {
            l as nat
        } else {
            (l + 1) as nat
        };
        lemma_parse_literal(t, i0, ip, fr, nf);
        let numres = sp_num_loop(t, i0, 0, 1, false, false, nf);
        assert(t[i0] == body[0]);
        assert(body[0] == dd[0]);
        assert(is_digit(t[i0]));
        assert(t[i0] != '-');
        if neg {
            assert(t[0] == '-');
            assert(sp_factor(t, 1, (l + 1) as nat) == numres);
        }
        let errv = Err::<(RatModel, int), EvalError>(EvalError::Overflow);
        if numres == errv {
            assert(sp_factor(t, 0, (l + 2) as nat) == errv);
            assert(sp_term(t, 0, (l + 3) as nat) == errv);
            assert(sp_expr(t, 0, (l + 4) as nat) == errv);
            assert(spec_eval(t) == Err::<RatModel, EvalError>(EvalError::Overflow));
        } else {
            let p = pow10(fr.len());
            lemma_pow10_pos(fr.len());
            let fv = acc_run(0, fr);
            let a = ip * p + fv;
            let w0 = RatModel { n: a, d: p };
            assert(numres == Ok::<(RatModel, int), EvalError>((w0, l)));
            let w = if neg {
                RatModel { n: -a, d: p }
            } else {
                w0
            };
            if neg {
                assert(rm_neg(w0) == w);
                assert(sp_factor(t, 0, (l + 2) as nat) == Ok::<(RatModel, int), EvalError>(
                    (w, l),
                ));
            } else {
                assert(sp_factor(t, 0, (l + 2) as nat) == Ok::<(RatModel, int), EvalError>(
                    (w, l),
                ));
            }
            assert(sp_term_rest(t, l, w, (l + 2) as nat) == Ok::<(RatModel, int), EvalError>(
                (w, l),
            ));
            assert(sp_term(t, 0, (l + 3) as nat) == Ok::<(RatModel, int), EvalError>((w, l)));
            assert(sp_expr_rest(t, l, w, (l + 3) as nat) == Ok::<(RatModel, int), EvalError>(
                (w, l),
            ));
            assert(sp_expr(t, 0, (l + 4) as nat) == Ok::<(RatModel, int), EvalError>((w, l)));
            assert(spec_eval(t) == Ok::<RatModel, EvalError>(w));
            lemma_acc_run_bounds(0, fr);
            assert(0 * p == 0 && 1 * p == p) by (nonlinear_arith);
            assert(0 <= fv < p);
            if ip >= 1 {
                assert(a >= 1) by (nonlinear_arith)
                    requires
                        ip >= 1,
                        p >= 1,
                        fv >= 0,
                        a == ip * p + fv,
                ;
            } else {
                assert(ip == 0);
                assert(k > 0);
                assert(fr.last() != '0');
                assert(is_digit(fr.last()));
                let fpre = fr.drop_last();
                assert(fpre.push(fr.last()) =~= fr);
                lemma_acc_run_push(0, fpre, fr.last());
                assert(all_digits(fpre)) by {
                    assert forall|i: int| 0 <= i < fpre.len() implies is_digit(
                        #[trigger] fpre[i],
                    ) by {
                        assert(fpre[i] == fr[i]);
                    };
                };
                lemma_acc_run_bounds(0, fpre);
                lemma_pow10_pos(fpre.len());
                assert(0 * pow10(fpre.len()) == 0) by (nonlinear_arith);
                assert(acc_run(0, fpre) >= 0);
                assert(digit_val(fr.last()) >= 1);
                assert(fv == acc_run(0, fpre) * 10 + digit_val(fr.last()));
                assert(fv >= 1) by (nonlinear_arith)
                    requires
                        acc_run(0, fpre) >= 0,
                        digit_val(fr.last()) >= 1,
                        fv == acc_run(0, fpre) * 10 + digit_val(fr.last()),
                ;
                assert(a >= 1) by (nonlinear_arith)
                    requires
                        ip == 0,
                        fv >= 1,
                        a == ip * p + fv,
                ;
            }
            assert(w.n != 0);
            let magw: int = if w.n < 0 {
                -w.n
            } else {
                w.n
            };
            assert(magw == a);
            lemma_fundamental_div_mod_converse_div(a, p, ip, fv);
            lemma_fundamental_div_mod_converse_mod(a, p, ip, fv);
            assert(a / p == ip && a % p == fv);
            lemma_frac_expand(fr, FRAC_DIGITS as nat);
            lemma_strip_pad(fr, (FRAC_DIGITS as nat - fr.len()) as nat);
            lemma_strip_noop(fr);
            assert(strip_zeros(frac_digits(a % p, p, FRAC_DIGITS as nat)) == fr);
            assert(!shows_zero(magw, p));
            assert(mag_chars(magw, p) == body);
            if neg {
                assert(w.n < 0);
                assert(rat_to_chars(w) == seq!['-'] + body);
                assert(rat_to_chars(w) == t);
            } else {
                assert(rat_to_chars(w) == body);
                assert(rat_to_chars(w) == t);
            }
        }
    }
}

} // verus!
