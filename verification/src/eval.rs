//! The expression evaluator.
//!
//! The grammar is the calculator's own: an expression is a sequence of
//! terms joined by `+` and `-`; a term is a sequence of factors joined
//! by `*`, `/` and `%`; a factor is a numeric literal, possibly under
//! unary minus.  A literal is a run of digits holding at most one
//! decimal point, with at least one digit.
//!
//! The whole evaluation is specified by `spec_eval`, a mathematical
//! function over the character sequence; `eval_chars` and `evaluate`
//! return exactly its value.  Recursive specification functions take a
//! fuel argument for termination; callers always supply enough fuel
//! for the fuel to be irrelevant.

use vstd::prelude::*;
use crate::chars::{is_digit, digit_val, digit, digit_value};
use crate::errors::EvalError;
use crate::rat::{
    Rat, RatModel, rm_add, rm_sub, rm_mul, rm_div, rm_rem, rm_neg, in_bounds,
    rat_add, rat_sub, rat_mul, rat_div, rat_rem, rat_neg, rat_res_matches, RAT_BOUND,
};

verus! {

/// Scans a numeric literal and accumulates its exact value.
///
/// `acc` holds the digits read so far as an integer, `den` the power of
/// ten owed to digits behind the decimal point, so the literal's value
/// is `acc / den`.  Stops before the first character that does not
/// belong to the literal; a literal without a digit is a syntax error.
pub open spec fn sp_num_loop(
    s: Seq<char>,
    i: int,
    acc: int,
    den: int,
    saw_dot: bool,
    saw_digit: bool,
    fuel: nat,
) -> Result<(RatModel, int), EvalError>
    decreases fuel,
{
    if fuel == 0 {
        Err(EvalError::Syntax)
    } else if i < s.len() && is_digit(s[i]) {
        if saw_dot && !in_bounds(den * 10) {
            Err(EvalError::Overflow)
        } else if !in_bounds(acc * 10 + digit_val(s[i])) {
            Err(EvalError::Overflow)
        } else {
            sp_num_loop(
                s,
                i + 1,
                acc * 10 + digit_val(s[i]),
                if saw_dot { den * 10 } else { den },
                saw_dot,
                true,
                (fuel - 1) as nat,
            )
        }
    } else if i < s.len() && s[i] == '.' && !saw_dot {
        sp_num_loop(s, i + 1, acc, den, true, saw_digit, (fuel - 1) as nat)
    } else if !saw_digit {
        Err(EvalError::Syntax)
    } else {
        Ok((RatModel { n: acc, d: den }, i))
    }
}

/// A factor: a literal, or a factor under unary minus.
pub open spec fn sp_factor(s: Seq<char>, i: int, fuel: nat) -> Result<(RatModel, int), EvalError>
    decreases fuel,
{
    if fuel == 0 {
        Err(EvalError::Syntax)
    } else if i < s.len() && s[i] == '-' {
        match sp_factor(s, i + 1, (fuel - 1) as nat) {
            Ok((v, j)) => Ok((rm_neg(v), j)),
            Err(e) => Err(e),
        }
    } else {
        sp_num_loop(s, i, 0, 1, false, false, (fuel - 1) as nat)
    }
}

/// Applies a binary operator character to two exact values.
pub open spec fn sp_apply(c: char, a: RatModel, b: RatModel) -> Result<RatModel, EvalError> {
    if c == '+' {
        rm_add(a, b)
    } else if c == '-' {
        rm_sub(a, b)
    } else if c == '*' {
        rm_mul(a, b)
    } else if c == '/' {
        rm_div(a, b)
    } else {
        rm_rem(a, b)
    }
}

/// Folds further `*`, `/` and `%` factors into `acc`, left to right.
pub open spec fn sp_term_rest(s: Seq<char>, j: int, acc: RatModel, fuel: nat) -> Result<
    (RatModel, int),
    EvalError,
>
    decreases fuel,
{
    if fuel == 0 {
        Err(EvalError::Syntax)
    } else if j < s.len() && (s[j] == '*' || s[j] == '/' || s[j] == '%') {
        match sp_factor(s, j + 1, (fuel - 1) as nat) {
            Ok((w, j2)) => match sp_apply(s[j], acc, w) {
                Ok(v2) => sp_term_rest(s, j2, v2, (fuel - 1) as nat),
                Err(e) => Err(e),
            },
            Err(e) => Err(e),
        }
    } else {
        Ok((acc, j))
    }
}

/// A term: factors joined by `*`, `/` and `%`.
pub open spec fn sp_term(s: Seq<char>, i: int, fuel: nat) -> Result<(RatModel, int), EvalError>
    decreases fuel,
{
    if fuel == 0 {
        Err(EvalError::Syntax)
    } else {
        match sp_factor(s, i, (fuel - 1) as nat) {
            Ok((v, j)) => sp_term_rest(s, j, v, (fuel - 1) as nat),
            Err(e) => Err(e),
        }
    }
}

/// Folds further `+` and `-` terms into `acc`, left to right.
pub open spec fn sp_expr_rest(s: Seq<char>, j: int, acc: RatModel, fuel: nat) -> Result<
    (RatModel, int),
    EvalError,
>
    decreases fuel,
{
    if fuel == 0 {
        Err(EvalError::Syntax)
    } else if j < s.len() && (s[j] == '+' || s[j] == '-') {
        match sp_term(s, j + 1, (fuel - 1) as nat) {
            Ok((w, j2)) => match sp_apply(s[j], acc, w) {
                Ok(v2) => sp_expr_rest(s, j2, v2, (fuel - 1) as nat),
                Err(e) => Err(e),
            },
            Err(e) => Err(e),
        }
    } else {
        Ok((acc, j))
    }
}

/// An expression: terms joined by `+` and `-`.
pub open spec fn sp_expr(s: Seq<char>, i: int, fuel: nat) -> Result<(RatModel, int), EvalError>
    decreases fuel,
{
    if fuel == 0 {
        Err(EvalError::Syntax)
    } else {
        match sp_term(s, i, (fuel - 1) as nat) {
            Ok((v, j)) => sp_expr_rest(s, j, v, (fuel - 1) as nat),
            Err(e) => Err(e),
        }
    }
}

/// What evaluating a character sequence yields: the exact value of the
/// expression, or the first error the left-to-right evaluation meets.
pub open spec fn spec_eval(s: Seq<char>) -> Result<RatModel, EvalError> {
    if s.len() == 0 {
        Err(EvalError::Empty)
    } else {
        match sp_expr(s, 0, (s.len() + 4) as nat) {
            Ok((v, j)) => if j == s.len() {
                Ok(v)
            } else {
                Err(EvalError::Syntax)
            },
            Err(e) => Err(e),
        }
    }
}

/// Relates an executable parse step to its specification-level step.
/// On success the value and the stop position agree, the value is
/// well-formed, and the position stays within `lo ..= hi` (strictly
/// past `lo` when `strict`).
pub open spec fn step_matches(
    r: Result<(Rat, usize), EvalError>,
    m: Result<(RatModel, int), EvalError>,
    lo: int,
    hi: int,
    strict: bool,
) -> bool {
    match (r, m) {
        (Ok((v, j)), Ok((w, k))) => v@ == w && v.wf() && j as int == k && lo <= j as int <= hi
            && (strict ==> lo < j as int),
        (Err(e1), Err(e2)) => e1 == e2,
        _ => false,
    }
}

/// Executable scan of a numeric literal, exact as `sp_num_loop`.
fn ex_num_loop(
    s: &Vec<char>,
    i: usize,
    acc: i64,
    den: i64,
    saw_dot: bool,
    saw_digit: bool,
    fuel: Ghost<nat>,
) -> (r: Result<(Rat, usize), EvalError>)
    requires
        i <= s@.len(),
        fuel@ >= s@.len() - i + 1,
        0 <= acc <= RAT_BOUND,
        1 <= den <= RAT_BOUND,
    ensures
        step_matches(
            r,
            sp_num_loop(s@, i as int, acc as int, den as int, saw_dot, saw_digit, fuel@),
            i as int,
            s@.len() as int,
            !saw_digit,
        ),
    decreases s@.len() - i,
{
    if i < s.len() && digit(s[i]) {
        let d = digit_value(s[i]);
        let den2: i64 = if saw_dot {
            match den.checked_mul(10) {
                Some(v) => v,
                None => { return Err(EvalError::Overflow); },
            }
        } else {
            den
        };
        let acc10 = match acc.checked_mul(10) {
            Some(v) => v,
            None => { return Err(EvalError::Overflow); },
        };
        let acc2 = match acc10.checked_add(d as i64) {
            Some(v) => v,
            None => { return Err(EvalError::Overflow); },
        };
        ex_num_loop(s, i + 1, acc2, den2, saw_dot, true, Ghost((fuel@ - 1) as nat))
    } else if i < s.len() && s[i] == '.' && !saw_dot {
        ex_num_loop(s, i + 1, acc, den, true, saw_digit, Ghost((fuel@ - 1) as nat))
    } else if !saw_digit {
        Err(EvalError::Syntax)
    } else {
        Ok((Rat { num: acc, den }, i))
    }
}

/// Executable factor, exact as `sp_factor`.
fn ex_factor(s: &Vec<char>, i: usize, fuel: Ghost<nat>) -> (r: Result<(Rat, usize), EvalError>)
    requires
        i <= s@.len(),
        fuel@ >= s@.len() - i + 2,
    ensures
        step_matches(r, sp_factor(s@, i as int, fuel@), i as int, s@.len() as int, true),
    decreases s@.len() - i,
{
    if i < s.len() && s[i] == '-' {
        match ex_factor(s, i + 1, Ghost((fuel@ - 1) as nat)) {
            Ok((v, j)) => Ok((rat_neg(&v), j)),
            Err(e) => Err(e),
        }
    } else {
        ex_num_loop(s, i, 0, 1, false, false, Ghost((fuel@ - 1) as nat))
    }
}

/// Executable operator application, exact as `sp_apply`.
fn ex_apply(c: char, a: &Rat, b: &Rat) -> (r: Result<Rat, EvalError>)
    requires
        a.wf(),
        b.wf(),
    ensures
        rat_res_matches(r, sp_apply(c, a@, b@)),
{
    if c == '+' {
        rat_add(a, b)
    } else if c == '-' {
        rat_sub(a, b)
    } else if c == '*' {
        rat_mul(a, b)
    } else if c == '/' {
        rat_div(a, b)
    } else {
        rat_rem(a, b)
    }
}

/// Executable fold of `*`, `/` and `%` factors, exact as `sp_term_rest`.
fn ex_term_rest(s: &Vec<char>, j: usize, acc: Rat, fuel: Ghost<nat>) -> (r: Result<
    (Rat, usize),
    EvalError,
>)
    requires
        j <= s@.len(),
        acc.wf(),
        fuel@ >= s@.len() - j + 2,
    ensures
        step_matches(r, sp_term_rest(s@, j as int, acc@, fuel@), j as int, s@.len() as int, false),
    decreases s@.len() - j,
{
    if j < s.len() && (s[j] == '*' || s[j] == '/' || s[j] == '%') {
        let c = s[j];
        match ex_factor(s, j + 1, Ghost((fuel@ - 1) as nat)) {
            Ok((w, j2)) => match ex_apply(c, &acc, &w) {
                Ok(v2) => ex_term_rest(s, j2, v2, Ghost((fuel@ - 1) as nat)),
                Err(e) => Err(e),
            },
            Err(e) => Err(e),
        }
    } else {
        Ok((acc, j))
    }
}

/// Executable term, exact as `sp_term`.
fn ex_term(s: &Vec<char>, i: usize, fuel: Ghost<nat>) -> (r: Result<(Rat, usize), EvalError>)
    requires
        i <= s@.len(),
        fuel@ >= s@.len() - i + 3,
    ensures
        step_matches(r, sp_term(s@, i as int, fuel@), i as int, s@.len() as int, true),
{
    match ex_factor(s, i, Ghost((fuel@ - 1) as nat)) {
        Ok((v, j)) => ex_term_rest(s, j, v, Ghost((fuel@ - 1) as nat)),
        Err(e) => Err(e),
    }
}

/// Executable fold of `+` and `-` terms, exact as `sp_expr_rest`.
fn ex_expr_rest(s: &Vec<char>, j: usize, acc: Rat, fuel: Ghost<nat>) -> (r: Result<
    (Rat, usize),
    EvalError,
>)
    requires
        j <= s@.len(),
        acc.wf(),
        fuel@ >= s@.len() - j + 3,
    ensures
        step_matches(r, sp_expr_rest(s@, j as int, acc@, fuel@), j as int, s@.len() as int, false),
    decreases s@.len() - j,
{
    if j < s.len() && (s[j] == '+' || s[j] == '-') {
        let c = s[j];
        match ex_term(s, j + 1, Ghost((fuel@ - 1) as nat)) {
            Ok((w, j2)) => match ex_apply(c, &acc, &w) {
                Ok(v2) => ex_expr_rest(s, j2, v2, Ghost((fuel@ - 1) as nat)),
                Err(e) => Err(e),
            },
            Err(e) => Err(e),
        }
    } else {
        Ok((acc, j))
    }
}

/// Executable expression, exact as `sp_expr`.
fn ex_expr(s: &Vec<char>, i: usize, fuel: Ghost<nat>) -> (r: Result<(Rat, usize), EvalError>)
    requires
        i <= s@.len(),
        fuel@ >= s@.len() - i + 4,
    ensures
        step_matches(r, sp_expr(s@, i as int, fuel@), i as int, s@.len() as int, true),
{
    match ex_term(s, i, Ghost((fuel@ - 1) as nat)) {
        Ok((v, j)) => ex_expr_rest(s, j, v, Ghost((fuel@ - 1) as nat)),
        Err(e) => Err(e),
    }
}

/// Evaluates a whole expression given as characters: returns exactly
/// what `spec_eval` yields on the sequence, as an executable rational.
pub fn eval_chars(s: &Vec<char>) -> (r: Result<Rat, EvalError>)
    ensures
        (match (r, spec_eval(s@)) {
            (Ok(v), Ok(w)) => v@ == w && v.wf(),
            (Err(e1), Err(e2)) => e1 == e2,
            _ => false,
        }),
{
    if s.len() == 0 {
        return Err(EvalError::Empty);
    }
    match ex_expr(s, 0, Ghost((s@.len() + 4) as nat)) {
        Ok((v, j)) => if j == s.len() {
            Ok(v)
        } else {
            Err(EvalError::Syntax)
        },
        Err(e) => Err(e),
    }
}

/// The characters of a string slice, as a vector.
pub fn str_chars(s: &str) -> (v: Vec<char>)
    ensures
        v@ == s@,
{
    let n = s.unicode_len();
    let mut v: Vec<char> = Vec::new();
    let mut i: usize = 0;
    while i < n
        invariant
            i <= n,
            n == s@.len(),
            v@ == s@.subrange(0, i as int),
        decreases n - i,
    {
        v.push(s.get_char(i));
        i = i + 1;
        proof {
            assert(v@ =~= s@.subrange(0, i as int));
        }
    }
    proof {
        assert(s@.subrange(0, n as int) =~= s@);
    }
    v
}

/// Evaluates an expression given as a string slice: returns exactly
/// what `spec_eval` yields on its characters.
pub fn evaluate(s: &str) -> (r: Result<Rat, EvalError>)
    ensures
        (match (r, spec_eval(s@)) {
            (Ok(v), Ok(w)) => v@ == w && v.wf(),
            (Err(e1), Err(e2)) => e1 == e2,
            _ => false,
        }),
{
    let cs = str_chars(s);
    eval_chars(&cs)
}

} // verus!
