//! Exact rational numbers over bounded machine integers.
//!
//! A value is a fraction `num / den` with a positive denominator.  Both
//! components are kept within a symmetric bound so that negation never
//! overflows.  Every arithmetic operation either returns the exact
//! mathematical result, still within bounds, or reports `Overflow`.

use vstd::prelude::*;
use crate::errors::EvalError;

verus! {

/// The largest magnitude a numerator or denominator may take.
pub const RAT_BOUND: i64 = 0x7fff_ffff_ffff_ffff;

/// Whether a mathematical integer fits the symmetric bound.
pub open spec fn in_bounds(x: int) -> bool {
    -(RAT_BOUND as int) <= x <= RAT_BOUND as int
}

/// The mathematical model of a rational: an exact fraction of integers.
pub struct RatModel {
    pub n: int,
    pub d: int,
}

/// Well-formedness of a model: bounded, with a positive denominator.
pub open spec fn model_wf(m: RatModel) -> bool {
    in_bounds(m.n) && 1 <= m.d <= RAT_BOUND as int
}

/// An executable rational number.
#[derive(Clone, Copy, Debug)]
pub struct Rat {
    pub num: i64,
    pub den: i64,
}

impl View for Rat {
    type V = RatModel;

    open spec fn view(&self) -> RatModel {
        RatModel { n: self.num as int, d: self.den as int }
    }
}

impl Rat {
    /// The representation invariant.
    pub open spec fn wf(self) -> bool {
        model_wf(self@)
    }
}

/// Relates an executable operation result to its model-level result.
pub open spec fn rat_res_matches(r: Result<Rat, EvalError>, m: Result<RatModel, EvalError>) -> bool {
    match (r, m) {
        (Ok(x), Ok(y)) => x@ == y && x.wf(),
        (Err(e1), Err(e2)) => e1 == e2,
        _ => false,
    }
}

/// Exact sum: `a/b + c/d = (ad' + cb')/(bd')`, or `Overflow`.
pub open spec fn rm_add(a: RatModel, b: RatModel) -> Result<RatModel, EvalError> {
    if !in_bounds(a.n * b.d) {
        Err(EvalError::Overflow)
    } else if !in_bounds(b.n * a.d) {
        Err(EvalError::Overflow)
    } else if !in_bounds(a.n * b.d + b.n * a.d) {
        Err(EvalError::Overflow)
    } else if !in_bounds(a.d * b.d) {
        Err(EvalError::Overflow)
    } else {
        Ok(RatModel { n: a.n * b.d + b.n * a.d, d: a.d * b.d })
    }
}

/// Exact difference, or `Overflow`.
pub open spec fn rm_sub(a: RatModel, b: RatModel) -> Result<RatModel, EvalError> {
    if !in_bounds(a.n * b.d) {
        Err(EvalError::Overflow)
    } else if !in_bounds(b.n * a.d) {
        Err(EvalError::Overflow)
    } else if !in_bounds(a.n * b.d - b.n * a.d) {
        Err(EvalError::Overflow)
    } else if !in_bounds(a.d * b.d) {
        Err(EvalError::Overflow)
    } else {
        Ok(RatModel { n: a.n * b.d - b.n * a.d, d: a.d * b.d })
    }
}

/// Exact product, or `Overflow`.
pub open spec fn rm_mul(a: RatModel, b: RatModel) -> Result<RatModel, EvalError> {
    if !in_bounds(a.n * b.n) {
        Err(EvalError::Overflow)
    } else if !in_bounds(a.d * b.d) {
        Err(EvalError::Overflow)
    } else {
        Ok(RatModel { n: a.n * b.n, d: a.d * b.d })
    }
}

/// Exact quotient with the sign moved to the numerator, `DivideByZero`
/// on a zero divisor, or `Overflow`.
pub open spec fn rm_div(a: RatModel, b: RatModel) -> Result<RatModel, EvalError> {
    if b.n == 0 {
        Err(EvalError::DivideByZero)
    } else if !in_bounds(a.n * b.d) {
        Err(EvalError::Overflow)
    } else if !in_bounds(a.d * b.n) {
        Err(EvalError::Overflow)
    } else if a.d * b.n < 0 {
        Ok(RatModel { n: -(a.n * b.d), d: -(a.d * b.n) })
    } else {
        Ok(RatModel { n: a.n * b.d, d: a.d * b.n })
    }
}

/// Integer division truncated toward zero.
pub open spec fn trunc_div(p: int, q: int) -> int {
    if p >= 0 && q > 0 {
        p / q
    } else if p < 0 && q > 0 {
        -((-p) / q)
    } else if p >= 0 {
        -(p / (-q))
    } else {
        (-p) / (-q)
    }
}

/// Exact remainder `a - b * trunc(a / b)`, `DivideByZero` on a zero
/// divisor, or `Overflow`.
pub open spec fn rm_rem(a: RatModel, b: RatModel) -> Result<RatModel, EvalError> {
    if b.n == 0 {
        Err(EvalError::DivideByZero)
    } else if !in_bounds(a.n * b.d) {
        Err(EvalError::Overflow)
    } else if !in_bounds(a.d * b.n) {
        Err(EvalError::Overflow)
    } else {
        let t = trunc_div(a.n * b.d, a.d * b.n);
        if !in_bounds(b.n * t) {
            Err(EvalError::Overflow)
        } else if !in_bounds(b.n * t * a.d) {
            Err(EvalError::Overflow)
        } else if !in_bounds(a.n * b.d - b.n * t * a.d) {
            Err(EvalError::Overflow)
        } else if !in_bounds(a.d * b.d) {
            Err(EvalError::Overflow)
        } else {
            Ok(RatModel { n: a.n * b.d - b.n * t * a.d, d: a.d * b.d })
        }
    }
}

/// Negation; the symmetric bound makes it total on well-formed values.
pub open spec fn rm_neg(a: RatModel) -> RatModel {
    RatModel { n: -a.n, d: a.d }
}

/// Bounded product: `Some` exactly when `x * y` fits the symmetric bound.
fn mul_bounded(x: i64, y: i64) -> (r: Option<i64>)
    ensures
        match r {
            Some(v) => v as int == x as int * y as int && in_bounds(x as int * y as int),
            None => !in_bounds(x as int * y as int),
        },
{
    match x.checked_mul(y) {
        Some(v) => {
            if v < -RAT_BOUND {
                None
            } else {
                Some(v)
            }
        },
        None => None,
    }
}

/// Bounded sum: `Some` exactly when `x + y` fits the symmetric bound.
fn add_bounded(x: i64, y: i64) -> (r: Option<i64>)
    ensures
        match r {
            Some(v) => v as int == x as int + y as int && in_bounds(x as int + y as int),
            None => !in_bounds(x as int + y as int),
        },
{
    match x.checked_add(y) {
        Some(v) => {
            if v < -RAT_BOUND {
                None
            } else {
                Some(v)
            }
        },
        None => None,
    }
}

/// Bounded difference: `Some` exactly when `x - y` fits the symmetric bound.
fn sub_bounded(x: i64, y: i64) -> (r: Option<i64>)
    ensures
        match r {
            Some(v) => v as int == x as int - y as int && in_bounds(x as int - y as int),
            None => !in_bounds(x as int - y as int),
        },
{
    match x.checked_sub(y) {
        Some(v) => {
            if v < -RAT_BOUND {
                None
            } else {
                Some(v)
            }
        },
        None => None,
    }
}

/// Executable sum, exact as `rm_add`.
pub fn rat_add(a: &Rat, b: &Rat) -> (r: Result<Rat, EvalError>)
    requires
        a.wf(),
        b.wf(),
    ensures
        rat_res_matches(r, rm_add(a@, b@)),
{
    let n1 = match mul_bounded(a.num, b.den) {
        Some(v) => v,
        None => { return Err(EvalError::Overflow); },
    };
    let n2 = match mul_bounded(b.num, a.den) {
        Some(v) => v,
        None => { return Err(EvalError::Overflow); },
    };
    let n = match add_bounded(n1, n2) {
        Some(v) => v,
        None => { return Err(EvalError::Overflow); },
    };
    let d = match mul_bounded(a.den, b.den) {
        Some(v) => v,
        None => { return Err(EvalError::Overflow); },
    };
    proof {
        assert(a@.d * b@.d >= 1) by (nonlinear_arith)
            requires a@.d >= 1, b@.d >= 1;
    }
    Ok(Rat { num: n, den: d })
}

/// Executable difference, exact as `rm_sub`.
pub fn rat_sub(a: &Rat, b: &Rat) -> (r: Result<Rat, EvalError>)
    requires
        a.wf(),
        b.wf(),
    ensures
        rat_res_matches(r, rm_sub(a@, b@)),
{
    let n1 = match mul_bounded(a.num, b.den) {
        Some(v) => v,
        None => { return Err(EvalError::Overflow); },
    };
    let n2 = match mul_bounded(b.num, a.den) {
        Some(v) => v,
        None => { return Err(EvalError::Overflow); },
    };
    let n = match sub_bounded(n1, n2) {
        Some(v) => v,
        None => { return Err(EvalError::Overflow); },
    };
    let d = match mul_bounded(a.den, b.den) {
        Some(v) => v,
        None => { return Err(EvalError::Overflow); },
    };
    proof {
        assert(a@.d * b@.d >= 1) by (nonlinear_arith)
            requires a@.d >= 1, b@.d >= 1;
    }
    Ok(Rat { num: n, den: d })
}

/// Executable product, exact as `rm_mul`.
pub fn rat_mul(a: &Rat, b: &Rat) -> (r: Result<Rat, EvalError>)
    requires
        a.wf(),
        b.wf(),
    ensures
        rat_res_matches(r, rm_mul(a@, b@)),
{
    let n = match mul_bounded(a.num, b.num) {
        Some(v) => v,
        None => { return Err(EvalError::Overflow); },
    };
    let d = match mul_bounded(a.den, b.den) {
        Some(v) => v,
        None => { return Err(EvalError::Overflow); },
    };
    proof {
        assert(a@.d * b@.d >= 1) by (nonlinear_arith)
            requires a@.d >= 1, b@.d >= 1;
    }
    Ok(Rat { num: n, den: d })
}

/// Executable quotient, exact as `rm_div`.
pub fn rat_div(a: &Rat, b: &Rat) -> (r: Result<Rat, EvalError>)
    requires
        a.wf(),
        b.wf(),
    ensures
        rat_res_matches(r, rm_div(a@, b@)),
{
    if b.num == 0 {
        return Err(EvalError::DivideByZero);
    }
    let n0 = match mul_bounded(a.num, b.den) {
        Some(v) => v,
        None => { return Err(EvalError::Overflow); },
    };
    let d0 = match mul_bounded(a.den, b.num) {
        Some(v) => v,
        None => { return Err(EvalError::Overflow); },
    };
    proof {
        assert(a@.d * b@.n != 0) by (nonlinear_arith)
            requires a@.d >= 1, b@.n != 0;
    }
    if d0 < 0 {
        Ok(Rat { num: -n0, den: -d0 })
    } else {
        Ok(Rat { num: n0, den: d0 })
    }
}

/// Executable truncated integer division, exact as `trunc_div`.
fn trunc_div_i64(p: i64, q: i64) -> (t: i64)
    requires
        q != 0,
        in_bounds(p as int),
        in_bounds(q as int),
    ensures
        t as int == trunc_div(p as int, q as int),
        in_bounds(t as int),
{
    let pa: u64 = if p < 0 { (-p) as u64 } else { p as u64 };
    let qa: u64 = if q < 0 { (-q) as u64 } else { q as u64 };
    let m: u64 = pa / qa;
    assert(m <= pa);
    let tm: i64 = m as i64;
    if (p < 0) != (q < 0) {
        -tm
    } else {
        tm
    }
}

/// Executable remainder, exact as `rm_rem`.
pub fn rat_rem(a: &Rat, b: &Rat) -> (r: Result<Rat, EvalError>)
    requires
        a.wf(),
        b.wf(),
    ensures
        rat_res_matches(r, rm_rem(a@, b@)),
{
    if b.num == 0 {
        return Err(EvalError::DivideByZero);
    }
    let p = match mul_bounded(a.num, b.den) {
        Some(v) => v,
        None => { return Err(EvalError::Overflow); },
    };
    let q = match mul_bounded(a.den, b.num) {
        Some(v) => v,
        None => { return Err(EvalError::Overflow); },
    };
    proof {
        assert(a@.d * b@.n != 0) by (nonlinear_arith)
            requires a@.d >= 1, b@.n != 0;
    }
    let t = trunc_div_i64(p, q);
    let m1 = match mul_bounded(b.num, t) {
        Some(v) => v,
        None => { return Err(EvalError::Overflow); },
    };
    let m2 = match mul_bounded(m1, a.den) {
        Some(v) => v,
        None => { return Err(EvalError::Overflow); },
    };
    let n = match sub_bounded(p, m2) {
        Some(v) => v,
        None => { return Err(EvalError::Overflow); },
    };
    let d = match mul_bounded(a.den, b.den) {
        Some(v) => v,
        None => { return Err(EvalError::Overflow); },
    };
    proof {
        assert(a@.d * b@.d >= 1) by (nonlinear_arith)
            requires a@.d >= 1, b@.d >= 1;
    }
    Ok(Rat { num: n, den: d })
}

/// Executable negation, exact as `rm_neg`.
pub fn rat_neg(a: &Rat) -> (r: Rat)
    requires
        a.wf(),
    ensures
        r.wf(),
        r@ == rm_neg(a@),
{
    Rat { num: -a.num, den: a.den }
}

} // verus!
