//! The input accumulator: the calculator's button-driven state machine.
//!
//! The state is a pair of character sequences: the expression being
//! built and the text currently displayed.  Every button press maps
//! the state through the pure transition function `step_model`;
//! `handle_button` is its executable twin.

use vstd::prelude::*;
use crate::chars::{is_digit, is_op, is_token_char, digit, op, token_char};
use crate::eval::{spec_eval, eval_chars};
use crate::render::{rat_to_chars, render};

verus! {

/// The abstract state: what is shown and what has been typed.
#[verifier::ext_equal]
pub struct CalcModel {
    pub display: Seq<char>,
    pub expression: Seq<char>,
}

/// The state at startup: empty expression, display showing `0`.
pub open spec fn init_model() -> CalcModel {
    CalcModel { display: seq!['0'], expression: Seq::empty() }
}

/// The buttons of the keypad, one variant per kind of key.
#[derive(Clone, Copy, Debug)]
pub enum Button {
    Digit(char),
    Dot,
    Op(char),
    Negate,
    Clear,
    Delete,
    Eval,
}

/// Maps a button label to its key, or `None` for an unknown label.
pub open spec fn classify(b: Seq<char>) -> Option<Button> {
    if b.len() == 1 {
        let c = b[0];
        if is_digit(c) {
            Some(Button::Digit(c))
        } else if c == '.' {
            Some(Button::Dot)
        } else if is_op(c) {
            Some(Button::Op(c))
        } else if c == '=' {
            Some(Button::Eval)
        } else {
            None
        }
    } else if b.len() == 2 && b[0] == 'A' && b[1] == 'C' {
        Some(Button::Clear)
    } else if b.len() == 3 && b[0] == 'D' && b[1] == 'E' && b[2] == 'L' {
        Some(Button::Delete)
    } else if b.len() == 3 && b[0] == '+' && b[1] == '/' && b[2] == '-' {
        Some(Button::Negate)
    } else {
        None
    }
}

/// The length of the trailing numeric token of the expression.
pub open spec fn token_len(e: Seq<char>) -> nat
    decreases e.len(),
{
    if e.len() > 0 && is_token_char(e[e.len() - 1]) {
        1 + token_len(e.drop_last())
    } else {
        0
    }
}

/// Whether the trailing numeric token already holds a decimal point.
pub open spec fn token_dot(e: Seq<char>) -> bool
    decreases e.len(),
{
    if e.len() > 0 && is_token_char(e[e.len() - 1]) {
        e[e.len() - 1] == '.' || token_dot(e.drop_last())
    } else {
        false
    }
}

/// The display text shown for an expression: the expression itself,
/// or `0` when it is empty.
pub open spec fn show(e: Seq<char>) -> Seq<char> {
    if e.len() == 0 {
        seq!['0']
    } else {
        e
    }
}

/// The sign-toggle transition: prefixes the trailing numeric token
/// with a unary minus, or removes the one already there.
pub open spec fn step_negate(v: CalcModel) -> CalcModel {
    let e = v.expression;
    if e.len() == 0 {
        v
    } else {
        let t = e.len() - token_len(e);
        if t > 0 && e[t - 1] == '-' && (t == 1 || is_op(e[t - 2])) {
            let e2 = e.remove(t - 1);
            CalcModel { display: show(e2), expression: e2 }
        } else {
            let e2 = e.insert(t, '-');
            CalcModel { display: e2, expression: e2 }
        }
    }
}

/// The display text after a failed evaluation.
pub open spec fn error_text() -> Seq<char> {
    seq!['E', 'r', 'r', 'o', 'r']
}

/// The transition function: what one button press does to the state.
///
/// Digits always append; a dot appends unless the trailing token
/// already has one; a binary operator is ignored on an empty
/// expression and replaces a trailing operator; `AC` clears; `DEL`
/// drops the last character; `=` evaluates, showing the rendered
/// result on success and `Error` on failure; an unknown label does
/// nothing.
pub open spec fn step_model(v: CalcModel, label: Seq<char>) -> CalcModel {
    match classify(label) {
        None => v,
        Some(b) => match b {
            Button::Digit(c) => {
                let e = v.expression.push(c);
                CalcModel { display: e, expression: e }
            },
            Button::Dot => if token_dot(v.expression) {
                v
            } else {
                let e = v.expression.push('.');
                CalcModel { display: e, expression: e }
            },
            Button::Op(c) => if v.expression.len() == 0 {
                v
            } else if is_op(v.expression[v.expression.len() - 1]) {
                let e = v.expression.update(v.expression.len() - 1, c);
                CalcModel { display: e, expression: e }
            } else {
                let e = v.expression.push(c);
                CalcModel { display: e, expression: e }
            },
            Button::Negate => step_negate(v),
            Button::Clear => init_model(),
            Button::Delete => {
                let e = if v.expression.len() > 0 {
                    v.expression.drop_last()
                } else {
                    v.expression
                };
                CalcModel { display: show(e), expression: e }
            },
            Button::Eval => match spec_eval(v.expression) {
                Ok(val) => {
                    let t = rat_to_chars(val);
                    CalcModel { display: t, expression: t }
                },
                Err(_) => CalcModel { display: error_text(), expression: Seq::empty() },
            },
        },
    }
}

/// Executable classification of a button label, exact as `classify`.
pub fn parse_button(s: &str) -> (r: Option<Button>)
    ensures
        r == classify(s@),
{
    let n = s.unicode_len();
    if n == 1 {
        let c = s.get_char(0);
        if digit(c) {
            Some(Button::Digit(c))
        } else if c == '.' {
            Some(Button::Dot)
        } else if op(c) {
            Some(Button::Op(c))
        } else if c == '=' {
            Some(Button::Eval)
        } else {
            None
        }
    } else if n == 2 {
        if s.get_char(0) == 'A' && s.get_char(1) == 'C' {
            Some(Button::Clear)
        } else {
            None
        }
    } else if n == 3 {
        let c0 = s.get_char(0);
        let c1 = s.get_char(1);
        let c2 = s.get_char(2);
        if c0 == 'D' && c1 == 'E' && c2 == 'L' {
            Some(Button::Delete)
        } else if c0 == '+' && c1 == '/' && c2 == '-' {
            Some(Button::Negate)
        } else {
            None
        }
    } else {
        None
    }
}

/// A fresh copy of a character vector.
fn dup_chars(v: &Vec<char>) -> (r: Vec<char>)
    ensures
        r@ == v@,
{
    let mut r: Vec<char> = Vec::new();
    let mut i: usize = 0;
    while i < v.len()
        invariant
            i <= v@.len(),
            r@ == v@.subrange(0, i as int),
        decreases v@.len() - i,
    {
        r.push(v[i]);
        i = i + 1;
        proof {
            assert(r@ =~= v@.subrange(0, i as int));
        }
    }
    proof {
        assert(v@.subrange(0, v@.len() as int) =~= v@);
    }
    r
}

/// The vector holding the startup display text.
fn zero_text() -> (r: Vec<char>)
    ensures
        r@ == seq!['0'],
{
    let mut r: Vec<char> = Vec::new();
    r.push('0');
    proof {
        assert(r@ =~= seq!['0']);
    }
    r
}

/// Executable length of the trailing numeric token, exact as `token_len`.
fn token_len_ex(e: &Vec<char>) -> (t: usize)
    ensures
        t == token_len(e@),
        t <= e@.len(),
{
    let mut k: usize = e.len();
    proof {
        assert(e@.subrange(0, e@.len() as int) =~= e@);
    }
    while k > 0 && token_char(e[k - 1])
        invariant
            k <= e@.len(),
            token_len(e@) == e@.len() - k + token_len(e@.subrange(0, k as int)),
        decreases k,
    {
        proof {
            assert(e@.subrange(0, k as int).drop_last() =~= e@.subrange(0, k - 1));
        }
        k = k - 1;
    }
    e.len() - k
}

/// Executable dot test on the trailing token, exact as `token_dot`.
fn token_dot_ex(e: &Vec<char>) -> (r: bool)
    ensures
        r == token_dot(e@),
{
    let mut k: usize = e.len();
    let mut found = false;
    proof {
        assert(e@.subrange(0, e@.len() as int) =~= e@);
    }
    while k > 0 && token_char(e[k - 1])
        invariant
            k <= e@.len(),
            token_dot(e@) == (found || token_dot(e@.subrange(0, k as int))),
        decreases k,
    {
        proof {
            assert(e@.subrange(0, k as int).drop_last() =~= e@.subrange(0, k - 1));
        }
        if e[k - 1] == '.' {
            found = true;
        }
        k = k - 1;
    }
    found
}

/// The calculator: the displayed text and the expression being built.
pub struct TinyCalc {
    pub display: Vec<char>,
    pub expression: Vec<char>,
}

impl View for TinyCalc {
    type V = CalcModel;

    open spec fn view(&self) -> CalcModel {
        CalcModel { display: self.display@, expression: self.expression@ }
    }
}

impl TinyCalc {
    /// A calculator in its startup state.
    pub fn new() -> (c: TinyCalc)
        ensures
            c@ == init_model(),
    {
        let c = TinyCalc { display: zero_text(), expression: Vec::new() };
        proof {
            assert(c@ =~= init_model());
        }
        c
    }

    /// Applies one button press: the state moves exactly as
    /// `step_model` says.
    pub fn handle_button(&mut self, button: &str)
        ensures
            final(self)@ == step_model(old(self)@, button@),
    {
        let b = match parse_button(button) {
            Some(b) => b,
            None => {
                return;
            },
        };
        match b {
            Button::Digit(c) => {
                self.expression.push(c);
                self.display = dup_chars(&self.expression);
            },
            Button::Dot => {
                if !token_dot_ex(&self.expression) {
                    self.expression.push('.');
                    self.display = dup_chars(&self.expression);
                }
            },
            Button::Op(c) => {
                let n = self.expression.len();
                if n > 0 {
                    if op(self.expression[n - 1]) {
                        self.expression.set(n - 1, c);
                    } else {
                        self.expression.push(c);
                    }
                    self.display = dup_chars(&self.expression);
                }
            },
            Button::Negate => {
                let n = self.expression.len();
                if n > 0 {
                    let tl = token_len_ex(&self.expression);
                    let t = n - tl;
                    let unary = t > 0 && self.expression[t - 1] == '-' && (t == 1 || op(
                        self.expression[t - 2],
                    ));
                    if unary {
                        self.expression.remove(t - 1);
                        if self.expression.len() == 0 {
                            self.display = zero_text();
                        } else {
                            self.display = dup_chars(&self.expression);
                        }
                    } else {
                        self.expression.insert(t, '-');
                        self.display = dup_chars(&self.expression);
                    }
                }
            },
            Button::Clear => {
                self.expression = Vec::new();
                self.display = zero_text();
            },
            Button::Delete => {
                if self.expression.len() > 0 {
                    self.expression.pop();
                    proof {
                        assert(self.expression@ =~= old(self)@.expression.drop_last());
                    }
                }
                if self.expression.len() == 0 {
                    self.display = zero_text();
                } else {
                    self.display = dup_chars(&self.expression);
                }
            },
            Button::Eval => {
                match eval_chars(&self.expression) {
                    Ok(v) => {
                        let t = render(&v);
                        self.expression = dup_chars(&t);
                        self.display = t;
                    },
                    Err(_) => {
                        self.expression = Vec::new();
                        let mut d: Vec<char> = Vec::new();
                        d.push('E');
                        d.push('r');
                        d.push('r');
                        d.push('o');
                        d.push('r');
                        proof {
                            assert(d@ =~= error_text());
                        }
                        self.display = d;
                    },
                }
            },
        }
        proof {
            assert(self@ =~= step_model(old(self)@, button@));
        }
    }
}

} // verus!
