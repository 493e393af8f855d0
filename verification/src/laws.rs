//! Properties of the accumulator that hold across whole press
//! sequences, stated over the abstract model and proved once for all
//! states.

use vstd::prelude::*;
use crate::calc::{CalcModel, init_model, step_model, token_dot, error_text};
use crate::chars::is_token_char;
use crate::errors::EvalError;
use crate::eval::spec_eval;
use crate::rat::RatModel;
use crate::roundtrip::{lemma_eval_wf, lemma_render_reparse};

verus! {

/// Applies a sequence of button presses to a state, first to last.
pub open spec fn apply_presses(v: CalcModel, presses: Seq<Seq<char>>) -> CalcModel
    decreases presses.len(),
{
    if presses.len() == 0 {
        v
    } else {
        step_model(apply_presses(v, presses.drop_last()), presses.last())
    }
}

/// The labels of a press sequence, concatenated in order.
pub open spec fn concat_presses(presses: Seq<Seq<char>>) -> Seq<char>
    decreases presses.len(),
{
    if presses.len() == 0 {
        Seq::empty()
    } else {
        concat_presses(presses.drop_last()) + presses.last()
    }
}

/// A press of a single digit key or of the decimal-point key.
pub open spec fn digit_or_dot_press(p: Seq<char>) -> bool {
    p.len() == 1 && is_token_char(p[0])
}

/// A press of the decimal-point key.
pub open spec fn dot_press(p: Seq<char>) -> bool {
    p.len() == 1 && p[0] == '.'
}

/// How many presses of the sequence are decimal points.
pub open spec fn dot_count(presses: Seq<Seq<char>>) -> int
    decreases presses.len(),
{
    if presses.len() == 0 {
        0int
    } else {
        dot_count(presses.drop_last()) + if dot_press(presses.last()) {
            1int
        } else {
            0int
        }
    }
}

/// A dot count is never negative.
pub proof fn lemma_dot_count_nonneg(presses: Seq<Seq<char>>)
    ensures
        dot_count(presses) >= 0,
    decreases presses.len(),
{
    if presses.len() > 0 {
        lemma_dot_count_nonneg(presses.drop_last());
    }
}

/// Concatenating digit-or-dot presses without a dot press yields no
/// decimal point.
pub proof fn lemma_dotless_concat(presses: Seq<Seq<char>>)
    requires
        forall|k: int| 0 <= k < presses.len() ==> digit_or_dot_press(#[trigger] presses[k]),
        dot_count(presses) == 0,
    ensures
        forall|i: int|
            0 <= i < concat_presses(presses).len() ==> #[trigger] concat_presses(presses)[i]
                != '.',
    decreases presses.len(),
{
    if presses.len() > 0 {
        lemma_dot_count_nonneg(presses.drop_last());
        assert(presses.drop_last() =~= presses.subrange(0, presses.len() - 1));
        assert(forall|k: int|
            0 <= k < presses.drop_last().len() ==> digit_or_dot_press(
                #[trigger] presses.drop_last()[k],
            ));
        lemma_dotless_concat(presses.drop_last());
        assert(!dot_press(presses.last()));
        assert(digit_or_dot_press(presses[presses.len() - 1]));
        let a = concat_presses(presses.drop_last());
        let p = presses.last();
        assert forall|i: int|
            0 <= i < concat_presses(presses).len() implies #[trigger] concat_presses(presses)[i]
            != '.' by {
            if i < a.len() {
                assert(concat_presses(presses)[i] == a[i]);
            } else {
                assert(concat_presses(presses)[i] == p[i - a.len()]);
                assert(i - a.len() == 0);
            }
        };
    }
}

/// A trailing token without a decimal point anywhere has none.
pub proof fn lemma_dotless_token(e: Seq<char>)
    requires
        forall|i: int| 0 <= i < e.len() ==> #[trigger] e[i] != '.',
    ensures
        !token_dot(e),
    decreases e.len(),
{
    if e.len() > 0 && is_token_char(e[e.len() - 1]) {
        assert(forall|i: int| 0 <= i < e.drop_last().len() ==> #[trigger] e.drop_last()[i] != '.');
        lemma_dotless_token(e.drop_last());
    }
}

/// After any sequence of digit presses holding at most one decimal
/// point, starting at the startup state, the display is the literal
/// concatenation of the presses, and so is the expression.
pub proof fn lemma_digit_presses_concat(presses: Seq<Seq<char>>)
    requires
        forall|k: int| 0 <= k < presses.len() ==> digit_or_dot_press(#[trigger] presses[k]),
        dot_count(presses) <= 1,
    ensures
        apply_presses(init_model(), presses).expression == concat_presses(presses),
        apply_presses(init_model(), presses).display == if presses.len() == 0 {
            seq!['0']
        } else {
            concat_presses(presses)
        },
    decreases presses.len(),
{
    if presses.len() > 0 {
        let rest = presses.drop_last();
        let p = presses.last();
        assert(rest =~= presses.subrange(0, presses.len() - 1));
        assert(forall|k: int| 0 <= k < rest.len() ==> digit_or_dot_press(#[trigger] rest[k]));
        lemma_dot_count_nonneg(rest);
        lemma_digit_presses_concat(rest);
        let vp = apply_presses(init_model(), rest);
        if dot_press(p) {
            lemma_dotless_concat(rest);
            lemma_dotless_token(vp.expression);
            assert(vp.expression.push(p[0]) =~= vp.expression + p);
        } else {
            assert(vp.expression.push(p[0]) =~= vp.expression + p);
        }
    }
}

/// `AC` always returns the state to startup: display `0`, empty
/// expression, whatever the state was before.
pub proof fn lemma_clear_resets(v: CalcModel)
    ensures
        step_model(v, seq!['A', 'C']) == init_model(),
{
    assert(step_model(v, seq!['A', 'C']) =~= init_model());
}

/// `DEL` on an empty expression leaves the display at `0` and the
/// expression empty.
pub proof fn lemma_delete_on_empty(v: CalcModel)
    requires
        v.expression.len() == 0,
    ensures
        step_model(v, seq!['D', 'E', 'L']).display == seq!['0'],
        step_model(v, seq!['D', 'E', 'L']).expression.len() == 0,
{
}

/// When evaluation of the expression fails, pressing `=` twice shows
/// the same error display as pressing it once: the second press finds
/// an empty expression and fails again.
pub proof fn lemma_eval_idempotent_on_failure(v: CalcModel)
    requires
        spec_eval(v.expression) is Err,
    ensures
        step_model(step_model(v, seq!['=']), seq!['=']) == step_model(v, seq!['=']),
{
    let v1 = step_model(v, seq!['=']);
    assert(v1.display =~= error_text());
    assert(spec_eval(v1.expression) == Err::<crate::rat::RatModel, EvalError>(EvalError::Empty));
    assert(step_model(v1, seq!['=']) =~= v1);
}

/// Pressing `=` twice in a row, with nothing typed between the
/// presses, leaves the display unchanged.  The one proviso is a
/// machine limit: the rendered result must itself evaluate without
/// exceeding the bounded integer range, else the second press shows
/// the overflow error.
pub proof fn lemma_eval_idempotent(v: CalcModel)
    requires
        spec_eval(step_model(v, seq!['=']).expression) != Err::<RatModel, EvalError>(
            EvalError::Overflow,
        ),
    ensures
        step_model(step_model(v, seq!['=']), seq!['=']).display == step_model(
            v,
            seq!['='],
        ).display,
{
    let v1 = step_model(v, seq!['=']);
    match spec_eval(v.expression) {
        Ok(val) => {
            lemma_eval_wf(v.expression);
            lemma_render_reparse(val);
            match spec_eval(v1.expression) {
                Ok(w) => {},
                Err(e) => {
                    assert(e == EvalError::Overflow);
                    assert(false);
                },
            }
        },
        Err(_) => {
            lemma_eval_idempotent_on_failure(v);
        },
    }
}

} // verus!
