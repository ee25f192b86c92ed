//! The laws of the evaluator, stated over the model in `semantics` and
//! proved once for all inputs: a line holding one integer literal
//! evaluates to its value, and a line `x y <op>` evaluates to the
//! operator applied to `x` and `y`, with the exact error cases of
//! division and remainder.

use vstd::prelude::*;

use vstd::arithmetic::div_mod::lemma_fundamental_div_mod;
use vstd::arithmetic::div_mod::lemma_mod_division_less_than_divisor;

use crate::semantics::all_digits;
use crate::semantics::dec_str;
use crate::semantics::eval_spec;
use crate::semantics::eval_step;
use crate::semantics::eval_tokens;
use crate::semantics::in_i32;
use crate::semantics::int_literal_val;
use crate::semantics::is_digit;
use crate::semantics::is_op_char;
use crate::semantics::is_space;
use crate::semantics::lemma_dec_str_literal;
use crate::semantics::lemma_trunc_div_in_range;
use crate::semantics::lemma_trunc_div_mod;
use crate::semantics::lemma_trunc_rem_in_range;
use crate::semantics::no_space;
use crate::semantics::op_result;
use crate::semantics::operand_val;
use crate::semantics::tokens_from;
use crate::semantics::tokens_of;
use crate::semantics::trunc_div;
use crate::semantics::trunc_rem;
use crate::semantics::EvalError;

verus! {

/// The line `x y c` for a binary operator `c`: the two operands in
/// decimal, the three tokens separated by single spaces.
pub open spec fn binop_formula(x: int, y: int, c: char) -> Seq<char> {
    dec_str(x) + seq![' '] + dec_str(y) + seq![' '] + seq![c]
}

/// A line without separators is one token: itself.
proof fn lemma_tokens_nospace(s: Seq<char>, cur: Seq<char>)
    requires
        no_space(s),
    ensures
        tokens_from(s, cur) == if (cur + s).len() > 0 {
            seq![cur + s]
        } else {
            Seq::<Seq<char>>::empty()
        },
    decreases s.len(),
{
    if s.len() == 0 {
        assert(cur + s =~= cur);
    } else {
        assert(no_space(s.skip(1)));
        lemma_tokens_nospace(s.skip(1), cur.push(s[0]));
        assert(cur.push(s[0]) + s.skip(1) =~= cur + s);
    }
}

/// A separator after a separator-free prefix `a` ends the token `cur + a`;
/// the rest of the line is tokenized on its own.
proof fn lemma_tokens_sep(a: Seq<char>, rest: Seq<char>, cur: Seq<char>)
    requires
        no_space(a),
    ensures
        tokens_from(a + seq![' '] + rest, cur) == (if (cur + a).len() > 0 {
            seq![cur + a]
        } else {
            Seq::<Seq<char>>::empty()
        }) + tokens_from(rest, seq![]),
    decreases a.len(),
{
    let s = a + seq![' '] + rest;
    if a.len() == 0 {
        assert(s[0] == ' ');
        assert(s.skip(1) =~= rest);
        assert(cur + a =~= cur);
        if cur.len() == 0 {
            assert(Seq::<Seq<char>>::empty() + tokens_from(rest, seq![]) =~= tokens_from(
                rest,
                seq![],
            ));
        }
    } else {
        assert(s[0] == a[0]);
        assert(!is_space(s[0]));
        assert(s.skip(1) =~= a.skip(1) + seq![' '] + rest);
        assert(no_space(a.skip(1)));
        lemma_tokens_sep(a.skip(1), rest, cur.push(a[0]));
        assert(cur.push(a[0]) + a.skip(1) =~= cur + a);
    }
}

/// The tokens of `x y c` are the three expected ones.
proof fn lemma_tokens_of_binop(x: int, y: int, c: char)
    requires
        !is_space(c),
    ensures
        tokens_of(binop_formula(x, y, c)) == seq![dec_str(x), dec_str(y), seq![c]],
{
    let dx = dec_str(x);
    let dy = dec_str(y);
    let s = binop_formula(x, y, c);
    lemma_dec_str_literal(x);
    lemma_dec_str_literal(y);
    assert(s =~= dx + seq![' '] + (dy + seq![' '] + seq![c]));
    lemma_tokens_sep(dx, dy + seq![' '] + seq![c], seq![]);
    assert(seq![] + dx =~= dx);
    lemma_tokens_sep(dy, seq![c], seq![]);
    assert(seq![] + dy =~= dy);
    lemma_tokens_nospace(seq![c], seq![]);
    assert(seq![] + seq![c] =~= seq![c]);
    assert(seq![dx] + (seq![dy] + seq![seq![c]]) =~= seq![dx, dy, seq![c]]);
}

/// A line holding one integer literal evaluates to its value: for every
/// `i32` value `x`, evaluating the decimal spelling of `x` returns
/// `Ok(x)`.
pub proof fn lemma_eval_int_literal(x: i32)
    ensures
        eval_spec(dec_str(x as int)) == Ok::<i32, EvalError>(x),
{
    let dx = dec_str(x as int);
    lemma_dec_str_literal(x as int);
    lemma_tokens_nospace(dx, seq![]);
    assert(seq![] + dx =~= dx);
    assert(tokens_of(dx) == seq![dx]);
    assert(operand_val(dx) == Some(x));
    let st1 = seq![x];
    assert(Seq::<i32>::empty().push(x) =~= st1);
    assert(eval_step(seq![], dx) == Ok::<Seq<i32>, EvalError>(st1));
    assert(seq![dx].skip(1) =~= Seq::<Seq<char>>::empty());
    assert(eval_tokens(st1, Seq::<Seq<char>>::empty()) == Ok::<i32, EvalError>(x));
}

/// Evaluating the line `x y c` applies operator `c` to `x` and `y`: the
/// result is exactly `op_result(c, x, y)`, for every pair of `i32`
/// operands and every operator.
pub proof fn lemma_eval_binop(x: i32, y: i32, c: char)
    requires
        is_op_char(c),
    ensures
        eval_spec(binop_formula(x as int, y as int, c)) == op_result(c, x, y),
{
    let dx = dec_str(x as int);
    let dy = dec_str(y as int);
    let tc = seq![c];
    let s = binop_formula(x as int, y as int, c);
    lemma_tokens_of_binop(x as int, y as int, c);
    lemma_dec_str_literal(x as int);
    lemma_dec_str_literal(y as int);
    let toks = seq![dx, dy, tc];
    assert(operand_val(dx) == Some(x));
    assert(operand_val(dy) == Some(y));
    // the operator token is no literal
    assert(!is_digit(c));
    assert(!all_digits(tc)) by {
        assert(tc[0] == c);
    }
    assert(int_literal_val(tc) is None);
    assert(operand_val(tc) is None);
    // step one: push x
    let st1 = seq![x];
    assert(Seq::<i32>::empty().push(x) =~= st1);
    assert(eval_step(seq![], dx) == Ok::<Seq<i32>, EvalError>(st1));
    assert(toks.skip(1) =~= seq![dy, tc]);
    assert(eval_tokens(seq![], toks) == eval_tokens(st1, seq![dy, tc]));
    // step two: push y
    let st2 = seq![x, y];
    assert(st1.push(y) =~= st2);
    assert(eval_step(st1, dy) == Ok::<Seq<i32>, EvalError>(st2));
    assert(seq![dy, tc].skip(1) =~= seq![tc]);
    assert(eval_tokens(st1, seq![dy, tc]) == eval_tokens(st2, seq![tc]));
    // step three: apply the operator to x and y
    assert(st2[0] == x && st2[1] == y);
    match op_result(c, x, y) {
        Ok(v) => {
            let st3 = seq![v];
            assert(st2.drop_last().drop_last().push(v) =~= st3);
            assert(eval_step(st2, tc) == Ok::<Seq<i32>, EvalError>(st3));
            assert(seq![tc].skip(1) =~= Seq::<Seq<char>>::empty());
            assert(eval_tokens(st3, Seq::<Seq<char>>::empty()) == Ok::<i32, EvalError>(v));
            assert(eval_tokens(st2, seq![tc]) == Ok::<i32, EvalError>(v));
        },
        Err(e) => {
            assert(eval_step(st2, tc) == Err::<Seq<i32>, EvalError>(e));
            assert(eval_tokens(st2, seq![tc]) == Err::<i32, EvalError>(e));
        },
    }
    assert(eval_spec(s) == eval_tokens(seq![], toks));
}

/// The line `x y +` evaluates to `Ok(x + y)`, for every pair of `i32`
/// values whose sum fits in `i32`.
pub proof fn lemma_eval_add(x: i32, y: i32)
    requires
        in_i32(x + y),
    ensures
        eval_spec(binop_formula(x as int, y as int, '+')) == Ok::<i32, EvalError>((x + y) as i32),
{
    lemma_eval_binop(x, y, '+');
}

/// The line `x y -` evaluates to `Ok(x - y)`, for every pair of `i32`
/// values whose difference fits in `i32`.
pub proof fn lemma_eval_sub(x: i32, y: i32)
    requires
        in_i32(x - y),
    ensures
        eval_spec(binop_formula(x as int, y as int, '-')) == Ok::<i32, EvalError>((x - y) as i32),
{
    lemma_eval_binop(x, y, '-');
}

/// The line `x y *` evaluates to `Ok(x * y)`, for every pair of `i32`
/// values whose product fits in `i32`.
pub proof fn lemma_eval_mul(x: i32, y: i32)
    requires
        in_i32(x * y),
    ensures
        eval_spec(binop_formula(x as int, y as int, '*')) == Ok::<i32, EvalError>((x * y) as i32),
{
    lemma_eval_binop(x, y, '*');
}

/// The line `x y /` fails with `DivisionByZero` when `y` is zero, and
/// otherwise evaluates to the quotient truncated toward zero — except
/// for `i32::MIN / -1`, whose true quotient does not fit in `i32`.
pub proof fn lemma_eval_div(x: i32, y: i32)
    ensures
        y == 0 ==> eval_spec(binop_formula(x as int, y as int, '/')) == Err::<i32, EvalError>(
            EvalError::DivisionByZero,
        ),
        y != 0 && !(x == i32::MIN && y == -1) ==> eval_spec(binop_formula(x as int, y as int, '/'))
            == Ok::<i32, EvalError>(trunc_div(x as int, y as int) as i32),
        x == i32::MIN && y == -1 ==> eval_spec(binop_formula(x as int, y as int, '/'))
            == Err::<i32, EvalError>(EvalError::Overflow),
{
    lemma_eval_binop(x, y, '/');
    if y != 0 {
        if x == i32::MIN && y == -1 {
            lemma_fundamental_div_mod(-(x as int), 1);
            lemma_mod_division_less_than_divisor(-(x as int), 1);
            assert(trunc_div(x as int, y as int) == -(x as int));
        } else {
            lemma_trunc_div_in_range(x, y);
        }
    }
}

/// The line `x y %` fails with `DivisionByZero` when `y` is zero, and
/// otherwise evaluates to the truncating remainder: the value `r` with
/// `x == y * (x / y) + r` under truncating division, whose sign matches
/// the sign of `x`.
pub proof fn lemma_eval_rem(x: i32, y: i32)
    ensures
        y == 0 ==> eval_spec(binop_formula(x as int, y as int, '%')) == Err::<i32, EvalError>(
            EvalError::DivisionByZero,
        ),
        y != 0 ==> eval_spec(binop_formula(x as int, y as int, '%')) == Ok::<i32, EvalError>(
            trunc_rem(x as int, y as int) as i32,
        ),
        y != 0 ==> (y as int) * trunc_div(x as int, y as int) + trunc_rem(x as int, y as int) == (
        x as int),
        y != 0 && x >= 0 ==> trunc_rem(x as int, y as int) >= 0,
        y != 0 && x <= 0 ==> trunc_rem(x as int, y as int) <= 0,
{
    lemma_eval_binop(x, y, '%');
    if y != 0 {
        lemma_trunc_rem_in_range(x, y);
        lemma_trunc_div_mod(x as int, y as int);
    }
}

} // verus!

