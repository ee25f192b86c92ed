//! The mathematical model of the evaluator: tokenization of a line into
//! whitespace-separated tokens, classification of a token as an integer
//! literal or an operator, truncating division and remainder, and the
//! stack evaluation of a token sequence.

use vstd::prelude::*;

verus! {

/// The ways an evaluation can fail.
///
/// Arithmetic whose mathematical result does not fit in `i32` is reported
/// as `Overflow`: results never wrap or saturate.
#[derive(Debug, Clone, Copy, PartialEq, Eq, Structural)]
pub enum EvalError {
    /// A token is neither a parseable integer nor a recognized operator.
    InvalidToken,
    /// An operator was applied with fewer than two operands on the stack.
    StackUnderflow,
    /// `/` or `%` was applied with a zero right-hand operand.
    DivisionByZero,
    /// After all tokens, the stack held zero or more than one value.
    MalformedExpression,
    /// The mathematical result of an operation does not fit in `i32`.
    Overflow,
}

/// The characters treated as token separators: ASCII whitespace.
pub open spec fn is_space(c: char) -> bool {
    c == ' ' || c == '\t' || c == '\n' || c == '\r' || c == '\u{b}' || c == '\u{c}'
}

/// No character of `s` is a separator.
pub open spec fn no_space(s: Seq<char>) -> bool {
    forall|i: int| 0 <= i < s.len() ==> !is_space(#[trigger] s[i])
}

/// The tokens of `s`, given a partial token `cur` of characters already
/// read since the last separator: separators end `cur` (if nonempty) and
/// every other character extends it.
pub open spec fn tokens_from(s: Seq<char>, cur: Seq<char>) -> Seq<Seq<char>>
    decreases s.len(),
{
    if s.len() == 0 {
        if cur.len() == 0 {
            seq![]
        } else {
            seq![cur]
        }
    } else if is_space(s[0]) {
        if cur.len() == 0 {
            tokens_from(s.skip(1), seq![])
        } else {
            seq![cur] + tokens_from(s.skip(1), seq![])
        }
    } else {
        tokens_from(s.skip(1), cur.push(s[0]))
    }
}

/// The whitespace-separated tokens of `s`, in left-to-right order.
pub open spec fn tokens_of(s: Seq<char>) -> Seq<Seq<char>> {
    tokens_from(s, seq![])
}

/// A decimal digit.
pub open spec fn is_digit(c: char) -> bool {
    '0' <= c && c <= '9'
}

/// The numeric value of a decimal digit.
pub open spec fn digit_val(c: char) -> int {
    c as int - '0' as int
}

/// Every character of `s` is a decimal digit.
pub open spec fn all_digits(s: Seq<char>) -> bool {
    forall|i: int| 0 <= i < s.len() ==> is_digit(#[trigger] s[i])
}

/// The value of a sequence of decimal digits, most significant first.
pub open spec fn digits_val(s: Seq<char>) -> int
    decreases s.len(),
{
    if s.len() == 0 {
        0
    } else {
        digits_val(s.drop_last()) * 10 + digit_val(s.last())
    }
}

/// The value of a digit sequence is never negative.
pub proof fn lemma_digits_val_nonneg(s: Seq<char>)
    requires
        all_digits(s),
    ensures
        digits_val(s) >= 0,
    decreases s.len(),
{
    if s.len() > 0 {
        assert(all_digits(s.drop_last())) by {
            assert(forall|i: int|
                0 <= i < s.drop_last().len() ==> #[trigger] s.drop_last()[i] == s[i]);
        }
        lemma_digits_val_nonneg(s.drop_last());
    }
}

/// Extending a digit sequence on the right never lowers its value.
pub proof fn lemma_digits_val_prefix(s: Seq<char>, k: int)
    requires
        all_digits(s),
        0 <= k <= s.len(),
    ensures
        digits_val(s.take(k)) <= digits_val(s),
    decreases s.len() - k,
{
    assert(all_digits(s.take(k))) by {
        assert(forall|i: int| 0 <= i < k ==> #[trigger] s.take(k)[i] == s[i]);
    }
    if k == s.len() {
        assert(s.take(k) =~= s);
    } else {
        lemma_digits_val_prefix(s, k + 1);
        assert(s.take(k + 1).drop_last() =~= s.take(k));
        lemma_digits_val_nonneg(s.take(k));
        assert(digits_val(s.take(k + 1)) == digits_val(s.take(k)) * 10 + digit_val(s.take(k + 1).last()));
    }
}

/// The value of `t` as a base-10 signed integer literal: one or more
/// digits, optionally preceded by a single `-`; `None` if `t` has any
/// other shape.
pub open spec fn int_literal_val(t: Seq<char>) -> Option<int> {
    if t.len() > 0 && all_digits(t) {
        Some(digits_val(t))
    } else if t.len() > 1 && t[0] == '-' && all_digits(t.skip(1)) {
        Some(-digits_val(t.skip(1)))
    } else {
        None
    }
}

/// The digit character for a value between 0 and 9.
pub open spec fn digit_char(d: int) -> char
    recommends
        0 <= d <= 9,
{
    ((48 + d) as u8) as char
}

/// The decimal digits of a natural number, most significant first.
pub open spec fn dec_digits(n: nat) -> Seq<char>
    decreases n,
{
    if n < 10 {
        seq![digit_char(n as int)]
    } else {
        dec_digits(n / 10).push(digit_char((n % 10) as int))
    }
}

/// The decimal spelling of an integer: its digits, preceded by `-` when
/// it is negative.
pub open spec fn dec_str(x: int) -> Seq<char> {
    if x < 0 {
        seq!['-'] + dec_digits((-x) as nat)
    } else {
        dec_digits(x as nat)
    }
}

/// The decimal digits of `n` are nonempty digits spelling `n`.
pub proof fn lemma_dec_digits(n: nat)
    ensures
        dec_digits(n).len() >= 1,
        all_digits(dec_digits(n)),
        digits_val(dec_digits(n)) == n,
    decreases n,
{
    if n < 10 {
        let s = dec_digits(n);
        assert(s.len() == 1);
        assert(is_digit(s[0]));
        assert(s.drop_last() =~= Seq::<char>::empty());
        assert(digits_val(Seq::<char>::empty()) == 0);
        assert(s.last() == s[0]);
        assert(digits_val(s) == digit_val(s[0]));
    } else {
        lemma_dec_digits(n / 10);
        vstd::arithmetic::div_mod::lemma_fundamental_div_mod(n as int, 10);
        let pre = dec_digits(n / 10);
        let c = digit_char((n % 10) as int);
        let s = pre.push(c);
        assert(is_digit(c));
        assert(all_digits(s)) by {
            assert(forall|i: int| 0 <= i < pre.len() ==> #[trigger] s[i] == pre[i]);
        }
        assert(s.drop_last() =~= pre);
        assert(s.last() == c);
        assert(digits_val(s) == digits_val(pre) * 10 + digit_val(c));
    }
}

/// The decimal spelling of an integer is a separator-free integer
/// literal that spells exactly that integer.
pub proof fn lemma_dec_str_literal(x: int)
    ensures
        dec_str(x).len() >= 1,
        no_space(dec_str(x)),
        int_literal_val(dec_str(x)) == Some(x),
{
    let s = dec_str(x);
    if x >= 0 {
        lemma_dec_digits(x as nat);
        assert(no_space(s)) by {
            assert(forall|i: int| 0 <= i < s.len() ==> is_digit(#[trigger] s[i]));
        }
    } else {
        lemma_dec_digits((-x) as nat);
        let d = dec_digits((-x) as nat);
        assert(s.len() == 1 + d.len());
        assert(s[0] == '-');
        assert(s.skip(1) =~= d);
        assert(!is_digit('-'));
        assert(!all_digits(s)) by {
            assert(s[0] == '-');
        }
        assert(no_space(s)) by {
            assert(forall|i: int| 1 <= i < s.len() ==> is_digit(#[trigger] s[i]));
            assert(!is_space('-'));
        }
        assert(int_literal_val(s) == Some(-digits_val(d)));
    }
}

/// `v` is representable as an `i32`.
pub open spec fn in_i32(v: int) -> bool {
    i32::MIN <= v <= i32::MAX
}

/// The value `t` parses to as an `i32` operand: its literal value when
/// `t` is an integer literal that fits in `i32`, `None` otherwise.
pub open spec fn operand_val(t: Seq<char>) -> Option<i32> {
    match int_literal_val(t) {
        Some(v) => if in_i32(v) {
            Some(v as i32)
        } else {
            None
        },
        None => None,
    }
}

/// The recognized operator characters.
pub open spec fn is_op_char(c: char) -> bool {
    c == '+' || c == '-' || c == '*' || c == '/' || c == '%'
}

/// `t` is an operator token: a single recognized operator character.
pub open spec fn is_op_token(t: Seq<char>) -> bool {
    t.len() == 1 && is_op_char(t[0])
}

/// Integer division of `x` by `d`, truncating toward zero.
pub open spec fn trunc_div(x: int, d: int) -> int
    recommends
        d != 0,
{
    if x == 0 {
        0
    } else if x > 0 && d > 0 {
        x / d
    } else if x < 0 && d < 0 {
        (x * -1) / (d * -1)
    } else if x < 0 {
        ((x * -1) / d) * -1
    } else {
        (x / (d * -1)) * -1
    }
}

/// The remainder of `x` divided by `d` under truncating division: its
/// sign matches the sign of `x`.
pub open spec fn trunc_rem(x: int, d: int) -> int
    recommends
        d != 0,
{
    if x == 0 {
        0
    } else if x > 0 && d > 0 {
        x % d
    } else if x < 0 && d < 0 {
        ((x * -1) % (d * -1)) * -1
    } else if x < 0 {
        ((x * -1) % d) * -1
    } else {
        x % (d * -1)
    }
}

/// The truncating quotient of two `i32` values fits in `i32`, except
/// for `i32::MIN / -1`.
pub proof fn lemma_trunc_div_in_range(x: i32, y: i32)
    requires
        y != 0,
        !(x == i32::MIN && y == -1),
    ensures
        in_i32(trunc_div(x as int, y as int)),
{
    let xi = x as int;
    let d = y as int;
    let a: int = if xi < 0 {
        -xi
    } else {
        xi
    };
    let b: int = if d < 0 {
        -d
    } else {
        d
    };
    let q = a / b;
    vstd::arithmetic::div_mod::lemma_div_pos_is_pos(a, b);
    if b == 1 {
        vstd::arithmetic::div_mod::lemma_fundamental_div_mod(a, 1);
        vstd::arithmetic::div_mod::lemma_mod_division_less_than_divisor(a, 1);
        assert(q == a);
    } else {
        vstd::arithmetic::div_mod::lemma_div_is_ordered_by_denominator(a, 2, b);
        vstd::arithmetic::div_mod::lemma_div_nonincreasing(a, 2);
        assert(q <= a / 2);
    }
}

/// The truncating remainder of two `i32` values fits in `i32`, and its
/// sign matches the sign of the dividend.
pub proof fn lemma_trunc_rem_in_range(x: i32, y: i32)
    requires
        y != 0,
    ensures
        in_i32(trunc_rem(x as int, y as int)),
        x >= 0 ==> trunc_rem(x as int, y as int) >= 0,
        x <= 0 ==> trunc_rem(x as int, y as int) <= 0,
{
    let xi = x as int;
    let d = y as int;
    let a: int = if xi < 0 {
        -xi
    } else {
        xi
    };
    let b: int = if d < 0 {
        -d
    } else {
        d
    };
    vstd::arithmetic::div_mod::lemma_mod_division_less_than_divisor(a, b);
}

/// Truncating quotient and remainder reassemble the dividend:
/// `d * (x / d) + (x % d) == x` under truncating semantics.
pub proof fn lemma_trunc_div_mod(x: int, d: int)
    requires
        d != 0,
    ensures
        d * trunc_div(x, d) + trunc_rem(x, d) == x,
{
    let a: int = if x < 0 {
        -x
    } else {
        x
    };
    let b: int = if d < 0 {
        -d
    } else {
        d
    };
    let q = a / b;
    let r = a % b;
    vstd::arithmetic::div_mod::lemma_fundamental_div_mod(a, b);
    assert(a == b * q + r);
    if x == 0 {
        vstd::arithmetic::div_mod::lemma_mod_division_less_than_divisor(0, b);
        assert(trunc_rem(x, d) == 0);
        assert(d * 0 + 0 == 0) by (nonlinear_arith);
    } else if x > 0 && d > 0 {
        assert(d * trunc_div(x, d) + trunc_rem(x, d) == x);
    } else if x < 0 && d < 0 {
        assert(trunc_div(x, d) == q && trunc_rem(x, d) == r * -1);
        assert(a == b * q + r ==> -b * q + r * -1 == -a) by (nonlinear_arith);
    } else if x < 0 {
        assert(trunc_div(x, d) == q * -1 && trunc_rem(x, d) == r * -1);
        assert(a == b * q + r ==> b * (q * -1) + r * -1 == -a) by (nonlinear_arith);
    } else {
        assert(trunc_div(x, d) == q * -1 && trunc_rem(x, d) == r);
        assert(a == b * q + r ==> (-b) * (q * -1) + r == a) by (nonlinear_arith);
    }
}

/// The mathematical result of applying operator `c` to `x` and `y`,
/// where `y` was pushed after `x`.
pub open spec fn op_apply(c: char, x: int, y: int) -> Result<int, EvalError>
    recommends
        is_op_char(c),
{
    if c == '+' {
        Ok(x + y)
    } else if c == '-' {
        Ok(x - y)
    } else if c == '*' {
        Ok(x * y)
    } else if y == 0 {
        Err(EvalError::DivisionByZero)
    } else if c == '/' {
        Ok(trunc_div(x, y))
    } else {
        Ok(trunc_rem(x, y))
    }
}

/// The `i32` result of applying operator `c` to `x` and `y`: `Overflow`
/// when the mathematical result does not fit in `i32`.
pub open spec fn op_result(c: char, x: i32, y: i32) -> Result<i32, EvalError>
    recommends
        is_op_char(c),
{
    match op_apply(c, x as int, y as int) {
        Ok(v) => if in_i32(v) {
            Ok(v as i32)
        } else {
            Err(EvalError::Overflow)
        },
        Err(e) => Err(e),
    }
}

/// One evaluation step: the stack after processing token `t`, or the
/// error that processing `t` raises.
pub open spec fn eval_step(stack: Seq<i32>, t: Seq<char>) -> Result<Seq<i32>, EvalError> {
    match operand_val(t) {
        Some(v) => Ok(stack.push(v)),
        None => if is_op_token(t) {
            if stack.len() < 2 {
                Err(EvalError::StackUnderflow)
            } else {
                let x = stack[stack.len() - 2];
                let y = stack[stack.len() - 1];
                match op_result(t[0], x, y) {
                    Ok(v) => Ok(stack.drop_last().drop_last().push(v)),
                    Err(e) => Err(e),
                }
            }
        } else {
            Err(EvalError::InvalidToken)
        },
    }
}

/// The result of evaluating the remaining tokens `toks` over `stack`:
/// after the last token the stack must hold exactly one value, which is
/// the result.
pub open spec fn eval_tokens(stack: Seq<i32>, toks: Seq<Seq<char>>) -> Result<i32, EvalError>
    decreases toks.len(),
{
    if toks.len() == 0 {
        if stack.len() == 1 {
            Ok(stack[0])
        } else {
            Err(EvalError::MalformedExpression)
        }
    } else {
        match eval_step(stack, toks[0]) {
            Ok(st) => eval_tokens(st, toks.skip(1)),
            Err(e) => Err(e),
        }
    }
}

/// The result of evaluating the line `s` as an RPN expression.
pub open spec fn eval_spec(s: Seq<char>) -> Result<i32, EvalError> {
    eval_tokens(seq![], tokens_of(s))
}

impl EvalError {
    /// The human-readable description of this error kind.
    pub open spec fn describe_spec(self) -> Seq<char> {
        match self {
            EvalError::InvalidToken => "invalid token"@,
            EvalError::StackUnderflow => "stack underflow"@,
            EvalError::DivisionByZero => "division by zero"@,
            EvalError::MalformedExpression => "malformed expression"@,
            EvalError::Overflow => "overflow"@,
        }
    }

    /// A human-readable description of this error kind.
    pub fn describe(&self) -> (s: String)
        ensures
            s@ == self.describe_spec(),
    {
        match self {
            EvalError::InvalidToken => "invalid token".to_owned(),
            EvalError::StackUnderflow => "stack underflow".to_owned(),
            EvalError::DivisionByZero => "division by zero".to_owned(),
            EvalError::MalformedExpression => "malformed expression".to_owned(),
            EvalError::Overflow => "overflow".to_owned(),
        }
    }
}

} // verus!
