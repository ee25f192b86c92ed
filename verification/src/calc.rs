//! The executable evaluator: tokenizer, operand parser, operator
//! application and the stack evaluation loop, each proved to agree with
//! the model in `semantics`.

use vstd::prelude::*;

use crate::semantics::all_digits;
use crate::semantics::digits_val;
use crate::semantics::eval_spec;
use crate::semantics::eval_step;
use crate::semantics::eval_tokens;
use crate::semantics::int_literal_val;
use crate::semantics::is_digit;
use crate::semantics::is_op_char;
use crate::semantics::lemma_digits_val_nonneg;
use crate::semantics::lemma_digits_val_prefix;
use crate::semantics::op_result;
use crate::semantics::operand_val;
use crate::semantics::tokens_from;
use crate::semantics::tokens_of;
use crate::semantics::EvalError;

verus! {

/// The character sequences held by a sequence of token buffers.
pub open spec fn views_of(ts: Seq<Vec<char>>) -> Seq<Seq<char>> {
    ts.map_values(|t: Vec<char>| t@)
}

/// Splits `s` into its whitespace-separated tokens, in order.
fn tokenize(s: &str) -> (toks: Vec<Vec<char>>)
    ensures
        views_of(toks@) == tokens_of(s@),
{
    let n = s.unicode_len();
    let mut toks: Vec<Vec<char>> = Vec::new();
    let mut cur: Vec<char> = Vec::new();
    let mut i: usize = 0;
    proof {
        assert(s@.skip(0) =~= s@);
        assert(views_of(toks@) =~= Seq::<Seq<char>>::empty());
        assert(cur@ =~= seq![]);
        assert(views_of(toks@) + tokens_from(s@, cur@) =~= tokens_from(s@, cur@));
    }
    while i < n
        invariant
            n == s@.len(),
            i <= n,
            tokens_of(s@) == views_of(toks@) + tokens_from(s@.skip(i as int), cur@),
        decreases n - i,
    {
        let c = s.get_char(i);
        proof {
            assert(s@.skip(i as int)[0] == s@[i as int]);
            assert(s@.skip(i as int).skip(1) =~= s@.skip(i as int + 1));
        }
        if c == ' ' || c == '\t' || c == '\n' || c == '\r' || c == '\u{b}' || c == '\u{c}' {
            if cur.len() > 0 {
                let ghost prev = toks@;
                let ghost curv = cur@;
                toks.push(cur);
                cur = Vec::new();
                proof {
                    assert(cur@ =~= seq![]);
                    assert(views_of(toks@) =~= views_of(prev) + seq![curv]);
                    assert((views_of(prev) + seq![curv]) + tokens_from(s@.skip(i as int + 1), cur@)
                        =~= views_of(prev) + (seq![curv] + tokens_from(s@.skip(i as int + 1), cur@)));
                }
            } else {
                proof {
                    assert(cur@ =~= seq![]);
                }
            }
        } else {
            cur.push(c);
        }
        i = i + 1;
    }
    proof {
        assert(s@.skip(n as int) =~= Seq::<char>::empty());
    }
    if cur.len() > 0 {
        let ghost prev = toks@;
        let ghost curv = cur@;
        toks.push(cur);
        proof {
            assert(views_of(toks@) =~= views_of(prev) + seq![curv]);
        }
    }
    proof {
        assert(views_of(toks@) + Seq::<Seq<char>>::empty() =~= views_of(toks@));
    }
    toks
}

/// A token whose digits (after the optional sign) are not all decimal
/// digits is no integer literal.
proof fn lemma_no_literal(t: Seq<char>, start: int)
    requires
        t.len() > 0,
        start == if t[0] == '-' { 1int } else { 0int },
        start <= t.len(),
        !all_digits(t.subrange(start, t.len() as int)),
    ensures
        int_literal_val(t) is None,
{
    let seg = t.subrange(start, t.len() as int);
    if start == 0 {
        assert(seg =~= t);
    } else {
        assert(seg =~= t.skip(1));
        assert(!all_digits(t)) by {
            if t.len() > 1 {
                let i = choose|i: int| 0 <= i < seg.len() && !is_digit(#[trigger] seg[i]);
                assert(t[i + 1] == seg[i]);
            } else {
                assert(!is_digit(t[0]));
            }
        }
    }
}

/// Parses `t` as an `i32` operand: a base-10 integer literal whose value
/// fits in `i32`.
fn parse_operand(t: &Vec<char>) -> (r: Option<i32>)
    ensures
        r == operand_val(t@),
{
    if t.len() == 0 {
        return None;
    }
    let neg = t[0] == '-';
    let start: usize = if neg {
        1
    } else {
        0
    };
    let ghost seg = t@.subrange(start as int, t@.len() as int);
    if start == t.len() {
        // the token is a lone `-`, which is no literal
        proof {
            assert(!is_digit(t@[0]));
            assert(!all_digits(t@));
        }
        return None;
    }
    let mut acc: u32 = 0;
    let mut i: usize = start;
    while i < t.len()
        invariant
            t@.len() > 0,
            neg == (t@[0] == '-'),
            start == if neg { 1int } else { 0int },
            start <= i <= t@.len(),
            seg == t@.subrange(start as int, t@.len() as int),
            all_digits(t@.subrange(start as int, i as int)),
            acc as int == digits_val(t@.subrange(start as int, i as int)),
        decreases t@.len() - i,
    {
        let c = t[i];
        if !('0' <= c && c <= '9') {
            proof {
                assert(!is_digit(t@[i as int]));
                assert(seg[i - start] == t@[i as int]);
                lemma_no_literal(t@, start as int);
            }
            return None;
        }
        let d = (c as u32) - 48;
        proof {
            assert(t@.subrange(start as int, i as int + 1).drop_last() =~= t@.subrange(
                start as int,
                i as int,
            ));
            assert(t@.subrange(start as int, i as int + 1).last() == t@[i as int]);
            assert(all_digits(t@.subrange(start as int, i as int + 1))) by {
                let pre = t@.subrange(start as int, i as int);
                let ext = t@.subrange(start as int, i as int + 1);
                assert(forall|j: int| 0 <= j < ext.len() ==> #[trigger] ext[j] == t@[start + j]);
                assert(forall|j: int| 0 <= j < pre.len() ==> #[trigger] pre[j] == t@[start + j]);
            }
        }
        let next = match acc.checked_mul(10) {
            Some(a) => a.checked_add(d),
            None => None,
        };
        match next {
            Some(a) => {
                acc = a;
            },
            None => {
                // the digits read so far already exceed `u32::MAX`, so the
                // literal value cannot fit in `i32`, whatever follows
                proof {
                    if all_digits(seg) {
                        let k = i + 1 - start;
                        assert(seg.take(k as int) =~= t@.subrange(start as int, i as int + 1));
                        lemma_digits_val_prefix(seg, k as int);
                        assert(digits_val(seg) > u32::MAX);
                        if start == 0 {
                            assert(seg =~= t@);
                        } else {
                            assert(seg =~= t@.skip(1));
                            assert(!all_digits(t@)) by {
                                assert(!is_digit(t@[0]));
                            }
                        }
                    } else {
                        lemma_no_literal(t@, start as int);
                    }
                }
                return None;
            },
        }
        i = i + 1;
    }
    proof {
        assert(t@.subrange(start as int, i as int) =~= seg);
        lemma_digits_val_nonneg(seg);
        if start == 0 {
            assert(seg =~= t@);
        } else {
            assert(seg =~= t@.skip(1));
            assert(!all_digits(t@)) by {
                assert(!is_digit(t@[0]));
            }
        }
    }
    if neg {
        if acc <= 0x7fff_ffff {
            Some(-(acc as i32))
        } else if acc == 0x8000_0000 {
            Some(i32::MIN)
        } else {
            None
        }
    } else {
        if acc <= 0x7fff_ffff {
            Some(acc as i32)
        } else {
            None
        }
    }
}

/// Applies operator `c` to `x` and `y`, where `y` was pushed after `x`.
fn apply_op(c: char, x: i32, y: i32) -> (r: Result<i32, EvalError>)
    requires
        is_op_char(c),
    ensures
        r == op_result(c, x, y),
{
    if c == '+' {
        match x.checked_add(y) {
            Some(v) => Ok(v),
            None => Err(EvalError::Overflow),
        }
    } else if c == '-' {
        match x.checked_sub(y) {
            Some(v) => Ok(v),
            None => Err(EvalError::Overflow),
        }
    } else if c == '*' {
        match x.checked_mul(y) {
            Some(v) => Ok(v),
            None => Err(EvalError::Overflow),
        }
    } else if y == 0 {
        Err(EvalError::DivisionByZero)
    } else if c == '/' {
        match x.checked_div(y) {
            Some(v) => Ok(v),
            None => Err(EvalError::Overflow),
        }
    } else {
        // the truncating remainder of `x` by `-1` is `0`, also for
        // `i32::MIN`, where `checked_rem` reports an overflow instead
        if y == -1 {
            Ok(0)
        } else {
            match x.checked_rem(y) {
                Some(v) => Ok(v),
                None => Err(EvalError::Overflow),
            }
        }
    }
}

/// Processes one token: pushes an operand, or pops two operands and
/// pushes the operator's result; an error leaves the caller's evaluation
/// at the raising step.
fn eval_step_exec(stack: &mut Vec<i32>, t: &Vec<char>) -> (r: Result<(), EvalError>)
    ensures
        match r {
            Ok(()) => eval_step(old(stack)@, t@) == Ok::<Seq<i32>, EvalError>(final(stack)@),
            Err(e) => eval_step(old(stack)@, t@) == Err::<Seq<i32>, EvalError>(e),
        },
{
    match parse_operand(t) {
        Some(v) => {
            stack.push(v);
            Ok(())
        },
        None => {
            if t.len() == 1 && (t[0] == '+' || t[0] == '-' || t[0] == '*' || t[0] == '/' || t[0]
                == '%') {
                if stack.len() < 2 {
                    Err(EvalError::StackUnderflow)
                } else {
                    let ghost st0 = stack@;
                    let y = stack.pop().unwrap();
                    let x = stack.pop().unwrap();
                    proof {
                        assert(stack@ =~= st0.drop_last().drop_last());
                    }
                    match apply_op(t[0], x, y) {
                        Ok(v) => {
                            stack.push(v);
                            Ok(())
                        },
                        Err(e) => Err(e),
                    }
                }
            } else {
                Err(EvalError::InvalidToken)
            }
        },
    }
}

/// An RPN calculator; the flag says whether a caller wants intermediate
/// state reported while a line is evaluated. The flag never affects what
/// `eval` returns.
pub struct RpnCalculator(pub bool);

impl RpnCalculator {
    /// A calculator with the given verbosity flag.
    pub fn new(verbose: bool) -> (r: Self)
        ensures
            r.0 == verbose,
    {
        RpnCalculator(verbose)
    }

    /// Evaluates one line of text as an RPN expression: its
    /// whitespace-separated tokens are processed left to right over an
    /// operand stack, and the single value left on the stack is the
    /// result.
    pub fn eval(&self, formula: &str) -> (r: Result<i32, EvalError>)
        ensures
            r == eval_spec(formula@),
    {
        let toks = tokenize(formula);
        let mut stack: Vec<i32> = Vec::new();
        let n = toks.len();
        let mut i: usize = 0;
        proof {
            assert(views_of(toks@).skip(0) =~= views_of(toks@));
            assert(stack@ =~= seq![]);
        }
        while i < n
            invariant
                n == toks@.len(),
                i <= n,
                eval_tokens(stack@, views_of(toks@).skip(i as int)) == eval_spec(formula@),
            decreases n - i,
        {
            let t = &toks[i];
            proof {
                assert(views_of(toks@).skip(i as int)[0] == t@);
                assert(views_of(toks@).skip(i as int).skip(1) =~= views_of(toks@).skip(
                    i as int + 1,
                ));
            }
            match eval_step_exec(&mut stack, t) {
                Ok(()) => {},
                Err(e) => {
                    return Err(e);
                },
            }
            i = i + 1;
        }
        proof {
            assert(views_of(toks@).skip(n as int) =~= Seq::<Seq<char>>::empty());
        }
        if stack.len() == 1 {
            Ok(stack[0])
        } else {
            Err(EvalError::MalformedExpression)
        }
    }
}

} // verus!
