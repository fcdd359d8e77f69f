//! The stack machine: its arithmetic, its step-by-step model, and the
//! executable run over a token list.

use vstd::prelude::*;
use vstd::arithmetic::div_mod::{
    lemma_div_basics, lemma_div_is_strictly_smaller, lemma_div_nonincreasing,
    lemma_div_pos_is_pos, lemma_mod_add_multiples_vanish, lemma_mod_bound, lemma_small_mod,
};
use vstd::wrapping::i32_specs;

use crate::token::{classify, classify_token, toks_view, Op, Token};

verus! {

/// Why an evaluation failed.
#[derive(Clone, Copy, Debug, PartialEq, Eq, Structural)]
pub enum EvalError {
    /// A token is neither an integer literal nor an operator, an operator
    /// found fewer than two operands on the stack, or the whole formula left
    /// the stack without exactly one value.
    SyntaxError,
    /// `/` or `%` was applied with a zero right-hand operand.
    DivisionByZeroError,
}

/// The magnitude of an integer.
pub open spec fn abs_int(v: int) -> int {
    if v < 0 {
        -v
    } else {
        v
    }
}

/// Division truncating toward zero, the semantics of the machine's `/`.
pub open spec fn tdiv(x: int, y: int) -> int
    recommends
        y != 0,
{
    let q = abs_int(x) / abs_int(y);
    if (x < 0) == (y < 0) {
        q
    } else {
        -q
    }
}

/// Remainder of truncating division: its sign follows the dividend.
pub open spec fn trem(x: int, y: int) -> int
    recommends
        y != 0,
{
    let r = abs_int(x) % abs_int(y);
    if x < 0 {
        -r
    } else {
        r
    }
}

/// `x OP y` on 32-bit words. `+ - *`, and the one overflowing quotient
/// `i32::MIN / -1`, wrap around; division and remainder by zero fail.
pub open spec fn apply_op(op: Op, x: i32, y: i32) -> Result<i32, EvalError> {
    match op {
        Op::Add => Ok(i32_specs::wrapping_add(x, y)),
        Op::Sub => Ok(i32_specs::wrapping_sub(x, y)),
        Op::Mul => Ok(i32_specs::wrapping_mul(x, y)),
        Op::Div => if y == 0 {
            Err(EvalError::DivisionByZeroError)
        } else {
            Ok(i32_specs::signed_crop(tdiv(x as int, y as int)))
        },
        Op::Rem => if y == 0 {
            Err(EvalError::DivisionByZeroError)
        } else {
            Ok(i32_specs::signed_crop(trem(x as int, y as int)))
        },
    }
}

/// Wrapping a value already in range leaves it unchanged.
proof fn lemma_signed_crop_identity(v: int)
    requires
        i32::MIN <= v <= i32::MAX,
    ensures
        i32_specs::signed_crop(v) == v,
{
    if v >= 0 {
        lemma_small_mod(v as nat, 0x1_0000_0000nat);
    } else {
        lemma_mod_add_multiples_vanish(v, 0x1_0000_0000);
        lemma_small_mod((v + 0x1_0000_0000) as nat, 0x1_0000_0000nat);
    }
}

/// A quotient other than `i32::MIN / -1` stays in range, so it needs no wrap.
proof fn lemma_quotient_in_range(x: i32, y: i32)
    requires
        y != 0,
        !(x == i32::MIN && y == -1),
    ensures
        i32::MIN <= tdiv(x as int, y as int) <= i32::MAX,
        i32_specs::signed_crop(tdiv(x as int, y as int)) == tdiv(x as int, y as int),
{
    let xa = abs_int(x as int);
    let ya = abs_int(y as int);
    lemma_div_pos_is_pos(xa, ya);
    lemma_div_nonincreasing(xa, ya);
    if ya == 1 {
        lemma_div_basics(xa);
    } else if xa > 0 {
        lemma_div_is_strictly_smaller(xa, ya);
    }
    lemma_signed_crop_identity(tdiv(x as int, y as int));
}

/// A remainder always stays in range, so it needs no wrap.
proof fn lemma_remainder_in_range(x: i32, y: i32)
    requires
        y != 0,
    ensures
        i32::MIN <= trem(x as int, y as int) <= i32::MAX,
        i32_specs::signed_crop(trem(x as int, y as int)) == trem(x as int, y as int),
{
    let xa = abs_int(x as int);
    let ya = abs_int(y as int);
    lemma_mod_bound(xa, ya);
    lemma_signed_crop_identity(trem(x as int, y as int));
}

/// Computes `x OP y` as `apply_op` states it.
#[verifier::spinoff_prover]
pub fn apply_op_exec(op: Op, x: i32, y: i32) -> (r: Result<i32, EvalError>)
    ensures
        r == apply_op(op, x, y),
{
    match op {
        Op::Add => Ok(x.wrapping_add(y)),
        Op::Sub => Ok(x.wrapping_sub(y)),
        Op::Mul => Ok(x.wrapping_mul(y)),
        Op::Div => {
            if y == 0 {
                Err(EvalError::DivisionByZeroError)
            } else if x == i32::MIN && y == -1 {
                // The one overflowing quotient wraps back to `i32::MIN`.
                proof {
                    lemma_div_basics(0x8000_0000int);
                    lemma_small_mod(0x8000_0000nat, 0x1_0000_0000nat);
                }
                Ok(i32::MIN)
            } else {
                proof {
                    lemma_quotient_in_range(x, y);
                }
                Ok(x.checked_div(y).unwrap())
            }
        },
        Op::Rem => {
            match x.checked_rem(y) {
                Some(r) => {
                    proof {
                        lemma_remainder_in_range(x, y);
                    }
                    Ok(r)
                },
                None => {
                    if y == 0 {
                        Err(EvalError::DivisionByZeroError)
                    } else {
                        // `i32::MIN % -1` is zero, though the division overflows.
                        proof {
                            lemma_remainder_in_range(x, y);
                        }
                        Ok(0)
                    }
                },
            }
        },
    }
}

/// What the machine returns when it reads `toks` left to right with `stack`
/// already holding earlier values, bottom first: each operand is pushed; each
/// operator pops the right operand, then the left, and pushes `x OP y`; at
/// the end exactly one value must remain, and it is the result.
pub open spec fn machine_result(toks: Seq<Seq<char>>, stack: Seq<i32>) -> Result<i32, EvalError>
    decreases toks.len(),
{
    if toks.len() == 0 {
        if stack.len() == 1 {
            Ok(stack[0])
        } else {
            Err(EvalError::SyntaxError)
        }
    } else {
        match classify(toks[0]) {
            Token::Operand(v) => machine_result(toks.drop_first(), stack.push(v)),
            Token::Operator(op) => {
                if stack.len() < 2 {
                    Err(EvalError::SyntaxError)
                } else {
                    match apply_op(op, stack[stack.len() - 2], stack[stack.len() - 1]) {
                        Ok(v) => machine_result(
                            toks.drop_first(),
                            stack.take(stack.len() - 2).push(v),
                        ),
                        Err(e) => Err(e),
                    }
                }
            },
            Token::Unknown => Err(EvalError::SyntaxError),
        }
    }
}

/// One line of trace: how many tokens of the formula have been consumed so
/// far, and the stack at that moment, bottom first.
pub struct TraceStep {
    /// Tokens of the formula consumed so far, counted from its start.
    pub consumed: usize,
    /// The machine stack after the last consumed token, bottom first.
    pub stack: Vec<i32>,
}

impl View for TraceStep {
    type V = (int, Seq<i32>);

    open spec fn view(&self) -> (int, Seq<i32>) {
        (self.consumed as int, self.stack@)
    }
}

/// The views of a sequence of trace steps.
pub open spec fn trace_views(s: Seq<TraceStep>) -> Seq<(int, Seq<i32>)> {
    s.map_values(|st: TraceStep| st@)
}

/// The trace the machine emits from state (`toks`, `stack`) after `consumed`
/// tokens: one entry per further token it consumes, up to the end of the
/// formula or the step that fails.
pub open spec fn machine_trace(toks: Seq<Seq<char>>, stack: Seq<i32>, consumed: int) -> Seq<
    (int, Seq<i32>),
>
    decreases toks.len(),
{
    if toks.len() == 0 {
        Seq::empty()
    } else {
        match classify(toks[0]) {
            Token::Operand(v) => seq![(consumed + 1, stack.push(v))] + machine_trace(
                toks.drop_first(),
                stack.push(v),
                consumed + 1,
            ),
            Token::Operator(op) => {
                if stack.len() < 2 {
                    Seq::empty()
                } else {
                    match apply_op(op, stack[stack.len() - 2], stack[stack.len() - 1]) {
                        Ok(v) => seq![(consumed + 1, stack.take(stack.len() - 2).push(v))]
                            + machine_trace(
                            toks.drop_first(),
                            stack.take(stack.len() - 2).push(v),
                            consumed + 1,
                        ),
                        Err(_) => Seq::empty(),
                    }
                }
            },
            Token::Unknown => Seq::empty(),
        }
    }
}

/// A copy of the machine stack, bottom first.
fn snapshot_stack(v: &Vec<i32>) -> (r: Vec<i32>)
    ensures
        r@ == v@,
{
    let mut r: Vec<i32> = Vec::new();
    let mut i: usize = 0;
    proof {
        assert(r@ =~= v@.take(0));
    }
    while i < v.len()
        invariant
            0 <= i <= v@.len(),
            r@ == v@.take(i as int),
        decreases v@.len() - i,
    {
        r.push(v[i]);
        proof {
            assert(v@.take(i as int).push(v@[i as int]) =~= v@.take(i + 1));
        }
        i = i + 1;
    }
    proof {
        assert(v@.take(v@.len() as int) =~= v@);
    }
    r
}

/// Runs the machine over a work list of tokens held in reverse order, so
/// that popping from its end consumes the formula left to right. Returns the
/// machine's result together with its full trace; the work list is consumed
/// down to the tokens the machine never reached.
pub fn run_tokens(tokens: &mut Vec<&str>) -> (r: (Result<i32, EvalError>, Vec<TraceStep>))
    ensures
        r.0 == machine_result(toks_view(old(tokens)@).reverse(), Seq::empty()),
        trace_views(r.1@) == machine_trace(toks_view(old(tokens)@).reverse(), Seq::empty(), 0),
        final(tokens)@ == old(tokens)@.take(final(tokens)@.len() as int),
        r.0 is Ok ==> final(tokens)@.len() == 0 && r.1@.len() == old(tokens)@.len(),
        r.0 is Err ==> final(tokens)@.len() == if r.1@.len() == old(tokens)@.len() {
            0int
        } else {
            old(tokens)@.len() - r.1@.len() - 1
        },
{
    let ghost all = toks_view(old(tokens)@).reverse();
    let n0: usize = tokens.len();
    let mut stack: Vec<i32> = Vec::new();
    let mut trace: Vec<TraceStep> = Vec::new();
    proof {
        assert(old(tokens)@.take(n0 as int) =~= old(tokens)@);
        assert(trace_views(trace@) + machine_trace(all, Seq::empty(), 0) =~= machine_trace(
            all,
            Seq::empty(),
            0,
        ));
    }
    while tokens.len() > 0
        invariant
            n0 == old(tokens)@.len(),
            tokens@.len() <= n0,
            tokens@ == old(tokens)@.take(tokens@.len() as int),
            trace@.len() == n0 - tokens@.len(),
            all == toks_view(old(tokens)@).reverse(),
            machine_result(all, Seq::empty()) == machine_result(
                toks_view(tokens@).reverse(),
                stack@,
            ),
            machine_trace(all, Seq::empty(), 0) == trace_views(trace@) + machine_trace(
                toks_view(tokens@).reverse(),
                stack@,
                n0 - tokens@.len(),
            ),
        decreases tokens@.len(),
    {
        let ghost rem = toks_view(tokens@).reverse();
        let ghost pre_stack = stack@;
        let ghost consumed_pre: int = n0 - tokens@.len();
        let token = tokens.pop().unwrap();
        proof {
            assert(rem.len() == tokens@.len() + 1);
            assert(rem[0] == token@);
            assert(rem.drop_first() =~= toks_view(tokens@).reverse());
        }
        match classify_token(token) {
            Token::Operand(v) => {
                stack.push(v);
            },
            Token::Operator(op) => {
                if stack.len() < 2 {
                    return (Err(EvalError::SyntaxError), trace);
                }
                let y = stack.pop().unwrap();
                let x = stack.pop().unwrap();
                match apply_op_exec(op, x, y) {
                    Ok(v) => {
                        proof {
                            assert(stack@ =~= pre_stack.take(pre_stack.len() - 2));
                        }
                        stack.push(v);
                    },
                    Err(e) => {
                        return (Err(e), trace);
                    },
                }
            },
            Token::Unknown => {
                return (Err(EvalError::SyntaxError), trace);
            },
        }
        let step = TraceStep { consumed: n0 - tokens.len(), stack: snapshot_stack(&stack) };
        trace.push(step);
        proof {
            assert(tokens@ =~= old(tokens)@.take(tokens@.len() as int));
            assert(trace_views(trace@) =~= trace_views(trace@.drop_last()) + seq![
                (consumed_pre + 1, stack@),
            ]);
        }
    }
    proof {
        assert(toks_view(tokens@).reverse() =~= Seq::<Seq<char>>::empty());
    }
    if stack.len() == 1 {
        let v = stack[0];
        (Ok(v), trace)
    } else {
        (Err(EvalError::SyntaxError), trace)
    }
}

} // verus!
