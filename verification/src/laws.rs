//! Laws of the machine: a well-formed postfix formula never draws a syntax
//! error, and a formula that evaluates to a value is necessarily well formed.

use vstd::prelude::*;

use crate::calc::spec_eval_line;
use crate::machine::{apply_op, machine_result, EvalError};
use crate::token::{classify, tokenize, Token};

verus! {

/// How one token changes the height of the stack: an operand pushes one
/// value, an operator pops two and pushes one.
pub open spec fn token_effect(t: Seq<char>) -> int {
    match classify(t) {
        Token::Operand(_) => 1,
        Token::Operator(_) => -1,
        Token::Unknown => 0,
    }
}

/// The net change of stack height over a whole token sequence.
pub open spec fn height(toks: Seq<Seq<char>>) -> int
    decreases toks.len(),
{
    if toks.len() == 0 {
        0
    } else {
        token_effect(toks[0]) + height(toks.drop_first())
    }
}

/// Every token is an operand or an operator.
pub open spec fn all_tokens_known(toks: Seq<Seq<char>>) -> bool {
    forall|i: int| 0 <= i < toks.len() ==> !((#[trigger] classify(toks[i])) is Unknown)
}

/// A well-formed postfix formula: every token is known, every operator finds
/// at least two values on the stack, and exactly one value is left at the
/// end — with N operands there are N-1 operators, in valid postfix order.
pub open spec fn well_formed_rpn(toks: Seq<Seq<char>>) -> bool {
    &&& all_tokens_known(toks)
    &&& forall|i: int|
        0 <= i < toks.len() && (#[trigger] classify(toks[i])) is Operator ==> height(toks.take(i))
            >= 2
    &&& height(toks) == 1
}

/// The induction behind the laws, generalized over the starting stack: if
/// every operator finds two values and the final height is one, the machine
/// reports no syntax error.
proof fn lemma_machine_no_syntax_error(toks: Seq<Seq<char>>, stack: Seq<i32>)
    requires
        all_tokens_known(toks),
        forall|i: int|
            0 <= i < toks.len() && (#[trigger] classify(toks[i])) is Operator ==> stack.len()
                + height(toks.take(i)) >= 2,
        stack.len() + height(toks) == 1,
    ensures
        machine_result(toks, stack) != Err::<i32, EvalError>(EvalError::SyntaxError),
    decreases toks.len(),
{
    if toks.len() == 0 {
        assert(stack.len() == 1);
    } else {
        let t = toks[0];
        let rest = toks.drop_first();
        assert(toks.take(0) =~= Seq::<Seq<char>>::empty());
        match classify(t) {
            Token::Operand(v) => {
                let stack1 = stack.push(v);
                assert forall|i: int|
                    0 <= i < rest.len() && (#[trigger] classify(rest[i])) is Operator implies (
                stack1.len() + height(rest.take(i)) >= 2) by {
                    assert(rest[i] == toks[i + 1]);
                    assert(toks.take(i + 1).drop_first() =~= rest.take(i));
                    assert(toks.take(i + 1)[0] == t);
                    assert(height(toks.take(i + 1)) == 1 + height(rest.take(i)));
                    assert(stack.len() + height(toks.take(i + 1)) >= 2);
                }
                lemma_machine_no_syntax_error(rest, stack1);
            },
            Token::Operator(op) => {
                assert(stack.len() + height(toks.take(0)) >= 2);
                assert(stack.len() >= 2);
                let x = stack[stack.len() - 2];
                let y = stack[stack.len() - 1];
                match apply_op(op, x, y) {
                    Ok(v) => {
                        let stack1 = stack.take(stack.len() - 2).push(v);
                        assert(stack1.len() == stack.len() - 1);
                        assert forall|i: int|
                            0 <= i < rest.len() && (#[trigger] classify(rest[i])) is Operator
                            implies (stack1.len() + height(rest.take(i)) >= 2) by {
                            assert(rest[i] == toks[i + 1]);
                            assert(toks.take(i + 1).drop_first() =~= rest.take(i));
                            assert(toks.take(i + 1)[0] == t);
                            assert(height(toks.take(i + 1)) == -1 + height(rest.take(i)));
                            assert(stack.len() + height(toks.take(i + 1)) >= 2);
                        }
                        lemma_machine_no_syntax_error(rest, stack1);
                    },
                    Err(e) => {
                        assert(e == EvalError::DivisionByZeroError);
                    },
                }
            },
            Token::Unknown => {
                assert(!all_tokens_known(toks));
            },
        }
    }
}

/// On a well-formed formula evaluation is owed a value: the machine returns
/// the formula's result, or fails only by dividing by zero — never with a
/// syntax error.
pub proof fn lemma_well_formed_no_syntax_error(toks: Seq<Seq<char>>)
    requires
        well_formed_rpn(toks),
    ensures
        machine_result(toks, Seq::empty()) is Ok || machine_result(toks, Seq::empty()) == Err::<
            i32,
            EvalError,
        >(EvalError::DivisionByZeroError),
{
    lemma_machine_no_syntax_error(toks, Seq::empty());
    let r = machine_result(toks, Seq::empty());
    if r is Err {
        match r {
            Ok(_) => {},
            Err(e) => {
                assert(e != EvalError::SyntaxError);
            },
        }
    }
}

/// The converse induction, generalized over the starting stack: a run that
/// returns a value forces every token to be known, every operator to find
/// two values, and the final height to be one.
proof fn lemma_machine_ok_forces_well_formed(toks: Seq<Seq<char>>, stack: Seq<i32>)
    requires
        machine_result(toks, stack) is Ok,
    ensures
        all_tokens_known(toks),
        forall|i: int|
            0 <= i < toks.len() && (#[trigger] classify(toks[i])) is Operator ==> stack.len()
                + height(toks.take(i)) >= 2,
        stack.len() + height(toks) == 1,
    decreases toks.len(),
{
    if toks.len() == 0 {
        assert(stack.len() == 1);
    } else {
        let t = toks[0];
        let rest = toks.drop_first();
        match classify(t) {
            Token::Operand(v) => {
                let stack1 = stack.push(v);
                lemma_machine_ok_forces_well_formed(rest, stack1);
                assert forall|i: int| 0 <= i < toks.len() implies !((#[trigger] classify(
                    toks[i],
                )) is Unknown) by {
                    if i > 0 {
                        assert(toks[i] == rest[i - 1]);
                    }
                }
                assert forall|i: int|
                    0 <= i < toks.len() && (#[trigger] classify(toks[i])) is Operator implies (
                stack.len() + height(toks.take(i)) >= 2) by {
                    assert(toks[i] == rest[i - 1]);
                    assert(toks.take(i).drop_first() =~= rest.take(i - 1));
                    assert(toks.take(i)[0] == t);
                    assert(height(toks.take(i)) == 1 + height(rest.take(i - 1)));
                }
            },
            Token::Operator(op) => {
                assert(stack.len() >= 2);
                let x = stack[stack.len() - 2];
                let y = stack[stack.len() - 1];
                match apply_op(op, x, y) {
                    Ok(v) => {
                        let stack1 = stack.take(stack.len() - 2).push(v);
                        assert(stack1.len() == stack.len() - 1);
                        lemma_machine_ok_forces_well_formed(rest, stack1);
                        assert forall|i: int| 0 <= i < toks.len() implies !((#[trigger] classify(
                            toks[i],
                        )) is Unknown) by {
                            if i > 0 {
                                assert(toks[i] == rest[i - 1]);
                            }
                        }
                        assert forall|i: int|
                            0 <= i < toks.len() && (#[trigger] classify(toks[i])) is Operator
                            implies (stack.len() + height(toks.take(i)) >= 2) by {
                            if i == 0 {
                                assert(toks.take(0) =~= Seq::<Seq<char>>::empty());
                            } else {
                                assert(toks[i] == rest[i - 1]);
                                assert(toks.take(i).drop_first() =~= rest.take(i - 1));
                                assert(toks.take(i)[0] == t);
                                assert(height(toks.take(i)) == -1 + height(rest.take(i - 1)));
                            }
                        }
                    },
                    Err(_) => {},
                }
            },
            Token::Unknown => {},
        }
    }
}

/// A value comes only from a well-formed formula: a formula with an unknown
/// word, with too few operators to reduce the operands to one value, or with
/// an operator short of operands, always fails.
pub proof fn lemma_ok_implies_well_formed(toks: Seq<Seq<char>>)
    ensures
        machine_result(toks, Seq::empty()) is Ok ==> well_formed_rpn(toks),
{
    if machine_result(toks, Seq::empty()) is Ok {
        lemma_machine_ok_forces_well_formed(toks, Seq::empty());
    }
}

/// A formula that is not well formed — too few operators to reduce the
/// operands to one value, an operator short of operands, or an unknown word
/// — never evaluates to a value.
pub proof fn lemma_ill_formed_fails(toks: Seq<Seq<char>>)
    requires
        !well_formed_rpn(toks),
    ensures
        machine_result(toks, Seq::empty()) is Err,
{
    lemma_ok_implies_well_formed(toks);
}

/// The law at the level of a line of text: a line whose tokens form a
/// well-formed postfix formula evaluates to a value, or fails only by
/// dividing by zero.
pub proof fn lemma_well_formed_line_evaluates(line: Seq<char>)
    requires
        well_formed_rpn(tokenize(line)),
    ensures
        spec_eval_line(line) is Ok || spec_eval_line(line) == Err::<i32, EvalError>(
            EvalError::DivisionByZeroError,
        ),
{
    lemma_well_formed_no_syntax_error(tokenize(line));
}

/// The converse at the level of a line of text: a line that evaluates to a
/// value tokenizes to a well-formed postfix formula.
pub proof fn lemma_line_ok_implies_well_formed(line: Seq<char>)
    ensures
        spec_eval_line(line) is Ok ==> well_formed_rpn(tokenize(line)),
{
    lemma_ok_implies_well_formed(tokenize(line));
}

} // verus!

