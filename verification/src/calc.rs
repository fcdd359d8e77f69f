//! The evaluator: a value holding the verbosity flag, with one operation
//! that evaluates a formula line and one that also reports the trace.

use vstd::prelude::*;

use crate::machine::{machine_result, machine_trace, run_tokens, trace_views, EvalError, TraceStep};
use crate::token::{tokenize, tokenize_line, toks_view};

verus! {

/// What evaluating one line of text yields: the value of the formula on it,
/// or the error on which the evaluation stopped.
pub open spec fn spec_eval_line(line: Seq<char>) -> Result<i32, EvalError> {
    machine_result(tokenize(line), Seq::empty())
}

/// The trace that evaluating one line of text emits: after each consumed
/// token, how many tokens have been consumed and what the stack holds.
pub open spec fn spec_eval_trace(line: Seq<char>) -> Seq<(int, Seq<i32>)> {
    machine_trace(tokenize(line), Seq::empty(), 0)
}

/// The tokens of a vector in reverse order: the work list that `eval_inner`
/// consumes from its end.
fn reverse_tokens<'a>(v: &Vec<&'a str>) -> (r: Vec<&'a str>)
    ensures
        r@ == v@.reverse(),
{
    let n = v.len();
    let mut r: Vec<&'a str> = Vec::new();
    let mut i: usize = 0;
    while i < n
        invariant
            n == v@.len(),
            0 <= i <= n,
            r@.len() == i,
            forall|j: int| 0 <= j < i ==> r@[j] == v@[n - 1 - j],
        decreases n - i,
    {
        r.push(v[n - 1 - i]);
        i = i + 1;
    }
    proof {
        assert(r@ =~= v@.reverse());
    }
    r
}

/// Reading a reversed token vector from its end yields the tokens in their
/// original order: the token views of the reversed vector, reversed again,
/// are the original token views.
proof fn lemma_reverse_round_trip(orig: Seq<&str>, rev: Seq<&str>)
    requires
        rev == orig.reverse(),
    ensures
        toks_view(rev).reverse() == toks_view(orig),
{
    assert(toks_view(rev) =~= toks_view(orig).reverse());
    assert(toks_view(rev).reverse() =~= toks_view(orig));
}

/// An evaluator of formulas in Reverse Polish Notation. It holds only its
/// verbosity flag; evaluations share no other state.
pub struct RpnCalculator(bool);

impl RpnCalculator {
    /// Whether the evaluator was built verbose.
    pub closed spec fn is_verbose(&self) -> bool {
        self.0
    }

    /// Builds an evaluator; `verbose` asks for a trace beside each result.
    pub fn new(verbose: bool) -> (c: Self)
        ensures
            c.is_verbose() == verbose,
    {
        Self(verbose)
    }

    /// Evaluates one formula line. The result is a function of the line
    /// alone: neither the verbosity flag nor any earlier call can change it.
    pub fn eval(&self, formula: &str) -> (r: Result<i32, EvalError>)
        ensures
            r == spec_eval_line(formula@),
    {
        let tokens = tokenize_line(formula);
        let mut work = reverse_tokens(&tokens);
        proof {
            lemma_reverse_round_trip(tokens@, work@);
        }
        self.eval_inner(&mut work)
    }

    /// Evaluates a work list of tokens held in reverse order, popping from
    /// its end, so that the formula is read left to right. On success the
    /// list is fully consumed; on an error it keeps exactly the tokens after
    /// the failing one, always a prefix of what was handed in.
    pub fn eval_inner(&self, tokens: &mut Vec<&str>) -> (r: Result<i32, EvalError>)
        ensures
            r == machine_result(toks_view(old(tokens)@).reverse(), Seq::empty()),
            final(tokens)@ == old(tokens)@.take(final(tokens)@.len() as int),
            r is Ok ==> final(tokens)@.len() == 0,
            r is Err ==> final(tokens)@.len() == {
                let steps = machine_trace(
                    toks_view(old(tokens)@).reverse(),
                    Seq::empty(),
                    0,
                ).len();
                if steps == old(tokens)@.len() {
                    0int
                } else {
                    old(tokens)@.len() - steps - 1
                }
            },
    {
        let (r, trace) = run_tokens(tokens);
        proof {
            assert(trace_views(trace@).len() == trace@.len());
        }
        r
    }

    /// Evaluates one formula line and reports the trace beside the result.
    /// The result is the same as `eval`'s on the same line, whatever the
    /// verbosity; the trace is empty unless the evaluator is verbose.
    pub fn eval_with_trace(&self, formula: &str) -> (r: (
        Result<i32, EvalError>,
        Vec<TraceStep>,
    ))
        ensures
            r.0 == spec_eval_line(formula@),
            self.is_verbose() ==> trace_views(r.1@) == spec_eval_trace(formula@),
            !self.is_verbose() ==> r.1@.len() == 0,
    {
        let tokens = tokenize_line(formula);
        let mut work = reverse_tokens(&tokens);
        proof {
            lemma_reverse_round_trip(tokens@, work@);
        }
        let (r, trace) = run_tokens(&mut work);
        if self.0 {
            (r, trace)
        } else {
            (r, Vec::new())
        }
    }
}

} // verus!
