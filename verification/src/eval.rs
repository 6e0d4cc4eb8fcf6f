//! Postfix evaluation over a value stack.
//!
//! The evaluator consumes a token sequence left to right: a number pushes
//! its value, an operator pops the right operand and then the left operand
//! and pushes the operation's result, and at the end exactly one value must
//! remain. Values are the 64-bit IEEE-754 bit patterns of doubles, and the
//! arithmetic itself is supplied from outside: the `Evaluation` machine
//! advances until it either needs an operation applied, finishes with the
//! final value, or fails, and the embedding program computes each requested
//! operation and hands the resulting bit pattern back.

use crate::token::OperatorKind;
use vstd::prelude::*;

verus! {

/// A token as the evaluator consumes it: an operator, or a number given by
/// the bit pattern of its double value.
#[derive(Clone, Copy, PartialEq, Eq, Structural, Debug)]
pub enum ValueToken {
    Operator(OperatorKind),
    Number(u64),
}

/// Why an evaluation failed.
#[derive(Clone, Copy, PartialEq, Eq, Structural, Debug)]
pub enum EvaluationError {
    /// An operator was reached with fewer than two values on the stack.
    StackUnderflow,
    /// After all tokens, the stack held `remaining_count` values instead of
    /// exactly one.
    MalformedExpression { remaining_count: usize },
}

/// The point an evaluation has reached.
pub enum Phase {
    /// An operator has popped its two operands (`lhs` deeper on the stack,
    /// `rhs` on top) and the evaluation waits for the operation's result;
    /// `pos` is the index of the next token and `stack` the values below
    /// the popped operands.
    NeedOp { pos: int, stack: Seq<u64>, op: OperatorKind, lhs: u64, rhs: u64 },
    /// All tokens were consumed and exactly one value remained.
    Done { value: u64 },
    /// The evaluation failed.
    Fail { error: EvaluationError },
}

/// Runs the evaluation from token `pos` with the given stack until it needs
/// an operation applied, finishes, or fails.
pub open spec fn scan_from(tokens: Seq<ValueToken>, pos: int, stack: Seq<u64>) -> Phase
    decreases tokens.len() - pos,
{
    if pos < 0 || pos >= tokens.len() {
        if stack.len() == 1 {
            Phase::Done { value: stack[0] }
        } else {
            Phase::Fail {
                error: EvaluationError::MalformedExpression {
                    remaining_count: stack.len() as usize,
                },
            }
        }
    } else {
        match tokens[pos] {
            ValueToken::Number(b) => scan_from(tokens, pos + 1, stack.push(b)),
            ValueToken::Operator(op) => {
                if stack.len() < 2 {
                    Phase::Fail { error: EvaluationError::StackUnderflow }
                } else {
                    Phase::NeedOp {
                        pos: pos + 1,
                        stack: stack.take(stack.len() - 2),
                        op,
                        lhs: stack[stack.len() - 2],
                        rhs: stack[stack.len() - 1],
                    }
                }
            },
        }
    }
}

/// The phase an evaluation of `tokens` reaches after the operation results
/// in `applied` have been supplied, in order, to the operations it
/// requested. The phase of a whole evaluation is a function of the token
/// sequence and the supplied results alone: evaluation keeps no other
/// state, so re-running the same tokens with the same arithmetic reaches
/// the same phase.
pub open spec fn replay(tokens: Seq<ValueToken>, applied: Seq<u64>) -> Phase
    decreases applied.len(),
{
    if applied.len() == 0 {
        scan_from(tokens, 0, Seq::empty())
    } else {
        match replay(tokens, applied.drop_last()) {
            Phase::NeedOp { pos, stack, .. } => scan_from(tokens, pos, stack.push(applied.last())),
            p => p,
        }
    }
}

/// What `advance` reports: the next operation to apply, the final value, or
/// a failure.
#[derive(Clone, Copy, PartialEq, Eq, Structural, Debug)]
pub enum Directive {
    /// Apply `op` to `lhs` (the value pushed earlier) and `rhs` (the value
    /// pushed later) and supply the result.
    NeedOp { op: OperatorKind, lhs: u64, rhs: u64 },
    /// Evaluation finished with this value.
    Done { value: u64 },
    /// Evaluation failed.
    Fail { error: EvaluationError },
}

/// The directive that reports a phase.
pub open spec fn phase_directive(p: Phase) -> Directive {
    match p {
        Phase::NeedOp { op, lhs, rhs, .. } => Directive::NeedOp { op, lhs, rhs },
        Phase::Done { value } => Directive::Done { value },
        Phase::Fail { error } => Directive::Fail { error },
    }
}

/// Two pushed numbers followed by one operator request exactly that
/// operation, with the first number as the left operand and the second as
/// the right, and the evaluation finishes with whatever result the
/// arithmetic supplies: for addition the result of `a b +` is the supplied
/// sum of `a` and `b`, and likewise for subtraction, multiplication and
/// division (whose IEEE-754 result for a zero divisor is an infinity or
/// NaN, a value like any other here).
pub proof fn lemma_single_operation(a: u64, b: u64, op: OperatorKind, v: u64)
    ensures
        replay(
            seq![ValueToken::Number(a), ValueToken::Number(b), ValueToken::Operator(op)],
            Seq::empty(),
        ) == (Phase::NeedOp { pos: 3, stack: Seq::<u64>::empty(), op, lhs: a, rhs: b }),
        replay(
            seq![ValueToken::Number(a), ValueToken::Number(b), ValueToken::Operator(op)],
            seq![v],
        ) == (Phase::Done { value: v }),
{
    let tokens = seq![ValueToken::Number(a), ValueToken::Number(b), ValueToken::Operator(op)];
    let st2 = Seq::<u64>::empty().push(a).push(b);
    assert(scan_from(tokens, 0, Seq::empty()) == scan_from(tokens, 1, Seq::<u64>::empty().push(a)));
    assert(scan_from(tokens, 1, Seq::<u64>::empty().push(a)) == scan_from(tokens, 2, st2));
    assert(st2.take(st2.len() - 2) =~= Seq::<u64>::empty());
    assert(scan_from(tokens, 2, st2) == (Phase::NeedOp {
        pos: 3,
        stack: Seq::<u64>::empty(),
        op,
        lhs: a,
        rhs: b,
    }));
    let applied = seq![v];
    assert(applied.drop_last() =~= Seq::<u64>::empty());
    assert(replay(tokens, applied) == scan_from(tokens, 3, Seq::<u64>::empty().push(v)));
}

/// A single number is a valid minimal expression: it evaluates to itself
/// with no operation requested.
pub proof fn lemma_single_value(a: u64)
    ensures
        replay(seq![ValueToken::Number(a)], Seq::empty()) == (Phase::Done { value: a }),
{
    let tokens = seq![ValueToken::Number(a)];
    assert(replay(tokens, Seq::empty()) == scan_from(tokens, 1, Seq::<u64>::empty().push(a)));
}

/// An operator with no operands at all fails with a stack underflow.
pub proof fn lemma_operator_alone_underflows(op: OperatorKind)
    ensures
        replay(seq![ValueToken::Operator(op)], Seq::empty()) == (Phase::Fail {
            error: EvaluationError::StackUnderflow,
        }),
{
}

/// Two numbers with no operator to combine them leave two values on the
/// stack and fail as a malformed expression.
pub proof fn lemma_two_values_malformed(a: u64, b: u64)
    ensures
        replay(seq![ValueToken::Number(a), ValueToken::Number(b)], Seq::empty()) == (Phase::Fail {
            error: EvaluationError::MalformedExpression { remaining_count: 2 },
        }),
{
    let tokens = seq![ValueToken::Number(a), ValueToken::Number(b)];
    assert(scan_from(tokens, 0, Seq::empty()) == scan_from(tokens, 1, Seq::<u64>::empty().push(a)));
    assert(scan_from(tokens, 1, Seq::<u64>::empty().push(a)) == scan_from(
        tokens,
        2,
        Seq::<u64>::empty().push(a).push(b),
    ));
}

/// Evaluation is free of hidden state: the phase reached, and so the
/// directive reported, is a function of the token sequence and the
/// supplied operation results alone, so evaluating the same tokens again
/// with the same arithmetic yields the same outcome.
pub proof fn lemma_evaluation_deterministic(
    tokens1: Seq<ValueToken>,
    applied1: Seq<u64>,
    tokens2: Seq<ValueToken>,
    applied2: Seq<u64>,
)
    requires
        tokens1 == tokens2,
        applied1 == applied2,
    ensures
        replay(tokens1, applied1) == replay(tokens2, applied2),
        phase_directive(replay(tokens1, applied1)) == phase_directive(replay(tokens2, applied2)),
{
}

/// One evaluation of a token sequence.
///
/// The embedding program drives it in a loop: `advance` runs to the next
/// requested operation (or to the end), and after each `NeedOp` directive
/// the program computes the operation on the two operands and passes the
/// result to `supply`. A fresh machine is built per token sequence; nothing
/// is carried over between evaluations.
pub struct Evaluation {
    tokens: Vec<ValueToken>,
    pos: usize,
    stack: Vec<u64>,
    pending: bool,
    applied: Ghost<Seq<u64>>,
}

impl Evaluation {
    /// The token sequence under evaluation.
    pub closed spec fn tokens_view(self) -> Seq<ValueToken> {
        self.tokens@
    }

    /// The operation results supplied so far.
    pub closed spec fn applied_view(self) -> Seq<u64> {
        self.applied@
    }

    /// The machine waits for an operation result.
    pub closed spec fn is_pending(self) -> bool {
        self.pending
    }

    /// The machine's state describes exactly the phase that `tokens` and
    /// `applied` replay to.
    pub closed spec fn wf(self) -> bool {
        &&& self.pos <= self.tokens@.len()
        &&& if self.pending {
            match replay(self.tokens@, self.applied@) {
                Phase::NeedOp { pos, stack, .. } => pos == self.pos && stack == self.stack@,
                _ => false,
            }
        } else {
            scan_from(self.tokens@, self.pos as int, self.stack@) == replay(
                self.tokens@,
                self.applied@,
            )
        }
    }

    /// Starts an evaluation of `tokens` with an empty stack.
    pub fn new(tokens: Vec<ValueToken>) -> (m: Evaluation)
        ensures
            m.wf(),
            m.tokens_view() == tokens@,
            m.applied_view() == Seq::<u64>::empty(),
            !m.is_pending(),
    {
        Evaluation { tokens, pos: 0, stack: Vec::new(), pending: false, applied: Ghost(Seq::empty()) }
    }

    /// Runs to the next point of interest and reports it: the phase reached
    /// is the replay of the tokens with the results supplied so far, and
    /// the directive returned describes exactly that phase.
    pub fn advance(&mut self) -> (d: Directive)
        requires
            old(self).wf(),
            !old(self).is_pending(),
        ensures
            final(self).wf(),
            final(self).tokens_view() == old(self).tokens_view(),
            final(self).applied_view() == old(self).applied_view(),
            d == phase_directive(replay(old(self).tokens_view(), old(self).applied_view())),
            final(self).is_pending() == (d matches Directive::NeedOp { .. }),
    {
        loop
            invariant
                self.pos <= self.tokens@.len(),
                !self.pending,
                self.tokens@ == old(self).tokens@,
                self.applied@ == old(self).applied@,
                scan_from(self.tokens@, self.pos as int, self.stack@) == replay(
                    self.tokens@,
                    self.applied@,
                ),
            decreases self.tokens@.len() - self.pos,
        {
            if self.pos == self.tokens.len() {
                if self.stack.len() == 1 {
                    return Directive::Done { value: self.stack[0] };
                } else {
                    return Directive::Fail {
                        error: EvaluationError::MalformedExpression {
                            remaining_count: self.stack.len(),
                        },
                    };
                }
            }
            let t = self.tokens[self.pos];
            match t {
                ValueToken::Number(b) => {
                    self.stack.push(b);
                    self.pos = self.pos + 1;
                },
                ValueToken::Operator(op) => {
                    if self.stack.len() < 2 {
                        return Directive::Fail { error: EvaluationError::StackUnderflow };
                    }
                    let ghost st = self.stack@;
                    let rhs = match self.stack.pop() {
                        Some(v) => v,
                        None => unreached(),
                    };
                    let lhs = match self.stack.pop() {
                        Some(v) => v,
                        None => unreached(),
                    };
                    proof {
                        assert(self.stack@ =~= st.take(st.len() - 2));
                    }
                    self.pos = self.pos + 1;
                    self.pending = true;
                    return Directive::NeedOp { op, lhs, rhs };
                },
            }
        }
    }

    /// Hands the machine the result of the operation it requested.
    pub fn supply(&mut self, value: u64)
        requires
            old(self).wf(),
            old(self).is_pending(),
        ensures
            final(self).wf(),
            final(self).tokens_view() == old(self).tokens_view(),
            final(self).applied_view() == old(self).applied_view().push(value),
            !final(self).is_pending(),
    {
        self.stack.push(value);
        self.pending = false;
        proof {
            let a = self.applied@.push(value);
            assert(a.drop_last() =~= self.applied@);
        }
        self.applied = Ghost(self.applied@.push(value));
    }
}

} // verus!
