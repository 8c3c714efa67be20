use vstd::prelude::*;
use crate::convert::Token;
use crate::error::EvaluationError;
use crate::ops::{OPSymbol, is_binary};

verus! {

/// An expression tree: a number, or a binary operator applied to two trees.
#[derive(Debug)]
pub enum Expr<T> {
    Num(T),
    Apply(OPSymbol, Box<Expr<T>>, Box<Expr<T>>),
}

/// The postfix tokens of a tree: the left operand's, the right operand's,
/// then the operator.
pub open spec fn spell<T>(e: Expr<T>) -> Seq<Token<T>>
    decreases e,
{
    match e {
        Expr::Num(x) => seq![Token::Number(x)],
        Expr::Apply(op, a, b) => spell(*a) + spell(*b) + seq![Token::Operator(op)],
    }
}

/// Every operator in the tree takes two operands.
pub open spec fn binary_only<T>(e: Expr<T>) -> bool
    decreases e,
{
    match e {
        Expr::Num(_) => true,
        Expr::Apply(op, a, b) => is_binary(op) && binary_only(*a) && binary_only(*b),
    }
}

/// The postfix tokens of a list of trees, one after the other.
pub open spec fn spell_all<T>(es: Seq<Expr<T>>) -> Seq<Token<T>>
    decreases es.len(),
{
    if es.len() == 0 {
        Seq::empty()
    } else {
        spell_all(es.drop_last()) + spell(es.last())
    }
}

/// The operand stack's step on one token: a number is pushed; an operator
/// replaces the two topmost trees by their application, and fails without
/// two operands or when it is no binary operator.
pub open spec fn stack_step<T>(st: Seq<Expr<T>>, t: Token<T>) -> (Seq<Expr<T>>, Option<EvaluationError>) {
    match t {
        Token::Number(x) => (st.push(Expr::Num(x)), None),
        Token::Operator(op) => if st.len() < 2 || !is_binary(op) {
            (st, Some(EvaluationError::SyntaxError))
        } else {
            (
                st.subrange(0, st.len() - 2).push(
                    Expr::Apply(op, Box::new(st[st.len() - 2]), Box::new(st[st.len() - 1])),
                ),
                None,
            )
        },
    }
}

/// The operand stack after the first `i` tokens, and the failure met on the
/// way, if any (the stack is then the one the failure was met with).
pub open spec fn run_stack<T>(toks: Seq<Token<T>>, i: int) -> (Seq<Expr<T>>, Option<EvaluationError>)
    decreases i,
{
    if i <= 0 {
        (Seq::empty(), None)
    } else {
        let prev = run_stack(toks, i - 1);
        if prev.1 is Some {
            prev
        } else {
            stack_step(prev.0, toks[i - 1])
        }
    }
}

/// The reduction of a postfix sequence: the trees built, and why it did not
/// end in exactly one tree, if it did not.
pub open spec fn reduction<T>(toks: Seq<Token<T>>) -> (Seq<Expr<T>>, Option<EvaluationError>) {
    if toks.len() == 0 {
        (Seq::empty(), Some(EvaluationError::EmptyExpression))
    } else {
        let r = run_stack(toks, toks.len() as int);
        if r.1 is None && r.0.len() != 1 {
            (r.0, Some(EvaluationError::SyntaxError))
        } else {
            r
        }
    }
}

/// The outcome of reducing a postfix sequence.
///
/// `trees` are the trees on the operand stack, oldest first, when the
/// reduction stopped; their operators, taken tree by tree in postfix order,
/// are the operators of the sequence in the order they are applied. When
/// `failure` is `None` there is exactly one tree, and its value is the value
/// of the sequence; otherwise the value of the sequence is the first error
/// met while evaluating the trees, or else `failure`.
#[derive(Debug)]
pub struct Reduction<T> {
    pub trees: Vec<Expr<T>>,
    pub failure: Option<EvaluationError>,
}

/// Once the operand stack has failed, it stays failed with the same stack.
proof fn lemma_failure_persists<T>(toks: Seq<Token<T>>, i: int, j: int)
    requires
        0 <= i <= j,
        run_stack(toks, i).1 is Some,
    ensures
        run_stack(toks, j) == run_stack(toks, i),
    decreases j - i,
{
    if i < j {
        lemma_failure_persists(toks, i, j - 1);
    }
}

/// Reduces a postfix sequence with an operand stack, building a tree for
/// each operator applied.
pub fn reduce_postfix<T: Copy>(tokens: &Vec<Token<T>>) -> (r: Reduction<T>)
    ensures
        (r.trees@, r.failure) == reduction(tokens@),
        r.failure is None ==> r.trees@.len() == 1 && spell(r.trees@[0]) == tokens@ && binary_only(
            r.trees@[0],
        ),
{
    let n = tokens.len();
    if n == 0 {
        return Reduction { trees: Vec::new(), failure: Some(EvaluationError::EmptyExpression) };
    }
    let mut stack: Vec<Expr<T>> = Vec::new();
    let mut i: usize = 0;
    assert(tokens@.take(0) =~= spell_all(stack@));
    while i < n
        invariant
            n == tokens@.len(),
            i <= n,
            run_stack(tokens@, i as int) == (stack@, None::<EvaluationError>),
            spell_all(stack@) == tokens@.take(i as int),
            forall|k: int| 0 <= k < stack@.len() ==> binary_only(#[trigger] stack@[k]),
        decreases n - i,
    {
        let ghost before = stack@;
        let t = tokens[i];
        assert(tokens@.take(i + 1) == tokens@.take(i as int).push(t)) by {
            assert(tokens@.take(i + 1) =~= tokens@.take(i as int).push(t));
        }
        match t {
            Token::Number(x) => {
                stack.push(Expr::Num(x));
                assert(stack@.drop_last() =~= before);
                assert(spell(Expr::Num(x)) =~= seq![Token::Number(x)]);
            },
            Token::Operator(op) => {
                let binary = !(op == OPSymbol::LeftParen || op == OPSymbol::RightParen);
                if stack.len() < 2 || !binary {
                    proof {
                        lemma_failure_persists(tokens@, i + 1, n as int);
                    }
                    return Reduction { trees: stack, failure: Some(EvaluationError::SyntaxError) };
                }
                let b = stack.pop().unwrap();
                let a = stack.pop().unwrap();
                let ghost rest = stack@;
                assert(before.drop_last() =~= rest.push(a));
                assert(rest.push(a).drop_last() =~= rest);
                assert(before.subrange(0, before.len() - 2) =~= rest);
                let e = Expr::Apply(op, Box::new(a), Box::new(b));
                stack.push(e);
                assert(stack@.drop_last() =~= rest);
                assert(before.last() == b);
                assert(rest.push(a).last() == a);
                assert(spell_all(rest.push(a)) == spell_all(rest) + spell(a));
                assert(spell_all(before) == spell_all(rest.push(a)) + spell(b));
                assert(spell_all(before) =~= spell_all(rest) + spell(a) + spell(b));
                assert(spell_all(stack@) =~= spell_all(rest) + spell(a) + spell(b) + seq![
                    Token::Operator(op),
                ]);
                assert(binary_only(a) && binary_only(b)) by {
                    assert(a == before[before.len() - 2]);
                    assert(b == before[before.len() - 1]);
                }
                assert forall|k: int| 0 <= k < stack@.len() implies binary_only(
                    #[trigger] stack@[k],
                ) by {
                    if k < stack@.len() - 1 {
                        assert(stack@[k] == before[k]);
                    }
                }
            },
        }
        i = i + 1;
    }
    assert(tokens@.take(n as int) =~= tokens@);
    if stack.len() != 1 {
        return Reduction { trees: stack, failure: Some(EvaluationError::SyntaxError) };
    }
    assert(spell_all(stack@) =~= spell_all(stack@.drop_last()) + spell(stack@[0]));
    assert(stack@.drop_last() =~= Seq::<Expr<T>>::empty());
    assert(spell_all(stack@) =~= spell(stack@[0]));
    Reduction { trees: stack, failure: None }
}

} // verus!
