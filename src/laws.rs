use vstd::prelude::*;
use crate::convert::{
    Token, close_paren, emit_run, flush, push_operator, scan, tokenized,
};
use crate::ops::OPSymbol;
use crate::sanitize::{has_alpha, is_alpha, is_white_space, strip_white_space};

verus! {

/// Removing white space keeps exactly the alphabetic characters there were.
proof fn lemma_strip_keeps_alpha(s: Seq<char>)
    ensures
        has_alpha(strip_white_space(s)) == has_alpha(s),
    decreases s.len(),
{
    if s.len() > 0 {
        let p = s.drop_last();
        let c = s.last();
        lemma_strip_keeps_alpha(p);
        let sp = strip_white_space(p);
        if has_alpha(s) {
            let k = choose|k: int| 0 <= k < s.len() && is_alpha(#[trigger] s[k]);
            if k < s.len() - 1 {
                assert(p[k] == s[k]);
                let j = choose|j: int| 0 <= j < sp.len() && is_alpha(#[trigger] sp[j]);
                if !is_white_space(c) {
                    assert(sp.push(c)[j] == sp[j]);
                }
            } else {
                assert(!is_white_space(c));
                assert(strip_white_space(s)[sp.len() as int] == c);
            }
        }
        if has_alpha(strip_white_space(s)) {
            let j = choose|j: int|
                0 <= j < strip_white_space(s).len() && is_alpha(#[trigger] strip_white_space(s)[j]);
            if j < sp.len() {
                assert(strip_white_space(s)[j] == sp[j]);
                let k = choose|k: int| 0 <= k < p.len() && is_alpha(#[trigger] p[k]);
                assert(s[k] == p[k]);
            } else {
                assert(s[s.len() - 1] == c);
            }
        }
    }
}

/// White space does not matter: two expressions that are equal once their
/// white space is removed tokenize alike, to the same tokens or the same error.
pub proof fn lemma_white_space_insensitive(a: Seq<char>, b: Seq<char>)
    requires
        strip_white_space(a) == strip_white_space(b),
    ensures
        tokenized(a) == tokenized(b),
{
    lemma_strip_keeps_alpha(a);
    lemma_strip_keeps_alpha(b);
}

/// There is no hidden state: the outcome of tokenizing is determined by the
/// characters of the expression alone, so repeating a call repeats its result.
pub proof fn lemma_repeatable(a: Seq<char>, b: Seq<char>)
    requires
        a == b,
    ensures
        tokenized(a) == tokenized(b),
{
}

/// No parenthesis, opening or closing, among the tokens.
pub open spec fn no_paren(out: Seq<Token<Seq<char>>>) -> bool {
    forall|k: int|
        0 <= k < out.len() ==> #[trigger] out[k] != Token::<Seq<char>>::Operator(OPSymbol::LeftParen)
            && out[k] != Token::<Seq<char>>::Operator(OPSymbol::RightParen)
}

/// No `)` on the operator stack.
pub open spec fn no_close_paren(stack: Seq<OPSymbol>) -> bool {
    forall|k: int| 0 <= k < stack.len() ==> #[trigger] stack[k] != OPSymbol::RightParen
}

proof fn lemma_emit_top(out: Seq<Token<Seq<char>>>, stack: Seq<OPSymbol>)
    requires
        no_paren(out),
        no_close_paren(stack),
        stack.len() > 0,
        stack.last() != OPSymbol::LeftParen,
    ensures
        no_paren(out.push(Token::Operator(stack.last()))),
        no_close_paren(stack.drop_last()),
{
    let t = Token::<Seq<char>>::Operator(stack.last());
    assert forall|k: int| 0 <= k < out.push(t).len() implies #[trigger] out.push(t)[k]
        != Token::<Seq<char>>::Operator(OPSymbol::LeftParen) && out.push(t)[k]
        != Token::<Seq<char>>::Operator(OPSymbol::RightParen) by {
        if k < out.len() {
            assert(out.push(t)[k] == out[k]);
        }
    }
    assert forall|k: int| 0 <= k < stack.drop_last().len() implies #[trigger] stack.drop_last()[k]
        != OPSymbol::RightParen by {
        assert(stack.drop_last()[k] == stack[k]);
    }
}

proof fn lemma_push_operator_keeps(out: Seq<Token<Seq<char>>>, stack: Seq<OPSymbol>, op: OPSymbol)
    requires
        no_paren(out),
        no_close_paren(stack),
        op != OPSymbol::RightParen,
    ensures
        no_paren(push_operator(out, stack, op).0),
        no_close_paren(push_operator(out, stack, op).1),
    decreases stack.len(),
{
    if stack.len() > 0 && crate::ops::yields_to(stack.last(), op) {
        lemma_emit_top(out, stack);
        lemma_push_operator_keeps(out.push(Token::Operator(stack.last())), stack.drop_last(), op);
    } else {
        assert forall|k: int| 0 <= k < stack.push(op).len() implies #[trigger] stack.push(op)[k]
            != OPSymbol::RightParen by {
            if k < stack.len() {
                assert(stack.push(op)[k] == stack[k]);
            }
        }
    }
}

proof fn lemma_close_paren_keeps(out: Seq<Token<Seq<char>>>, stack: Seq<OPSymbol>)
    requires
        no_paren(out),
        no_close_paren(stack),
    ensures
        close_paren(out, stack) matches Ok(p) ==> no_paren(p.0) && no_close_paren(p.1),
    decreases stack.len(),
{
    if stack.len() > 0 {
        if stack.last() != OPSymbol::LeftParen {
            lemma_emit_top(out, stack);
            lemma_close_paren_keeps(out.push(Token::Operator(stack.last())), stack.drop_last());
        } else {
            assert forall|k: int| 0 <= k < stack.drop_last().len() implies #[trigger] stack.drop_last()[k]
                != OPSymbol::RightParen by {
                assert(stack.drop_last()[k] == stack[k]);
            }
        }
    }
}

proof fn lemma_flush_keeps(out: Seq<Token<Seq<char>>>, stack: Seq<OPSymbol>)
    requires
        no_paren(out),
        no_close_paren(stack),
    ensures
        flush(out, stack) matches Ok(t) ==> no_paren(t),
    decreases stack.len(),
{
    if stack.len() > 0 && stack.last() != OPSymbol::LeftParen {
        lemma_emit_top(out, stack);
        lemma_flush_keeps(out.push(Token::Operator(stack.last())), stack.drop_last());
    }
}

proof fn lemma_emit_run_keeps(out: Seq<Token<Seq<char>>>, s: Seq<char>, start: int, end: int)
    requires
        no_paren(out),
    ensures
        emit_run(out, s, start, end) matches Ok(o) ==> no_paren(o),
{
    if start < end {
        let t = Token::<Seq<char>>::Number(s.subrange(start, end));
        assert forall|k: int| 0 <= k < out.push(t).len() implies #[trigger] out.push(t)[k]
            != Token::<Seq<char>>::Operator(OPSymbol::LeftParen) && out.push(t)[k]
            != Token::<Seq<char>>::Operator(OPSymbol::RightParen) by {
            if k < out.len() {
                assert(out.push(t)[k] == out[k]);
            }
        }
    }
}

proof fn lemma_scan_keeps(s: Seq<char>, i: int)
    ensures
        scan(s, i) matches Ok(st) ==> no_paren(st.out) && no_close_paren(st.stack),
    decreases i,
{
    if i > 0 {
        lemma_scan_keeps(s, i - 1);
        if let Ok(st) = scan(s, i - 1) {
            lemma_emit_run_keeps(st.out, s, st.start, i - 1);
            if let Ok(out) = emit_run(st.out, s, st.start, i - 1) {
                lemma_close_paren_keeps(out, st.stack);
                if let Some(op) = crate::ops::symbol_of(s[i - 1]) {
                    if op == OPSymbol::LeftParen {
                        assert forall|k: int| 0 <= k < st.stack.push(op).len() implies
                            #[trigger] st.stack.push(op)[k] != OPSymbol::RightParen by {
                            if k < st.stack.len() {
                                assert(st.stack.push(op)[k] == st.stack[k]);
                            }
                        }
                    } else if op != OPSymbol::RightParen {
                        lemma_push_operator_keeps(out, st.stack, op);
                    }
                }
            }
        }
    }
}

/// Parentheses only group: a successful conversion to postfix order emits
/// no parenthesis, opening or closing.
pub proof fn lemma_postfix_has_no_paren(input: Seq<char>)
    ensures
        tokenized(input) matches Ok(t) ==> no_paren(t),
{
    if let Ok(s) = crate::sanitize::sanitized(input) {
        let n = s.len() as int;
        lemma_scan_keeps(s, n);
        if let Ok(st) = scan(s, n) {
            lemma_emit_run_keeps(st.out, s, st.start, n);
            if let Ok(out) = emit_run(st.out, s, st.start, n) {
                lemma_flush_keeps(out, st.stack);
            }
        }
    }
}

} // verus!
