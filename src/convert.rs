use vstd::prelude::*;
use crate::error::EvaluationError;
use crate::ops::{OPSymbol, symbol_of, yields_to};
use crate::sanitize::{is_digit, digit, sanitize, sanitized};

verus! {

/// One item of a postfix sequence: a number, or an operator.
#[derive(Debug, Clone, Copy)]
pub enum Token<T> {
    Number(T),
    Operator(OPSymbol),
}

/// A token whose number is the text of a numeric literal.
pub open spec fn token_view(t: Token<Vec<char>>) -> Token<Seq<char>> {
    match t {
        Token::Number(v) => Token::Number(v@),
        Token::Operator(op) => Token::Operator(op),
    }
}

pub open spec fn tokens_view(v: Seq<Token<Vec<char>>>) -> Seq<Token<Seq<char>>> {
    v.map_values(|t: Token<Vec<char>>| token_view(t))
}

/// A run of digits with at most one `.` and at least one digit.
pub open spec fn is_unsigned_literal(b: Seq<char>) -> bool {
    &&& forall|k: int| 0 <= k < b.len() ==> is_digit(#[trigger] b[k]) || b[k] == '.'
    &&& exists|k: int| 0 <= k < b.len() && is_digit(#[trigger] b[k])
    &&& forall|j: int, k: int|
        #![trigger b[j], b[k]]
        0 <= j < k < b.len() && b[j] == '.' ==> b[k] != '.'
}

/// A decimal literal with an optional leading `-`: the shape that a standard
/// floating-point parser accepts among strings of digits, `.` and `-`.
pub open spec fn is_literal(t: Seq<char>) -> bool {
    if t.len() > 0 && t[0] == '-' {
        is_unsigned_literal(t.drop_first())
    } else {
        is_unsigned_literal(t)
    }
}

/// Whether the character at `i` belongs to a number run: a digit or `.`, or a
/// `-` that opens the input or follows a character other than a digit.
pub open spec fn absorbed(s: Seq<char>, i: int) -> bool {
    is_digit(s[i]) || s[i] == '.' || (s[i] == '-' && (i == 0 || !is_digit(s[i - 1])))
}

/// The converter's state between characters: the tokens emitted so far, the
/// operator stack (top last), and where the pending number run starts.
pub struct ScanState {
    pub out: Seq<Token<Seq<char>>>,
    pub stack: Seq<OPSymbol>,
    pub start: int,
}

/// Emits operators from the stack while they yield to `op`, then pushes `op`.
pub open spec fn push_operator(out: Seq<Token<Seq<char>>>, stack: Seq<OPSymbol>, op: OPSymbol) -> (
    Seq<Token<Seq<char>>>,
    Seq<OPSymbol>,
)
    decreases stack.len(),
{
    if stack.len() > 0 && yields_to(stack.last(), op) {
        push_operator(out.push(Token::Operator(stack.last())), stack.drop_last(), op)
    } else {
        (out, stack.push(op))
    }
}

/// Emits operators from the stack up to the nearest `(`, which is dropped;
/// a stack without `(` means the `)` has no partner.
pub open spec fn close_paren(out: Seq<Token<Seq<char>>>, stack: Seq<OPSymbol>) -> Result<
    (Seq<Token<Seq<char>>>, Seq<OPSymbol>),
    EvaluationError,
>
    decreases stack.len(),
{
    if stack.len() == 0 {
        Err(EvaluationError::MismatchedParens)
    } else if stack.last() == OPSymbol::LeftParen {
        Ok((out, stack.drop_last()))
    } else {
        close_paren(out.push(Token::Operator(stack.last())), stack.drop_last())
    }
}

/// Emits the whole stack, top first; an open `(` left on it is an error.
pub open spec fn flush(out: Seq<Token<Seq<char>>>, stack: Seq<OPSymbol>) -> Result<
    Seq<Token<Seq<char>>>,
    EvaluationError,
>
    decreases stack.len(),
{
    if stack.len() == 0 {
        Ok(out)
    } else if stack.last() == OPSymbol::LeftParen {
        Err(EvaluationError::UnclosedParen)
    } else {
        flush(out.push(Token::Operator(stack.last())), stack.drop_last())
    }
}

/// Emits the number run `s[start..end]`, if it is not empty.
pub open spec fn emit_run(out: Seq<Token<Seq<char>>>, s: Seq<char>, start: int, end: int) -> Result<
    Seq<Token<Seq<char>>>,
    EvaluationError,
> {
    if start < end {
        if is_literal(s.subrange(start, end)) {
            Ok(out.push(Token::Number(s.subrange(start, end))))
        } else {
            Err(EvaluationError::MalformedNumber)
        }
    } else {
        Ok(out)
    }
}

/// The converter's step on the operator character at `i`.
pub open spec fn operator_step(st: ScanState, s: Seq<char>, i: int) -> Result<
    ScanState,
    EvaluationError,
> {
    match emit_run(st.out, s, st.start, i) {
        Err(e) => Err(e),
        Ok(out) => match symbol_of(s[i]) {
            None => Err(EvaluationError::InvalidSymbol),
            Some(op) => if op == OPSymbol::LeftParen {
                Ok(ScanState { out, stack: st.stack.push(op), start: i + 1 })
            } else if op == OPSymbol::RightParen {
                match close_paren(out, st.stack) {
                    Err(e) => Err(e),
                    Ok(p) => Ok(ScanState { out: p.0, stack: p.1, start: i + 1 }),
                }
            } else {
                let p = push_operator(out, st.stack, op);
                Ok(ScanState { out: p.0, stack: p.1, start: i + 1 })
            },
        },
    }
}

/// The converter's state after the first `i` characters of `s`.
pub open spec fn scan(s: Seq<char>, i: int) -> Result<ScanState, EvaluationError>
    decreases i,
{
    if i <= 0 {
        Ok(ScanState { out: Seq::empty(), stack: Seq::empty(), start: 0 })
    } else {
        match scan(s, i - 1) {
            Err(e) => Err(e),
            Ok(st) => if absorbed(s, i - 1) {
                Ok(st)
            } else {
                operator_step(st, s, i - 1)
            },
        }
    }
}

/// The postfix form of a sanitized expression, or the error that the
/// conversion ends in.
pub open spec fn postfix(s: Seq<char>) -> Result<Seq<Token<Seq<char>>>, EvaluationError> {
    match scan(s, s.len() as int) {
        Err(e) => Err(e),
        Ok(st) => match emit_run(st.out, s, st.start, s.len() as int) {
            Err(e) => Err(e),
            Ok(out) => match flush(out, st.stack) {
                Err(e) => Err(e),
                Ok(toks) => if toks.len() % 2 == 1 {
                    Ok(toks)
                } else {
                    Err(EvaluationError::InvalidExpression)
                },
            },
        },
    }
}

proof fn lemma_view_push(v: Seq<Token<Vec<char>>>, t: Token<Vec<char>>)
    ensures
        tokens_view(v.push(t)) == tokens_view(v).push(token_view(t)),
{
    assert(tokens_view(v.push(t)) =~= tokens_view(v).push(token_view(t)));
}

/// The characters `s[start..end]`.
fn slice(s: &Vec<char>, start: usize, end: usize) -> (r: Vec<char>)
    requires
        start <= end <= s.len(),
    ensures
        r@ == s@.subrange(start as int, end as int),
{
    let mut r: Vec<char> = Vec::new();
    let mut k: usize = start;
    while k < end
        invariant
            start <= k <= end <= s.len(),
            r@ == s@.subrange(start as int, k as int),
        decreases end - k,
    {
        r.push(s[k]);
        k = k + 1;
        assert(r@ =~= s@.subrange(start as int, k as int));
    }
    r
}

/// Whether `s[start..end]` is a well-formed numeric literal.
pub fn is_literal_run(s: &Vec<char>, start: usize, end: usize) -> (r: bool)
    requires
        start < end <= s.len(),
    ensures
        r == is_literal(s@.subrange(start as int, end as int)),
{
    let ghost t = s@.subrange(start as int, end as int);
    let k0: usize = if s[start] == '-' {
        start + 1
    } else {
        start
    };
    let ghost b = s@.subrange(k0 as int, end as int);
    assert(is_literal(t) == is_unsigned_literal(b)) by {
        if s[start as int] == '-' {
            assert(t.drop_first() =~= b);
        } else {
            assert(t =~= b);
        }
    }
    let mut k: usize = k0;
    let mut seen_digit = false;
    let mut dot_at: Option<usize> = None;
    while k < end
        invariant
            k0 <= k <= end <= s.len(),
            b == s@.subrange(k0 as int, end as int),
            is_literal(s@.subrange(start as int, end as int)) == is_unsigned_literal(b),
            forall|m: int| k0 <= m < k ==> is_digit(#[trigger] s@[m]) || s@[m] == '.',
            seen_digit <==> exists|m: int| k0 <= m < k && is_digit(#[trigger] s@[m]),
            dot_at matches None ==> forall|m: int| k0 <= m < k ==> #[trigger] s@[m] != '.',
            dot_at matches Some(d) ==> k0 <= d < k && s@[d as int] == '.' && forall|m: int|
                k0 <= m < k && m != d ==> #[trigger] s@[m] != '.',
        decreases end - k,
    {
        let c = s[k];
        if digit(c) {
            seen_digit = true;
        } else if c == '.' {
            match dot_at {
                Some(d) => {
                    assert(b[d - k0] == s@[d as int] && b[k - k0] == s@[k as int]);
                    assert(b[d - k0] == '.' && b[k - k0] == '.');
                    return false;
                },
                None => {
                    dot_at = Some(k);
                },
            }
        } else {
            assert(b[k - k0] == s@[k as int]);
            assert(!(is_digit(b[k - k0]) || b[k - k0] == '.'));
            return false;
        }
        k = k + 1;
    }
    if !seen_digit {
        assert forall|m: int| 0 <= m < b.len() implies !is_digit(#[trigger] b[m]) by {
            assert(b[m] == s@[k0 + m]);
        }
        return false;
    }
    assert forall|m: int| 0 <= m < b.len() implies is_digit(#[trigger] b[m]) || b[m] == '.' by {
        assert(b[m] == s@[k0 + m]);
    }
    let ghost w = choose|m: int| k0 <= m < k && is_digit(#[trigger] s@[m]);
    assert(is_digit(b[w - k0]));
    assert forall|j: int, m: int| #![trigger b[j], b[m]] 0 <= j < m < b.len() && b[j] == '.' implies b[m] != '.' by {
        assert(b[j] == s@[k0 + j]);
        assert(b[m] == s@[k0 + m]);
    }
    true
}

/// Emits the number run `s[start..end]` onto `out`, if it is not empty.
fn emit_run_exec(out: &mut Vec<Token<Vec<char>>>, s: &Vec<char>, start: usize, end: usize) -> (r:
    Result<(), EvaluationError>)
    requires
        start <= end <= s.len(),
    ensures
        r matches Ok(_) ==> emit_run(tokens_view(old(out)@), s@, start as int, end as int) == Ok::<
            Seq<Token<Seq<char>>>,
            EvaluationError,
        >(tokens_view(final(out)@)),
        r matches Err(e) ==> emit_run(tokens_view(old(out)@), s@, start as int, end as int) == Err::<
            Seq<Token<Seq<char>>>,
            EvaluationError,
        >(e),
{
    if start < end {
        if is_literal_run(s, start, end) {
            let lit = slice(s, start, end);
            proof {
                lemma_view_push(out@, Token::Number(lit));
            }
            out.push(Token::Number(lit));
            Ok(())
        } else {
            Err(EvaluationError::MalformedNumber)
        }
    } else {
        Ok(())
    }
}

/// Emits operators from `stack` while they yield to `op`, then pushes `op`.
fn push_operator_exec(out: &mut Vec<Token<Vec<char>>>, stack: &mut Vec<OPSymbol>, op: OPSymbol)
    ensures
        (tokens_view(final(out)@), final(stack)@) == push_operator(
            tokens_view(old(out)@),
            old(stack)@,
            op,
        ),
{
    while stack.len() > 0 && stack[stack.len() - 1].yields_to(op)
        invariant
            push_operator(tokens_view(out@), stack@, op) == push_operator(
                tokens_view(old(out)@),
                old(stack)@,
                op,
            ),
        decreases stack.len(),
    {
        let top = stack.pop().unwrap();
        proof {
            lemma_view_push(out@, Token::Operator(top));
        }
        out.push(Token::Operator(top));
    }
    stack.push(op);
}

/// Emits operators from `stack` up to the nearest `(`, which is dropped.
fn close_paren_exec(out: &mut Vec<Token<Vec<char>>>, stack: &mut Vec<OPSymbol>) -> (r: Result<
    (),
    EvaluationError,
>)
    ensures
        r matches Ok(_) ==> close_paren(tokens_view(old(out)@), old(stack)@) == Ok::<
            (Seq<Token<Seq<char>>>, Seq<OPSymbol>),
            EvaluationError,
        >((tokens_view(final(out)@), final(stack)@)),
        r matches Err(e) ==> close_paren(tokens_view(old(out)@), old(stack)@) == Err::<
            (Seq<Token<Seq<char>>>, Seq<OPSymbol>),
            EvaluationError,
        >(e),
{
    loop
        invariant
            close_paren(tokens_view(out@), stack@) == close_paren(
                tokens_view(old(out)@),
                old(stack)@,
            ),
        decreases stack.len(),
    {
        match stack.pop() {
            None => {
                return Err(EvaluationError::MismatchedParens);
            },
            Some(top) => {
                if top == OPSymbol::LeftParen {
                    return Ok(());
                }
                proof {
                    lemma_view_push(out@, Token::Operator(top));
                }
                out.push(Token::Operator(top));
            },
        }
    }
}

/// Emits the whole of `stack`, top first; an open `(` on it is an error.
fn flush_exec(out: &mut Vec<Token<Vec<char>>>, stack: &mut Vec<OPSymbol>) -> (r: Result<
    (),
    EvaluationError,
>)
    ensures
        r matches Ok(_) ==> flush(tokens_view(old(out)@), old(stack)@) == Ok::<
            Seq<Token<Seq<char>>>,
            EvaluationError,
        >(tokens_view(final(out)@)),
        r matches Err(e) ==> flush(tokens_view(old(out)@), old(stack)@) == Err::<
            Seq<Token<Seq<char>>>,
            EvaluationError,
        >(e),
{
    loop
        invariant
            flush(tokens_view(out@), stack@) == flush(tokens_view(old(out)@), old(stack)@),
        decreases stack.len(),
    {
        match stack.pop() {
            None => {
                return Ok(());
            },
            Some(top) => {
                if top == OPSymbol::LeftParen {
                    return Err(EvaluationError::UnclosedParen);
                }
                proof {
                    lemma_view_push(out@, Token::Operator(top));
                }
                out.push(Token::Operator(top));
            },
        }
    }
}

/// Once the scan has failed, it fails with the same error on every longer prefix.
proof fn lemma_scan_error_persists(s: Seq<char>, i: int, j: int)
    requires
        0 <= i <= j,
        scan(s, i) is Err,
    ensures
        scan(s, j) == scan(s, i),
    decreases j - i,
{
    if i < j {
        lemma_scan_error_persists(s, i, j - 1);
    }
}

/// The converter's step on the operator character at `i`, with the pending
/// number run starting at `start`.
fn operator_step_exec(
    out: &mut Vec<Token<Vec<char>>>,
    stack: &mut Vec<OPSymbol>,
    s: &Vec<char>,
    start: usize,
    i: usize,
) -> (r: Result<(), EvaluationError>)
    requires
        start <= i < s.len(),
    ensures
        r matches Ok(_) ==> operator_step(
            ScanState { out: tokens_view(old(out)@), stack: old(stack)@, start: start as int },
            s@,
            i as int,
        ) == Ok::<ScanState, EvaluationError>(
            ScanState { out: tokens_view(final(out)@), stack: final(stack)@, start: i + 1 },
        ),
        r matches Err(e) ==> operator_step(
            ScanState { out: tokens_view(old(out)@), stack: old(stack)@, start: start as int },
            s@,
            i as int,
        ) == Err::<ScanState, EvaluationError>(e),
{
    if let Err(e) = emit_run_exec(out, s, start, i) {
        return Err(e);
    }
    match OPSymbol::value(s[i]) {
        None => Err(EvaluationError::InvalidSymbol),
        Some(op) => {
            if op == OPSymbol::LeftParen {
                stack.push(op);
                Ok(())
            } else if op == OPSymbol::RightParen {
                close_paren_exec(out, stack)
            } else {
                push_operator_exec(out, stack, op);
                Ok(())
            }
        },
    }
}

/// Converts a sanitized infix expression to postfix order with the
/// shunting-yard algorithm.
pub fn to_postfix(s: &Vec<char>) -> (r: Result<Vec<Token<Vec<char>>>, EvaluationError>)
    ensures
        r matches Ok(v) ==> postfix(s@) == Ok::<Seq<Token<Seq<char>>>, EvaluationError>(
            tokens_view(v@),
        ),
        r matches Err(e) ==> postfix(s@) == Err::<Seq<Token<Seq<char>>>, EvaluationError>(e),
{
    let n = s.len();
    let mut out: Vec<Token<Vec<char>>> = Vec::new();
    let mut stack: Vec<OPSymbol> = Vec::new();
    let mut start: usize = 0;
    let mut i: usize = 0;
    assert(tokens_view(out@) =~= Seq::empty());
    while i < n
        invariant
            n == s.len(),
            start <= i <= n,
            scan(s@, i as int) == Ok::<ScanState, EvaluationError>(
                ScanState { out: tokens_view(out@), stack: stack@, start: start as int },
            ),
        decreases n - i,
    {
        let c = s[i];
        let absorbed_here = digit(c) || c == '.' || (c == '-' && (i == 0 || !digit(s[i - 1])));
        if !absorbed_here {
            let stepped = operator_step_exec(&mut out, &mut stack, s, start, i);
            if let Err(e) = stepped {
                proof {
                    lemma_scan_error_persists(s@, i as int + 1, n as int);
                }
                return Err(e);
            }
            start = i + 1;
        }
        i = i + 1;
    }
    assert(s@.len() == n);
    if let Err(e) = emit_run_exec(&mut out, s, start, n) {
        return Err(e);
    }
    if let Err(e) = flush_exec(&mut out, &mut stack) {
        return Err(e);
    }
    if out.len() % 2 == 1 {
        Ok(out)
    } else {
        Err(EvaluationError::InvalidExpression)
    }
}

/// What tokenizing a raw expression gives: the sanitizer's error, or the
/// postfix conversion of its output.
pub open spec fn tokenized(input: Seq<char>) -> Result<Seq<Token<Seq<char>>>, EvaluationError> {
    match sanitized(input) {
        Err(e) => Err(e),
        Ok(s) => postfix(s),
    }
}

/// Sanitizes a raw expression and converts it to postfix order.
pub fn tokenize(input: &str) -> (r: Result<Vec<Token<Vec<char>>>, EvaluationError>)
    ensures
        r matches Ok(v) ==> tokenized(input@) == Ok::<Seq<Token<Seq<char>>>, EvaluationError>(
            tokens_view(v@),
        ),
        r matches Err(e) ==> tokenized(input@) == Err::<Seq<Token<Seq<char>>>, EvaluationError>(e),
{
    match sanitize(input) {
        Err(e) => Err(e),
        Ok(s) => to_postfix(&s),
    }
}

} // verus!
