use calculator::{
    reduce_postfix, sanitize, to_postfix, tokenize, EvaluationError, Expr, OPSymbol, OpAssocation,
    Token,
};

fn literal_value(text: &[char]) -> Result<f64, EvaluationError> {
    text.iter().collect::<String>().parse::<f64>().map_err(|_| EvaluationError::MalformedNumber)
}

fn fold(e: &Expr<f64>) -> Result<f64, EvaluationError> {
    match e {
        Expr::Num(x) => Ok(*x),
        Expr::Apply(op, a, b) => {
            let x = fold(a)?;
            let y = fold(b)?;
            match op {
                OPSymbol::ADD => Ok(x + y),
                OPSymbol::SUB => Ok(x - y),
                OPSymbol::MUL => Ok(x * y),
                OPSymbol::DIV => {
                    if y == 0.0 {
                        Err(EvaluationError::DivisionByZero)
                    } else {
                        Ok(x / y)
                    }
                }
                OPSymbol::EXP => Ok(x.powf(y)),
                _ => Err(EvaluationError::SyntaxError),
            }
        }
    }
}

fn evaluate(input: &str) -> Result<f64, EvaluationError> {
    let tokens = tokenize(input)?;
    let mut numeric: Vec<Token<f64>> = Vec::new();
    for t in tokens {
        numeric.push(match t {
            Token::Number(text) => Token::Number(literal_value(&text)?),
            Token::Operator(op) => Token::Operator(op),
        });
    }
    let reduced = reduce_postfix(&numeric);
    let mut last = 0.0;
    for tree in &reduced.trees {
        last = fold(tree)?;
    }
    match reduced.failure {
        Some(e) => Err(e),
        None => Ok(last),
    }
}

fn spelled(input: &str) -> Result<Vec<String>, EvaluationError> {
    let tokens = tokenize(input)?;
    Ok(tokens
        .iter()
        .map(|t| match t {
            Token::Number(text) => text.iter().collect::<String>(),
            Token::Operator(op) => match op {
                OPSymbol::ADD => "+".to_string(),
                OPSymbol::SUB => "-".to_string(),
                OPSymbol::MUL => "*".to_string(),
                OPSymbol::DIV => "/".to_string(),
                OPSymbol::EXP => "^".to_string(),
                OPSymbol::LeftParen => "(".to_string(),
                OPSymbol::RightParen => ")".to_string(),
            },
        })
        .collect())
}

#[test]
fn evaluates_simple_sums_and_precedence() {
    assert_eq!(evaluate("2+2"), Ok(4.0));
    assert_eq!(evaluate("2*(1+3)^2"), Ok(32.0));
    assert_eq!(evaluate("10/2-3"), Ok(2.0));
    assert_eq!(evaluate("2^3^2"), Ok(512.0));
}

#[test]
fn unary_minus_is_folded_into_literals() {
    assert_eq!(evaluate("-5+3"), Ok(-2.0));
    assert_eq!(evaluate("3*-2"), Ok(-6.0));
    assert_eq!(evaluate("2--3"), Ok(5.0));
    assert_eq!(evaluate("(2-3)"), Ok(-1.0));
    assert_eq!(spelled("3*-2"), Ok(vec!["3".to_string(), "-2".to_string(), "*".to_string()]));
}

#[test]
fn division_by_zero_fails() {
    assert_eq!(evaluate("5/0"), Err(EvaluationError::DivisionByZero));
    assert_eq!(evaluate("5/(1-1)"), Err(EvaluationError::DivisionByZero));
    assert_eq!(evaluate("0^0"), Ok(1.0));
}

#[test]
fn mismatched_parens_fail() {
    assert_eq!(tokenize("(2+3").err(), Some(EvaluationError::UnclosedParen));
    assert_eq!(tokenize("2+3)").err(), Some(EvaluationError::MismatchedParens));
    assert_eq!(evaluate("(2+3"), Err(EvaluationError::UnclosedParen));
    assert_eq!(evaluate("2+3)"), Err(EvaluationError::MismatchedParens));
}

#[test]
fn equal_precedence_groups_to_the_left() {
    assert_eq!(evaluate("8-2-1"), Ok(5.0));
    assert_eq!(evaluate("8/4/2"), Ok(1.0));
    assert_eq!(evaluate("(8-2)*1-1"), Ok(5.0));
}

#[test]
fn minus_after_close_paren_is_a_sign() {
    assert_eq!(evaluate("(8-2)-1"), Err(EvaluationError::InvalidExpression));
    assert_eq!(evaluate("(8-2)+-1"), Ok(5.0));
}

#[test]
fn close_paren_without_open_paren_fails() {
    assert_eq!(tokenize(")").err(), Some(EvaluationError::MismatchedParens));
    assert_eq!(tokenize("2)").err(), Some(EvaluationError::MismatchedParens));
    assert_eq!(tokenize("1)2").err(), Some(EvaluationError::MismatchedParens));
    assert_eq!(tokenize("(1))+2").err(), Some(EvaluationError::MismatchedParens));
    assert_eq!(evaluate("2)"), Err(EvaluationError::MismatchedParens));
}

#[test]
fn invalid_characters_fail() {
    assert_eq!(evaluate("2+x"), Err(EvaluationError::InvalidInput));
    assert_eq!(evaluate("2+@"), Err(EvaluationError::InvalidSymbol));
    assert_eq!(sanitize("2 + X").err(), Some(EvaluationError::InvalidInput));
}

#[test]
fn white_space_does_not_matter() {
    assert_eq!(evaluate("2 + 2"), evaluate("2+2"));
    assert_eq!(spelled("\t2 +\n 2 "), spelled("2+2"));
    assert_eq!(sanitize(" 1 *\t( 2 ) ").unwrap(), vec!['1', '*', '(', '2', ')']);
}

#[test]
fn repeated_calls_agree() {
    let first = evaluate("1+2*3-4/5");
    let second = evaluate("1+2*3-4/5");
    assert_eq!(first, second);
    assert_eq!(spelled("7^2-1"), spelled("7^2-1"));
}

#[test]
fn shunting_yard_orders_by_precedence_and_associativity() {
    let s = |v: &[&str]| Ok(v.iter().map(|x| x.to_string()).collect::<Vec<String>>());
    assert_eq!(spelled("2*(1+3)^2"), s(&["2", "1", "3", "+", "2", "^", "*"]));
    assert_eq!(spelled("2^3^2"), s(&["2", "3", "2", "^", "^"]));
    assert_eq!(spelled("1-2-3"), s(&["1", "2", "-", "3", "-"]));
    assert_eq!(spelled("1+2*3"), s(&["1", "2", "3", "*", "+"]));
    assert_eq!(spelled("1.5/.5"), s(&["1.5", ".5", "/"]));
}

#[test]
fn malformed_numbers_fail() {
    assert_eq!(tokenize("1.2.3+1").err(), Some(EvaluationError::MalformedNumber));
    assert_eq!(tokenize("--5").err(), Some(EvaluationError::MalformedNumber));
    assert_eq!(tokenize(".+1").err(), Some(EvaluationError::MalformedNumber));
    assert_eq!(evaluate("5.+1"), Ok(6.0));
}

#[test]
fn even_token_counts_are_invalid() {
    assert_eq!(tokenize("2+").err(), Some(EvaluationError::InvalidExpression));
    assert_eq!(tokenize("()").err(), Some(EvaluationError::InvalidExpression));
    assert_eq!(tokenize("").err(), Some(EvaluationError::InvalidExpression));
}

#[test]
fn reduction_reports_structural_errors() {
    let empty: Vec<Token<u32>> = Vec::new();
    assert_eq!(reduce_postfix(&empty).failure, Some(EvaluationError::EmptyExpression));
    assert_eq!(evaluate("(2)(3)(4)"), Err(EvaluationError::SyntaxError));
    let leading = vec![Token::Operator(OPSymbol::ADD), Token::Number(1u32), Token::Number(2u32)];
    let r = reduce_postfix(&leading);
    assert_eq!(r.failure, Some(EvaluationError::SyntaxError));
    assert!(r.trees.is_empty());
}

#[test]
fn reduction_builds_one_tree_per_operator() {
    let toks = vec![
        Token::Number(1u32),
        Token::Number(2u32),
        Token::Number(3u32),
        Token::Operator(OPSymbol::MUL),
        Token::Operator(OPSymbol::ADD),
    ];
    let r = reduce_postfix(&toks);
    assert_eq!(r.failure, None);
    assert_eq!(r.trees.len(), 1);
    match &r.trees[0] {
        Expr::Apply(OPSymbol::ADD, a, b) => {
            assert!(matches!(**a, Expr::Num(1)));
            assert!(matches!(**b, Expr::Apply(OPSymbol::MUL, _, _)));
        }
        _ => panic!("expected an addition at the root"),
    }
}

#[test]
fn errors_come_in_evaluation_order() {
    assert_eq!(evaluate("(5/0)(3)(4)"), Err(EvaluationError::DivisionByZero));
    let toks = vec![
        Token::Number(4u32),
        Token::Number(2u32),
        Token::Operator(OPSymbol::DIV),
        Token::Operator(OPSymbol::ADD),
    ];
    let r = reduce_postfix(&toks);
    assert_eq!(r.failure, Some(EvaluationError::SyntaxError));
    assert_eq!(r.trees.len(), 1);
}

#[test]
fn operator_table() {
    assert_eq!(OPSymbol::value('+'), Some(OPSymbol::ADD));
    assert_eq!(OPSymbol::value('^'), Some(OPSymbol::EXP));
    assert_eq!(OPSymbol::value(')'), Some(OPSymbol::RightParen));
    assert_eq!(OPSymbol::value('@'), None);
    assert_eq!(OPSymbol::ADD.get_precedence(), 2);
    assert_eq!(OPSymbol::DIV.get_precedence(), 3);
    assert_eq!(OPSymbol::EXP.get_precedence(), 4);
    assert_eq!(OPSymbol::LeftParen.get_precedence(), 0);
    assert_eq!(OPSymbol::SUB.get_association(), OpAssocation::LEFT);
    assert_eq!(OPSymbol::EXP.get_association(), OpAssocation::RIGHT);
    assert!(OPSymbol::MUL.yields_to(OPSymbol::ADD));
    assert!(!OPSymbol::EXP.yields_to(OPSymbol::EXP));
    assert!(!OPSymbol::LeftParen.yields_to(OPSymbol::ADD));
}

#[test]
fn to_postfix_takes_sanitized_characters() {
    let chars: Vec<char> = "1+2".chars().collect();
    let out = to_postfix(&chars).unwrap();
    assert_eq!(out.len(), 3);
    assert!(matches!(out[2], Token::Operator(OPSymbol::ADD)));
    assert!(!EvaluationError::DivisionByZero.message().is_empty());
}
