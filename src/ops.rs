use vstd::prelude::*;

verus! {

/// How operators of equal precedence group.
#[derive(Debug, Clone, Copy, PartialEq, Eq, Structural)]
pub enum OpAssocation {
    LEFT,
    RIGHT,
}

/// The operator characters of the expression language.
#[derive(Debug, Clone, Copy, PartialEq, Eq, Structural)]
pub enum OPSymbol {
    ADD,
    SUB,
    MUL,
    DIV,
    EXP,
    LeftParen,
    RightParen,
}

/// The operator a character stands for, if any.
pub open spec fn symbol_of(c: char) -> Option<OPSymbol> {
    if c == '+' {
        Some(OPSymbol::ADD)
    } else if c == '-' {
        Some(OPSymbol::SUB)
    } else if c == '*' {
        Some(OPSymbol::MUL)
    } else if c == '/' {
        Some(OPSymbol::DIV)
    } else if c == '^' {
        Some(OPSymbol::EXP)
    } else if c == '(' {
        Some(OPSymbol::LeftParen)
    } else if c == ')' {
        Some(OPSymbol::RightParen)
    } else {
        None
    }
}

/// Binding strength: higher binds tighter.
pub open spec fn precedence(op: OPSymbol) -> u8 {
    match op {
        OPSymbol::ADD | OPSymbol::SUB => 2,
        OPSymbol::MUL | OPSymbol::DIV => 3,
        OPSymbol::EXP => 4,
        OPSymbol::LeftParen | OPSymbol::RightParen => 0,
    }
}

/// Exponentiation and the parentheses group to the right, the rest to the left.
pub open spec fn association(op: OPSymbol) -> OpAssocation {
    match op {
        OPSymbol::ADD | OPSymbol::SUB | OPSymbol::MUL | OPSymbol::DIV => OpAssocation::LEFT,
        OPSymbol::EXP | OPSymbol::LeftParen | OPSymbol::RightParen => OpAssocation::RIGHT,
    }
}

/// The four arithmetic operators and exponentiation, which take two operands.
pub open spec fn is_binary(op: OPSymbol) -> bool {
    !(op is LeftParen || op is RightParen)
}

/// Whether an operator `top` on the operator stack leaves it before
/// `incoming` is pushed.
pub open spec fn yields_to(top: OPSymbol, incoming: OPSymbol) -> bool {
    top != OPSymbol::LeftParen && (precedence(top) > precedence(incoming) || (precedence(top)
        == precedence(incoming) && association(incoming) == OpAssocation::LEFT))
}

impl OPSymbol {
    /// The operator that `c` stands for, or `None` when it is no operator.
    pub fn value(c: char) -> (r: Option<OPSymbol>)
        ensures
            r == symbol_of(c),
    {
        match c {
            '+' => Some(OPSymbol::ADD),
            '-' => Some(OPSymbol::SUB),
            '*' => Some(OPSymbol::MUL),
            '/' => Some(OPSymbol::DIV),
            '^' => Some(OPSymbol::EXP),
            '(' => Some(OPSymbol::LeftParen),
            ')' => Some(OPSymbol::RightParen),
            _ => None,
        }
    }

    pub fn get_precedence(self) -> (r: u8)
        ensures
            r == precedence(self),
    {
        match self {
            OPSymbol::ADD | OPSymbol::SUB => 2,
            OPSymbol::MUL | OPSymbol::DIV => 3,
            OPSymbol::EXP => 4,
            OPSymbol::LeftParen | OPSymbol::RightParen => 0,
        }
    }

    pub fn get_association(self) -> (r: OpAssocation)
        ensures
            r == association(self),
    {
        match self {
            OPSymbol::ADD | OPSymbol::SUB | OPSymbol::MUL | OPSymbol::DIV => OpAssocation::LEFT,
            OPSymbol::EXP | OPSymbol::LeftParen | OPSymbol::RightParen => OpAssocation::RIGHT,
        }
    }

    /// Whether this operator, on top of the operator stack, is emitted
    /// before `incoming` is pushed.
    pub fn yields_to(self, incoming: OPSymbol) -> (r: bool)
        ensures
            r == yields_to(self, incoming),
    {
        self != OPSymbol::LeftParen && (self.get_precedence() > incoming.get_precedence() || (
        self.get_precedence() == incoming.get_precedence() && incoming.get_association()
            == OpAssocation::LEFT))
    }
}

} // verus!
