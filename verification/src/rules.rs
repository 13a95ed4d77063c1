//! The parse-rule table of the precedence-driven emitter: for each token
//! kind, its prefix handler, its infix handler, and its precedence level.

use vstd::prelude::*;

use crate::token::TokenType;

verus! {

/// Precedence levels, from none up to primary expressions. Each level binds
/// tighter than the one before it.
#[allow(non_camel_case_types)]
#[derive(Debug, Copy, Clone, PartialEq, Eq, Structural)]
pub enum Precedence {
    NONE,
    ASSIGNMENT,
    OR,
    AND,
    EQ,
    COMP,
    TERM,
    FACTOR,
    UNARY,
    CALL,
    PRIMARY,
}

/// The closed set of parse handlers the emitter dispatches on.
#[derive(Debug, Copy, Clone, PartialEq, Eq, Structural)]
pub enum ParseFn {
    Binary,
    Unary,
    Number,
    Grouping,
    Literal,
    Str,
    Variable,
}

/// The numeric rank of a precedence level.
pub open spec fn prec_value(p: Precedence) -> u8 {
    match p {
        Precedence::NONE => 0,
        Precedence::ASSIGNMENT => 1,
        Precedence::OR => 2,
        Precedence::AND => 3,
        Precedence::EQ => 4,
        Precedence::COMP => 5,
        Precedence::TERM => 6,
        Precedence::FACTOR => 7,
        Precedence::UNARY => 8,
        Precedence::CALL => 9,
        Precedence::PRIMARY => 10,
    }
}

/// The precedence level of a numeric rank, where one exists.
pub open spec fn prec_of_value(v: u8) -> Option<Precedence> {
    if v == 0 {
        Some(Precedence::NONE)
    } else if v == 1 {
        Some(Precedence::ASSIGNMENT)
    } else if v == 2 {
        Some(Precedence::OR)
    } else if v == 3 {
        Some(Precedence::AND)
    } else if v == 4 {
        Some(Precedence::EQ)
    } else if v == 5 {
        Some(Precedence::COMP)
    } else if v == 6 {
        Some(Precedence::TERM)
    } else if v == 7 {
        Some(Precedence::FACTOR)
    } else if v == 8 {
        Some(Precedence::UNARY)
    } else if v == 9 {
        Some(Precedence::CALL)
    } else if v == 10 {
        Some(Precedence::PRIMARY)
    } else {
        None
    }
}

/// The numeric rank of a precedence level.
pub fn prec_byte(p: Precedence) -> (v: u8)
    ensures
        v == prec_value(p),
{
    match p {
        Precedence::NONE => 0,
        Precedence::ASSIGNMENT => 1,
        Precedence::OR => 2,
        Precedence::AND => 3,
        Precedence::EQ => 4,
        Precedence::COMP => 5,
        Precedence::TERM => 6,
        Precedence::FACTOR => 7,
        Precedence::UNARY => 8,
        Precedence::CALL => 9,
        Precedence::PRIMARY => 10,
    }
}

/// One row of the rule table.
#[derive(Debug, Copy, Clone)]
pub struct ParseRule {
    pub prefix: Option<ParseFn>,
    pub infix: Option<ParseFn>,
    pub precedence: Precedence,
}

impl ParseRule {
    /// A rule row.
    pub fn new(prefix: Option<ParseFn>, infix: Option<ParseFn>, precedence: Precedence) -> (r:
        Self)
        ensures
            r.prefix == prefix,
            r.infix == infix,
            r.precedence == precedence,
    {
        ParseRule { prefix, infix, precedence }
    }

    /// The precedence `add` ranks above this rule's own, or `None` past the
    /// highest level. One above a left-associative operator's level is the
    /// right-binding threshold the emitter parses its right operand at.
    pub fn get_incremented_prec(&self, add: u8) -> (r: Option<Precedence>)
        requires
            prec_value(self.precedence) + add <= u8::MAX,
        ensures
            r == prec_of_value((prec_value(self.precedence) + add) as u8),
    {
        let v = prec_byte(self.precedence) + add;
        if v == 0 {
            Some(Precedence::NONE)
        } else if v == 1 {
            Some(Precedence::ASSIGNMENT)
        } else if v == 2 {
            Some(Precedence::OR)
        } else if v == 3 {
            Some(Precedence::AND)
        } else if v == 4 {
            Some(Precedence::EQ)
        } else if v == 5 {
            Some(Precedence::COMP)
        } else if v == 6 {
            Some(Precedence::TERM)
        } else if v == 7 {
            Some(Precedence::FACTOR)
        } else if v == 8 {
            Some(Precedence::UNARY)
        } else if v == 9 {
            Some(Precedence::CALL)
        } else if v == 10 {
            Some(Precedence::PRIMARY)
        } else {
            None
        }
    }
}

/// The rule for each token kind: which handler parses it as a prefix, which
/// as an infix, and at what precedence it binds as an infix.
pub open spec fn rule_spec(op: TokenType) -> ParseRule {
    match op {
        TokenType::LEFT_PAREN => ParseRule {
            prefix: Some(ParseFn::Grouping),
            infix: None,
            precedence: Precedence::NONE,
        },
        TokenType::MINUS => ParseRule {
            prefix: Some(ParseFn::Unary),
            infix: Some(ParseFn::Binary),
            precedence: Precedence::TERM,
        },
        TokenType::PLUS => ParseRule {
            prefix: None,
            infix: Some(ParseFn::Binary),
            precedence: Precedence::TERM,
        },
        TokenType::SLASH => ParseRule {
            prefix: None,
            infix: Some(ParseFn::Binary),
            precedence: Precedence::FACTOR,
        },
        TokenType::STAR => ParseRule {
            prefix: None,
            infix: Some(ParseFn::Binary),
            precedence: Precedence::FACTOR,
        },
        TokenType::BANG => ParseRule {
            prefix: Some(ParseFn::Unary),
            infix: None,
            precedence: Precedence::NONE,
        },
        TokenType::BANG_EQUAL => ParseRule {
            prefix: None,
            infix: Some(ParseFn::Binary),
            precedence: Precedence::EQ,
        },
        TokenType::EQUAL_EQUAL => ParseRule {
            prefix: None,
            infix: Some(ParseFn::Binary),
            precedence: Precedence::EQ,
        },
        TokenType::GREATER => ParseRule {
            prefix: None,
            infix: Some(ParseFn::Binary),
            precedence: Precedence::COMP,
        },
        TokenType::GREATER_EQUAL => ParseRule {
            prefix: None,
            infix: Some(ParseFn::Binary),
            precedence: Precedence::COMP,
        },
        TokenType::LESS => ParseRule {
            prefix: None,
            infix: Some(ParseFn::Binary),
            precedence: Precedence::COMP,
        },
        TokenType::LESS_EQUAL => ParseRule {
            prefix: None,
            infix: Some(ParseFn::Binary),
            precedence: Precedence::COMP,
        },
        TokenType::IDENTIFIER => ParseRule {
            prefix: Some(ParseFn::Variable),
            infix: None,
            precedence: Precedence::NONE,
        },
        TokenType::STRING => ParseRule {
            prefix: Some(ParseFn::Str),
            infix: None,
            precedence: Precedence::NONE,
        },
        TokenType::NUMBER => ParseRule {
            prefix: Some(ParseFn::Number),
            infix: None,
            precedence: Precedence::NONE,
        },
        TokenType::FALSE => ParseRule {
            prefix: Some(ParseFn::Literal),
            infix: None,
            precedence: Precedence::NONE,
        },
        TokenType::NIL => ParseRule {
            prefix: Some(ParseFn::Literal),
            infix: None,
            precedence: Precedence::NONE,
        },
        TokenType::TRUE => ParseRule {
            prefix: Some(ParseFn::Literal),
            infix: None,
            precedence: Precedence::NONE,
        },
        _ => ParseRule { prefix: None, infix: None, precedence: Precedence::NONE },
    }
}

/// Looks a token kind's rule up.
pub fn get_rule(op: &TokenType) -> (r: ParseRule)
    ensures
        r == rule_spec(*op),
{
    match *op {
        TokenType::LEFT_PAREN => ParseRule::new(Some(ParseFn::Grouping), None, Precedence::NONE),
        TokenType::MINUS => ParseRule::new(
            Some(ParseFn::Unary),
            Some(ParseFn::Binary),
            Precedence::TERM,
        ),
        TokenType::PLUS => ParseRule::new(None, Some(ParseFn::Binary), Precedence::TERM),
        TokenType::SLASH => ParseRule::new(None, Some(ParseFn::Binary), Precedence::FACTOR),
        TokenType::STAR => ParseRule::new(None, Some(ParseFn::Binary), Precedence::FACTOR),
        TokenType::BANG => ParseRule::new(Some(ParseFn::Unary), None, Precedence::NONE),
        TokenType::BANG_EQUAL => ParseRule::new(None, Some(ParseFn::Binary), Precedence::EQ),
        TokenType::EQUAL_EQUAL => ParseRule::new(None, Some(ParseFn::Binary), Precedence::EQ),
        TokenType::GREATER => ParseRule::new(None, Some(ParseFn::Binary), Precedence::COMP),
        TokenType::GREATER_EQUAL => ParseRule::new(None, Some(ParseFn::Binary), Precedence::COMP),
        TokenType::LESS => ParseRule::new(None, Some(ParseFn::Binary), Precedence::COMP),
        TokenType::LESS_EQUAL => ParseRule::new(None, Some(ParseFn::Binary), Precedence::COMP),
        TokenType::IDENTIFIER => ParseRule::new(Some(ParseFn::Variable), None, Precedence::NONE),
        TokenType::STRING => ParseRule::new(Some(ParseFn::Str), None, Precedence::NONE),
        TokenType::NUMBER => ParseRule::new(Some(ParseFn::Number), None, Precedence::NONE),
        TokenType::FALSE => ParseRule::new(Some(ParseFn::Literal), None, Precedence::NONE),
        TokenType::NIL => ParseRule::new(Some(ParseFn::Literal), None, Precedence::NONE),
        TokenType::TRUE => ParseRule::new(Some(ParseFn::Literal), None, Precedence::NONE),
        _ => ParseRule::new(None, None, Precedence::NONE),
    }
}

} // verus!
