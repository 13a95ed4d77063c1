//! Tokens of the source language.
//!
//! A token carries its kind, a copy of the source slice it was read from,
//! and the line it started on. The kinds cover grouping and punctuation,
//! the one- and two-character operators, the three literal forms, the
//! sixteen reserved words, and the synthetic `ERROR` and `EOF` kinds.

use vstd::prelude::*;

verus! {

/// The kind of a token.
#[allow(non_camel_case_types)]
#[derive(Debug, Copy, Clone, PartialEq, Eq, Structural)]
pub enum TokenType {
    LEFT_PAREN,
    RIGHT_PAREN,
    LEFT_BRACE,
    RIGHT_BRACE,
    COMMA,
    DOT,
    MINUS,
    PLUS,
    SEMICOLON,
    SLASH,
    STAR,
    BANG,
    BANG_EQUAL,
    EQUAL,
    EQUAL_EQUAL,
    GREATER,
    GREATER_EQUAL,
    LESS,
    LESS_EQUAL,
    IDENTIFIER,
    STRING,
    NUMBER,
    AND,
    CLASS,
    ELSE,
    FALSE,
    FUN,
    FOR,
    IF,
    NIL,
    OR,
    PRINT,
    RETURN,
    SUPER,
    THIS,
    TRUE,
    VAR,
    WHILE,
    ERROR,
    EOF,
}

/// The reserved word that `s` spells, or `IDENTIFIER` where it spells none.
pub open spec fn keyword_type(s: Seq<char>) -> TokenType {
    if s == "and"@ {
        TokenType::AND
    } else if s == "class"@ {
        TokenType::CLASS
    } else if s == "else"@ {
        TokenType::ELSE
    } else if s == "false"@ {
        TokenType::FALSE
    } else if s == "for"@ {
        TokenType::FOR
    } else if s == "fun"@ {
        TokenType::FUN
    } else if s == "if"@ {
        TokenType::IF
    } else if s == "nil"@ {
        TokenType::NIL
    } else if s == "or"@ {
        TokenType::OR
    } else if s == "print"@ {
        TokenType::PRINT
    } else if s == "return"@ {
        TokenType::RETURN
    } else if s == "super"@ {
        TokenType::SUPER
    } else if s == "this"@ {
        TokenType::THIS
    } else if s == "true"@ {
        TokenType::TRUE
    } else if s == "var"@ {
        TokenType::VAR
    } else if s == "while"@ {
        TokenType::WHILE
    } else {
        TokenType::IDENTIFIER
    }
}

/// One token: its kind, a copy of the source slice it covers (for an `ERROR`
/// token, a message instead), and the line it was read on.
#[derive(Debug)]
pub struct Token {
    pub token_type: TokenType,
    pub lexem: String,
    pub line: usize,
}

impl Clone for Token {
    fn clone(&self) -> (r: Self)
        ensures
            r == *self,
    {
        Token { token_type: self.token_type, lexem: self.lexem.clone(), line: self.line }
    }
}

impl Token {
    /// A token of the given kind, text and line.
    pub fn new(token_type: TokenType, lexem: String, line: usize) -> (t: Self)
        ensures
            t.token_type == token_type,
            t.lexem == lexem,
            t.line == line,
    {
        Token { token_type, lexem, line }
    }

    /// The synthetic end-of-input token.
    pub fn eof(line: usize) -> (t: Self)
        ensures
            t.token_type == TokenType::EOF,
            t.lexem@ == Seq::<char>::empty(),
            t.line == line,
    {
        Token { token_type: TokenType::EOF, lexem: String::new(), line }
    }

    /// A synthetic error token carrying the scanner's message and the line
    /// it was found on.
    pub fn error(message: &str, line: usize) -> (t: Self)
        ensures
            t.token_type == TokenType::ERROR,
            t.lexem@ == message@,
            t.line == line,
    {
        Token { token_type: TokenType::ERROR, lexem: message.to_owned(), line }
    }
}

} // verus!
