//! Errors of the three taxa the interpreter reports: syntax, compile and
//! runtime errors, each carrying a message and possibly the token it was
//! found at.

use vstd::prelude::*;

use crate::token::Token;

verus! {

/// The decimal digit character for one digit value.
pub open spec fn digit_char(d: int) -> char {
    if d == 0 {
        '0'
    } else if d == 1 {
        '1'
    } else if d == 2 {
        '2'
    } else if d == 3 {
        '3'
    } else if d == 4 {
        '4'
    } else if d == 5 {
        '5'
    } else if d == 6 {
        '6'
    } else if d == 7 {
        '7'
    } else if d == 8 {
        '8'
    } else {
        '9'
    }
}

/// The decimal rendering of a non-negative integer.
pub open spec fn decimal_chars(n: int) -> Seq<char>
    decreases n,
{
    if n < 10 {
        seq![digit_char(n)]
    } else {
        decimal_chars(n / 10).push(digit_char(n % 10))
    }
}

/// The one-character string for a digit value.
fn digit_str(d: usize) -> (s: &'static str)
    requires
        d < 10,
    ensures
        s@ == seq![digit_char(d as int)],
{
    proof {
        reveal_strlit("0");
        reveal_strlit("1");
        reveal_strlit("2");
        reveal_strlit("3");
        reveal_strlit("4");
        reveal_strlit("5");
        reveal_strlit("6");
        reveal_strlit("7");
        reveal_strlit("8");
        reveal_strlit("9");
    }
    let s = match d {
        0 => "0",
        1 => "1",
        2 => "2",
        3 => "3",
        4 => "4",
        5 => "5",
        6 => "6",
        7 => "7",
        8 => "8",
        _ => "9",
    };
    proof {
        assert(s@ =~= seq![digit_char(d as int)]);
    }
    s
}

/// Renders a non-negative integer in decimal.
pub fn format_usize(n: usize) -> (s: String)
    ensures
        s@ == decimal_chars(n as int),
    decreases n,
{
    if n < 10 {
        digit_str(n).to_owned()
    } else {
        let mut s = format_usize(n / 10);
        s.append(digit_str(n % 10));
        proof {
            assert(decimal_chars(n as int / 10).push(digit_char(n as int % 10)) =~= decimal_chars(
                n as int / 10,
            ) + seq![digit_char(n as int % 10)]);
        }
        s
    }
}

/// An error: its message, and the token it was reported at, where one was.
#[derive(Debug)]
pub struct Error {
    pub token: Option<Token>,
    pub message: String,
}

impl Error {
    /// An error at a token.
    pub fn new(token: Token, message: &str) -> (e: Self)
        ensures
            e.token == Some(token),
            e.message@ == message@,
    {
        Error { token: Some(token), message: message.to_owned() }
    }

    /// An error with a message alone.
    pub fn message(message: &str) -> (e: Self)
        ensures
            e.token is None,
            e.message@ == message@,
    {
        Error { token: None, message: message.to_owned() }
    }

    /// An error with an already-built message.
    pub fn from_string(message: String) -> (e: Self)
        ensures
            e.token is None,
            e.message == message,
    {
        Error { token: None, message }
    }
}

/// The three taxa of errors, mirrored in the interpreter's result.
#[derive(Debug)]
pub enum InterpreterError {
    CompilerError(Error),
    SyntaxError(Error),
    RuntimeError(Error),
}

/// The result of a pipeline stage: a value, or the error that stopped it.
pub type InterpreterResult<T> = Result<T, InterpreterError>;

} // verus!
