//! The scanner: turns the source text into a stream of tokens, one call at a
//! time.
//!
//! Every call consumes at least one character or returns the `EOF` token,
//! and the line number grows by exactly the number of newlines passed.
//! Reserved words are told apart from identifiers by a small trie on their
//! first one or two characters.

use vstd::prelude::*;

use crate::source::{
    count_newlines, lemma_count_newlines_split, lemma_line_total, next_boundary, SourceController,
};
use crate::token::{keyword_type, Token, TokenType};

verus! {

/// An ASCII decimal digit.
pub open spec fn is_digit(c: char) -> bool {
    '0' <= c && c <= '9'
}

/// An ASCII letter or the underscore: the characters an identifier may start
/// with.
pub open spec fn is_alpha(c: char) -> bool {
    ('a' <= c && c <= 'z') || ('A' <= c && c <= 'Z') || c == '_'
}

/// A character an identifier may continue with.
pub open spec fn is_ident_char(c: char) -> bool {
    is_alpha(c) || is_digit(c)
}

/// The position after the run of identifier characters starting at `i`.
pub open spec fn ident_end(s: Seq<char>, i: int) -> int
    decreases s.len() - i,
{
    if 0 <= i < s.len() && is_ident_char(s[i]) {
        ident_end(s, i + 1)
    } else {
        i
    }
}

/// The position after the run of digits starting at `i`.
pub open spec fn digits_end(s: Seq<char>, i: int) -> int
    decreases s.len() - i,
{
    if 0 <= i < s.len() && is_digit(s[i]) {
        digits_end(s, i + 1)
    } else {
        i
    }
}

/// The position after a number literal's remaining characters: more digits,
/// then a dot followed by at least one digit; a trailing dot is left alone.
pub open spec fn number_end(s: Seq<char>, i: int) -> int {
    let d = digits_end(s, i);
    if d + 1 < s.len() && s[d] == '.' && is_digit(s[d + 1]) {
        digits_end(s, d + 2)
    } else {
        d
    }
}

/// The position after the closing quote of a string literal whose body
/// starts at `i`, or the end of the text where no quote closes it.
pub open spec fn string_end(s: Seq<char>, i: int) -> int
    decreases s.len() - i,
{
    if !(0 <= i < s.len()) {
        s.len() as int
    } else if s[i] == '"' {
        i + 1
    } else {
        string_end(s, i + 1)
    }
}

/// Whether a closing quote follows at or after `i`.
pub open spec fn has_close(s: Seq<char>, i: int) -> bool
    decreases s.len() - i,
{
    0 <= i < s.len() && (s[i] == '"' || has_close(s, i + 1))
}

/// The characters a token may begin with; anything else is an unexpected
/// character.
pub open spec fn is_token_start(c: char) -> bool {
    c == '(' || c == ')' || c == '{' || c == '}' || c == ',' || c == '.' || c == '-' || c == '+'
        || c == ';' || c == '/' || c == '*' || c == '!' || c == '=' || c == '<' || c == '>' || c
        == '"' || is_digit(c) || is_alpha(c)
}

/// The position after the token that begins at the boundary `b`.
pub open spec fn token_end(s: Seq<char>, b: int) -> int
    recommends
        0 <= b < s.len(),
{
    let c = s[b];
    if c == '!' || c == '=' || c == '<' || c == '>' {
        if b + 1 < s.len() && s[b + 1] == '=' {
            b + 2
        } else {
            b + 1
        }
    } else if c == '"' {
        string_end(s, b + 1)
    } else if is_digit(c) {
        number_end(s, b + 1)
    } else if is_alpha(c) {
        ident_end(s, b + 1)
    } else {
        b + 1
    }
}

/// The kind of the token that begins at the boundary `b`: `ERROR` on an
/// unexpected character or an unterminated string, and otherwise the kind
/// its consumed slice spells.
pub open spec fn token_kind(s: Seq<char>, b: int) -> TokenType
    recommends
        0 <= b < s.len(),
{
    if !is_token_start(s[b]) {
        TokenType::ERROR
    } else if s[b] == '"' && !has_close(s, b + 1) {
        TokenType::ERROR
    } else {
        lexeme_type(s.subrange(b, token_end(s, b)))
    }
}

/// The kind of token a consumed slice of source text spells: punctuation and
/// operators by their characters, a leading quote a string, a leading digit
/// a number, a leading letter an identifier or the reserved word it spells.
pub open spec fn lexeme_type(s: Seq<char>) -> TokenType
    recommends
        s.len() > 0,
{
    let c = s[0];
    if c == '(' {
        TokenType::LEFT_PAREN
    } else if c == ')' {
        TokenType::RIGHT_PAREN
    } else if c == '{' {
        TokenType::LEFT_BRACE
    } else if c == '}' {
        TokenType::RIGHT_BRACE
    } else if c == ',' {
        TokenType::COMMA
    } else if c == '.' {
        TokenType::DOT
    } else if c == '-' {
        TokenType::MINUS
    } else if c == '+' {
        TokenType::PLUS
    } else if c == ';' {
        TokenType::SEMICOLON
    } else if c == '/' {
        TokenType::SLASH
    } else if c == '*' {
        TokenType::STAR
    } else if c == '!' {
        if s.len() == 2 {
            TokenType::BANG_EQUAL
        } else {
            TokenType::BANG
        }
    } else if c == '=' {
        if s.len() == 2 {
            TokenType::EQUAL_EQUAL
        } else {
            TokenType::EQUAL
        }
    } else if c == '<' {
        if s.len() == 2 {
            TokenType::LESS_EQUAL
        } else {
            TokenType::LESS
        }
    } else if c == '>' {
        if s.len() == 2 {
            TokenType::GREATER_EQUAL
        } else {
            TokenType::GREATER
        }
    } else if c == '"' {
        TokenType::STRING
    } else if is_digit(c) {
        TokenType::NUMBER
    } else if is_alpha(c) {
        keyword_type(s)
    } else {
        TokenType::ERROR
    }
}

/// The scanner: a cursor over the source plus the rules that cut it into
/// tokens.
pub struct Scanner {
    pub source: SourceController,
}

impl Scanner {
    /// The scanner is well formed while its cursor is.
    pub open spec fn wf(&self) -> bool {
        self.source.wf()
    }

    /// The text being scanned.
    pub open spec fn text(&self) -> Seq<char> {
        self.source.source@
    }

    /// A scanner at the head of `source`.
    pub fn new(source: &str) -> (s: Self)
        requires
            source@.len() < usize::MAX,
        ensures
            s.wf(),
            s.text() == source@,
            s.source.current == 0,
            s.source.line == 1,
    {
        Scanner { source: SourceController::new(source) }
    }

    /// Skips space and comments, then reads one token.
    ///
    /// The token starts exactly at the first boundary after the cursor —
    /// only spaces and comment text stand before it — and `EOF` comes back
    /// exactly when no token follows. Otherwise the token covers exactly
    /// [`token_end`] characters and has exactly the kind [`token_kind`]
    /// gives: `ERROR` precisely on an unexpected character or an
    /// unterminated string, each with its own message, and otherwise the
    /// kind the consumed slice spells, with the slice as its text. The line
    /// number grows by exactly the number of newlines passed.
    pub fn scan_token(&mut self) -> (t: Token)
        requires
            old(self).wf(),
        ensures
            final(self).wf(),
            final(self).text() == old(self).text(),
            final(self).source.current >= old(self).source.current,
            final(self).source.line == old(self).source.line + count_newlines(
                old(self).text().subrange(
                    old(self).source.current as int,
                    final(self).source.current as int,
                ),
            ),
            t.token_type == TokenType::EOF ==> final(self).source.at_end(),
            t.token_type != TokenType::EOF ==> final(self).source.current > old(
                self,
            ).source.current,
            t.line == final(self).source.line,
            (t.token_type != TokenType::EOF && t.token_type != TokenType::ERROR) ==> {
                &&& final(self).source.start < final(self).source.current
                &&& t.lexem@ == final(self).text().subrange(
                    final(self).source.start as int,
                    final(self).source.current as int,
                )
                &&& t.token_type == lexeme_type(t.lexem@)
            },
            t.token_type == TokenType::IDENTIFIER ==> !is_ident_char(final(self).source.peek()),
            t.token_type == TokenType::NUMBER ==> !is_digit(final(self).source.peek()),
            t.token_type == TokenType::ERROR ==> (t.lexem@ == "Unexpected character."@ || t.lexem@
                == "Unterminated string"@),
            ({
                let b = next_boundary(old(self).text(), old(self).source.current as int);
                &&& final(self).source.start == b
                &&& (t.token_type == TokenType::EOF <==> b >= old(self).text().len())
                &&& (b < old(self).text().len() ==> (final(self).source.current == token_end(
                    old(self).text(),
                    b,
                ) && t.token_type == token_kind(old(self).text(), b)))
                &&& ((b < old(self).text().len() && t.token_type == TokenType::ERROR) ==> t.lexem@
                    == (if old(self).text()[b] == '"' {
                    "Unterminated string"@
                } else {
                    "Unexpected character."@
                }))
            }),
    {
        let ghost a = self.source.current as int;
        self.source.skip_whitespaces();
        self.source.set_start_to_next_token();
        let ghost b = self.source.current as int;

        if self.source.is_eof() {
            return self.make_token(TokenType::EOF);
        }

        let c = self.source.advance();
        assert(self.text()[b] == c);
        assert(c != '\n');

        if c == '(' {
            proof {
                lemma_line_total(self.text(), a, b, self.source.current as int);
            }
            self.make_token(TokenType::LEFT_PAREN)
        } else if c == ')' {
            proof {
                lemma_line_total(self.text(), a, b, self.source.current as int);
            }
            self.make_token(TokenType::RIGHT_PAREN)
        } else if c == '{' {
            proof {
                lemma_line_total(self.text(), a, b, self.source.current as int);
            }
            self.make_token(TokenType::LEFT_BRACE)
        } else if c == '}' {
            proof {
                lemma_line_total(self.text(), a, b, self.source.current as int);
            }
            self.make_token(TokenType::RIGHT_BRACE)
        } else if c == ',' {
            proof {
                lemma_line_total(self.text(), a, b, self.source.current as int);
            }
            self.make_token(TokenType::COMMA)
        } else if c == '.' {
            proof {
                lemma_line_total(self.text(), a, b, self.source.current as int);
            }
            self.make_token(TokenType::DOT)
        } else if c == '-' {
            proof {
                lemma_line_total(self.text(), a, b, self.source.current as int);
            }
            self.make_token(TokenType::MINUS)
        } else if c == '+' {
            proof {
                lemma_line_total(self.text(), a, b, self.source.current as int);
            }
            self.make_token(TokenType::PLUS)
        } else if c == ';' {
            proof {
                lemma_line_total(self.text(), a, b, self.source.current as int);
            }
            self.make_token(TokenType::SEMICOLON)
        } else if c == '*' {
            proof {
                lemma_line_total(self.text(), a, b, self.source.current as int);
            }
            self.make_token(TokenType::STAR)
        } else if c == '!' {
            let two = self.source.advance_match('=');
            proof {
                lemma_line_total(self.text(), a, b, self.source.current as int);
            }
            if two {
                self.make_token(TokenType::BANG_EQUAL)
            } else {
                self.make_token(TokenType::BANG)
            }
        } else if c == '=' {
            let two = self.source.advance_match('=');
            proof {
                lemma_line_total(self.text(), a, b, self.source.current as int);
            }
            if two {
                self.make_token(TokenType::EQUAL_EQUAL)
            } else {
                self.make_token(TokenType::EQUAL)
            }
        } else if c == '<' {
            let two = self.source.advance_match('=');
            proof {
                lemma_line_total(self.text(), a, b, self.source.current as int);
            }
            if two {
                self.make_token(TokenType::LESS_EQUAL)
            } else {
                self.make_token(TokenType::LESS)
            }
        } else if c == '>' {
            let two = self.source.advance_match('=');
            proof {
                lemma_line_total(self.text(), a, b, self.source.current as int);
            }
            if two {
                self.make_token(TokenType::GREATER_EQUAL)
            } else {
                self.make_token(TokenType::GREATER)
            }
        } else if c == '/' {
            proof {
                lemma_line_total(self.text(), a, b, self.source.current as int);
            }
            self.make_token(TokenType::SLASH)
        } else if c == '"' {
            let t = self.string();
            proof {
                lemma_line_total(self.text(), a, b, b + 1);
                lemma_count_newlines_split(self.text(), a, b + 1, self.source.current as int);
            }
            t
        } else if c >= '0' && c <= '9' {
            let t = self.number();
            proof {
                lemma_line_total(self.text(), a, b, b + 1);
                lemma_count_newlines_split(self.text(), a, b + 1, self.source.current as int);
            }
            t
        } else if (c >= 'a' && c <= 'z') || (c >= 'A' && c <= 'Z') || c == '_' {
            let t = self.identifier();
            proof {
                lemma_line_total(self.text(), a, b, b + 1);
                lemma_count_newlines_split(self.text(), a, b + 1, self.source.current as int);
            }
            t
        } else {
            proof {
                lemma_line_total(self.text(), a, b, self.source.current as int);
            }
            self.make_error("Unexpected character.")
        }
    }

    /// A token of the given kind covering the text from the token start to
    /// the cursor.
    fn make_token(&self, token_type: TokenType) -> (t: Token)
        requires
            self.wf(),
        ensures
            t.token_type == token_type,
            t.lexem@ == self.text().subrange(self.source.start as int, self.source.current as int),
            t.line == self.source.line,
    {
        Token::new(token_type, self.source.extract_from_start(), self.source.line)
    }

    /// An error token carrying `message` at the current line.
    fn make_error(&self, message: &str) -> (t: Token)
        ensures
            t.token_type == TokenType::ERROR,
            t.lexem@ == message@,
            t.line == self.source.line,
    {
        Token::error(message, self.source.line)
    }

    /// Reads the rest of a string literal, the opening quote already
    /// consumed; newlines inside the literal count toward the line number.
    fn string(&mut self) -> (t: Token)
        requires
            old(self).wf(),
            old(self).source.start < old(self).source.current,
            old(self).text()[old(self).source.start as int] == '"',
        ensures
            final(self).wf(),
            final(self).text() == old(self).text(),
            final(self).source.start == old(self).source.start,
            final(self).source.current >= old(self).source.current,
            final(self).source.line == old(self).source.line + count_newlines(
                old(self).text().subrange(
                    old(self).source.current as int,
                    final(self).source.current as int,
                ),
            ),
            t.token_type == TokenType::STRING || t.token_type == TokenType::ERROR,
            final(self).source.current == string_end(
                old(self).text(),
                old(self).source.current as int,
            ),
            (t.token_type == TokenType::STRING <==> has_close(
                old(self).text(),
                old(self).source.current as int,
            )),
            t.token_type == TokenType::STRING ==> {
                &&& t.lexem@ == final(self).text().subrange(
                    final(self).source.start as int,
                    final(self).source.current as int,
                )
                &&& t.line == final(self).source.line
                &&& t.lexem@[0] == '"'
            },
            t.token_type == TokenType::ERROR ==> t.lexem@ == "Unterminated string"@,
            t.line == final(self).source.line,
    {
        let ghost from = self.source.current as int;
        proof {
            assert(self.text().subrange(from, from) =~= Seq::<char>::empty());
        }
        while !self.source.is_closed('"')
            invariant
                self.wf(),
                self.source.source == old(self).source.source,
                self.source.start == old(self).source.start,
                self.source.current >= old(self).source.current,
                from == old(self).source.current as int,
                string_end(self.text(), from) == string_end(
                    self.text(),
                    self.source.current as int,
                ),
                has_close(self.text(), from) == has_close(self.text(), self.source.current as int),
                self.source.line == old(self).source.line + count_newlines(
                    self.text().subrange(from, self.source.current as int),
                ),
            decreases self.text().len() - self.source.current,
        {
            proof {
                self.source.lemma_step(from);
            }
            let c = self.source.advance();
            if c == '\n' {
                self.source.line = self.source.line + 1;
            }
        }

        if self.source.is_eof() {
            self.make_error("Unterminated string")
        } else {
            proof {
                self.source.lemma_step(from);
            }
            self.source.advance();
            self.make_token(TokenType::STRING)
        }
    }

    /// Reads the rest of a number literal: more digits, then optionally a
    /// dot followed by at least one digit. A trailing dot is left alone.
    fn number(&mut self) -> (t: Token)
        requires
            old(self).wf(),
            old(self).source.start < old(self).source.current,
            is_digit(old(self).text()[old(self).source.start as int]),
        ensures
            final(self).wf(),
            final(self).text() == old(self).text(),
            final(self).source.start == old(self).source.start,
            final(self).source.current >= old(self).source.current,
            final(self).source.line == old(self).source.line,
            t.token_type == TokenType::NUMBER,
            t.line == final(self).source.line,
            t.lexem@ == final(self).text().subrange(
                final(self).source.start as int,
                final(self).source.current as int,
            ),
            is_digit(t.lexem@[0]),
            !is_digit(final(self).source.peek()),
            final(self).source.current == number_end(
                old(self).text(),
                old(self).source.current as int,
            ),
            count_newlines(
                old(self).text().subrange(
                    old(self).source.current as int,
                    final(self).source.current as int,
                ),
            ) == 0,
    {
        let ghost from = self.source.current as int;
        self.consume_digits();
        let ghost mid = self.source.current as int;

        if self.source.query_current() == '.' {
            let next = self.source.query_next();
            if next >= '0' && next <= '9' {
                self.source.advance();
                self.consume_digits();
                proof {
                    let cur = self.source.current as int;
                    lemma_line_total(self.text(), from, mid, mid + 1);
                    lemma_count_newlines_split(self.text(), from, mid + 1, cur);
                }
            }
        }

        self.make_token(TokenType::NUMBER)
    }

    /// Consumes a run of digits.
    fn consume_digits(&mut self)
        requires
            old(self).wf(),
        ensures
            final(self).wf(),
            final(self).source.source == old(self).source.source,
            final(self).source.start == old(self).source.start,
            final(self).source.line == old(self).source.line,
            final(self).source.current >= old(self).source.current,
            !is_digit(final(self).source.peek()),
            final(self).source.current == digits_end(
                old(self).text(),
                old(self).source.current as int,
            ),
            count_newlines(
                old(self).text().subrange(
                    old(self).source.current as int,
                    final(self).source.current as int,
                ),
            ) == 0,
    {
        let ghost from = self.source.current as int;
        proof {
            assert(self.text().subrange(from, from) =~= Seq::<char>::empty());
        }
        loop
            invariant
                self.wf(),
                self.source.source == old(self).source.source,
                self.source.start == old(self).source.start,
                self.source.line == old(self).source.line,
                self.source.current >= old(self).source.current,
                from == old(self).source.current as int,
                digits_end(self.text(), from) == digits_end(self.text(), self.source.current as int),
                count_newlines(self.text().subrange(from, self.source.current as int)) == 0,
            decreases self.text().len() - self.source.current,
        {
            let c = self.source.query_current();
            if c >= '0' && c <= '9' {
                proof {
                    self.source.lemma_step(from);
                }
                self.source.advance();
            } else {
                return ;
            }
        }
    }

    /// Reads the rest of an identifier, then tells a reserved word from a
    /// plain identifier.
    fn identifier(&mut self) -> (t: Token)
        requires
            old(self).wf(),
            old(self).source.start < old(self).source.current,
            is_alpha(old(self).text()[old(self).source.start as int]),
        ensures
            final(self).wf(),
            final(self).text() == old(self).text(),
            final(self).source.start == old(self).source.start,
            final(self).source.current >= old(self).source.current,
            final(self).source.line == old(self).source.line,
            t.line == final(self).source.line,
            t.lexem@ == final(self).text().subrange(
                final(self).source.start as int,
                final(self).source.current as int,
            ),
            t.token_type == keyword_type(t.lexem@),
            is_alpha(t.lexem@[0]),
            !is_ident_char(final(self).source.peek()),
            final(self).source.current == ident_end(
                old(self).text(),
                old(self).source.current as int,
            ),
            count_newlines(
                old(self).text().subrange(
                    old(self).source.current as int,
                    final(self).source.current as int,
                ),
            ) == 0,
    {
        let ghost from = self.source.current as int;
        proof {
            assert(self.text().subrange(from, from) =~= Seq::<char>::empty());
        }
        loop
            invariant
                self.wf(),
                self.source.source == old(self).source.source,
                self.source.start == old(self).source.start,
                self.source.line == old(self).source.line,
                self.source.current >= old(self).source.current,
                from == old(self).source.current as int,
                ident_end(self.text(), from) == ident_end(self.text(), self.source.current as int),
                count_newlines(self.text().subrange(from, self.source.current as int)) == 0,
            ensures
                !is_ident_char(self.source.peek()),
                self.source.current as int == ident_end(self.text(), from),
            decreases self.text().len() - self.source.current,
        {
            let c = self.source.query_current();
            if (c >= 'a' && c <= 'z') || (c >= 'A' && c <= 'Z') || c == '_' || (c >= '0' && c
                <= '9') {
                proof {
                    self.source.lemma_step(from);
                }
                self.source.advance();
            } else {
                break ;
            }
        }

        let token_type = self.identifier_type();

        self.make_token(token_type)
    }

    /// The kind of the identifier between the token start and the cursor: a
    /// trie on the first one or two characters picks a candidate reserved
    /// word, and the rest of the text settles it.
    fn identifier_type(&self) -> (r: TokenType)
        requires
            self.wf(),
            self.source.start < self.source.current,
        ensures
            r == keyword_type(
                self.text().subrange(self.source.start as int, self.source.current as int),
            ),
    {
        let name = self.source.extract_from_start();
        let ghost s = self.text().subrange(self.source.start as int, self.source.current as int);
        let n = name.as_str().unicode_len();
        let first = name.as_str().get_char(0);

        proof {
            reveal_strlit("and");
            reveal_strlit("nd");
            reveal_strlit("class");
            reveal_strlit("lass");
            reveal_strlit("else");
            reveal_strlit("lse");
            reveal_strlit("false");
            reveal_strlit("for");
            reveal_strlit("fun");
            reveal_strlit("r");
            reveal_strlit("n");
            reveal_strlit("if");
            reveal_strlit("f");
            reveal_strlit("nil");
            reveal_strlit("il");
            reveal_strlit("or");
            reveal_strlit("print");
            reveal_strlit("rint");
            reveal_strlit("return");
            reveal_strlit("eturn");
            reveal_strlit("super");
            reveal_strlit("uper");
            reveal_strlit("this");
            reveal_strlit("is");
            reveal_strlit("true");
            reveal_strlit("ue");
            reveal_strlit("var");
            reveal_strlit("ar");
            reveal_strlit("while");
            reveal_strlit("hile");
            assert(n == s.len());
            assert(first == s[0]);
        }

        if first == 'a' {
            proof {
                assert(("and"@).subrange(1, 3) =~= "nd"@);
                lemma_tail_decides(s, "and"@, 1);
            }
            is_a_keyword(name.as_str().substring_char(1, n), "nd", TokenType::AND)
        } else if first == 'c' {
            proof {
                assert(("class"@).subrange(1, 5) =~= "lass"@);
                lemma_tail_decides(s, "class"@, 1);
            }
            is_a_keyword(name.as_str().substring_char(1, n), "lass", TokenType::CLASS)
        } else if first == 'e' {
            proof {
                assert(("else"@).subrange(1, 4) =~= "lse"@);
                lemma_tail_decides(s, "else"@, 1);
            }
            is_a_keyword(name.as_str().substring_char(1, n), "lse", TokenType::ELSE)
        } else if first == 'f' {
            if n > 1 {
                let second = name.as_str().get_char(1);
                proof {
                    assert(second == s[1]);
                }
                if second == 'a' {
                    proof {
                        assert(("false"@).subrange(2, 5) =~= "lse"@);
                        lemma_tail_decides(s, "false"@, 2);
                    }
                    is_a_keyword(name.as_str().substring_char(2, n), "lse", TokenType::FALSE)
                } else if second == 'o' {
                    proof {
                        assert(("for"@).subrange(2, 3) =~= "r"@);
                        lemma_tail_decides(s, "for"@, 2);
                    }
                    is_a_keyword(name.as_str().substring_char(2, n), "r", TokenType::FOR)
                } else if second == 'u' {
                    proof {
                        assert(("fun"@).subrange(2, 3) =~= "n"@);
                        lemma_tail_decides(s, "fun"@, 2);
                    }
                    is_a_keyword(name.as_str().substring_char(2, n), "n", TokenType::FUN)
                } else {
                    TokenType::IDENTIFIER
                }
            } else {
                TokenType::IDENTIFIER
            }
        } else if first == 'i' {
            proof {
                assert(("if"@).subrange(1, 2) =~= "f"@);
                lemma_tail_decides(s, "if"@, 1);
            }
            is_a_keyword(name.as_str().substring_char(1, n), "f", TokenType::IF)
        } else if first == 'n' {
            proof {
                assert(("nil"@).subrange(1, 3) =~= "il"@);
                lemma_tail_decides(s, "nil"@, 1);
            }
            is_a_keyword(name.as_str().substring_char(1, n), "il", TokenType::NIL)
        } else if first == 'o' {
            proof {
                assert(("or"@).subrange(1, 2) =~= "r"@);
                lemma_tail_decides(s, "or"@, 1);
            }
            is_a_keyword(name.as_str().substring_char(1, n), "r", TokenType::OR)
        } else if first == 'p' {
            proof {
                assert(("print"@).subrange(1, 5) =~= "rint"@);
                lemma_tail_decides(s, "print"@, 1);
            }
            is_a_keyword(name.as_str().substring_char(1, n), "rint", TokenType::PRINT)
        } else if first == 'r' {
            proof {
                assert(("return"@).subrange(1, 6) =~= "eturn"@);
                lemma_tail_decides(s, "return"@, 1);
            }
            is_a_keyword(name.as_str().substring_char(1, n), "eturn", TokenType::RETURN)
        } else if first == 's' {
            proof {
                assert(("super"@).subrange(1, 5) =~= "uper"@);
                lemma_tail_decides(s, "super"@, 1);
            }
            is_a_keyword(name.as_str().substring_char(1, n), "uper", TokenType::SUPER)
        } else if first == 't' {
            if n > 1 {
                let second = name.as_str().get_char(1);
                proof {
                    assert(second == s[1]);
                }
                if second == 'h' {
                    proof {
                        assert(("this"@).subrange(2, 4) =~= "is"@);
                        lemma_tail_decides(s, "this"@, 2);
                    }
                    is_a_keyword(name.as_str().substring_char(2, n), "is", TokenType::THIS)
                } else if second == 'r' {
                    proof {
                        assert(("true"@).subrange(2, 4) =~= "ue"@);
                        lemma_tail_decides(s, "true"@, 2);
                    }
                    is_a_keyword(name.as_str().substring_char(2, n), "ue", TokenType::TRUE)
                } else {
                    TokenType::IDENTIFIER
                }
            } else {
                TokenType::IDENTIFIER
            }
        } else if first == 'v' {
            proof {
                assert(("var"@).subrange(1, 3) =~= "ar"@);
                lemma_tail_decides(s, "var"@, 1);
            }
            is_a_keyword(name.as_str().substring_char(1, n), "ar", TokenType::VAR)
        } else if first == 'w' {
            proof {
                assert(("while"@).subrange(1, 5) =~= "hile"@);
                lemma_tail_decides(s, "while"@, 1);
            }
            is_a_keyword(name.as_str().substring_char(1, n), "hile", TokenType::WHILE)
        } else {
            TokenType::IDENTIFIER
        }
    }
}

/// Whether a word equals a reserved word is settled by its tail once its
/// head matches.
proof fn lemma_tail_decides(s: Seq<char>, k: Seq<char>, p: int)
    requires
        0 < p <= s.len(),
        p <= k.len(),
        forall|i: int| 0 <= i < p ==> s[i] == k[i],
    ensures
        (s.subrange(p, s.len() as int) == k.subrange(p, k.len() as int)) <==> (s == k),
{
    if s.subrange(p, s.len() as int) == k.subrange(p, k.len() as int) {
        assert(s.subrange(p, s.len() as int).len() == k.subrange(p, k.len() as int).len());
        assert forall|i: int| 0 <= i < s.len() implies s[i] == k[i] by {
            if i >= p {
                assert(s.subrange(p, s.len() as int)[i - p] == s[i]);
                assert(k.subrange(p, k.len() as int)[i - p] == k[i]);
            }
        }
        assert(s =~= k);
    } else {
        if s == k {
            assert(s.subrange(p, s.len() as int) =~= k.subrange(p, k.len() as int));
        }
    }
}

/// `token_type` where the candidate's tail `a` matches `b`, a plain
/// identifier otherwise.
pub fn is_a_keyword(a: &str, b: &str, token_type: TokenType) -> (r: TokenType)
    ensures
        r == (if a@ == b@ {
            token_type
        } else {
            TokenType::IDENTIFIER
        }),
{
    let x = a.to_owned();
    let y = b.to_owned();
    if x == y {
        token_type
    } else {
        TokenType::IDENTIFIER
    }
}

} // verus!
