//! The single-pass compiler: a precedence-driven emitter that pulls tokens
//! from the scanner and writes bytecode straight into a chunk.
//!
//! Parsing is driven by the rule table: each expression is read by looking
//! the prefix handler of its first token up, then folding infix operators in
//! while their precedence holds the level. Errors set a panic flag that
//! suppresses cascades until the emitter resynchronizes at a statement
//! boundary. Every parse function consumes source text and never puts any
//! back, which bounds the recursion: the termination measure is the text
//! left to read.
//!
//! The contracts pin what each piece emits on an error-free parse — which
//! opcode every operator turns into, the local-slot and global-name access
//! forms, the name constants a definition adds — together with the exact
//! condition and message of each error this module reports itself, and the
//! stack balance of everything emitted.

use vstd::prelude::*;

use crate::chunk::Chunk;
use crate::errors::{Error, InterpreterError, InterpreterResult};
use crate::opcode::{
    consts_in_range, lemma_consts_add, lemma_consts_mono, lemma_consts_one, lemma_consts_two,
    lemma_stack_effect_one, lemma_stack_effect_two, op_effect, op_to_byte, opcode_byte,
    operand_width, pool_index_ok, stack_effect, OpCode,
};
use crate::rules::{get_rule, prec_byte, prec_value, rule_spec, ParseFn, ParseRule, Precedence};
use crate::scanner::{token_end, token_kind, Scanner};
use crate::source::next_boundary;
use crate::scope::{defined_deeper, trim_locals, Local, LocalResolution, ScopeTracker};
use crate::token::{Token, TokenType};
use crate::value::{ObjStr, Value};

verus! {


/// The bytes that stand after `pre` in `post`: what the emitter appended
/// between two states.
pub open spec fn emitted(pre: Seq<u8>, post: Seq<u8>) -> Seq<u8> {
    post.subrange(pre.len() as int, post.len() as int)
}

/// The emitter only appended code, and what it appended decodes instruction
/// by instruction with net stack effect `e`.
pub open spec fn emits_balanced(pre: Seq<u8>, post: Seq<u8>, e: int) -> bool {
    &&& pre.len() <= post.len()
    &&& post.subrange(0, pre.len() as int) == pre
    &&& stack_effect(emitted(pre, post)) == Some(e)
}

/// Every constant-pool operand in the bytes the emitter appended between
/// two states indexes within a pool of `n` values.
pub open spec fn operands_in_pool(pre: Seq<u8>, post: Seq<u8>, n: int) -> bool {
    consts_in_range(emitted(pre, post), n)
}

/// Appending nothing references no pool entry.
proof fn lemma_operands_refl(a: Seq<u8>, n: int)
    ensures
        operands_in_pool(a, a, n),
{
    assert(emitted(a, a) =~= Seq::<u8>::empty());
}

/// Appending one operand-free instruction references no pool entry.
proof fn lemma_operands_one(a: Seq<u8>, op: OpCode, n: int)
    requires
        operand_width(op) == 0,
    ensures
        operands_in_pool(a, a.push(opcode_byte(op)), n),
{
    assert(emitted(a, a.push(opcode_byte(op))) =~= seq![opcode_byte(op)]);
    lemma_consts_one(op, n);
}

/// Appending one instruction with an in-range operand keeps every operand in
/// range.
proof fn lemma_operands_two(a: Seq<u8>, op: OpCode, operand: u8, n: int)
    requires
        operand_width(op) == 1,
        pool_index_ok(op, operand, n),
    ensures
        operands_in_pool(a, a.push(opcode_byte(op)).push(operand), n),
{
    assert(emitted(a, a.push(opcode_byte(op)).push(operand)) =~= seq![opcode_byte(op), operand]);
    lemma_consts_two(op, operand, n);
}

/// In-range appends compose along a prefix chain.
proof fn lemma_operands_trans(a: Seq<u8>, b: Seq<u8>, c: Seq<u8>, n: int)
    requires
        a.len() <= b.len() <= c.len(),
        b.subrange(0, a.len() as int) == a,
        c.subrange(0, b.len() as int) == b,
        operands_in_pool(a, b, n),
        operands_in_pool(b, c, n),
    ensures
        operands_in_pool(a, c, n),
{
    assert(emitted(a, c) =~= emitted(a, b) + emitted(b, c));
    lemma_consts_add(emitted(a, b), emitted(b, c), n);
}

/// In-range appends survive later pool growth.
proof fn lemma_operands_mono(pre: Seq<u8>, post: Seq<u8>, n1: int, n2: int)
    requires
        operands_in_pool(pre, post, n1),
        n1 <= n2,
    ensures
        operands_in_pool(pre, post, n2),
{
    lemma_consts_mono(emitted(pre, post), n1, n2);
}

/// Every defined local sits at depth `d` or above it.
pub open spec fn locals_at_most(locals: Seq<Local>, d: int) -> bool {
    forall|i: int|
        0 <= i < locals.len() ==> ((#[trigger] locals[i]).depth matches Some(x) ==> x <= d)
}

/// A lexeme with its surrounding quotes stripped, where it has them: the
/// text a string literal or identifier contributes.
pub open spec fn unquote(s: Seq<char>) -> Seq<char> {
    if s.len() >= 2 && s[0] == '"' {
        s.subrange(1, s.len() - 1)
    } else {
        s
    }
}

/// The bytes an infix operator emits after its right operand: the operator's
/// own opcode, or the positive counterpart followed by `OP_NOT` for `!=`,
/// `>=` and `<=`.
pub open spec fn binary_suffix(op: TokenType) -> Seq<u8> {
    match op {
        TokenType::PLUS => seq![opcode_byte(OpCode::OP_ADD)],
        TokenType::MINUS => seq![opcode_byte(OpCode::OP_SUB)],
        TokenType::STAR => seq![opcode_byte(OpCode::OP_MUL)],
        TokenType::SLASH => seq![opcode_byte(OpCode::OP_DIV)],
        TokenType::BANG_EQUAL => seq![opcode_byte(OpCode::OP_EQUAL), opcode_byte(OpCode::OP_NOT)],
        TokenType::EQUAL_EQUAL => seq![opcode_byte(OpCode::OP_EQUAL)],
        TokenType::GREATER => seq![opcode_byte(OpCode::OP_GREATER)],
        TokenType::GREATER_EQUAL => seq![opcode_byte(OpCode::OP_LESS), opcode_byte(OpCode::OP_NOT)],
        TokenType::LESS => seq![opcode_byte(OpCode::OP_LESS)],
        TokenType::LESS_EQUAL => seq![opcode_byte(OpCode::OP_GREATER), opcode_byte(OpCode::OP_NOT)],
        _ => Seq::empty(),
    }
}

/// The byte a prefix operator emits after its operand.
pub open spec fn unary_suffix(op: TokenType) -> Seq<u8> {
    match op {
        TokenType::MINUS => seq![opcode_byte(OpCode::OP_NEGATE)],
        TokenType::BANG => seq![opcode_byte(OpCode::OP_NOT)],
        _ => Seq::empty(),
    }
}

/// The byte a keyword literal emits.
pub open spec fn literal_opcode(op: TokenType) -> u8 {
    match op {
        TokenType::FALSE => opcode_byte(OpCode::OP_FALSE),
        TokenType::NIL => opcode_byte(OpCode::OP_NIL),
        _ => opcode_byte(OpCode::OP_TRUE),
    }
}

/// The constant pool only grows: every entry it held keeps its place.
pub open spec fn pool_preserved(pre: Seq<Value>, post: Seq<Value>) -> bool {
    &&& post.len() >= pre.len()
    &&& forall|i: int| 0 <= i < pre.len() ==> post[i] == #[trigger] pre[i]
}

/// The newest recorded error is a compile error at `token` carrying `msg`.
pub open spec fn last_error_is(c: &Compiler, token: Token, msg: Seq<char>) -> bool {
    &&& c.errors@.len() > 0
    &&& (c.errors@.last() matches InterpreterError::CompilerError(e) && e.message@ == msg
        && e.token == Some(token))
}

/// Appending nothing is balanced.
proof fn lemma_emits_refl(a: Seq<u8>)
    ensures
        emits_balanced(a, a, 0),
{
    assert(a.subrange(0, a.len() as int) =~= a);
    assert(emitted(a, a) =~= Seq::<u8>::empty());
    assert(stack_effect(Seq::<u8>::empty()) == Some(0int));
}

/// Appending one operand-free instruction adds its effect.
proof fn lemma_emits_one(a: Seq<u8>, op: OpCode)
    requires
        operand_width(op) == 0,
    ensures
        emits_balanced(a, a.push(opcode_byte(op)), op_effect(op)),
{
    let b = a.push(opcode_byte(op));
    assert(b.subrange(0, a.len() as int) =~= a);
    assert(emitted(a, b) =~= seq![opcode_byte(op)]);
    lemma_stack_effect_one(op);
}

/// Appending one instruction with its operand byte adds its effect.
proof fn lemma_emits_two(a: Seq<u8>, op: OpCode, operand: u8)
    requires
        operand_width(op) == 1,
    ensures
        emits_balanced(a, a.push(opcode_byte(op)).push(operand), op_effect(op)),
{
    let b = a.push(opcode_byte(op)).push(operand);
    assert(b.subrange(0, a.len() as int) =~= a);
    assert(emitted(a, b) =~= seq![opcode_byte(op), operand]);
    lemma_stack_effect_two(op, operand);
}

/// Balanced appends compose.
proof fn lemma_emits_trans(a: Seq<u8>, b: Seq<u8>, c: Seq<u8>, e1: int, e2: int)
    requires
        emits_balanced(a, b, e1),
        emits_balanced(b, c, e2),
    ensures
        emits_balanced(a, c, e1 + e2),
{
    assert(c.subrange(0, a.len() as int) =~= b.subrange(0, a.len() as int));
    assert(emitted(a, c) =~= emitted(a, b) + emitted(b, c));
    crate::opcode::lemma_stack_effect_add(emitted(a, b), emitted(b, c), e1, e2);
}

/// Leaving a scope trims exactly the locals defined inside it: everything
/// appended above the base is dropped, and the base, none of it defined
/// deeper, stays.
proof fn lemma_trim_appended(base: Seq<Local>, locals: Seq<Local>, d: int)
    requires
        base.len() <= locals.len(),
        locals.subrange(0, base.len() as int) == base,
        forall|i: int|
            base.len() <= i < locals.len() ==> defined_deeper(#[trigger] locals[i], d),
        forall|i: int| 0 <= i < base.len() ==> !defined_deeper(#[trigger] base[i], d),
    ensures
        trim_locals(locals, d) == base,
    decreases locals.len(),
{
    if locals.len() == base.len() {
        assert(locals =~= base);
        if base.len() > 0 {
            assert(!defined_deeper(base[base.len() - 1], d));
            assert(locals.last() == base[base.len() - 1]);
        }
    } else {
        assert(locals.last() == locals[locals.len() - 1]);
        assert(defined_deeper(locals.last(), d));
        assert(locals.drop_last().subrange(0, base.len() as int) =~= base);
        lemma_trim_appended(base, locals.drop_last(), d);
    }
}

/// What the rule table hands each handler: the `Literal` handler only ever
/// sees its three keywords, every infix handler is `Binary`, and `Binary`
/// only ever sees the ten operator tokens.
proof fn lemma_rule_table_shape(t: TokenType)
    ensures
        rule_spec(t).prefix == Some(ParseFn::Literal) ==> (t == TokenType::FALSE || t
            == TokenType::NIL || t == TokenType::TRUE),
        rule_spec(t).infix is Some ==> rule_spec(t).infix == Some(ParseFn::Binary),
        rule_spec(t).prefix != Some(ParseFn::Binary),
        rule_spec(t).infix == Some(ParseFn::Binary) ==> (t == TokenType::PLUS || t
            == TokenType::MINUS || t == TokenType::STAR || t == TokenType::SLASH || t
            == TokenType::BANG_EQUAL || t == TokenType::EQUAL_EQUAL || t == TokenType::GREATER || t
            == TokenType::GREATER_EQUAL || t == TokenType::LESS || t == TokenType::LESS_EQUAL),
{
}

/// What a successful compilation hands over: the finished chunk.
pub struct Compilation {
    pub chunk: Option<Chunk>,
}

impl Compilation {
    /// An empty compilation, its chunk still to come.
    pub fn new() -> (c: Self)
        ensures
            c.chunk is None,
    {
        Compilation { chunk: None }
    }
}

/// The compiler: the token window, the open scanner and chunk, the scope
/// tracker, and the error state.
pub struct Compiler {
    pub current: Option<Token>,
    pub previous: Option<Token>,
    pub scanner: Option<Scanner>,
    pub chunk: Option<Chunk>,
    pub errors: Vec<InterpreterError>,
    pub panic: bool,
    pub compilation: Option<Compilation>,
    pub scope: ScopeTracker,
}

impl Compiler {
    /// The scanner and the chunk are open and well formed, and every
    /// recorded error is a compile error.
    pub open spec fn scanning(&self) -> bool {
        &&& self.scanner is Some
        &&& self.scanner.unwrap().wf()
        &&& self.chunk is Some
        &&& self.chunk.unwrap().wf()
        &&& forall|i: int|
            0 <= i < self.errors@.len() ==> self.errors@[i] is CompilerError
    }

    /// The text being compiled.
    pub open spec fn text(&self) -> Seq<char> {
        self.scanner.unwrap().text()
    }

    /// The scanner's position in the text.
    pub open spec fn pos(&self) -> int {
        self.scanner.unwrap().source.current as int
    }

    /// The kind of the token under the window.
    pub open spec fn current_type(&self) -> TokenType {
        self.current.unwrap().token_type
    }

    /// The parsing state between token reads: the window is filled, an `EOF`
    /// token means the scanner is done, and the scope depth never outruns
    /// the consumed text.
    pub open spec fn wf(&self) -> bool {
        &&& self.scanning()
        &&& self.current is Some
        &&& (self.current_type() == TokenType::EOF ==> self.scanner.unwrap().source.at_end())
        &&& self.depth_ok()
    }

    /// The scope depth never outruns the consumed text: every open scope
    /// consumed its brace, and the token under the window consumed its own
    /// characters too.
    pub open spec fn depth_ok(&self) -> bool {
        self.scope.scope_depth + (if self.current is Some && self.current_type()
            != TokenType::EOF {
            1int
        } else {
            0int
        }) <= self.pos()
    }

    /// The termination measure of the parser: twice the unread text, plus
    /// one while the end-of-input token has not been reached. Every
    /// recursive descent strictly shrinks it.
    pub open spec fn measure(&self) -> int {
        2 * (self.text().len() - self.pos()) + (if self.current is Some && self.current_type()
            == TokenType::EOF {
            0int
        } else {
            1int
        })
    }

    /// A fresh compiler with nothing open.
    pub fn new() -> (c: Self)
        ensures
            c.current is None,
            c.previous is None,
            c.scanner is None,
            c.chunk is None,
            c.errors@.len() == 0,
            !c.panic,
            c.compilation is Some,
            c.scope.locals@.len() == 0,
            c.scope.scope_depth == 0,
    {
        Compiler {
            current: None,
            previous: None,
            scanner: None,
            errors: Vec::new(),
            panic: false,
            chunk: None,
            compilation: Some(Compilation::new()),
            scope: ScopeTracker::new(),
        }
    }

    /// Compiles one source text into a chunk.
    ///
    /// On success the chunk is well formed, ends with the `OP_RETURN` byte
    /// that halts the machine, and its code is stack-balanced: it decodes
    /// instruction by instruction and its net stack effect is zero, because
    /// every expression leaves exactly one value that its statement's
    /// trailing `OP_POP`, `OP_PRINT` or definition consumes, and every local
    /// that a block pushes is popped when the block's scope ends. On failure
    /// the last error recorded is handed back, and it is always a compile
    /// error.
    pub fn compile(&mut self, source: &str) -> (r: InterpreterResult<Compilation>)
        requires
            source@.len() < usize::MAX,
        ensures
            r matches Ok(comp) ==> {
                &&& comp.chunk is Some
                &&& comp.chunk.unwrap().wf()
                &&& comp.chunk.unwrap().code@.len() > 0
                &&& comp.chunk.unwrap().code@.last() == opcode_byte(OpCode::OP_RETURN)
            },
            r is Err ==> r->Err_0 is CompilerError,
            r matches Ok(comp) ==> stack_effect(comp.chunk.unwrap().code@) == Some(0int),
            r matches Ok(comp) ==> consts_in_range(
                comp.chunk.unwrap().code@,
                comp.chunk.unwrap().const_pool.values@.len() as int,
            ),
            next_boundary(source@, 0) >= source@.len() ==> (r matches Ok(comp) && comp.chunk.unwrap().code@
                == seq![opcode_byte(OpCode::OP_RETURN)] && comp.chunk.unwrap().const_pool.values@
                == Seq::<Value>::empty()),
    {
        self.reset();
        self.scanner = Some(Scanner::new(source));
        self.chunk = Some(Chunk::new());

        self.advance();

        proof {
            lemma_emits_refl(Seq::<u8>::empty());
            lemma_operands_refl(
                Seq::<u8>::empty(),
                self.chunk.unwrap().const_pool.values@.len() as int,
            );
            assert(self.chunk.unwrap().code@ =~= Seq::<u8>::empty());
        }

        while !self.match_advance(TokenType::EOF)
            invariant
                self.wf(),
                self.text() == source@,
                self.scope.scope_depth == 0,
                self.errors@.len() == 0 ==> (!self.panic && self.scope.locals@.len() == 0
                    && emits_balanced(Seq::<u8>::empty(), self.chunk.unwrap().code@, 0)
                    && operands_in_pool(
                    Seq::<u8>::empty(),
                    self.chunk.unwrap().code@,
                    self.chunk.unwrap().const_pool.values@.len() as int,
                )),
                next_boundary(self.text(), 0) >= self.text().len() ==> (self.errors@.len() == 0
                    && self.chunk.unwrap().code@ == Seq::<u8>::empty()
                    && self.chunk.unwrap().const_pool.values@ == Seq::<Value>::empty()
                    && self.current_type() == TokenType::EOF && self.pos() == self.text().len()),
            decreases self.measure(),
        {
            let ghost cb = self.chunk.unwrap().code@;
            let ghost np = self.chunk.unwrap().const_pool.values@.len() as int;
            self.declaration();
            proof {
                if self.errors@.len() == 0 {
                    lemma_emits_trans(
                        Seq::<u8>::empty(),
                        cb,
                        self.chunk.unwrap().code@,
                        0,
                        0,
                    );
                    let n = self.chunk.unwrap().const_pool.values@.len() as int;
                    lemma_operands_mono(Seq::<u8>::empty(), cb, np, n);
                    lemma_operands_trans(Seq::<u8>::empty(), cb, self.chunk.unwrap().code@, n);
                }
            }
        }

        let ghost c_end = self.chunk.unwrap().code@;
        self.emit_byte(op_to_byte(OpCode::OP_RETURN));
        proof {
            if self.errors@.len() == 0 {
                lemma_emits_one(c_end, OpCode::OP_RETURN);
                lemma_emits_trans(
                    Seq::<u8>::empty(),
                    c_end,
                    self.chunk.unwrap().code@,
                    0,
                    0,
                );
                let n = self.chunk.unwrap().const_pool.values@.len() as int;
                lemma_operands_one(c_end, OpCode::OP_RETURN, n);
                lemma_operands_trans(Seq::<u8>::empty(), c_end, self.chunk.unwrap().code@, n);
                assert(emitted(Seq::<u8>::empty(), self.chunk.unwrap().code@)
                    =~= self.chunk.unwrap().code@);
            }
            assert(self.text() == source@);
            if next_boundary(self.text(), 0) >= self.text().len() {
                assert(self.errors@.len() == 0);
                assert(self.chunk.unwrap().code@ =~= seq![opcode_byte(OpCode::OP_RETURN)]);
            }
        }

        if self.errors.len() != 0 {
            let e = self.errors.pop().unwrap();
            self.reset();
            Err(e)
        } else {
            let chunk = self.chunk.take().unwrap();
            let mut comp = self.compilation.take().unwrap_or(Compilation::new());
            comp.chunk = Some(chunk);
            self.reset();
            Ok(comp)
        }
    }

    /// Puts the compiler back into its fresh state.
    fn reset(&mut self)
        ensures
            final(self).current is None,
            final(self).previous is None,
            final(self).scanner is None,
            final(self).chunk is None,
            final(self).errors@.len() == 0,
            !final(self).panic,
            final(self).compilation is Some,
            final(self).scope.locals@.len() == 0,
            final(self).scope.scope_depth == 0,
    {
        self.chunk = None;
        self.compilation = Some(Compilation::new());
        self.previous = None;
        self.current = None;
        self.panic = false;
        self.errors = Vec::new();
        self.scanner = None;
        self.scope = ScopeTracker::new();
    }

    /// Appends one byte to the open chunk against the previous token's line.
    fn emit_byte(&mut self, byte: u8)
        requires
            old(self).scanning(),
            old(self).previous is Some,
        ensures
            final(self).scanning(),
            final(self).chunk.unwrap().code@ == old(self).chunk.unwrap().code@.push(byte),
            final(self).chunk.unwrap().const_pool.values@ == old(self).chunk.unwrap().const_pool.values@,
            final(self).scanner == old(self).scanner,
            final(self).current == old(self).current,
            final(self).previous == old(self).previous,
            final(self).scope == old(self).scope,
            final(self).errors@ == old(self).errors@,
            final(self).panic == old(self).panic,
            final(self).compilation == old(self).compilation,
    {
        let line = match &self.previous {
            Some(t) => t.line,
            None => 0,
        };
        match &mut self.chunk {
            Some(c) => c.write_byte(byte, line),
            None => {},
        }
    }

    /// Appends an opcode byte and its operand byte.
    fn emit_bytes(&mut self, byte: u8, byte_operand: u8)
        requires
            old(self).scanning(),
            old(self).previous is Some,
        ensures
            final(self).scanning(),
            final(self).chunk.unwrap().code@ == old(self).chunk.unwrap().code@.push(byte).push(
                byte_operand,
            ),
            final(self).chunk.unwrap().const_pool.values@ == old(self).chunk.unwrap().const_pool.values@,
            final(self).scanner == old(self).scanner,
            final(self).current == old(self).current,
            final(self).previous == old(self).previous,
            final(self).scope == old(self).scope,
            final(self).errors@ == old(self).errors@,
            final(self).panic == old(self).panic,
            final(self).compilation == old(self).compilation,
    {
        self.emit_byte(byte);
        self.emit_byte(byte_operand);
    }

    /// Adds a constant to the pool and emits `OP_CONST` with its index.
    fn emit_const(&mut self, value: Value)
        requires
            old(self).scanning(),
            old(self).previous is Some,
        ensures
            final(self).scanning(),
            final(self).chunk.unwrap().code@ == old(self).chunk.unwrap().code@.push(
                opcode_byte(OpCode::OP_CONST),
            ).push((old(self).chunk.unwrap().const_pool.values@.len() as usize) as u8),
            final(self).chunk.unwrap().const_pool.values@ == old(self).chunk.unwrap().const_pool.values@.push(value),
            final(self).scanner == old(self).scanner,
            final(self).current == old(self).current,
            final(self).previous == old(self).previous,
            final(self).scope == old(self).scope,
            final(self).errors@ == old(self).errors@,
            final(self).panic == old(self).panic,
            final(self).compilation == old(self).compilation,
    {
        let i = self.make_const(value);
        self.emit_bytes(op_to_byte(OpCode::OP_CONST), i);
    }

    /// Adds a constant to the pool and returns its index as an operand byte.
    /// An index beyond one byte wraps, as a cast to `u8` does.
    fn make_const(&mut self, value: Value) -> (i: u8)
        requires
            old(self).scanning(),
        ensures
            final(self).scanning(),
            final(self).chunk.unwrap().const_pool.values@ == old(self).chunk.unwrap().const_pool.values@.push(value),
            final(self).chunk.unwrap().code@ == old(self).chunk.unwrap().code@,
            i == (old(self).chunk.unwrap().const_pool.values@.len() as usize) as u8,
            final(self).scanner == old(self).scanner,
            final(self).current == old(self).current,
            final(self).previous == old(self).previous,
            final(self).scope == old(self).scope,
            final(self).errors@ == old(self).errors@,
            final(self).panic == old(self).panic,
            final(self).compilation == old(self).compilation,
    {
        let i = match &mut self.chunk {
            Some(c) => c.add_const(value),
            None => 0,
        };
        #[verifier::truncate] (i as u8)
    }

    /// Moves the token window forward: the current token becomes the
    /// previous one, and the next non-error token takes its place. Error
    /// tokens are reported and skipped.
    #[verifier::loop_isolation(false)]
    fn advance(&mut self)
        requires
            old(self).scanning(),
            old(self).depth_ok(),
        ensures
            final(self).depth_ok(),
            final(self).errors@.len() >= old(self).errors@.len(),
            (final(self).panic && !old(self).panic) ==> final(self).errors@.len() > old(self).errors@.len(),
            final(self).scanning(),
            final(self).current is Some,
            final(self).current.unwrap().token_type != TokenType::ERROR,
            final(self).previous == old(self).current,
            final(self).text() == old(self).text(),
            final(self).pos() >= old(self).pos(),
            final(self).current_type() == TokenType::EOF ==> final(self).scanner.unwrap().source.at_end(),
            final(self).chunk == old(self).chunk,
            final(self).scope == old(self).scope,
            final(self).compilation == old(self).compilation,
            final(self).measure() <= old(self).measure(),
            !(old(self).current is Some && old(self).current.unwrap().token_type
                == TokenType::EOF) ==> final(self).measure() < old(self).measure(),
            old(self).current is Some ==> final(self).wf(),
            old(self).current is Some ==> final(self).previous is Some,
            next_boundary(old(self).text(), old(self).pos()) >= old(self).text().len() ==> (final(self).errors@ == old(self).errors@ && final(self).panic == old(self).panic && final(self).current.unwrap().token_type == TokenType::EOF && final(self).pos() == old(self).text().len()),
            ({
                let b = next_boundary(old(self).text(), old(self).pos());
                (b < old(self).text().len() && token_kind(old(self).text(), b)
                    != TokenType::ERROR) ==> {
                    &&& final(self).errors@ == old(self).errors@
                    &&& final(self).panic == old(self).panic
                    &&& final(self).current.unwrap().token_type == token_kind(old(self).text(), b)
                    &&& final(self).current.unwrap().lexem@ == old(self).text().subrange(
                        b,
                        token_end(old(self).text(), b),
                    )
                    &&& final(self).pos() == token_end(old(self).text(), b)
                }
            }),
    {
        self.previous = self.current.take();

        loop
            invariant
                self.scanning(),
                self.current is None,
                self.errors@.len() >= old(self).errors@.len(),
                (self.panic && !old(self).panic) ==> self.errors@.len() > old(self).errors@.len(),
                next_boundary(old(self).text(), old(self).pos()) >= old(self).text().len() ==> (
                self.errors@ == old(self).errors@ && self.panic == old(self).panic && self.pos()
                    == old(self).pos()),
                ({
                    let b = next_boundary(old(self).text(), old(self).pos());
                    (b < old(self).text().len() && token_kind(old(self).text(), b)
                        != TokenType::ERROR) ==> (self.errors@ == old(self).errors@ && self.panic
                        == old(self).panic && self.pos() == old(self).pos())
                }),
                self.scope.scope_depth <= self.pos(),
                self.previous == old(self).current,
                self.text() == old(self).text(),
                self.pos() >= old(self).pos(),
                self.chunk == old(self).chunk,
                self.scope == old(self).scope,
                self.compilation == old(self).compilation,
                2 * (self.text().len() - self.pos()) <= old(self).measure(),
                !(old(self).current is Some && old(self).current.unwrap().token_type
                    == TokenType::EOF) ==> 2 * (self.text().len() - self.pos()) + 1 <= old(self).measure(),
            decreases self.text().len() - self.pos(),
        {
            let token = match &mut self.scanner {
                Some(s) => s.scan_token(),
                None => Token::eof(0),
            };
            let token_type = token.token_type;

            if token_type != TokenType::ERROR {
                self.current = Some(token);
                return ;
            }

            self.current = Some(token);
            self.error_at_current("");
            self.current = None;
        }
    }

    /// Reports an error at the token under the window.
    fn error_at_current(&mut self, message: &str)
        requires
            old(self).current is Some,
        ensures
            final(self).scanner == old(self).scanner,
            final(self).current == old(self).current,
            final(self).previous == old(self).previous,
            final(self).chunk == old(self).chunk,
            final(self).scope == old(self).scope,
            final(self).compilation == old(self).compilation,
            final(self).panic,
            forall|i: int|
                0 <= i < old(self).errors@.len() ==> final(self).errors@[i] == old(self).errors@[i],
            old(self).panic ==> final(self).errors@ == old(self).errors@,
            !old(self).panic ==> (final(self).errors@.len() == old(self).errors@.len() + 1
                && last_error_is(final(self), old(self).current.unwrap(), message@)),
    {
        let token = match &self.current {
            Some(t) => t.clone(),
            None => Token::eof(0),
        };
        self.error_at(token, message);
    }

    /// Reports an error at the token just consumed.
    fn error_at_previous(&mut self, message: &str)
        requires
            old(self).previous is Some,
        ensures
            final(self).scanner == old(self).scanner,
            final(self).current == old(self).current,
            final(self).previous == old(self).previous,
            final(self).chunk == old(self).chunk,
            final(self).scope == old(self).scope,
            final(self).compilation == old(self).compilation,
            final(self).panic,
            forall|i: int|
                0 <= i < old(self).errors@.len() ==> final(self).errors@[i] == old(self).errors@[i],
            old(self).panic ==> final(self).errors@ == old(self).errors@,
            !old(self).panic ==> (final(self).errors@.len() == old(self).errors@.len() + 1
                && last_error_is(final(self), old(self).previous.unwrap(), message@)),
    {
        let token = match &self.previous {
            Some(t) => t.clone(),
            None => Token::eof(0),
        };
        self.error_at(token, message);
    }

    /// Records one compile error, unless the panic flag already suppresses
    /// cascading reports; either way the flag is set afterward.
    fn error_at(&mut self, token: Token, message: &str)
        ensures
            final(self).scanner == old(self).scanner,
            final(self).current == old(self).current,
            final(self).previous == old(self).previous,
            final(self).chunk == old(self).chunk,
            final(self).scope == old(self).scope,
            final(self).compilation == old(self).compilation,
            final(self).panic,
            forall|i: int|
                0 <= i < old(self).errors@.len() ==> final(self).errors@[i] == old(self).errors@[i],
            old(self).panic ==> final(self).errors@ == old(self).errors@,
            !old(self).panic ==> (final(self).errors@.len() == old(self).errors@.len() + 1
                && last_error_is(final(self), token, message@)),
    {
        if self.panic {
            return ;
        }

        self.panic = true;

        let error = InterpreterError::CompilerError(Error::new(token, message));
        self.errors.push(error);
    }

    /// Consumes the current token where it has the expected kind, and
    /// reports `message` otherwise.
    fn consume_if_expected(&mut self, token_type: TokenType, message: &str)
        requires
            old(self).wf(),
        ensures
            final(self).wf(),
            final(self).errors@.len() >= old(self).errors@.len(),
            (final(self).panic && !old(self).panic) ==> final(self).errors@.len() > old(self).errors@.len(),
            final(self).text() == old(self).text(),
            final(self).pos() >= old(self).pos(),
            final(self).measure() <= old(self).measure(),
            final(self).scope == old(self).scope,
            final(self).chunk == old(self).chunk,
            final(self).compilation == old(self).compilation,
            (old(self).current_type() == token_type && token_type != TokenType::EOF) ==> final(self).measure() < old(self).measure(),
            old(self).previous is Some ==> final(self).previous is Some,
            old(self).current_type() == token_type ==> final(self).previous is Some,
            old(self).current_type() == token_type ==> final(self).previous == old(self).current,
            (!old(self).panic && old(self).current_type() != token_type) ==> (final(self).errors@.len() == old(self).errors@.len() + 1
                && last_error_is(final(self), old(self).current.unwrap(), message@)
                && final(self).chunk == old(self).chunk),
    {
        if self.check(token_type) {
            self.advance();
        } else {
            self.error_at_current(message);
        }
    }

    /// Whether the current token has the given kind.
    fn check(&self, token_type: TokenType) -> (r: bool)
        requires
            self.current is Some,
        ensures
            r == (self.current_type() == token_type),
    {
        match &self.current {
            Some(t) => t.token_type == token_type,
            None => false,
        }
    }

    /// Whether the previous token has the given kind.
    fn check_previous(&self, token_type: TokenType) -> (r: bool)
        requires
            self.previous is Some,
        ensures
            r == (self.previous.unwrap().token_type == token_type),
    {
        match &self.previous {
            Some(t) => t.token_type == token_type,
            None => false,
        }
    }

    /// Consumes the current token where it has the given kind.
    fn match_advance(&mut self, token_type: TokenType) -> (r: bool)
        requires
            old(self).wf(),
        ensures
            final(self).wf(),
            r == (old(self).current_type() == token_type),
            final(self).errors@.len() >= old(self).errors@.len(),
            (final(self).panic && !old(self).panic) ==> final(self).errors@.len() > old(self).errors@.len(),
            final(self).text() == old(self).text(),
            final(self).pos() >= old(self).pos(),
            final(self).measure() <= old(self).measure(),
            final(self).scope == old(self).scope,
            final(self).chunk == old(self).chunk,
            final(self).compilation == old(self).compilation,
            (r && token_type != TokenType::EOF) ==> final(self).measure() < old(self).measure(),
            next_boundary(old(self).text(), old(self).pos()) >= old(self).text().len() ==> (final(self).errors@
                == old(self).errors@ && final(self).panic == old(self).panic),
            r ==> final(self).previous is Some,
            old(self).previous is Some ==> final(self).previous is Some,
            !r ==> (final(self).current == old(self).current && final(self).previous == old(self).previous && final(self).errors@ == old(self).errors@ && final(self).panic == old(self).panic && final(self).scanner == old(self).scanner),
    {
        if self.check(token_type) {
            self.advance();
            true
        } else {
            false
        }
    }

    /// The text of the previous token, its quotes stripped where it is a
    /// string literal.
    fn extract_str(&self) -> (s: String)
        requires
            self.previous is Some,
        ensures
            s@ == unquote(self.previous.unwrap().lexem@),
    {
        let lexem = match &self.previous {
            Some(t) => t.lexem.clone(),
            None => String::new(),
        };
        let n = lexem.as_str().unicode_len();
        if n >= 2 && lexem.as_str().get_char(0) == '"' {
            lexem.as_str().substring_char(1, n - 1).to_owned()
        } else {
            lexem
        }
    }
}


impl Compiler {
    /// Parses one expression at the given binding level: the prefix handler
    /// of the first token, then every infix operator whose precedence holds
    /// the level. An `=` that no handler consumed is an invalid assignment
    /// target.
    ///
    /// An error-free expression appends code with net stack effect one: the
    /// expression's value.
    #[verifier::loop_isolation(false)]
    fn parse_precedence(&mut self, level: Precedence)
        requires
            old(self).wf(),
            prec_value(level) >= 1,
        ensures
            final(self).wf(),
            final(self).text() == old(self).text(),
            final(self).pos() >= old(self).pos(),
            final(self).measure() <= old(self).measure(),
            final(self).scope.scope_depth == old(self).scope.scope_depth,
            old(self).current_type() != TokenType::EOF ==> final(self).measure() < old(self).measure(),
            final(self).previous is Some,
            final(self).errors@.len() >= old(self).errors@.len(),
            (final(self).panic && !old(self).panic) ==> final(self).errors@.len() > old(self).errors@.len(),
            final(self).scope.locals@ == old(self).scope.locals@,
            pool_preserved(
                old(self).chunk.unwrap().const_pool.values@,
                final(self).chunk.unwrap().const_pool.values@,
            ),
            (!old(self).panic && final(self).errors@.len() == old(self).errors@.len()) ==> (
            emits_balanced(
                old(self).chunk.unwrap().code@,
                final(self).chunk.unwrap().code@,
                1,
            ) && operands_in_pool(
                old(self).chunk.unwrap().code@,
                final(self).chunk.unwrap().code@,
                final(self).chunk.unwrap().const_pool.values@.len() as int,
            )),
            (!old(self).panic && rule_spec(old(self).current_type()).prefix is None) ==> (final(self).errors@.len() > old(self).errors@.len() && final(self).chunk == old(self).chunk),
            (!old(self).panic && final(self).errors@.len() == old(self).errors@.len()
                && prec_value(level) <= prec_value(Precedence::ASSIGNMENT)) ==> final(self).current_type() != TokenType::EQUAL,
        decreases self.measure(), 0int,
    {
        let ghost entry = old(self).measure();
        let ghost c0 = old(self).chunk.unwrap().code@;
        self.advance();

        let prev_type = match &self.previous {
            Some(t) => t.token_type,
            None => TokenType::EOF,
        };
        let prefix_rule = get_rule(&prev_type);

        let prefix_fn = match prefix_rule.prefix {
            Some(f) => f,
            None => {
                self.error_at_current("Expect expression");
                return ;
            },
        };

        proof {
            assert(rule_spec(TokenType::EOF).prefix is None);
            assert(self.measure() < entry);
            lemma_rule_table_shape(prev_type);
        }

        let is_assignable = prec_byte(level) <= prec_byte(Precedence::ASSIGNMENT);

        self.dispatch(prefix_fn, is_assignable);

        loop
            invariant
                self.wf(),
                self.text() == old(self).text(),
                self.pos() >= old(self).pos(),
                self.measure() < entry,
                self.scope.scope_depth == old(self).scope.scope_depth,
                self.previous is Some,
                self.scope.locals@ == old(self).scope.locals@,
                self.errors@.len() >= old(self).errors@.len(),
                (self.panic && !old(self).panic) ==> self.errors@.len() > old(self).errors@.len(),
                pool_preserved(
                    old(self).chunk.unwrap().const_pool.values@,
                    self.chunk.unwrap().const_pool.values@,
                ),
                (!old(self).panic && self.errors@.len() == old(self).errors@.len()) ==> (
                emits_balanced(c0, self.chunk.unwrap().code@, 1) && operands_in_pool(
                    c0,
                    self.chunk.unwrap().code@,
                    self.chunk.unwrap().const_pool.values@.len() as int,
                )),
            decreases self.measure(),
        {
            let cur_type = match &self.current {
                Some(t) => t.token_type,
                None => TokenType::EOF,
            };
            let rule = get_rule(&cur_type);
            if prec_byte(level) > prec_byte(rule.precedence) {
                break ;
            }

            proof {
                assert(rule_spec(TokenType::EOF).precedence == Precedence::NONE);
                assert(cur_type != TokenType::EOF);
            }

            self.advance();

            let infix_prev = match &self.previous {
                Some(t) => t.token_type,
                None => TokenType::EOF,
            };
            let infix = get_rule(&infix_prev).infix;
            match infix {
                Some(f) => {
                    proof {
                        lemma_rule_table_shape(infix_prev);
                    }
                    let ghost cb = self.chunk.unwrap().code@;
                    let ghost np = self.chunk.unwrap().const_pool.values@.len() as int;
                    self.dispatch(f, is_assignable);
                    proof {
                        if !old(self).panic && self.errors@.len() == old(self).errors@.len() {
                            lemma_emits_trans(c0, cb, self.chunk.unwrap().code@, 1, 0);
                            let n = self.chunk.unwrap().const_pool.values@.len() as int;
                            lemma_operands_mono(c0, cb, np, n);
                            lemma_operands_trans(c0, cb, self.chunk.unwrap().code@, n);
                        }
                    }
                },
                None => {},
            }
        }

        if is_assignable {
            if self.match_advance(TokenType::EQUAL) {
                self.error_at_current("Invalid assignment target.");
            }
        }
    }

    /// Parses one full expression.
    fn expression(&mut self)
        requires
            old(self).wf(),
        ensures
            final(self).wf(),
            final(self).text() == old(self).text(),
            final(self).pos() >= old(self).pos(),
            final(self).measure() <= old(self).measure(),
            final(self).scope.scope_depth == old(self).scope.scope_depth,
            old(self).current_type() != TokenType::EOF ==> final(self).measure() < old(self).measure(),
            final(self).previous is Some,
            final(self).errors@.len() >= old(self).errors@.len(),
            (final(self).panic && !old(self).panic) ==> final(self).errors@.len() > old(self).errors@.len(),
            final(self).scope.locals@ == old(self).scope.locals@,
            pool_preserved(
                old(self).chunk.unwrap().const_pool.values@,
                final(self).chunk.unwrap().const_pool.values@,
            ),
            (!old(self).panic && final(self).errors@.len() == old(self).errors@.len()) ==> (
            emits_balanced(
                old(self).chunk.unwrap().code@,
                final(self).chunk.unwrap().code@,
                1,
            ) && operands_in_pool(
                old(self).chunk.unwrap().code@,
                final(self).chunk.unwrap().code@,
                final(self).chunk.unwrap().const_pool.values@.len() as int,
            )),
        decreases self.measure(), 1int,
    {
        self.parse_precedence(Precedence::ASSIGNMENT)
    }

    /// Invokes one handler of the rule table.
    fn dispatch(&mut self, parse_fn: ParseFn, is_assignable: bool)
        requires
            old(self).wf(),
            old(self).previous is Some,
            parse_fn == ParseFn::Literal ==> rule_spec(
                old(self).previous.unwrap().token_type,
            ).prefix == Some(ParseFn::Literal),
            parse_fn == ParseFn::Binary ==> rule_spec(
                old(self).previous.unwrap().token_type,
            ).infix == Some(ParseFn::Binary),
        ensures
            final(self).previous is Some,
            final(self).wf(),
            final(self).text() == old(self).text(),
            final(self).pos() >= old(self).pos(),
            final(self).measure() <= old(self).measure(),
            final(self).scope.scope_depth == old(self).scope.scope_depth,
            final(self).errors@.len() >= old(self).errors@.len(),
            (final(self).panic && !old(self).panic) ==> final(self).errors@.len() > old(self).errors@.len(),
            final(self).scope.locals@ == old(self).scope.locals@,
            pool_preserved(
                old(self).chunk.unwrap().const_pool.values@,
                final(self).chunk.unwrap().const_pool.values@,
            ),
            (!old(self).panic && final(self).errors@.len() == old(self).errors@.len()) ==> (
            emits_balanced(
                old(self).chunk.unwrap().code@,
                final(self).chunk.unwrap().code@,
                if parse_fn == ParseFn::Binary {
                    0int
                } else {
                    1int
                },
            ) && operands_in_pool(
                old(self).chunk.unwrap().code@,
                final(self).chunk.unwrap().code@,
                final(self).chunk.unwrap().const_pool.values@.len() as int,
            )),
        decreases self.measure(), 4int,
    {
        match parse_fn {
            ParseFn::Binary => self.binary(),
            ParseFn::Grouping => self.grouping(),
            ParseFn::Number => self.number(),
            ParseFn::Unary => self.unary(),
            ParseFn::Literal => self.literal(),
            ParseFn::Str => self.string(),
            ParseFn::Variable => self.variable(is_assignable),
        }
    }

    /// The handler of a number literal: parses the lexeme and emits the
    /// value as a constant.
    fn number(&mut self)
        requires
            old(self).wf(),
            old(self).previous is Some,
        ensures
            final(self).previous is Some,
            final(self).wf(),
            final(self).text() == old(self).text(),
            final(self).pos() >= old(self).pos(),
            final(self).measure() <= old(self).measure(),
            final(self).scope.scope_depth == old(self).scope.scope_depth,
            crate::numeric::parse_bits(old(self).previous.unwrap().lexem@) matches Some(bits)
                ==> {
                &&& final(self).chunk.unwrap().code@ == old(self).chunk.unwrap().code@.push(
                    opcode_byte(OpCode::OP_CONST),
                ).push((old(self).chunk.unwrap().const_pool.values@.len() as usize) as u8)
                &&& final(self).chunk.unwrap().const_pool.values@ == old(self).chunk.unwrap().const_pool.values@.push(Value::Number(bits))
                &&& final(self).errors@ == old(self).errors@
                &&& final(self).panic == old(self).panic
            },
            crate::numeric::parse_bits(old(self).previous.unwrap().lexem@) is None ==> {
                &&& final(self).chunk == old(self).chunk
                &&& (!old(self).panic ==> (final(self).errors@.len() == old(self).errors@.len()
                    + 1 && last_error_is(
                    final(self),
                    old(self).previous.unwrap(),
                    "Invalid number"@,
                )))
            },
            final(self).errors@.len() >= old(self).errors@.len(),
            (final(self).panic && !old(self).panic) ==> final(self).errors@.len() > old(self).errors@.len(),
            final(self).scope.locals@ == old(self).scope.locals@,
            pool_preserved(
                old(self).chunk.unwrap().const_pool.values@,
                final(self).chunk.unwrap().const_pool.values@,
            ),
            (!old(self).panic && final(self).errors@.len() == old(self).errors@.len()) ==> (
            emits_balanced(
                old(self).chunk.unwrap().code@,
                final(self).chunk.unwrap().code@,
                1,
            ) && operands_in_pool(
                old(self).chunk.unwrap().code@,
                final(self).chunk.unwrap().code@,
                final(self).chunk.unwrap().const_pool.values@.len() as int,
            )),
    {
        let lexem = match &self.previous {
            Some(t) => t.lexem.clone(),
            None => String::new(),
        };
        match crate::numeric::num_parse(lexem.as_str()) {
            Some(bits) => {
                let ghost c0 = self.chunk.unwrap().code@;
                let ghost pool_len = self.chunk.unwrap().const_pool.values@.len();
                let ghost k = (pool_len as usize) as u8;
                self.emit_const(Value::Number(bits));
                proof {
                    lemma_emits_two(c0, OpCode::OP_CONST, k);
                    assert(k as int <= pool_len as int);
                    lemma_operands_two(
                        c0,
                        OpCode::OP_CONST,
                        k,
                        self.chunk.unwrap().const_pool.values@.len() as int,
                    );
                }
            },
            None => {
                self.error_at_previous("Invalid number");
            },
        }
    }

    /// The handler of a parenthesized expression.
    fn grouping(&mut self)
        requires
            old(self).wf(),
        ensures
            final(self).previous is Some,
            final(self).wf(),
            final(self).text() == old(self).text(),
            final(self).pos() >= old(self).pos(),
            final(self).measure() <= old(self).measure(),
            final(self).scope.scope_depth == old(self).scope.scope_depth,
            final(self).errors@.len() >= old(self).errors@.len(),
            (final(self).panic && !old(self).panic) ==> final(self).errors@.len() > old(self).errors@.len(),
            final(self).scope.locals@ == old(self).scope.locals@,
            pool_preserved(
                old(self).chunk.unwrap().const_pool.values@,
                final(self).chunk.unwrap().const_pool.values@,
            ),
            (!old(self).panic && final(self).errors@.len() == old(self).errors@.len()) ==> (
            emits_balanced(
                old(self).chunk.unwrap().code@,
                final(self).chunk.unwrap().code@,
                1,
            ) && operands_in_pool(
                old(self).chunk.unwrap().code@,
                final(self).chunk.unwrap().code@,
                final(self).chunk.unwrap().const_pool.values@.len() as int,
            )),
        decreases self.measure(), 3int,
    {
        self.expression();
        self.consume_if_expected(TokenType::RIGHT_PAREN, "Expect ')' after expression");
    }

    /// The handler of a prefix operator: parses its operand at unary
    /// precedence, then emits the operation.
    fn unary(&mut self)
        requires
            old(self).wf(),
            old(self).previous is Some,
        ensures
            final(self).previous is Some,
            final(self).wf(),
            final(self).text() == old(self).text(),
            final(self).pos() >= old(self).pos(),
            final(self).measure() <= old(self).measure(),
            final(self).scope.scope_depth == old(self).scope.scope_depth,
            final(self).errors@.len() >= old(self).errors@.len(),
            (final(self).panic && !old(self).panic) ==> final(self).errors@.len() > old(self).errors@.len(),
            final(self).scope.locals@ == old(self).scope.locals@,
            pool_preserved(
                old(self).chunk.unwrap().const_pool.values@,
                final(self).chunk.unwrap().const_pool.values@,
            ),
            (!old(self).panic && final(self).errors@.len() == old(self).errors@.len()) ==> (
            emits_balanced(
                old(self).chunk.unwrap().code@,
                final(self).chunk.unwrap().code@,
                1,
            ) && operands_in_pool(
                old(self).chunk.unwrap().code@,
                final(self).chunk.unwrap().code@,
                final(self).chunk.unwrap().const_pool.values@.len() as int,
            )),
            (!old(self).panic && final(self).errors@.len() == old(self).errors@.len()) ==> (
            exists|m: Seq<u8>|
                #![auto]
                stack_effect(m) == Some(1int) && final(self).chunk.unwrap().code@ == old(self).chunk.unwrap().code@ + m + unary_suffix(old(self).previous.unwrap().token_type)),
        decreases self.measure(), 2int,
    {
        let token_type = match &self.previous {
            Some(t) => t.token_type,
            None => TokenType::EOF,
        };
        let ghost c0 = self.chunk.unwrap().code@;

        self.parse_precedence(Precedence::UNARY);
        let ghost c1 = self.chunk.unwrap().code@;
        let ghost mid = c1.subrange(c0.len() as int, c1.len() as int);

        match token_type {
            TokenType::MINUS => {
                self.emit_byte(op_to_byte(OpCode::OP_NEGATE));
                proof {
                    lemma_emits_one(c1, OpCode::OP_NEGATE);
                    let n = self.chunk.unwrap().const_pool.values@.len() as int;
                    lemma_operands_one(c1, OpCode::OP_NEGATE, n);
                    if !old(self).panic && self.errors@.len() == old(self).errors@.len() {
                        lemma_emits_trans(c0, c1, self.chunk.unwrap().code@, 1, 0);
                        lemma_operands_trans(c0, c1, self.chunk.unwrap().code@, n);
                        assert(self.chunk.unwrap().code@ =~= c0 + mid + unary_suffix(token_type));
                    }
                }
            },
            TokenType::BANG => {
                self.emit_byte(op_to_byte(OpCode::OP_NOT));
                proof {
                    lemma_emits_one(c1, OpCode::OP_NOT);
                    let n = self.chunk.unwrap().const_pool.values@.len() as int;
                    lemma_operands_one(c1, OpCode::OP_NOT, n);
                    if !old(self).panic && self.errors@.len() == old(self).errors@.len() {
                        lemma_emits_trans(c0, c1, self.chunk.unwrap().code@, 1, 0);
                        lemma_operands_trans(c0, c1, self.chunk.unwrap().code@, n);
                        assert(self.chunk.unwrap().code@ =~= c0 + mid + unary_suffix(token_type));
                    }
                }
            },
            _ => {
                proof {
                    if !old(self).panic && self.errors@.len() == old(self).errors@.len() {
                        assert(self.chunk.unwrap().code@ =~= c0 + mid + unary_suffix(token_type));
                    }
                }
            },
        }
    }

    /// The handler of an infix operator: parses the right operand one level
    /// above the operator's own, left-associatively, then emits the
    /// operation. `!=`, `>=` and `<=` have no opcode of their own: each is
    /// its positive counterpart followed by `OP_NOT`.
    fn binary(&mut self)
        requires
            old(self).wf(),
            old(self).previous is Some,
            rule_spec(old(self).previous.unwrap().token_type).infix == Some(ParseFn::Binary),
        ensures
            final(self).previous is Some,
            final(self).wf(),
            final(self).text() == old(self).text(),
            final(self).pos() >= old(self).pos(),
            final(self).measure() <= old(self).measure(),
            final(self).scope.scope_depth == old(self).scope.scope_depth,
            final(self).errors@.len() >= old(self).errors@.len(),
            (final(self).panic && !old(self).panic) ==> final(self).errors@.len() > old(self).errors@.len(),
            final(self).scope.locals@ == old(self).scope.locals@,
            pool_preserved(
                old(self).chunk.unwrap().const_pool.values@,
                final(self).chunk.unwrap().const_pool.values@,
            ),
            (!old(self).panic && final(self).errors@.len() == old(self).errors@.len()) ==> (
            emits_balanced(
                old(self).chunk.unwrap().code@,
                final(self).chunk.unwrap().code@,
                0,
            ) && operands_in_pool(
                old(self).chunk.unwrap().code@,
                final(self).chunk.unwrap().code@,
                final(self).chunk.unwrap().const_pool.values@.len() as int,
            )),
            (!old(self).panic && final(self).errors@.len() == old(self).errors@.len()) ==> (
            exists|m: Seq<u8>|
                #![auto]
                stack_effect(m) == Some(1int) && final(self).chunk.unwrap().code@ == old(self).chunk.unwrap().code@ + m + binary_suffix(
                    old(self).previous.unwrap().token_type,
                )),
        decreases self.measure(), 2int,
    {
        let op = match &self.previous {
            Some(t) => t.token_type,
            None => TokenType::EOF,
        };
        proof {
            lemma_rule_table_shape(op);
        }
        let ghost c0 = self.chunk.unwrap().code@;

        let rule = get_rule(&op);
        let next_prec = rule.get_incremented_prec(1);

        let next = match next_prec {
            Some(p) => p,
            None => {
                self.error_at_previous("Invalid precedence");
                return ;
            },
        };

        self.parse_precedence(next);
        let ghost c1 = self.chunk.unwrap().code@;
        let ghost mid = c1.subrange(c0.len() as int, c1.len() as int);

        match op {
            TokenType::PLUS => {
                self.emit_byte(op_to_byte(OpCode::OP_ADD));
                proof {
                    lemma_emits_one(c1, OpCode::OP_ADD);
                    lemma_operands_one(
                        c1,
                        OpCode::OP_ADD,
                        self.chunk.unwrap().const_pool.values@.len() as int,
                    );
                }
            },
            TokenType::MINUS => {
                self.emit_byte(op_to_byte(OpCode::OP_SUB));
                proof {
                    lemma_emits_one(c1, OpCode::OP_SUB);
                    lemma_operands_one(
                        c1,
                        OpCode::OP_SUB,
                        self.chunk.unwrap().const_pool.values@.len() as int,
                    );
                }
            },
            TokenType::STAR => {
                self.emit_byte(op_to_byte(OpCode::OP_MUL));
                proof {
                    lemma_emits_one(c1, OpCode::OP_MUL);
                    lemma_operands_one(
                        c1,
                        OpCode::OP_MUL,
                        self.chunk.unwrap().const_pool.values@.len() as int,
                    );
                }
            },
            TokenType::SLASH => {
                self.emit_byte(op_to_byte(OpCode::OP_DIV));
                proof {
                    lemma_emits_one(c1, OpCode::OP_DIV);
                    lemma_operands_one(
                        c1,
                        OpCode::OP_DIV,
                        self.chunk.unwrap().const_pool.values@.len() as int,
                    );
                }
            },
            TokenType::BANG_EQUAL => {
                self.emit_bytes(op_to_byte(OpCode::OP_EQUAL), op_to_byte(OpCode::OP_NOT));
                proof {
                    lemma_emits_one(c1, OpCode::OP_EQUAL);
                    lemma_emits_one(c1.push(opcode_byte(OpCode::OP_EQUAL)), OpCode::OP_NOT);
                    lemma_emits_trans(
                        c1,
                        c1.push(opcode_byte(OpCode::OP_EQUAL)),
                        self.chunk.unwrap().code@,
                        -1,
                        0,
                    );
                    let n = self.chunk.unwrap().const_pool.values@.len() as int;
                    lemma_operands_one(c1, OpCode::OP_EQUAL, n);
                    lemma_operands_one(c1.push(opcode_byte(OpCode::OP_EQUAL)), OpCode::OP_NOT, n);
                    lemma_operands_trans(
                        c1,
                        c1.push(opcode_byte(OpCode::OP_EQUAL)),
                        self.chunk.unwrap().code@,
                        n,
                    );
                }
            },
            TokenType::EQUAL_EQUAL => {
                self.emit_byte(op_to_byte(OpCode::OP_EQUAL));
                proof {
                    lemma_emits_one(c1, OpCode::OP_EQUAL);
                    lemma_operands_one(
                        c1,
                        OpCode::OP_EQUAL,
                        self.chunk.unwrap().const_pool.values@.len() as int,
                    );
                }
            },
            TokenType::GREATER => {
                self.emit_byte(op_to_byte(OpCode::OP_GREATER));
                proof {
                    lemma_emits_one(c1, OpCode::OP_GREATER);
                    lemma_operands_one(
                        c1,
                        OpCode::OP_GREATER,
                        self.chunk.unwrap().const_pool.values@.len() as int,
                    );
                }
            },
            TokenType::GREATER_EQUAL => {
                self.emit_bytes(op_to_byte(OpCode::OP_LESS), op_to_byte(OpCode::OP_NOT));
                proof {
                    lemma_emits_one(c1, OpCode::OP_LESS);
                    lemma_emits_one(c1.push(opcode_byte(OpCode::OP_LESS)), OpCode::OP_NOT);
                    lemma_emits_trans(
                        c1,
                        c1.push(opcode_byte(OpCode::OP_LESS)),
                        self.chunk.unwrap().code@,
                        -1,
                        0,
                    );
                    let n = self.chunk.unwrap().const_pool.values@.len() as int;
                    lemma_operands_one(c1, OpCode::OP_LESS, n);
                    lemma_operands_one(c1.push(opcode_byte(OpCode::OP_LESS)), OpCode::OP_NOT, n);
                    lemma_operands_trans(
                        c1,
                        c1.push(opcode_byte(OpCode::OP_LESS)),
                        self.chunk.unwrap().code@,
                        n,
                    );
                }
            },
            TokenType::LESS => {
                self.emit_byte(op_to_byte(OpCode::OP_LESS));
                proof {
                    lemma_emits_one(c1, OpCode::OP_LESS);
                    lemma_operands_one(
                        c1,
                        OpCode::OP_LESS,
                        self.chunk.unwrap().const_pool.values@.len() as int,
                    );
                }
            },
            TokenType::LESS_EQUAL => {
                self.emit_bytes(op_to_byte(OpCode::OP_GREATER), op_to_byte(OpCode::OP_NOT));
                proof {
                    lemma_emits_one(c1, OpCode::OP_GREATER);
                    lemma_emits_one(c1.push(opcode_byte(OpCode::OP_GREATER)), OpCode::OP_NOT);
                    lemma_emits_trans(
                        c1,
                        c1.push(opcode_byte(OpCode::OP_GREATER)),
                        self.chunk.unwrap().code@,
                        -1,
                        0,
                    );
                    let n = self.chunk.unwrap().const_pool.values@.len() as int;
                    lemma_operands_one(c1, OpCode::OP_GREATER, n);
                    lemma_operands_one(c1.push(opcode_byte(OpCode::OP_GREATER)), OpCode::OP_NOT, n);
                    lemma_operands_trans(
                        c1,
                        c1.push(opcode_byte(OpCode::OP_GREATER)),
                        self.chunk.unwrap().code@,
                        n,
                    );
                }
            },
            _ => (),
        }
        proof {
            if !old(self).panic && self.errors@.len() == old(self).errors@.len() {
                lemma_emits_trans(c0, c1, self.chunk.unwrap().code@, 1, -1);
                lemma_operands_trans(
                    c0,
                    c1,
                    self.chunk.unwrap().code@,
                    self.chunk.unwrap().const_pool.values@.len() as int,
                );
                assert(self.chunk.unwrap().code@ =~= c0 + mid + binary_suffix(op));
            }
        }
    }

    /// The handler of `nil`, `true` and `false`.
    fn literal(&mut self)
        requires
            old(self).wf(),
            old(self).previous is Some,
            rule_spec(old(self).previous.unwrap().token_type).prefix == Some(ParseFn::Literal),
        ensures
            final(self).previous is Some,
            final(self).wf(),
            final(self).text() == old(self).text(),
            final(self).pos() >= old(self).pos(),
            final(self).measure() <= old(self).measure(),
            final(self).scope.scope_depth == old(self).scope.scope_depth,
            final(self).errors@ == old(self).errors@,
            final(self).panic == old(self).panic,
            final(self).chunk.unwrap().code@ == old(self).chunk.unwrap().code@.push(
                literal_opcode(old(self).previous.unwrap().token_type),
            ),
            final(self).chunk.unwrap().const_pool.values@ == old(self).chunk.unwrap().const_pool.values@,
            final(self).errors@.len() >= old(self).errors@.len(),
            (final(self).panic && !old(self).panic) ==> final(self).errors@.len() > old(self).errors@.len(),
            final(self).scope.locals@ == old(self).scope.locals@,
            pool_preserved(
                old(self).chunk.unwrap().const_pool.values@,
                final(self).chunk.unwrap().const_pool.values@,
            ),
            (!old(self).panic && final(self).errors@.len() == old(self).errors@.len()) ==> (
            emits_balanced(
                old(self).chunk.unwrap().code@,
                final(self).chunk.unwrap().code@,
                1,
            ) && operands_in_pool(
                old(self).chunk.unwrap().code@,
                final(self).chunk.unwrap().code@,
                final(self).chunk.unwrap().const_pool.values@.len() as int,
            )),
    {
        let token_type = match &self.previous {
            Some(t) => t.token_type,
            None => TokenType::EOF,
        };
        let ghost c0 = self.chunk.unwrap().code@;
        match token_type {
            TokenType::FALSE => {
                self.emit_byte(op_to_byte(OpCode::OP_FALSE));
                proof {
                    lemma_emits_one(c0, OpCode::OP_FALSE);
                    lemma_operands_one(
                        c0,
                        OpCode::OP_FALSE,
                        self.chunk.unwrap().const_pool.values@.len() as int,
                    );
                }
            },
            TokenType::NIL => {
                self.emit_byte(op_to_byte(OpCode::OP_NIL));
                proof {
                    lemma_emits_one(c0, OpCode::OP_NIL);
                    lemma_operands_one(
                        c0,
                        OpCode::OP_NIL,
                        self.chunk.unwrap().const_pool.values@.len() as int,
                    );
                }
            },
            TokenType::TRUE => {
                self.emit_byte(op_to_byte(OpCode::OP_TRUE));
                proof {
                    lemma_emits_one(c0, OpCode::OP_TRUE);
                    lemma_operands_one(
                        c0,
                        OpCode::OP_TRUE,
                        self.chunk.unwrap().const_pool.values@.len() as int,
                    );
                }
            },
            _ => (),
        }
    }

    /// The handler of a string literal: strips the quotes and emits the
    /// interned string as a constant.
    fn string(&mut self)
        requires
            old(self).wf(),
            old(self).previous is Some,
        ensures
            final(self).previous is Some,
            final(self).wf(),
            final(self).text() == old(self).text(),
            final(self).pos() >= old(self).pos(),
            final(self).measure() <= old(self).measure(),
            final(self).scope.scope_depth == old(self).scope.scope_depth,
            final(self).errors@ == old(self).errors@,
            final(self).panic == old(self).panic,
            final(self).chunk.unwrap().code@ == old(self).chunk.unwrap().code@.push(
                opcode_byte(OpCode::OP_CONST),
            ).push((old(self).chunk.unwrap().const_pool.values@.len() as usize) as u8),
            final(self).chunk.unwrap().const_pool.values@.len() == old(self).chunk.unwrap().const_pool.values@.len() + 1,
            final(self).chunk.unwrap().const_pool.values@.subrange(
                0,
                old(self).chunk.unwrap().const_pool.values@.len() as int,
            ) == old(self).chunk.unwrap().const_pool.values@,
            (final(self).chunk.unwrap().const_pool.values@.last() matches Value::Str(o)
                && crate::intern::ustr_chars(o.string) == unquote(
                old(self).previous.unwrap().lexem@,
            )),
            final(self).errors@.len() >= old(self).errors@.len(),
            (final(self).panic && !old(self).panic) ==> final(self).errors@.len() > old(self).errors@.len(),
            final(self).scope.locals@ == old(self).scope.locals@,
            pool_preserved(
                old(self).chunk.unwrap().const_pool.values@,
                final(self).chunk.unwrap().const_pool.values@,
            ),
            (!old(self).panic && final(self).errors@.len() == old(self).errors@.len()) ==> (
            emits_balanced(
                old(self).chunk.unwrap().code@,
                final(self).chunk.unwrap().code@,
                1,
            ) && operands_in_pool(
                old(self).chunk.unwrap().code@,
                final(self).chunk.unwrap().code@,
                final(self).chunk.unwrap().const_pool.values@.len() as int,
            )),
    {
        let conv = self.extract_str();
        let interned_value = Value::Str(ObjStr::new(conv.as_str()));
        let ghost c0 = self.chunk.unwrap().code@;
        let ghost pool_len = self.chunk.unwrap().const_pool.values@.len();
        let ghost k = (pool_len as usize) as u8;
        self.emit_const(interned_value);
        proof {
            lemma_emits_two(c0, OpCode::OP_CONST, k);
            assert(k as int <= pool_len as int);
            lemma_operands_two(
                c0,
                OpCode::OP_CONST,
                k,
                self.chunk.unwrap().const_pool.values@.len() as int,
            );
        }
    }

    /// The handler of an identifier in expression position.
    fn variable(&mut self, is_assignable: bool)
        requires
            old(self).wf(),
            old(self).previous is Some,
        ensures
            final(self).previous is Some,
            final(self).wf(),
            final(self).text() == old(self).text(),
            final(self).pos() >= old(self).pos(),
            final(self).measure() <= old(self).measure(),
            final(self).scope.scope_depth == old(self).scope.scope_depth,
            final(self).errors@.len() >= old(self).errors@.len(),
            (final(self).panic && !old(self).panic) ==> final(self).errors@.len() > old(self).errors@.len(),
            final(self).scope.locals@ == old(self).scope.locals@,
            pool_preserved(
                old(self).chunk.unwrap().const_pool.values@,
                final(self).chunk.unwrap().const_pool.values@,
            ),
            (!old(self).panic && final(self).errors@.len() == old(self).errors@.len()) ==> (
            emits_balanced(
                old(self).chunk.unwrap().code@,
                final(self).chunk.unwrap().code@,
                1,
            ) && operands_in_pool(
                old(self).chunk.unwrap().code@,
                final(self).chunk.unwrap().code@,
                final(self).chunk.unwrap().const_pool.values@.len() as int,
            )),
        decreases self.measure(), 3int,
    {
        let name = self.extract_str();
        self.named_variable(name.as_str(), is_assignable);
    }

    /// Emits the access to a named variable: a local by its slot where the
    /// scope tracker finds one, a global through the constant pool
    /// otherwise. When an `=` follows in assignable position, the assigned
    /// expression is parsed first and the set form of the access is emitted.
    fn named_variable(&mut self, name: &str, is_assignable: bool)
        requires
            old(self).wf(),
            old(self).previous is Some,
        ensures
            final(self).previous is Some,
            final(self).wf(),
            final(self).text() == old(self).text(),
            final(self).pos() >= old(self).pos(),
            final(self).measure() <= old(self).measure(),
            final(self).scope.scope_depth == old(self).scope.scope_depth,
            final(self).errors@.len() >= old(self).errors@.len(),
            (final(self).panic && !old(self).panic) ==> final(self).errors@.len() > old(self).errors@.len(),
            final(self).scope.locals@ == old(self).scope.locals@,
            pool_preserved(
                old(self).chunk.unwrap().const_pool.values@,
                final(self).chunk.unwrap().const_pool.values@,
            ),
            (!old(self).panic && final(self).errors@.len() == old(self).errors@.len()) ==> (
            emits_balanced(
                old(self).chunk.unwrap().code@,
                final(self).chunk.unwrap().code@,
                1,
            ) && operands_in_pool(
                old(self).chunk.unwrap().code@,
                final(self).chunk.unwrap().code@,
                final(self).chunk.unwrap().const_pool.values@.len() as int,
            )),
            (!old(self).panic && final(self).errors@.len() == old(self).errors@.len()) ==> {
                &&& (crate::scope::resolve_spec(old(self).scope.locals@, name@)
                    matches LocalResolution::Slot(slot) ==> (final(self).chunk.unwrap().code@
                    == old(self).chunk.unwrap().code@ + seq![
                    opcode_byte(OpCode::OP_GET_LOCAL),
                    slot as u8,
                ] || (exists|m: Seq<u8>|
                    #![auto]
                    stack_effect(m) == Some(1int) && final(self).chunk.unwrap().code@ == old(self).chunk.unwrap().code@ + m + seq![opcode_byte(OpCode::OP_SET_LOCAL), slot as u8])))
                &&& (crate::scope::resolve_spec(old(self).scope.locals@, name@)
                    is Absent ==> {
                    &&& final(self).chunk.unwrap().const_pool.values@.len() > old(self).chunk.unwrap().const_pool.values@.len()
                    &&& (final(self).chunk.unwrap().const_pool.values@[old(self).chunk.unwrap().const_pool.values@.len() as int] matches Value::Str(o)
                        && crate::intern::ustr_chars(o.string) == name@)
                    &&& (final(self).chunk.unwrap().code@ == old(self).chunk.unwrap().code@ + seq![
                        opcode_byte(OpCode::OP_GET_GLOBAL),
                        (old(self).chunk.unwrap().const_pool.values@.len() as usize) as u8,
                    ] || (exists|m: Seq<u8>|
                        #![auto]
                        stack_effect(m) == Some(1int) && final(self).chunk.unwrap().code@ == old(self).chunk.unwrap().code@ + m + seq![
                            opcode_byte(OpCode::OP_SET_GLOBAL),
                            (old(self).chunk.unwrap().const_pool.values@.len() as usize) as u8,
                        ]))
                })
            },
        decreases self.measure(), 2int,
    {
        let resolution = self.resolve_local(name);

        let mut get_op = op_to_byte(OpCode::OP_GET_LOCAL);
        let mut set_op = op_to_byte(OpCode::OP_SET_LOCAL);
        let arg: u8 = match resolution {
            LocalResolution::Slot(slot) => #[verifier::truncate] (slot as u8),
            _ => {
                get_op = op_to_byte(OpCode::OP_GET_GLOBAL);
                set_op = op_to_byte(OpCode::OP_SET_GLOBAL);
                let interned = ObjStr::new(name);
                let index = self.make_const(Value::Str(interned));
                proof {
                    assert(self.chunk.unwrap().const_pool.values@[old(self).chunk.unwrap().const_pool.values@.len() as int] matches Value::Str(o)
                        && crate::intern::ustr_chars(o.string) == name@);
                }
                index
            },
        };
        let ghost c0 = self.chunk.unwrap().code@;
        let ghost p1 = self.chunk.unwrap().const_pool.values@;

        let assigned = if is_assignable {
            self.match_advance(TokenType::EQUAL)
        } else {
            false
        };

        if assigned {
            self.expression();
            let ghost c1 = self.chunk.unwrap().code@;
            self.emit_bytes(set_op, arg);
            proof {
                let n = self.chunk.unwrap().const_pool.values@.len() as int;
                if resolution is Slot {
                    lemma_emits_two(c1, OpCode::OP_SET_LOCAL, arg);
                    lemma_operands_two(c1, OpCode::OP_SET_LOCAL, arg, n);
                } else {
                    lemma_emits_two(c1, OpCode::OP_SET_GLOBAL, arg);
                    assert(arg as int <= old(self).chunk.unwrap().const_pool.values@.len() as int);
                    lemma_operands_two(c1, OpCode::OP_SET_GLOBAL, arg, n);
                }
                if !old(self).panic && self.errors@.len() == old(self).errors@.len() {
                    lemma_emits_trans(c0, c1, self.chunk.unwrap().code@, 1, 0);
                    lemma_operands_trans(c0, c1, self.chunk.unwrap().code@, n);
                    let mid = c1.subrange(c0.len() as int, c1.len() as int);
                    if resolution is Slot {
                        assert(self.chunk.unwrap().code@ =~= c0 + mid + seq![
                            opcode_byte(OpCode::OP_SET_LOCAL),
                            arg,
                        ]);
                    } else {
                        assert(self.chunk.unwrap().code@ =~= c0 + mid + seq![
                            opcode_byte(OpCode::OP_SET_GLOBAL),
                            arg,
                        ]);
                        assert(self.chunk.unwrap().const_pool.values@[old(self).chunk.unwrap().const_pool.values@.len() as int] == p1[old(self).chunk.unwrap().const_pool.values@.len() as int]);
                    }
                }
                assert(pool_preserved(old(self).chunk.unwrap().const_pool.values@, p1));
                assert(pool_preserved(p1, self.chunk.unwrap().const_pool.values@));
                assert(pool_preserved(
                    old(self).chunk.unwrap().const_pool.values@,
                    self.chunk.unwrap().const_pool.values@,
                ));
            }
        } else {
            self.emit_bytes(get_op, arg);
            proof {
                let n = self.chunk.unwrap().const_pool.values@.len() as int;
                if resolution is Slot {
                    lemma_emits_two(c0, OpCode::OP_GET_LOCAL, arg);
                    lemma_operands_two(c0, OpCode::OP_GET_LOCAL, arg, n);
                    assert(self.chunk.unwrap().code@ =~= c0 + seq![
                        opcode_byte(OpCode::OP_GET_LOCAL),
                        arg,
                    ]);
                } else {
                    lemma_emits_two(c0, OpCode::OP_GET_GLOBAL, arg);
                    assert(arg as int <= old(self).chunk.unwrap().const_pool.values@.len() as int);
                    lemma_operands_two(c0, OpCode::OP_GET_GLOBAL, arg, n);
                    assert(self.chunk.unwrap().code@ =~= c0 + seq![
                        opcode_byte(OpCode::OP_GET_GLOBAL),
                        arg,
                    ]);
                }
            }
        }
    }

    /// Resolves a name against the scope tracker, reporting a local read in
    /// its own initializer.
    fn resolve_local(&mut self, name: &str) -> (r: LocalResolution)
        requires
            old(self).wf(),
        ensures
            final(self).wf(),
            r == crate::scope::resolve_spec(old(self).scope.locals@, name@),
            final(self).errors@.len() >= old(self).errors@.len(),
            (final(self).panic && !old(self).panic) ==> final(self).errors@.len() > old(self).errors@.len(),
            !old(self).panic ==> (final(self).errors@.len() > old(self).errors@.len() <==> r
                is OwnInitializer),
            (!old(self).panic && r is OwnInitializer) ==> last_error_is(
                final(self),
                old(self).current.unwrap(),
                "Cannot read local variable '"@ + name@ + "' in its own initializer"@,
            ),
            final(self).scanner == old(self).scanner,
            final(self).current == old(self).current,
            final(self).previous == old(self).previous,
            final(self).chunk == old(self).chunk,
            final(self).scope == old(self).scope,
            final(self).compilation == old(self).compilation,
    {
        let resolution = self.scope.locate_local(name);

        match resolution {
            LocalResolution::OwnInitializer => {
                let mut msg = String::from_str("Cannot read local variable '");
                msg.append(name);
                msg.append("' in its own initializer");
                proof {
                    assert(msg@ =~= "Cannot read local variable '"@ + name@
                        + "' in its own initializer"@);
                }
                self.error_at_current(msg.as_str());
            },
            _ => {},
        }

        resolution
    }

    /// Parses one declaration: a variable declaration or a statement, with
    /// resynchronization after a parse error.
    fn declaration(&mut self)
        requires
            old(self).wf(),
        ensures
            final(self).previous is Some,
            final(self).wf(),
            final(self).text() == old(self).text(),
            final(self).pos() >= old(self).pos(),
            final(self).measure() <= old(self).measure(),
            final(self).scope.scope_depth == old(self).scope.scope_depth,
            old(self).current_type() != TokenType::EOF ==> final(self).measure() < old(self).measure(),
            final(self).errors@.len() >= old(self).errors@.len(),
            (final(self).panic && !old(self).panic) ==> final(self).errors@.len() > old(self).errors@.len(),
            final(self).chunk.unwrap().const_pool.values@.len() >= old(self).chunk.unwrap().const_pool.values@.len(),
            (!old(self).panic && final(self).errors@.len() == old(self).errors@.len()
                && locals_at_most(old(self).scope.locals@, old(self).scope.scope_depth as int))
                ==> {
                ||| (final(self).scope.locals@ == old(self).scope.locals@ && emits_balanced(
                    old(self).chunk.unwrap().code@,
                    final(self).chunk.unwrap().code@,
                    0,
                ) && operands_in_pool(
                    old(self).chunk.unwrap().code@,
                    final(self).chunk.unwrap().code@,
                    final(self).chunk.unwrap().const_pool.values@.len() as int,
                ))
                ||| (old(self).scope.scope_depth > 0 && final(self).scope.locals@.len() == old(self).scope.locals@.len() + 1 && final(self).scope.locals@.subrange(
                    0,
                    old(self).scope.locals@.len() as int,
                ) == old(self).scope.locals@ && final(self).scope.locals@.last().depth == Some(
                    old(self).scope.scope_depth,
                ) && emits_balanced(
                    old(self).chunk.unwrap().code@,
                    final(self).chunk.unwrap().code@,
                    1,
                ) && operands_in_pool(
                    old(self).chunk.unwrap().code@,
                    final(self).chunk.unwrap().code@,
                    final(self).chunk.unwrap().const_pool.values@.len() as int,
                ))
            },
        decreases self.measure(), 1int,
    {
        if self.match_advance(TokenType::VAR) {
            self.var_declaration();
        } else {
            self.statement();
        }

        if self.panic {
            self.synchronize();
        }
    }

    /// Parses one statement: a print statement, a block, or an expression
    /// statement.
    ///
    /// An error-free statement appends stack-neutral code — the operand
    /// stack returns to its pre-statement depth when that code runs — and
    /// leaves the declared locals as it found them.
    fn statement(&mut self)
        requires
            old(self).wf(),
        ensures
            final(self).previous is Some,
            final(self).wf(),
            final(self).text() == old(self).text(),
            final(self).pos() >= old(self).pos(),
            final(self).measure() <= old(self).measure(),
            final(self).scope.scope_depth == old(self).scope.scope_depth,
            old(self).current_type() != TokenType::EOF ==> final(self).measure() < old(self).measure(),
            final(self).errors@.len() >= old(self).errors@.len(),
            (final(self).panic && !old(self).panic) ==> final(self).errors@.len() > old(self).errors@.len(),
            final(self).chunk.unwrap().const_pool.values@.len() >= old(self).chunk.unwrap().const_pool.values@.len(),
            (!old(self).panic && final(self).errors@.len() == old(self).errors@.len()
                && locals_at_most(old(self).scope.locals@, old(self).scope.scope_depth as int))
                ==> (final(self).scope.locals@ == old(self).scope.locals@ && emits_balanced(
                old(self).chunk.unwrap().code@,
                final(self).chunk.unwrap().code@,
                0,
            ) && operands_in_pool(
                old(self).chunk.unwrap().code@,
                final(self).chunk.unwrap().code@,
                final(self).chunk.unwrap().const_pool.values@.len() as int,
            )),
        decreases self.measure(), 0int,
    {
        if self.match_advance(TokenType::PRINT) {
            self.print_statement();
        } else if self.match_advance(TokenType::LEFT_BRACE) {
            proof {
                assert(self.scope.scope_depth < usize::MAX);
            }
            self.scope.begin();
            proof {
                assert(self.depth_ok());
            }
            let ghost c0 = self.chunk.unwrap().code@;
            let ghost l0 = self.scope.locals@;
            let ghost d = self.scope.scope_depth;
            proof {
                assert(locals_at_most(l0, d - 1) ==> locals_at_most(l0, d as int));
            }
            self.block();
            let ghost l1 = self.scope.locals@;
            let ghost cb = self.chunk.unwrap().code@;
            self.end_scope();
            proof {
                if !old(self).panic && self.errors@.len() == old(self).errors@.len()
                    && locals_at_most(l0, d - 1) {
                    assert forall|i: int| l0.len() <= i < l1.len() implies defined_deeper(
                        #[trigger] l1[i],
                        d - 1,
                    ) by {
                        assert(l1[i].depth == Some(d));
                    }
                    assert forall|i: int| 0 <= i < l0.len() implies !defined_deeper(
                        #[trigger] l0[i],
                        d - 1,
                    ) by {}
                    lemma_trim_appended(l0, l1, d - 1);
                    assert(self.scope.locals@ == l0);
                    lemma_emits_trans(
                        c0,
                        cb,
                        self.chunk.unwrap().code@,
                        l1.len() - l0.len(),
                        l0.len() - l1.len(),
                    );
                    lemma_operands_trans(
                        c0,
                        cb,
                        self.chunk.unwrap().code@,
                        self.chunk.unwrap().const_pool.values@.len() as int,
                    );
                }
            }
        } else {
            self.expression_statement();
        }
    }

    /// Parses the declarations of a block up to its closing brace.
    #[verifier::loop_isolation(false)]
    fn block(&mut self)
        requires
            old(self).wf(),
            old(self).previous is Some,
        ensures
            final(self).previous is Some,
            final(self).wf(),
            final(self).text() == old(self).text(),
            final(self).pos() >= old(self).pos(),
            final(self).measure() <= old(self).measure(),
            final(self).scope.scope_depth == old(self).scope.scope_depth,
            final(self).errors@.len() >= old(self).errors@.len(),
            (final(self).panic && !old(self).panic) ==> final(self).errors@.len() > old(self).errors@.len(),
            final(self).chunk.unwrap().const_pool.values@.len() >= old(self).chunk.unwrap().const_pool.values@.len(),
            (!old(self).panic && final(self).errors@.len() == old(self).errors@.len()
                && locals_at_most(old(self).scope.locals@, old(self).scope.scope_depth as int))
                ==> {
                &&& final(self).scope.locals@.len() >= old(self).scope.locals@.len()
                &&& final(self).scope.locals@.subrange(0, old(self).scope.locals@.len() as int)
                    == old(self).scope.locals@
                &&& forall|i: int|
                    old(self).scope.locals@.len() <= i < final(self).scope.locals@.len() ==> (
                    #[trigger] final(self).scope.locals@[i]).depth == Some(
                        old(self).scope.scope_depth,
                    )
                &&& emits_balanced(
                    old(self).chunk.unwrap().code@,
                    final(self).chunk.unwrap().code@,
                    final(self).scope.locals@.len() - old(self).scope.locals@.len(),
                )
                &&& operands_in_pool(
                    old(self).chunk.unwrap().code@,
                    final(self).chunk.unwrap().code@,
                    final(self).chunk.unwrap().const_pool.values@.len() as int,
                )
            },
        decreases self.measure(), 2int,
    {
        let ghost c0 = self.chunk.unwrap().code@;
        let ghost l0 = self.scope.locals@;
        proof {
            lemma_emits_refl(c0);
            lemma_operands_refl(c0, self.chunk.unwrap().const_pool.values@.len() as int);
            assert(l0.subrange(0, l0.len() as int) =~= l0);
        }
        while !self.check(TokenType::RIGHT_BRACE) && !self.check(TokenType::EOF)
            invariant
                self.wf(),
                self.previous is Some,
                self.text() == old(self).text(),
                self.pos() >= old(self).pos(),
                self.measure() <= old(self).measure(),
                self.scope.scope_depth == old(self).scope.scope_depth,
                self.errors@.len() >= old(self).errors@.len(),
                (self.panic && !old(self).panic) ==> self.errors@.len() > old(self).errors@.len(),
                self.chunk.unwrap().const_pool.values@.len() >= old(self).chunk.unwrap().const_pool.values@.len(),
                (!old(self).panic && self.errors@.len() == old(self).errors@.len()
                    && locals_at_most(l0, old(self).scope.scope_depth as int)) ==> {
                    &&& self.scope.locals@.len() >= l0.len()
                    &&& self.scope.locals@.subrange(0, l0.len() as int) == l0
                    &&& forall|i: int|
                        l0.len() <= i < self.scope.locals@.len() ==> (
                        #[trigger] self.scope.locals@[i]).depth == Some(
                            old(self).scope.scope_depth,
                        )
                    &&& emits_balanced(
                        c0,
                        self.chunk.unwrap().code@,
                        self.scope.locals@.len() - l0.len(),
                    )
                    &&& operands_in_pool(
                        c0,
                        self.chunk.unwrap().code@,
                        self.chunk.unwrap().const_pool.values@.len() as int,
                    )
                },
            decreases self.measure(),
        {
            let ghost cb = self.chunk.unwrap().code@;
            let ghost lb = self.scope.locals@;
            let ghost np = self.chunk.unwrap().const_pool.values@.len() as int;
            proof {
                if !old(self).panic && self.errors@.len() == old(self).errors@.len()
                    && locals_at_most(l0, old(self).scope.scope_depth as int) {
                    assert forall|i: int| 0 <= i < lb.len() implies ((#[trigger] lb[i]).depth
                        matches Some(x) ==> x <= self.scope.scope_depth as int) by {
                        if i < l0.len() {
                            assert(lb[i] == lb.subrange(0, l0.len() as int)[i]);
                            assert(lb[i] == l0[i]);
                        } else {
                            assert(lb[i].depth == Some(old(self).scope.scope_depth));
                        }
                    }
                    assert(locals_at_most(lb, self.scope.scope_depth as int));
                }
            }
            self.declaration();
            proof {
                if !old(self).panic && self.errors@.len() == old(self).errors@.len()
                    && locals_at_most(l0, old(self).scope.scope_depth as int) {
                    let lf = self.scope.locals@;
                    let n = self.chunk.unwrap().const_pool.values@.len() as int;
                    lemma_operands_mono(c0, cb, np, n);
                    lemma_operands_trans(c0, cb, self.chunk.unwrap().code@, n);
                    if lf == lb {
                        lemma_emits_trans(
                            c0,
                            cb,
                            self.chunk.unwrap().code@,
                            lb.len() - l0.len(),
                            0,
                        );
                    } else {
                        assert(lf.len() == lb.len() + 1);
                        assert(lf.subrange(0, lb.len() as int) == lb);
                        assert forall|i: int| 0 <= i < l0.len() implies lf[i] == l0[i] by {
                            assert(lf[i] == lf.subrange(0, lb.len() as int)[i]);
                            assert(lb[i] == lb.subrange(0, l0.len() as int)[i]);
                        }
                        assert(lf.subrange(0, l0.len() as int) =~= l0);
                        assert forall|i: int|
                            l0.len() <= i < lf.len() implies (#[trigger] lf[i]).depth == Some(
                            old(self).scope.scope_depth,
                        ) by {
                            if i < lb.len() {
                                assert(lf[i] == lf.subrange(0, lb.len() as int)[i]);
                                assert(lf[i] == lb[i]);
                            } else {
                                assert(lf[i] == lf.last());
                            }
                        }
                        lemma_emits_trans(
                            c0,
                            cb,
                            self.chunk.unwrap().code@,
                            lb.len() - l0.len(),
                            1,
                        );
                    }
                }
            }
        }

        self.consume_if_expected(TokenType::RIGHT_BRACE, "Expect '}' after block.");
    }

    /// Leaves the block's scope and pops each local that went out of scope.
    #[verifier::loop_isolation(false)]
    fn end_scope(&mut self)
        requires
            old(self).wf(),
            old(self).previous is Some,
            old(self).scope.scope_depth >= 1,
        ensures
            final(self).wf(),
            final(self).previous == old(self).previous,
            final(self).text() == old(self).text(),
            final(self).pos() == old(self).pos(),
            final(self).measure() == old(self).measure(),
            final(self).scope.scope_depth == old(self).scope.scope_depth - 1,
            final(self).scope.locals@ == trim_locals(
                old(self).scope.locals@,
                old(self).scope.scope_depth - 1,
            ),
            final(self).errors@ == old(self).errors@,
            final(self).panic == old(self).panic,
            final(self).chunk.unwrap().const_pool.values@ == old(self).chunk.unwrap().const_pool.values@,
            emits_balanced(
                old(self).chunk.unwrap().code@,
                final(self).chunk.unwrap().code@,
                final(self).scope.locals@.len() - old(self).scope.locals@.len(),
            ),
            operands_in_pool(
                old(self).chunk.unwrap().code@,
                final(self).chunk.unwrap().code@,
                final(self).chunk.unwrap().const_pool.values@.len() as int,
            ),
    {
        let ghost c0 = self.chunk.unwrap().code@;
        let pop_count = self.scope.end();
        let ghost scope_after = self.scope;
        proof {
            lemma_emits_refl(c0);
            lemma_operands_refl(c0, self.chunk.unwrap().const_pool.values@.len() as int);
        }

        let mut i: usize = 0;
        while i < pop_count
            invariant
                self.wf(),
                i <= pop_count,
                self.previous == old(self).previous,
                self.text() == old(self).text(),
                self.pos() == old(self).pos(),
                self.current == old(self).current,
                self.errors@ == old(self).errors@,
                self.panic == old(self).panic,
                self.scope == scope_after,
                self.scope.scope_depth == old(self).scope.scope_depth - 1,
                self.chunk.unwrap().const_pool.values@ == old(self).chunk.unwrap().const_pool.values@,
                emits_balanced(c0, self.chunk.unwrap().code@, -(i as int)),
                operands_in_pool(
                    c0,
                    self.chunk.unwrap().code@,
                    self.chunk.unwrap().const_pool.values@.len() as int,
                ),
            decreases pop_count - i,
        {
            let ghost cb = self.chunk.unwrap().code@;
            self.emit_byte(op_to_byte(OpCode::OP_POP));
            proof {
                lemma_emits_one(cb, OpCode::OP_POP);
                lemma_emits_trans(c0, cb, self.chunk.unwrap().code@, -(i as int), -1);
                let n = self.chunk.unwrap().const_pool.values@.len() as int;
                lemma_operands_one(cb, OpCode::OP_POP, n);
                lemma_operands_trans(c0, cb, self.chunk.unwrap().code@, n);
            }
            i = i + 1;
        }
    }

    /// Parses a print statement: the expression, the semicolon, then
    /// `OP_PRINT`.
    fn print_statement(&mut self)
        requires
            old(self).wf(),
        ensures
            final(self).previous is Some,
            final(self).wf(),
            final(self).text() == old(self).text(),
            final(self).pos() >= old(self).pos(),
            final(self).measure() <= old(self).measure(),
            final(self).scope.scope_depth == old(self).scope.scope_depth,
            final(self).scope.locals@ == old(self).scope.locals@,
            final(self).errors@.len() >= old(self).errors@.len(),
            (final(self).panic && !old(self).panic) ==> final(self).errors@.len() > old(self).errors@.len(),
            final(self).chunk.unwrap().const_pool.values@.len() >= old(self).chunk.unwrap().const_pool.values@.len(),
            (!old(self).panic && final(self).errors@.len() == old(self).errors@.len()) ==> (
            emits_balanced(
                old(self).chunk.unwrap().code@,
                final(self).chunk.unwrap().code@,
                0,
            ) && operands_in_pool(
                old(self).chunk.unwrap().code@,
                final(self).chunk.unwrap().code@,
                final(self).chunk.unwrap().const_pool.values@.len() as int,
            )),
    {
        let ghost c0 = self.chunk.unwrap().code@;
        self.expression();
        self.consume_if_expected(TokenType::SEMICOLON, "Expect ';' after value.");
        let ghost c1 = self.chunk.unwrap().code@;
        self.emit_byte(op_to_byte(OpCode::OP_PRINT));
        proof {
            lemma_emits_one(c1, OpCode::OP_PRINT);
            let n = self.chunk.unwrap().const_pool.values@.len() as int;
            lemma_operands_one(c1, OpCode::OP_PRINT, n);
            if !old(self).panic && self.errors@.len() == old(self).errors@.len() {
                lemma_emits_trans(c0, c1, self.chunk.unwrap().code@, 1, -1);
                lemma_operands_trans(c0, c1, self.chunk.unwrap().code@, n);
            }
        }
    }

    /// Parses an expression statement: the expression, the semicolon, then
    /// `OP_POP`.
    fn expression_statement(&mut self)
        requires
            old(self).wf(),
        ensures
            final(self).previous is Some,
            final(self).wf(),
            final(self).text() == old(self).text(),
            final(self).pos() >= old(self).pos(),
            final(self).measure() <= old(self).measure(),
            final(self).scope.scope_depth == old(self).scope.scope_depth,
            final(self).scope.locals@ == old(self).scope.locals@,
            old(self).current_type() != TokenType::EOF ==> final(self).measure() < old(self).measure(),
            final(self).errors@.len() >= old(self).errors@.len(),
            (final(self).panic && !old(self).panic) ==> final(self).errors@.len() > old(self).errors@.len(),
            final(self).chunk.unwrap().const_pool.values@.len() >= old(self).chunk.unwrap().const_pool.values@.len(),
            (!old(self).panic && final(self).errors@.len() == old(self).errors@.len()) ==> (
            emits_balanced(
                old(self).chunk.unwrap().code@,
                final(self).chunk.unwrap().code@,
                0,
            ) && operands_in_pool(
                old(self).chunk.unwrap().code@,
                final(self).chunk.unwrap().code@,
                final(self).chunk.unwrap().const_pool.values@.len() as int,
            )),
    {
        let ghost c0 = self.chunk.unwrap().code@;
        self.expression();
        self.consume_if_expected(TokenType::SEMICOLON, "Expect ';' after expression.");
        let ghost c1 = self.chunk.unwrap().code@;
        self.emit_byte(op_to_byte(OpCode::OP_POP));
        proof {
            lemma_emits_one(c1, OpCode::OP_POP);
            let n = self.chunk.unwrap().const_pool.values@.len() as int;
            lemma_operands_one(c1, OpCode::OP_POP, n);
            if !old(self).panic && self.errors@.len() == old(self).errors@.len() {
                lemma_emits_trans(c0, c1, self.chunk.unwrap().code@, 1, -1);
                lemma_operands_trans(c0, c1, self.chunk.unwrap().code@, n);
            }
        }
    }

    /// Parses a variable declaration: the name, the initializer or an
    /// implicit `nil`, the semicolon, then the definition.
    fn var_declaration(&mut self)
        requires
            old(self).wf(),
            old(self).previous is Some,
        ensures
            final(self).previous is Some,
            final(self).wf(),
            final(self).text() == old(self).text(),
            final(self).pos() >= old(self).pos(),
            final(self).measure() <= old(self).measure(),
            final(self).scope.scope_depth == old(self).scope.scope_depth,
            final(self).errors@.len() >= old(self).errors@.len(),
            (final(self).panic && !old(self).panic) ==> final(self).errors@.len() > old(self).errors@.len(),
            final(self).chunk.unwrap().const_pool.values@.len() >= old(self).chunk.unwrap().const_pool.values@.len(),
            (!old(self).panic && final(self).errors@.len() == old(self).errors@.len()) ==> {
                &&& (old(self).scope.scope_depth == 0 ==> (final(self).scope.locals@ == old(self).scope.locals@
                    && emits_balanced(
                    old(self).chunk.unwrap().code@,
                    final(self).chunk.unwrap().code@,
                    0,
                ) && operands_in_pool(
                    old(self).chunk.unwrap().code@,
                    final(self).chunk.unwrap().code@,
                    final(self).chunk.unwrap().const_pool.values@.len() as int,
                )))
                &&& (old(self).scope.scope_depth > 0 ==> {
                    &&& final(self).scope.locals@.len() == old(self).scope.locals@.len() + 1
                    &&& final(self).scope.locals@.subrange(
                        0,
                        old(self).scope.locals@.len() as int,
                    ) == old(self).scope.locals@
                    &&& final(self).scope.locals@.last().depth == Some(old(self).scope.scope_depth)
                    &&& emits_balanced(
                        old(self).chunk.unwrap().code@,
                        final(self).chunk.unwrap().code@,
                        1,
                    )
                    &&& operands_in_pool(
                        old(self).chunk.unwrap().code@,
                        final(self).chunk.unwrap().code@,
                        final(self).chunk.unwrap().const_pool.values@.len() as int,
                    )
                })
            },
            (!old(self).panic && final(self).errors@.len() == old(self).errors@.len() && old(self).scope.scope_depth == 0 && old(self).current_type() == TokenType::IDENTIFIER) ==> {
                &&& final(self).chunk.unwrap().const_pool.values@.len() > old(self).chunk.unwrap().const_pool.values@.len()
                &&& (final(self).chunk.unwrap().const_pool.values@[old(self).chunk.unwrap().const_pool.values@.len() as int] matches Value::Str(o)
                    && crate::intern::ustr_chars(o.string) == unquote(
                    old(self).current.unwrap().lexem@,
                ))
                &&& (exists|m: Seq<u8>|
                    #![auto]
                    stack_effect(m) == Some(1int) && final(self).chunk.unwrap().code@ == old(self).chunk.unwrap().code@ + m + seq![
                        opcode_byte(OpCode::OP_DEF_GLOBAL),
                        (old(self).chunk.unwrap().const_pool.values@.len() as usize) as u8,
                    ])
            },
    {
        let ghost c0 = self.chunk.unwrap().code@;
        let ghost l0 = self.scope.locals@;
        let ghost p0 = self.chunk.unwrap().const_pool.values@;
        let global = self.parse_var("Expect variable name.");
        let ghost l1 = self.scope.locals@;
        let ghost p1 = self.chunk.unwrap().const_pool.values@;

        if self.match_advance(TokenType::EQUAL) {
            self.expression();
        } else {
            let ghost cb = self.chunk.unwrap().code@;
            self.emit_byte(op_to_byte(OpCode::OP_NIL));
            proof {
                lemma_emits_one(cb, OpCode::OP_NIL);
                lemma_operands_one(
                    cb,
                    OpCode::OP_NIL,
                    self.chunk.unwrap().const_pool.values@.len() as int,
                );
            }
        }

        self.consume_if_expected(
            TokenType::SEMICOLON,
            "Expect ';' after variable declaration",
        );
        let ghost c2 = self.chunk.unwrap().code@;
        let ghost p2 = self.chunk.unwrap().const_pool.values@;
        self.define_var(global);
        proof {
            if !old(self).panic && self.errors@.len() == old(self).errors@.len() {
                if old(self).scope.scope_depth == 0 {
                    lemma_emits_trans(c0, c2, self.chunk.unwrap().code@, 1, -1);
                    let n = self.chunk.unwrap().const_pool.values@.len() as int;
                    assert(old(self).current_type() == TokenType::IDENTIFIER);
                    assert(global == (p0.len() as usize) as u8);
                    assert((global as int) <= p0.len() as int);
                    assert(p1.len() == p0.len() + 1);
                    assert(n >= p1.len());
                    assert((global as int) < p2.len() as int);
                    lemma_operands_mono(c0, c2, p2.len() as int, n);
                    lemma_operands_trans(c0, c2, self.chunk.unwrap().code@, n);
                    if old(self).current_type() == TokenType::IDENTIFIER {
                        let mid = c2.subrange(c0.len() as int, c2.len() as int);
                        assert(self.chunk.unwrap().code@ =~= c0 + mid + seq![
                            opcode_byte(OpCode::OP_DEF_GLOBAL),
                            global,
                        ]);
                        assert(p1[p0.len() as int] == p1.last());
                        assert(p2[p0.len() as int] == p1[p0.len() as int]);
                        assert(self.chunk.unwrap().const_pool.values@[p0.len() as int]
                            == p2[p0.len() as int]);
                    }
                } else {
                    assert(self.scope.locals@ == l1.update(
                        l1.len() - 1,
                        Local {
                            name: l1.last().name,
                            depth: Some(old(self).scope.scope_depth),
                        },
                    ));
                    assert(self.scope.locals@.subrange(0, l0.len() as int) =~= l0);
                    assert(self.scope.locals@.last().depth == Some(old(self).scope.scope_depth));
                    assert(self.chunk.unwrap().code@ == c2);
                    assert(operands_in_pool(
                        c0,
                        self.chunk.unwrap().code@,
                        self.chunk.unwrap().const_pool.values@.len() as int,
                    ));
                }
            }
        }
    }

    /// Consumes the variable's name and declares it; at global scope the
    /// name goes into the constant pool and its index comes back.
    fn parse_var(&mut self, error_msg: &str) -> (global: u8)
        requires
            old(self).wf(),
            old(self).previous is Some,
        ensures
            final(self).previous is Some,
            final(self).wf(),
            final(self).text() == old(self).text(),
            final(self).pos() >= old(self).pos(),
            final(self).measure() <= old(self).measure(),
            final(self).scope.scope_depth == old(self).scope.scope_depth,
            final(self).chunk.unwrap().code@ == old(self).chunk.unwrap().code@,
            final(self).errors@.len() >= old(self).errors@.len(),
            (final(self).panic && !old(self).panic) ==> final(self).errors@.len() > old(self).errors@.len(),
            final(self).chunk.unwrap().const_pool.values@.len() >= old(self).chunk.unwrap().const_pool.values@.len(),
            (!old(self).panic && final(self).errors@.len() == old(self).errors@.len()) ==> {
                &&& (old(self).scope.scope_depth == 0 ==> final(self).scope.locals@ == old(self).scope.locals@)
                &&& (old(self).scope.scope_depth > 0 ==> {
                    &&& final(self).scope.locals@.len() == old(self).scope.locals@.len() + 1
                    &&& final(self).scope.locals@.subrange(
                        0,
                        old(self).scope.locals@.len() as int,
                    ) == old(self).scope.locals@
                    &&& final(self).scope.locals@.last().depth is None
                })
            },
            (!old(self).panic && old(self).current_type() != TokenType::IDENTIFIER) ==> final(self).errors@.len() > old(self).errors@.len(),
            (!old(self).panic && final(self).errors@.len() == old(self).errors@.len() && old(self).scope.scope_depth == 0 && old(self).current_type() == TokenType::IDENTIFIER) ==> {
                &&& final(self).chunk.unwrap().const_pool.values@.len() == old(self).chunk.unwrap().const_pool.values@.len() + 1
                &&& (final(self).chunk.unwrap().const_pool.values@.last() matches Value::Str(o)
                    && crate::intern::ustr_chars(o.string) == unquote(
                    old(self).current.unwrap().lexem@,
                ))
                &&& final(self).chunk.unwrap().const_pool.values@.subrange(
                    0,
                    old(self).chunk.unwrap().const_pool.values@.len() as int,
                ) == old(self).chunk.unwrap().const_pool.values@
                &&& global == (old(self).chunk.unwrap().const_pool.values@.len() as usize) as u8
            },
    {
        self.consume_if_expected(TokenType::IDENTIFIER, error_msg);
        let var_name = self.extract_str();

        self.declare_var();
        if !self.scope.is_global() {
            return 0;
        }

        let interned = ObjStr::new(var_name.as_str());
        let index = self.make_const(Value::Str(interned));
        proof {
            assert(self.chunk.unwrap().const_pool.values@.subrange(
                0,
                old(self).chunk.unwrap().const_pool.values@.len() as int,
            ) =~= old(self).chunk.unwrap().const_pool.values@);
        }
        index
    }

    /// Declares a local at local scope, rejecting a name already declared in
    /// the same scope; at global scope there is nothing to track.
    fn declare_var(&mut self)
        requires
            old(self).wf(),
            old(self).previous is Some,
        ensures
            final(self).previous is Some,
            final(self).wf(),
            final(self).text() == old(self).text(),
            final(self).pos() == old(self).pos(),
            final(self).measure() == old(self).measure(),
            final(self).scope.scope_depth == old(self).scope.scope_depth,
            final(self).chunk == old(self).chunk,
            final(self).errors@.len() >= old(self).errors@.len(),
            (final(self).panic && !old(self).panic) ==> final(self).errors@.len() > old(self).errors@.len(),
            !old(self).panic ==> (final(self).errors@.len() > old(self).errors@.len() <==> (old(self).scope.scope_depth > 0
                && crate::scope::declared_here_spec(
                old(self).scope.locals@,
                old(self).previous.unwrap().lexem@,
                old(self).scope.scope_depth as int,
            ))),
            (!old(self).panic && old(self).scope.scope_depth > 0 && crate::scope::declared_here_spec(
                old(self).scope.locals@,
                old(self).previous.unwrap().lexem@,
                old(self).scope.scope_depth as int,
            )) ==> last_error_is(
                final(self),
                old(self).current.unwrap(),
                "Variable with name '"@ + old(self).previous.unwrap().lexem@
                    + "' already declared in this scope"@,
            ),
            old(self).scope.scope_depth == 0 ==> final(self).scope.locals@ == old(self).scope.locals@,
            old(self).scope.scope_depth > 0 ==> {
                &&& final(self).scope.locals@.len() == old(self).scope.locals@.len() + 1
                &&& final(self).scope.locals@.subrange(0, old(self).scope.locals@.len() as int)
                    == old(self).scope.locals@
                &&& final(self).scope.locals@.last().depth is None
            },
    {
        if self.scope.is_global() {
            return ;
        }

        let name = match &self.previous {
            Some(t) => t.clone(),
            None => Token::eof(0),
        };

        if self.scope.declared_in_scope(name.lexem.as_str()) {
            let mut msg = String::from_str("Variable with name '");
            msg.append(name.lexem.as_str());
            msg.append("' already declared in this scope");
            proof {
                assert(msg@ =~= "Variable with name '"@ + name.lexem@
                    + "' already declared in this scope"@);
            }
            self.error_at_current(msg.as_str());
        }

        let ghost l0 = self.scope.locals@;
        self.scope.add_local(name);
        proof {
            assert(self.scope.locals@.subrange(0, l0.len() as int) =~= l0);
        }
    }

    /// Defines the declared variable: at local scope the value already sits
    /// in its slot, so the local is only marked defined; at global scope
    /// `OP_DEF_GLOBAL` moves it into the global table.
    fn define_var(&mut self, global: u8)
        requires
            old(self).wf(),
            old(self).previous is Some,
        ensures
            final(self).previous is Some,
            final(self).wf(),
            final(self).text() == old(self).text(),
            final(self).pos() == old(self).pos(),
            final(self).measure() == old(self).measure(),
            final(self).scope.scope_depth == old(self).scope.scope_depth,
            final(self).errors@ == old(self).errors@,
            final(self).panic == old(self).panic,
            old(self).scope.scope_depth == 0 ==> (final(self).scope.locals@ == old(self).scope.locals@
                && final(self).chunk.unwrap().code@ == old(self).chunk.unwrap().code@.push(
                opcode_byte(OpCode::OP_DEF_GLOBAL),
            ).push(global) && final(self).chunk.unwrap().const_pool.values@ == old(self).chunk.unwrap().const_pool.values@ && emits_balanced(
                old(self).chunk.unwrap().code@,
                final(self).chunk.unwrap().code@,
                -1,
            )),
            (old(self).scope.scope_depth == 0 && (global as int) < old(self).chunk.unwrap().const_pool.values@.len()) ==> operands_in_pool(
                old(self).chunk.unwrap().code@,
                final(self).chunk.unwrap().code@,
                final(self).chunk.unwrap().const_pool.values@.len() as int,
            ),
            old(self).scope.scope_depth > 0 ==> {
                &&& final(self).chunk == old(self).chunk
                &&& final(self).scope.locals@.len() == old(self).scope.locals@.len()
                &&& (old(self).scope.locals@.len() > 0 ==> final(self).scope.locals@ == old(self).scope.locals@.update(
                    old(self).scope.locals@.len() - 1,
                    Local {
                        name: old(self).scope.locals@.last().name,
                        depth: Some(old(self).scope.scope_depth),
                    },
                ))
            },
    {
        if !self.scope.is_global() {
            if self.scope.locals.len() > 0 {
                self.scope.define_last();
            }
            return ;
        }
        let ghost c0 = self.chunk.unwrap().code@;
        self.emit_bytes(op_to_byte(OpCode::OP_DEF_GLOBAL), global);
        proof {
            lemma_emits_two(c0, OpCode::OP_DEF_GLOBAL, global);
            let n = self.chunk.unwrap().const_pool.values@.len() as int;
            if (global as int) < n {
                lemma_operands_two(c0, OpCode::OP_DEF_GLOBAL, global, n);
            }
        }
    }

    /// Skips tokens after a parse error until a likely statement boundary: a
    /// semicolon just consumed, or a keyword that can begin a statement.
    #[verifier::loop_isolation(false)]
    fn synchronize(&mut self)
        requires
            old(self).wf(),
            old(self).previous is Some,
        ensures
            final(self).previous is Some,
            final(self).wf(),
            final(self).errors@.len() >= old(self).errors@.len(),
            final(self).errors@.len() == old(self).errors@.len() ==> !final(self).panic,
            (final(self).previous.unwrap().token_type == TokenType::SEMICOLON || final(self).current_type() == TokenType::EOF || final(self).current_type() == TokenType::CLASS
                || final(self).current_type() == TokenType::FUN || final(self).current_type()
                == TokenType::VAR || final(self).current_type() == TokenType::FOR || final(self).current_type() == TokenType::IF || final(self).current_type() == TokenType::WHILE
                || final(self).current_type() == TokenType::PRINT || final(self).current_type()
                == TokenType::RETURN),
            final(self).chunk == old(self).chunk,
            final(self).scope == old(self).scope,
            final(self).text() == old(self).text(),
            final(self).pos() >= old(self).pos(),
            final(self).measure() <= old(self).measure(),
            final(self).scope.scope_depth == old(self).scope.scope_depth,
    {
        self.panic = false;

        while !self.check(TokenType::EOF)
            invariant
                self.wf(),
                self.previous is Some,
                self.errors@.len() >= old(self).errors@.len(),
                self.errors@.len() == old(self).errors@.len() ==> !self.panic,
                self.chunk == old(self).chunk,
                self.scope == old(self).scope,
                self.text() == old(self).text(),
                self.pos() >= old(self).pos(),
                self.measure() <= old(self).measure(),
                self.scope.scope_depth == old(self).scope.scope_depth,
            decreases self.measure(),
        {
            if self.check_previous(TokenType::SEMICOLON) {
                return ;
            }

            let boundary = match &self.current {
                Some(t) => match t.token_type {
                    TokenType::CLASS => true,
                    TokenType::FUN => true,
                    TokenType::VAR => true,
                    TokenType::FOR => true,
                    TokenType::IF => true,
                    TokenType::WHILE => true,
                    TokenType::PRINT => true,
                    TokenType::RETURN => true,
                    _ => false,
                },
                None => false,
            };
            if boundary {
                return ;
            }

            self.advance();
        }
    }
}

} // verus!
