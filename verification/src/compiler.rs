use vstd::prelude::*;
use vstd::slice::{slice_subrange, slice_to_vec};
use vstd::string::*;
use crate::chunk::{Chunk, Opcode};
use crate::gen_laws::{coded, keeps, lemma_gen_top_failed, lemma_program_sealed, sealed};
use crate::codegen::{
    decimal, emit_leaf, gen, gen_rest, gen_top, height, int_value, is_decimal, literal_op, load,
    operator_op, patch, program, put, put_op, takes_two, text, Output, MAX_CONSTANTS, MAX_TARGET,
};
pub use crate::parser::{
    ast_advance, ast_error_at, ast_error_at_current, ast_expression, build_ast, ASTParser,
};
use crate::parser::{parse, parse_fails, parses, Diagnostic, Place};
use crate::token::{Token, TokenType};
use crate::tree::Ast;
use crate::value::ConstantType;

verus! {

/// The state of a code generator: whether it has met an error, whether it is
/// passing over errors in silence, and the errors to report.
#[derive(Debug)]
pub struct Generator {
    pub current: Option<Token>,
    pub had_error: bool,
    pub panic_mode: bool,
    pub diagnostics: Vec<Diagnostic>,
}

/// A local variable: the token that names it and the depth of its scope.
#[derive(Debug)]
pub struct Local {
    pub depth: u8,
    pub name: Token,
}

/// The local variables in scope, and the depth of the innermost scope.
#[derive(Debug)]
pub struct Compiler {
    pub local_count: u8,
    pub scope_depth: u8,
    pub locals: Vec<Local>,
}

/// A generator that has met no error.
pub fn init_generator() -> (generator: Generator)
    ensures
        generator.current.is_none(),
        !generator.had_error,
        !generator.panic_mode,
        generator.diagnostics@.len() == 0,
        generator.reported(),
{
    Generator { current: None, had_error: false, panic_mode: false, diagnostics: Vec::new() }
}

/// Enters a scope.
pub fn begin_scope(compiler: &mut Compiler)
    requires
        old(compiler).scope_depth < u8::MAX,
    ensures
        final(compiler).scope_depth == old(compiler).scope_depth + 1,
        final(compiler).local_count == old(compiler).local_count,
        final(compiler).locals == old(compiler).locals,
{
    compiler.scope_depth += 1
}

/// Leaves a scope.
pub fn end_scope(compiler: &mut Compiler)
    requires
        old(compiler).scope_depth > 0,
    ensures
        final(compiler).scope_depth == old(compiler).scope_depth - 1,
        final(compiler).local_count == old(compiler).local_count,
        final(compiler).locals == old(compiler).locals,
{
    compiler.scope_depth -= 1
}

impl Generator {
    /// Whether the generator's errors are on record: it has met an error
    /// exactly if it holds one to report, and it passes over errors in silence
    /// only after it has met one.
    pub open spec fn reported(&self) -> bool {
        (self.had_error <==> self.diagnostics@.len() > 0) && (self.panic_mode
            ==> self.had_error)
    }
}

/// What a chunk and its generator have produced.
pub open spec fn output(chunk: &Chunk, generator: &Generator) -> Output {
    Output {
        code: chunk.code@,
        lines: chunk.lines@,
        pool: chunk.pool(),
        failed: generator.had_error,
    }
}

/// The bytes of the source from `start` on, `length` of them, where the
/// source holds them.
pub fn text_of(source: &[u8], start: usize, length: usize) -> (bytes: Option<Vec<u8>>)
    ensures
        bytes.is_some() == text(source@, start as int, length as int).is_some(),
        bytes matches Some(b) ==> Some(b@) == text(source@, start as int, length as int),
{
    if length <= source.len() && start <= source.len() - length {
        Some(slice_to_vec(slice_subrange(source, start, start + length)))
    } else {
        None
    }
}

/// A number with one more digit is no less than the number.
pub proof fn lemma_decimal_grows(digits: Seq<u8>, i: int, j: int)
    requires
        0 <= i <= j <= digits.len(),
    ensures
        decimal(digits.take(i)) <= decimal(digits.take(j)),
    decreases j - i,
{
    if i < j {
        lemma_decimal_grows(digits, i, j - 1);
        assert(digits.take(j).drop_last() =~= digits.take(j - 1));
    }
}

/// The integer that the bytes denote; see [`int_value`].
pub fn parse_int(digits: &[u8]) -> (value: Option<i64>)
    ensures
        value == int_value(digits@),
{
    if digits.len() == 0 {
        return None;
    }
    let mut value: i64 = 0;
    let mut i: usize = 0;
    while i < digits.len()
        invariant
            i <= digits.len(),
            0 <= value,
            value == decimal(digits@.take(i as int)),
            forall|k: int| 0 <= k < i ==> is_decimal(#[trigger] digits@[k]),
        decreases digits.len() - i,
    {
        let b: u8 = digits[i];
        proof {
            assert(digits@.take(i + 1).drop_last() =~= digits@.take(i as int));
            lemma_decimal_grows(digits@, i + 1, digits@.len() as int);
            assert(digits@.take(digits@.len() as int) =~= digits@);
        }
        if b < 48 || b > 57 {
            return None;
        }
        let d: i64 = (b - 48) as i64;
        if value > (i64::MAX - d) / 10 {
            assert(value * 10 + d > i64::MAX) by (nonlinear_arith)
                requires
                    value > (i64::MAX - d) / 10,
                    0 <= d <= 9,
            ;
            return None;
        }
        assert(value * 10 + d <= i64::MAX) by (nonlinear_arith)
            requires
                value <= (i64::MAX - d) / 10,
                0 <= d <= 9,
                0 <= value,
        ;
        value = value * 10 + d;
        i += 1;
    }
    proof {
        assert(digits@.take(digits@.len() as int) =~= digits@);
    }
    Some(value)
}

impl Generator {
    /// Records an error at `token` for the host to report.
    pub fn error_at(&mut self, token: &Token, message: String)
        ensures
            final(self).diagnostics@.len() == old(self).diagnostics@.len() + 1,
            final(self).diagnostics@.last().reports(*token, message@),
            final(self).diagnostics@.drop_last() == old(self).diagnostics@,
            final(self).current == old(self).current,
            final(self).had_error == old(self).had_error,
            final(self).panic_mode == old(self).panic_mode,
    {
        let place = if token.typ == TokenType::EOF {
            Place::End
        } else if token.typ == TokenType::ERROR {
            Place::Nowhere
        } else {
            Place::Lexeme(token.start, token.length)
        };
        self.diagnostics.push(Diagnostic { line: token.line, place, message });
        assert(self.diagnostics@.drop_last() =~= old(self).diagnostics@);
    }

    /// Notes that an error was found at `token`. The first error is recorded
    /// for the host; those that follow it are passed over in silence.
    pub fn error(&mut self, token: &Token, message: String)
        ensures
            old(self).reported() ==> final(self).reported(),
            final(self).had_error,
            final(self).panic_mode,
            final(self).current == old(self).current,
            old(self).panic_mode ==> final(self).diagnostics@ == old(self).diagnostics@,
            !old(self).panic_mode ==> final(self).diagnostics@.len() == old(self).diagnostics@.len()
                + 1 && final(self).diagnostics@.last().reports(*token, message@)
                && final(self).diagnostics@.drop_last() == old(self).diagnostics@,
    {
        self.had_error = true;
        if self.panic_mode {
            return;
        }
        self.panic_mode = true;
        self.error_at(token, message);
    }

    /// Adds `byte` to the code, with the line of `token`.
    pub fn emit_byte(&mut self, chunk: &mut Chunk, token: &Token, byte: u8)
        ensures
            output(final(chunk), final(self)) == put(
                output(old(chunk), old(self)),
                byte,
                token.line,
            ),
            *final(self) == *old(self),
    {
        chunk.write_chunk(byte, token.line);
    }

    /// Adds two bytes to the code, each with the line of `token`.
    pub fn emit_bytes(&mut self, chunk: &mut Chunk, token: &Token, byte0: u8, byte1: u8)
        ensures
            output(final(chunk), final(self)) == put(
                put(output(old(chunk), old(self)), byte0, token.line),
                byte1,
                token.line,
            ),
            *final(self) == *old(self),
    {
        self.emit_byte(chunk, token, byte0);
        self.emit_byte(chunk, token, byte1)
    }

    /// Adds an instruction that takes no operand, with the line of `token`.
    pub fn emit_op(&mut self, chunk: &mut Chunk, token: &Token, op: Opcode)
        ensures
            output(final(chunk), final(self)) == put_op(
                output(old(chunk), old(self)),
                op,
                token.line,
            ),
            *final(self) == *old(self),
    {
        self.emit_byte(chunk, token, op.to_u8());
    }

    /// Ends the code with the instruction that returns.
    pub fn end_compiler(&mut self, token: &Token, chunk: &mut Chunk)
        ensures
            output(final(chunk), final(self)) == put_op(
                output(old(chunk), old(self)),
                Opcode::OPRETURN,
                token.line,
            ),
            *final(self) == *old(self),
    {
        self.emit_return(chunk, token)
    }

    /// Adds the instruction that returns.
    pub fn emit_return(&mut self, chunk: &mut Chunk, token: &Token)
        ensures
            output(final(chunk), final(self)) == put_op(
                output(old(chunk), old(self)),
                Opcode::OPRETURN,
                token.line,
            ),
            *final(self) == *old(self),
    {
        self.emit_op(chunk, token, Opcode::OPRETURN)
    }

    /// Adds the instruction that drops the top of the stack.
    pub fn emit_pop(&mut self, chunk: &mut Chunk, token: &Token)
        ensures
            output(final(chunk), final(self)) == put_op(
                output(old(chunk), old(self)),
                Opcode::OPPOP,
                token.line,
            ),
            *final(self) == *old(self),
    {
        self.emit_op(chunk, token, Opcode::OPPOP)
    }

    /// Adds `val` to the constants and returns its index, where the pool has
    /// room for it. Where it has none this is an error.
    pub fn make_constant(&mut self, chunk: &mut Chunk, token: &Token, val: ConstantType) -> (index:
        Option<u8>)
        ensures
            old(self).reported() ==> final(self).reported(),
            final(chunk).code == old(chunk).code,
            final(chunk).lines == old(chunk).lines,
            old(chunk).pool().len() < MAX_CONSTANTS ==> {
                &&& index == Some(old(chunk).pool().len() as u8)
                &&& final(chunk).pool() == old(chunk).pool().push(val.deep_view())
                &&& *final(self) == *old(self)
            },
            old(chunk).pool().len() >= MAX_CONSTANTS ==> {
                &&& index.is_none()
                &&& final(chunk).pool() == old(chunk).pool()
                &&& final(self).had_error
            },
    {
        if chunk.constants.values.len() >= MAX_CONSTANTS {
            self.error(token, "Too many constants in one chunk.".to_owned());
            return None;
        }
        let id = chunk.add_constant(val);
        Some(id as u8)
    }

    /// Adds `val` to the constants, and to the code the instruction `op`
    /// with the constant's index.
    pub fn emit_load(&mut self, chunk: &mut Chunk, token: &Token, val: ConstantType, op: Opcode)
        ensures
            old(self).reported() ==> final(self).reported(),
            output(final(chunk), final(self)) == load(
                output(old(chunk), old(self)),
                val.deep_view(),
                op,
                token.line,
            ),
    {
        match self.make_constant(chunk, token, val) {
            Some(index) => {
                self.emit_bytes(chunk, token, op.to_u8(), index);
            },
            None => {},
        }
    }

    /// Adds `val` to the constants, and to the code the instruction that
    /// pushes it.
    pub fn emit_constant(&mut self, chunk: &mut Chunk, token: &Token, val: ConstantType)
        ensures
            old(self).reported() ==> final(self).reported(),
            output(final(chunk), final(self)) == load(
                output(old(chunk), old(self)),
                val.deep_view(),
                Opcode::OPCONSTANT,
                token.line,
            ),
    {
        self.emit_load(chunk, token, val, Opcode::OPCONSTANT)
    }
}

/// The instruction that pushes the literal of the given kind.
pub fn literal_opcode(kind: TokenType) -> (op: Option<Opcode>)
    ensures
        op == literal_op(kind),
{
    match kind {
        TokenType::NIL => Some(Opcode::OPNIL),
        TokenType::TRUE => Some(Opcode::OPTRUE),
        TokenType::FALSE => Some(Opcode::OPFALSE),
        _ => None,
    }
}

/// The instruction that the operator of the given kind stands for.
pub fn operator_opcode(kind: TokenType) -> (op: Option<Opcode>)
    ensures
        op == operator_op(kind),
{
    match kind {
        TokenType::PLUS => Some(Opcode::OPADD),
        TokenType::MINUS => Some(Opcode::OPSUBTRACT),
        TokenType::STAR => Some(Opcode::OPMULTIPLY),
        TokenType::SLASH => Some(Opcode::OPDIVIDE),
        TokenType::NOT => Some(Opcode::OPNOT),
        TokenType::EQUAL => Some(Opcode::OPEQUAL),
        TokenType::LESS => Some(Opcode::OPLT),
        TokenType::GREATER => Some(Opcode::OPGT),
        TokenType::LESSEQUAL => Some(Opcode::OPLTE),
        TokenType::GREATEREQUAL => Some(Opcode::OPGTE),
        TokenType::LEN => Some(Opcode::OPLEN),
        TokenType::PRINT => Some(Opcode::OPPRINT),
        TokenType::DEF => Some(Opcode::OPDEF),
        _ => None,
    }
}

/// Whether the operator of the given kind works on two operands.
pub fn binary_operator(kind: TokenType) -> (two: bool)
    ensures
        two == takes_two(kind),
{
    match kind {
        TokenType::PLUS | TokenType::MINUS | TokenType::STAR | TokenType::SLASH
        | TokenType::EQUAL | TokenType::LESS | TokenType::GREATER | TokenType::LESSEQUAL
        | TokenType::GREATEREQUAL => true,
        _ => false,
    }
}

impl Generator {
    /// The code for a literal: `nil`, `true` or `false`. Any other token
    /// gives nothing.
    pub fn literal(&mut self, chunk: &mut Chunk, token: &Token, _source: &[u8])
        ensures
            old(self).reported() ==> final(self).reported(),
            output(final(chunk), final(self)) == (match literal_op(token.typ) {
                Some(op) => put_op(output(old(chunk), old(self)), op, token.line),
                None => output(old(chunk), old(self)),
            }),
    {
        match literal_opcode(token.typ) {
            Some(op) => self.emit_op(chunk, token, op),
            None => {},
        }
    }

    /// The code for an operator. Any other token gives nothing.
    pub fn op(&mut self, chunk: &mut Chunk, token: &Token, _source: &[u8])
        ensures
            old(self).reported() ==> final(self).reported(),
            output(final(chunk), final(self)) == (match operator_op(token.typ) {
                Some(op) => put_op(output(old(chunk), old(self)), op, token.line),
                None => output(old(chunk), old(self)),
            }),
    {
        match operator_opcode(token.typ) {
            Some(op) => self.emit_op(chunk, token, op),
            None => {},
        }
    }

    /// The code for a token that gives none.
    pub fn noop(&mut self, _chunk: &mut Chunk, _token: &Token, _source: &[u8])
        ensures
            old(self).reported() ==> final(self).reported(),
            output(final(_chunk), final(self)) == output(old(_chunk), old(self)),
    {
    }

    /// Notes that the source does not hold what `token` denotes.
    fn unreadable(&mut self, token: &Token)
        ensures
            old(self).reported() ==> final(self).reported(),
            final(self).had_error,
    {
        self.error(token, "Cannot read the token.".to_owned());
    }

    /// The code for a `FLOAT`: its digits go to the constants, and the
    /// instruction that pushes the constant to the code.
    pub fn float(&mut self, chunk: &mut Chunk, token: &Token, source: &[u8])
        requires
            token.typ == TokenType::FLOAT,
        ensures
            old(self).reported() ==> final(self).reported(),
            output(final(chunk), final(self)) == emit_leaf(
                output(old(chunk), old(self)),
                source@,
                *token,
            ),
    {
        match text_of(source, token.start, token.length) {
            Some(digits) => self.emit_constant(chunk, token, ConstantType::FLOAT(digits)),
            None => self.unreadable(token),
        }
    }

    /// The code for an `INT`: the number goes to the constants, and the
    /// instruction that pushes the constant to the code.
    pub fn integer(&mut self, chunk: &mut Chunk, token: &Token, source: &[u8])
        requires
            token.typ == TokenType::INT,
        ensures
            old(self).reported() ==> final(self).reported(),
            output(final(chunk), final(self)) == emit_leaf(
                output(old(chunk), old(self)),
                source@,
                *token,
            ),
    {
        match text_of(source, token.start, token.length) {
            Some(digits) => {
                match parse_int(digits.as_slice()) {
                    Some(n) => self.emit_constant(chunk, token, ConstantType::INT(n)),
                    None => self.error(token, "Integer out of range.".to_owned()),
                }
            },
            None => self.unreadable(token),
        }
    }

    /// The code for a `STRING`: what stands between its quotes goes to the
    /// constants, and the instruction that pushes the constant to the code.
    pub fn string(&mut self, chunk: &mut Chunk, token: &Token, source: &[u8])
        requires
            token.typ == TokenType::STRING,
        ensures
            old(self).reported() ==> final(self).reported(),
            output(final(chunk), final(self)) == emit_leaf(
                output(old(chunk), old(self)),
                source@,
                *token,
            ),
    {
        if token.length < 2 || token.start == usize::MAX {
            assert(source@.len() == source.len());
            self.unreadable(token);
            return;
        }
        match text_of(source, token.start + 1, token.length - 2) {
            Some(inner) => self.emit_constant(chunk, token, ConstantType::STRING(inner)),
            None => self.unreadable(token),
        }
    }

    /// The code for an `IDENTIFIER`: its name goes to the constants as a
    /// symbol, and the instruction that looks the symbol up to the code.
    pub fn identifier(&mut self, chunk: &mut Chunk, token: &Token, source: &[u8])
        requires
            token.typ == TokenType::IDENTIFIER,
        ensures
            old(self).reported() ==> final(self).reported(),
            output(final(chunk), final(self)) == emit_leaf(
                output(old(chunk), old(self)),
                source@,
                *token,
            ),
    {
        match text_of(source, token.start, token.length) {
            Some(name) => self.emit_load(chunk, token, ConstantType::SYMBOL(name), Opcode::OPSYM),
            None => self.unreadable(token),
        }
    }

    /// The code for a token that stands alone; see [`emit_leaf`].
    pub fn emit_token(&mut self, chunk: &mut Chunk, token: &Token, source: &[u8])
        ensures
            old(self).reported() ==> final(self).reported(),
            output(final(chunk), final(self)) == emit_leaf(
                output(old(chunk), old(self)),
                source@,
                *token,
            ),
    {
        match token.typ {
            TokenType::NIL | TokenType::TRUE | TokenType::FALSE => self.literal(
                chunk,
                token,
                source,
            ),
            TokenType::FLOAT => self.float(chunk, token, source),
            TokenType::INT => self.integer(chunk, token, source),
            TokenType::STRING => self.string(chunk, token, source),
            TokenType::IDENTIFIER => self.identifier(chunk, token, source),
            TokenType::PLUS | TokenType::MINUS | TokenType::STAR | TokenType::SLASH
            | TokenType::NOT | TokenType::EQUAL | TokenType::LESS | TokenType::GREATER
            | TokenType::LESSEQUAL | TokenType::GREATEREQUAL | TokenType::LEN | TokenType::PRINT
            | TokenType::DEF => self.op(chunk, token, source),
            _ => self.noop(chunk, token, source),
        }
    }

    /// Sets the operand at `at` to the position at which the code now ends;
    /// see [`patch`].
    pub fn patch_jump(&mut self, chunk: &mut Chunk, token: &Token, at: usize)
        ensures
            old(self).reported() ==> final(self).reported(),
            output(final(chunk), final(self)) == patch(output(old(chunk), old(self)), at as int),
    {
        let target: usize = chunk.code.len();
        if target <= MAX_TARGET && at < target {
            chunk.code.set(at, target as u8);
        } else {
            self.error(token, "Too much code to jump over.".to_owned());
        }
    }

    /// The code for the expression at the node `node`; see [`gen`].
    pub fn expression(&mut self, ast: &Ast, node: usize, chunk: &mut Chunk, source: &[u8])
        requires
            ast.wf(),
            ast.has(node),
        ensures
            old(self).reported() ==> final(self).reported(),
            output(final(chunk), final(self)) == gen(
                ast,
                source@,
                node,
                output(old(chunk), old(self)),
            ),
        decreases height(ast, node),
    {
        let token = ast.token_of(node);
        if token.typ != TokenType::LEFTPAREN {
            self.emit_token(chunk, token, source);
            return;
        }
        let kids = ast.children_of(node);
        if kids.len() == 0 {
            self.error(token, "An empty list is no expression.".to_owned());
            return;
        }
        let head: usize = kids[0];
        proof {
            assert(ast.child_follows(node, 0));
        }
        let head_kind = ast.token_of(head).typ;
        if head_kind == TokenType::IF {
            if kids.len() == 3 || kids.len() == 4 {
                proof {
                    assert(ast.child_follows(node, 1));
                    assert(ast.child_follows(node, 2));
                    if kids.len() == 4 {
                        assert(ast.child_follows(node, 3));
                    }
                }
                self.expression(ast, kids[1], chunk, source);
                self.emit_bytes(chunk, token, Opcode::OPJMPIFFALSE.to_u8(), 0);
                let first: usize = chunk.code.len() - 1;
                self.expression(ast, kids[2], chunk, source);
                self.emit_bytes(chunk, token, Opcode::OPJMP.to_u8(), 0);
                let second: usize = chunk.code.len() - 1;
                self.patch_jump(chunk, token, first);
                if kids.len() == 4 {
                    self.expression(ast, kids[3], chunk, source);
                } else {
                    self.emit_op(chunk, token, Opcode::OPNIL);
                }
                self.patch_jump(chunk, token, second);
            } else {
                self.error(token, "An if takes a condition and one or two branches.".to_owned());
            }
        } else if head_kind == TokenType::DEF {
            if kids.len() != 3 {
                self.error(token, "A def takes a name and a value.".to_owned());
                return;
            }
            proof {
                assert(ast.child_follows(node, 1));
                assert(ast.child_follows(node, 2));
            }
            let name = ast.token_of(kids[1]);
            if name.typ != TokenType::IDENTIFIER {
                self.error(token, "A def takes a name and a value.".to_owned());
                return;
            }
            match text_of(source, name.start, name.length) {
                Some(symbol) => {
                    self.emit_load(chunk, name, ConstantType::SYMBOL(symbol), Opcode::OPDEFSYM);
                    self.expression(ast, kids[2], chunk, source);
                    self.expression(ast, head, chunk, source);
                },
                None => {
                    self.unreadable(name);
                },
            }
        } else if binary_operator(head_kind) && kids.len() != 3 {
            self.error(token, "The operator takes two operands.".to_owned());
        } else {
            let mut k: usize = 1;
            while k < kids.len()
                invariant
                    ast.wf(),
                    ast.has(node),
                    kids@ == ast.children(node),
                    1 <= k <= kids.len(),
                    old(self).reported() ==> self.reported(),
                    gen_rest(ast, source@, node, k as int, output(chunk, self)) == gen_rest(
                        ast,
                        source@,
                        node,
                        1,
                        output(old(chunk), old(self)),
                    ),
                decreases kids.len() - k,
            {
                proof {
                    assert(ast.child_follows(node, k as int));
                }
                self.expression(ast, kids[k], chunk, source);
                k += 1;
            }
            self.expression(ast, head, chunk, source);
        }
    }

    /// The code for the whole tree; see [`program`].
    pub fn generate(&mut self, ast: &Ast, chunk: &mut Chunk, source: &[u8])
        requires
            ast.wf(),
        ensures
            old(self).reported() ==> final(self).reported(),
            output(final(chunk), final(self)) == program(
                ast,
                source@,
                output(old(chunk), old(self)),
            ),
    {
        let kids = ast.children_of(ast.root);
        let between = Token { typ: TokenType::NOOP, line: 0, start: 0, length: 0, error: None };
        let mut k: usize = 0;
        while k < kids.len()
            invariant
                ast.wf(),
                kids@ == ast.children(ast.root),
                k <= kids.len(),
                between.line == 0,
                old(self).reported() ==> self.reported(),
                gen_top(ast, source@, k as int, output(chunk, self)) == gen_top(
                    ast,
                    source@,
                    0,
                    output(old(chunk), old(self)),
                ),
            decreases kids.len() - k,
        {
            proof {
                assert(ast.child_follows(ast.root, k as int));
            }
            self.expression(ast, kids[k], chunk, source);
            k += 1;
            if k < kids.len() {
                self.emit_pop(chunk, &between);
            }
        }
        self.end_compiler(&between, chunk);
    }
}

/// What a translation gives besides the code: whether it met no error, and
/// the errors for the host to report, those of the parser first. There is an
/// error to report exactly if the translation met one.
#[derive(Debug)]
pub struct Translation {
    pub ok: bool,
    pub diagnostics: Vec<Diagnostic>,
}

/// Whether `after` is what the translation of the source `src` makes of
/// `before`: the code for the tree `ast` of the source, added to what
/// `before` holds, with `tree_failed` saying whether the parser met an error.
/// The translation has failed if the parser or the generator met an error.
pub open spec fn translates(
    src: Seq<u8>,
    ast: &Ast,
    tree_failed: bool,
    before: Output,
    after: Output,
) -> bool {
    &&& parses(src, ast)
    &&& tree_failed == parse_fails(src, ast)
    &&& after == program(ast, src, Output { failed: tree_failed, ..before })
}

/// What a chunk holds, and whether the translation that filled it failed.
pub open spec fn holds(chunk: &Chunk, failed: bool) -> Output {
    Output { code: chunk.code@, lines: chunk.lines@, pool: chunk.pool(), failed }
}

/// Whether the chunk `after` and the flag `failed` are what the translation
/// of the source `src` makes of the chunk `before`.
pub open spec fn compiled(src: Seq<u8>, before: &Chunk, after: &Chunk, failed: bool) -> bool {
    exists|ast: Ast, tree_failed: bool| #[trigger]
        translates(src, &ast, tree_failed, holds(before, false), holds(after, failed))
}

/// The chunk that a translation has filled is sound and complete, where
/// the chunk that it was given was sound: every byte of its code has its
/// line, its last instruction is the one that returns, every jump in it leads
/// to a position in the code, and every operand that names a constant names
/// one of its pool. What the chunk held before, it holds still.
pub proof fn lemma_compiled_sealed(src: Seq<u8>, before: &Chunk, after: &Chunk, failed: bool)
    requires
        compiled(src, before, after, failed),
        coded(holds(before, false)),
    ensures
        sealed(holds(after, failed)),
        keeps(holds(before, false), holds(after, failed)),
{
    let (ast, tree_failed): (Ast, bool) = choose|ast: Ast, tree_failed: bool| #[trigger]
        translates(src, &ast, tree_failed, holds(before, false), holds(after, failed));
    lemma_program_sealed(&ast, src, Output { failed: tree_failed, ..holds(before, false) });
}

/// A translation that has not failed is the translation of a source in
/// which the scanner meets no error and the parentheses match.
pub proof fn lemma_compiled_parsed(src: Seq<u8>, before: &Chunk, after: &Chunk)
    requires
        compiled(src, before, after, false),
    ensures
        exists|ast: Ast| #[trigger]
            translates(src, &ast, false, holds(before, false), holds(after, false)),
{
    let (ast, tree_failed): (Ast, bool) = choose|ast: Ast, tree_failed: bool| #[trigger]
        translates(src, &ast, tree_failed, holds(before, false), holds(after, false));
    if tree_failed {
        lemma_gen_top_failed(&ast, src, 0, Output { failed: true, ..holds(before, false) });
    }
}

/// A translation into an empty chunk that has not failed gives code that
/// the machine can run: every instruction of it is one that the machine can
/// carry out, every jump in it leads forward to the start of an instruction,
/// and it ends with the instruction that returns.
pub proof fn lemma_compiled_runs(src: Seq<u8>, before: &Chunk, after: &Chunk)
    requires
        compiled(src, before, after, false),
        before.code@.len() == 0,
        before.lines@.len() == 0,
    ensures
        crate::safety::runs(after.code@, after.pool()),
{
    let (ast, tree_failed): (Ast, bool) = choose|ast: Ast, tree_failed: bool| #[trigger]
        translates(src, &ast, tree_failed, holds(before, false), holds(after, false));
    crate::safety::lemma_program_runs(
        &ast,
        src,
        Output { failed: tree_failed, ..holds(before, false) },
    );
}

/// Translates `source` into code, which is added to `chunk`; see
/// [`compiled`] and [`lemma_compiled_sealed`].
pub fn translate(source: &str, chunk: &mut Chunk) -> (done: Translation)
    ensures
        compiled(source.spec_bytes(), old(chunk), final(chunk), !done.ok),
        coded(holds(old(chunk), false)) ==> sealed(holds(final(chunk), !done.ok)),
        done.ok <==> done.diagnostics@.len() == 0,
{
    let (ast, parser) = parse(source);
    let mut generator = Generator {
        current: None,
        had_error: parser.had_error,
        panic_mode: false,
        diagnostics: parser.diagnostics,
    };
    generator.generate(&ast, chunk, source.as_bytes());
    proof {
        assert(translates(
            source.spec_bytes(),
            &ast,
            parser.had_error,
            holds(old(chunk), false),
            holds(chunk, generator.had_error),
        ));
        if coded(holds(old(chunk), false)) {
            lemma_compiled_sealed(source.spec_bytes(), old(chunk), chunk, generator.had_error);
        }
    }
    Translation { ok: !generator.had_error, diagnostics: generator.diagnostics }
}

/// Translates `source` into code, which is added to `chunk`, and says
/// whether that went without error; see [`compiled`].
pub fn compile(source: &str, chunk: &mut Chunk) -> (ok: bool)
    ensures
        compiled(source.spec_bytes(), old(chunk), final(chunk), !ok),
        coded(holds(old(chunk), false)) ==> sealed(holds(final(chunk), !ok)),
{
    translate(source, chunk).ok
}

} // verus!
