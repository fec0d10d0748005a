use vstd::prelude::*;
use vstd::string::*;
use crate::keywords::trie_entries;
use crate::scanner::{lemma_span_bounds, scan, scan_token, span, Class, Lexeme, Scanner};
use crate::token::{Token, TokenType};
use crate::nesting::{above, balanced, clean, lemma_close, lemma_level_prefix, lemma_place, level};
use crate::tree::Ast;

verus! {

/// Where in the source an error was found.
#[derive(Debug, Clone, Copy, PartialEq, Eq, Structural)]
pub enum Place {
    /// At the end of the source.
    End,
    /// At a byte that begins no token; the message says the rest.
    Nowhere,
    /// At the token that starts at the first number and has the second as
    /// its length.
    Lexeme(usize, usize),
}

/// An error that the parser found, for the host to report.
#[derive(Debug)]
pub struct Diagnostic {
    pub line: u16,
    pub place: Place,
    pub message: String,
}

impl Diagnostic {
    /// Whether the diagnostic is for the token `token` and has the message
    /// `message`.
    pub open spec fn reports(&self, token: Token, message: Seq<char>) -> bool {
        &&& self.line == token.line
        &&& self.place == place_of(token)
        &&& self.message@ == message
    }
}

/// The place that a diagnostic for `token` names.
pub open spec fn place_of(token: Token) -> Place {
    if token.typ == TokenType::EOF {
        Place::End
    } else if token.typ == TokenType::ERROR {
        Place::Nowhere
    } else {
        Place::Lexeme(token.start, token.length)
    }
}

/// The state of a parse: the token in hand, whether an error was found,
/// whether errors are being passed over in silence, the scanner, the source,
/// and the errors to report.
#[derive(Debug)]
pub struct ASTParser<'a> {
    pub current: Option<Token>,
    pub had_error: bool,
    pub panic_mode: bool,
    pub scanner: Scanner,
    pub source: &'a str,
    pub diagnostics: Vec<Diagnostic>,
}

/// The first token at or after `pos` that is no error with a message.
pub open spec fn first(s: Seq<u8>, pos: int, line: u16, dict: Map<Seq<u8>, TokenType>) -> Lexeme
    decreases s.len() - pos,
{
    let lx = scan(s, pos, line, dict);
    if lx.message.is_some() && pos < lx.end <= s.len() {
        first(s, lx.end, lx.line, dict)
    } else {
        lx
    }
}

/// The tokens that a parser meets from `pos` on: those that are no errors,
/// up to the first `EOF` and without it.
pub open spec fn stream(s: Seq<u8>, pos: int, line: u16, dict: Map<Seq<u8>, TokenType>) -> Seq<
    Lexeme,
>
    decreases s.len() - pos,
{
    let lx = first(s, pos, line, dict);
    if lx.kind == TokenType::EOF || !(pos < lx.end <= s.len()) {
        Seq::empty()
    } else {
        seq![lx] + stream(s, lx.end, lx.line, dict)
    }
}

/// Whether the scanner meets an error from `pos` on, before the first `EOF`.
pub open spec fn errors(s: Seq<u8>, pos: int, line: u16, dict: Map<Seq<u8>, TokenType>) -> bool
    decreases s.len() - pos,
{
    let lx = scan(s, pos, line, dict);
    if lx.message.is_some() {
        true
    } else if lx.kind == TokenType::EOF || !(pos < lx.end <= s.len()) {
        false
    } else {
        errors(s, lx.end, lx.line, dict)
    }
}

/// Where a token ends relative to the position from which it was scanned: a
/// token with a message, and any token but `EOF`, ends after that position
/// and within the source.
pub proof fn lemma_scan_moves(s: Seq<u8>, pos: int, line: u16, dict: Map<Seq<u8>, TokenType>)
    requires
        0 <= pos,
    ensures
        pos <= s.len() ==> scan(s, pos, line, dict).end <= s.len(),
        pos <= scan(s, pos, line, dict).start <= scan(s, pos, line, dict).end,
        scan(s, pos, line, dict).message.is_some() || scan(s, pos, line, dict).kind
            != TokenType::EOF ==> pos < scan(s, pos, line, dict).end <= s.len(),
{
    let start = span(s, pos, Class::Space);
    lemma_span_bounds(s, pos, Class::Space);
    if start < s.len() {
        lemma_span_bounds(s, start + 1, Class::Text);
        lemma_span_bounds(s, start + 1, Class::Digit);
        lemma_span_bounds(s, start + 1, Class::Symbol);
        lemma_span_bounds(s, start + 1, Class::Keyword);
        let whole = span(s, start + 1, Class::Digit);
        lemma_span_bounds(s, whole + 2, Class::Digit);
    }
}

/// The first token that is no error has no message; it ends at or after the
/// position from which it was sought, and after it unless it is `EOF`.
pub proof fn lemma_first(s: Seq<u8>, pos: int, line: u16, dict: Map<Seq<u8>, TokenType>)
    requires
        0 <= pos,
    ensures
        first(s, pos, line, dict).message.is_none(),
        pos <= first(s, pos, line, dict).start <= first(s, pos, line, dict).end,
        pos <= s.len() ==> first(s, pos, line, dict).end <= s.len(),
        first(s, pos, line, dict).kind != TokenType::EOF ==> pos < first(s, pos, line, dict).end
            <= s.len(),
    decreases s.len() - pos,
{
    let lx = scan(s, pos, line, dict);
    lemma_scan_moves(s, pos, line, dict);
    if lx.message.is_some() && pos < lx.end <= s.len() {
        lemma_first(s, lx.end, lx.line, dict);
    }
}

/// The token as the scanner found it. A token that is no error holds all
/// that its lexeme holds.
pub open spec fn lexeme_of(t: Token) -> Lexeme {
    Lexeme {
        kind: t.typ,
        start: t.start as int,
        end: t.start + t.length,
        line: t.line,
        message: None,
    }
}

/// The tokens as the scanner found them.
pub open spec fn lexemes(ts: Seq<Token>) -> Seq<Lexeme> {
    Seq::new(ts.len(), |i: int| lexeme_of(ts[i]))
}

/// Whether none of the tokens is an error with a message.
pub open spec fn plain(ts: Seq<Token>) -> bool {
    forall|i: int| 0 <= i < ts.len() ==> (#[trigger] ts[i]).error.is_none()
}

impl<'a> ASTParser<'a> {
    /// The bytes of the source.
    pub open spec fn bytes(&self) -> Seq<u8> {
        self.source.spec_bytes()
    }

    /// The reserved words.
    pub open spec fn dict(&self) -> Map<Seq<u8>, TokenType> {
        trie_entries(self.scanner.tokens)
    }

    /// What the scanner returns next.
    pub open spec fn next(&self) -> Lexeme {
        scan(self.bytes(), self.scanner.current as int, self.scanner.line, self.dict())
    }

    /// The first token ahead that is no error.
    pub open spec fn first(&self) -> Lexeme {
        first(self.bytes(), self.scanner.current as int, self.scanner.line, self.dict())
    }

    /// The tokens ahead.
    pub open spec fn ahead(&self) -> Seq<Lexeme> {
        stream(self.bytes(), self.scanner.current as int, self.scanner.line, self.dict())
    }

    /// Whether the parser's errors are on record: it has met an error
    /// exactly if it holds one to report, and it passes over errors in silence
    /// only after it has met one.
    pub open spec fn reported(&self) -> bool {
        (self.had_error <==> self.diagnostics@.len() > 0) && (self.panic_mode
            ==> self.had_error)
    }

    /// Whether the scanner meets an error in what lies ahead.
    pub open spec fn errors_ahead(&self) -> bool {
        errors(self.bytes(), self.scanner.current as int, self.scanner.line, self.dict())
    }

    /// Whether the scanner meets an error in what the parser has yet to
    /// read: nothing, once the token in hand is `EOF`.
    pub open spec fn errors_to_come(&self) -> bool {
        self.kind() != TokenType::EOF && self.errors_ahead()
    }

    /// How many bytes of the source lie ahead.
    pub open spec fn left(&self) -> nat {
        if self.scanner.current <= self.bytes().len() {
            (self.bytes().len() - self.scanner.current) as nat
        } else {
            0
        }
    }

    /// The parser is at a token that is no error.
    pub open spec fn at_token(&self) -> bool {
        self.current matches Some(t) && t.error.is_none()
    }

    /// The kind of the token in hand.
    pub open spec fn kind(&self) -> TokenType {
        self.current.unwrap().typ
    }
}

/// A parser at the start of `source`, with no token in hand and no error.
pub fn init_parser<'a>(source: &'a str) -> (parser: ASTParser<'a>)
    ensures
        parser.current.is_none(),
        !parser.had_error,
        !parser.panic_mode,
        parser.scanner.current == 0,
        parser.scanner.line == 1,
        parser.dict() == crate::scanner::reserved_words(),
        parser.source == source,
        parser.diagnostics@.len() == 0,
        parser.reported(),
{
    ASTParser {
        current: None,
        had_error: false,
        panic_mode: false,
        scanner: crate::scanner::init_scanner(),
        source,
        diagnostics: Vec::new(),
    }
}

/// Records an error at the token in hand for the host to report.
pub fn ast_error_at(parser: &mut ASTParser, message: String)
    requires
        old(parser).current.is_some(),
    ensures
        final(parser).diagnostics@.len() == old(parser).diagnostics@.len() + 1,
        final(parser).diagnostics@.last().reports(old(parser).current.unwrap(), message@),
        final(parser).diagnostics@.drop_last() == old(parser).diagnostics@,
        final(parser).current == old(parser).current,
        final(parser).had_error == old(parser).had_error,
        final(parser).panic_mode == old(parser).panic_mode,
        final(parser).scanner == old(parser).scanner,
        final(parser).source == old(parser).source,
{
    let (line, place) = match &parser.current {
        Some(token) => {
            let place = if token.typ == TokenType::EOF {
                Place::End
            } else if token.typ == TokenType::ERROR {
                Place::Nowhere
            } else {
                Place::Lexeme(token.start, token.length)
            };
            (token.line, place)
        },
        None => (0, Place::Nowhere),
    };
    parser.diagnostics.push(Diagnostic { line, place, message });
    assert(parser.diagnostics@.drop_last() =~= old(parser).diagnostics@);
}

/// Notes that an error was found at the token in hand. The first error
/// since the parser was last in step is recorded for the host; those that
/// follow it are passed over in silence.
pub fn ast_error_at_current(parser: &mut ASTParser, message: String)
    requires
        old(parser).current.is_some(),
    ensures
        final(parser).had_error,
        final(parser).panic_mode,
        old(parser).reported() ==> final(parser).reported(),
        old(parser).panic_mode ==> final(parser).diagnostics@ == old(parser).diagnostics@,
        !old(parser).panic_mode ==> {
            &&& final(parser).diagnostics@.len() == old(parser).diagnostics@.len() + 1
            &&& final(parser).diagnostics@.last().reports(old(parser).current.unwrap(), message@)
            &&& final(parser).diagnostics@.drop_last() == old(parser).diagnostics@
        },
        final(parser).current == old(parser).current,
        final(parser).scanner == old(parser).scanner,
        final(parser).source == old(parser).source,
{
    parser.had_error = true;
    if parser.panic_mode {
        return;
    }
    parser.panic_mode = true;
    ast_error_at(parser, message)
}

/// Takes the next token that is no error into the parser's hand. Errors
/// before it are noted; see [`ast_error_at_current`].
pub fn ast_advance(parser: &mut ASTParser)
    ensures
        final(parser).current matches Some(t) && t.is(old(parser).first()),
        final(parser).at_token(),
        final(parser).scanner.current == old(parser).first().end,
        final(parser).scanner.line == old(parser).first().line,
        final(parser).scanner.tokens == old(parser).scanner.tokens,
        final(parser).source == old(parser).source,
        final(parser).had_error == (old(parser).had_error || old(parser).next().message.is_some()),
        old(parser).reported() ==> final(parser).reported(),
        final(parser).panic_mode == (old(parser).panic_mode
            || old(parser).next().message.is_some()),
        old(parser).next().message.is_some() && !old(parser).panic_mode ==> {
            &&& final(parser).diagnostics@.len() == old(parser).diagnostics@.len() + 1
            &&& final(parser).diagnostics@.drop_last() == old(parser).diagnostics@
            &&& final(parser).diagnostics@.last().line == old(parser).next().line
            &&& final(parser).diagnostics@.last().place == Place::Nowhere
            &&& final(parser).diagnostics@.last().message@ == old(parser).next().message.unwrap()
        },
        !(old(parser).next().message.is_some() && !old(parser).panic_mode)
            ==> final(parser).diagnostics@ == old(parser).diagnostics@,
{
    let ghost mut seen = false;
    loop
        invariant
            parser.source == old(parser).source,
            parser.scanner.tokens == old(parser).scanner.tokens,
            parser.first() == old(parser).first(),
            !seen ==> *parser == *old(parser),
            seen ==> {
                &&& old(parser).next().message.is_some()
                &&& parser.panic_mode
                &&& parser.had_error
                &&& parser.scanner.current <= parser.bytes().len()
                &&& old(parser).panic_mode ==> parser.diagnostics@ == old(parser).diagnostics@
                &&& !old(parser).panic_mode ==> {
                    &&& parser.diagnostics@.len() == old(parser).diagnostics@.len() + 1
                    &&& parser.diagnostics@.drop_last() == old(parser).diagnostics@
                    &&& parser.diagnostics@.last().line == old(parser).next().line
                    &&& parser.diagnostics@.last().place == Place::Nowhere
                    &&& parser.diagnostics@.last().message@ == old(parser).next().message.unwrap()
                }
            },
        decreases parser.left(),
    {
        let ghost lx = parser.next();
        proof {
            lemma_scan_moves(
                parser.bytes(),
                parser.scanner.current as int,
                parser.scanner.line,
                parser.dict(),
            );
        }
        let token = scan_token(&mut parser.scanner, parser.source);
        let message: Option<String> = match &token.error {
            Some(m) => Some(m.clone()),
            None => None,
        };
        parser.current = Some(token);
        match message {
            Some(m) => {
                ast_error_at_current(parser, m);
                proof {
                    seen = true;
                }
            },
            None => {
                return;
            },
        }
    }
}

/// The tokens that the parse has met and will meet: those of the tree, the
/// token in hand where it is not yet in the tree (`pending`), and those
/// ahead, unless the token in hand is `EOF`.
pub open spec fn told(ast: &Ast, parser: &ASTParser, pending: bool) -> Seq<Lexeme> {
    lexemes(ast.tokens@) + if parser.kind() == TokenType::EOF {
        Seq::empty()
    } else if pending {
        seq![lexeme_of(parser.current.unwrap())] + parser.ahead()
    } else {
        parser.ahead()
    }
}

/// A copy of a token that is no error.
pub fn plain_copy(token: &Token) -> (copy: Token)
    requires
        token.error.is_none(),
    ensures
        copy == *token,
{
    Token {
        typ: token.typ,
        line: token.line,
        start: token.start,
        length: token.length,
        error: None,
    }
}

/// The tokens ahead of a parser are the token that `ast_advance` takes and
/// those ahead of the parser then, or none if that token is `EOF`.
pub proof fn lemma_ahead(before: &ASTParser, after: &ASTParser)
    requires
        after.current matches Some(t) && t.is(before.first()),
        after.scanner.current == before.first().end,
        after.scanner.line == before.first().line,
        after.scanner.tokens == before.scanner.tokens,
        after.source == before.source,
        after.had_error == (before.had_error || before.next().message.is_some()),
    ensures
        (after.had_error || after.errors_to_come()) == (before.had_error || before.errors_ahead()),
        after.kind() == TokenType::EOF ==> before.ahead() == Seq::<Lexeme>::empty(),
        after.kind() != TokenType::EOF ==> before.ahead() == seq![
            lexeme_of(after.current.unwrap()),
        ] + after.ahead(),
        after.kind() != TokenType::EOF ==> after.left() < before.left(),
        after.left() <= before.left(),
        before.scanner.current <= before.bytes().len() ==> after.scanner.current
            <= after.bytes().len(),
{
    lemma_first(
        before.bytes(),
        before.scanner.current as int,
        before.scanner.line,
        before.dict(),
    );
}

/// What holds of a tree while it is built: it is well formed, its nodes are
/// as the parser builds them, and none of its tokens is an error.
pub open spec fn sound(ast: &Ast) -> bool {
    ast.wf() && ast.shaped() && plain(ast.tokens@)
}

/// What holds of a tree while it is built from tokens: it is sound and as
/// [`Ast::placed`] says.
pub open spec fn built(ast: &Ast) -> bool {
    sound(ast) && ast.placed()
}

/// Whether a node may get children: it is the root or an opening
/// parenthesis.
pub open spec fn open_node(ast: &Ast, id: usize) -> bool {
    ast.has(id) && (id == ast.root || ast.kind(id) == TokenType::LEFTPAREN)
}

/// What a tree that extends another keeps of it: the kinds of its nodes, and
/// with them the nodes that may get children.
pub proof fn lemma_extends_keeps(before: &Ast, after: &Ast, id: usize)
    requires
        before.wf(),
        after.extends(before),
        before.has(id),
    ensures
        after.has(id),
        after.token(id) == before.token(id),
        after.kind(id) == before.kind(id),
        open_node(before, id) ==> open_node(after, id),
{
    assert(after.datum(id) == before.datum(id));
    assert(before.datum(id) < before.tokens@.len());
    assert(after.tokens@.take(before.tokens@.len() as int)[before.datum(id) as int]
        == after.tokens@[before.datum(id) as int]);
}

/// To extend a tree is transitive.
pub proof fn lemma_extends_twice(first: &Ast, second: &Ast, third: &Ast)
    requires
        second.extends(first),
        third.extends(second),
    ensures
        third.extends(first),
{
    assert(third.tokens@.take(first.tokens@.len() as int) =~= first.tokens@) by {
        assert forall|i: int| 0 <= i < first.tokens@.len() implies third.tokens@[i]
            == first.tokens@[i] by {
            assert(second.tokens@.take(first.tokens@.len() as int)[i] == second.tokens@[i]);
            assert(third.tokens@.take(second.tokens@.len() as int)[i] == third.tokens@[i]);
        }
    }
    assert forall|id: usize| #[trigger] first.has(id) implies third.has(id) && third.datum(id)
        == first.datum(id) by {
        assert(second.has(id) && second.datum(id) == first.datum(id));
        assert(third.has(id) && third.datum(id) == second.datum(id));
    }
    assert(third.root == first.root);
    assert(first.tokens@.len() <= third.tokens@.len());
    assert(third.tokens@.take(first.tokens@.len() as int) == first.tokens@);
}

/// Gives the token in hand a node, as the last child of `parent`, and
/// returns the node's index in the arena. What comes next stands directly
/// inside the new node if the token is an opening parenthesis, and directly
/// inside `parent` if not.
pub fn place(parser: &ASTParser, ast: &mut Ast, parent: usize) -> (id: usize)
    requires
        built(old(ast)),
        open_node(old(ast), parent),
        old(ast).opens_at(parent),
        parser.at_token(),
        parser.kind() != TokenType::RIGHTPAREN,
        parser.kind() != TokenType::EOF,
    ensures
        built(final(ast)),
        final(ast).extends(old(ast)),
        final(ast).tokens@ == old(ast).tokens@.push(parser.current.unwrap()),
        final(ast).has(id),
        !old(ast).has(id),
        id != final(ast).root,
        final(ast).kind(id) == parser.kind(),
        final(ast).datum(id) == old(ast).tokens@.len(),
        final(ast).children(id) == Seq::<usize>::empty(),
        final(ast).children(parent) == old(ast).children(parent).push(id),
        forall|n: usize|
            old(ast).has(n) && n != parent ==> #[trigger] final(ast).children(n)
                == old(ast).children(n),
        forall|n: usize| final(ast).has(n) ==> n == id || old(ast).has(n),
        clean(final(ast).tokens@, final(ast).tokens@.len() as int) == clean(
            old(ast).tokens@,
            old(ast).tokens@.len() as int,
        ),
        above(
            final(ast).tokens@,
            final(ast).datum(parent) as int,
            final(ast).tokens@.len() as int,
        ),
        level(final(ast).tokens@, final(ast).datum(id) as int) == level(
            final(ast).tokens@,
            final(ast).datum(parent) as int,
        ) + 1,
        parser.kind() == TokenType::LEFTPAREN ==> final(ast).opens_at(id),
        parser.kind() != TokenType::LEFTPAREN ==> final(ast).opens_at(parent),
{
    let token = match &parser.current {
        Some(t) => plain_copy(t),
        None => Token { typ: TokenType::NOOP, line: 0, start: 0, length: 0, error: None },
    };
    let id = ast.add(parent, token);
    proof {
        let before = old(ast).nodes();
        assert(ast.datum(id) == old(ast).tokens.len());
        assert(ast.token(id) == parser.current.unwrap());
        assert(ast.tokens@.take(old(ast).tokens@.len() as int) =~= old(ast).tokens@);
        assert(ast.children(id) =~= Seq::<usize>::empty());
        assert forall|n: usize| #[trigger] old(ast).has(n) implies ast.has(n) && ast.datum(n)
            == old(ast).datum(n) by {}
        assert(ast.extends(old(ast)));
        assert forall|n: usize| ast.has(n) implies #[trigger] ast.node_shaped(n) by {
            if n != id {
                assert(old(ast).node_shaped(n));
                lemma_extends_keeps(old(ast), ast, n);
                if n == parent {
                    assert(open_node(old(ast), parent));
                }
            }
        }
        lemma_place(old(ast), ast, parent, id, parser.current.unwrap());
    }
    id
}

/// Adds the closing parenthesis in hand to the tokens of the tree; it gets
/// no node. What comes next stands one level higher, unless the parenthesis
/// closes nothing.
pub fn close(parser: &ASTParser, ast: &mut Ast)
    requires
        built(old(ast)),
        parser.at_token(),
        parser.kind() == TokenType::RIGHTPAREN,
    ensures
        built(final(ast)),
        final(ast).extends(old(ast)),
        final(ast).nodes() == old(ast).nodes(),
        final(ast).tokens@ == old(ast).tokens@.push(parser.current.unwrap()),
        level(final(ast).tokens@, final(ast).tokens@.len() as int) == if level(
            old(ast).tokens@,
            old(ast).tokens@.len() as int,
        ) == 1 {
            1
        } else {
            level(old(ast).tokens@, old(ast).tokens@.len() as int) - 1
        },
        clean(final(ast).tokens@, final(ast).tokens@.len() as int) == (clean(
            old(ast).tokens@,
            old(ast).tokens@.len() as int,
        ) && level(old(ast).tokens@, old(ast).tokens@.len() as int) != 1),
        forall|j: int|
            j <= old(ast).tokens@.len() ==> level(final(ast).tokens@, j) == level(
                old(ast).tokens@,
                j,
            ),
{
    let token = match &parser.current {
        Some(t) => plain_copy(t),
        None => Token { typ: TokenType::NOOP, line: 0, start: 0, length: 0, error: None },
    };
    ast.note(token);
    proof {
        assert(ast.tokens@.take(old(ast).tokens@.len() as int) =~= old(ast).tokens@);
        assert forall|n: usize| ast.has(n) implies #[trigger] ast.node_shaped(n) by {
            assert(old(ast).node_shaped(n));
            lemma_extends_keeps(old(ast), ast, n);
        }
        lemma_close(old(ast), ast, parser.current.unwrap());
    }
}

/// The tokens of a list of tokens with one more are the tokens of the list
/// and the one more.
pub proof fn lemma_lexemes_push(ts: Seq<Token>, t: Token)
    ensures
        lexemes(ts.push(t)) == lexemes(ts).push(lexeme_of(t)),
{
    assert(lexemes(ts.push(t)) =~= lexemes(ts).push(lexeme_of(t)));
}

/// The kind of the token in hand.
pub fn current_kind(parser: &ASTParser) -> (kind: TokenType)
    requires
        parser.current.is_some(),
    ensures
        kind == parser.kind(),
{
    match &parser.current {
        Some(t) => t.typ,
        None => TokenType::EOF,
    }
}

/// Parses the expression that begins with the token in hand, and makes it
/// the last child of `parent`. An opening parenthesis begins a list, which
/// holds the expressions that follow up to the closing parenthesis; any
/// other token is an expression by itself. Afterwards the token in hand is
/// the last token of the expression, or `EOF` where the source ended inside
/// a list, which is an error.
pub fn ast_expression(parser: &mut ASTParser, ast: &mut Ast, parent: usize)
    requires
        built(old(ast)),
        open_node(old(ast), parent),
        old(ast).opens_at(parent),
        old(parser).at_token(),
        old(parser).kind() != TokenType::RIGHTPAREN,
        old(parser).kind() != TokenType::EOF,
        old(parser).scanner.current <= old(parser).bytes().len(),
    ensures
        built(final(ast)),
        final(ast).extends(old(ast)),
        final(parser).at_token(),
        final(parser).source == old(parser).source,
        final(parser).scanner.tokens == old(parser).scanner.tokens,
        final(parser).scanner.current <= final(parser).bytes().len(),
        final(parser).left() <= old(parser).left(),
        told(final(ast), final(parser), false) == told(old(ast), old(parser), true),
        old(parser).reported() ==> final(parser).reported(),
        (final(parser).had_error || final(parser).errors_to_come()) == (old(parser).had_error
            || old(parser).errors_ahead() || final(parser).kind() == TokenType::EOF),
        above(
            final(ast).tokens@,
            final(ast).datum(parent) as int,
            final(ast).tokens@.len() as int,
        ),
        final(parser).kind() != TokenType::EOF ==> final(ast).opens_at(parent),
        final(parser).kind() == TokenType::EOF ==> level(
            final(ast).tokens@,
            final(ast).tokens@.len() as int,
        ) > level(final(ast).tokens@, final(ast).datum(parent) as int) + 1,
        clean(final(ast).tokens@, final(ast).tokens@.len() as int) == clean(
            old(ast).tokens@,
            old(ast).tokens@.len() as int,
        ),
    decreases old(parser).left(),
{
    let list = current_kind(parser) == TokenType::LEFTPAREN;
    let node = place(parser, ast, parent);
    proof {
        lemma_lexemes_push(old(ast).tokens@, parser.current.unwrap());
        assert(told(ast, parser, false) =~= told(old(ast), old(parser), true));
    }
    if !list {
        return;
    }
    let ghost d_node = ast.datum(node) as int;
    let ghost d_parent = ast.datum(parent) as int;
    loop
        invariant
            built(ast),
            ast.extends(old(ast)),
            open_node(ast, node),
            old(ast).has(parent),
            ast.datum(node) == d_node,
            ast.datum(parent) == d_parent,
            d_parent < d_node < ast.tokens@.len(),
            parser.at_token(),
            parser.kind() != TokenType::EOF,
            parser.source == old(parser).source,
            parser.scanner.tokens == old(parser).scanner.tokens,
            parser.scanner.current <= parser.bytes().len(),
            parser.left() <= old(parser).left(),
            told(ast, parser, false) == told(old(ast), old(parser), true),
            old(parser).reported() ==> parser.reported(),
            ast.opens_at(node),
            above(ast.tokens@, d_parent, ast.tokens@.len() as int),
            level(ast.tokens@, d_node) == level(ast.tokens@, d_parent) + 1,
            clean(ast.tokens@, ast.tokens@.len() as int) == clean(
                old(ast).tokens@,
                old(ast).tokens@.len() as int,
            ),
            (parser.had_error || parser.errors_to_come()) == (old(parser).had_error
                || old(parser).errors_ahead()),
        decreases parser.left(),
    {
        let ghost before = *parser;
        let ghost tree = *ast;
        ast_advance(parser);
        proof {
            lemma_ahead(&before, parser);
        }
        let kind = current_kind(parser);
        if kind == TokenType::RIGHTPAREN {
            close(parser, ast);
            proof {
                lemma_lexemes_push(tree.tokens@, parser.current.unwrap());
                lemma_extends_twice(old(ast), &tree, ast);
                assert(told(ast, parser, false) =~= told(old(ast), old(parser), true));
                assert(ast.datum(parent) == d_parent);
                assert forall|j: int| d_parent < j <= ast.tokens@.len() implies #[trigger] level(
                    ast.tokens@,
                    j,
                ) > level(ast.tokens@, d_parent) by {
                    if j <= tree.tokens@.len() {
                        assert(level(tree.tokens@, j) > level(tree.tokens@, d_parent));
                    }
                }
            }
            return;
        }
        if kind == TokenType::EOF {
            ast_error_at_current(parser, "Expected ')' before the end.".to_owned());
            proof {
                assert(told(ast, parser, false) =~= told(old(ast), old(parser), true));
            }
            return;
        }
        proof {
            assert(told(ast, parser, true) =~= told(old(ast), old(parser), true));
        }
        ast_expression(parser, ast, node);
        proof {
            lemma_extends_twice(old(ast), &tree, ast);
            lemma_extends_keeps(&tree, ast, node);
            assert(tree.datum(node) < tree.tokens@.len());
            assert(tree.has(parent));
            assert(ast.datum(parent) == d_parent);
            assert forall|i: int| 0 <= i < tree.tokens@.len() implies tree.tokens@[i]
                == ast.tokens@[i] by {
                assert(ast.tokens@.take(tree.tokens@.len() as int)[i] == ast.tokens@[i]);
            }
            lemma_level_prefix(tree.tokens@, ast.tokens@, d_node);
            lemma_level_prefix(tree.tokens@, ast.tokens@, d_parent);
            assert forall|j: int| d_parent < j <= ast.tokens@.len() implies #[trigger] level(
                ast.tokens@,
                j,
            ) > level(ast.tokens@, d_parent) by {
                if j <= tree.tokens@.len() {
                    lemma_level_prefix(tree.tokens@, ast.tokens@, j);
                    assert(level(tree.tokens@, j) > level(tree.tokens@, d_parent));
                } else {
                    assert(level(ast.tokens@, j) > level(ast.tokens@, d_node));
                }
            }
        }
        if current_kind(parser) == TokenType::EOF {
            return;
        }
    }
}

/// What stands for the token of the root among the tokens of a tree: a
/// `NOOP` at the start of the source, of no length and on no line.
pub open spec fn root_lexeme() -> Lexeme {
    Lexeme { kind: TokenType::NOOP, start: 0, end: 0, line: 0, message: None }
}

/// The token of the root of every tree.
pub fn root_token() -> (token: Token)
    ensures
        token == (Token { typ: TokenType::NOOP, line: 0, start: 0, length: 0, error: None }),
        lexeme_of(token) == root_lexeme(),
{
    Token { typ: TokenType::NOOP, line: 0, start: 0, length: 0, error: None }
}

/// Parses the source from the parser's position on into a tree: the root,
/// and below it one expression after the other. A closing parenthesis that
/// closes nothing is an error and gets no node. Afterwards the token in hand
/// is `EOF`.
///
/// The tokens of the tree are the root's and then those that the scanner
/// finds, without the errors. The parser has met an error exactly if it had
/// met one before, the scanner meets one, or the parentheses do not match.
pub fn build_ast(parser: &mut ASTParser) -> (ast: Ast)
    ensures
        built(&ast),
        final(parser).at_token(),
        final(parser).kind() == TokenType::EOF,
        final(parser).source == old(parser).source,
        final(parser).scanner.tokens == old(parser).scanner.tokens,
        lexemes(ast.tokens@) == seq![root_lexeme()] + old(parser).ahead(),
        final(parser).had_error == (old(parser).had_error || old(parser).errors_ahead()
            || !balanced(ast.tokens@)),
        old(parser).reported() ==> final(parser).reported(),
{
    let mut ast = Ast::new(root_token());
    proof {
        assert(ast.children(ast.root) =~= Seq::<usize>::empty());
        assert(lexemes(ast.tokens@) =~= seq![root_lexeme()]);
        assert(ast.node_of(ast.root, 0));
        assert(ast.covered());
        assert(ast.nested());
        assert(ast.opens_at(ast.root));
    }
    let ghost before = *parser;
    ast_advance(parser);
    proof {
        lemma_ahead(&before, parser);
        assert(told(&ast, parser, true) =~= seq![root_lexeme()] + old(parser).ahead());
    }
    loop
        invariant
            built(&ast),
            ast.opens_at(ast.root),
            parser.at_token(),
            parser.source == old(parser).source,
            parser.scanner.tokens == old(parser).scanner.tokens,
            parser.kind() != TokenType::EOF ==> parser.scanner.current <= parser.bytes().len(),
            told(&ast, parser, true) == seq![root_lexeme()] + old(parser).ahead(),
            old(parser).reported() ==> parser.reported(),
            (parser.had_error || parser.errors_to_come()) == (old(parser).had_error
                || old(parser).errors_ahead() || !clean(ast.tokens@, ast.tokens@.len() as int)),
        decreases
                parser.left() + if parser.kind() != TokenType::EOF {
                    1nat
                } else {
                    0nat
                },
    {
        let kind = current_kind(parser);
        if kind == TokenType::EOF {
            proof {
                assert(told(&ast, parser, true) =~= lexemes(ast.tokens@));
            }
            return ast;
        }
        parser.panic_mode = false;
        let ghost tree = ast;
        if kind == TokenType::RIGHTPAREN {
            ast_error_at_current(parser, "Unexpected ')'.".to_owned());
            close(parser, &mut ast);
            proof {
                lemma_lexemes_push(tree.tokens@, parser.current.unwrap());
                assert(told(&ast, parser, false) =~= seq![root_lexeme()] + old(parser).ahead());
                assert(ast.datum(ast.root) == 0);
                assert forall|j: int| 0 < j <= ast.tokens@.len() implies #[trigger] level(
                    ast.tokens@,
                    j,
                ) > level(ast.tokens@, 0) by {
                    crate::nesting::lemma_level_positive(ast.tokens@, j);
                }
            }
        } else {
            let root: usize = ast.root;
            ast_expression(parser, &mut ast, root);
            if current_kind(parser) == TokenType::EOF {
                proof {
                    assert(told(&ast, parser, false) =~= lexemes(ast.tokens@));
                    assert(ast.datum(ast.root) == 0);
                }
                return ast;
            }
        }
        let ghost mid = *parser;
        ast_advance(parser);
        proof {
            lemma_ahead(&mid, parser);
            assert(told(&ast, parser, true) =~= told(&ast, &mid, false));
        }
    }
}

/// Whether `ast` is the tree of the source `src`: it is as the parser builds
/// trees, and its tokens are the root's and then those of the source that are
/// no errors, in order.
pub open spec fn parses(src: Seq<u8>, ast: &Ast) -> bool {
    &&& built(ast)
    &&& lexemes(ast.tokens@) == seq![root_lexeme()] + stream(
        src,
        0,
        1,
        crate::scanner::reserved_words(),
    )
}

/// Whether the parser meets an error in the source `src`, of which `ast` is
/// the tree: the scanner meets one, or the parentheses do not match.
pub open spec fn parse_fails(src: Seq<u8>, ast: &Ast) -> bool {
    errors(src, 0, 1, crate::scanner::reserved_words()) || !balanced(ast.tokens@)
}

/// Parses the whole of `source`. Returns the tree and the parser, which
/// says whether an error was found and holds the errors to report.
pub fn parse<'a>(source: &'a str) -> (parsed: (Ast, ASTParser<'a>))
    ensures
        parses(source.spec_bytes(), &parsed.0),
        parsed.1.had_error == parse_fails(source.spec_bytes(), &parsed.0),
        parsed.1.reported(),
        parsed.1.source == source,
{
    let mut parser = init_parser(source);
    let ast = build_ast(&mut parser);
    (ast, parser)
}

} // verus!
