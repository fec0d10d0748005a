use vstd::prelude::*;
use vstd::string::*;
use radix_trie::Trie;
use crate::keywords::{no_entries, trie_entries, trie_get, trie_insert, trie_new};
pub use crate::token::{Token, TokenType};

verus! {

/// The byte that stands for an ASCII character.
pub open spec fn byte(c: char) -> u8 {
    c as u8
}

/// The bytes of a text of ASCII characters.
pub open spec fn ascii(text: Seq<char>) -> Seq<u8> {
    Seq::new(text.len(), |i: int| text[i] as u8)
}

/// The classes of bytes by which the scanner delimits a run.
#[derive(Debug, Clone, Copy)]
pub enum Class {
    /// Blanks and newlines.
    Space,
    /// The digits `0` to `9`.
    Digit,
    /// What an identifier holds after its first letter: lower-case letters,
    /// digits, `_` and `-`.
    Symbol,
    /// What a keyword literal holds after its colon: as `Symbol`, and `:`.
    Keyword,
    /// What a string holds between its quotes: anything but `"`.
    Text,
}

pub open spec fn is_newline(b: u8) -> bool {
    b == byte('\n')
}

pub open spec fn is_space(b: u8) -> bool {
    b == byte(' ') || b == byte('\r') || b == byte('\t') || is_newline(b)
}

pub open spec fn is_digit(b: u8) -> bool {
    byte('0') <= b <= byte('9')
}

pub open spec fn is_lower(b: u8) -> bool {
    byte('a') <= b <= byte('z')
}

pub open spec fn is_symbol_byte(b: u8) -> bool {
    is_digit(b) || is_lower(b) || b == byte('_') || b == byte('-')
}

/// Whether the byte belongs to the class.
pub open spec fn in_class(class: Class, b: u8) -> bool {
    match class {
        Class::Space => is_space(b),
        Class::Digit => is_digit(b),
        Class::Symbol => is_symbol_byte(b),
        Class::Keyword => is_symbol_byte(b) || b == byte(':'),
        Class::Text => b != byte('"'),
    }
}

/// Where the longest run of bytes of the class that starts at `from` ends:
/// the first position from `from` on that holds no byte of the class.
pub open spec fn span(s: Seq<u8>, from: int, class: Class) -> int
    decreases s.len() - from,
{
    if 0 <= from < s.len() && in_class(class, s[from]) {
        span(s, from + 1, class)
    } else {
        from
    }
}

/// The number of newlines among the bytes from `from` up to `to`.
pub open spec fn newlines(s: Seq<u8>, from: int, to: int) -> nat
    decreases to - from,
{
    if 0 <= from < to <= s.len() {
        newlines(s, from, to - 1) + if is_newline(s[to - 1]) {
            1nat
        } else {
            0nat
        }
    } else {
        0
    }
}

/// The line `count` newlines after `line`. Lines are counted up to 65535 and
/// no further.
pub open spec fn bump(line: u16, count: nat) -> u16 {
    if line + count > u16::MAX {
        u16::MAX
    } else {
        (line + count) as u16
    }
}

/// The kind of a token that is a single character whatever follows it.
pub open spec fn single(b: u8) -> Option<TokenType> {
    if b == byte('(') {
        Some(TokenType::LEFTPAREN)
    } else if b == byte(')') {
        Some(TokenType::RIGHTPAREN)
    } else if b == byte('{') {
        Some(TokenType::LEFTBRACE)
    } else if b == byte('}') {
        Some(TokenType::RIGHTBRACE)
    } else if b == byte('[') {
        Some(TokenType::LEFTBRACKET)
    } else if b == byte(']') {
        Some(TokenType::RIGHTBRACKET)
    } else if b == byte(';') {
        Some(TokenType::SEMICOLON)
    } else if b == byte(',') {
        Some(TokenType::COMMA)
    } else if b == byte('.') {
        Some(TokenType::DOT)
    } else if b == byte('-') {
        Some(TokenType::MINUS)
    } else if b == byte('+') {
        Some(TokenType::PLUS)
    } else if b == byte('*') {
        Some(TokenType::STAR)
    } else if b == byte('/') {
        Some(TokenType::SLASH)
    } else {
        None
    }
}

/// For a character that forms a token alone and another together with a
/// following `=`: the kind of the first and the kind of the second.
pub open spec fn paired(b: u8) -> Option<(TokenType, TokenType)> {
    if b == byte('!') {
        Some((TokenType::BANG, TokenType::BANGEQUAL))
    } else if b == byte('=') {
        Some((TokenType::EQUAL, TokenType::EQUALEQUAL))
    } else if b == byte('>') {
        Some((TokenType::GREATER, TokenType::GREATEREQUAL))
    } else if b == byte('<') {
        Some((TokenType::LESS, TokenType::LESSEQUAL))
    } else {
        None
    }
}

/// A token as the scanner finds it: its kind, the bytes from `start` up to
/// `end` that it spans, the line on which it ends, and for an `ERROR` the
/// message.
pub struct Lexeme {
    pub kind: TokenType,
    pub start: int,
    pub end: int,
    pub line: u16,
    pub message: Option<Seq<char>>,
}

/// The token that begins at or after `pos` in the source `s`, where `line`
/// is the line of `pos` and `dict` holds the reserved words.
///
/// Blanks and newlines before the token are passed over. At the end of the
/// source the token is `EOF`. A string runs up to its closing quote and
/// includes both quotes; without a closing quote it is an `ERROR` that runs
/// to the end. A number is a run of digits, and a `FLOAT` if a `.` and a
/// digit follow it, which then belong to it with the digits after them. A
/// lower-case letter begins a run that is a reserved word or an
/// `IDENTIFIER`. A colon begins a `KEYWORD`, which starts after the colon.
/// Any other byte is an `ERROR` of one byte.
pub open spec fn scan(s: Seq<u8>, pos: int, line: u16, dict: Map<Seq<u8>, TokenType>) -> Lexeme {
    let start = span(s, pos, Class::Space);
    let line = bump(line, newlines(s, pos, start));
    if !(0 <= start < s.len()) {
        Lexeme { kind: TokenType::EOF, start, end: start, line, message: None }
    } else {
        let b = s[start];
        if single(b).is_some() {
            Lexeme { kind: single(b).unwrap(), start, end: start + 1, line, message: None }
        } else if paired(b).is_some() {
            if start + 1 < s.len() && s[start + 1] == byte('=') {
                Lexeme { kind: paired(b).unwrap().1, start, end: start + 2, line, message: None }
            } else {
                Lexeme { kind: paired(b).unwrap().0, start, end: start + 1, line, message: None }
            }
        } else if b == byte('"') {
            let close = span(s, start + 1, Class::Text);
            let line = bump(line, newlines(s, start + 1, close));
            if close < s.len() {
                Lexeme { kind: TokenType::STRING, start, end: close + 1, line, message: None }
            } else {
                Lexeme {
                    kind: TokenType::ERROR,
                    start,
                    end: close,
                    line,
                    message: Some("Unterminated string."@),
                }
            }
        } else if is_digit(b) {
            let whole = span(s, start + 1, Class::Digit);
            if whole + 1 < s.len() && s[whole] == byte('.') && is_digit(s[whole + 1]) {
                Lexeme {
                    kind: TokenType::FLOAT,
                    start,
                    end: span(s, whole + 2, Class::Digit),
                    line,
                    message: None,
                }
            } else {
                Lexeme { kind: TokenType::INT, start, end: whole, line, message: None }
            }
        } else if is_lower(b) {
            let end = span(s, start + 1, Class::Symbol);
            let word = s.subrange(start, end);
            Lexeme {
                kind: if dict.contains_key(word) {
                    dict[word]
                } else {
                    TokenType::IDENTIFIER
                },
                start,
                end,
                line,
                message: None,
            }
        } else if b == byte(':') {
            Lexeme {
                kind: TokenType::KEYWORD,
                start: start + 1,
                end: span(s, start + 1, Class::Keyword),
                line,
                message: None,
            }
        } else {
            Lexeme {
                kind: TokenType::ERROR,
                start,
                end: start + 1,
                line,
                message: Some("Unexpected character."@),
            }
        }
    }
}

/// A run ends at or after its start, and within the source if it starts
/// there.
pub proof fn lemma_span_bounds(s: Seq<u8>, from: int, class: Class)
    ensures
        from <= span(s, from, class),
        from <= s.len() ==> span(s, from, class) <= s.len(),
        forall|i: int|
            from <= i < span(s, from, class) ==> 0 <= i < s.len() && in_class(
                class,
                #[trigger] s[i],
            ),
        0 <= span(s, from, class) < s.len() ==> !in_class(class, s[span(s, from, class)]),
    decreases s.len() - from,
{
    if 0 <= from < s.len() && in_class(class, s[from]) {
        lemma_span_bounds(s, from + 1, class);
    }
}

/// Counting newlines in two steps gives what counting them at once gives.
pub proof fn lemma_bump_twice(line: u16, a: nat, b: nat)
    ensures
        bump(bump(line, a), b) == bump(line, a + b),
{
}

impl Token {
    /// Whether the token is the lexeme `lx`.
    pub open spec fn is(&self, lx: Lexeme) -> bool {
        &&& self.typ == lx.kind
        &&& self.start == lx.start
        &&& self.length == lx.end - lx.start
        &&& self.line == lx.line
        &&& match (self.error, lx.message) {
            (Some(text), Some(message)) => text@ == message,
            (None, None) => true,
            _ => false,
        }
    }
}

/// Between two positions that hold no newline there is no newline to count.
pub proof fn lemma_no_newlines(s: Seq<u8>, from: int, to: int)
    requires
        forall|i: int| from <= i < to ==> 0 <= i < s.len() && !is_newline(#[trigger] s[i]),
    ensures
        newlines(s, from, to) == 0,
    decreases to - from,
{
    if 0 <= from < to <= s.len() {
        lemma_no_newlines(s, from, to - 1);
    }
}

/// The reserved words, each with the kind that it scans as.
pub open spec fn reserved_words() -> Map<Seq<u8>, TokenType> {
    no_entries().insert(ascii("and"@), TokenType::AND).insert(ascii("or"@), TokenType::OR).insert(
        ascii("false"@),
        TokenType::FALSE,
    ).insert(ascii("if"@), TokenType::IF).insert(ascii("let"@), TokenType::LET).insert(
        ascii("nil"@),
        TokenType::NIL,
    ).insert(ascii("print"@), TokenType::PRINT).insert(ascii("true"@), TokenType::TRUE).insert(
        ascii("not"@),
        TokenType::NOT,
    ).insert(ascii("len"@), TokenType::LEN).insert(ascii("def"@), TokenType::DEF)
}

/// The bytes of a text of ASCII characters.
pub fn word(text: &str) -> (bytes: Vec<u8>)
    requires
        is_ascii(text),
    ensures
        bytes@ == ascii(text@),
{
    broadcast use is_ascii_spec_bytes;

    text.as_bytes_vec()
}

/// The dictionary of the reserved words.
pub fn init_token_trie() -> (trie: Trie<Vec<u8>, TokenType>)
    ensures
        trie_entries(trie) == reserved_words(),
{
    proof {
        reveal_strlit("and");
        reveal_strlit("or");
        reveal_strlit("false");
        reveal_strlit("if");
        reveal_strlit("let");
        reveal_strlit("nil");
        reveal_strlit("print");
        reveal_strlit("true");
        reveal_strlit("not");
        reveal_strlit("len");
        reveal_strlit("def");
    }
    let mut trie = trie_new();
    trie_insert(&mut trie, word("and"), TokenType::AND);
    trie_insert(&mut trie, word("or"), TokenType::OR);
    trie_insert(&mut trie, word("false"), TokenType::FALSE);
    trie_insert(&mut trie, word("if"), TokenType::IF);
    trie_insert(&mut trie, word("let"), TokenType::LET);
    trie_insert(&mut trie, word("nil"), TokenType::NIL);
    trie_insert(&mut trie, word("print"), TokenType::PRINT);
    trie_insert(&mut trie, word("true"), TokenType::TRUE);
    trie_insert(&mut trie, word("not"), TokenType::NOT);
    trie_insert(&mut trie, word("len"), TokenType::LEN);
    trie_insert(&mut trie, word("def"), TokenType::DEF);
    trie
}

/// The state of a scan: the line and the position that it has reached, the
/// start of the token in hand, and the dictionary of reserved words.
#[derive(Debug)]
pub struct Scanner {
    pub line: u16,
    pub start: usize,
    pub current: usize,
    pub tokens: Trie<Vec<u8>, TokenType>,
}

/// A scanner at the start of a source, on line 1, with the reserved words.
pub fn init_scanner() -> (scanner: Scanner)
    ensures
        scanner.line == 1,
        scanner.start == 0,
        scanner.current == 0,
        trie_entries(scanner.tokens) == reserved_words(),
{
    Scanner { line: 1, start: 0, current: 0, tokens: init_token_trie() }
}

pub const TAB: u8 = 9;

pub const NEWLINE: u8 = 10;

pub const RETURN: u8 = 13;

pub const SPACE: u8 = 32;

pub const QUOTE: u8 = 34;

pub const DOT: u8 = 46;

pub const COLON: u8 = 58;

pub const EQUALS: u8 = 61;

/// Whether the byte is a digit.
pub fn digit(b: u8) -> (r: bool)
    ensures
        r == is_digit(b),
{
    48 <= b && b <= 57
}

/// Whether the byte is a lower-case letter.
pub fn lower(b: u8) -> (r: bool)
    ensures
        r == is_lower(b),
{
    97 <= b && b <= 122
}

/// Whether the byte belongs to the class.
pub fn belongs(class: Class, b: u8) -> (r: bool)
    ensures
        r == in_class(class, b),
{
    match class {
        Class::Space => b == SPACE || b == RETURN || b == TAB || b == NEWLINE,
        Class::Digit => digit(b),
        Class::Symbol => digit(b) || lower(b) || b == 95 || b == 45,
        Class::Keyword => digit(b) || lower(b) || b == 95 || b == 45 || b == COLON,
        Class::Text => b != QUOTE,
    }
}

/// Whether the scanner has reached the end of the source.
pub fn is_at_end(scanner: &Scanner, source: &[u8]) -> (end: bool)
    ensures
        end == (scanner.current >= source@.len()),
{
    scanner.current >= source.len()
}

/// The byte at the scanner's position.
pub fn peek(scanner: &Scanner, source: &[u8]) -> (b: u8)
    requires
        scanner.current < source@.len(),
    ensures
        b == source@[scanner.current as int],
{
    source[scanner.current]
}

/// The byte after the one at the scanner's position.
pub fn peek_next(scanner: &Scanner, source: &[u8]) -> (b: u8)
    requires
        scanner.current + 1 < source@.len(),
    ensures
        b == source@[scanner.current + 1],
{
    assert(scanner.current + 1 < source.len());
    source[scanner.current + 1]
}

/// Passes over the byte at the scanner's position if it is `expected`, and
/// says whether it was.
pub fn char_match(expected: u8, scanner: &mut Scanner, source: &[u8]) -> (matched: bool)
    ensures
        matched == (old(scanner).current < source@.len() && source@[old(scanner).current as int]
            == expected),
        final(scanner).current == old(scanner).current + if matched {
            1int
        } else {
            0int
        },
        final(scanner).start == old(scanner).start,
        final(scanner).line == old(scanner).line,
        final(scanner).tokens == old(scanner).tokens,
{
    if is_at_end(scanner, source) {
        return false;
    }
    if source[scanner.current] != expected {
        return false;
    }
    scanner.current += 1;
    true
}

/// Passes over the byte at the scanner's position and returns it.
pub fn advance_byte(scanner: &mut Scanner, source: &[u8]) -> (b: u8)
    requires
        old(scanner).current < source@.len(),
    ensures
        b == source@[old(scanner).current as int],
        final(scanner).current == old(scanner).current + 1,
        final(scanner).start == old(scanner).start,
        final(scanner).line == old(scanner).line,
        final(scanner).tokens == old(scanner).tokens,
{
    assert(scanner.current < source.len());
    scanner.current += 1;
    source[scanner.current - 1]
}

/// Passes over the byte at the scanner's position and returns it.
pub fn advance(scanner: &mut Scanner, source: &str) -> (b: u8)
    requires
        old(scanner).current < source.spec_bytes().len(),
    ensures
        b == source.spec_bytes()[old(scanner).current as int],
        final(scanner).current == old(scanner).current + 1,
        final(scanner).start == old(scanner).start,
        final(scanner).line == old(scanner).line,
        final(scanner).tokens == old(scanner).tokens,
{
    advance_byte(scanner, source.as_bytes())
}

/// The token of kind `typ` that runs from the scanner's start to its
/// position.
pub fn make_token(typ: TokenType, scanner: &Scanner) -> (token: Token)
    requires
        scanner.start <= scanner.current,
    ensures
        token.is(
            Lexeme {
                kind: typ,
                start: scanner.start as int,
                end: scanner.current as int,
                line: scanner.line,
                message: None,
            },
        ),
{
    Token {
        typ,
        line: scanner.line,
        start: scanner.start,
        length: scanner.current - scanner.start,
        error: None,
    }
}

/// The `ERROR` token with the given message that runs from the scanner's
/// start to its position.
pub fn error_token(message: String, scanner: &Scanner) -> (token: Token)
    requires
        scanner.start <= scanner.current,
    ensures
        token.is(
            Lexeme {
                kind: TokenType::ERROR,
                start: scanner.start as int,
                end: scanner.current as int,
                line: scanner.line,
                message: Some(message@),
            },
        ),
{
    Token {
        typ: TokenType::ERROR,
        line: scanner.line,
        start: scanner.start,
        length: scanner.current - scanner.start,
        error: Some(message),
    }
}

/// Passes over the longest run of bytes of the class at the scanner's
/// position, and counts the newlines in it.
pub fn pass_run(scanner: &mut Scanner, source: &[u8], class: Class)
    ensures
        final(scanner).current == span(source@, old(scanner).current as int, class),
        final(scanner).current >= old(scanner).current,
        final(scanner).line == bump(
            old(scanner).line,
            newlines(source@, old(scanner).current as int, final(scanner).current as int),
        ),
        final(scanner).start == old(scanner).start,
        final(scanner).tokens == old(scanner).tokens,
{
    let ghost from = scanner.current as int;
    let ghost line = scanner.line;
    while !is_at_end(scanner, source) && belongs(class, peek(scanner, source))
        invariant
            0 <= from <= scanner.current,
            from < source@.len() ==> scanner.current <= source@.len(),
            span(source@, scanner.current as int, class) == span(source@, from, class),
            scanner.line == bump(line, newlines(source@, from, scanner.current as int)),
            scanner.start == old(scanner).start,
            scanner.tokens == old(scanner).tokens,
        decreases source@.len() - scanner.current,
    {
        let ghost seen = newlines(source@, from, scanner.current as int);
        let b = advance_byte(scanner, source);
        if b == NEWLINE && scanner.line < u16::MAX {
            scanner.line += 1;
        }
        proof {
            let to = scanner.current as int;
            assert(newlines(source@, from, to) == newlines(source@, from, to - 1) + if is_newline(
                source@[to - 1],
            ) {
                1nat
            } else {
                0nat
            });
            lemma_bump_twice(line, seen, 1);
        }
    }
}

/// Passes over blanks and newlines, counts the newlines, and lets the next
/// token start where they end.
pub fn skip_whitespace(scanner: &mut Scanner, source: &[u8])
    ensures
        final(scanner).current == span(source@, old(scanner).current as int, Class::Space),
        final(scanner).line == bump(
            old(scanner).line,
            newlines(source@, old(scanner).current as int, final(scanner).current as int),
        ),
        final(scanner).start == final(scanner).current,
        final(scanner).tokens == old(scanner).tokens,
{
    pass_run(scanner, source, Class::Space);
    scanner.start = scanner.current;
}

/// The rest of a string whose opening quote the scanner has passed: a
/// `STRING` up to and with the closing quote, or an `ERROR` where the source
/// ends before one.
pub fn string(scanner: &mut Scanner, source: &[u8]) -> (token: Token)
    requires
        old(scanner).start <= old(scanner).current,
    ensures
        ({
            let close = span(source@, old(scanner).current as int, Class::Text);
            let line = bump(
                old(scanner).line,
                newlines(source@, old(scanner).current as int, close),
            );
            &&& final(scanner).line == line
            &&& if close < source@.len() {
                &&& final(scanner).current == close + 1
                &&& token.is(
                    Lexeme {
                        kind: TokenType::STRING,
                        start: old(scanner).start as int,
                        end: close + 1,
                        line,
                        message: None,
                    },
                )
            } else {
                &&& final(scanner).current == close
                &&& token.is(
                    Lexeme {
                        kind: TokenType::ERROR,
                        start: old(scanner).start as int,
                        end: close,
                        line,
                        message: Some("Unterminated string."@),
                    },
                )
            }
        }),
        final(scanner).start == old(scanner).start,
        final(scanner).tokens == old(scanner).tokens,
{
    pass_run(scanner, source, Class::Text);
    if is_at_end(scanner, source) {
        return error_token("Unterminated string.".to_owned(), scanner);
    }
    let _ = advance_byte(scanner, source);
    make_token(TokenType::STRING, scanner)
}

/// The rest of a number whose first digit the scanner has passed: the
/// digits that follow and, where a `.` and a digit come after them, these and
/// the digits after them. The token is a `FLOAT` in the second case and an
/// `INT` in the first.
pub fn number(scanner: &mut Scanner, source: &[u8]) -> (token: Token)
    requires
        old(scanner).start <= old(scanner).current,
    ensures
        ({
            let whole = span(source@, old(scanner).current as int, Class::Digit);
            if whole + 1 < source@.len() && source@[whole] == byte('.') && is_digit(
                source@[whole + 1],
            ) {
                &&& final(scanner).current == span(source@, whole + 2, Class::Digit)
                &&& token.is(
                    Lexeme {
                        kind: TokenType::FLOAT,
                        start: old(scanner).start as int,
                        end: span(source@, whole + 2, Class::Digit),
                        line: old(scanner).line,
                        message: None,
                    },
                )
            } else {
                &&& final(scanner).current == whole
                &&& token.is(
                    Lexeme {
                        kind: TokenType::INT,
                        start: old(scanner).start as int,
                        end: whole,
                        line: old(scanner).line,
                        message: None,
                    },
                )
            }
        }),
        final(scanner).line == old(scanner).line,
        final(scanner).start == old(scanner).start,
        final(scanner).tokens == old(scanner).tokens,
{
    proof {
        lemma_digits_on_a_line(source@, scanner.current as int);
    }
    pass_run(scanner, source, Class::Digit);
    if scanner.current < source.len() && source.len() - scanner.current > 1 && peek(
        scanner,
        source,
    ) == DOT && digit(peek_next(scanner, source)) {
        let _ = advance_byte(scanner, source);
        let _ = advance_byte(scanner, source);
        proof {
            lemma_digits_on_a_line(source@, scanner.current as int);
        }
        pass_run(scanner, source, Class::Digit);
        make_token(TokenType::FLOAT, scanner)
    } else {
        make_token(TokenType::INT, scanner)
    }
}

/// A run of digits holds no newline.
pub proof fn lemma_digits_on_a_line(s: Seq<u8>, from: int)
    ensures
        newlines(s, from, span(s, from, Class::Digit)) == 0,
{
    lemma_span_bounds(s, from, Class::Digit);
    lemma_no_newlines(s, from, span(s, from, Class::Digit));
}

/// A run of the bytes of an identifier holds no newline.
pub proof fn lemma_symbol_on_a_line(s: Seq<u8>, from: int)
    ensures
        newlines(s, from, span(s, from, Class::Symbol)) == 0,
{
    lemma_span_bounds(s, from, Class::Symbol);
    lemma_no_newlines(s, from, span(s, from, Class::Symbol));
}

/// A run of the bytes of a keyword literal holds no newline.
pub proof fn lemma_keyword_on_a_line(s: Seq<u8>, from: int)
    ensures
        newlines(s, from, span(s, from, Class::Keyword)) == 0,
{
    lemma_span_bounds(s, from, Class::Keyword);
    lemma_no_newlines(s, from, span(s, from, Class::Keyword));
}

/// The rest of a word whose first letter the scanner has passed. The token
/// is of the kind that the dictionary holds for the word, and an
/// `IDENTIFIER` where it holds none.
pub fn identifier(scanner: &mut Scanner, source: &[u8]) -> (token: Token)
    requires
        old(scanner).start <= old(scanner).current <= source@.len(),
    ensures
        ({
            let end = span(source@, old(scanner).current as int, Class::Symbol);
            let word = source@.subrange(old(scanner).start as int, end);
            let dict = trie_entries(old(scanner).tokens);
            &&& final(scanner).current == end
            &&& token.is(
                Lexeme {
                    kind: if dict.contains_key(word) {
                        dict[word]
                    } else {
                        TokenType::IDENTIFIER
                    },
                    start: old(scanner).start as int,
                    end,
                    line: old(scanner).line,
                    message: None,
                },
            )
        }),
        final(scanner).line == old(scanner).line,
        final(scanner).start == old(scanner).start,
        final(scanner).tokens == old(scanner).tokens,
{
    proof {
        lemma_symbol_on_a_line(source@, scanner.current as int);
        lemma_span_bounds(source@, scanner.current as int, Class::Symbol);
    }
    pass_run(scanner, source, Class::Symbol);
    let word = vstd::slice::slice_subrange(source, scanner.start, scanner.current);
    match trie_get(&scanner.tokens, word) {
        Some(kind) => make_token(kind, scanner),
        None => make_token(TokenType::IDENTIFIER, scanner),
    }
}

/// The rest of a keyword literal whose colon the scanner has passed. The
/// token starts after the colon.
pub fn keyword(scanner: &mut Scanner, source: &[u8]) -> (token: Token)
    requires
        old(scanner).start < old(scanner).current,
    ensures
        final(scanner).current == span(source@, old(scanner).current as int, Class::Keyword),
        token.is(
            Lexeme {
                kind: TokenType::KEYWORD,
                start: old(scanner).start + 1,
                end: final(scanner).current as int,
                line: old(scanner).line,
                message: None,
            },
        ),
        final(scanner).line == old(scanner).line,
        final(scanner).start == old(scanner).start + 1,
        final(scanner).tokens == old(scanner).tokens,
{
    proof {
        lemma_keyword_on_a_line(source@, scanner.current as int);
    }
    scanner.start += 1;
    pass_run(scanner, source, Class::Keyword);
    make_token(TokenType::KEYWORD, scanner)
}

/// The kind of a token that is a single character whatever follows it.
pub fn single_kind(b: u8) -> (kind: Option<TokenType>)
    ensures
        kind == single(b),
{
    match b {
        40 => Some(TokenType::LEFTPAREN),
        41 => Some(TokenType::RIGHTPAREN),
        123 => Some(TokenType::LEFTBRACE),
        125 => Some(TokenType::RIGHTBRACE),
        91 => Some(TokenType::LEFTBRACKET),
        93 => Some(TokenType::RIGHTBRACKET),
        59 => Some(TokenType::SEMICOLON),
        44 => Some(TokenType::COMMA),
        46 => Some(TokenType::DOT),
        45 => Some(TokenType::MINUS),
        43 => Some(TokenType::PLUS),
        42 => Some(TokenType::STAR),
        47 => Some(TokenType::SLASH),
        _ => None,
    }
}

/// For a character that forms a token alone and another together with a
/// following `=`: the kind of the first and the kind of the second.
pub fn paired_kinds(b: u8) -> (kinds: Option<(TokenType, TokenType)>)
    ensures
        kinds == paired(b),
{
    match b {
        33 => Some((TokenType::BANG, TokenType::BANGEQUAL)),
        61 => Some((TokenType::EQUAL, TokenType::EQUALEQUAL)),
        62 => Some((TokenType::GREATER, TokenType::GREATEREQUAL)),
        60 => Some((TokenType::LESS, TokenType::LESSEQUAL)),
        _ => None,
    }
}

/// Scans the next token of the source; see [`scan`]. The scanner is then
/// at the end of the token.
pub fn scan_token(scanner: &mut Scanner, source: &str) -> (token: Token)
    ensures
        ({
            let lx = scan(
                source.spec_bytes(),
                old(scanner).current as int,
                old(scanner).line,
                trie_entries(old(scanner).tokens),
            );
            &&& token.is(lx)
            &&& final(scanner).current == lx.end
            &&& final(scanner).start == lx.start
            &&& final(scanner).line == lx.line
        }),
        final(scanner).tokens == old(scanner).tokens,
{
    let bytes = source.as_bytes();
    scanner.start = scanner.current;
    skip_whitespace(scanner, bytes);
    if is_at_end(scanner, bytes) {
        return make_token(TokenType::EOF, scanner);
    }
    let c = advance_byte(scanner, bytes);
    if let Some(kind) = single_kind(c) {
        return make_token(kind, scanner);
    }
    if let Some(kinds) = paired_kinds(c) {
        if char_match(EQUALS, scanner, bytes) {
            return make_token(kinds.1, scanner);
        } else {
            return make_token(kinds.0, scanner);
        }
    }
    if c == QUOTE {
        string(scanner, bytes)
    } else if digit(c) {
        number(scanner, bytes)
    } else if lower(c) {
        identifier(scanner, bytes)
    } else if c == COLON {
        keyword(scanner, bytes)
    } else {
        error_token("Unexpected character.".to_owned(), scanner)
    }
}

} // verus!
