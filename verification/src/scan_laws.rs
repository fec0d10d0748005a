use vstd::prelude::*;
use crate::scanner::{
    byte, in_class, is_digit, is_lower, is_space, is_symbol_byte, lemma_span_bounds, newlines,
    reserved_words, scan, span, Class, Lexeme,
};
use crate::token::TokenType;

verus! {

/// Whether a dictionary is one that a scanner can use: no word in it
/// stands for the end of the source.
pub open spec fn usable(dict: Map<Seq<u8>, TokenType>) -> bool {
    forall|w: Seq<u8>| dict.contains_key(w) ==> #[trigger] dict[w] != TokenType::EOF
}

/// A token is `EOF` exactly where blanks and newlines lead to the end of
/// the source; any other token ends after the position from which it was
/// scanned, and within the source.
pub proof fn lemma_scan_progress(s: Seq<u8>, pos: int, line: u16, dict: Map<Seq<u8>, TokenType>)
    requires
        0 <= pos <= s.len(),
        usable(dict),
    ensures
        pos <= scan(s, pos, line, dict).start <= scan(s, pos, line, dict).end <= s.len(),
        scan(s, pos, line, dict).kind == TokenType::EOF <==> span(s, pos, Class::Space) == s.len(),
        scan(s, pos, line, dict).kind == TokenType::EOF ==> scan(s, pos, line, dict).end
            == s.len(),
        scan(s, pos, line, dict).kind != TokenType::EOF ==> pos < scan(s, pos, line, dict).end,
{
    let start = span(s, pos, Class::Space);
    lemma_span_bounds(s, pos, Class::Space);
    if start < s.len() {
        lemma_span_bounds(s, start + 1, Class::Text);
        lemma_span_bounds(s, start + 1, Class::Digit);
        lemma_span_bounds(s, start + 1, Class::Symbol);
        lemma_span_bounds(s, start + 1, Class::Keyword);
        let whole = span(s, start + 1, Class::Digit);
        lemma_span_bounds(s, whole + 2, Class::Digit);
    }
}

/// What lies between the position from which a token was scanned and the
/// start of the token: blanks and newlines, and before a `KEYWORD` the colon
/// that introduces it.
pub proof fn lemma_gap(s: Seq<u8>, pos: int, line: u16, dict: Map<Seq<u8>, TokenType>, i: int)
    requires
        0 <= pos <= i < scan(s, pos, line, dict).start,
        usable(dict),
    ensures
        i < s.len(),
        is_space(s[i]) || (scan(s, pos, line, dict).kind == TokenType::KEYWORD && i + 1 == scan(
            s,
            pos,
            line,
            dict,
        ).start && s[i] == byte(':')),
{
    lemma_span_bounds(s, pos, Class::Space);
}

/// The tokens of the source from `pos` on, up to and with the `EOF`.
pub open spec fn tokens(s: Seq<u8>, pos: int, line: u16, dict: Map<Seq<u8>, TokenType>) -> Seq<
    Lexeme,
>
    decreases s.len() - pos,
{
    let lx = scan(s, pos, line, dict);
    if lx.kind == TokenType::EOF || !(pos < lx.end <= s.len()) {
        seq![lx]
    } else {
        seq![lx] + tokens(s, lx.end, lx.line, dict)
    }
}

/// The number of bytes that the tokens `ts`, scanned one after the other
/// from `pos` on, account for: for each token its length and what lies
/// between it and the token before.
pub open spec fn extent(ts: Seq<Lexeme>, pos: int) -> int
    decreases ts.len(),
{
    if ts.len() == 0 {
        0
    } else {
        (ts[0].start - pos) + (ts[0].end - ts[0].start) + extent(ts.drop_first(), ts[0].end)
    }
}

/// The tokens of a source account for all of it: their lengths and what
/// lies between them add up to the length of the source. The last token is
/// `EOF`, and no token before it is.
pub proof fn lemma_tokens_cover(s: Seq<u8>, pos: int, line: u16, dict: Map<Seq<u8>, TokenType>)
    requires
        0 <= pos <= s.len(),
        usable(dict),
    ensures
        tokens(s, pos, line, dict).len() > 0,
        tokens(s, pos, line, dict).last().kind == TokenType::EOF,
        forall|k: int|
            0 <= k < tokens(s, pos, line, dict).len() - 1 ==> (#[trigger] tokens(
                s,
                pos,
                line,
                dict,
            )[k]).kind != TokenType::EOF,
        extent(tokens(s, pos, line, dict), pos) == s.len() - pos,
    decreases s.len() - pos,
{
    let lx = scan(s, pos, line, dict);
    lemma_scan_progress(s, pos, line, dict);
    let ts = tokens(s, pos, line, dict);
    if lx.kind == TokenType::EOF {
        assert(ts =~= seq![lx]);
        assert(ts.drop_first() =~= Seq::<Lexeme>::empty());
        assert(extent(ts.drop_first(), lx.end) == 0);
    } else {
        let rest = tokens(s, lx.end, lx.line, dict);
        lemma_tokens_cover(s, lx.end, lx.line, dict);
        assert(ts =~= seq![lx] + rest);
        assert(ts.drop_first() =~= rest);
        assert(ts.last() == rest.last());
        assert forall|k: int| 0 <= k < ts.len() - 1 implies (#[trigger] ts[k]).kind
            != TokenType::EOF by {
            if k > 0 {
                assert(ts[k] == rest[k - 1]);
            }
        }
    }
}

/// A run of bytes of a class that ends before a byte that is not of the
/// class, or at the end of the source, is the longest.
pub proof fn lemma_span_exact(s: Seq<u8>, from: int, to: int, class: Class)
    requires
        0 <= from <= to <= s.len(),
        forall|i: int| from <= i < to ==> in_class(class, #[trigger] s[i]),
        to < s.len() ==> !in_class(class, s[to]),
    ensures
        span(s, from, class) == to,
    decreases to - from,
{
    if from < to {
        lemma_span_exact(s, from + 1, to, class);
    }
}

/// A source that is a run of digits scans as one `INT`.
pub proof fn lemma_digits_scan_as_int(s: Seq<u8>, line: u16, dict: Map<Seq<u8>, TokenType>)
    requires
        s.len() > 0,
        forall|i: int| 0 <= i < s.len() ==> is_digit(#[trigger] s[i]),
    ensures
        scan(s, 0, line, dict) == (Lexeme {
            kind: TokenType::INT,
            start: 0,
            end: s.len() as int,
            line,
            message: None,
        }),
{
    lemma_span_exact(s, 0, 0, Class::Space);
    lemma_span_exact(s, 1, s.len() as int, Class::Digit);
}

/// A source that is a run of digits, a `.` and a second run of digits scans
/// as one `FLOAT`.
pub proof fn lemma_fraction_scans_as_float(
    s: Seq<u8>,
    dot: int,
    line: u16,
    dict: Map<Seq<u8>, TokenType>,
)
    requires
        0 < dot < s.len() - 1,
        s[dot] == byte('.'),
        forall|i: int| 0 <= i < s.len() && i != dot ==> is_digit(#[trigger] s[i]),
    ensures
        scan(s, 0, line, dict) == (Lexeme {
            kind: TokenType::FLOAT,
            start: 0,
            end: s.len() as int,
            line,
            message: None,
        }),
{
    lemma_span_exact(s, 0, 0, Class::Space);
    lemma_span_exact(s, 1, dot, Class::Digit);
    lemma_span_exact(s, dot + 2, s.len() as int, Class::Digit);
}

/// A number that no `.` and digit follow is an `INT`, whatever else follows
/// it.
pub proof fn lemma_number_kind(s: Seq<u8>, pos: int, line: u16, dict: Map<Seq<u8>, TokenType>)
    requires
        0 <= pos < s.len(),
        is_digit(s[pos]),
    ensures
        ({
            let whole = span(s, pos + 1, Class::Digit);
            let lx = scan(s, pos, line, dict);
            let fraction = whole + 1 < s.len() && s[whole] == byte('.') && is_digit(s[whole + 1]);
            &&& lx.start == pos
            &&& fraction ==> lx.kind == TokenType::FLOAT
            &&& !fraction ==> lx.kind == TokenType::INT && lx.end == whole
        }),
{
    lemma_span_exact(s, pos, pos, Class::Space);
}

/// Whether the bytes form a word: a lower-case letter, and after it
/// lower-case letters, digits, `_` and `-`.
pub open spec fn is_word(w: Seq<u8>) -> bool {
    &&& w.len() > 0
    &&& is_lower(w[0])
    &&& forall|i: int| 0 < i < w.len() ==> is_symbol_byte(#[trigger] w[i])
}

/// A source that is a word of the dictionary scans as one token of the kind
/// that the dictionary holds for it, and any other word as an `IDENTIFIER`.
pub proof fn lemma_word_scans(w: Seq<u8>, line: u16, dict: Map<Seq<u8>, TokenType>)
    requires
        is_word(w),
    ensures
        scan(w, 0, line, dict) == (Lexeme {
            kind: if dict.contains_key(w) {
                dict[w]
            } else {
                TokenType::IDENTIFIER
            },
            start: 0,
            end: w.len() as int,
            line,
            message: None,
        }),
{
    lemma_span_exact(w, 0, 0, Class::Space);
    lemma_span_exact(w, 1, w.len() as int, Class::Symbol);
    assert(w.subrange(0, w.len() as int) =~= w);
}

/// Every reserved word is a word.
pub proof fn lemma_reserved_words_are_words(w: Seq<u8>)
    requires
        reserved_words().contains_key(w),
    ensures
        is_word(w),
{
    reveal_strlit("and");
    reveal_strlit("or");
    reveal_strlit("false");
    reveal_strlit("if");
    reveal_strlit("let");
    reveal_strlit("nil");
    reveal_strlit("print");
    reveal_strlit("true");
    reveal_strlit("not");
    reveal_strlit("len");
    reveal_strlit("def");
}

/// No reserved word stands for the end of the source.
pub proof fn lemma_reserved_words_usable()
    ensures
        usable(reserved_words()),
{
}

/// Every reserved word scans as the kind that it stands for.
pub proof fn lemma_reserved_word_scans(w: Seq<u8>, line: u16)
    requires
        reserved_words().contains_key(w),
    ensures
        scan(w, 0, line, reserved_words()) == (Lexeme {
            kind: reserved_words()[w],
            start: 0,
            end: w.len() as int,
            line,
            message: None,
        }),
{
    lemma_reserved_words_are_words(w);
    lemma_word_scans(w, line, reserved_words());
}

/// A source that begins with an upper-case letter scans as an `ERROR` of one
/// byte: words are written in lower case.
pub proof fn lemma_upper_case_is_error(s: Seq<u8>, line: u16, dict: Map<Seq<u8>, TokenType>)
    requires
        s.len() > 0,
        byte('A') <= s[0] <= byte('Z'),
    ensures
        scan(s, 0, line, dict) == (Lexeme {
            kind: TokenType::ERROR,
            start: 0,
            end: 1,
            line,
            message: Some("Unexpected character."@),
        }),
{
    lemma_span_exact(s, 0, 0, Class::Space);
}

} // verus!
