use sophie::scanner::{advance, init_scanner, scan_token, Scanner, Token, TokenType};

fn all_tokens(source: &str) -> Vec<Token> {
    let mut scanner = init_scanner();
    let mut tokens = Vec::new();
    loop {
        let token = scan_token(&mut scanner, source);
        let done = token.typ == TokenType::EOF;
        tokens.push(token);
        if done {
            return tokens;
        }
    }
}

fn kinds(source: &str) -> Vec<TokenType> {
    all_tokens(source).iter().map(|t| t.typ).collect()
}

fn lexeme<'a>(source: &'a str, token: &Token) -> &'a str {
    &source[token.start..token.start + token.length]
}

#[test]
fn a_new_scanner_is_at_the_start_on_line_one() {
    let scanner = init_scanner();
    assert_eq!(scanner.line, 1);
    assert_eq!(scanner.start, 0);
    assert_eq!(scanner.current, 0);
}

#[test]
fn an_empty_source_is_one_eof() {
    let tokens = all_tokens("");
    assert_eq!(tokens.len(), 1);
    assert_eq!(tokens[0].typ, TokenType::EOF);
    assert_eq!(tokens[0].start, 0);
    assert_eq!(tokens[0].length, 0);
    assert_eq!(tokens[0].line, 1);
    assert_eq!(tokens[0].error, None);
}

#[test]
fn eof_is_returned_again_and_again() {
    let mut scanner = init_scanner();
    let source = "a";
    assert_eq!(scan_token(&mut scanner, source).typ, TokenType::IDENTIFIER);
    assert_eq!(scan_token(&mut scanner, source).typ, TokenType::EOF);
    assert_eq!(scan_token(&mut scanner, source).typ, TokenType::EOF);
    assert_eq!(scanner.current, 1);
}

#[test]
fn single_characters_scan_as_their_kinds() {
    assert_eq!(
        kinds("(){}[];,.-+*/"),
        vec![
            TokenType::LEFTPAREN,
            TokenType::RIGHTPAREN,
            TokenType::LEFTBRACE,
            TokenType::RIGHTBRACE,
            TokenType::LEFTBRACKET,
            TokenType::RIGHTBRACKET,
            TokenType::SEMICOLON,
            TokenType::COMMA,
            TokenType::DOT,
            TokenType::MINUS,
            TokenType::PLUS,
            TokenType::STAR,
            TokenType::SLASH,
            TokenType::EOF,
        ]
    );
}

#[test]
fn an_equals_sign_pairs_with_the_character_before_it() {
    assert_eq!(
        kinds("! != = == > >= < <="),
        vec![
            TokenType::BANG,
            TokenType::BANGEQUAL,
            TokenType::EQUAL,
            TokenType::EQUALEQUAL,
            TokenType::GREATER,
            TokenType::GREATEREQUAL,
            TokenType::LESS,
            TokenType::LESSEQUAL,
            TokenType::EOF,
        ]
    );
}

#[test]
fn a_pair_is_two_bytes_long() {
    let source = "<=";
    let tokens = all_tokens(source);
    assert_eq!(tokens[0].typ, TokenType::LESSEQUAL);
    assert_eq!(tokens[0].start, 0);
    assert_eq!(tokens[0].length, 2);
}

#[test]
fn digits_alone_are_an_int() {
    let source = "12345";
    let tokens = all_tokens(source);
    assert_eq!(tokens[0].typ, TokenType::INT);
    assert_eq!(lexeme(source, &tokens[0]), "12345");
    assert_eq!(tokens[1].typ, TokenType::EOF);
}

#[test]
fn digits_a_dot_and_digits_are_a_float() {
    let source = "3.25";
    let tokens = all_tokens(source);
    assert_eq!(tokens[0].typ, TokenType::FLOAT);
    assert_eq!(lexeme(source, &tokens[0]), "3.25");
    assert_eq!(tokens[1].typ, TokenType::EOF);
}

#[test]
fn a_dot_without_a_digit_after_it_is_left_for_the_next_token() {
    let source = "7.";
    let tokens = all_tokens(source);
    assert_eq!(tokens[0].typ, TokenType::INT);
    assert_eq!(lexeme(source, &tokens[0]), "7");
    assert_eq!(tokens[1].typ, TokenType::DOT);
    assert_eq!(tokens[2].typ, TokenType::EOF);
}

#[test]
fn a_float_has_one_fraction() {
    let source = "1.2.3";
    let tokens = all_tokens(source);
    assert_eq!(tokens[0].typ, TokenType::FLOAT);
    assert_eq!(lexeme(source, &tokens[0]), "1.2");
    assert_eq!(tokens[1].typ, TokenType::DOT);
    assert_eq!(tokens[2].typ, TokenType::INT);
    assert_eq!(lexeme(source, &tokens[2]), "3");
}

#[test]
fn reserved_words_scan_as_their_kinds() {
    assert_eq!(kinds("and"), vec![TokenType::AND, TokenType::EOF]);
    assert_eq!(kinds("or"), vec![TokenType::OR, TokenType::EOF]);
    assert_eq!(kinds("false"), vec![TokenType::FALSE, TokenType::EOF]);
    assert_eq!(kinds("if"), vec![TokenType::IF, TokenType::EOF]);
    assert_eq!(kinds("let"), vec![TokenType::LET, TokenType::EOF]);
    assert_eq!(kinds("nil"), vec![TokenType::NIL, TokenType::EOF]);
    assert_eq!(kinds("print"), vec![TokenType::PRINT, TokenType::EOF]);
    assert_eq!(kinds("true"), vec![TokenType::TRUE, TokenType::EOF]);
    assert_eq!(kinds("not"), vec![TokenType::NOT, TokenType::EOF]);
    assert_eq!(kinds("len"), vec![TokenType::LEN, TokenType::EOF]);
    assert_eq!(kinds("def"), vec![TokenType::DEF, TokenType::EOF]);
}

#[test]
fn a_word_that_is_not_reserved_is_an_identifier() {
    let source = "define my-name x_1";
    let tokens = all_tokens(source);
    assert_eq!(tokens[0].typ, TokenType::IDENTIFIER);
    assert_eq!(lexeme(source, &tokens[0]), "define");
    assert_eq!(tokens[1].typ, TokenType::IDENTIFIER);
    assert_eq!(lexeme(source, &tokens[1]), "my-name");
    assert_eq!(tokens[2].typ, TokenType::IDENTIFIER);
    assert_eq!(lexeme(source, &tokens[2]), "x_1");
}

#[test]
fn a_reserved_word_in_upper_case_is_an_error() {
    let tokens = all_tokens("IF");
    assert_eq!(tokens[0].typ, TokenType::ERROR);
    assert_eq!(tokens[0].length, 1);
    assert_eq!(tokens[0].error, Some("Unexpected character.".to_string()));
    assert_eq!(tokens[1].typ, TokenType::ERROR);
    assert_eq!(tokens[2].typ, TokenType::EOF);
}

#[test]
fn an_unexpected_byte_is_an_error_of_one_byte() {
    let source = "a @ b";
    let tokens = all_tokens(source);
    assert_eq!(tokens[1].typ, TokenType::ERROR);
    assert_eq!(tokens[1].start, 2);
    assert_eq!(tokens[1].length, 1);
    assert_eq!(tokens[1].error, Some("Unexpected character.".to_string()));
    assert_eq!(tokens[2].typ, TokenType::IDENTIFIER);
}

#[test]
fn a_byte_that_is_not_ascii_is_an_error() {
    let tokens = all_tokens("é");
    assert_eq!(tokens.len(), 3);
    assert_eq!(tokens[0].typ, TokenType::ERROR);
    assert_eq!(tokens[1].typ, TokenType::ERROR);
    assert_eq!(tokens[2].typ, TokenType::EOF);
}

#[test]
fn a_string_includes_both_quotes() {
    let source = "\"hello\" x";
    let tokens = all_tokens(source);
    assert_eq!(tokens[0].typ, TokenType::STRING);
    assert_eq!(tokens[0].start, 0);
    assert_eq!(tokens[0].length, 7);
    assert_eq!(lexeme(source, &tokens[0]), "\"hello\"");
    assert_eq!(tokens[1].typ, TokenType::IDENTIFIER);
}

#[test]
fn a_string_may_hold_newlines_which_are_counted() {
    let source = "\"a\nb\nc\" x";
    let tokens = all_tokens(source);
    assert_eq!(tokens[0].typ, TokenType::STRING);
    assert_eq!(tokens[0].line, 3);
    assert_eq!(tokens[1].line, 3);
}

#[test]
fn a_string_without_closing_quote_is_an_error() {
    let source = "\"abc";
    let tokens = all_tokens(source);
    assert_eq!(tokens[0].typ, TokenType::ERROR);
    assert_eq!(tokens[0].start, 0);
    assert_eq!(tokens[0].length, 4);
    assert_eq!(tokens[0].error, Some("Unterminated string.".to_string()));
    assert_eq!(tokens[1].typ, TokenType::EOF);
}

#[test]
fn a_keyword_literal_starts_after_its_colon() {
    let source = ":key-1:x y";
    let tokens = all_tokens(source);
    assert_eq!(tokens[0].typ, TokenType::KEYWORD);
    assert_eq!(tokens[0].start, 1);
    assert_eq!(lexeme(source, &tokens[0]), "key-1:x");
    assert_eq!(tokens[1].typ, TokenType::IDENTIFIER);
    assert_eq!(lexeme(source, &tokens[1]), "y");
}

#[test]
fn a_colon_alone_is_an_empty_keyword_literal() {
    let tokens = all_tokens(": (");
    assert_eq!(tokens[0].typ, TokenType::KEYWORD);
    assert_eq!(tokens[0].start, 1);
    assert_eq!(tokens[0].length, 0);
    assert_eq!(tokens[1].typ, TokenType::LEFTPAREN);
}

#[test]
fn newlines_between_tokens_are_counted() {
    let tokens = all_tokens("a\nb\r\n\n  c");
    assert_eq!(tokens[0].line, 1);
    assert_eq!(tokens[1].line, 2);
    assert_eq!(tokens[2].line, 4);
    assert_eq!(tokens[3].typ, TokenType::EOF);
    assert_eq!(tokens[3].line, 4);
}

#[test]
fn blanks_are_passed_over() {
    let source = " \t\r (  +\t1 ) ";
    assert_eq!(
        kinds(source),
        vec![
            TokenType::LEFTPAREN,
            TokenType::PLUS,
            TokenType::INT,
            TokenType::RIGHTPAREN,
            TokenType::EOF
        ]
    );
}

#[test]
fn the_tokens_and_what_lies_between_them_cover_the_source() {
    let source = "(def x 7)\n  (print :k \"s t\")  ";
    let tokens = all_tokens(source);
    let mut position = 0;
    let mut covered = 0;
    for token in &tokens {
        assert!(token.start >= position);
        covered += token.start - position;
        covered += token.length;
        position = token.start + token.length;
    }
    assert_eq!(covered, source.len());
    assert_eq!(position, source.len());
    assert_eq!(tokens[tokens.len() - 1].typ, TokenType::EOF);
    for token in &tokens[..tokens.len() - 1] {
        assert_ne!(token.typ, TokenType::EOF);
    }
}

#[test]
fn what_lies_before_a_token_is_blank_or_the_colon_of_a_keyword() {
    let source = "  a \n :b";
    let tokens = all_tokens(source);
    assert_eq!(&source[0..tokens[0].start], "  ");
    let between = &source[tokens[0].start + tokens[0].length..tokens[1].start];
    assert_eq!(between, " \n :");
    assert_eq!(tokens[1].typ, TokenType::KEYWORD);
}

#[test]
fn the_scanner_is_left_at_the_end_of_the_token() {
    let mut scanner = init_scanner();
    let source = "  foo bar";
    let token = scan_token(&mut scanner, source);
    assert_eq!(token.start, 2);
    assert_eq!(token.length, 3);
    assert_eq!(scanner.start, 2);
    assert_eq!(scanner.current, 5);
}

#[test]
fn advance_returns_the_byte_and_moves_on() {
    let mut scanner: Scanner = init_scanner();
    assert_eq!(advance(&mut scanner, "xy"), 120);
    assert_eq!(scanner.current, 1);
    assert_eq!(advance(&mut scanner, "xy"), 121);
    assert_eq!(scanner.current, 2);
}

#[test]
fn the_lines_stop_at_the_largest_that_a_token_can_hold() {
    let mut source = String::new();
    for _ in 0..70000 {
        source.push('\n');
    }
    source.push('a');
    let tokens = all_tokens(&source);
    assert_eq!(tokens[0].typ, TokenType::IDENTIFIER);
    assert_eq!(tokens[0].line, 65535);
}

#[test]
fn token_kinds_are_numbered_from_zero() {
    assert_eq!(TokenType::NOOP.to_u8(), 0);
    assert_eq!(TokenType::LEFTPAREN.to_u8(), 1);
    assert_eq!(TokenType::IDENTIFIER.to_u8(), 24);
    assert_eq!(TokenType::NIL.to_u8(), 31);
    assert_eq!(TokenType::DEF.to_u8(), 48);
    assert_eq!(TokenType::EOF.to_u8(), 50);
    assert_eq!(TokenType::from_u8(50), Some(TokenType::EOF));
    assert_eq!(TokenType::from_u8(51), None);
    for n in 0..51u8 {
        assert_eq!(TokenType::from_u8(n).unwrap().to_u8(), n);
    }
}
