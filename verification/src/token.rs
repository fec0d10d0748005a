use vstd::prelude::*;

verus! {

/// The kind of a token. The kinds are numbered densely from zero in the
/// order in which they are listed; see [`TokenType::ordinal`].
#[allow(non_camel_case_types)]
#[derive(Debug, Clone, Copy, PartialEq, Eq, Structural)]
pub enum TokenType {
    NOOP,
    LEFTPAREN,
    RIGHTPAREN,
    LEFTBRACE,
    RIGHTBRACE,
    LEFTBRACKET,
    RIGHTBRACKET,
    LEFTANGLEBRACKET,
    RIGHTANGLEBRACKET,
    COMMA,
    DOT,
    MINUS,
    PLUS,
    SEMICOLON,
    SLASH,
    STAR,
    BANG,
    BANGEQUAL,
    EQUAL,
    EQUALEQUAL,
    GREATER,
    GREATEREQUAL,
    LESS,
    LESSEQUAL,
    IDENTIFIER,
    STRING,
    FLOAT,
    INT,
    KEYWORD,
    TRUE,
    FALSE,
    NIL,
    AND,
    CLASS,
    ELSE,
    FOR,
    FUN,
    IF,
    OR,
    PRINT,
    RETURN,
    SUPER,
    THIS,
    VAR,
    WHILE,
    LET,
    NOT,
    LEN,
    DEF,
    ERROR,
    EOF,
}

/// The number of token kinds.
pub const TOKEN_KINDS: usize = 51;

impl TokenType {
    /// The position of the kind in the enumeration.
    pub open spec fn ordinal(self) -> nat {
        match self {
            TokenType::NOOP => 0,
            TokenType::LEFTPAREN => 1,
            TokenType::RIGHTPAREN => 2,
            TokenType::LEFTBRACE => 3,
            TokenType::RIGHTBRACE => 4,
            TokenType::LEFTBRACKET => 5,
            TokenType::RIGHTBRACKET => 6,
            TokenType::LEFTANGLEBRACKET => 7,
            TokenType::RIGHTANGLEBRACKET => 8,
            TokenType::COMMA => 9,
            TokenType::DOT => 10,
            TokenType::MINUS => 11,
            TokenType::PLUS => 12,
            TokenType::SEMICOLON => 13,
            TokenType::SLASH => 14,
            TokenType::STAR => 15,
            TokenType::BANG => 16,
            TokenType::BANGEQUAL => 17,
            TokenType::EQUAL => 18,
            TokenType::EQUALEQUAL => 19,
            TokenType::GREATER => 20,
            TokenType::GREATEREQUAL => 21,
            TokenType::LESS => 22,
            TokenType::LESSEQUAL => 23,
            TokenType::IDENTIFIER => 24,
            TokenType::STRING => 25,
            TokenType::FLOAT => 26,
            TokenType::INT => 27,
            TokenType::KEYWORD => 28,
            TokenType::TRUE => 29,
            TokenType::FALSE => 30,
            TokenType::NIL => 31,
            TokenType::AND => 32,
            TokenType::CLASS => 33,
            TokenType::ELSE => 34,
            TokenType::FOR => 35,
            TokenType::FUN => 36,
            TokenType::IF => 37,
            TokenType::OR => 38,
            TokenType::PRINT => 39,
            TokenType::RETURN => 40,
            TokenType::SUPER => 41,
            TokenType::THIS => 42,
            TokenType::VAR => 43,
            TokenType::WHILE => 44,
            TokenType::LET => 45,
            TokenType::NOT => 46,
            TokenType::LEN => 47,
            TokenType::DEF => 48,
            TokenType::ERROR => 49,
            TokenType::EOF => 50,
        }
    }

    /// The kind as a small integer.
    pub fn to_u8(&self) -> (n: u8)
        ensures
            n == self.ordinal(),
            n < TOKEN_KINDS,
    {
        match self {
            TokenType::NOOP => 0,
            TokenType::LEFTPAREN => 1,
            TokenType::RIGHTPAREN => 2,
            TokenType::LEFTBRACE => 3,
            TokenType::RIGHTBRACE => 4,
            TokenType::LEFTBRACKET => 5,
            TokenType::RIGHTBRACKET => 6,
            TokenType::LEFTANGLEBRACKET => 7,
            TokenType::RIGHTANGLEBRACKET => 8,
            TokenType::COMMA => 9,
            TokenType::DOT => 10,
            TokenType::MINUS => 11,
            TokenType::PLUS => 12,
            TokenType::SEMICOLON => 13,
            TokenType::SLASH => 14,
            TokenType::STAR => 15,
            TokenType::BANG => 16,
            TokenType::BANGEQUAL => 17,
            TokenType::EQUAL => 18,
            TokenType::EQUALEQUAL => 19,
            TokenType::GREATER => 20,
            TokenType::GREATEREQUAL => 21,
            TokenType::LESS => 22,
            TokenType::LESSEQUAL => 23,
            TokenType::IDENTIFIER => 24,
            TokenType::STRING => 25,
            TokenType::FLOAT => 26,
            TokenType::INT => 27,
            TokenType::KEYWORD => 28,
            TokenType::TRUE => 29,
            TokenType::FALSE => 30,
            TokenType::NIL => 31,
            TokenType::AND => 32,
            TokenType::CLASS => 33,
            TokenType::ELSE => 34,
            TokenType::FOR => 35,
            TokenType::FUN => 36,
            TokenType::IF => 37,
            TokenType::OR => 38,
            TokenType::PRINT => 39,
            TokenType::RETURN => 40,
            TokenType::SUPER => 41,
            TokenType::THIS => 42,
            TokenType::VAR => 43,
            TokenType::WHILE => 44,
            TokenType::LET => 45,
            TokenType::NOT => 46,
            TokenType::LEN => 47,
            TokenType::DEF => 48,
            TokenType::ERROR => 49,
            TokenType::EOF => 50,
        }
    }

    /// The kind with the given number, if there is one.
    pub fn from_u8(n: u8) -> (kind: Option<TokenType>)
        ensures
            n < TOKEN_KINDS <==> kind.is_some(),
            kind matches Some(k) ==> k.ordinal() == n,
    {
        match n {
            0 => Some(TokenType::NOOP),
            1 => Some(TokenType::LEFTPAREN),
            2 => Some(TokenType::RIGHTPAREN),
            3 => Some(TokenType::LEFTBRACE),
            4 => Some(TokenType::RIGHTBRACE),
            5 => Some(TokenType::LEFTBRACKET),
            6 => Some(TokenType::RIGHTBRACKET),
            7 => Some(TokenType::LEFTANGLEBRACKET),
            8 => Some(TokenType::RIGHTANGLEBRACKET),
            9 => Some(TokenType::COMMA),
            10 => Some(TokenType::DOT),
            11 => Some(TokenType::MINUS),
            12 => Some(TokenType::PLUS),
            13 => Some(TokenType::SEMICOLON),
            14 => Some(TokenType::SLASH),
            15 => Some(TokenType::STAR),
            16 => Some(TokenType::BANG),
            17 => Some(TokenType::BANGEQUAL),
            18 => Some(TokenType::EQUAL),
            19 => Some(TokenType::EQUALEQUAL),
            20 => Some(TokenType::GREATER),
            21 => Some(TokenType::GREATEREQUAL),
            22 => Some(TokenType::LESS),
            23 => Some(TokenType::LESSEQUAL),
            24 => Some(TokenType::IDENTIFIER),
            25 => Some(TokenType::STRING),
            26 => Some(TokenType::FLOAT),
            27 => Some(TokenType::INT),
            28 => Some(TokenType::KEYWORD),
            29 => Some(TokenType::TRUE),
            30 => Some(TokenType::FALSE),
            31 => Some(TokenType::NIL),
            32 => Some(TokenType::AND),
            33 => Some(TokenType::CLASS),
            34 => Some(TokenType::ELSE),
            35 => Some(TokenType::FOR),
            36 => Some(TokenType::FUN),
            37 => Some(TokenType::IF),
            38 => Some(TokenType::OR),
            39 => Some(TokenType::PRINT),
            40 => Some(TokenType::RETURN),
            41 => Some(TokenType::SUPER),
            42 => Some(TokenType::THIS),
            43 => Some(TokenType::VAR),
            44 => Some(TokenType::WHILE),
            45 => Some(TokenType::LET),
            46 => Some(TokenType::NOT),
            47 => Some(TokenType::LEN),
            48 => Some(TokenType::DEF),
            49 => Some(TokenType::ERROR),
            50 => Some(TokenType::EOF),
            _ => None,
        }
    }
}

/// Two kinds with the same number are the same kind.
pub proof fn lemma_ordinal_injective(a: TokenType, b: TokenType)
    requires
        a.ordinal() == b.ordinal(),
    ensures
        a == b,
{
}

/// A token: its kind, the line on which it ends, and the bytes of the source
/// that it spans. An `ERROR` token carries a message.
#[derive(Debug, PartialEq, Eq)]
pub struct Token {
    pub typ: TokenType,
    pub line: u16,
    pub start: usize,
    pub length: usize,
    pub error: Option<String>,
}

} // verus!
