use vstd::prelude::*;

use crate::text::str_eq;

verus! {

/// Number of token kinds; `TokenKind::index` maps every kind below it.
pub const KIND_COUNT: usize = 93;

/// The closed set of token kinds: reserved words, punctuation and operators,
/// literal classes, the end-of-input marker and the lookahead wildcard.
#[allow(non_camel_case_types)]
#[derive(Debug, Clone, Copy, PartialEq, Eq, Structural, Hash)]
pub enum TokenKind {
    LAZY,
    UNOWNED,
    WEAK,
    VAR,
    LET,
    IDENTIFIER,
    IMPORT,
    OPEN,
    PUBLIC,
    INTERNAL,
    PRIVATE,
    FILEPRIVATE,
    FINAL,
    STATIC,
    CLASS,
    PROTOCOL,
    ACTOR,
    STRUCT,
    ENUM,
    TYPEALIAS,
    EXTENSION,
    FUNC,
    INIT,
    DEINIT,
    IF,
    ELSE,
    SWITCH,
    CASE,
    DEFAULT,
    BREAK,
    CONTINUE,
    DO,
    TRY,
    CATCH,
    THROW,
    THROWS,
    RETHROWS,
    GUARD,
    REPEAT,
    WHILE,
    FOR,
    FALLTHROUGH,
    DEFER,
    RETURN,
    IN,
    WHERE,
    ANY,
    SOME,
    AS,
    IS,
    NIL,
    TRUE,
    FALSE,
    SELF,
    TYPE_SELF,
    TYPE,
    OPTIONAL,
    DEFAULTING,
    SUPER,
    OPEN_PAREN,
    CLOSE_PAREN,
    OPEN_BRACKET,
    CLOSE_BRACKET,
    OPEN_BRACE,
    CLOSE_BRACE,
    COLON,
    SEMI_COLON,
    DOT,
    DOT_DOT_DOT,
    RANGE,
    ASSIGNMENT,
    STAR,
    COMMA,
    PLUS_EQUALS,
    MINUS_EQUALS,
    PERCENT,
    PLUS,
    MINUS,
    EQUALS,
    GREATER,
    LESS,
    GREATER_EQUALS,
    LESS_EQUALS,
    NOT,
    NOT_EQUALS,
    OR,
    AND,
    ANNOTATION,
    MACRO,
    STRING,
    NUMBER,
    EOF,
    ANYTHING,
}

impl TokenKind {
    /// Position of the kind in the declaration order.
    pub open spec fn ordinal(self) -> nat {
        match self {
            TokenKind::LAZY => 0,
            TokenKind::UNOWNED => 1,
            TokenKind::WEAK => 2,
            TokenKind::VAR => 3,
            TokenKind::LET => 4,
            TokenKind::IDENTIFIER => 5,
            TokenKind::IMPORT => 6,
            TokenKind::OPEN => 7,
            TokenKind::PUBLIC => 8,
            TokenKind::INTERNAL => 9,
            TokenKind::PRIVATE => 10,
            TokenKind::FILEPRIVATE => 11,
            TokenKind::FINAL => 12,
            TokenKind::STATIC => 13,
            TokenKind::CLASS => 14,
            TokenKind::PROTOCOL => 15,
            TokenKind::ACTOR => 16,
            TokenKind::STRUCT => 17,
            TokenKind::ENUM => 18,
            TokenKind::TYPEALIAS => 19,
            TokenKind::EXTENSION => 20,
            TokenKind::FUNC => 21,
            TokenKind::INIT => 22,
            TokenKind::DEINIT => 23,
            TokenKind::IF => 24,
            TokenKind::ELSE => 25,
            TokenKind::SWITCH => 26,
            TokenKind::CASE => 27,
            TokenKind::DEFAULT => 28,
            TokenKind::BREAK => 29,
            TokenKind::CONTINUE => 30,
            TokenKind::DO => 31,
            TokenKind::TRY => 32,
            TokenKind::CATCH => 33,
            TokenKind::THROW => 34,
            TokenKind::THROWS => 35,
            TokenKind::RETHROWS => 36,
            TokenKind::GUARD => 37,
            TokenKind::REPEAT => 38,
            TokenKind::WHILE => 39,
            TokenKind::FOR => 40,
            TokenKind::FALLTHROUGH => 41,
            TokenKind::DEFER => 42,
            TokenKind::RETURN => 43,
            TokenKind::IN => 44,
            TokenKind::WHERE => 45,
            TokenKind::ANY => 46,
            TokenKind::SOME => 47,
            TokenKind::AS => 48,
            TokenKind::IS => 49,
            TokenKind::NIL => 50,
            TokenKind::TRUE => 51,
            TokenKind::FALSE => 52,
            TokenKind::SELF => 53,
            TokenKind::TYPE_SELF => 54,
            TokenKind::TYPE => 55,
            TokenKind::OPTIONAL => 56,
            TokenKind::DEFAULTING => 57,
            TokenKind::SUPER => 58,
            TokenKind::OPEN_PAREN => 59,
            TokenKind::CLOSE_PAREN => 60,
            TokenKind::OPEN_BRACKET => 61,
            TokenKind::CLOSE_BRACKET => 62,
            TokenKind::OPEN_BRACE => 63,
            TokenKind::CLOSE_BRACE => 64,
            TokenKind::COLON => 65,
            TokenKind::SEMI_COLON => 66,
            TokenKind::DOT => 67,
            TokenKind::DOT_DOT_DOT => 68,
            TokenKind::RANGE => 69,
            TokenKind::ASSIGNMENT => 70,
            TokenKind::STAR => 71,
            TokenKind::COMMA => 72,
            TokenKind::PLUS_EQUALS => 73,
            TokenKind::MINUS_EQUALS => 74,
            TokenKind::PERCENT => 75,
            TokenKind::PLUS => 76,
            TokenKind::MINUS => 77,
            TokenKind::EQUALS => 78,
            TokenKind::GREATER => 79,
            TokenKind::LESS => 80,
            TokenKind::GREATER_EQUALS => 81,
            TokenKind::LESS_EQUALS => 82,
            TokenKind::NOT => 83,
            TokenKind::NOT_EQUALS => 84,
            TokenKind::OR => 85,
            TokenKind::AND => 86,
            TokenKind::ANNOTATION => 87,
            TokenKind::MACRO => 88,
            TokenKind::STRING => 89,
            TokenKind::NUMBER => 90,
            TokenKind::EOF => 91,
            TokenKind::ANYTHING => 92,
        }
    }

    /// The kind with a given position in the declaration order.
    pub open spec fn at_ordinal(i: nat) -> Option<TokenKind> {
        if i == 0 { Some(TokenKind::LAZY) } else
        if i == 1 { Some(TokenKind::UNOWNED) } else
        if i == 2 { Some(TokenKind::WEAK) } else
        if i == 3 { Some(TokenKind::VAR) } else
        if i == 4 { Some(TokenKind::LET) } else
        if i == 5 { Some(TokenKind::IDENTIFIER) } else
        if i == 6 { Some(TokenKind::IMPORT) } else
        if i == 7 { Some(TokenKind::OPEN) } else
        if i == 8 { Some(TokenKind::PUBLIC) } else
        if i == 9 { Some(TokenKind::INTERNAL) } else
        if i == 10 { Some(TokenKind::PRIVATE) } else
        if i == 11 { Some(TokenKind::FILEPRIVATE) } else
        if i == 12 { Some(TokenKind::FINAL) } else
        if i == 13 { Some(TokenKind::STATIC) } else
        if i == 14 { Some(TokenKind::CLASS) } else
        if i == 15 { Some(TokenKind::PROTOCOL) } else
        if i == 16 { Some(TokenKind::ACTOR) } else
        if i == 17 { Some(TokenKind::STRUCT) } else
        if i == 18 { Some(TokenKind::ENUM) } else
        if i == 19 { Some(TokenKind::TYPEALIAS) } else
        if i == 20 { Some(TokenKind::EXTENSION) } else
        if i == 21 { Some(TokenKind::FUNC) } else
        if i == 22 { Some(TokenKind::INIT) } else
        if i == 23 { Some(TokenKind::DEINIT) } else
        if i == 24 { Some(TokenKind::IF) } else
        if i == 25 { Some(TokenKind::ELSE) } else
        if i == 26 { Some(TokenKind::SWITCH) } else
        if i == 27 { Some(TokenKind::CASE) } else
        if i == 28 { Some(TokenKind::DEFAULT) } else
        if i == 29 { Some(TokenKind::BREAK) } else
        if i == 30 { Some(TokenKind::CONTINUE) } else
        if i == 31 { Some(TokenKind::DO) } else
        if i == 32 { Some(TokenKind::TRY) } else
        if i == 33 { Some(TokenKind::CATCH) } else
        if i == 34 { Some(TokenKind::THROW) } else
        if i == 35 { Some(TokenKind::THROWS) } else
        if i == 36 { Some(TokenKind::RETHROWS) } else
        if i == 37 { Some(TokenKind::GUARD) } else
        if i == 38 { Some(TokenKind::REPEAT) } else
        if i == 39 { Some(TokenKind::WHILE) } else
        if i == 40 { Some(TokenKind::FOR) } else
        if i == 41 { Some(TokenKind::FALLTHROUGH) } else
        if i == 42 { Some(TokenKind::DEFER) } else
        if i == 43 { Some(TokenKind::RETURN) } else
        if i == 44 { Some(TokenKind::IN) } else
        if i == 45 { Some(TokenKind::WHERE) } else
        if i == 46 { Some(TokenKind::ANY) } else
        if i == 47 { Some(TokenKind::SOME) } else
        if i == 48 { Some(TokenKind::AS) } else
        if i == 49 { Some(TokenKind::IS) } else
        if i == 50 { Some(TokenKind::NIL) } else
        if i == 51 { Some(TokenKind::TRUE) } else
        if i == 52 { Some(TokenKind::FALSE) } else
        if i == 53 { Some(TokenKind::SELF) } else
        if i == 54 { Some(TokenKind::TYPE_SELF) } else
        if i == 55 { Some(TokenKind::TYPE) } else
        if i == 56 { Some(TokenKind::OPTIONAL) } else
        if i == 57 { Some(TokenKind::DEFAULTING) } else
        if i == 58 { Some(TokenKind::SUPER) } else
        if i == 59 { Some(TokenKind::OPEN_PAREN) } else
        if i == 60 { Some(TokenKind::CLOSE_PAREN) } else
        if i == 61 { Some(TokenKind::OPEN_BRACKET) } else
        if i == 62 { Some(TokenKind::CLOSE_BRACKET) } else
        if i == 63 { Some(TokenKind::OPEN_BRACE) } else
        if i == 64 { Some(TokenKind::CLOSE_BRACE) } else
        if i == 65 { Some(TokenKind::COLON) } else
        if i == 66 { Some(TokenKind::SEMI_COLON) } else
        if i == 67 { Some(TokenKind::DOT) } else
        if i == 68 { Some(TokenKind::DOT_DOT_DOT) } else
        if i == 69 { Some(TokenKind::RANGE) } else
        if i == 70 { Some(TokenKind::ASSIGNMENT) } else
        if i == 71 { Some(TokenKind::STAR) } else
        if i == 72 { Some(TokenKind::COMMA) } else
        if i == 73 { Some(TokenKind::PLUS_EQUALS) } else
        if i == 74 { Some(TokenKind::MINUS_EQUALS) } else
        if i == 75 { Some(TokenKind::PERCENT) } else
        if i == 76 { Some(TokenKind::PLUS) } else
        if i == 77 { Some(TokenKind::MINUS) } else
        if i == 78 { Some(TokenKind::EQUALS) } else
        if i == 79 { Some(TokenKind::GREATER) } else
        if i == 80 { Some(TokenKind::LESS) } else
        if i == 81 { Some(TokenKind::GREATER_EQUALS) } else
        if i == 82 { Some(TokenKind::LESS_EQUALS) } else
        if i == 83 { Some(TokenKind::NOT) } else
        if i == 84 { Some(TokenKind::NOT_EQUALS) } else
        if i == 85 { Some(TokenKind::OR) } else
        if i == 86 { Some(TokenKind::AND) } else
        if i == 87 { Some(TokenKind::ANNOTATION) } else
        if i == 88 { Some(TokenKind::MACRO) } else
        if i == 89 { Some(TokenKind::STRING) } else
        if i == 90 { Some(TokenKind::NUMBER) } else
        if i == 91 { Some(TokenKind::EOF) } else
        if i == 92 { Some(TokenKind::ANYTHING) } else
        { None }
    }

    pub fn index(&self) -> (r: usize)
        ensures
            r as nat == self.ordinal(),
            r < KIND_COUNT,
    {
        match *self {
            TokenKind::LAZY => 0,
            TokenKind::UNOWNED => 1,
            TokenKind::WEAK => 2,
            TokenKind::VAR => 3,
            TokenKind::LET => 4,
            TokenKind::IDENTIFIER => 5,
            TokenKind::IMPORT => 6,
            TokenKind::OPEN => 7,
            TokenKind::PUBLIC => 8,
            TokenKind::INTERNAL => 9,
            TokenKind::PRIVATE => 10,
            TokenKind::FILEPRIVATE => 11,
            TokenKind::FINAL => 12,
            TokenKind::STATIC => 13,
            TokenKind::CLASS => 14,
            TokenKind::PROTOCOL => 15,
            TokenKind::ACTOR => 16,
            TokenKind::STRUCT => 17,
            TokenKind::ENUM => 18,
            TokenKind::TYPEALIAS => 19,
            TokenKind::EXTENSION => 20,
            TokenKind::FUNC => 21,
            TokenKind::INIT => 22,
            TokenKind::DEINIT => 23,
            TokenKind::IF => 24,
            TokenKind::ELSE => 25,
            TokenKind::SWITCH => 26,
            TokenKind::CASE => 27,
            TokenKind::DEFAULT => 28,
            TokenKind::BREAK => 29,
            TokenKind::CONTINUE => 30,
            TokenKind::DO => 31,
            TokenKind::TRY => 32,
            TokenKind::CATCH => 33,
            TokenKind::THROW => 34,
            TokenKind::THROWS => 35,
            TokenKind::RETHROWS => 36,
            TokenKind::GUARD => 37,
            TokenKind::REPEAT => 38,
            TokenKind::WHILE => 39,
            TokenKind::FOR => 40,
            TokenKind::FALLTHROUGH => 41,
            TokenKind::DEFER => 42,
            TokenKind::RETURN => 43,
            TokenKind::IN => 44,
            TokenKind::WHERE => 45,
            TokenKind::ANY => 46,
            TokenKind::SOME => 47,
            TokenKind::AS => 48,
            TokenKind::IS => 49,
            TokenKind::NIL => 50,
            TokenKind::TRUE => 51,
            TokenKind::FALSE => 52,
            TokenKind::SELF => 53,
            TokenKind::TYPE_SELF => 54,
            TokenKind::TYPE => 55,
            TokenKind::OPTIONAL => 56,
            TokenKind::DEFAULTING => 57,
            TokenKind::SUPER => 58,
            TokenKind::OPEN_PAREN => 59,
            TokenKind::CLOSE_PAREN => 60,
            TokenKind::OPEN_BRACKET => 61,
            TokenKind::CLOSE_BRACKET => 62,
            TokenKind::OPEN_BRACE => 63,
            TokenKind::CLOSE_BRACE => 64,
            TokenKind::COLON => 65,
            TokenKind::SEMI_COLON => 66,
            TokenKind::DOT => 67,
            TokenKind::DOT_DOT_DOT => 68,
            TokenKind::RANGE => 69,
            TokenKind::ASSIGNMENT => 70,
            TokenKind::STAR => 71,
            TokenKind::COMMA => 72,
            TokenKind::PLUS_EQUALS => 73,
            TokenKind::MINUS_EQUALS => 74,
            TokenKind::PERCENT => 75,
            TokenKind::PLUS => 76,
            TokenKind::MINUS => 77,
            TokenKind::EQUALS => 78,
            TokenKind::GREATER => 79,
            TokenKind::LESS => 80,
            TokenKind::GREATER_EQUALS => 81,
            TokenKind::LESS_EQUALS => 82,
            TokenKind::NOT => 83,
            TokenKind::NOT_EQUALS => 84,
            TokenKind::OR => 85,
            TokenKind::AND => 86,
            TokenKind::ANNOTATION => 87,
            TokenKind::MACRO => 88,
            TokenKind::STRING => 89,
            TokenKind::NUMBER => 90,
            TokenKind::EOF => 91,
            TokenKind::ANYTHING => 92,
        }
    }

    pub fn from_index(i: usize) -> (r: Option<TokenKind>)
        ensures
            r == TokenKind::at_ordinal(i as nat),
    {
        match i {
        0 => Some(TokenKind::LAZY),
        1 => Some(TokenKind::UNOWNED),
        2 => Some(TokenKind::WEAK),
        3 => Some(TokenKind::VAR),
        4 => Some(TokenKind::LET),
        5 => Some(TokenKind::IDENTIFIER),
        6 => Some(TokenKind::IMPORT),
        7 => Some(TokenKind::OPEN),
        8 => Some(TokenKind::PUBLIC),
        9 => Some(TokenKind::INTERNAL),
        10 => Some(TokenKind::PRIVATE),
        11 => Some(TokenKind::FILEPRIVATE),
        12 => Some(TokenKind::FINAL),
        13 => Some(TokenKind::STATIC),
        14 => Some(TokenKind::CLASS),
        15 => Some(TokenKind::PROTOCOL),
        16 => Some(TokenKind::ACTOR),
        17 => Some(TokenKind::STRUCT),
        18 => Some(TokenKind::ENUM),
        19 => Some(TokenKind::TYPEALIAS),
        20 => Some(TokenKind::EXTENSION),
        21 => Some(TokenKind::FUNC),
        22 => Some(TokenKind::INIT),
        23 => Some(TokenKind::DEINIT),
        24 => Some(TokenKind::IF),
        25 => Some(TokenKind::ELSE),
        26 => Some(TokenKind::SWITCH),
        27 => Some(TokenKind::CASE),
        28 => Some(TokenKind::DEFAULT),
        29 => Some(TokenKind::BREAK),
        30 => Some(TokenKind::CONTINUE),
        31 => Some(TokenKind::DO),
        32 => Some(TokenKind::TRY),
        33 => Some(TokenKind::CATCH),
        34 => Some(TokenKind::THROW),
        35 => Some(TokenKind::THROWS),
        36 => Some(TokenKind::RETHROWS),
        37 => Some(TokenKind::GUARD),
        38 => Some(TokenKind::REPEAT),
        39 => Some(TokenKind::WHILE),
        40 => Some(TokenKind::FOR),
        41 => Some(TokenKind::FALLTHROUGH),
        42 => Some(TokenKind::DEFER),
        43 => Some(TokenKind::RETURN),
        44 => Some(TokenKind::IN),
        45 => Some(TokenKind::WHERE),
        46 => Some(TokenKind::ANY),
        47 => Some(TokenKind::SOME),
        48 => Some(TokenKind::AS),
        49 => Some(TokenKind::IS),
        50 => Some(TokenKind::NIL),
        51 => Some(TokenKind::TRUE),
        52 => Some(TokenKind::FALSE),
        53 => Some(TokenKind::SELF),
        54 => Some(TokenKind::TYPE_SELF),
        55 => Some(TokenKind::TYPE),
        56 => Some(TokenKind::OPTIONAL),
        57 => Some(TokenKind::DEFAULTING),
        58 => Some(TokenKind::SUPER),
        59 => Some(TokenKind::OPEN_PAREN),
        60 => Some(TokenKind::CLOSE_PAREN),
        61 => Some(TokenKind::OPEN_BRACKET),
        62 => Some(TokenKind::CLOSE_BRACKET),
        63 => Some(TokenKind::OPEN_BRACE),
        64 => Some(TokenKind::CLOSE_BRACE),
        65 => Some(TokenKind::COLON),
        66 => Some(TokenKind::SEMI_COLON),
        67 => Some(TokenKind::DOT),
        68 => Some(TokenKind::DOT_DOT_DOT),
        69 => Some(TokenKind::RANGE),
        70 => Some(TokenKind::ASSIGNMENT),
        71 => Some(TokenKind::STAR),
        72 => Some(TokenKind::COMMA),
        73 => Some(TokenKind::PLUS_EQUALS),
        74 => Some(TokenKind::MINUS_EQUALS),
        75 => Some(TokenKind::PERCENT),
        76 => Some(TokenKind::PLUS),
        77 => Some(TokenKind::MINUS),
        78 => Some(TokenKind::EQUALS),
        79 => Some(TokenKind::GREATER),
        80 => Some(TokenKind::LESS),
        81 => Some(TokenKind::GREATER_EQUALS),
        82 => Some(TokenKind::LESS_EQUALS),
        83 => Some(TokenKind::NOT),
        84 => Some(TokenKind::NOT_EQUALS),
        85 => Some(TokenKind::OR),
        86 => Some(TokenKind::AND),
        87 => Some(TokenKind::ANNOTATION),
        88 => Some(TokenKind::MACRO),
        89 => Some(TokenKind::STRING),
        90 => Some(TokenKind::NUMBER),
        91 => Some(TokenKind::EOF),
        92 => Some(TokenKind::ANYTHING),
            _ => None,
        }
    }
}

/// Every kind has a distinct position, and the position leads back to the kind.
pub proof fn lemma_ordinal_round_trip(k: TokenKind)
    ensures
        k.ordinal() < KIND_COUNT,
        TokenKind::at_ordinal(k.ordinal()) == Some(k),
{
}

/// The reserved word spelled `w`, if any.
pub open spec fn reserved_kind(w: Seq<char>) -> Option<TokenKind> {
        if w == "lazy"@ { Some(TokenKind::LAZY) } else
        if w == "unowned"@ { Some(TokenKind::UNOWNED) } else
        if w == "weak"@ { Some(TokenKind::WEAK) } else
        if w == "var"@ { Some(TokenKind::VAR) } else
        if w == "let"@ { Some(TokenKind::LET) } else
        if w == "import"@ { Some(TokenKind::IMPORT) } else
        if w == "open"@ { Some(TokenKind::OPEN) } else
        if w == "public"@ { Some(TokenKind::PUBLIC) } else
        if w == "internal"@ { Some(TokenKind::INTERNAL) } else
        if w == "private"@ { Some(TokenKind::PRIVATE) } else
        if w == "fileprivate"@ { Some(TokenKind::FILEPRIVATE) } else
        if w == "final"@ { Some(TokenKind::FINAL) } else
        if w == "static"@ { Some(TokenKind::STATIC) } else
        if w == "class"@ { Some(TokenKind::CLASS) } else
        if w == "protocol"@ { Some(TokenKind::PROTOCOL) } else
        if w == "actor"@ { Some(TokenKind::ACTOR) } else
        if w == "struct"@ { Some(TokenKind::STRUCT) } else
        if w == "enum"@ { Some(TokenKind::ENUM) } else
        if w == "typealias"@ { Some(TokenKind::TYPEALIAS) } else
        if w == "extension"@ { Some(TokenKind::EXTENSION) } else
        if w == "func"@ { Some(TokenKind::FUNC) } else
        if w == "init"@ { Some(TokenKind::INIT) } else
        if w == "deinit"@ { Some(TokenKind::DEINIT) } else
        if w == "if"@ { Some(TokenKind::IF) } else
        if w == "else"@ { Some(TokenKind::ELSE) } else
        if w == "switch"@ { Some(TokenKind::SWITCH) } else
        if w == "case"@ { Some(TokenKind::CASE) } else
        if w == "default"@ { Some(TokenKind::DEFAULT) } else
        if w == "break"@ { Some(TokenKind::BREAK) } else
        if w == "continue"@ { Some(TokenKind::CONTINUE) } else
        if w == "do"@ { Some(TokenKind::DO) } else
        if w == "try"@ { Some(TokenKind::TRY) } else
        if w == "catch"@ { Some(TokenKind::CATCH) } else
        if w == "throw"@ { Some(TokenKind::THROW) } else
        if w == "throws"@ { Some(TokenKind::THROWS) } else
        if w == "rethrows"@ { Some(TokenKind::RETHROWS) } else
        if w == "guard"@ { Some(TokenKind::GUARD) } else
        if w == "repeat"@ { Some(TokenKind::REPEAT) } else
        if w == "while"@ { Some(TokenKind::WHILE) } else
        if w == "for"@ { Some(TokenKind::FOR) } else
        if w == "fallthrough"@ { Some(TokenKind::FALLTHROUGH) } else
        if w == "defer"@ { Some(TokenKind::DEFER) } else
        if w == "return"@ { Some(TokenKind::RETURN) } else
        if w == "in"@ { Some(TokenKind::IN) } else
        if w == "where"@ { Some(TokenKind::WHERE) } else
        if w == "any"@ { Some(TokenKind::ANY) } else
        if w == "some"@ { Some(TokenKind::SOME) } else
        if w == "as"@ { Some(TokenKind::AS) } else
        if w == "is"@ { Some(TokenKind::IS) } else
        if w == "nil"@ { Some(TokenKind::NIL) } else
        if w == "true"@ { Some(TokenKind::TRUE) } else
        if w == "false"@ { Some(TokenKind::FALSE) } else
        if w == "self"@ { Some(TokenKind::SELF) } else
        if w == "Self"@ { Some(TokenKind::TYPE_SELF) } else
        if w == "Type"@ { Some(TokenKind::TYPE) } else
        if w == "super"@ { Some(TokenKind::SUPER) } else
        { None }
}

/// Looks `w` up in the reserved-word table.
pub fn reserved_word(w: &str) -> (r: Option<TokenKind>)
    ensures
        r == reserved_kind(w@),
{
        if str_eq(w, "lazy") { return Some(TokenKind::LAZY); }
        if str_eq(w, "unowned") { return Some(TokenKind::UNOWNED); }
        if str_eq(w, "weak") { return Some(TokenKind::WEAK); }
        if str_eq(w, "var") { return Some(TokenKind::VAR); }
        if str_eq(w, "let") { return Some(TokenKind::LET); }
        if str_eq(w, "import") { return Some(TokenKind::IMPORT); }
        if str_eq(w, "open") { return Some(TokenKind::OPEN); }
        if str_eq(w, "public") { return Some(TokenKind::PUBLIC); }
        if str_eq(w, "internal") { return Some(TokenKind::INTERNAL); }
        if str_eq(w, "private") { return Some(TokenKind::PRIVATE); }
        if str_eq(w, "fileprivate") { return Some(TokenKind::FILEPRIVATE); }
        if str_eq(w, "final") { return Some(TokenKind::FINAL); }
        if str_eq(w, "static") { return Some(TokenKind::STATIC); }
        if str_eq(w, "class") { return Some(TokenKind::CLASS); }
        if str_eq(w, "protocol") { return Some(TokenKind::PROTOCOL); }
        if str_eq(w, "actor") { return Some(TokenKind::ACTOR); }
        if str_eq(w, "struct") { return Some(TokenKind::STRUCT); }
        if str_eq(w, "enum") { return Some(TokenKind::ENUM); }
        if str_eq(w, "typealias") { return Some(TokenKind::TYPEALIAS); }
        if str_eq(w, "extension") { return Some(TokenKind::EXTENSION); }
        if str_eq(w, "func") { return Some(TokenKind::FUNC); }
        if str_eq(w, "init") { return Some(TokenKind::INIT); }
        if str_eq(w, "deinit") { return Some(TokenKind::DEINIT); }
        if str_eq(w, "if") { return Some(TokenKind::IF); }
        if str_eq(w, "else") { return Some(TokenKind::ELSE); }
        if str_eq(w, "switch") { return Some(TokenKind::SWITCH); }
        if str_eq(w, "case") { return Some(TokenKind::CASE); }
        if str_eq(w, "default") { return Some(TokenKind::DEFAULT); }
        if str_eq(w, "break") { return Some(TokenKind::BREAK); }
        if str_eq(w, "continue") { return Some(TokenKind::CONTINUE); }
        if str_eq(w, "do") { return Some(TokenKind::DO); }
        if str_eq(w, "try") { return Some(TokenKind::TRY); }
        if str_eq(w, "catch") { return Some(TokenKind::CATCH); }
        if str_eq(w, "throw") { return Some(TokenKind::THROW); }
        if str_eq(w, "throws") { return Some(TokenKind::THROWS); }
        if str_eq(w, "rethrows") { return Some(TokenKind::RETHROWS); }
        if str_eq(w, "guard") { return Some(TokenKind::GUARD); }
        if str_eq(w, "repeat") { return Some(TokenKind::REPEAT); }
        if str_eq(w, "while") { return Some(TokenKind::WHILE); }
        if str_eq(w, "for") { return Some(TokenKind::FOR); }
        if str_eq(w, "fallthrough") { return Some(TokenKind::FALLTHROUGH); }
        if str_eq(w, "defer") { return Some(TokenKind::DEFER); }
        if str_eq(w, "return") { return Some(TokenKind::RETURN); }
        if str_eq(w, "in") { return Some(TokenKind::IN); }
        if str_eq(w, "where") { return Some(TokenKind::WHERE); }
        if str_eq(w, "any") { return Some(TokenKind::ANY); }
        if str_eq(w, "some") { return Some(TokenKind::SOME); }
        if str_eq(w, "as") { return Some(TokenKind::AS); }
        if str_eq(w, "is") { return Some(TokenKind::IS); }
        if str_eq(w, "nil") { return Some(TokenKind::NIL); }
        if str_eq(w, "true") { return Some(TokenKind::TRUE); }
        if str_eq(w, "false") { return Some(TokenKind::FALSE); }
        if str_eq(w, "self") { return Some(TokenKind::SELF); }
        if str_eq(w, "Self") { return Some(TokenKind::TYPE_SELF); }
        if str_eq(w, "Type") { return Some(TokenKind::TYPE); }
        if str_eq(w, "super") { return Some(TokenKind::SUPER); }
        None
}

/// Kind of a word-like lexeme: its reserved kind, else `IDENTIFIER`.
pub open spec fn word_kind(w: Seq<char>) -> TokenKind {
    match reserved_kind(w) {
        Some(k) => k,
        None => TokenKind::IDENTIFIER,
    }
}

pub fn string_to_token(symbol: &str) -> (r: TokenKind)
    ensures
        r == word_kind(symbol@),
{
    match reserved_word(symbol) {
        Some(k) => k,
        None => TokenKind::IDENTIFIER,
    }
}

/// A token whose text may serve as a name: any reserved word, or an identifier.
pub open spec fn can_be_name(t: TokenView) -> bool {
    reserved_kind(t.value) is Some || t.kind == TokenKind::IDENTIFIER
}

pub fn token_can_be_name(token: &Token) -> (r: bool)
    ensures
        r == can_be_name(token@),
{
    if reserved_word(token.value.as_str()).is_some() {
        return true;
    }
    token.kind == TokenKind::IDENTIFIER
}

/// A lexeme with its kind, text and source position.
#[derive(Debug, Clone)]
pub struct Token {
    pub kind: TokenKind,
    pub value: String,
    pub file: String,
    pub line: u64,
    pub col: u64,
}

/// Mathematical form of a token.
pub struct TokenView {
    pub kind: TokenKind,
    pub value: Seq<char>,
    pub file: Seq<char>,
    pub line: u64,
    pub col: u64,
}

impl View for Token {
    type V = TokenView;

    open spec fn view(&self) -> TokenView {
        TokenView {
            kind: self.kind,
            value: self.value@,
            file: self.file@,
            line: self.line,
            col: self.col,
        }
    }
}

impl Token {
    pub fn new(kind: TokenKind, value: String, file: String, line: u64, col: u64) -> (r: Token)
        ensures
            r@ == (TokenView { kind, value: value@, file: file@, line, col }),
    {
        Token { kind, value, file, line, col }
    }

    /// A token equal to this one.
    pub fn duplicate(&self) -> (r: Token)
        ensures
            r@ == self@,
    {
        Token {
            kind: self.kind,
            value: self.value.clone(),
            file: self.file.clone(),
            line: self.line,
            col: self.col,
        }
    }
}

/// Views of a token sequence.
pub open spec fn views(ts: Seq<Token>) -> Seq<TokenView> {
    ts.map_values(|t: Token| t@)
}

} // verus!
