use vstd::prelude::*;

use crate::text::{chars_of, slice_string};
use crate::token::{string_to_token, views, word_kind, Token, TokenKind, TokenView};

verus! {

/// Lexing stopped: no rule matches at `pos` (a character index).
#[derive(Debug, Clone, Copy, PartialEq, Eq, Structural)]
pub struct LexError {
    pub pos: usize,
    pub line: u64,
    pub col: u64,
}

/// Classes of characters that the run-based rules consume.
#[derive(Debug, Clone, Copy, PartialEq, Eq, Structural)]
pub enum CharClass {
    Blank,
    Digit,
    WordChar,
}

/// The lexical rules, in priority order.
#[derive(Debug, Clone, Copy, PartialEq, Eq, Structural)]
pub enum Rule {
    Blank,
    LineBreak,
    BlockComment,
    LineComment,
    BlockString,
    QuotedString,
    Number,
    Word,
    Annotation,
    Macro,
    Symbol(TokenKind),
}

/// White space other than a line break (`\r`, `\n`).
pub open spec fn is_blank(c: char) -> bool {
    let u = #[verifier::truncate] (c as u32);
    u == 0x20 || u == 0x09 || u == 0x0B || u == 0x0C || u == 0x85 || u == 0xA0 || u == 0x1680
        || (0x2000 <= u && u <= 0x200A) || u == 0x2028 || u == 0x2029 || u == 0x202F
        || u == 0x205F || u == 0x3000
}

pub open spec fn is_digit(c: char) -> bool {
    0x30 <= c as u32 && c as u32 <= 0x39
}

pub open spec fn is_word_start(c: char) -> bool {
    (0x41 <= c as u32 && c as u32 <= 0x5A) || (0x61 <= c as u32 && c as u32 <= 0x7A) || c == '_'
}

pub open spec fn is_word_char(c: char) -> bool {
    is_word_start(c) || is_digit(c)
}

pub open spec fn in_class(c: char, k: CharClass) -> bool {
    match k {
        CharClass::Blank => is_blank(c),
        CharClass::Digit => is_digit(c),
        CharClass::WordChar => is_word_char(c),
    }
}

/// Length of the run of class `k` that starts at `i`.
pub open spec fn run(s: Seq<char>, i: int, k: CharClass) -> nat
    decreases s.len() - i,
{
    if 0 <= i < s.len() && in_class(s[i], k) {
        1 + run(s, i + 1, k)
    } else {
        0
    }
}

pub open spec fn peek(s: Seq<char>, i: int, c: char) -> bool {
    0 <= i < s.len() && s[i] == c
}

/// First `k >= from` where `a` then `b` stand.
pub open spec fn find_pair(s: Seq<char>, from: int, a: char, b: char) -> Option<int>
    decreases s.len() - from,
{
    if from < 0 || from + 1 >= s.len() {
        None
    } else if s[from] == a && s[from + 1] == b {
        Some(from)
    } else {
        find_pair(s, from + 1, a, b)
    }
}

/// First `k >= from` where three double quotes stand.
pub open spec fn find_triple_quote(s: Seq<char>, from: int) -> Option<int>
    decreases s.len() - from,
{
    if from < 0 || from + 2 >= s.len() {
        None
    } else if s[from] == '"' && s[from + 1] == '"' && s[from + 2] == '"' {
        Some(from)
    } else {
        find_triple_quote(s, from + 1)
    }
}

/// Index of the first `\n` at or after `from`, or the end of the text.
pub open spec fn line_end(s: Seq<char>, from: int) -> int
    decreases s.len() - from,
{
    if from < 0 || from >= s.len() {
        s.len() as int
    } else if s[from] == '\n' {
        from
    } else {
        line_end(s, from + 1)
    }
}

/// Index of the quote that closes an escaped string whose body starts at `k`.
pub open spec fn quoted_end(s: Seq<char>, k: int) -> Option<int>
    decreases s.len() - k,
{
    if k < 0 || k >= s.len() {
        None
    } else if s[k] == '"' {
        Some(k)
    } else if s[k] == '\\' {
        if k + 1 < s.len() && s[k + 1] != '\n' {
            quoted_end(s, k + 2)
        } else {
            None
        }
    } else if s[k] == '\r' || s[k] == '\n' {
        None
    } else {
        quoted_end(s, k + 1)
    }
}

/// Length of a numeric literal at `i`: digits, then optionally `.` and digits.
pub open spec fn number_len(s: Seq<char>, i: int) -> int {
    let d = run(s, i, CharClass::Digit);
    if peek(s, i + d, '.') && 0 <= i + d + 1 < s.len() && is_digit(s[i + d + 1]) {
        d + 1 + run(s, i + d + 1, CharClass::Digit) as int
    } else {
        d as int
    }
}

/// The punctuation or operator at `i`, longest spelling first.
pub open spec fn symbol_at(s: Seq<char>, i: int) -> Option<(TokenKind, int)> {
    let c = s[i];
    if c == '[' {
        Some((TokenKind::OPEN_BRACKET, 1))
    } else if c == ']' {
        Some((TokenKind::CLOSE_BRACKET, 1))
    } else if c == '{' {
        Some((TokenKind::OPEN_BRACE, 1))
    } else if c == '}' {
        Some((TokenKind::CLOSE_BRACE, 1))
    } else if c == '(' {
        Some((TokenKind::OPEN_PAREN, 1))
    } else if c == ')' {
        Some((TokenKind::CLOSE_PAREN, 1))
    } else if c == ':' {
        Some((TokenKind::COLON, 1))
    } else if c == ';' {
        Some((TokenKind::SEMI_COLON, 1))
    } else if c == '.' {
        if peek(s, i + 1, '.') && peek(s, i + 2, '.') {
            Some((TokenKind::DOT_DOT_DOT, 3))
        } else if peek(s, i + 1, '.') && peek(s, i + 2, '<') {
            Some((TokenKind::RANGE, 3))
        } else {
            Some((TokenKind::DOT, 1))
        }
    } else if c == '?' {
        if peek(s, i + 1, '?') {
            Some((TokenKind::DEFAULTING, 2))
        } else {
            Some((TokenKind::OPTIONAL, 1))
        }
    } else if c == '>' {
        if peek(s, i + 1, '=') {
            Some((TokenKind::GREATER_EQUALS, 2))
        } else {
            Some((TokenKind::GREATER, 1))
        }
    } else if c == '=' {
        if peek(s, i + 1, '=') {
            Some((TokenKind::EQUALS, 2))
        } else {
            Some((TokenKind::ASSIGNMENT, 1))
        }
    } else if c == '!' {
        if peek(s, i + 1, '=') {
            Some((TokenKind::NOT_EQUALS, 2))
        } else {
            Some((TokenKind::NOT, 1))
        }
    } else if c == '<' {
        if peek(s, i + 1, '=') {
            Some((TokenKind::LESS_EQUALS, 2))
        } else {
            Some((TokenKind::LESS, 1))
        }
    } else if c == '*' {
        Some((TokenKind::STAR, 1))
    } else if c == ',' {
        Some((TokenKind::COMMA, 1))
    } else if c == '&' && peek(s, i + 1, '&') {
        Some((TokenKind::AND, 2))
    } else if c == '|' && peek(s, i + 1, '|') {
        Some((TokenKind::OR, 2))
    } else if c == '+' {
        if peek(s, i + 1, '=') {
            Some((TokenKind::PLUS_EQUALS, 2))
        } else {
            Some((TokenKind::PLUS, 1))
        }
    } else if c == '-' {
        if peek(s, i + 1, '=') {
            Some((TokenKind::MINUS_EQUALS, 2))
        } else {
            Some((TokenKind::MINUS, 1))
        }
    } else if c == '%' {
        Some((TokenKind::PERCENT, 1))
    } else {
        None
    }
}

/// The first rule, in priority order, that matches at `i`, with the length it consumes.
pub open spec fn rule_at(s: Seq<char>, i: int) -> Option<(Rule, int)> {
    let c = s[i];
    if run(s, i, CharClass::Blank) > 0 {
        Some((Rule::Blank, run(s, i, CharClass::Blank) as int))
    } else if c == '\n' {
        Some((Rule::LineBreak, 1))
    } else if c == '\r' {
        if peek(s, i + 1, '\n') {
            Some((Rule::LineBreak, 2))
        } else {
            Some((Rule::LineBreak, 1))
        }
    } else if c == '/' && peek(s, i + 1, '*') && find_pair(s, i + 2, '*', '/') is Some {
        Some((Rule::BlockComment, find_pair(s, i + 2, '*', '/')->0 + 2 - i))
    } else if c == '/' && peek(s, i + 1, '/') {
        Some((Rule::LineComment, line_end(s, i + 2) - i))
    } else if c == '"' && peek(s, i + 1, '"') && peek(s, i + 2, '"') && find_triple_quote(
        s,
        i + 4,
    ) is Some {
        Some((Rule::BlockString, find_triple_quote(s, i + 4)->0 + 3 - i))
    } else if c == '"' && quoted_end(s, i + 1) is Some {
        Some((Rule::QuotedString, quoted_end(s, i + 1)->0 + 1 - i))
    } else if is_digit(c) {
        Some((Rule::Number, number_len(s, i)))
    } else if is_word_start(c) {
        Some((Rule::Word, 1 + run(s, i + 1, CharClass::WordChar) as int))
    } else if c == '@' {
        Some((Rule::Annotation, 1 + run(s, i + 1, CharClass::WordChar) as int))
    } else if c == '#' {
        Some((Rule::Macro, 1 + run(s, i + 1, CharClass::WordChar) as int))
    } else {
        match symbol_at(s, i) {
            Some((k, n)) => Some((Rule::Symbol(k), n)),
            None => None,
        }
    }
}

/// Number of `\n` in `s[lo..hi]`.
pub open spec fn newlines(s: Seq<char>, lo: int, hi: int) -> nat
    decreases hi - lo,
{
    if hi <= lo {
        0
    } else {
        newlines(s, lo, hi - 1) + if s[hi - 1] == '\n' {
            1nat
        } else {
            0nat
        }
    }
}

/// Index of the last `\n` in `s[lo..hi]`, or `-1`.
pub open spec fn last_newline(s: Seq<char>, lo: int, hi: int) -> int
    decreases hi - lo,
{
    if hi <= lo {
        -1
    } else if s[hi - 1] == '\n' {
        hi - 1
    } else {
        last_newline(s, lo, hi - 1)
    }
}

/// A token at character index `i`, on `line`, whose line starts at index `ls`.
pub open spec fn token_at(
    kind: TokenKind,
    value: Seq<char>,
    file: Seq<char>,
    i: int,
    line: nat,
    ls: int,
) -> TokenView {
    TokenView { kind, value, file, line: line as u64, col: (i - ls + 1) as u64 }
}

/// The tokens that rule `r`, matching `s[i..i + n]`, emits.
pub open spec fn emitted(
    s: Seq<char>,
    file: Seq<char>,
    r: Rule,
    i: int,
    n: int,
    line: nat,
    ls: int,
) -> Seq<TokenView> {
    let text = s.subrange(i, i + n);
    match r {
        Rule::BlockString => seq![
            token_at(TokenKind::STRING, s.subrange(i + 3, i + n - 3), file, i, line, ls),
        ],
        Rule::QuotedString => seq![
            token_at(TokenKind::STRING, s.subrange(i + 1, i + n - 1), file, i, line, ls),
        ],
        Rule::Number => seq![token_at(TokenKind::NUMBER, text, file, i, line, ls)],
        Rule::Word => seq![token_at(word_kind(text), text, file, i, line, ls)],
        Rule::Annotation => seq![token_at(TokenKind::ANNOTATION, text, file, i, line, ls)],
        Rule::Macro => seq![token_at(TokenKind::MACRO, text, file, i, line, ls)],
        Rule::Symbol(k) => seq![token_at(k, text, file, i, line, ls)],
        _ => seq![],
    }
}

/// Line number after rule `r` consumed `s[i..i + n]`.
pub open spec fn line_after(s: Seq<char>, r: Rule, i: int, n: int, line: nat) -> nat {
    match r {
        Rule::LineBreak => line + 1,
        Rule::BlockComment => line + newlines(s, i, i + n),
        _ => line,
    }
}

/// Start of the current line after rule `r` consumed `s[i..i + n]`.
pub open spec fn line_start_after(s: Seq<char>, r: Rule, i: int, n: int, ls: int) -> int {
    match r {
        Rule::LineBreak => i + n,
        Rule::BlockComment => if newlines(s, i, i + n) > 0 {
            last_newline(s, i, i + n) + 1
        } else {
            ls
        },
        _ => ls,
    }
}

/// The tokens of `s[i..]`, ending with `EOF`, or the first position where no rule matches.
pub open spec fn lex_from(s: Seq<char>, file: Seq<char>, i: int, line: nat, ls: int) -> Result<
    Seq<TokenView>,
    LexError,
>
    decreases s.len() - i,
{
    if i < 0 || i >= s.len() {
        Ok(seq![token_at(TokenKind::EOF, seq![], file, i, line, ls)])
    } else {
        match rule_at(s, i) {
            None => Err(LexError { pos: i as usize, line: line as u64, col: (i - ls + 1) as u64 }),
            Some((r, n)) => if n <= 0 || i + n > s.len() {
                Err(LexError { pos: i as usize, line: line as u64, col: (i - ls + 1) as u64 })
            } else {
                prepend(
                    emitted(s, file, r, i, n, line, ls),
                    lex_from(
                        s,
                        file,
                        i + n,
                        line_after(s, r, i, n, line),
                        line_start_after(s, r, i, n, ls),
                    ),
                )
            },
        }
    }
}

pub open spec fn prepend(p: Seq<TokenView>, r: Result<Seq<TokenView>, LexError>) -> Result<
    Seq<TokenView>,
    LexError,
> {
    match r {
        Ok(rest) => Ok(p + rest),
        Err(e) => Err(e),
    }
}

/// The token sequence of a whole source text, lines counted from 1.
pub open spec fn lex(s: Seq<char>, file: Seq<char>) -> Result<Seq<TokenView>, LexError> {
    lex_from(s, file, 0, 1, 0)
}

pub open spec fn all_digits(t: Seq<char>) -> bool {
    forall|i: int| 0 <= i < t.len() ==> is_digit(#[trigger] t[i])
}

/// Value of a string of decimal digits.
pub open spec fn digits_value(t: Seq<char>) -> nat
    decreases t.len(),
{
    if t.len() == 0 {
        0
    } else {
        digits_value(t.drop_last()) * 10 + (t.last() as u32 - 0x30) as nat
    }
}

/// Index of the first `.` at or after `i`, or the length of `t`.
pub open spec fn dot_index(t: Seq<char>, i: int) -> int
    decreases t.len() - i,
{
    if i < 0 || i >= t.len() {
        t.len() as int
    } else if t[i] == '.' {
        i
    } else {
        dot_index(t, i + 1)
    }
}

/// Digits, a `.`, and digits.
pub open spec fn is_decimal_text(t: Seq<char>) -> bool {
    let k = dot_index(t, 0);
    0 < k < t.len() - 1 && all_digits(t.subrange(0, k)) && all_digits(t.subrange(k + 1, t.len() as int))
}

/// Text of a numeric literal: digits, optionally followed by `.` and digits.
pub open spec fn is_number_text(t: Seq<char>) -> bool {
    (t.len() > 0 && all_digits(t)) || is_decimal_text(t)
}

/// Every `NUMBER` token holds the text of a numeric literal.
pub open spec fn numbers_well_formed(ts: Seq<TokenView>) -> bool {
    forall|j: int|
        0 <= j < ts.len() && #[trigger] ts[j].kind == TokenKind::NUMBER ==> is_number_text(
            ts[j].value,
        )
}

proof fn lemma_run(s: Seq<char>, i: int, k: CharClass)
    requires
        0 <= i <= s.len(),
    ensures
        i + run(s, i, k) <= s.len(),
        forall|j: int| i <= j < i + run(s, i, k) ==> in_class(#[trigger] s[j], k),
    decreases s.len() - i,
{
    if i < s.len() && in_class(s[i], k) {
        lemma_run(s, i + 1, k);
    }
}

proof fn lemma_dot_from(t: Seq<char>, i: int, d: int)
    requires
        0 <= i <= d < t.len(),
        t[d] == '.',
        forall|j: int| i <= j < d ==> #[trigger] t[j] != '.',
    ensures
        dot_index(t, i) == d,
    decreases d - i,
{
    if i < d {
        lemma_dot_from(t, i + 1, d);
    }
}

/// The text that the number rule consumes is a numeric literal.
proof fn lemma_number_text(s: Seq<char>, i: int)
    requires
        0 <= i < s.len(),
        is_digit(s[i]),
    ensures
        i + number_len(s, i) <= s.len(),
        is_number_text(s.subrange(i, i + number_len(s, i))),
{
    let d = run(s, i, CharClass::Digit) as int;
    lemma_run(s, i, CharClass::Digit);
    let n = number_len(s, i);
    let t = s.subrange(i, i + n);
    if peek(s, i + d, '.') && 0 <= i + d + 1 < s.len() && is_digit(s[i + d + 1]) {
        let f = run(s, i + d + 1, CharClass::Digit) as int;
        lemma_run(s, i + d + 1, CharClass::Digit);
        assert(f >= 1);
        assert forall|j: int| 0 <= j < d implies #[trigger] t[j] != '.' by {
            assert(t[j] == s[i + j]);
            assert(in_class(s[i + j], CharClass::Digit));
        }
        lemma_dot_from(t, 0, d);
        let a = t.subrange(0, d);
        let b = t.subrange(d + 1, t.len() as int);
        assert forall|j: int| 0 <= j < a.len() implies is_digit(#[trigger] a[j]) by {
            assert(a[j] == s[i + j]);
            assert(in_class(s[i + j], CharClass::Digit));
        }
        assert forall|j: int| 0 <= j < b.len() implies is_digit(#[trigger] b[j]) by {
            assert(b[j] == s[i + d + 1 + j]);
            assert(in_class(s[i + d + 1 + j], CharClass::Digit));
        }
    } else {
        assert forall|j: int| 0 <= j < t.len() implies is_digit(#[trigger] t[j]) by {
            assert(t[j] == s[i + j]);
            assert(in_class(s[i + j], CharClass::Digit));
        }
    }
}

/// A successful lexing ends with `EOF`, and its `NUMBER` tokens are numeric literals.
pub proof fn lemma_lex_shape(s: Seq<char>, file: Seq<char>, i: int, line: nat, ls: int)
    ensures
        lex_from(s, file, i, line, ls) matches Ok(ts) ==> {
            &&& ts.len() > 0
            &&& ts.last().kind == TokenKind::EOF
            &&& numbers_well_formed(ts)
        },
    decreases s.len() - i,
{
    if i < 0 || i >= s.len() {
    } else {
        match rule_at(s, i) {
            None => {},
            Some((r, n)) => {
                if n <= 0 || i + n > s.len() {
                } else {
                    let e = emitted(s, file, r, i, n, line, ls);
                    let nl = line_after(s, r, i, n, line);
                    let nls = line_start_after(s, r, i, n, ls);
                    lemma_lex_shape(s, file, i + n, nl, nls);
                    if let Ok(rest) = lex_from(s, file, i + n, nl, nls) {
                        let ts = e + rest;
                        if r == Rule::Number {
                            lemma_number_text(s, i);
                        }
                        assert(numbers_well_formed(e));
                        assert forall|j: int|
                            0 <= j < ts.len() && #[trigger] ts[j].kind
                                == TokenKind::NUMBER implies is_number_text(ts[j].value) by {
                            if j < e.len() {
                                assert(ts[j] == e[j]);
                            } else {
                                assert(ts[j] == rest[j - e.len()]);
                            }
                        }
                        assert(ts.last() == rest.last());
                    }
                }
            },
        }
    }
}

/// Views of a lexing outcome.
pub open spec fn lexed(r: Result<Vec<Token>, LexError>) -> Result<Seq<TokenView>, LexError> {
    match r {
        Ok(ts) => Ok(views(ts@)),
        Err(e) => Err(e),
    }
}

fn class_has(c: char, k: CharClass) -> (r: bool)
    ensures
        r == in_class(c, k),
{
    let u = #[verifier::truncate] (c as u32);
    let digit = 0x30 <= u && u <= 0x39;
    let word = (0x41 <= u && u <= 0x5A) || (0x61 <= u && u <= 0x7A) || c == '_' || digit;
    match k {
        CharClass::Blank => u == 0x20 || u == 0x09 || u == 0x0B || u == 0x0C || u == 0x85 || u
            == 0xA0 || u == 0x1680 || (0x2000 <= u && u <= 0x200A) || u == 0x2028 || u == 0x2029
            || u == 0x202F || u == 0x205F || u == 0x3000,
        CharClass::Digit => digit,
        CharClass::WordChar => word,
    }
}

fn run_len(s: &Vec<char>, i: usize, k: CharClass) -> (r: usize)
    requires
        i <= s@.len(),
    ensures
        r as nat == run(s@, i as int, k),
        i + r <= s@.len(),
{
    let mut j = i;
    while j < s.len() && class_has(s[j], k)
        invariant
            i <= j <= s@.len(),
            run(s@, i as int, k) == (j - i) + run(s@, j as int, k),
        decreases s@.len() - j,
    {
        j += 1;
    }
    j - i
}

fn peek_is(s: &Vec<char>, i: usize, k: usize, c: char) -> (r: bool)
    ensures
        r == peek(s@, i + k, c),
{
    k < s.len() && i < s.len() - k && s[i + k] == c
}

fn find_pair_from(s: &Vec<char>, from: usize, a: char, b: char) -> (r: Option<usize>)
    requires
        from <= s@.len(),
    ensures
        match r {
            Some(k) => find_pair(s@, from as int, a, b) == Some(k as int) && from <= k && k + 1
                < s@.len(),
            None => find_pair(s@, from as int, a, b) is None,
        },
{
    let mut j = from;
    loop
        invariant
            from <= j <= s@.len(),
            find_pair(s@, from as int, a, b) == find_pair(s@, j as int, a, b),
        decreases s@.len() - j,
    {
        if s.len() - j <= 1 {
            return None;
        }
        if s[j] == a && s[j + 1] == b {
            return Some(j);
        }
        j += 1;
    }
}

fn find_triple_quote_from(s: &Vec<char>, from: usize) -> (r: Option<usize>)
    requires
        from <= s@.len(),
    ensures
        match r {
            Some(k) => find_triple_quote(s@, from as int) == Some(k as int) && from <= k && k + 2
                < s@.len(),
            None => find_triple_quote(s@, from as int) is None,
        },
{
    let mut j = from;
    loop
        invariant
            from <= j <= s@.len(),
            find_triple_quote(s@, from as int) == find_triple_quote(s@, j as int),
        decreases s@.len() - j,
    {
        if s.len() - j <= 2 {
            return None;
        }
        if s[j] == '"' && s[j + 1] == '"' && s[j + 2] == '"' {
            return Some(j);
        }
        j += 1;
    }
}

pub(crate) fn line_end_from(s: &Vec<char>, from: usize) -> (r: usize)
    requires
        from <= s@.len(),
    ensures
        r as int == line_end(s@, from as int),
        from <= r <= s@.len(),
{
    let mut j = from;
    while j < s.len() && s[j] != '\n'
        invariant
            from <= j <= s@.len(),
            line_end(s@, from as int) == line_end(s@, j as int),
        decreases s@.len() - j,
    {
        j += 1;
    }
    j
}

fn quoted_end_from(s: &Vec<char>, k: usize) -> (r: Option<usize>)
    requires
        k <= s@.len(),
    ensures
        match r {
            Some(e) => quoted_end(s@, k as int) == Some(e as int) && k <= e < s@.len(),
            None => quoted_end(s@, k as int) is None,
        },
{
    let mut j = k;
    loop
        invariant
            k <= j <= s@.len(),
            quoted_end(s@, k as int) == quoted_end(s@, j as int),
        decreases s@.len() - j,
    {
        if j >= s.len() {
            return None;
        }
        let c = s[j];
        if c == '"' {
            return Some(j);
        } else if c == '\\' {
            if j + 1 < s.len() && s[j + 1] != '\n' {
                j += 2;
            } else {
                return None;
            }
        } else if c == '\r' || c == '\n' {
            return None;
        } else {
            j += 1;
        }
    }
}

fn symbol_from(s: &Vec<char>, i: usize) -> (r: Option<(TokenKind, usize)>)
    requires
        i < s@.len(),
    ensures
        match r {
            Some((k, n)) => symbol_at(s@, i as int) == Some((k, n as int)) && 0 < n && i + n
                <= s@.len(),
            None => symbol_at(s@, i as int) is None,
        },
{
    let c = s[i];
    if c == '[' {
        Some((TokenKind::OPEN_BRACKET, 1))
    } else if c == ']' {
        Some((TokenKind::CLOSE_BRACKET, 1))
    } else if c == '{' {
        Some((TokenKind::OPEN_BRACE, 1))
    } else if c == '}' {
        Some((TokenKind::CLOSE_BRACE, 1))
    } else if c == '(' {
        Some((TokenKind::OPEN_PAREN, 1))
    } else if c == ')' {
        Some((TokenKind::CLOSE_PAREN, 1))
    } else if c == ':' {
        Some((TokenKind::COLON, 1))
    } else if c == ';' {
        Some((TokenKind::SEMI_COLON, 1))
    } else if c == '.' {
        if peek_is(s, i, 1, '.') && peek_is(s, i, 2, '.') {
            Some((TokenKind::DOT_DOT_DOT, 3))
        } else if peek_is(s, i, 1, '.') && peek_is(s, i, 2, '<') {
            Some((TokenKind::RANGE, 3))
        } else {
            Some((TokenKind::DOT, 1))
        }
    } else if c == '?' {
        if peek_is(s, i, 1, '?') {
            Some((TokenKind::DEFAULTING, 2))
        } else {
            Some((TokenKind::OPTIONAL, 1))
        }
    } else if c == '>' {
        if peek_is(s, i, 1, '=') {
            Some((TokenKind::GREATER_EQUALS, 2))
        } else {
            Some((TokenKind::GREATER, 1))
        }
    } else if c == '=' {
        if peek_is(s, i, 1, '=') {
            Some((TokenKind::EQUALS, 2))
        } else {
            Some((TokenKind::ASSIGNMENT, 1))
        }
    } else if c == '!' {
        if peek_is(s, i, 1, '=') {
            Some((TokenKind::NOT_EQUALS, 2))
        } else {
            Some((TokenKind::NOT, 1))
        }
    } else if c == '<' {
        if peek_is(s, i, 1, '=') {
            Some((TokenKind::LESS_EQUALS, 2))
        } else {
            Some((TokenKind::LESS, 1))
        }
    } else if c == '*' {
        Some((TokenKind::STAR, 1))
    } else if c == ',' {
        Some((TokenKind::COMMA, 1))
    } else if c == '&' && peek_is(s, i, 1, '&') {
        Some((TokenKind::AND, 2))
    } else if c == '|' && peek_is(s, i, 1, '|') {
        Some((TokenKind::OR, 2))
    } else if c == '+' {
        if peek_is(s, i, 1, '=') {
            Some((TokenKind::PLUS_EQUALS, 2))
        } else {
            Some((TokenKind::PLUS, 1))
        }
    } else if c == '-' {
        if peek_is(s, i, 1, '=') {
            Some((TokenKind::MINUS_EQUALS, 2))
        } else {
            Some((TokenKind::MINUS, 1))
        }
    } else if c == '%' {
        Some((TokenKind::PERCENT, 1))
    } else {
        None
    }
}

/// The rule that matches at `i` and the length it consumes.
pub fn match_rule(s: &Vec<char>, i: usize) -> (r: Option<(Rule, usize)>)
    requires
        i < s@.len(),
    ensures
        match r {
            Some((k, n)) => rule_at(s@, i as int) == Some((k, n as int)) && 0 < n && i + n
                <= s@.len(),
            None => rule_at(s@, i as int) is None,
        },
        r matches Some((Rule::BlockString, n)) ==> n >= 7,
        r matches Some((Rule::QuotedString, n)) ==> n >= 2,
{
    let len = s.len();
    let c = s[i];
    let blank = run_len(s, i, CharClass::Blank);
    if blank > 0 {
        return Some((Rule::Blank, blank));
    }
    if c == '\n' {
        return Some((Rule::LineBreak, 1));
    }
    if c == '\r' {
        if peek_is(s, i, 1, '\n') {
            return Some((Rule::LineBreak, 2));
        }
        return Some((Rule::LineBreak, 1));
    }
    if c == '/' && peek_is(s, i, 1, '*') {
        if let Some(k) = find_pair_from(s, i + 2, '*', '/') {
            return Some((Rule::BlockComment, k + 2 - i));
        }
    }
    if c == '/' && peek_is(s, i, 1, '/') {
        let e = line_end_from(s, i + 2);
        return Some((Rule::LineComment, e - i));
    }
    if c == '"' && peek_is(s, i, 1, '"') && peek_is(s, i, 2, '"') && i + 3 < len {
        if let Some(k) = find_triple_quote_from(s, i + 4) {
            return Some((Rule::BlockString, k + 3 - i));
        }
    }
    if c == '"' {
        if let Some(k) = quoted_end_from(s, i + 1) {
            return Some((Rule::QuotedString, k + 1 - i));
        }
    }
    let u = #[verifier::truncate] (c as u32);
    if 0x30 <= u && u <= 0x39 {
        let d = run_len(s, i, CharClass::Digit);
        if peek_is(s, i, d, '.') && i + d + 1 < s.len() && class_has(s[i + d + 1], CharClass::Digit) {
            let f = run_len(s, i + d + 1, CharClass::Digit);
            return Some((Rule::Number, d + 1 + f));
        }
        return Some((Rule::Number, d));
    }
    if (0x41 <= u && u <= 0x5A) || (0x61 <= u && u <= 0x7A) || c == '_' {
        let w = run_len(s, i + 1, CharClass::WordChar);
        return Some((Rule::Word, 1 + w));
    }
    if c == '@' {
        let w = run_len(s, i + 1, CharClass::WordChar);
        return Some((Rule::Annotation, 1 + w));
    }
    if c == '#' {
        let w = run_len(s, i + 1, CharClass::WordChar);
        return Some((Rule::Macro, 1 + w));
    }
    match symbol_from(s, i) {
        Some((k, n)) => Some((Rule::Symbol(k), n)),
        None => None,
    }
}

fn comment_lines(s: &Vec<char>, lo: usize, hi: usize) -> (r: (usize, usize))
    requires
        lo <= hi <= s@.len(),
    ensures
        r.0 as nat == newlines(s@, lo as int, hi as int),
        r.0 <= hi - lo,
        r.0 > 0 ==> r.1 as int == last_newline(s@, lo as int, hi as int) + 1 && lo < r.1 <= hi,
{
    let mut count: usize = 0;
    let mut last: usize = 0;
    let mut j = lo;
    while j < hi
        invariant
            lo <= j <= hi <= s@.len(),
            count as nat == newlines(s@, lo as int, j as int),
            count <= j - lo,
            count > 0 ==> last as int == last_newline(s@, lo as int, j as int) + 1 && lo < last
                <= j,
        decreases hi - j,
    {
        if s[j] == '\n' {
            count += 1;
            last = j + 1;
        }
        j += 1;
    }
    (count, last)
}

proof fn lemma_prepend_join(a: Seq<TokenView>, b: Seq<TokenView>, r: Result<Seq<TokenView>, LexError>)
    ensures
        prepend(a, prepend(b, r)) == prepend(a + b, r),
{
    if let Ok(x) = r {
        assert(a + (b + x) =~= (a + b) + x);
    }
}

/// Splits `source` into tokens that carry `file` as their file name; the sequence ends
/// with `EOF`, or lexing stops at the first position where no rule matches.
pub fn tokenize(source: &str, file: &str) -> (r: Result<Vec<Token>, LexError>)
    requires
        source@.len() < usize::MAX,
    ensures
        lexed(r) == lex(source@, file@),
{
    let s = chars_of(source);
    let len = s.len();
    let mut tokens: Vec<Token> = Vec::new();
    let mut i: usize = 0;
    let mut line: usize = 1;
    let mut ls: usize = 0;
    proof {
        assert(views(tokens@) =~= Seq::<TokenView>::empty());
        assert(Seq::<TokenView>::empty() + lex(s@, file@)->Ok_0 =~= lex(s@, file@)->Ok_0);
    }
    while i < len
        invariant
            len == s@.len(),
            len < usize::MAX,
            s@ == source@,
            ls <= i <= len,
            1 <= line <= i + 1,
            lex(s@, file@) == prepend(
                views(tokens@),
                lex_from(s@, file@, i as int, line as nat, ls as int),
            ),
        decreases len - i,
    {
        let col = (i - ls + 1) as u64;
        let ln = line as u64;
        match match_rule(&s, i) {
            None => {
                return Err(LexError { pos: i, line: ln, col });
            },
            Some((rule, n)) => {
                let ghost old_tokens = tokens@;
                let ghost e = emitted(s@, file@, rule, i as int, n as int, line as nat, ls as int);
                let ghost rest = lex_from(
                    s@,
                    file@,
                    i + n,
                    line_after(s@, rule, i as int, n as int, line as nat),
                    line_start_after(s@, rule, i as int, n as int, ls as int),
                );
                assert(lex_from(s@, file@, i as int, line as nat, ls as int) == prepend(e, rest));
                match rule {
                    Rule::Blank | Rule::LineComment => {},
                    Rule::LineBreak => {
                        line = line + 1;
                        ls = i + n;
                    },
                    Rule::BlockComment => {
                        let (count, last) = comment_lines(&s, i, i + n);
                        line = line + count;
                        if count > 0 {
                            ls = last;
                        }
                    },
                    Rule::BlockString => {
                        let v = slice_string(&s, i + 3, i + n - 3);
                        tokens.push(Token::new(TokenKind::STRING, v, file.to_owned(), ln, col));
                    },
                    Rule::QuotedString => {
                        let v = slice_string(&s, i + 1, i + n - 1);
                        tokens.push(Token::new(TokenKind::STRING, v, file.to_owned(), ln, col));
                    },
                    Rule::Number => {
                        let v = slice_string(&s, i, i + n);
                        tokens.push(Token::new(TokenKind::NUMBER, v, file.to_owned(), ln, col));
                    },
                    Rule::Word => {
                        let v = slice_string(&s, i, i + n);
                        let kind = string_to_token(v.as_str());
                        tokens.push(Token::new(kind, v, file.to_owned(), ln, col));
                    },
                    Rule::Annotation => {
                        let v = slice_string(&s, i, i + n);
                        tokens.push(Token::new(TokenKind::ANNOTATION, v, file.to_owned(), ln, col));
                    },
                    Rule::Macro => {
                        let v = slice_string(&s, i, i + n);
                        tokens.push(Token::new(TokenKind::MACRO, v, file.to_owned(), ln, col));
                    },
                    Rule::Symbol(kind) => {
                        let v = slice_string(&s, i, i + n);
                        tokens.push(Token::new(kind, v, file.to_owned(), ln, col));
                    },
                }
                proof {
                    assert(views(tokens@) =~= views(old_tokens) + e);
                    lemma_prepend_join(views(old_tokens), e, rest);
                }
                i = i + n;
            },
        }
    }
    let col = (i - ls + 1) as u64;
    let ghost before = tokens@;
    tokens.push(Token::new(TokenKind::EOF, String::new(), file.to_owned(), line as u64, col));
    proof {
        let eof = token_at(TokenKind::EOF, seq![], file@, i as int, line as nat, ls as int);
        assert(tokens@.last()@ == eof);
        assert(lex_from(s@, file@, i as int, line as nat, ls as int) == Ok::<Seq<TokenView>, LexError>(seq![eof]));
        assert(views(tokens@) =~= views(before) + seq![eof]);
    }
    Ok(tokens)
}

} // verus!
