use swift_front::cache::{content_hash, CacheError, TokenizeError, Tokenizer};
use swift_front::codec::{decode_tokens, encode_tokens};
use swift_front::lexer::tokenize;
use swift_front::token::Token;

fn same_tokens(a: &[Token], b: &[Token]) -> bool {
    a.len() == b.len()
        && a.iter().zip(b.iter()).all(|(x, y)| {
            x.kind == y.kind && x.value == y.value && x.file == y.file && x.line == y.line && x.col == y.col
        })
}

#[test]
fn content_hash_is_base64_of_sha256() {
    assert_eq!(content_hash(b"abc"), "ungWv48Bz+pBQUDeXa4iI7ADYaOWF3qctBD/YfIAFa0=");
    assert_eq!(content_hash(b""), "47DEQpj8HBSa+/TImW+5JCeuQeRkm5NMpJWZG3hSuFU=");
}

#[test]
fn cached_tokenize_twice_does_not_lex_again() {
    let mut t = Tokenizer::new_cached("").unwrap();
    let first = t.tokenize("a.swift", b"var x = 1").unwrap();
    assert_eq!(t.lexer_runs(), 1);
    let second = t.tokenize("a.swift", b"var x = 1").unwrap();
    assert_eq!(t.lexer_runs(), 1);
    assert!(same_tokens(&first, &second));
    assert_eq!(first.len(), 5);
}

#[test]
fn changed_file_is_lexed_again() {
    let mut t = Tokenizer::new_cached("").unwrap();
    let first = t.tokenize("a.swift", b"var x = 1").unwrap();
    let second = t.tokenize("a.swift", b"let y").unwrap();
    assert_eq!(t.lexer_runs(), 2);
    assert!(!same_tokens(&first, &second));
    assert!(same_tokens(&second, &tokenize("let y", "a.swift").unwrap()));
    let third = t.tokenize("a.swift", b"let y").unwrap();
    assert_eq!(t.lexer_runs(), 2);
    assert!(same_tokens(&second, &third));
}

#[test]
fn uncached_tokenizer_lexes_every_time() {
    let mut t = Tokenizer::new_non_cached();
    t.tokenize("a.swift", b"x").unwrap();
    t.tokenize("a.swift", b"x").unwrap();
    assert_eq!(t.lexer_runs(), 2);
    assert_eq!(t.render().unwrap(), "");
}

#[test]
fn tokenize_errors() {
    let mut t = Tokenizer::new_cached("").unwrap();
    assert_eq!(t.tokenize("a.swift", &[0xff, 0xfe]).unwrap_err(), TokenizeError::NotUtf8);
    assert_eq!(t.lexer_runs(), 0);
    assert!(matches!(t.tokenize("a.swift", b"$"), Err(TokenizeError::Lex(_))));
    assert_eq!(t.lexer_runs(), 1);
}

#[test]
fn rendered_cache_serves_tokens_after_reload() {
    let mut t = Tokenizer::new_cached("").unwrap();
    let source = "let s = \"h\u{e9}llo\" // note\nvar n: Int";
    let first = t.tokenize("dir/b.swift", source.as_bytes()).unwrap();
    let text = t.render().unwrap();
    let hash = content_hash(source.as_bytes());
    assert!(text.starts_with(&format!("dir/b.swift,{},", hash)));
    assert!(text.ends_with('\n'));
    assert_eq!(text.lines().count(), 1);

    let mut reloaded = Tokenizer::new_cached(&text).unwrap();
    let second = reloaded.tokenize("dir/b.swift", source.as_bytes()).unwrap();
    assert_eq!(reloaded.lexer_runs(), 0);
    assert!(same_tokens(&first, &second));
    assert_eq!(reloaded.render().unwrap(), text);
}

#[test]
fn later_cache_line_replaces_earlier() {
    let hash = content_hash(b"x");
    let text = format!("a.swift,{h},AAAA\r\na.swift,{h},!!!!\nb.swift,zz,\n", h = hash);
    let mut t = Tokenizer::new_cached(&text).unwrap();
    assert_eq!(t.tokenize("a.swift", b"x").unwrap_err(), TokenizeError::CorruptEntry);
    assert_eq!(t.render().unwrap(), format!("a.swift,{h},!!!!\nb.swift,zz,\n", h = hash));
}

#[test]
fn corrupt_payload_is_an_error() {
    let hash = content_hash(b"x");
    let mut t = Tokenizer::new_cached(&format!("a.swift,{},AAAA\n", hash)).unwrap();
    assert_eq!(t.tokenize("a.swift", b"x").unwrap_err(), TokenizeError::CorruptEntry);
    assert_eq!(t.lexer_runs(), 0);
}

#[test]
fn malformed_cache_lines() {
    assert_eq!(
        Tokenizer::new_cached("a,b,c\nno commas\n").err(),
        Some(CacheError::MalformedLine { line: 2 })
    );
    assert_eq!(Tokenizer::new_cached("a,b,c\n\n").err(), Some(CacheError::MalformedLine { line: 2 }));
    assert!(Tokenizer::new_cached("").is_ok());
    assert!(Tokenizer::new_cached("a,b\n").is_err());
}

#[test]
fn extra_fields_are_ignored() {
    let mut t = Tokenizer::new_cached("a.swift,h,p,extra\n").unwrap();
    assert_eq!(t.render().unwrap(), "a.swift,h,p\n");
    assert_eq!(t.lexer_runs(), 0);
    t.tokenize("a.swift", b"z").unwrap();
    assert_eq!(t.lexer_runs(), 1);
}

#[test]
fn token_bytes_round_trip() {
    let tokens = tokenize("var a = \"\u{1f600}\"\n  x", "f.swift").unwrap();
    let bytes = encode_tokens(&tokens);
    let back = decode_tokens(&bytes).unwrap();
    assert!(same_tokens(&tokens, &back));
    assert!(decode_tokens(&bytes[..bytes.len() - 1].to_vec()).is_none());
    assert!(decode_tokens(&Vec::new()).unwrap().is_empty());
}
