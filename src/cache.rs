use vstd::prelude::*;
use vstd::utf8::{decode_utf8, valid_utf8};

use base64::Engine;
use sha2::Digest;

use crate::codec::{decode_tokens, encode_tokens, frame, unframe, utf8_string};
use crate::lexer::{lex, line_end, line_end_from, tokenize, LexError};
use crate::text::{chars_of, slice_string, str_eq};
use crate::token::{views, Token, TokenView};

verus! {

/// The SHA-256 digest of some bytes.
pub uninterp spec fn sha256_of(data: Seq<u8>) -> Seq<u8>;

/// The padded standard-alphabet base64 text of some bytes.
pub uninterp spec fn base64_text(data: Seq<u8>) -> Seq<char>;

/// The bytes that a text decodes to as padded standard-alphabet base64, if it is such text.
pub uninterp spec fn base64_bytes(text: Seq<char>) -> Option<Seq<u8>>;

/// Relies on `sha2::Sha256::digest`: the SHA-256 digest of the bytes, 32 bytes long.
#[verifier::external_body]
fn sha256(data: &[u8]) -> (r: Vec<u8>)
    ensures
        r@ == sha256_of(data@),
        r@.len() == 32,
{
    sha2::Sha256::digest(data).to_vec()
}

/// A character of the standard base64 alphabet, or the padding `=`.
pub open spec fn is_base64_char(c: char) -> bool {
    ('A' <= c <= 'Z') || ('a' <= c <= 'z') || ('0' <= c <= '9') || c == '+' || c == '/' || c == '='
}

/// Relies on `base64`'s `STANDARD` engine `encode`, which panics only when the length of
/// the text would overflow `usize`: the text uses the standard alphabet with `=` padding,
/// and the engine's `decode` gives the bytes back.
#[verifier::external_body]
fn base64_encode(data: &[u8]) -> (r: String)
    requires
        data@.len() <= usize::MAX / 2,
    ensures
        r@ == base64_text(data@),
        base64_bytes(r@) == Some(data@),
        forall|i: int| 0 <= i < r@.len() ==> is_base64_char(#[trigger] r@[i]),
{
    base64::engine::general_purpose::STANDARD.encode(data)
}

/// Relies on `base64`'s `STANDARD` engine `decode`.
#[verifier::external_body]
fn base64_decode(text: &str) -> (r: Option<Vec<u8>>)
    ensures
        match r {
            Some(b) => base64_bytes(text@) == Some(b@),
            None => base64_bytes(text@) is None,
        },
{
    base64::engine::general_purpose::STANDARD.decode(text).ok()
}

/// The content hash under which a file's tokens are cached.
pub fn content_hash(content: &[u8]) -> (r: String)
    ensures
        r@ == base64_text(sha256_of(content@)),
{
    let digest = sha256(content);
    base64_encode(digest.as_slice())
}

/// Why tokenizing through the cache failed.
#[derive(Debug, Clone, Copy, PartialEq, Eq, Structural)]
pub enum TokenizeError {
    /// The file's bytes are not UTF-8.
    NotUtf8,
    /// The file has too many characters to count positions in.
    TooLarge,
    Lex(LexError),
    /// A cached entry does not decode to tokens.
    CorruptEntry,
}

/// Why a cache file could not be read; `line` counts from 1.
#[derive(Debug, Clone, Copy, PartialEq, Eq, Structural)]
pub enum CacheError {
    MalformedLine { line: usize },
}

/// Tokens of a cache entry: as read from the cache file, or as lexed in this session.
pub enum CachedTokens {
    Encoded(String),
    Decoded(Vec<Token>),
}

pub struct CacheEntry {
    pub file_name: String,
    pub content_hash: String,
    pub tokens: CachedTokens,
}

pub enum Stored {
    Encoded(Seq<char>),
    Decoded(Seq<TokenView>),
}

pub struct EntryView {
    pub name: Seq<char>,
    pub hash: Seq<char>,
    pub tokens: Stored,
}

pub open spec fn entry_view(e: CacheEntry) -> EntryView {
    EntryView {
        name: e.file_name@,
        hash: e.content_hash@,
        tokens: match e.tokens {
            CachedTokens::Encoded(s) => Stored::Encoded(s@),
            CachedTokens::Decoded(ts) => Stored::Decoded(views(ts@)),
        },
    }
}

pub open spec fn entry_views(es: Seq<CacheEntry>) -> Seq<EntryView> {
    es.map_values(|e: CacheEntry| entry_view(e))
}

/// Index of the first entry for `name` at or after `i`, or the number of entries.
pub open spec fn entry_index(es: Seq<EntryView>, name: Seq<char>, i: int) -> int
    decreases es.len() - i,
{
    if i < 0 || i >= es.len() {
        es.len() as int
    } else if es[i].name == name {
        i
    } else {
        entry_index(es, name, i + 1)
    }
}

/// The entries with `e` in place of the entry for its file, or added at the end.
pub open spec fn upsert(es: Seq<EntryView>, e: EntryView) -> Seq<EntryView> {
    let k = entry_index(es, e.name, 0);
    if k < es.len() {
        es.update(k, e)
    } else {
        es.push(e)
    }
}

/// The state of a tokenizer: whether it caches, its entries, and how often it lexed.
pub struct TokenizerView {
    pub use_cache: bool,
    pub entries: Seq<EntryView>,
    pub lexer_runs: u64,
}

pub open spec fn bump(n: u64) -> u64 {
    if n < u64::MAX {
        (n + 1) as u64
    } else {
        n
    }
}

/// Whether tokenizing these bytes from scratch runs the lexer.
pub open spec fn lexes(content: Seq<u8>) -> bool {
    valid_utf8(content) && decode_utf8(content).len() < usize::MAX
}

/// The tokens of a file's bytes, lexed from scratch.
pub open spec fn fresh_tokens(name: Seq<char>, content: Seq<u8>) -> Result<
    Seq<TokenView>,
    TokenizeError,
> {
    if !valid_utf8(content) {
        Err(TokenizeError::NotUtf8)
    } else if decode_utf8(content).len() >= usize::MAX {
        Err(TokenizeError::TooLarge)
    } else {
        match lex(decode_utf8(content), name) {
            Ok(ts) => Ok(ts),
            Err(e) => Err(TokenizeError::Lex(e)),
        }
    }
}

/// The tokens held by an entry.
pub open spec fn stored_tokens(s: Stored) -> Result<Seq<TokenView>, TokenizeError> {
    match s {
        Stored::Decoded(ts) => Ok(ts),
        Stored::Encoded(text) => match base64_bytes(text) {
            None => Err(TokenizeError::CorruptEntry),
            Some(b) => match unframe(b) {
                Some(ts) => Ok(ts),
                None => Err(TokenizeError::CorruptEntry),
            },
        },
    }
}

/// One tokenization of file `name` with bytes `content` whose hash is `hash`: an entry for
/// the file with that hash serves its tokens; otherwise the file is lexed and, on success,
/// its entry is replaced.
pub open spec fn hashed_step(
    t: TokenizerView,
    name: Seq<char>,
    content: Seq<u8>,
    hash: Seq<char>,
) -> (TokenizerView, Result<Seq<TokenView>, TokenizeError>) {
    let k = entry_index(t.entries, name, 0);
    if k < t.entries.len() && t.entries[k].hash == hash {
        (t, stored_tokens(t.entries[k].tokens))
    } else {
        let runs = if lexes(content) {
            bump(t.lexer_runs)
        } else {
            t.lexer_runs
        };
        match fresh_tokens(name, content) {
            Ok(ts) => (
                TokenizerView {
                    entries: upsert(t.entries, EntryView { name, hash, tokens: Stored::Decoded(ts) }),
                    lexer_runs: runs,
                    ..t
                },
                Ok(ts),
            ),
            Err(e) => (TokenizerView { lexer_runs: runs, ..t }, Err(e)),
        }
    }
}

/// One tokenization of file `name` with bytes `content`.
pub open spec fn tokenize_step(t: TokenizerView, name: Seq<char>, content: Seq<u8>) -> (
    TokenizerView,
    Result<Seq<TokenView>, TokenizeError>,
) {
    if t.use_cache {
        hashed_step(t, name, content, base64_text(sha256_of(content)))
    } else {
        let runs = if lexes(content) {
            bump(t.lexer_runs)
        } else {
            t.lexer_runs
        };
        (TokenizerView { lexer_runs: runs, ..t }, fresh_tokens(name, content))
    }
}

/// The text that an entry's tokens are written as, if it can be produced.
pub open spec fn payload(s: Stored) -> Option<Seq<char>> {
    match s {
        Stored::Encoded(text) => Some(text),
        Stored::Decoded(ts) => if frame(ts).len() <= usize::MAX / 2 {
            Some(base64_text(frame(ts)))
        } else {
            None
        },
    }
}

/// The line that holds entry `e` with its tokens written as `p`.
pub open spec fn line_of(e: EntryView, p: Seq<char>) -> Seq<char> {
    e.name + seq![','] + e.hash + seq![','] + p + seq!['\n']
}

/// The cache file for `es`: one line `<file>,<hash>,<tokens>` per entry, in order.
pub open spec fn rendered(es: Seq<EntryView>) -> Option<Seq<char>>
    decreases es.len(),
{
    if es.len() == 0 {
        Some(seq![])
    } else {
        match (rendered(es.drop_last()), payload(es.last().tokens)) {
            (Some(front), Some(p)) => Some(front + line_of(es.last(), p)),
            _ => None,
        }
    }
}

/// Index of the first `c` at or after `i`, or the length of `t`.
pub open spec fn char_index(t: Seq<char>, c: char, i: int) -> int
    decreases t.len() - i,
{
    if i < 0 || i >= t.len() {
        t.len() as int
    } else if t[i] == c {
        i
    } else {
        char_index(t, c, i + 1)
    }
}

/// A line without the `\r` of a `\r\n` ending.
pub open spec fn strip_cr(l: Seq<char>) -> Seq<char> {
    if l.len() > 0 && l.last() == '\r' {
        l.drop_last()
    } else {
        l
    }
}

/// The entry a cache line holds: its first three comma-separated fields.
pub open spec fn record_of(line: Seq<char>) -> Option<EntryView> {
    let c1 = char_index(line, ',', 0);
    let c2 = char_index(line, ',', c1 + 1);
    let c3 = char_index(line, ',', c2 + 1);
    if c1 >= line.len() || c2 >= line.len() {
        None
    } else {
        Some(
            EntryView {
                name: line.subrange(0, c1),
                hash: line.subrange(c1 + 1, c2),
                tokens: Stored::Encoded(line.subrange(c2 + 1, c3)),
            },
        )
    }
}

/// The entries of a cache file's lines from index `i` on, `n` lines having come before,
/// added to `es`; a later line for a file replaces an earlier one.
pub open spec fn read_lines(s: Seq<char>, i: int, n: nat, es: Seq<EntryView>) -> Result<
    Seq<EntryView>,
    CacheError,
>
    decreases s.len() - i,
{
    if i < 0 || i >= s.len() {
        Ok(es)
    } else {
        let e = line_end(s, i);
        match record_of(strip_cr(s.subrange(i, e))) {
            None => Err(CacheError::MalformedLine { line: (n + 1) as usize }),
            Some(r) => if e < i {
                Ok(es)
            } else {
                read_lines(
                    s,
                    if e < s.len() {
                        e + 1
                    } else {
                        s.len() as int
                    },
                    n + 1,
                    upsert(es, r),
                )
            },
        }
    }
}

pub open spec fn cache_file_entries(s: Seq<char>) -> Result<Seq<EntryView>, CacheError> {
    read_lines(s, 0, 0, seq![])
}

pub open spec fn tokens_result(r: Result<Vec<Token>, TokenizeError>) -> Result<
    Seq<TokenView>,
    TokenizeError,
> {
    match r {
        Ok(ts) => Ok(views(ts@)),
        Err(e) => Err(e),
    }
}

/// Tokenizes files, keeping their tokens under the hash of their content when caching.
pub struct Tokenizer {
    use_cache: bool,
    entries: Vec<CacheEntry>,
    lexer_runs: u64,
}

impl View for Tokenizer {
    type V = TokenizerView;

    closed spec fn view(&self) -> TokenizerView {
        TokenizerView {
            use_cache: self.use_cache,
            entries: entry_views(self.entries@),
            lexer_runs: self.lexer_runs,
        }
    }
}

fn clone_tokens(ts: &Vec<Token>) -> (r: Vec<Token>)
    ensures
        views(r@) == views(ts@),
{
    let mut out: Vec<Token> = Vec::new();
    let mut i: usize = 0;
    while i < ts.len()
        invariant
            i <= ts@.len(),
            views(out@) == views(ts@.subrange(0, i as int)),
        decreases ts@.len() - i,
    {
        let ghost before = out@;
        out.push(ts[i].duplicate());
        proof {
            assert(views(out@) =~= views(before).push(ts@[i as int]@));
            assert(views(ts@.subrange(0, i + 1)) =~= views(ts@.subrange(0, i as int)).push(
                ts@[i as int]@,
            ));
        }
        i += 1;
    }
    assert(ts@.subrange(0, i as int) =~= ts@);
    out
}

fn find_entry(es: &Vec<CacheEntry>, name: &str) -> (r: usize)
    ensures
        r as int == entry_index(entry_views(es@), name@, 0),
{
    let ghost vs = entry_views(es@);
    let mut i: usize = 0;
    while i < es.len()
        invariant
            vs == entry_views(es@),
            i <= es@.len(),
            entry_index(vs, name@, 0) == entry_index(vs, name@, i as int),
        decreases es@.len() - i,
    {
        if str_eq(es[i].file_name.as_str(), name) {
            return i;
        }
        i += 1;
    }
    i
}

fn put_entry(es: &mut Vec<CacheEntry>, e: CacheEntry)
    ensures
        entry_views(final(es)@) == upsert(entry_views(old(es)@), entry_view(e)),
{
    let k = find_entry(es, e.file_name.as_str());
    let ghost ev = entry_view(e);
    if k < es.len() {
        es.set(k, e);
        assert(entry_views(final(es)@) =~= entry_views(old(es)@).update(k as int, ev));
    } else {
        es.push(e);
        assert(entry_views(final(es)@) =~= entry_views(old(es)@).push(ev));
    }
}

fn lex_bytes(name: &str, content: &[u8]) -> (r: Result<Vec<Token>, TokenizeError>)
    ensures
        tokens_result(r) == fresh_tokens(name@, content@),
{
    let text = match utf8_string(vstd::slice::slice_to_vec(content)) {
        None => return Err(TokenizeError::NotUtf8),
        Some(s) => s,
    };
    if text.as_str().unicode_len() == usize::MAX {
        return Err(TokenizeError::TooLarge);
    }
    match tokenize(text.as_str(), name) {
        Ok(ts) => Ok(ts),
        Err(e) => Err(TokenizeError::Lex(e)),
    }
}

/// The tokens that an entry's text encodes.
fn decode_payload(text: &str) -> (r: Result<Vec<Token>, TokenizeError>)
    ensures
        tokens_result(r) == stored_tokens(Stored::Encoded(text@)),
{
    match base64_decode(text) {
        None => Err(TokenizeError::CorruptEntry),
        Some(bytes) => match decode_tokens(&bytes) {
            Some(ts) => Ok(ts),
            None => Err(TokenizeError::CorruptEntry),
        },
    }
}

impl Tokenizer {
    /// A tokenizer that lexes every file and keeps nothing.
    pub fn new_non_cached() -> (r: Tokenizer)
        ensures
            r@ == (TokenizerView { use_cache: false, entries: seq![], lexer_runs: 0 }),
    {
        let t = Tokenizer { use_cache: false, entries: Vec::new(), lexer_runs: 0 };
        assert(t@.entries =~= Seq::<EntryView>::empty());
        t
    }

    pub fn lexer_runs(&self) -> (r: u64)
        ensures
            r == self@.lexer_runs,
    {
        self.lexer_runs
    }

    /// Tokenizes file `file_name` whose bytes are `content` and hash to `hash`.
    pub fn tokenize_hashed(&mut self, file_name: &str, content: &[u8], hash: &str) -> (r: Result<
        Vec<Token>,
        TokenizeError,
    >)
        ensures
            (final(self)@, tokens_result(r)) == hashed_step(
                old(self)@,
                file_name@,
                content@,
                hash@,
            ),
    {
        let k = find_entry(&self.entries, file_name);
        if k < self.entries.len() && str_eq(self.entries[k].content_hash.as_str(), hash) {
            return match &self.entries[k].tokens {
                CachedTokens::Decoded(ts) => Ok(clone_tokens(ts)),
                CachedTokens::Encoded(text) => decode_payload(text.as_str()),
            };
        }
        let r = lex_bytes(file_name, content);
        if let Err(TokenizeError::Lex(_)) = r {
            self.lexer_runs = self.lexer_runs.saturating_add(1);
        }
        match r {
            Err(e) => Err(e),
            Ok(ts) => {
                self.lexer_runs = self.lexer_runs.saturating_add(1);
                let kept = clone_tokens(&ts);
                put_entry(
                    &mut self.entries,
                    CacheEntry {
                        file_name: file_name.to_owned(),
                        content_hash: hash.to_owned(),
                        tokens: CachedTokens::Decoded(kept),
                    },
                );
                Ok(ts)
            },
        }
    }

    /// Tokenizes file `file_name` whose bytes are `content`, through the cache when caching.
    pub fn tokenize(&mut self, file_name: &str, content: &[u8]) -> (r: Result<
        Vec<Token>,
        TokenizeError,
    >)
        ensures
            (final(self)@, tokens_result(r)) == tokenize_step(old(self)@, file_name@, content@),
    {
        if self.use_cache {
            let hash = content_hash(content);
            self.tokenize_hashed(file_name, content, hash.as_str())
        } else {
            let r = lex_bytes(file_name, content);
            match r {
                Err(TokenizeError::NotUtf8) | Err(TokenizeError::TooLarge) => {},
                _ => {
                    self.lexer_runs = self.lexer_runs.saturating_add(1);
                },
            }
            r
        }
    }
}

fn char_index_from(t: &Vec<char>, c: char, from: usize) -> (r: usize)
    requires
        from <= t@.len(),
    ensures
        r as int == char_index(t@, c, from as int),
        from <= r <= t@.len(),
{
    let mut j = from;
    while j < t.len() && t[j] != c
        invariant
            from <= j <= t@.len(),
            char_index(t@, c, from as int) == char_index(t@, c, j as int),
        decreases t@.len() - j,
    {
        j += 1;
    }
    j
}

fn char_slice(s: &Vec<char>, lo: usize, hi: usize) -> (r: Vec<char>)
    requires
        lo <= hi <= s@.len(),
    ensures
        r@ == s@.subrange(lo as int, hi as int),
{
    let mut out: Vec<char> = Vec::new();
    let mut i = lo;
    while i < hi
        invariant
            lo <= i <= hi <= s@.len(),
            out@ == s@.subrange(lo as int, i as int),
        decreases hi - i,
    {
        out.push(s[i]);
        assert(s@.subrange(lo as int, i + 1) =~= s@.subrange(lo as int, i as int).push(s@[i as int]));
        i += 1;
    }
    out
}

fn parse_record(line: &Vec<char>) -> (r: Option<CacheEntry>)
    ensures
        match r {
            Some(e) => record_of(line@) == Some(entry_view(e)),
            None => record_of(line@) is None,
        },
{
    let n = line.len();
    let c1 = char_index_from(line, ',', 0);
    if c1 >= n {
        return None;
    }
    let c2 = char_index_from(line, ',', c1 + 1);
    if c2 >= n {
        return None;
    }
    let c3 = char_index_from(line, ',', c2 + 1);
    Some(
        CacheEntry {
            file_name: slice_string(line, 0, c1),
            content_hash: slice_string(line, c1 + 1, c2),
            tokens: CachedTokens::Encoded(slice_string(line, c2 + 1, c3)),
        },
    )
}

/// The entries of a cache file's text.
pub fn read_cache_file(content: &str) -> (r: Result<Vec<CacheEntry>, CacheError>)
    ensures
        match r {
            Ok(es) => cache_file_entries(content@) == Ok::<Seq<EntryView>, CacheError>(
                entry_views(es@),
            ),
            Err(e) => cache_file_entries(content@) == Err::<Seq<EntryView>, CacheError>(e),
        },
{
    let s = chars_of(content);
    let len = s.len();
    let mut entries: Vec<CacheEntry> = Vec::new();
    let mut i: usize = 0;
    let mut n: usize = 0;
    assert(entry_views(entries@) =~= Seq::<EntryView>::empty());
    while i < len
        invariant
            len == s@.len(),
            s@ == content@,
            i <= len,
            n <= i,
            cache_file_entries(content@) == read_lines(s@, i as int, n as nat, entry_views(entries@)),
        decreases len - i,
    {
        let e = line_end_from(&s, i);
        let hi = if e > i && s[e - 1] == '\r' {
            e - 1
        } else {
            e
        };
        let line = char_slice(&s, i, hi);
        assert(line@ =~= strip_cr(s@.subrange(i as int, e as int)));
        match parse_record(&line) {
            None => return Err(CacheError::MalformedLine { line: n + 1 }),
            Some(r) => {
                put_entry(&mut entries, r);
                i = if e < len {
                    e + 1
                } else {
                    len
                };
                n = n + 1;
            },
        }
    }
    Ok(entries)
}

impl Tokenizer {
    /// A caching tokenizer holding the entries of a cache file's text.
    pub fn new_cached(cache_text: &str) -> (r: Result<Tokenizer, CacheError>)
        ensures
            match r {
                Ok(t) => cache_file_entries(cache_text@) == Ok::<Seq<EntryView>, CacheError>(
                    t@.entries,
                ) && t@.use_cache && t@.lexer_runs == 0,
                Err(e) => cache_file_entries(cache_text@) == Err::<Seq<EntryView>, CacheError>(e),
            },
    {
        match read_cache_file(cache_text) {
            Err(e) => Err(e),
            Ok(entries) => Ok(Tokenizer { use_cache: true, entries, lexer_runs: 0 }),
        }
    }

    /// The cache file's new text: one line per entry, or `None` when an entry's tokens are
    /// too large to encode. Read back, each entry serves the tokens it serves now.
    pub fn render(&self) -> (r: Option<String>)
        ensures
            match r {
                Some(s) => rendered(self@.entries) == Some(s@),
                None => rendered(self@.entries) is None,
            },
            r is Some && fields_reloadable(self@.entries) ==> cache_file_entries(r->0@) == Ok::<
                Seq<EntryView>,
                CacheError,
            >(reread_all(self@.entries)),
            r is Some ==> forall|i: int|
                0 <= i < self@.entries.len() ==> stored_tokens(
                    (#[trigger] reread_all(self@.entries)[i]).tokens,
                ) == stored_tokens(self@.entries[i].tokens),
    {
        let ghost es = self@.entries;
        let mut out = String::new();
        let mut i: usize = 0;
        assert(es.subrange(0, 0) =~= Seq::<EntryView>::empty());
        while i < self.entries.len()
            invariant
                es == self@.entries,
                es == entry_views(self.entries@),
                i <= self.entries@.len(),
                rendered(es.subrange(0, i as int)) == Some(out@),
                forall|j: int| 0 <= j < i ==> written_back(#[trigger] es[j]),
            decreases self.entries@.len() - i,
        {
            let e = &self.entries[i];
            let text = match &e.tokens {
                CachedTokens::Encoded(t) => t.clone(),
                CachedTokens::Decoded(ts) => {
                    let bytes = encode_tokens(ts);
                    if bytes.len() > usize::MAX / 2 {
                        proof {
                            assert(es.subrange(0, i + 1).drop_last() =~= es.subrange(0, i as int));
                            lemma_rendered_none(es, i as int + 1);
                        }
                        return None;
                    }
                    let text = base64_encode(bytes.as_slice());
                    proof {
                        assert forall|k: int| 0 <= k < text@.len() implies #[trigger] text@[k] != ','
                            && text@[k] != '\n' && text@[k] != '\r' by {
                            assert(is_base64_char(text@[k]));
                        }
                    }
                    text
                },
            };
            assert(written_back(es[i as int]));
            let ghost before = out@;
            out.append(e.file_name.as_str());
            out.push(',');
            out.append(e.content_hash.as_str());
            out.push(',');
            out.append(text.as_str());
            out.push('\n');
            proof {
                let next = es.subrange(0, i + 1);
                assert(next.drop_last() =~= es.subrange(0, i as int));
                assert(next.last() == es[i as int]);
                assert(out@ =~= before + line_of(es[i as int], text@));
            }
            i += 1;
        }
        assert(es.subrange(0, i as int) =~= es);
        proof {
            assert forall|i: int| 0 <= i < es.len() implies stored_tokens(
                (#[trigger] reread_all(es)[i]).tokens,
            ) == stored_tokens(es[i].tokens) by {
                lemma_written_back_serves(es[i]);
            }
            if fields_reloadable(es) {
                assert(reloadable(es)) by {
                    assert forall|i: int| 0 <= i < es.len() implies {
                        &&& plain_field((#[trigger] es[i]).name)
                        &&& plain_field(es[i].hash)
                        &&& payload(es[i].tokens) is Some
                        &&& plain_field(payload(es[i].tokens)->0)
                    } by {
                        assert(written_back(es[i]));
                    }
                }
                lemma_cache_file_reads_back(es);
            }
        }
        Some(out)
    }
}

/// Once a prefix of the entries cannot be written, no longer prefix can.
proof fn lemma_rendered_none(es: Seq<EntryView>, j: int)
    requires
        0 < j <= es.len(),
        payload(es[j - 1].tokens) is None,
    ensures
        rendered(es.subrange(0, j)) is None,
        forall|m: int| j <= m <= es.len() ==> rendered(#[trigger] es.subrange(0, m)) is None,
    decreases es.len() - j,
{
    assert(es.subrange(0, j).drop_last() =~= es.subrange(0, j - 1));
    assert(es.subrange(0, j).last() == es[j - 1]);
    assert forall|m: int| j <= m <= es.len() implies rendered(#[trigger] es.subrange(0, m)) is None by {
        lemma_rendered_prefix_none(es, j, m);
    }
}

proof fn lemma_rendered_prefix_none(es: Seq<EntryView>, j: int, m: int)
    requires
        0 < j <= m <= es.len(),
        rendered(es.subrange(0, j)) is None,
    ensures
        rendered(es.subrange(0, m)) is None,
    decreases m - j,
{
    if m > j {
        lemma_rendered_prefix_none(es, j, m - 1);
        assert(es.subrange(0, m).drop_last() =~= es.subrange(0, m - 1));
    }
}

proof fn lemma_entry_index_bounds(es: Seq<EntryView>, name: Seq<char>, i: int)
    requires
        0 <= i <= es.len(),
    ensures
        i <= entry_index(es, name, i) <= es.len(),
        entry_index(es, name, i) < es.len() ==> es[entry_index(es, name, i)].name == name,
        forall|j: int| i <= j < entry_index(es, name, i) ==> (#[trigger] es[j]).name != name,
    decreases es.len() - i,
{
    if i < es.len() && es[i].name != name {
        lemma_entry_index_bounds(es, name, i + 1);
    }
}

proof fn lemma_entry_index_is(es: Seq<EntryView>, name: Seq<char>, i: int, r: int)
    requires
        0 <= i <= r <= es.len(),
        forall|j: int| i <= j < r ==> (#[trigger] es[j]).name != name,
        r == es.len() || es[r].name == name,
    ensures
        entry_index(es, name, i) == r,
    decreases r - i,
{
    if i < r {
        lemma_entry_index_is(es, name, i + 1, r);
    }
}

/// After an upsert, the entry for that file is the one put in.
proof fn lemma_upsert_finds(es: Seq<EntryView>, e: EntryView)
    ensures
        entry_index(upsert(es, e), e.name, 0) < upsert(es, e).len(),
        upsert(es, e)[entry_index(upsert(es, e), e.name, 0)] == e,
{
    let k = entry_index(es, e.name, 0);
    lemma_entry_index_bounds(es, e.name, 0);
    let u = upsert(es, e);
    if k < es.len() {
        assert forall|j: int| 0 <= j < k implies (#[trigger] u[j]).name != e.name by {
            assert(u[j] == es[j]);
        }
        lemma_entry_index_is(u, e.name, 0, k);
    } else {
        assert forall|j: int| 0 <= j < es.len() implies (#[trigger] u[j]).name != e.name by {
            assert(u[j] == es[j]);
        }
        lemma_entry_index_is(u, e.name, 0, es.len() as int);
    }
}

/// Tokenizing an unchanged file twice through the same cache gives the same result both
/// times; when the first succeeded, the second does not run the lexer.
pub proof fn lemma_cache_repeat(t: TokenizerView, name: Seq<char>, content: Seq<u8>)
    requires
        t.use_cache,
    ensures
        tokenize_step(tokenize_step(t, name, content).0, name, content).1 == tokenize_step(
            t,
            name,
            content,
        ).1,
        tokenize_step(t, name, content).1 is Ok ==> tokenize_step(
            tokenize_step(t, name, content).0,
            name,
            content,
        ).0.lexer_runs == tokenize_step(t, name, content).0.lexer_runs,
{
    let h = base64_text(sha256_of(content));
    let k = entry_index(t.entries, name, 0);
    if k < t.entries.len() && t.entries[k].hash == h {
    } else {
        match fresh_tokens(name, content) {
            Ok(ts) => {
                lemma_upsert_finds(t.entries, EntryView { name, hash: h, tokens: Stored::Decoded(ts) });
            },
            Err(_) => {},
        }
    }
}

/// After a file's bytes change to bytes with another content hash, tokenizing it again
/// through the same cache gives the tokens of the new bytes.
pub proof fn lemma_cache_sees_change(t: TokenizerView, name: Seq<char>, old_content: Seq<u8>, new_content: Seq<u8>)
    requires
        t.use_cache,
        tokenize_step(t, name, old_content).1 is Ok,
        base64_text(sha256_of(new_content)) != base64_text(sha256_of(old_content)),
    ensures
        tokenize_step(tokenize_step(t, name, old_content).0, name, new_content).1 == fresh_tokens(
            name,
            new_content,
        ),
{
    let h = base64_text(sha256_of(old_content));
    let k = entry_index(t.entries, name, 0);
    if k < t.entries.len() && t.entries[k].hash == h {
    } else {
        match fresh_tokens(name, old_content) {
            Ok(ts) => {
                lemma_upsert_finds(t.entries, EntryView { name, hash: h, tokens: Stored::Decoded(ts) });
            },
            Err(_) => {},
        }
    }
}

/// Text that fits in one field of a cache line: no comma and no line break.
pub open spec fn plain_field(s: Seq<char>) -> bool {
    forall|i: int| 0 <= i < s.len() ==> #[trigger] s[i] != ',' && s[i] != '\n' && s[i] != '\r'
}

/// The entry as it reads back from its line, its tokens written as `p`.
pub open spec fn reread(e: EntryView, p: Seq<char>) -> EntryView {
    EntryView { name: e.name, hash: e.hash, tokens: Stored::Encoded(p) }
}

/// The entries as they read back from their cache file.
pub open spec fn reread_all(es: Seq<EntryView>) -> Seq<EntryView> {
    es.map_values(|e: EntryView| reread(e, payload(e.tokens)->0))
}

/// Entries that their cache file holds one per line, each readable back: distinct file
/// names, and names, hashes and written tokens that are plain fields.
pub open spec fn reloadable(es: Seq<EntryView>) -> bool {
    &&& forall|i: int, j: int| 0 <= i < j < es.len() ==> (#[trigger] es[i]).name != (#[trigger] es[j]).name
    &&& forall|i: int|
        0 <= i < es.len() ==> {
            &&& plain_field((#[trigger] es[i]).name)
            &&& plain_field(es[i].hash)
            &&& payload(es[i].tokens) is Some
            &&& plain_field(payload(es[i].tokens)->0)
        }
}

proof fn lemma_char_index_is(t: Seq<char>, c: char, i: int, r: int)
    requires
        0 <= i <= r <= t.len(),
        forall|j: int| i <= j < r ==> #[trigger] t[j] != c,
        r == t.len() || t[r] == c,
    ensures
        char_index(t, c, i) == r,
    decreases r - i,
{
    if i < r {
        lemma_char_index_is(t, c, i + 1, r);
    }
}

proof fn lemma_line_end_is(t: Seq<char>, i: int, r: int)
    requires
        0 <= i <= r <= t.len(),
        forall|j: int| i <= j < r ==> #[trigger] t[j] != '\n',
        r == t.len() || t[r] == '\n',
    ensures
        line_end(t, i) == r,
    decreases r - i,
{
    if i < r {
        lemma_line_end_is(t, i + 1, r);
    }
}

proof fn lemma_line_end_shift(pre: Seq<char>, s: Seq<char>, i: int)
    requires
        0 <= i <= s.len(),
    ensures
        line_end(pre + s, pre.len() + i) == pre.len() + line_end(s, i),
    decreases s.len() - i,
{
    if i < s.len() {
        assert((pre + s)[pre.len() + i] == s[i]);
        lemma_line_end_shift(pre, s, i + 1);
    }
}

proof fn lemma_read_shift(pre: Seq<char>, s: Seq<char>, i: int, n: nat, acc: Seq<EntryView>)
    requires
        0 <= i <= s.len(),
    ensures
        read_lines(pre + s, pre.len() + i, n, acc) == read_lines(s, i, n, acc),
    decreases s.len() - i,
{
    if i < s.len() {
        let t = pre + s;
        let k = pre.len() + i;
        lemma_line_end_shift(pre, s, i);
        let e = line_end(s, i);
        lemma_line_end_ge(s, i);
        assert(t.subrange(k, pre.len() + e) =~= s.subrange(i, e));
        if let Some(r) = record_of(strip_cr(s.subrange(i, e))) {
            if e < s.len() {
                lemma_read_shift(pre, s, e + 1, n + 1, upsert(acc, r));
            } else {
                lemma_read_shift(pre, s, s.len() as int, n + 1, upsert(acc, r));
            }
        }
    }
}

proof fn lemma_line_end_ge(s: Seq<char>, i: int)
    requires
        0 <= i <= s.len(),
    ensures
        i <= line_end(s, i) <= s.len(),
    decreases s.len() - i,
{
    if i < s.len() && s[i] != '\n' {
        lemma_line_end_ge(s, i + 1);
    }
}

/// Reading the line of one entry adds that entry as it reads back.
proof fn lemma_read_line(e: EntryView, p: Seq<char>, rest: Seq<char>, n: nat, acc: Seq<EntryView>)
    requires
        plain_field(e.name),
        plain_field(e.hash),
        plain_field(p),
    ensures
        read_lines(line_of(e, p) + rest, 0, n, acc) == read_lines(
            line_of(e, p) + rest,
            line_of(e, p).len() as int,
            n + 1,
            upsert(acc, reread(e, p)),
        ),
{
    let body = e.name + seq![','] + e.hash + seq![','] + p;
    let l = line_of(e, p);
    let t = l + rest;
    let nl = e.name.len() as int;
    let hl = e.hash.len() as int;
    assert(l =~= body + seq!['\n']);
    assert forall|j: int| 0 <= j < body.len() implies #[trigger] t[j] != '\n' by {
        assert(t[j] == body[j]);
        if j < nl {
            assert(body[j] == e.name[j]);
        } else if nl < j < nl + 1 + hl {
            assert(body[j] == e.hash[j - nl - 1]);
        } else if j > nl + 1 + hl {
            assert(body[j] == p[j - nl - 2 - hl]);
        }
    }
    assert(t[body.len() as int] == '\n');
    lemma_line_end_is(t, 0, body.len() as int);
    assert(t.subrange(0, body.len() as int) =~= body);
    if body.len() > 0 && body.last() == '\r' {
        if p.len() > 0 {
            assert(body.last() == p[p.len() - 1]);
        }
    }
    assert(strip_cr(body) == body);
    assert forall|j: int| 0 <= j < nl implies #[trigger] body[j] != ',' by {
        assert(body[j] == e.name[j]);
    }
    assert(body[nl] == ',');
    lemma_char_index_is(body, ',', 0, nl);
    assert forall|j: int| nl + 1 <= j < nl + 1 + hl implies #[trigger] body[j] != ',' by {
        assert(body[j] == e.hash[j - nl - 1]);
    }
    assert(body[nl + 1 + hl] == ',');
    lemma_char_index_is(body, ',', nl + 1, nl + 1 + hl);
    assert forall|j: int| nl + 2 + hl <= j < body.len() implies #[trigger] body[j] != ',' by {
        assert(body[j] == p[j - nl - 2 - hl]);
    }
    lemma_char_index_is(body, ',', nl + 2 + hl, body.len() as int);
    assert(body.subrange(0, nl) =~= e.name);
    assert(body.subrange(nl + 1, nl + 1 + hl) =~= e.hash);
    assert(body.subrange(nl + 2 + hl, body.len() as int) =~= p);
    assert(record_of(strip_cr(t.subrange(0, line_end(t, 0)))) == Some(reread(e, p)));
}

proof fn lemma_rendered_front(es: Seq<EntryView>)
    requires
        es.len() > 0,
        rendered(es) is Some,
    ensures
        payload(es[0].tokens) is Some,
        rendered(es.drop_first()) is Some,
        rendered(es)->0 == line_of(es[0], payload(es[0].tokens)->0) + rendered(es.drop_first())->0,
    decreases es.len(),
{
    let dl = es.drop_last();
    if es.len() == 1 {
        assert(dl =~= Seq::<EntryView>::empty());
        assert(es.drop_first() =~= Seq::<EntryView>::empty());
        assert(es.last() == es[0]);
        assert(rendered(es)->0 =~= line_of(es[0], payload(es[0].tokens)->0) + Seq::<char>::empty());
    } else {
        lemma_rendered_front(dl);
        assert(dl[0] == es[0]);
        let rest = es.drop_first();
        assert(rest.drop_last() =~= dl.drop_first());
        assert(rest.last() == es.last());
        let a = line_of(es[0], payload(es[0].tokens)->0);
        let m = rendered(dl.drop_first())->0;
        let z = line_of(es.last(), payload(es.last().tokens)->0);
        assert((a + m) + z =~= a + (m + z));
    }
}

proof fn lemma_read_all(es: Seq<EntryView>, n: nat, acc: Seq<EntryView>)
    requires
        reloadable(es),
        rendered(es) is Some,
        forall|j: int, k: int|
            0 <= j < acc.len() && 0 <= k < es.len() ==> (#[trigger] acc[j]).name != (#[trigger] es[k]).name,
    ensures
        read_lines(rendered(es)->0, 0, n, acc) == Ok::<Seq<EntryView>, CacheError>(acc + reread_all(es)),
    decreases es.len(),
{
    if es.len() == 0 {
        assert(acc + reread_all(es) =~= acc);
    } else {
        lemma_rendered_front(es);
        let e = es[0];
        let p = payload(e.tokens)->0;
        let rest = es.drop_first();
        let r = rendered(rest)->0;
        let rec = reread(e, p);
        lemma_read_line(e, p, r, n, acc);
        assert forall|j: int| 0 <= j < acc.len() implies (#[trigger] acc[j]).name != e.name by {
            assert(acc[j].name != es[0].name);
        }
        lemma_entry_index_is(acc, e.name, 0, acc.len() as int);
        let acc2 = upsert(acc, rec);
        assert(acc2 == acc.push(rec));
        lemma_read_shift(line_of(e, p), r, 0, n + 1, acc2);
        assert(line_of(e, p) + r == rendered(es)->0);
        assert(reloadable(rest)) by {
            assert forall|i: int, j: int| 0 <= i < j < rest.len() implies (#[trigger] rest[i]).name
                != (#[trigger] rest[j]).name by {
                assert(rest[i] == es[i + 1] && rest[j] == es[j + 1]);
            }
            assert forall|i: int| 0 <= i < rest.len() implies {
                &&& plain_field((#[trigger] rest[i]).name)
                &&& plain_field(rest[i].hash)
                &&& payload(rest[i].tokens) is Some
                &&& plain_field(payload(rest[i].tokens)->0)
            } by {
                assert(rest[i] == es[i + 1]);
            }
        }
        assert forall|j: int, k: int|
            0 <= j < acc2.len() && 0 <= k < rest.len() implies (#[trigger] acc2[j]).name
            != (#[trigger] rest[k]).name by {
            assert(rest[k] == es[k + 1]);
            if j < acc.len() {
                assert(acc2[j] == acc[j]);
            } else {
                assert(acc2[j] == rec);
                assert(es[0].name != es[k + 1].name);
            }
        }
        lemma_read_all(rest, n + 1, acc2);
        assert(acc2 + reread_all(rest) =~= acc + reread_all(es));
    }
}

/// A cache file written for reloadable entries reads back, line by line, as those entries
/// with their tokens in written form.
pub proof fn lemma_cache_file_reads_back(es: Seq<EntryView>)
    requires
        reloadable(es),
        rendered(es) is Some,
    ensures
        cache_file_entries(rendered(es)->0) == Ok::<Seq<EntryView>, CacheError>(reread_all(es)),
{
    lemma_read_all(es, 0, seq![]);
    assert(Seq::<EntryView>::empty() + reread_all(es) =~= reread_all(es));
}

/// Entries whose names are distinct and whose names, hashes and read-in token texts are
/// plain fields; the tokens lexed in this session are written as base64, which is plain.
pub open spec fn fields_reloadable(es: Seq<EntryView>) -> bool {
    &&& forall|i: int, j: int| 0 <= i < j < es.len() ==> (#[trigger] es[i]).name != (#[trigger] es[j]).name
    &&& forall|i: int|
        0 <= i < es.len() ==> {
            &&& plain_field((#[trigger] es[i]).name)
            &&& plain_field(es[i].hash)
            &&& (es[i].tokens matches Stored::Encoded(t) ==> plain_field(t))
        }
}

/// What writing an entry out establishes: its tokens have a written form, plain when they
/// were lexed in this session, which decodes to their bytes.
spec fn written_back(e: EntryView) -> bool {
    &&& payload(e.tokens) is Some
    &&& (e.tokens matches Stored::Decoded(ts) ==> {
        &&& plain_field(payload(e.tokens)->0)
        &&& base64_bytes(payload(e.tokens)->0) == Some(frame(ts))
    })
}

proof fn lemma_written_back_serves(e: EntryView)
    requires
        written_back(e),
    ensures
        stored_tokens(reread(e, payload(e.tokens)->0).tokens) == stored_tokens(e.tokens),
{
    if let Stored::Decoded(ts) = e.tokens {
        crate::codec::lemma_frame_fits(ts);
        crate::codec::lemma_frame_round_trip(ts);
    }
}

proof fn lemma_entry_index_same(a: Seq<EntryView>, b: Seq<EntryView>, name: Seq<char>, i: int)
    requires
        a.len() == b.len(),
        forall|j: int| 0 <= j < a.len() ==> (#[trigger] a[j]).name == b[j].name,
    ensures
        entry_index(a, name, i) == entry_index(b, name, i),
    decreases a.len() - i,
{
    if 0 <= i < a.len() {
        assert(a[i].name == b[i].name);
        lemma_entry_index_same(a, b, name, i + 1);
    }
}

/// Two caching tokenizers whose entries agree in file, hash and served tokens give the same
/// result for every file: a cache file read back in a new session serves what the session
/// that wrote it served.
pub proof fn lemma_same_entries_same_results(t: TokenizerView, u: TokenizerView, name: Seq<char>, content: Seq<u8>)
    requires
        t.use_cache,
        u.use_cache,
        t.entries.len() == u.entries.len(),
        forall|i: int|
            0 <= i < t.entries.len() ==> {
                &&& (#[trigger] t.entries[i]).name == u.entries[i].name
                &&& t.entries[i].hash == u.entries[i].hash
                &&& stored_tokens(t.entries[i].tokens) == stored_tokens(u.entries[i].tokens)
            },
    ensures
        tokenize_step(t, name, content).1 == tokenize_step(u, name, content).1,
{
    lemma_entry_index_same(t.entries, u.entries, name, 0);
    lemma_entry_index_bounds(t.entries, name, 0);
    let k = entry_index(t.entries, name, 0);
    let h = base64_text(sha256_of(content));
    if 0 <= k < t.entries.len() {
        assert(t.entries[k].hash == u.entries[k].hash);
        assert(stored_tokens(t.entries[k].tokens) == stored_tokens(u.entries[k].tokens));
        if t.entries[k].hash == h {
            assert(tokenize_step(t, name, content).1 == stored_tokens(t.entries[k].tokens));
            assert(tokenize_step(u, name, content).1 == stored_tokens(u.entries[k].tokens));
        } else {
            assert(tokenize_step(t, name, content).1 == fresh_tokens(name, content));
            assert(tokenize_step(u, name, content).1 == fresh_tokens(name, content));
        }
    } else {
        assert(tokenize_step(t, name, content).1 == fresh_tokens(name, content));
        assert(tokenize_step(u, name, content).1 == fresh_tokens(name, content));
    }
}

} // verus!
