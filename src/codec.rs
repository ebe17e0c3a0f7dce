use vstd::prelude::*;
use vstd::utf8::{decode_utf8, encode_utf8, valid_utf8};

use crate::token::{views, Token, TokenKind, TokenView};

verus! {

/// Relies on `String::from_utf8`: it succeeds exactly on valid UTF-8, and the string then
/// holds the characters that the bytes encode.
#[verifier::external_body]
pub(crate) fn utf8_string(bytes: Vec<u8>) -> (r: Option<String>)
    ensures
        r is Some <==> valid_utf8(bytes@),
        r matches Some(s) ==> s@ == decode_utf8(bytes@),
{
    String::from_utf8(bytes).ok()
}

/// `n` as eight bytes, least significant first.
pub open spec fn le64(n: u64) -> Seq<u8> {
    seq![
        n as u8,
        (n >> 8u64) as u8,
        (n >> 16u64) as u8,
        (n >> 24u64) as u8,
        (n >> 32u64) as u8,
        (n >> 40u64) as u8,
        (n >> 48u64) as u8,
        (n >> 56u64) as u8,
    ]
}

/// The eight bytes at `i`, least significant first, as a number.
pub open spec fn read_le64(b: Seq<u8>, i: int) -> u64 {
    (b[i] as u64) | ((b[i + 1] as u64) << 8u64) | ((b[i + 2] as u64) << 16u64) | ((b[i + 3] as u64)
        << 24u64) | ((b[i + 4] as u64) << 32u64) | ((b[i + 5] as u64) << 40u64) | ((b[i + 6] as u64)
        << 48u64) | ((b[i + 7] as u64) << 56u64)
}

/// One token as bytes: its kind's position, line, column, then its text and its file name,
/// each as a length and UTF-8 bytes.
#[verifier::opaque]
pub open spec fn frame_token(t: TokenView) -> Seq<u8> {
    let v = encode_utf8(t.value);
    let f = encode_utf8(t.file);
    seq![t.kind.ordinal() as u8] + le64(t.line) + le64(t.col) + le64(v.len() as u64) + v + le64(
        f.len() as u64,
    ) + f
}

/// A token sequence as bytes: its tokens' frames, in order.
pub open spec fn frame(ts: Seq<TokenView>) -> Seq<u8>
    decreases ts.len(),
{
    if ts.len() == 0 {
        seq![]
    } else {
        frame(ts.drop_last()) + frame_token(ts.last())
    }
}

/// The token framed at `i`, and the position after it.
pub open spec fn unframe_token(b: Seq<u8>, i: int) -> Option<(TokenView, int)> {
    if i < 0 || i + 25 > b.len() {
        None
    } else {
        match TokenKind::at_ordinal(b[i] as nat) {
            None => None,
            Some(kind) => {
                let line = read_le64(b, i + 1);
                let col = read_le64(b, i + 9);
                let vs = i + 25;
                let ve = vs + read_le64(b, i + 17) as int;
                if ve + 8 > b.len() {
                    None
                } else {
                    let fs = ve + 8;
                    let fe = fs + read_le64(b, ve) as int;
                    if fe > b.len() || !valid_utf8(b.subrange(vs, ve)) || !valid_utf8(
                        b.subrange(fs, fe),
                    ) {
                        None
                    } else {
                        Some(
                            (
                                TokenView {
                                    kind,
                                    value: decode_utf8(b.subrange(vs, ve)),
                                    file: decode_utf8(b.subrange(fs, fe)),
                                    line,
                                    col,
                                },
                                fe,
                            ),
                        )
                    }
                }
            },
        }
    }
}

/// The tokens framed from `i` to the end, if the bytes there are well framed.
pub open spec fn unframe_from(b: Seq<u8>, i: int) -> Option<Seq<TokenView>>
    decreases b.len() - i,
{
    if i < 0 || i > b.len() {
        None
    } else if i == b.len() {
        Some(seq![])
    } else {
        match unframe_token(b, i) {
            None => None,
            Some((t, j)) => if j <= i {
                None
            } else {
                match unframe_from(b, j) {
                    Some(rest) => Some(seq![t] + rest),
                    None => None,
                }
            },
        }
    }
}

pub open spec fn unframe(b: Seq<u8>) -> Option<Seq<TokenView>> {
    unframe_from(b, 0)
}

fn push_le64(out: &mut Vec<u8>, n: u64)
    ensures
        final(out)@ == old(out)@ + le64(n),
{
    out.push(#[verifier::truncate] (n as u8));
    out.push(#[verifier::truncate] ((n >> 8u64) as u8));
    out.push(#[verifier::truncate] ((n >> 16u64) as u8));
    out.push(#[verifier::truncate] ((n >> 24u64) as u8));
    out.push(#[verifier::truncate] ((n >> 32u64) as u8));
    out.push(#[verifier::truncate] ((n >> 40u64) as u8));
    out.push(#[verifier::truncate] ((n >> 48u64) as u8));
    out.push(#[verifier::truncate] ((n >> 56u64) as u8));
    assert(final(out)@ =~= old(out)@ + le64(n));
}

fn push_bytes(out: &mut Vec<u8>, b: &[u8])
    ensures
        final(out)@ == old(out)@ + b@,
{
    let ghost start = out@;
    let mut i: usize = 0;
    while i < b.len()
        invariant
            i <= b@.len(),
            out@ == start + b@.subrange(0, i as int),
        decreases b@.len() - i,
    {
        out.push(b[i]);
        assert(start + b@.subrange(0, i + 1) =~= start + b@.subrange(0, i as int) + seq![b@[i as int]]);
        i += 1;
    }
    assert(b@.subrange(0, i as int) =~= b@);
}

/// The bytes of a token sequence.
pub fn encode_tokens(tokens: &Vec<Token>) -> (r: Vec<u8>)
    ensures
        r@ == frame(views(tokens@)),
{
    let mut out: Vec<u8> = Vec::new();
    let mut i: usize = 0;
    while i < tokens.len()
        invariant
            i <= tokens@.len(),
            out@ == frame(views(tokens@.subrange(0, i as int))),
        decreases tokens@.len() - i,
    {
        let t = &tokens[i];
        let k = t.kind.index();
        out.push(k as u8);
        push_le64(&mut out, t.line);
        push_le64(&mut out, t.col);
        let v = t.value.as_str().as_bytes();
        push_le64(&mut out, v.len() as u64);
        push_bytes(&mut out, v);
        let f = t.file.as_str().as_bytes();
        push_le64(&mut out, f.len() as u64);
        push_bytes(&mut out, f);
        proof {
            let prev = views(tokens@.subrange(0, i as int));
            let next = views(tokens@.subrange(0, i + 1));
            assert(next.drop_last() =~= prev);
            assert(next.last() == t@);
            reveal(frame_token);
            assert(out@ =~= frame(prev) + frame_token(t@));
        }
        i += 1;
    }
    assert(tokens@.subrange(0, i as int) =~= tokens@);
    out
}

fn read_u64(b: &Vec<u8>, i: usize) -> (r: u64)
    requires
        i + 8 <= b@.len(),
    ensures
        r == read_le64(b@, i as int),
{
    let n = b.len();
    assert(i + 8 <= n);
    (b[i] as u64) | ((b[i + 1] as u64) << 8u64) | ((b[i + 2] as u64) << 16u64) | ((b[i + 3] as u64)
        << 24u64) | ((b[i + 4] as u64) << 32u64) | ((b[i + 5] as u64) << 40u64) | ((b[i + 6] as u64)
        << 48u64) | ((b[i + 7] as u64) << 56u64)
}

fn sub_bytes(b: &Vec<u8>, lo: usize, hi: usize) -> (r: Vec<u8>)
    requires
        lo <= hi <= b@.len(),
    ensures
        r@ == b@.subrange(lo as int, hi as int),
{
    let mut out: Vec<u8> = Vec::new();
    let mut i = lo;
    while i < hi
        invariant
            lo <= i <= hi <= b@.len(),
            out@ == b@.subrange(lo as int, i as int),
        decreases hi - i,
    {
        out.push(b[i]);
        assert(b@.subrange(lo as int, i + 1) =~= b@.subrange(lo as int, i as int).push(b@[i as int]));
        i += 1;
    }
    out
}

fn decode_token(b: &Vec<u8>, i: usize) -> (r: Option<(Token, usize)>)
    requires
        i <= b@.len(),
    ensures
        match r {
            Some((t, j)) => unframe_token(b@, i as int) == Some((t@, j as int)) && j <= b@.len(),
            None => unframe_token(b@, i as int) is None,
        },
{
    let n = b.len();
    if n - i < 25 {
        return None;
    }
    let kind = match TokenKind::from_index(b[i] as usize) {
        None => return None,
        Some(k) => k,
    };
    let line = read_u64(b, i + 1);
    let col = read_u64(b, i + 9);
    let vl = read_u64(b, i + 17);
    let vs = i + 25;
    if vl as u128 + 8 > (n - vs) as u128 {
        return None;
    }
    let ve = vs + vl as usize;
    let fl = read_u64(b, ve);
    let fs = ve + 8;
    if fl as u128 > (n - fs) as u128 {
        return None;
    }
    let fe = fs + fl as usize;
    let value = match utf8_string(sub_bytes(b, vs, ve)) {
        None => return None,
        Some(s) => s,
    };
    let file = match utf8_string(sub_bytes(b, fs, fe)) {
        None => return None,
        Some(s) => s,
    };
    Some((Token::new(kind, value, file, line, col), fe))
}

/// The token sequence that `bytes` frames, if they frame one.
pub fn decode_tokens(bytes: &Vec<u8>) -> (r: Option<Vec<Token>>)
    ensures
        match r {
            Some(ts) => unframe(bytes@) == Some(views(ts@)),
            None => unframe(bytes@) is None,
        },
{
    let n = bytes.len();
    let mut out: Vec<Token> = Vec::new();
    let mut i: usize = 0;
    proof {
        assert(views(out@) =~= Seq::<TokenView>::empty());
        if let Some(rest) = unframe_from(bytes@, 0) {
            assert(Seq::<TokenView>::empty() + rest =~= rest);
        }
    }
    while i < n
        invariant
            n == bytes@.len(),
            i <= n,
            unframe(bytes@) == match unframe_from(bytes@, i as int) {
                Some(rest) => Some(views(out@) + rest),
                None => None::<Seq<TokenView>>,
            },
        decreases n - i,
    {
        match decode_token(bytes, i) {
            None => return None,
            Some((t, j)) => {
                if j <= i {
                    return None;
                }
                let ghost before = out@;
                out.push(t);
                proof {
                    assert(views(out@) =~= views(before) + seq![t@]);
                    if let Some(rest) = unframe_from(bytes@, j as int) {
                        assert(views(before) + (seq![t@] + rest) =~= views(out@) + rest);
                    }
                }
                i = j;
            },
        }
    }
    assert(views(out@) + Seq::<TokenView>::empty() =~= views(out@));
    Some(out)
}

/// Every text and file name of `ts` has a UTF-8 length that a `u64` holds.
pub open spec fn lengths_fit(ts: Seq<TokenView>) -> bool {
    forall|i: int|
        0 <= i < ts.len() ==> encode_utf8((#[trigger] ts[i]).value).len() <= u64::MAX
            && encode_utf8(ts[i].file).len() <= u64::MAX
}

proof fn lemma_read_le64(b: Seq<u8>, i: int, n: u64)
    requires
        0 <= i,
        i + 8 <= b.len(),
        b.subrange(i, i + 8) == le64(n),
    ensures
        read_le64(b, i) == n,
{
    let w = b.subrange(i, i + 8);
    assert(b[i] == w[0] && b[i + 1] == w[1] && b[i + 2] == w[2] && b[i + 3] == w[3]);
    assert(b[i + 4] == w[4] && b[i + 5] == w[5] && b[i + 6] == w[6] && b[i + 7] == w[7]);
    let (x0, x1, x2, x3, x4, x5, x6, x7) = (
        b[i],
        b[i + 1],
        b[i + 2],
        b[i + 3],
        b[i + 4],
        b[i + 5],
        b[i + 6],
        b[i + 7],
    );
    assert((x0 as u64) | ((x1 as u64) << 8u64) | ((x2 as u64) << 16u64) | ((x3 as u64) << 24u64)
        | ((x4 as u64) << 32u64) | ((x5 as u64) << 40u64) | ((x6 as u64) << 48u64) | ((x7 as u64)
        << 56u64) == n) by (bit_vector)
        requires
            x0 == n as u8,
            x1 == (n >> 8u64) as u8,
            x2 == (n >> 16u64) as u8,
            x3 == (n >> 24u64) as u8,
            x4 == (n >> 32u64) as u8,
            x5 == (n >> 40u64) as u8,
            x6 == (n >> 48u64) as u8,
            x7 == (n >> 56u64) as u8,
    ;
}

proof fn lemma_frame_token_fields(t: TokenView)
    ensures
        ({
            let v = encode_utf8(t.value);
            let f = encode_utf8(t.file);
            let ft = frame_token(t);
            let vl = v.len() as int;
            &&& ft.len() == 33 + vl + f.len()
            &&& ft[0] == t.kind.ordinal() as u8
            &&& ft.subrange(1, 9) == le64(t.line)
            &&& ft.subrange(9, 17) == le64(t.col)
            &&& ft.subrange(17, 25) == le64(v.len() as u64)
            &&& ft.subrange(25, 25 + vl) == v
            &&& ft.subrange(25 + vl, 33 + vl) == le64(f.len() as u64)
            &&& ft.subrange(33 + vl, ft.len() as int) == f
        }),
{
    let v = encode_utf8(t.value);
    let f = encode_utf8(t.file);
    let vl = v.len() as int;
    let lead = seq![t.kind.ordinal() as u8];
    let upto_line = lead + le64(t.line);
    let upto_col = upto_line + le64(t.col);
    let upto_vlen = upto_col + le64(v.len() as u64);
    let upto_value = upto_vlen + v;
    let upto_flen = upto_value + le64(f.len() as u64);
    let ft = upto_flen + f;
    reveal(frame_token);
    assert(ft == frame_token(t));
    assert(ft.subrange(0, upto_flen.len() as int) =~= upto_flen);
    assert(upto_flen.subrange(0, upto_value.len() as int) =~= upto_value);
    assert(upto_value.subrange(0, upto_vlen.len() as int) =~= upto_vlen);
    assert(upto_vlen.subrange(0, upto_col.len() as int) =~= upto_col);
    assert(upto_col.subrange(0, upto_line.len() as int) =~= upto_line);
    assert(ft.subrange(33 + vl, ft.len() as int) =~= f);
    assert(upto_flen.subrange(25 + vl, 33 + vl) =~= le64(f.len() as u64));
    assert(ft.subrange(25 + vl, 33 + vl) =~= upto_flen.subrange(25 + vl, 33 + vl));
    assert(upto_value.subrange(25, 25 + vl) =~= v);
    assert(ft.subrange(25, 25 + vl) =~= upto_value.subrange(25, 25 + vl));
    assert(upto_vlen.subrange(17, 25) =~= le64(v.len() as u64));
    assert(ft.subrange(17, 25) =~= upto_vlen.subrange(17, 25));
    assert(upto_col.subrange(9, 17) =~= le64(t.col));
    assert(ft.subrange(9, 17) =~= upto_col.subrange(9, 17));
    assert(upto_line.subrange(1, 9) =~= le64(t.line));
    assert(ft.subrange(1, 9) =~= upto_line.subrange(1, 9));
}

proof fn lemma_read_inside(b: Seq<u8>, i: int, w: Seq<u8>, j: int, n: u64)
    requires
        0 <= i,
        i + w.len() <= b.len(),
        b.subrange(i, i + w.len()) == w,
        0 <= j,
        j + 8 <= w.len(),
        w.subrange(j, j + 8) == le64(n),
    ensures
        read_le64(b, i + j) == n,
{
    assert(b.subrange(i + j, i + j + 8) =~= w.subrange(j, j + 8)) by {
        assert forall|k: int| 0 <= k < 8 implies #[trigger] b.subrange(i + j, i + j + 8)[k]
            == w.subrange(j, j + 8)[k] by {
            assert(b[i + j + k] == b.subrange(i, i + w.len())[j + k]);
        }
    }
    lemma_read_le64(b, i + j, n);
}

proof fn lemma_unframe_token(pre: Seq<u8>, t: TokenView, post: Seq<u8>)
    requires
        encode_utf8(t.value).len() <= u64::MAX,
        encode_utf8(t.file).len() <= u64::MAX,
    ensures
        unframe_token(pre + frame_token(t) + post, pre.len() as int) == Some(
            (t, (pre.len() + frame_token(t).len()) as int),
        ),
        frame_token(t).len() >= 25,
{
    crate::token::lemma_ordinal_round_trip(t.kind);
    lemma_frame_token_fields(t);
    let v = encode_utf8(t.value);
    let f = encode_utf8(t.file);
    vstd::utf8::encode_utf8_valid_utf8(t.value);
    vstd::utf8::encode_utf8_decode_utf8(t.value);
    vstd::utf8::encode_utf8_valid_utf8(t.file);
    vstd::utf8::encode_utf8_decode_utf8(t.file);
    let vl = v.len() as int;
    let fl = f.len() as int;
    let ft = frame_token(t);
    let b = pre + ft + post;
    let i = pre.len() as int;
    assert(b.subrange(i, i + ft.len()) =~= ft);
    assert(b[i] == ft[0]);
    lemma_read_inside(b, i, ft, 1, t.line);
    lemma_read_inside(b, i, ft, 9, t.col);
    lemma_read_inside(b, i, ft, 17, v.len() as u64);
    lemma_read_inside(b, i, ft, 25 + vl, f.len() as u64);
    let vb = b.subrange(i + 25, i + 25 + vl);
    let fb = b.subrange(i + 33 + vl, i + 33 + vl + fl);
    assert(vb =~= ft.subrange(25, 25 + vl));
    assert(fb =~= ft.subrange(33 + vl, ft.len() as int));
    lemma_unframe_token_parts(b, i, t);
}

proof fn lemma_unframe_token_parts(b: Seq<u8>, i: int, t: TokenView)
    requires
        0 <= i,
        i + 25 <= b.len(),
        TokenKind::at_ordinal(b[i] as nat) == Some(t.kind),
        read_le64(b, i + 1) == t.line,
        read_le64(b, i + 9) == t.col,
        i + 33 + read_le64(b, i + 17) as int <= b.len(),
        valid_utf8(b.subrange(i + 25, i + 25 + read_le64(b, i + 17) as int)),
        decode_utf8(b.subrange(i + 25, i + 25 + read_le64(b, i + 17) as int)) == t.value,
        ({
            let ve = i + 25 + read_le64(b, i + 17) as int;
            let fe = ve + 8 + read_le64(b, ve) as int;
            &&& fe <= b.len()
            &&& valid_utf8(b.subrange(ve + 8, fe))
            &&& decode_utf8(b.subrange(ve + 8, fe)) == t.file
        }),
    ensures
        unframe_token(b, i) == Some(
            (t, i + 33 + read_le64(b, i + 17) as int + read_le64(b, i + 25 + read_le64(b, i + 17) as int) as int),
        ),
{
}

proof fn lemma_frame_front(t: TokenView, rest: Seq<TokenView>)
    ensures
        frame(seq![t] + rest) == frame_token(t) + frame(rest),
    decreases rest.len(),
{
    let s = seq![t] + rest;
    if rest.len() == 0 {
        assert(s.drop_last() =~= Seq::<TokenView>::empty());
        assert(s.last() == t);
        assert(rest =~= Seq::<TokenView>::empty());
        assert(frame(s) == frame(s.drop_last()) + frame_token(s.last()));
        assert(frame(s) =~= frame_token(t) + frame(rest));
    } else {
        assert(s.drop_last() =~= seq![t] + rest.drop_last());
        assert(s.last() == rest.last());
        lemma_frame_front(t, rest.drop_last());
        let a = frame_token(t);
        let m = frame(rest.drop_last());
        let z = frame_token(rest.last());
        assert(frame(s) == frame(s.drop_last()) + frame_token(s.last()));
        assert(frame(rest) == m + z);
        assert((a + m) + z =~= a + (m + z));
    }
}

proof fn lemma_unframe_after(pre: Seq<u8>, ts: Seq<TokenView>)
    requires
        lengths_fit(ts),
    ensures
        unframe_from(pre + frame(ts), pre.len() as int) == Some(ts),
    decreases ts.len(),
{
    if ts.len() == 0 {
        assert(pre + frame(ts) =~= pre);
        assert(ts =~= Seq::<TokenView>::empty());
    } else {
        let t = ts[0];
        let rest = ts.drop_first();
        assert(ts =~= seq![t] + rest);
        lemma_frame_front(t, rest);
        let ft = frame_token(t);
        let b = pre + frame(ts);
        assert(b =~= pre + ft + frame(rest));
        lemma_unframe_token(pre, t, frame(rest));
        assert(lengths_fit(rest)) by {
            assert forall|i: int| 0 <= i < rest.len() implies encode_utf8((#[trigger] rest[i]).value).len()
                <= u64::MAX && encode_utf8(rest[i].file).len() <= u64::MAX by {
                assert(rest[i] == ts[i + 1]);
            }
        }
        lemma_unframe_after(pre + ft, rest);
        assert(pre + ft + frame(rest) =~= b);
        assert(seq![t] + rest =~= ts);
    }
}

/// Decoding the bytes of a token sequence gives the sequence back.
pub proof fn lemma_frame_round_trip(ts: Seq<TokenView>)
    requires
        lengths_fit(ts),
    ensures
        unframe(frame(ts)) == Some(ts),
{
    lemma_unframe_after(seq![], ts);
    assert(Seq::<u8>::empty() + frame(ts) =~= frame(ts));
}

/// A token sequence whose bytes a `u64` can count has texts and file names that fit too.
pub proof fn lemma_frame_fits(ts: Seq<TokenView>)
    requires
        frame(ts).len() <= u64::MAX,
    ensures
        lengths_fit(ts),
    decreases ts.len(),
{
    if ts.len() > 0 {
        let dl = ts.drop_last();
        lemma_frame_token_fields(ts.last());
        assert(frame(ts) == frame(dl) + frame_token(ts.last()));
        lemma_frame_fits(dl);
        assert forall|i: int| 0 <= i < ts.len() implies encode_utf8((#[trigger] ts[i]).value).len()
            <= u64::MAX && encode_utf8(ts[i].file).len() <= u64::MAX by {
            if i < ts.len() - 1 {
                assert(ts[i] == dl[i]);
            }
        }
    }
}

} // verus!
