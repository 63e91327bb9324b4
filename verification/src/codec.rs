//! Binary ABI codec: encodes and decodes nested tuple/array/primitive values
//! against a declared type schema.
//!
//! The wire format is word-oriented and length-determined: unsigned 256-bit
//! integers are 32 big-endian bytes, addresses 20 bytes, fixed byte fields
//! their declared width, variable byte fields and arrays carry a 32-byte
//! big-endian length word. Decoding walks the schema and the buffer together
//! and fails with `SchemaMismatch` unless the buffer is exactly one encoding
//! of a value list matching the schema.

use vstd::prelude::*;
use vstd::slice::{slice_subrange, slice_to_vec};

use crate::types::DecodeError;

verus! {

/// A tree of primitive kinds: the declared type schema a buffer is decoded
/// against.
#[derive(PartialEq, Eq, Debug)]
pub enum ParamKind {
    /// Fixed-width unsigned integer; the width in bits is declarative, the
    /// wire width is always one 32-byte word.
    Uint(usize),
    Address,
    FixedBytes(usize),
    Bytes,
    Tuple(Vec<ParamKind>),
    Array(Box<ParamKind>),
}

/// A decoded value, mirroring the schema tree.
#[derive(PartialEq, Eq, Debug)]
pub enum Token {
    /// 32 big-endian bytes.
    Uint(Vec<u8>),
    /// 20 bytes.
    Address(Vec<u8>),
    FixedBytes(Vec<u8>),
    Bytes(Vec<u8>),
    Tuple(Vec<Token>),
    Array(Vec<Token>),
}

/// Mathematical model of a `Token`: the same tree over `Seq<u8>`.
#[verifier::ext_equal]
pub enum TokenV {
    Uint(Seq<u8>),
    Address(Seq<u8>),
    FixedBytes(Seq<u8>),
    Bytes(Seq<u8>),
    Tuple(Seq<TokenV>),
    Array(Seq<TokenV>),
}

/// The model of a token.
pub open spec fn tok_v(t: Token) -> TokenV
    decreases t,
{
    match t {
        Token::Uint(b) => TokenV::Uint(b@),
        Token::Address(b) => TokenV::Address(b@),
        Token::FixedBytes(b) => TokenV::FixedBytes(b@),
        Token::Bytes(b) => TokenV::Bytes(b@),
        Token::Tuple(ts) => TokenV::Tuple(toks_v(ts@)),
        Token::Array(ts) => TokenV::Array(toks_v(ts@)),
    }
}

/// The models of a token sequence, elementwise.
pub open spec fn toks_v(ts: Seq<Token>) -> Seq<TokenV>
    decreases ts,
{
    if ts.len() == 0 {
        Seq::empty()
    } else {
        seq![tok_v(ts[0])] + toks_v(ts.subrange(1, ts.len() as int))
    }
}

pub proof fn lemma_toks_v_len(ts: Seq<Token>)
    ensures
        toks_v(ts).len() == ts.len(),
    decreases ts,
{
    if ts.len() != 0 {
        lemma_toks_v_len(ts.subrange(1, ts.len() as int));
    }
}

pub proof fn lemma_toks_v_index(ts: Seq<Token>, i: int)
    requires
        0 <= i < ts.len(),
    ensures
        toks_v(ts).len() == ts.len(),
        toks_v(ts)[i] == tok_v(ts[i]),
    decreases ts,
{
    lemma_toks_v_len(ts);
    if i > 0 {
        lemma_toks_v_index(ts.subrange(1, ts.len() as int), i - 1);
    }
}

/// A token sequence matches a kind sequence pointwise.
pub open spec fn matches_kind(t: TokenV, k: ParamKind) -> bool
    decreases t,
{
    match t {
        TokenV::Uint(b) => k matches ParamKind::Uint(_) && b.len() == 32,
        TokenV::Address(b) => k is Address && b.len() == 20,
        TokenV::FixedBytes(b) => k matches ParamKind::FixedBytes(n) && b.len() == n,
        TokenV::Bytes(_) => k is Bytes,
        TokenV::Tuple(ts) => k matches ParamKind::Tuple(ks) && ts.len() == ks@.len()
            && (forall|i: int| 0 <= i < ts.len() ==> matches_kind(#[trigger] ts[i], ks@[i])),
        TokenV::Array(ts) => k matches ParamKind::Array(k1)
            && (forall|i: int| 0 <= i < ts.len() ==> matches_kind(#[trigger] ts[i], *k1)),
    }
}

/// A 32-byte word: 24 zero bytes, then the value big-endian.
pub open spec fn word(v: u64) -> Seq<u8> {
    Seq::new(24, |i: int| 0u8) + seq![
        (v >> 56) as u8,
        (v >> 48) as u8,
        (v >> 40) as u8,
        (v >> 32) as u8,
        (v >> 24) as u8,
        (v >> 16) as u8,
        (v >> 8) as u8,
        v as u8,
    ]
}

/// The value held by the low eight bytes of a word.
pub open spec fn be8_val(s: Seq<u8>) -> u64
    recommends
        s.len() == 8,
{
    ((s[0] as u64) << 56) | ((s[1] as u64) << 48) | ((s[2] as u64) << 40) | ((s[3] as u64) << 32)
        | ((s[4] as u64) << 24) | ((s[5] as u64) << 16) | ((s[6] as u64) << 8) | (s[7] as u64)
}

/// The byte encoding of a value.
pub open spec fn encoded(t: TokenV) -> Seq<u8>
    decreases t,
{
    match t {
        TokenV::Uint(b) => b,
        TokenV::Address(b) => b,
        TokenV::FixedBytes(b) => b,
        TokenV::Bytes(b) => word(b.len() as u64) + b,
        TokenV::Tuple(ts) => encoded_list(ts),
        TokenV::Array(ts) => word(ts.len() as u64) + encoded_list(ts),
    }
}

/// The concatenated encodings of a value sequence.
pub open spec fn encoded_list(ts: Seq<TokenV>) -> Seq<u8>
    decreases ts,
{
    if ts.len() == 0 {
        Seq::empty()
    } else {
        encoded(ts[0]) + encoded_list(ts.subrange(1, ts.len() as int))
    }
}

/// Schemas the decoder accepts: every kind consumes at least one byte, so a
/// declared arity is always bounded by the buffer length.
pub open spec fn kind_wf(k: ParamKind) -> bool
    decreases k,
{
    match k {
        ParamKind::Uint(_) => true,
        ParamKind::Address => true,
        ParamKind::FixedBytes(n) => 1 <= n,
        ParamKind::Bytes => true,
        ParamKind::Tuple(ks) => ks@.len() >= 1
            && (forall|i: int| 0 <= i < ks@.len() ==> kind_wf(#[trigger] ks@[i])),
        ParamKind::Array(k1) => kind_wf(*k1),
    }
}

pub proof fn lemma_encoded_list_concat(a: Seq<TokenV>, b: Seq<TokenV>)
    ensures
        encoded_list(a + b) == encoded_list(a) + encoded_list(b),
    decreases a,
{
    if a.len() == 0 {
        assert(a + b =~= b);
        assert(encoded_list(a) + encoded_list(b) =~= encoded_list(b));
    } else {
        lemma_encoded_list_concat(a.subrange(1, a.len() as int), b);
        assert((a + b).subrange(1, (a + b).len() as int) =~= a.subrange(1, a.len() as int) + b);
        assert(encoded((a + b)[0]) == encoded(a[0]));
        assert(encoded(a[0]) + (encoded_list(a.subrange(1, a.len() as int)) + encoded_list(b))
            =~= (encoded(a[0]) + encoded_list(a.subrange(1, a.len() as int))) + encoded_list(b));
    }
}

pub proof fn lemma_encoded_list_push(ts: Seq<TokenV>, t: TokenV)
    ensures
        encoded_list(ts.push(t)) == encoded_list(ts) + encoded(t),
{
    assert(ts.push(t) =~= ts + seq![t]);
    lemma_encoded_list_concat(ts, seq![t]);
    assert(seq![t].subrange(1, 1) =~= Seq::<TokenV>::empty());
    assert(encoded_list(seq![t]) == encoded(seq![t][0]) + encoded_list(seq![t].subrange(1, 1)));
    assert(seq![t][0] == t);
    assert(encoded_list(seq![t].subrange(1, 1)) == Seq::<u8>::empty());
    assert(encoded(t) + Seq::<u8>::empty() =~= encoded(t));
}

/// Every value matching a well-formed kind encodes to at least one byte.
pub proof fn lemma_encoded_min_len(t: TokenV, k: ParamKind)
    requires
        matches_kind(t, k),
        kind_wf(k),
    ensures
        encoded(t).len() >= 1,
    decreases t,
{
    match t {
        TokenV::Tuple(ts) => {
            let ks = k->Tuple_0;
            assert(matches_kind(ts[0], ks@[0]));
            assert(kind_wf(ks@[0]));
            lemma_encoded_min_len(ts[0], ks@[0]);
            assert(encoded_list(ts) == encoded(ts[0]) + encoded_list(ts.subrange(1, ts.len() as int)));
        }
        _ => {}
    }
}

/// A sequence of values each matching a well-formed kind encodes to at least
/// one byte per element.
pub proof fn lemma_encoded_list_min_len(ts: Seq<TokenV>, k: ParamKind)
    requires
        kind_wf(k),
        forall|i: int| 0 <= i < ts.len() ==> matches_kind(#[trigger] ts[i], k),
    ensures
        encoded_list(ts).len() >= ts.len(),
    decreases ts,
{
    if ts.len() != 0 {
        lemma_encoded_min_len(ts[0], k);
        let rest = ts.subrange(1, ts.len() as int);
        assert(forall|i: int| 0 <= i < rest.len() ==> matches_kind(#[trigger] rest[i], k));
        lemma_encoded_list_min_len(rest, k);
    }
}

pub proof fn lemma_toks_v_take_push(ts: Seq<Token>, i: int)
    requires
        0 <= i < ts.len(),
    ensures
        toks_v(ts.subrange(0, i + 1)) == toks_v(ts.subrange(0, i)).push(tok_v(ts[i])),
{
    let a = ts.subrange(0, i + 1);
    let b = ts.subrange(0, i);
    lemma_toks_v_len(a);
    lemma_toks_v_len(b);
    assert forall|j: int| 0 <= j < i + 1 implies toks_v(a)[j] == toks_v(b).push(tok_v(ts[i]))[j] by {
        lemma_toks_v_index(a, j);
        if j < i {
            lemma_toks_v_index(b, j);
        }
    }
    assert(toks_v(a) =~= toks_v(b).push(tok_v(ts[i])));
}

/// The low eight bytes of a word recover the value it was built from.
pub proof fn lemma_word_roundtrip(v: u64)
    ensures
        word(v).len() == 32,
        forall|i: int| 0 <= i < 24 ==> word(v)[i] == 0u8,
        be8_val(word(v).subrange(24, 32)) == v,
{
    assert(((((v >> 56) as u8) as u64) << 56) | ((((v >> 48) as u8) as u64) << 48)
        | ((((v >> 40) as u8) as u64) << 40) | ((((v >> 32) as u8) as u64) << 32)
        | ((((v >> 24) as u8) as u64) << 24) | ((((v >> 16) as u8) as u64) << 16)
        | ((((v >> 8) as u8) as u64) << 8) | ((v as u8) as u64) == v) by (bit_vector);
    let s = word(v).subrange(24, 32);
    assert(s[0] == (v >> 56) as u8);
    assert(s[1] == (v >> 48) as u8);
    assert(s[2] == (v >> 40) as u8);
    assert(s[3] == (v >> 32) as u8);
    assert(s[4] == (v >> 24) as u8);
    assert(s[5] == (v >> 16) as u8);
    assert(s[6] == (v >> 8) as u8);
    assert(s[7] == v as u8);
}

/// A 32-byte sequence whose first 24 bytes are zero is the word of the value
/// held by its low eight bytes.
pub proof fn lemma_word_of_bytes(s: Seq<u8>)
    requires
        s.len() == 32,
        forall|i: int| 0 <= i < 24 ==> s[i] == 0u8,
    ensures
        word(be8_val(s.subrange(24, 32))) == s,
{
    let b0 = s[24];
    let b1 = s[25];
    let b2 = s[26];
    let b3 = s[27];
    let b4 = s[28];
    let b5 = s[29];
    let b6 = s[30];
    let b7 = s[31];
    let v = be8_val(s.subrange(24, 32));
    assert(v == ((b0 as u64) << 56) | ((b1 as u64) << 48) | ((b2 as u64) << 40)
        | ((b3 as u64) << 32) | ((b4 as u64) << 24) | ((b5 as u64) << 16) | ((b6 as u64) << 8)
        | (b7 as u64));
    assert({
        let w = ((b0 as u64) << 56) | ((b1 as u64) << 48) | ((b2 as u64) << 40)
            | ((b3 as u64) << 32) | ((b4 as u64) << 24) | ((b5 as u64) << 16)
            | ((b6 as u64) << 8) | (b7 as u64);
        (w >> 56) as u8 == b0 && (w >> 48) as u8 == b1 && (w >> 40) as u8 == b2
            && (w >> 32) as u8 == b3 && (w >> 24) as u8 == b4 && (w >> 16) as u8 == b5
            && (w >> 8) as u8 == b6 && w as u8 == b7
    }) by (bit_vector);
    assert(word(v) =~= s);
}

/// Equal words hold equal values.
pub proof fn lemma_word_injective(a: u64, b: u64)
    requires
        word(a) == word(b),
    ensures
        a == b,
{
    lemma_word_roundtrip(a);
    lemma_word_roundtrip(b);
}

/// Appends the bytes of `b` to `out`.
pub(crate) fn push_bytes(out: &mut Vec<u8>, b: &Vec<u8>)
    ensures
        final(out)@ == old(out)@ + b@,
{
    let mut j: usize = 0;
    while j < b.len()
        invariant
            j <= b@.len(),
            out@ == old(out)@ + b@.subrange(0, j as int),
        decreases b@.len() - j,
    {
        out.push(b[j]);
        proof {
            assert(b@.subrange(0, j + 1) =~= b@.subrange(0, j as int).push(b@[j as int]));
        }
        j = j + 1;
    }
    proof {
        assert(b@.subrange(0, b@.len() as int) =~= b@);
    }
}

/// Appends the 32-byte word of `v` to `out`.
pub(crate) fn push_word(out: &mut Vec<u8>, v: u64)
    ensures
        final(out)@ == old(out)@ + word(v),
{
    let mut j: usize = 0;
    while j < 24
        invariant
            j <= 24,
            out@ == old(out)@ + word(v).subrange(0, j as int),
        decreases 24 - j,
    {
        out.push(0u8);
        proof {
            assert(word(v)[j as int] == 0u8);
            assert(word(v).subrange(0, j + 1) =~= word(v).subrange(0, j as int).push(
                word(v)[j as int],
            ));
        }
        j = j + 1;
    }
    out.push((v >> 56) as u8);
    out.push((v >> 48) as u8);
    out.push((v >> 40) as u8);
    out.push((v >> 32) as u8);
    out.push((v >> 24) as u8);
    out.push((v >> 16) as u8);
    out.push((v >> 8) as u8);
    out.push(v as u8);
    proof {
        assert(out@ =~= old(out)@ + word(v));
    }
}

/// Appends the encoding of one token to `out`.
#[verifier::loop_isolation(false)]
pub fn encode_token(t: &Token, out: &mut Vec<u8>)
    ensures
        final(out)@ == old(out)@ + encoded(tok_v(*t)),
    decreases *t,
{
    match t {
        Token::Uint(b) => push_bytes(out, b),
        Token::Address(b) => push_bytes(out, b),
        Token::FixedBytes(b) => push_bytes(out, b),
        Token::Bytes(b) => {
            push_word(out, b.len() as u64);
            push_bytes(out, b);
            proof {
                assert(out@ =~= old(out)@ + (word(b@.len() as u64) + b@));
            }
        }
        Token::Tuple(ts) => {
            let mut i: usize = 0;
            while i < ts.len()
                invariant
                    i <= ts@.len(),
                    out@ == old(out)@ + encoded_list(toks_v(ts@.subrange(0, i as int))),
                decreases ts@.len() - i,
            {
                proof {
                    assert(decreases_to!(*t => t->Tuple_0));
                    assert(t->Tuple_0 == *ts);
                    assert(decreases_to!(*ts => ts@));
                    assert(decreases_to!(ts@ => ts@[i as int]));
                }
                encode_token(&ts[i], out);
                proof {
                    lemma_toks_v_take_push(ts@, i as int);
                    lemma_encoded_list_push(
                        toks_v(ts@.subrange(0, i as int)),
                        tok_v(ts@[i as int]),
                    );
                }
                i = i + 1;
            }
            proof {
                assert(ts@.subrange(0, ts@.len() as int) =~= ts@);
            }
        }
        Token::Array(ts) => {
            push_word(out, ts.len() as u64);
            let ghost mid = out@;
            let mut i: usize = 0;
            while i < ts.len()
                invariant
                    i <= ts@.len(),
                    mid == old(out)@ + word(ts@.len() as u64),
                    out@ == mid + encoded_list(toks_v(ts@.subrange(0, i as int))),
                decreases ts@.len() - i,
            {
                proof {
                    assert(decreases_to!(*t => t->Array_0));
                    assert(t->Array_0 == *ts);
                    assert(decreases_to!(*ts => ts@));
                    assert(decreases_to!(ts@ => ts@[i as int]));
                }
                encode_token(&ts[i], out);
                proof {
                    lemma_toks_v_take_push(ts@, i as int);
                    lemma_encoded_list_push(
                        toks_v(ts@.subrange(0, i as int)),
                        tok_v(ts@[i as int]),
                    );
                }
                i = i + 1;
            }
            proof {
                assert(ts@.subrange(0, ts@.len() as int) =~= ts@);
                lemma_toks_v_len(ts@);
                assert(out@ =~= old(out)@ + (word(toks_v(ts@).len() as u64) + encoded_list(
                    toks_v(ts@),
                )));
            }
        }
    }
}

/// Produces the argument encoding of a token list: the exact inverse of
/// `decode` for values matching the schema.
pub fn encode(tokens: &Vec<Token>) -> (r: Vec<u8>)
    ensures
        r@ == encoded_list(toks_v(tokens@)),
{
    let mut out: Vec<u8> = Vec::new();
    let mut i: usize = 0;
    while i < tokens.len()
        invariant
            i <= tokens@.len(),
            out@ == encoded_list(toks_v(tokens@.subrange(0, i as int))),
        decreases tokens@.len() - i,
    {
        encode_token(&tokens[i], &mut out);
        proof {
            lemma_toks_v_take_push(tokens@, i as int);
            lemma_encoded_list_push(
                toks_v(tokens@.subrange(0, i as int)),
                tok_v(tokens@[i as int]),
            );
        }
        i = i + 1;
    }
    proof {
        assert(tokens@.subrange(0, tokens@.len() as int) =~= tokens@);
    }
    out
}

/// `tv` matches `k` and its encoding is exactly the bytes of `data` starting
/// at `pos`.
pub open spec fn prefix_parse(tv: TokenV, k: ParamKind, data: Seq<u8>, pos: int) -> bool {
    &&& matches_kind(tv, k)
    &&& 0 <= pos
    &&& pos + encoded(tv).len() <= data.len()
    &&& data.subrange(pos, pos + encoded(tv).len() as int) == encoded(tv)
}

/// `tvs` matches `ks` pointwise and its concatenated encoding is exactly the
/// bytes of `data` starting at `pos`.
pub open spec fn list_prefix_parse(tvs: Seq<TokenV>, ks: Seq<ParamKind>, data: Seq<u8>, pos: int) -> bool {
    &&& tvs.len() == ks.len()
    &&& (forall|i: int| 0 <= i < tvs.len() ==> matches_kind(#[trigger] tvs[i], ks[i]))
    &&& 0 <= pos
    &&& pos + encoded_list(tvs).len() <= data.len()
    &&& data.subrange(pos, pos + encoded_list(tvs).len() as int) == encoded_list(tvs)
}

pub proof fn lemma_encoded_list_split(tvs: Seq<TokenV>, i: int)
    requires
        0 <= i < tvs.len(),
    ensures
        encoded_list(tvs) == encoded_list(tvs.subrange(0, i)) + encoded(tvs[i]) + encoded_list(
            tvs.subrange(i + 1, tvs.len() as int),
        ),
{
    let n = tvs.len() as int;
    assert(tvs =~= tvs.subrange(0, i) + tvs.subrange(i, n));
    lemma_encoded_list_concat(tvs.subrange(0, i), tvs.subrange(i, n));
    assert(tvs.subrange(i, n).subrange(1, n - i) =~= tvs.subrange(i + 1, n));
    assert(tvs.subrange(i, n)[0] == tvs[i]);
    assert(encoded_list(tvs.subrange(i, n)) == encoded(tvs[i]) + encoded_list(
        tvs.subrange(i + 1, n),
    ));
    assert(encoded_list(tvs.subrange(0, i)) + (encoded(tvs[i]) + encoded_list(
        tvs.subrange(i + 1, n),
    )) =~= encoded_list(tvs.subrange(0, i)) + encoded(tvs[i]) + encoded_list(
        tvs.subrange(i + 1, n),
    ));
}

/// If the bytes at `pos` are `a + c + d`, the chunk after `a` is `c`.
proof fn lemma_chunk(data: Seq<u8>, pos: int, whole: Seq<u8>, a: Seq<u8>, c: Seq<u8>, d: Seq<u8>, cur: int)
    requires
        whole == a + c + d,
        0 <= pos,
        pos + whole.len() <= data.len(),
        data.subrange(pos, pos + whole.len() as int) == whole,
        cur == pos + a.len(),
    ensures
        data.subrange(pos, cur) == a,
        data.subrange(cur, cur + c.len()) == c,
{
    assert forall|x: int| 0 <= x < a.len() implies data.subrange(pos, cur)[x] == a[x] by {
        assert(data.subrange(pos, cur)[x] == data[pos + x]);
        assert(data[pos + x] == data.subrange(pos, pos + whole.len() as int)[x]);
        assert(whole[x] == a[x]);
    }
    assert(data.subrange(pos, cur) =~= a);
    assert forall|x: int| 0 <= x < c.len() implies data.subrange(cur, cur + c.len())[x] == c[x] by {
        assert(data.subrange(cur, cur + c.len())[x] == data[cur + x]);
        assert(data[cur + x] == data.subrange(pos, pos + whole.len() as int)[a.len() + x]);
        assert(whole[a.len() + x] == c[x]);
    }
    assert(data.subrange(cur, cur + c.len()) =~= c);
}

/// An array value parsed at `pos` has exactly the element count announced
/// by the word at `pos`, and its element encodings follow that word.
proof fn lemma_array_head(tv: TokenV, k: ParamKind, data: Seq<u8>, pos: int, cnt: u64)
    requires
        prefix_parse(tv, k, data, pos),
        k is Array,
        kind_wf(k),
        data.subrange(pos, pos + 32) == word(cnt),
        data.len() <= u64::MAX,
    ensures
        tv is Array,
        tv->Array_0.len() == cnt,
        encoded_list(tv->Array_0).len() >= tv->Array_0.len(),
        pos + 32 + encoded_list(tv->Array_0).len() <= data.len(),
        data.subrange(pos + 32, pos + 32 + encoded_list(tv->Array_0).len() as int) == encoded_list(
            tv->Array_0,
        ),
        encoded(tv).len() == 32 + encoded_list(tv->Array_0).len(),
{
    let tvs = tv->Array_0;
    let k1 = *k->Array_0;
    assert(matches_kind(tv, k));
    assert(encoded(tv) == word(tvs.len() as u64) + encoded_list(tvs));
    lemma_encoded_list_min_len(tvs, k1);
    assert(encoded(tv) =~= word(tvs.len() as u64) + encoded_list(tvs) + Seq::<u8>::empty());
    lemma_chunk(
        data,
        pos,
        encoded(tv),
        word(tvs.len() as u64),
        encoded_list(tvs),
        Seq::<u8>::empty(),
        pos + 32,
    );
    assert(data.subrange(pos, pos + 32) == word(tvs.len() as u64));
    assert(tvs.len() <= data.len());
    lemma_word_injective(tvs.len() as u64, cnt);
}

/// Reads one 32-byte word at `pos`: the value of its low eight bytes, or
/// nothing if any of the 24 leading pad bytes is non-zero.
fn read_word(data: &[u8], pos: usize) -> (r: Option<u64>)
    requires
        pos + 32 <= data@.len(),
    ensures
        (r matches Some(v) ==> data@.subrange(pos as int, pos + 32) == word(v)),
        ((forall|j: int| pos <= j < pos + 24 ==> data@[j] == 0u8) ==> r is Some),
        (r is None ==> !(forall|j: int| pos <= j < pos + 24 ==> data@[j] == 0u8)),
{
    let n = data.len();
    let w: Vec<u8> = slice_to_vec(slice_subrange(data, pos, pos + 32));
    let mut j: usize = 0;
    let mut all_zero: bool = true;
    while j < 24
        invariant
            j <= 24,
            pos + 32 <= data@.len(),
            w@ == data@.subrange(pos as int, pos + 32),
            all_zero <==> (forall|i: int| 0 <= i < j ==> w@[i] == 0u8),
        decreases 24 - j,
    {
        if w[j] != 0 {
            all_zero = false;
        }
        j = j + 1;
    }
    if !all_zero {
        proof {
            let i = choose|i: int| 0 <= i < 24 && w@[i] != 0u8;
            assert(data@[pos + i] == w@[i]);
        }
        return None;
    }
    let v: u64 = ((w[24] as u64) << 56) | ((w[25] as u64) << 48) | ((w[26] as u64) << 40)
        | ((w[27] as u64) << 32) | ((w[28] as u64) << 24) | ((w[29] as u64) << 16)
        | ((w[30] as u64) << 8) | (w[31] as u64);
    proof {
        let s = w@.subrange(24, 32);
        assert(s[0] == w@[24] && s[1] == w@[25] && s[2] == w@[26] && s[3] == w@[27]
            && s[4] == w@[28] && s[5] == w@[29] && s[6] == w@[30] && s[7] == w@[31]);
        assert(v == be8_val(s));
        lemma_word_of_bytes(w@);
    }
    Some(v)
}

/// Decodes one value of kind `k` at offset `pos`; on success returns the
/// token and the offset one past its encoding. The result is the unique
/// parse: any matching value encoded at `pos` is the one returned.
#[verifier::loop_isolation(false)]
pub fn decode_token(k: &ParamKind, data: &[u8], pos: usize) -> (r: Result<(Token, usize), DecodeError>)
    requires
        pos <= data@.len(),
        kind_wf(*k),
    ensures
        (r matches Ok(p) ==> pos <= p.1 <= data@.len() && prefix_parse(
            tok_v(p.0),
            *k,
            data@,
            pos as int,
        ) && p.1 == pos + encoded(tok_v(p.0)).len()),
        (forall|tv: TokenV| #[trigger] prefix_parse(tv, *k, data@, pos as int) ==> (r matches Ok(p)
            && tok_v(p.0) == tv && p.1 == pos + encoded(tv).len())),
        (r matches Err(e) ==> e == DecodeError::SchemaMismatch),
    decreases *k,
{
    let n = data.len();
    match k {
        ParamKind::Uint(_) => {
            if n - pos < 32 {
                proof {
                    assert forall|tv: TokenV| !prefix_parse(tv, *k, data@, pos as int) by {
                        if matches_kind(tv, *k) {
                            assert(encoded(tv).len() == 32);
                        }
                    }
                }
                Err(DecodeError::SchemaMismatch)
            } else {
                let b = slice_to_vec(slice_subrange(data, pos, pos + 32));
                let t = Token::Uint(b);
                proof {
                    assert(encoded(tok_v(t)) == data@.subrange(pos as int, pos + 32));
                    assert(prefix_parse(tok_v(t), *k, data@, pos as int));
                    assert forall|tv: TokenV| prefix_parse(tv, *k, data@, pos as int)
                        implies tv == tok_v(t) && encoded(tv).len() == 32 by {
                        assert(encoded(tv).len() == 32);
                        assert(encoded(tv) == data@.subrange(pos as int, pos + 32));
                    }
                }
                Ok((t, pos + 32))
            }
        }
        ParamKind::Address => {
            if n - pos < 20 {
                proof {
                    assert forall|tv: TokenV| !prefix_parse(tv, *k, data@, pos as int) by {
                        if matches_kind(tv, *k) {
                            assert(encoded(tv).len() == 20);
                        }
                    }
                }
                Err(DecodeError::SchemaMismatch)
            } else {
                let b = slice_to_vec(slice_subrange(data, pos, pos + 20));
                let t = Token::Address(b);
                proof {
                    assert(encoded(tok_v(t)) == data@.subrange(pos as int, pos + 20));
                    assert(prefix_parse(tok_v(t), *k, data@, pos as int));
                    assert forall|tv: TokenV| prefix_parse(tv, *k, data@, pos as int)
                        implies tv == tok_v(t) && encoded(tv).len() == 20 by {
                        assert(encoded(tv).len() == 20);
                        assert(encoded(tv) == data@.subrange(pos as int, pos + 20));
                    }
                }
                Ok((t, pos + 20))
            }
        }
        ParamKind::FixedBytes(width) => {
            let wd: usize = *width;
            if n - pos < wd {
                proof {
                    assert forall|tv: TokenV| !prefix_parse(tv, *k, data@, pos as int) by {
                        if matches_kind(tv, *k) {
                            assert(encoded(tv).len() == wd);
                        }
                    }
                }
                Err(DecodeError::SchemaMismatch)
            } else {
                let b = slice_to_vec(slice_subrange(data, pos, pos + wd));
                let t = Token::FixedBytes(b);
                proof {
                    assert(encoded(tok_v(t)) == data@.subrange(pos as int, pos + wd));
                    assert(prefix_parse(tok_v(t), *k, data@, pos as int));
                    assert forall|tv: TokenV| prefix_parse(tv, *k, data@, pos as int)
                        implies tv == tok_v(t) && encoded(tv).len() == wd by {
                        assert(encoded(tv).len() == wd);
                        assert(encoded(tv) == data@.subrange(pos as int, pos + wd));
                    }
                }
                Ok((t, pos + wd))
            }
        }
        ParamKind::Bytes => {
            if n - pos < 32 {
                proof {
                    assert forall|tv: TokenV| !prefix_parse(tv, *k, data@, pos as int) by {
                        if matches_kind(tv, *k) {
                            assert(encoded(tv).len() >= 32);
                        }
                    }
                }
                return Err(DecodeError::SchemaMismatch);
            }
            match read_word(data, pos) {
                None => {
                    proof {
                        assert forall|tv: TokenV| !prefix_parse(tv, *k, data@, pos as int) by {
                            if matches_kind(tv, *k) {
                                let bb = tv->Bytes_0;
                                let wl = word(bb.len() as u64);
                                assert(encoded(tv) == wl + bb);
                                if prefix_parse(tv, *k, data@, pos as int) {
                                    assert forall|j: int| pos <= j < pos + 24
                                        implies data@[j] == 0u8 by {
                                        assert(data@[j] == encoded(tv)[j - pos]);
                                        assert(encoded(tv)[j - pos] == wl[j - pos]);
                                        assert(wl[j - pos] == 0u8);
                                    }
                                }
                            }
                        }
                    }
                    Err(DecodeError::SchemaMismatch)
                }
                Some(len_w) => {
                    let rem = n - (pos + 32);
                    if len_w > rem as u64 {
                        proof {
                            assert forall|tv: TokenV| !prefix_parse(tv, *k, data@, pos as int) by {
                                if prefix_parse(tv, *k, data@, pos as int) {
                                    let bb = tv->Bytes_0;
                                    assert(encoded(tv) == word(bb.len() as u64) + bb);
                                    assert(encoded(tv).len() == 32 + bb.len());
                                    assert(bb.len() <= data@.len());
                                    lemma_chunk(
                                        data@,
                                        pos as int,
                                        encoded(tv),
                                        word(bb.len() as u64),
                                        bb,
                                        Seq::<u8>::empty(),
                                        pos + 32,
                                    );
                                    assert(word(bb.len() as u64) + bb + Seq::<u8>::empty()
                                        =~= word(bb.len() as u64) + bb);
                                    assert(data@.subrange(pos as int, pos + 32) == word(
                                        bb.len() as u64,
                                    ));
                                    lemma_word_injective(bb.len() as u64, len_w);
                                    assert(bb.len() == len_w);
                                }
                            }
                        }
                        return Err(DecodeError::SchemaMismatch);
                    }
                    let len: usize = len_w as usize;
                    let b = slice_to_vec(slice_subrange(data, pos + 32, pos + 32 + len));
                    let t = Token::Bytes(b);
                    proof {
                        assert(tok_v(t)->Bytes_0 =~= data@.subrange(pos + 32, pos + 32 + len));
                        assert(encoded(tok_v(t)) == word(len_w) + data@.subrange(
                            pos + 32,
                            pos + 32 + len,
                        ));
                        assert(data@.subrange(pos as int, pos + 32 + len) =~= data@.subrange(
                            pos as int,
                            pos + 32,
                        ) + data@.subrange(pos + 32, pos + 32 + len));
                        assert(prefix_parse(tok_v(t), *k, data@, pos as int));
                        assert forall|tv: TokenV| prefix_parse(tv, *k, data@, pos as int)
                            implies tv == tok_v(t) && encoded(tv).len() == 32 + len by {
                            let bb = tv->Bytes_0;
                            assert(encoded(tv) == word(bb.len() as u64) + bb);
                            assert(bb.len() <= data@.len());
                            lemma_chunk(
                                data@,
                                pos as int,
                                encoded(tv),
                                word(bb.len() as u64),
                                bb,
                                Seq::<u8>::empty(),
                                pos + 32,
                            );
                            assert(word(bb.len() as u64) + bb + Seq::<u8>::empty()
                                =~= word(bb.len() as u64) + bb);
                            assert(data@.subrange(pos as int, pos + 32) == word(bb.len() as u64));
                            lemma_word_injective(bb.len() as u64, len_w);
                            assert(bb.len() == len_w);
                            assert(bb == data@.subrange(pos + 32, pos + 32 + len));
                        }
                    }
                    Ok((t, pos + 32 + len))
                }
            }
        }
        ParamKind::Tuple(ks) => {
            proof {
                assert(decreases_to!(*k => k->Tuple_0));
                assert(k->Tuple_0 == *ks);
            }
            match decode_list(ks, data, pos) {
                Err(e) => {
                    proof {
                        assert forall|tv: TokenV| !prefix_parse(tv, *k, data@, pos as int) by {
                            if prefix_parse(tv, *k, data@, pos as int) {
                                let tvs = tv->Tuple_0;
                                assert(encoded(tv) == encoded_list(tvs));
                                assert(list_prefix_parse(tvs, ks@, data@, pos as int));
                            }
                        }
                    }
                    Err(e)
                }
                Ok((ts, end)) => {
                    let t = Token::Tuple(ts);
                    proof {
                        assert(prefix_parse(tok_v(t), *k, data@, pos as int));
                        assert forall|tv: TokenV| prefix_parse(tv, *k, data@, pos as int)
                            implies tv == tok_v(t) && pos + encoded(tv).len() == end by {
                            let tvs = tv->Tuple_0;
                            assert(encoded(tv) == encoded_list(tvs));
                            assert(list_prefix_parse(tvs, ks@, data@, pos as int));
                        }
                    }
                    Ok((t, end))
                }
            }
        }
        ParamKind::Array(elem) => {
            if n - pos < 32 {
                proof {
                    assert forall|tv: TokenV| !prefix_parse(tv, *k, data@, pos as int) by {
                        if matches_kind(tv, *k) {
                            assert(encoded(tv).len() >= 32);
                        }
                    }
                }
                return Err(DecodeError::SchemaMismatch);
            }
            match read_word(data, pos) {
                None => {
                    proof {
                        assert forall|tv: TokenV| !prefix_parse(tv, *k, data@, pos as int) by {
                            if prefix_parse(tv, *k, data@, pos as int) {
                                let tvs = tv->Array_0;
                                let wl = word(tvs.len() as u64);
                                assert(encoded(tv) == wl + encoded_list(tvs));
                                assert forall|j: int| pos <= j < pos + 24
                                    implies data@[j] == 0u8 by {
                                    assert(data@[j] == encoded(tv)[j - pos]);
                                    assert(encoded(tv)[j - pos] == wl[j - pos]);
                                    assert(wl[j - pos] == 0u8);
                                }
                            }
                        }
                    }
                    Err(DecodeError::SchemaMismatch)
                }
                Some(cnt_w) => {
                    let rem = n - (pos + 32);
                    if cnt_w > rem as u64 {
                        proof {
                            assert forall|tv: TokenV| !prefix_parse(tv, *k, data@, pos as int) by {
                                if prefix_parse(tv, *k, data@, pos as int) {
                                    let tvs = tv->Array_0;
                                    lemma_encoded_list_min_len(tvs, **elem);
                                    assert(tvs.len() <= encoded_list(tvs).len());
                                    assert(encoded_list(tvs).len() <= data@.len());
                                    lemma_chunk(
                                        data@,
                                        pos as int,
                                        encoded(tv),
                                        word(tvs.len() as u64),
                                        encoded_list(tvs),
                                        Seq::<u8>::empty(),
                                        pos + 32,
                                    );
                                    assert(word(tvs.len() as u64) + encoded_list(tvs)
                                        + Seq::<u8>::empty() =~= word(tvs.len() as u64)
                                        + encoded_list(tvs));
                                    assert(data@.subrange(pos as int, pos + 32) == word(
                                        tvs.len() as u64,
                                    ));
                                    lemma_word_injective(tvs.len() as u64, cnt_w);
                                    assert(tvs.len() == cnt_w);
                                }
                            }
                        }
                        return Err(DecodeError::SchemaMismatch);
                    }
                    let cnt: usize = cnt_w as usize;
                    let mut toks: Vec<Token> = Vec::new();
                    let mut cur: usize = pos + 32;
                    let mut i: usize = 0;
                    proof {
                        assert(data@.subrange(pos + 32, pos + 32) =~= Seq::<u8>::empty());
                        assert(toks_v(Seq::<Token>::empty()) =~= Seq::<TokenV>::empty());
                        assert forall|tv: TokenV| #[trigger] prefix_parse(
                            tv,
                            *k,
                            data@,
                            pos as int,
                        ) implies tv->Array_0.len() == cnt && tv->Array_0.subrange(0, 0)
                            == toks_v(Seq::<Token>::empty()) by {
                            lemma_array_head(tv, *k, data@, pos as int, cnt_w);
                            assert(tv->Array_0.subrange(0, 0) =~= Seq::<TokenV>::empty());
                        }
                    }
                    while i < cnt
                        invariant
                            i <= cnt,
                            pos + 32 <= cur <= data@.len(),
                            toks@.len() == i,
                            toks_v(toks@).len() == i,
                            forall|j: int| 0 <= j < i ==> matches_kind(
                                #[trigger] toks_v(toks@)[j],
                                **elem,
                            ),
                            encoded_list(toks_v(toks@)) == data@.subrange(pos + 32, cur as int),
                            forall|tv: TokenV| #[trigger] prefix_parse(tv, *k, data@, pos as int)
                                ==> tv->Array_0.len() == cnt && tv->Array_0.subrange(0, i as int)
                                == toks_v(toks@),
                        decreases cnt - i,
                    {
                        proof {
                            assert(decreases_to!(*k => k->Array_0));
                            assert(k->Array_0 == *elem);
                        }
                        match decode_token(elem, data, cur) {
                            Err(_) => {
                                proof {
                                    assert forall|tv: TokenV| !prefix_parse(
                                        tv,
                                        *k,
                                        data@,
                                        pos as int,
                                    ) by {
                                        if prefix_parse(tv, *k, data@, pos as int) {
                                            let tvs = tv->Array_0;
                                            lemma_array_head(tv, *k, data@, pos as int, cnt_w);
                                            lemma_encoded_list_split(tvs, i as int);
                                            assert(tvs.subrange(0, i as int) == toks_v(toks@));
                                            lemma_chunk(
                                                data@,
                                                pos + 32,
                                                encoded_list(tvs),
                                                encoded_list(tvs.subrange(0, i as int)),
                                                encoded(tvs[i as int]),
                                                encoded_list(
                                                    tvs.subrange(i + 1, tvs.len() as int),
                                                ),
                                                cur as int,
                                            );
                                            assert(prefix_parse(
                                                tvs[i as int],
                                                **elem,
                                                data@,
                                                cur as int,
                                            ));
                                        }
                                    }
                                }
                                return Err(DecodeError::SchemaMismatch);
                            }
                            Ok((t, end)) => {
                                proof {
                                    lemma_toks_v_take_push(toks@.push(t), i as int);
                                    assert(toks@.push(t).subrange(0, i as int) =~= toks@);
                                    assert(toks@.push(t).subrange(0, i + 1) =~= toks@.push(t));
                                    lemma_encoded_list_push(toks_v(toks@), tok_v(t));
                                    assert(data@.subrange(pos + 32, end as int) =~= data@.subrange(
                                        pos + 32,
                                        cur as int,
                                    ) + data@.subrange(cur as int, end as int));
                                    assert forall|tv: TokenV| prefix_parse(
                                        tv,
                                        *k,
                                        data@,
                                        pos as int,
                                    ) implies tv->Array_0.subrange(0, i + 1) == toks_v(
                                        toks@.push(t),
                                    ) by {
                                        let tvs = tv->Array_0;
                                        lemma_array_head(tv, *k, data@, pos as int, cnt_w);
                                        lemma_encoded_list_split(tvs, i as int);
                                        assert(tvs.subrange(0, i as int) == toks_v(toks@));
                                        lemma_chunk(
                                            data@,
                                            pos + 32,
                                            encoded_list(tvs),
                                            encoded_list(tvs.subrange(0, i as int)),
                                            encoded(tvs[i as int]),
                                            encoded_list(tvs.subrange(i + 1, tvs.len() as int)),
                                            cur as int,
                                        );
                                        assert(prefix_parse(tvs[i as int], **elem, data@, cur as int));
                                        assert(tok_v(t) == tvs[i as int]);
                                        assert(tvs.subrange(0, i + 1) =~= tvs.subrange(
                                            0,
                                            i as int,
                                        ).push(tvs[i as int]));
                                    }
                                }
                                toks.push(t);
                                cur = end;
                            }
                        }
                        i = i + 1;
                    }
                    let t = Token::Array(toks);
                    proof {
                        let tvr = tok_v(t);
                        assert(tvr->Array_0 == toks_v(toks@));
                        assert(toks_v(toks@).len() == cnt);
                        assert(encoded(tvr) == word(cnt_w) + encoded_list(toks_v(toks@)));
                        assert(data@.subrange(pos as int, cur as int) =~= data@.subrange(
                            pos as int,
                            pos + 32,
                        ) + data@.subrange(pos + 32, cur as int));
                        assert(prefix_parse(tvr, *k, data@, pos as int));
                        assert forall|tv: TokenV| prefix_parse(tv, *k, data@, pos as int)
                            implies tv == tvr && pos + encoded(tv).len() == cur by {
                            let tvs = tv->Array_0;
                            assert(tvs.len() == cnt);
                            assert(tvs.subrange(0, cnt as int) =~= tvs);
                            assert(tvs == toks_v(toks@));
                            assert(encoded(tv) == word(tvs.len() as u64) + encoded_list(tvs));
                        }
                    }
                    Ok((t, cur))
                }
            }
        }
    }
}

/// Decodes one value for each kind of `ks`, consecutively from `pos`.
#[verifier::loop_isolation(false)]
pub fn decode_list(ks: &Vec<ParamKind>, data: &[u8], pos: usize) -> (r: Result<
    (Vec<Token>, usize),
    DecodeError,
>)
    requires
        pos <= data@.len(),
        forall|i: int| 0 <= i < ks@.len() ==> kind_wf(#[trigger] ks@[i]),
    ensures
        (r matches Ok(p) ==> pos <= p.1 <= data@.len() && list_prefix_parse(
            toks_v(p.0@),
            ks@,
            data@,
            pos as int,
        ) && p.1 == pos + encoded_list(toks_v(p.0@)).len() && p.0@.len() == ks@.len()),
        (forall|tvs: Seq<TokenV>| #[trigger] list_prefix_parse(tvs, ks@, data@, pos as int)
            ==> (r matches Ok(p) && toks_v(p.0@) == tvs && p.1 == pos + encoded_list(tvs).len())),
        (r matches Err(e) ==> e == DecodeError::SchemaMismatch),
    decreases *ks,
{
    let mut toks: Vec<Token> = Vec::new();
    let mut cur: usize = pos;
    let mut i: usize = 0;
    while i < ks.len()
        invariant
            i <= ks@.len(),
            pos <= cur <= data@.len(),
            toks@.len() == i,
            toks_v(toks@).len() == i,
            forall|j: int| 0 <= j < i ==> matches_kind(#[trigger] toks_v(toks@)[j], ks@[j]),
            encoded_list(toks_v(toks@)) == data@.subrange(pos as int, cur as int),
            forall|tvs: Seq<TokenV>| #[trigger] list_prefix_parse(tvs, ks@, data@, pos as int)
                ==> tvs.subrange(0, i as int) == toks_v(toks@),
        decreases ks@.len() - i,
    {
        proof {
            assert(decreases_to!(*ks => ks@));
            assert(decreases_to!(ks@ => ks@[i as int]));
        }
        match decode_token(&ks[i], data, cur) {
            Err(_) => {
                proof {
                    assert forall|tvs: Seq<TokenV>| !list_prefix_parse(
                        tvs,
                        ks@,
                        data@,
                        pos as int,
                    ) by {
                        if list_prefix_parse(tvs, ks@, data@, pos as int) {
                            lemma_encoded_list_split(tvs, i as int);
                            assert(tvs.subrange(0, i as int) == toks_v(toks@));
                            lemma_chunk(
                                data@,
                                pos as int,
                                encoded_list(tvs),
                                encoded_list(tvs.subrange(0, i as int)),
                                encoded(tvs[i as int]),
                                encoded_list(tvs.subrange(i + 1, tvs.len() as int)),
                                cur as int,
                            );
                            assert(prefix_parse(tvs[i as int], ks@[i as int], data@, cur as int));
                        }
                    }
                }
                return Err(DecodeError::SchemaMismatch);
            }
            Ok((t, end)) => {
                proof {
                    lemma_toks_v_take_push(toks@.push(t), i as int);
                    assert(toks@.push(t).subrange(0, i as int) =~= toks@);
                    assert(toks@.push(t).subrange(0, i + 1) =~= toks@.push(t));
                    lemma_encoded_list_push(toks_v(toks@), tok_v(t));
                    assert(data@.subrange(pos as int, end as int) =~= data@.subrange(
                        pos as int,
                        cur as int,
                    ) + data@.subrange(cur as int, end as int));
                    assert forall|tvs: Seq<TokenV>| list_prefix_parse(tvs, ks@, data@, pos as int)
                        implies tvs.subrange(0, i + 1) == toks_v(toks@.push(t)) by {
                        lemma_encoded_list_split(tvs, i as int);
                        assert(tvs.subrange(0, i as int) == toks_v(toks@));
                        lemma_chunk(
                            data@,
                            pos as int,
                            encoded_list(tvs),
                            encoded_list(tvs.subrange(0, i as int)),
                            encoded(tvs[i as int]),
                            encoded_list(tvs.subrange(i + 1, tvs.len() as int)),
                            cur as int,
                        );
                        assert(prefix_parse(tvs[i as int], ks@[i as int], data@, cur as int));
                        assert(tok_v(t) == tvs[i as int]);
                        assert(tvs.subrange(0, i + 1) =~= tvs.subrange(0, i as int).push(
                            tvs[i as int],
                        ));
                    }
                }
                toks.push(t);
                cur = end;
            }
        }
        i = i + 1;
    }
    proof {
        assert forall|tvs: Seq<TokenV>| list_prefix_parse(tvs, ks@, data@, pos as int)
            implies tvs == toks_v(toks@) && pos + encoded_list(tvs).len() == cur by {
            assert(tvs.subrange(0, tvs.len() as int) =~= tvs);
        }
    }
    Ok((toks, cur))
}

/// The 32-byte word of `v` as a fresh vector.
pub fn word_vec(v: u64) -> (r: Vec<u8>)
    ensures
        r@ == word(v),
{
    let mut out: Vec<u8> = Vec::new();
    push_word(&mut out, v);
    proof {
        assert(Seq::<u8>::empty() + word(v) =~= word(v));
    }
    out
}

/// Reads a `u64` out of a full 32-byte word: succeeds exactly when the bytes
/// are the word of some value, and then returns that value.
pub fn u64_of_word_bytes(b: &Vec<u8>) -> (r: Option<u64>)
    ensures
        (r matches Some(v) ==> b@ == word(v)),
        (forall|v: u64| b@ == word(v) ==> r == Some(v)),
{
    if b.len() != 32 {
        return None;
    }
    let r = read_word(b.as_slice(), 0);
    proof {
        assert(b@.subrange(0, 32) =~= b@);
        if r is None {
            assert forall|v: u64| b@ != word(v) by {
                if b@ == word(v) {
                    lemma_word_roundtrip(v);
                    assert(forall|j: int| 0 <= j < 24 ==> b@[j] == 0u8);
                }
            }
        } else {
            let v0 = r->0;
            assert(b@ == word(v0));
            assert forall|v: u64| b@ == word(v) implies r == Some(v) by {
                lemma_word_injective(v, v0);
            }
        }
    }
    r
}

/// All value sequences matching `ks` whose encoding is exactly `data`.
pub open spec fn whole_parse(tvs: Seq<TokenV>, ks: Seq<ParamKind>, data: Seq<u8>) -> bool {
    &&& tvs.len() == ks.len()
    &&& (forall|i: int| 0 <= i < tvs.len() ==> matches_kind(#[trigger] tvs[i], ks[i]))
    &&& encoded_list(tvs) == data
}

/// Decodes `data` against the schema `kinds`.
///
/// Succeeds exactly when the buffer is one complete encoding of a value list
/// matching the schema, and then returns that unique list: together with
/// `encode` this is the round-trip contract, and any arity or shape mismatch
/// (including trailing bytes) is a `SchemaMismatch`.
pub fn decode(kinds: &Vec<ParamKind>, data: &[u8]) -> (r: Result<Vec<Token>, DecodeError>)
    requires
        forall|i: int| 0 <= i < kinds@.len() ==> kind_wf(#[trigger] kinds@[i]),
    ensures
        (r matches Ok(ts) ==> whole_parse(toks_v(ts@), kinds@, data@) && ts@.len()
            == kinds@.len()),
        (forall|tvs: Seq<TokenV>| #[trigger] whole_parse(tvs, kinds@, data@) ==> (r matches Ok(ts)
            && toks_v(ts@) == tvs)),
        (r matches Err(e) ==> e == DecodeError::SchemaMismatch),
{
    proof {
        assert forall|tvs: Seq<TokenV>| whole_parse(tvs, kinds@, data@) implies list_prefix_parse(
            tvs,
            kinds@,
            data@,
            0,
        ) by {
            assert(data@.subrange(0, data@.len() as int) =~= data@);
        }
    }
    match decode_list(kinds, data, 0) {
        Err(e) => Err(e),
        Ok((ts, end)) => {
            if end != data.len() {
                proof {
                    assert forall|tvs: Seq<TokenV>| !whole_parse(tvs, kinds@, data@) by {
                        if whole_parse(tvs, kinds@, data@) {
                            assert(list_prefix_parse(tvs, kinds@, data@, 0));
                        }
                    }
                }
                Err(DecodeError::SchemaMismatch)
            } else {
                proof {
                    assert(data@.subrange(0, data@.len() as int) =~= data@);
                    assert(whole_parse(toks_v(ts@), kinds@, data@));
                }
                Ok(ts)
            }
        }
    }
}

/// Deep-copies one token.
#[verifier::loop_isolation(false)]
pub fn clone_token(t: &Token) -> (r: Token)
    ensures
        tok_v(r) == tok_v(*t),
    decreases *t,
{
    match t {
        Token::Uint(b) => Token::Uint(slice_to_vec(b.as_slice())),
        Token::Address(b) => Token::Address(slice_to_vec(b.as_slice())),
        Token::FixedBytes(b) => Token::FixedBytes(slice_to_vec(b.as_slice())),
        Token::Bytes(b) => Token::Bytes(slice_to_vec(b.as_slice())),
        Token::Tuple(ts) => {
            proof {
                lemma_toks_v_len(ts@);
            }
            let mut out: Vec<Token> = Vec::new();
            let mut i: usize = 0;
            while i < ts.len()
                invariant
                    i <= ts@.len(),
                    out@.len() == i,
                    toks_v(ts@).len() == ts@.len(),
                    toks_v(out@) == toks_v(ts@).subrange(0, i as int),
                decreases ts@.len() - i,
            {
                proof {
                    assert(decreases_to!(*t => t->Tuple_0));
                    assert(t->Tuple_0 == *ts);
                    assert(decreases_to!(*ts => ts@));
                    assert(decreases_to!(ts@ => ts@[i as int]));
                }
                let c = clone_token(&ts[i]);
                proof {
                    lemma_toks_v_take_push(out@.push(c), i as int);
                    assert(out@.push(c).subrange(0, i as int) =~= out@);
                    assert(out@.push(c).subrange(0, i + 1) =~= out@.push(c));
                    lemma_toks_v_index(ts@, i as int);
                    assert(toks_v(ts@).subrange(0, i + 1) =~= toks_v(ts@).subrange(
                        0,
                        i as int,
                    ).push(toks_v(ts@)[i as int]));
                }
                out.push(c);
                i = i + 1;
            }
            proof {
                lemma_toks_v_len(ts@);
                assert(toks_v(ts@).subrange(0, ts@.len() as int) =~= toks_v(ts@));
            }
            Token::Tuple(out)
        }
        Token::Array(ts) => {
            proof {
                lemma_toks_v_len(ts@);
            }
            let mut out: Vec<Token> = Vec::new();
            let mut i: usize = 0;
            while i < ts.len()
                invariant
                    i <= ts@.len(),
                    out@.len() == i,
                    toks_v(ts@).len() == ts@.len(),
                    toks_v(out@) == toks_v(ts@).subrange(0, i as int),
                decreases ts@.len() - i,
            {
                proof {
                    assert(decreases_to!(*t => t->Array_0));
                    assert(t->Array_0 == *ts);
                    assert(decreases_to!(*ts => ts@));
                    assert(decreases_to!(ts@ => ts@[i as int]));
                }
                let c = clone_token(&ts[i]);
                proof {
                    lemma_toks_v_take_push(out@.push(c), i as int);
                    assert(out@.push(c).subrange(0, i as int) =~= out@);
                    assert(out@.push(c).subrange(0, i + 1) =~= out@.push(c));
                    lemma_toks_v_index(ts@, i as int);
                    assert(toks_v(ts@).subrange(0, i + 1) =~= toks_v(ts@).subrange(
                        0,
                        i as int,
                    ).push(toks_v(ts@)[i as int]));
                }
                out.push(c);
                i = i + 1;
            }
            proof {
                lemma_toks_v_len(ts@);
                assert(toks_v(ts@).subrange(0, ts@.len() as int) =~= toks_v(ts@));
            }
            Token::Array(out)
        }
    }
}

/// Deep-copies a token list.
pub fn clone_tokens(ts: &Vec<Token>) -> (r: Vec<Token>)
    ensures
        toks_v(r@) == toks_v(ts@),
{
    proof {
        lemma_toks_v_len(ts@);
    }
    let mut out: Vec<Token> = Vec::new();
    let mut i: usize = 0;
    while i < ts.len()
        invariant
            i <= ts@.len(),
            out@.len() == i,
            toks_v(ts@).len() == ts@.len(),
            toks_v(out@) == toks_v(ts@).subrange(0, i as int),
        decreases ts@.len() - i,
    {
        let c = clone_token(&ts[i]);
        proof {
            lemma_toks_v_take_push(out@.push(c), i as int);
            assert(out@.push(c).subrange(0, i as int) =~= out@);
            assert(out@.push(c).subrange(0, i + 1) =~= out@.push(c));
            lemma_toks_v_index(ts@, i as int);
            assert(toks_v(ts@).subrange(0, i + 1) =~= toks_v(ts@).subrange(0, i as int).push(
                toks_v(ts@)[i as int],
            ));
        }
        out.push(c);
        i = i + 1;
    }
    proof {
        assert(toks_v(ts@).subrange(0, ts@.len() as int) =~= toks_v(ts@));
    }
    out
}

/// Heads of two parses of the same buffer agree; inductive worker for the
/// round-trip law.
proof fn lemma_prefix_inj(t1: TokenV, t2: TokenV, k: ParamKind, bytes: Seq<u8>)
    requires
        bytes.len() <= u64::MAX,
        kind_wf(k),
        matches_kind(t1, k),
        matches_kind(t2, k),
        encoded(t1).len() <= bytes.len(),
        encoded(t2).len() <= bytes.len(),
        bytes.subrange(0, encoded(t1).len() as int) == encoded(t1),
        bytes.subrange(0, encoded(t2).len() as int) == encoded(t2),
    ensures
        t1 == t2,
    decreases t1,
{
    match k {
        ParamKind::Uint(_) => {
            assert(encoded(t1) == bytes.subrange(0, 32));
            assert(encoded(t2) == bytes.subrange(0, 32));
        }
        ParamKind::Address => {
            assert(encoded(t1) == bytes.subrange(0, 20));
            assert(encoded(t2) == bytes.subrange(0, 20));
        }
        ParamKind::FixedBytes(n) => {
            assert(encoded(t1) == bytes.subrange(0, n as int));
            assert(encoded(t2) == bytes.subrange(0, n as int));
        }
        ParamKind::Bytes => {
            let b1 = t1->Bytes_0;
            let b2 = t2->Bytes_0;
            assert(encoded(t1) =~= word(b1.len() as u64) + b1 + Seq::<u8>::empty());
            assert(encoded(t2) =~= word(b2.len() as u64) + b2 + Seq::<u8>::empty());
            lemma_chunk(bytes, 0, encoded(t1), word(b1.len() as u64), b1, Seq::<u8>::empty(), 32);
            lemma_chunk(bytes, 0, encoded(t2), word(b2.len() as u64), b2, Seq::<u8>::empty(), 32);
            assert(word(b1.len() as u64) == word(b2.len() as u64));
            lemma_word_injective(b1.len() as u64, b2.len() as u64);
            assert(b1.len() == b2.len());
            assert(b1 == bytes.subrange(32, 32 + b1.len() as int));
        }
        ParamKind::Tuple(ks) => {
            lemma_list_inj(t1->Tuple_0, t2->Tuple_0, ks@, bytes);
        }
        ParamKind::Array(k1) => {
            let ts1 = t1->Array_0;
            let ts2 = t2->Array_0;
            lemma_encoded_list_min_len(ts1, *k1);
            lemma_encoded_list_min_len(ts2, *k1);
            assert(encoded(t1) =~= word(ts1.len() as u64) + encoded_list(ts1)
                + Seq::<u8>::empty());
            assert(encoded(t2) =~= word(ts2.len() as u64) + encoded_list(ts2)
                + Seq::<u8>::empty());
            lemma_chunk(
                bytes,
                0,
                encoded(t1),
                word(ts1.len() as u64),
                encoded_list(ts1),
                Seq::<u8>::empty(),
                32,
            );
            lemma_chunk(
                bytes,
                0,
                encoded(t2),
                word(ts2.len() as u64),
                encoded_list(ts2),
                Seq::<u8>::empty(),
                32,
            );
            assert(word(ts1.len() as u64) == word(ts2.len() as u64));
            lemma_word_injective(ts1.len() as u64, ts2.len() as u64);
            assert(ts1.len() == ts2.len());
            let tail = bytes.subrange(32, bytes.len() as int);
            assert(tail.subrange(0, encoded_list(ts1).len() as int) =~= bytes.subrange(
                32,
                32 + encoded_list(ts1).len() as int,
            ));
            assert(tail.subrange(0, encoded_list(ts2).len() as int) =~= bytes.subrange(
                32,
                32 + encoded_list(ts2).len() as int,
            ));
            lemma_homo_list_inj(ts1, ts2, *k1, tail);
        }
    }
}

/// Pointwise agreement of two tuple parses; inductive worker.
proof fn lemma_list_inj(ts1: Seq<TokenV>, ts2: Seq<TokenV>, ks: Seq<ParamKind>, bytes: Seq<u8>)
    requires
        bytes.len() <= u64::MAX,
        forall|i: int| 0 <= i < ks.len() ==> kind_wf(#[trigger] ks[i]),
        ts1.len() == ks.len(),
        ts2.len() == ks.len(),
        forall|i: int| 0 <= i < ks.len() ==> matches_kind(#[trigger] ts1[i], ks[i]),
        forall|i: int| 0 <= i < ks.len() ==> matches_kind(#[trigger] ts2[i], ks[i]),
        encoded_list(ts1).len() <= bytes.len(),
        encoded_list(ts2).len() <= bytes.len(),
        bytes.subrange(0, encoded_list(ts1).len() as int) == encoded_list(ts1),
        bytes.subrange(0, encoded_list(ts2).len() as int) == encoded_list(ts2),
    ensures
        ts1 == ts2,
    decreases ts1,
{
    if ks.len() == 0 {
        assert(ts1 =~= ts2);
    } else {
        let n1 = ts1.len() as int;
        let n2 = ts2.len() as int;
        let r1 = ts1.subrange(1, n1);
        let r2 = ts2.subrange(1, n2);
        assert(encoded_list(ts1) == encoded(ts1[0]) + encoded_list(r1));
        assert(encoded_list(ts2) == encoded(ts2[0]) + encoded_list(r2));
        assert(encoded(ts1[0]) + encoded_list(r1) =~= encoded(ts1[0]) + encoded_list(r1)
            + Seq::<u8>::empty());
        assert(encoded(ts2[0]) + encoded_list(r2) =~= encoded(ts2[0]) + encoded_list(r2)
            + Seq::<u8>::empty());
        lemma_chunk(
            bytes,
            0,
            encoded_list(ts1),
            encoded(ts1[0]),
            encoded_list(r1),
            Seq::<u8>::empty(),
            encoded(ts1[0]).len() as int,
        );
        lemma_chunk(
            bytes,
            0,
            encoded_list(ts2),
            encoded(ts2[0]),
            encoded_list(r2),
            Seq::<u8>::empty(),
            encoded(ts2[0]).len() as int,
        );
        lemma_prefix_inj(ts1[0], ts2[0], ks[0], bytes);
        let h = encoded(ts1[0]).len() as int;
        let tail = bytes.subrange(h, bytes.len() as int);
        assert(tail.subrange(0, encoded_list(r1).len() as int) =~= bytes.subrange(
            h,
            h + encoded_list(r1).len() as int,
        ));
        assert(tail.subrange(0, encoded_list(r2).len() as int) =~= bytes.subrange(
            h,
            h + encoded_list(r2).len() as int,
        ));
        let kr = ks.subrange(1, ks.len() as int);
        assert(forall|i: int| 0 <= i < kr.len() ==> kind_wf(#[trigger] kr[i]));
        assert(forall|i: int| 0 <= i < kr.len() ==> matches_kind(#[trigger] r1[i], kr[i]));
        assert(forall|i: int| 0 <= i < kr.len() ==> matches_kind(#[trigger] r2[i], kr[i]));
        lemma_list_inj(r1, r2, kr, tail);
        assert forall|i: int| 0 <= i < ts1.len() implies ts1[i] == ts2[i] by {
            if i > 0 {
                assert(r1[i - 1] == r2[i - 1]);
                assert(ts1[i] == r1[i - 1]);
                assert(ts2[i] == r2[i - 1]);
            }
        }
        assert(ts1 =~= ts2);
    }
}

/// Pointwise agreement of two array-element parses; inductive worker.
proof fn lemma_homo_list_inj(ts1: Seq<TokenV>, ts2: Seq<TokenV>, k1: ParamKind, bytes: Seq<u8>)
    requires
        bytes.len() <= u64::MAX,
        kind_wf(k1),
        ts1.len() == ts2.len(),
        forall|i: int| 0 <= i < ts1.len() ==> matches_kind(#[trigger] ts1[i], k1),
        forall|i: int| 0 <= i < ts2.len() ==> matches_kind(#[trigger] ts2[i], k1),
        encoded_list(ts1).len() <= bytes.len(),
        encoded_list(ts2).len() <= bytes.len(),
        bytes.subrange(0, encoded_list(ts1).len() as int) == encoded_list(ts1),
        bytes.subrange(0, encoded_list(ts2).len() as int) == encoded_list(ts2),
    ensures
        ts1 == ts2,
    decreases ts1,
{
    if ts1.len() == 0 {
        assert(ts1 =~= ts2);
    } else {
        let n1 = ts1.len() as int;
        let r1 = ts1.subrange(1, n1);
        let r2 = ts2.subrange(1, n1);
        assert(encoded_list(ts1) == encoded(ts1[0]) + encoded_list(r1));
        assert(encoded_list(ts2) == encoded(ts2[0]) + encoded_list(r2));
        assert(encoded(ts1[0]) + encoded_list(r1) =~= encoded(ts1[0]) + encoded_list(r1)
            + Seq::<u8>::empty());
        assert(encoded(ts2[0]) + encoded_list(r2) =~= encoded(ts2[0]) + encoded_list(r2)
            + Seq::<u8>::empty());
        lemma_chunk(
            bytes,
            0,
            encoded_list(ts1),
            encoded(ts1[0]),
            encoded_list(r1),
            Seq::<u8>::empty(),
            encoded(ts1[0]).len() as int,
        );
        lemma_chunk(
            bytes,
            0,
            encoded_list(ts2),
            encoded(ts2[0]),
            encoded_list(r2),
            Seq::<u8>::empty(),
            encoded(ts2[0]).len() as int,
        );
        lemma_prefix_inj(ts1[0], ts2[0], k1, bytes);
        let h = encoded(ts1[0]).len() as int;
        let tail = bytes.subrange(h, bytes.len() as int);
        assert(tail.subrange(0, encoded_list(r1).len() as int) =~= bytes.subrange(
            h,
            h + encoded_list(r1).len() as int,
        ));
        assert(tail.subrange(0, encoded_list(r2).len() as int) =~= bytes.subrange(
            h,
            h + encoded_list(r2).len() as int,
        ));
        assert(forall|i: int| 0 <= i < r1.len() ==> matches_kind(#[trigger] r1[i], k1));
        assert(forall|i: int| 0 <= i < r2.len() ==> matches_kind(#[trigger] r2[i], k1));
        lemma_homo_list_inj(r1, r2, k1, tail);
        assert forall|i: int| 0 <= i < ts1.len() implies ts1[i] == ts2[i] by {
            if i > 0 {
                assert(r1[i - 1] == r2[i - 1]);
                assert(ts1[i] == r1[i - 1]);
                assert(ts2[i] == r2[i - 1]);
            }
        }
        assert(ts1 =~= ts2);
    }
}

/// Round-trip law: for one well-formed schema, a buffer is the encoding of
/// at most one matching value list, so decoding an encoding returns exactly
/// the values that were encoded.
pub proof fn lemma_round_trip(
    tvs1: Seq<TokenV>,
    tvs2: Seq<TokenV>,
    ks: Seq<ParamKind>,
    data: Seq<u8>,
)
    requires
        data.len() <= u64::MAX,
        forall|i: int| 0 <= i < ks.len() ==> kind_wf(#[trigger] ks[i]),
        whole_parse(tvs1, ks, data),
        whole_parse(tvs2, ks, data),
    ensures
        tvs1 == tvs2,
{
    assert(data.subrange(0, data.len() as int) =~= data);
    lemma_list_inj(tvs1, tvs2, ks, data);
}

} // verus!
