//! Typed views of the domain records on the wire, and the two-stage
//! decoders that rebuild records from raw gateway response buffers.
//!
//! Every decoder's contract is exact: it succeeds precisely when the buffer
//! (or token list) is the encoding of a record, and then returns that
//! record.

use vstd::prelude::*;
use vstd::slice::slice_to_vec;

use crate::codec::{
    decode, kind_wf, lemma_toks_v_index, lemma_toks_v_len, matches_kind, tok_v, toks_v, word,
    encoded_list, u64_of_word_bytes, lemma_word_injective, ParamKind, Token, TokenV,
};
use crate::types::{ChainRequestError, ChainRequestResult, QpLocalBlock, QpRemoteBlock, QpTransaction};

verus! {

/// The three words of a local block header: chain id, nonce, timestamp.
pub open spec fn local_block_tvs(b: QpLocalBlock) -> Seq<TokenV> {
    seq![
        TokenV::Uint(word(b.chain_id)),
        TokenV::Uint(word(b.nonce)),
        TokenV::Uint(word(b.timestamp)),
    ]
}

/// The eight fields of a bridged transaction.
pub open spec fn tx_field_tvs(t: QpTransaction) -> Seq<TokenV> {
    seq![
        TokenV::Uint(word(t.timestamp)),
        TokenV::Address(t.remote_contract@),
        TokenV::Address(t.source_msg_sender@),
        TokenV::Address(t.source_beneficiary@),
        TokenV::Address(t.token@),
        TokenV::Uint(t.amount@),
        TokenV::Bytes(t.method@),
        TokenV::Uint(word(t.gas)),
    ]
}

/// A bridged transaction as one tuple value.
pub open spec fn tx_tuple_tv(t: QpTransaction) -> TokenV {
    TokenV::Tuple(tx_field_tvs(t))
}

/// A transaction list, elementwise.
pub open spec fn txs_tvs(ts: Seq<QpTransaction>) -> Seq<TokenV>
    decreases ts,
{
    if ts.len() == 0 {
        Seq::empty()
    } else {
        seq![tx_tuple_tv(ts[0])] + txs_tvs(ts.subrange(1, ts.len() as int))
    }
}

pub open spec fn txs_wf(ts: Seq<QpTransaction>) -> bool {
    forall|i: int| 0 <= i < ts.len() ==> (#[trigger] ts[i]).wf()
}

pub proof fn lemma_txs_tvs_len(ts: Seq<QpTransaction>)
    ensures
        txs_tvs(ts).len() == ts.len(),
    decreases ts,
{
    if ts.len() != 0 {
        lemma_txs_tvs_len(ts.subrange(1, ts.len() as int));
    }
}

pub proof fn lemma_txs_tvs_index(ts: Seq<QpTransaction>, i: int)
    requires
        0 <= i < ts.len(),
    ensures
        txs_tvs(ts).len() == ts.len(),
        txs_tvs(ts)[i] == tx_tuple_tv(ts[i]),
    decreases ts,
{
    lemma_txs_tvs_len(ts);
    if i > 0 {
        lemma_txs_tvs_index(ts.subrange(1, ts.len() as int), i - 1);
    }
}

pub proof fn lemma_txs_tvs_push(ts: Seq<QpTransaction>, t: QpTransaction)
    ensures
        txs_tvs(ts.push(t)) == txs_tvs(ts).push(tx_tuple_tv(t)),
{
    let a = ts.push(t);
    lemma_txs_tvs_len(a);
    lemma_txs_tvs_len(ts);
    assert forall|j: int| 0 <= j < a.len() implies txs_tvs(a)[j] == txs_tvs(ts).push(
        tx_tuple_tv(t),
    )[j] by {
        lemma_txs_tvs_index(a, j);
        if j < ts.len() {
            lemma_txs_tvs_index(ts, j);
        }
    }
    assert(txs_tvs(a) =~= txs_tvs(ts).push(tx_tuple_tv(t)));
}

/// The five fields of a mined-block record: hash, miner, stake, total value,
/// and the local block header it replays.
pub open spec fn mined_field_tvs(rb: QpRemoteBlock) -> Seq<TokenV> {
    seq![
        TokenV::FixedBytes(rb.block_hash@),
        TokenV::Address(rb.miner@),
        TokenV::Uint(rb.stake@),
        TokenV::Uint(rb.total_value@),
        TokenV::Tuple(local_block_tvs(rb.block_metadata)),
    ]
}

// ---------------------------------------------------------------------
// Schemas
// ---------------------------------------------------------------------

pub open spec fn is_local_block_kinds(ks: Seq<ParamKind>) -> bool {
    ks == seq![ParamKind::Uint(256), ParamKind::Uint(256), ParamKind::Uint(256)]
}

pub open spec fn is_local_block_tuple_kind(k: ParamKind) -> bool {
    k matches ParamKind::Tuple(ks) && is_local_block_kinds(ks@)
}

pub open spec fn is_tx_tuple_kind(k: ParamKind) -> bool {
    k matches ParamKind::Tuple(ks) && ks@ == seq![
        ParamKind::Uint(256),
        ParamKind::Address,
        ParamKind::Address,
        ParamKind::Address,
        ParamKind::Address,
        ParamKind::Uint(256),
        ParamKind::Bytes,
        ParamKind::Uint(256),
    ]
}

pub open spec fn is_mined_block_tuple_kind(k: ParamKind) -> bool {
    k matches ParamKind::Tuple(ks) && ks@.len() == 5 && ks@[0] == ParamKind::FixedBytes(32)
        && ks@[1] == ParamKind::Address && ks@[2] == ParamKind::Uint(256) && ks@[3]
        == ParamKind::Uint(256) && is_local_block_tuple_kind(ks@[4])
}

/// Schema of a bare local block header response.
pub fn local_block_tuple0() -> (r: Vec<ParamKind>)
    ensures
        is_local_block_kinds(r@),
        forall|i: int| 0 <= i < r@.len() ==> kind_wf(#[trigger] r@[i]),
{
    let mut v: Vec<ParamKind> = Vec::new();
    v.push(ParamKind::Uint(256));
    v.push(ParamKind::Uint(256));
    v.push(ParamKind::Uint(256));
    proof {
        assert(v@ =~= seq![ParamKind::Uint(256), ParamKind::Uint(256), ParamKind::Uint(256)]);
    }
    v
}

/// Schema of a local block header as one tuple.
pub fn local_block_tuple() -> (r: ParamKind)
    ensures
        is_local_block_tuple_kind(r),
        kind_wf(r),
{
    ParamKind::Tuple(local_block_tuple0())
}

/// Schema of one bridged transaction.
pub fn transaction_tuple() -> (r: ParamKind)
    ensures
        is_tx_tuple_kind(r),
        kind_wf(r),
{
    let mut v: Vec<ParamKind> = Vec::new();
    v.push(ParamKind::Uint(256));
    v.push(ParamKind::Address);
    v.push(ParamKind::Address);
    v.push(ParamKind::Address);
    v.push(ParamKind::Address);
    v.push(ParamKind::Uint(256));
    v.push(ParamKind::Bytes);
    v.push(ParamKind::Uint(256));
    proof {
        assert(v@ =~= seq![
            ParamKind::Uint(256),
            ParamKind::Address,
            ParamKind::Address,
            ParamKind::Address,
            ParamKind::Address,
            ParamKind::Uint(256),
            ParamKind::Bytes,
            ParamKind::Uint(256),
        ]);
        assert forall|i: int| 0 <= i < v@.len() implies kind_wf(#[trigger] v@[i]) by {
            assert(0 <= i < 8);
        }
    }
    ParamKind::Tuple(v)
}

/// Schema of a mined-block record.
pub fn mined_block_tuple() -> (r: ParamKind)
    ensures
        is_mined_block_tuple_kind(r),
        kind_wf(r),
{
    let mut v: Vec<ParamKind> = Vec::new();
    v.push(ParamKind::FixedBytes(32));
    v.push(ParamKind::Address);
    v.push(ParamKind::Uint(256));
    v.push(ParamKind::Uint(256));
    v.push(local_block_tuple());
    proof {
        assert(v@.len() == 5);
        assert(v@[0] == ParamKind::FixedBytes(32));
        assert(v@[1] == ParamKind::Address);
        assert(v@[2] == ParamKind::Uint(256));
        assert(v@[3] == ParamKind::Uint(256));
        assert(is_local_block_tuple_kind(v@[4]) && kind_wf(v@[4]));
        assert forall|i: int| 0 <= i < v@.len() implies kind_wf(#[trigger] v@[i]) by {
            assert(0 <= i < 5);
        }
    }
    ParamKind::Tuple(v)
}

// ---------------------------------------------------------------------
// Matching lemmas: record views match their schemas
// ---------------------------------------------------------------------

pub proof fn lemma_local_block_matches(b: QpLocalBlock, ks: Seq<ParamKind>)
    requires
        is_local_block_kinds(ks),
    ensures
        local_block_tvs(b).len() == ks.len(),
        forall|i: int| 0 <= i < 3 ==> matches_kind(#[trigger] local_block_tvs(b)[i], ks[i]),
{
}

pub proof fn lemma_tx_matches(t: QpTransaction, k: ParamKind)
    requires
        t.wf(),
        is_tx_tuple_kind(k),
    ensures
        matches_kind(tx_tuple_tv(t), k),
{
    let ks = k->Tuple_0;
    assert forall|i: int| 0 <= i < tx_field_tvs(t).len() implies matches_kind(
        #[trigger] tx_field_tvs(t)[i],
        ks@[i],
    ) by {
    }
}

pub proof fn lemma_txs_array_matches(ts: Seq<QpTransaction>, k: ParamKind)
    requires
        txs_wf(ts),
        k matches ParamKind::Array(k1) && is_tx_tuple_kind(*k1),
    ensures
        matches_kind(TokenV::Array(txs_tvs(ts)), k),
{
    let k1 = *k->Array_0;
    assert forall|i: int| 0 <= i < txs_tvs(ts).len() implies matches_kind(
        #[trigger] txs_tvs(ts)[i],
        k1,
    ) by {
        lemma_txs_tvs_len(ts);
        lemma_txs_tvs_index(ts, i);
        lemma_tx_matches(ts[i], k1);
    }
}

pub proof fn lemma_mined_block_matches(rb: QpRemoteBlock, k: ParamKind)
    requires
        rb.wf(),
        is_mined_block_tuple_kind(k),
    ensures
        matches_kind(TokenV::Tuple(mined_field_tvs(rb)), k),
{
    let ks = k->Tuple_0;
    lemma_local_block_matches(rb.block_metadata, ks@[4]->Tuple_0@);
    assert forall|i: int| 0 <= i < mined_field_tvs(rb).len() implies matches_kind(
        #[trigger] mined_field_tvs(rb)[i],
        ks@[i],
    ) by {
    }
}

// ---------------------------------------------------------------------
// Field extractors
// ---------------------------------------------------------------------

/// Reads a `u64` from an unsigned-integer token; the value must fit.
fn uint_field(t: &Token) -> (r: Option<u64>)
    ensures
        (r matches Some(v) ==> tok_v(*t) == TokenV::Uint(word(v))),
        (forall|v: u64| tok_v(*t) == TokenV::Uint(word(v)) ==> r == Some(v)),
{
    match t {
        Token::Uint(b) => u64_of_word_bytes(b),
        _ => None,
    }
}

/// Copies the full 32-byte payload of an unsigned-integer token.
fn uint_bytes_field(t: &Token) -> (r: Option<Vec<u8>>)
    ensures
        (r matches Some(b) ==> tok_v(*t) == TokenV::Uint(b@) && b@.len() == 32),
        (forall|a: Seq<u8>| tok_v(*t) == TokenV::Uint(a) && a.len() == 32 ==> (r matches Some(b)
            && b@ == a)),
{
    match t {
        Token::Uint(b) => {
            if b.len() == 32 {
                Some(slice_to_vec(b.as_slice()))
            } else {
                None
            }
        }
        _ => None,
    }
}

/// Copies the 20-byte payload of an address token.
fn address_field(t: &Token) -> (r: Option<Vec<u8>>)
    ensures
        (r matches Some(b) ==> tok_v(*t) == TokenV::Address(b@) && b@.len() == 20),
        (forall|a: Seq<u8>| tok_v(*t) == TokenV::Address(a) && a.len() == 20 ==> (r matches Some(b)
            && b@ == a)),
{
    match t {
        Token::Address(b) => {
            if b.len() == 20 {
                Some(slice_to_vec(b.as_slice()))
            } else {
                None
            }
        }
        _ => None,
    }
}

/// Copies the payload of a fixed-size byte-array token of width `n`.
fn fixed_bytes_field(t: &Token, n: usize) -> (r: Option<Vec<u8>>)
    ensures
        (r matches Some(b) ==> tok_v(*t) == TokenV::FixedBytes(b@) && b@.len() == n),
        (forall|a: Seq<u8>| tok_v(*t) == TokenV::FixedBytes(a) && a.len() == n ==> (r matches Some(
            b,
        ) && b@ == a)),
{
    match t {
        Token::FixedBytes(b) => {
            if b.len() == n {
                Some(slice_to_vec(b.as_slice()))
            } else {
                None
            }
        }
        _ => None,
    }
}

/// Copies the payload of a variable-length byte token.
fn bytes_field(t: &Token) -> (r: Option<Vec<u8>>)
    ensures
        (r matches Some(b) ==> tok_v(*t) == TokenV::Bytes(b@)),
        (forall|a: Seq<u8>| tok_v(*t) == TokenV::Bytes(a) ==> (r matches Some(b) && b@ == a)),
{
    match t {
        Token::Bytes(b) => Some(slice_to_vec(b.as_slice())),
        _ => None,
    }
}

// ---------------------------------------------------------------------
// Record mappers
// ---------------------------------------------------------------------

/// Rebuilds a local block header from a decoded three-word tuple. Succeeds
/// exactly when the tokens are the three words of some header, and then
/// returns that header.
pub fn decode_local_block_from_tuple(dec: &Vec<Token>) -> (r: ChainRequestResult<QpLocalBlock>)
    ensures
        (r matches Ok(b) ==> toks_v(dec@) == local_block_tvs(b)),
        (forall|b: QpLocalBlock| toks_v(dec@) == local_block_tvs(b) ==> (r matches Ok(rr) && rr == b)),
        (r matches Err(e) ==> e == ChainRequestError::DecodeError),
{
    proof {
        lemma_toks_v_len(dec@);
    }
    if dec.len() != 3 {
        return Err(ChainRequestError::DecodeError);
    }
    proof {
        lemma_toks_v_index(dec@, 0);
        lemma_toks_v_index(dec@, 1);
        lemma_toks_v_index(dec@, 2);
    }
    let chain_id = match uint_field(&dec[0]) {
        Some(v) => v,
        None => {
            return Err(ChainRequestError::DecodeError);
        }
    };
    let nonce = match uint_field(&dec[1]) {
        Some(v) => v,
        None => {
            return Err(ChainRequestError::DecodeError);
        }
    };
    let timestamp = match uint_field(&dec[2]) {
        Some(v) => v,
        None => {
            return Err(ChainRequestError::DecodeError);
        }
    };
    let b = QpLocalBlock { chain_id, nonce, timestamp };
    proof {
        assert(toks_v(dec@) =~= local_block_tvs(b));
        assert forall|b2: QpLocalBlock| toks_v(dec@) == local_block_tvs(b2) implies b2 == b by {
            assert(word(b2.chain_id) == word(b.chain_id));
            assert(word(b2.nonce) == word(b.nonce));
            assert(word(b2.timestamp) == word(b.timestamp));
            lemma_word_injective(b2.chain_id, b.chain_id);
            lemma_word_injective(b2.nonce, b.nonce);
            lemma_word_injective(b2.timestamp, b.timestamp);
        }
    }
    Ok(b)
}

/// Rebuilds one bridged transaction from its decoded eight-field tuple.
pub fn decode_remote_transaction_from_tuple(dec: &Vec<Token>) -> (r: ChainRequestResult<
    QpTransaction,
>)
    ensures
        (r matches Ok(t) ==> t.wf() && toks_v(dec@) == tx_field_tvs(t)),
        (forall|t2: QpTransaction| t2.wf() && toks_v(dec@) == tx_field_tvs(t2) ==> (r matches Ok(t)
            && tx_field_tvs(t) == tx_field_tvs(t2))),
        (r matches Err(e) ==> e == ChainRequestError::DecodeError),
{
    proof {
        lemma_toks_v_len(dec@);
    }
    if dec.len() != 8 {
        return Err(ChainRequestError::DecodeError);
    }
    proof {
        lemma_toks_v_index(dec@, 0);
        lemma_toks_v_index(dec@, 1);
        lemma_toks_v_index(dec@, 2);
        lemma_toks_v_index(dec@, 3);
        lemma_toks_v_index(dec@, 4);
        lemma_toks_v_index(dec@, 5);
        lemma_toks_v_index(dec@, 6);
        lemma_toks_v_index(dec@, 7);
    }
    let timestamp = match uint_field(&dec[0]) {
        Some(v) => v,
        None => {
            return Err(ChainRequestError::DecodeError);
        }
    };
    let remote_contract = match address_field(&dec[1]) {
        Some(v) => v,
        None => {
            return Err(ChainRequestError::DecodeError);
        }
    };
    let source_msg_sender = match address_field(&dec[2]) {
        Some(v) => v,
        None => {
            return Err(ChainRequestError::DecodeError);
        }
    };
    let source_beneficiary = match address_field(&dec[3]) {
        Some(v) => v,
        None => {
            return Err(ChainRequestError::DecodeError);
        }
    };
    let token = match address_field(&dec[4]) {
        Some(v) => v,
        None => {
            return Err(ChainRequestError::DecodeError);
        }
    };
    let amount = match uint_bytes_field(&dec[5]) {
        Some(v) => v,
        None => {
            return Err(ChainRequestError::DecodeError);
        }
    };
    let method = match bytes_field(&dec[6]) {
        Some(v) => v,
        None => {
            return Err(ChainRequestError::DecodeError);
        }
    };
    let gas = match uint_field(&dec[7]) {
        Some(v) => v,
        None => {
            return Err(ChainRequestError::DecodeError);
        }
    };
    let t = QpTransaction {
        timestamp,
        remote_contract,
        source_msg_sender,
        source_beneficiary,
        token,
        amount,
        method,
        gas,
    };
    proof {
        assert(toks_v(dec@) =~= tx_field_tvs(t));
    }
    Ok(t)
}

/// Rebuilds a mined-block record from its decoded five-field tuple.
pub fn decode_mined_block_from_tuple(dec: &Vec<Token>) -> (r: ChainRequestResult<QpRemoteBlock>)
    ensures
        (r matches Ok(rb) ==> rb.wf() && toks_v(dec@) == mined_field_tvs(rb)),
        (forall|rb2: QpRemoteBlock| rb2.wf() && toks_v(dec@) == mined_field_tvs(rb2) ==> (
        r matches Ok(rb) && mined_field_tvs(rb) == mined_field_tvs(rb2) && rb.block_metadata
            == rb2.block_metadata)),
        (r matches Err(e) ==> e == ChainRequestError::DecodeError),
{
    proof {
        lemma_toks_v_len(dec@);
    }
    if dec.len() != 5 {
        return Err(ChainRequestError::DecodeError);
    }
    proof {
        lemma_toks_v_index(dec@, 0);
        lemma_toks_v_index(dec@, 1);
        lemma_toks_v_index(dec@, 2);
        lemma_toks_v_index(dec@, 3);
        lemma_toks_v_index(dec@, 4);
    }
    let block_hash = match fixed_bytes_field(&dec[0], 32) {
        Some(v) => v,
        None => {
            return Err(ChainRequestError::DecodeError);
        }
    };
    let miner = match address_field(&dec[1]) {
        Some(v) => v,
        None => {
            return Err(ChainRequestError::DecodeError);
        }
    };
    let stake = match uint_bytes_field(&dec[2]) {
        Some(v) => v,
        None => {
            return Err(ChainRequestError::DecodeError);
        }
    };
    let total_value = match uint_bytes_field(&dec[3]) {
        Some(v) => v,
        None => {
            return Err(ChainRequestError::DecodeError);
        }
    };
    let block_metadata = match &dec[4] {
        Token::Tuple(inner) => {
            match decode_local_block_from_tuple(inner) {
                Ok(b) => b,
                Err(_) => {
                    return Err(ChainRequestError::DecodeError);
                }
            }
        }
        _ => {
            return Err(ChainRequestError::DecodeError);
        }
    };
    let rb = QpRemoteBlock { block_hash, miner, stake, total_value, block_metadata };
    proof {
        assert(toks_v(dec@) =~= mined_field_tvs(rb));
        assert forall|rb2: QpRemoteBlock| rb2.wf() && toks_v(dec@) == mined_field_tvs(rb2)
            implies rb.block_metadata == rb2.block_metadata by {
            assert(TokenV::Tuple(local_block_tvs(rb.block_metadata)) == TokenV::Tuple(
                local_block_tvs(rb2.block_metadata),
            ));
            assert(word(rb2.block_metadata.chain_id) == word(rb.block_metadata.chain_id));
            assert(word(rb2.block_metadata.nonce) == word(rb.block_metadata.nonce));
            assert(word(rb2.block_metadata.timestamp) == word(rb.block_metadata.timestamp));
            lemma_word_injective(rb2.block_metadata.chain_id, rb.block_metadata.chain_id);
            lemma_word_injective(rb2.block_metadata.nonce, rb.block_metadata.nonce);
            lemma_word_injective(rb2.block_metadata.timestamp, rb.block_metadata.timestamp);
        }
    }
    Ok(rb)
}

// ---------------------------------------------------------------------
// Buffer decoders
// ---------------------------------------------------------------------

/// Decodes a bare local block header response. Succeeds exactly when the
/// buffer is the three-word encoding of some header.
pub fn decode_local_block(data: &[u8]) -> (r: ChainRequestResult<QpLocalBlock>)
    ensures
        (r matches Ok(b) ==> data@ == encoded_list(local_block_tvs(b))),
        (forall|b: QpLocalBlock| data@ == encoded_list(local_block_tvs(b)) ==> (r matches Ok(rr)
            && rr == b)),
        (r matches Err(e) ==> e == ChainRequestError::DecodeError),
{
    let kinds = local_block_tuple0();
    proof {
        assert forall|b: QpLocalBlock| data@ == encoded_list(local_block_tvs(b))
            implies crate::codec::whole_parse(local_block_tvs(b), kinds@, data@) by {
            lemma_local_block_matches(b, kinds@);
        }
    }
    match decode(&kinds, data) {
        Err(_) => Err(ChainRequestError::DecodeError),
        Ok(ts) => decode_local_block_from_tuple(&ts),
    }
}

/// Rebuilds the transaction list from the decoded elements of the
/// transaction array.
#[verifier::loop_isolation(false)]
fn decode_transaction_array(items: &Vec<Token>) -> (r: ChainRequestResult<Vec<QpTransaction>>)
    ensures
        (r matches Ok(v) ==> txs_wf(v@) && toks_v(items@) == txs_tvs(v@)),
        (forall|ts: Seq<QpTransaction>| txs_wf(ts) && toks_v(items@) == txs_tvs(ts) ==> (
        r matches Ok(v) && txs_tvs(v@) == txs_tvs(ts))),
        (r matches Err(e) ==> e == ChainRequestError::DecodeError),
{
    proof {
        lemma_toks_v_len(items@);
    }
    let mut out: Vec<QpTransaction> = Vec::new();
    let mut i: usize = 0;
    while i < items.len()
        invariant
            i <= items@.len(),
            out@.len() == i,
            txs_wf(out@),
            toks_v(items@).len() == items@.len(),
            txs_tvs(out@) == toks_v(items@).subrange(0, i as int),
        decreases items@.len() - i,
    {
        proof {
            lemma_toks_v_index(items@, i as int);
        }
        let tx = match &items[i] {
            Token::Tuple(inner) => {
                match decode_remote_transaction_from_tuple(inner) {
                    Ok(t) => t,
                    Err(_) => {
                        proof {
                            assert forall|ts: Seq<QpTransaction>| !(txs_wf(ts) && toks_v(items@)
                                == txs_tvs(ts)) by {
                                if txs_wf(ts) && toks_v(items@) == txs_tvs(ts) {
                                    lemma_txs_tvs_len(ts);
                                    lemma_txs_tvs_index(ts, i as int);
                                    assert(tok_v(items@[i as int]) == tx_tuple_tv(ts[i as int]));
                                    assert(toks_v(inner@) == tx_field_tvs(ts[i as int]));
                                }
                            }
                        }
                        return Err(ChainRequestError::DecodeError);
                    }
                }
            }
            _ => {
                proof {
                    assert forall|ts: Seq<QpTransaction>| !(txs_wf(ts) && toks_v(items@)
                        == txs_tvs(ts)) by {
                        if txs_wf(ts) && toks_v(items@) == txs_tvs(ts) {
                            lemma_txs_tvs_len(ts);
                            lemma_txs_tvs_index(ts, i as int);
                            assert(tok_v(items@[i as int]) == tx_tuple_tv(ts[i as int]));
                        }
                    }
                }
                return Err(ChainRequestError::DecodeError);
            }
        };
        proof {
            lemma_txs_tvs_push(out@, tx);
            assert(toks_v(items@).subrange(0, i + 1) =~= toks_v(items@).subrange(
                0,
                i as int,
            ).push(toks_v(items@)[i as int]));
        }
        out.push(tx);
        i = i + 1;
    }
    proof {
        assert(toks_v(items@).subrange(0, items@.len() as int) =~= toks_v(items@));
    }
    Ok(out)
}

/// The two top-level values of a "block plus transactions" response built
/// around a local block header.
pub open spec fn local_block_txs_tvs(b: QpLocalBlock, ts: Seq<QpTransaction>) -> Seq<TokenV> {
    seq![TokenV::Tuple(local_block_tvs(b)), TokenV::Array(txs_tvs(ts))]
}

/// Decodes a "local block plus transaction list" response: a two-level
/// operation over a header tuple and a transaction array. Succeeds exactly
/// when the buffer is such an encoding; any failure at either level aborts
/// the whole decode.
pub fn decode_local_block_and_txs(data: &[u8]) -> (r: ChainRequestResult<
    (QpLocalBlock, Vec<QpTransaction>),
>)
    ensures
        (r matches Ok(p) ==> txs_wf(p.1@) && data@ == encoded_list(
            local_block_txs_tvs(p.0, p.1@),
        )),
        (forall|b: QpLocalBlock, ts: Seq<QpTransaction>| txs_wf(ts) && data@ == encoded_list(
            local_block_txs_tvs(b, ts),
        ) ==> (r matches Ok(p) && p.0 == b && txs_tvs(p.1@) == txs_tvs(ts))),
        (r matches Err(e) ==> e == ChainRequestError::DecodeError),
{
    let mut kinds: Vec<ParamKind> = Vec::new();
    kinds.push(local_block_tuple());
    kinds.push(ParamKind::Array(Box::new(transaction_tuple())));
    proof {
        assert(kinds@.len() == 2);
        assert(is_local_block_tuple_kind(kinds@[0]) && kind_wf(kinds@[0]));
        assert(kinds@[1] matches ParamKind::Array(k1) && is_tx_tuple_kind(*k1) && kind_wf(
            kinds@[1],
        ));
        assert forall|i: int| 0 <= i < kinds@.len() implies kind_wf(#[trigger] kinds@[i]) by {
            assert(0 <= i < 2);
        }
        assert forall|b: QpLocalBlock, ts: Seq<QpTransaction>| txs_wf(ts) && data@
            == encoded_list(local_block_txs_tvs(b, ts)) implies crate::codec::whole_parse(
            local_block_txs_tvs(b, ts),
            kinds@,
            data@,
        ) by {
            lemma_local_block_matches(b, kinds@[0]->Tuple_0@);
            lemma_txs_array_matches(ts, kinds@[1]);
            assert(matches_kind(local_block_txs_tvs(b, ts)[0], kinds@[0]));
            assert(matches_kind(local_block_txs_tvs(b, ts)[1], kinds@[1]));
        }
    }
    let toks = match decode(&kinds, data) {
        Ok(ts) => ts,
        Err(_) => {
            return Err(ChainRequestError::DecodeError);
        }
    };
    proof {
        lemma_toks_v_len(toks@);
        lemma_toks_v_index(toks@, 0);
        lemma_toks_v_index(toks@, 1);
        assert(matches_kind(toks_v(toks@)[0], kinds@[0]));
        assert(matches_kind(toks_v(toks@)[1], kinds@[1]));
    }
    let block = match &toks[0] {
        Token::Tuple(inner) => {
            match decode_local_block_from_tuple(inner) {
                Ok(b) => b,
                Err(e) => {
                    return Err(e);
                }
            }
        }
        _ => {
            return Err(ChainRequestError::DecodeError);
        }
    };
    let txs = match &toks[1] {
        Token::Array(items) => {
            match decode_transaction_array(items) {
                Ok(v) => v,
                Err(e) => {
                    return Err(e);
                }
            }
        }
        _ => {
            return Err(ChainRequestError::DecodeError);
        }
    };
    proof {
        assert(toks_v(toks@) =~= local_block_txs_tvs(block, txs@));
        assert forall|b: QpLocalBlock, ts: Seq<QpTransaction>| txs_wf(ts) && data@
            == encoded_list(local_block_txs_tvs(b, ts)) implies block == b && txs_tvs(txs@)
            == txs_tvs(ts) by {
            assert(toks_v(toks@) == local_block_txs_tvs(b, ts));
        }
    }
    Ok((block, txs))
}

/// The two top-level values of a "mined block plus transactions" response.
pub open spec fn mined_block_txs_tvs(rb: QpRemoteBlock, ts: Seq<QpTransaction>) -> Seq<TokenV> {
    seq![TokenV::Tuple(mined_field_tvs(rb)), TokenV::Array(txs_tvs(ts))]
}

/// Decodes a "mined block plus transaction list" response. Succeeds exactly
/// when the buffer is such an encoding.
pub fn decode_mined_block_and_txs(data: &[u8]) -> (r: ChainRequestResult<
    (QpRemoteBlock, Vec<QpTransaction>),
>)
    ensures
        (r matches Ok(p) ==> p.0.wf() && txs_wf(p.1@) && data@ == encoded_list(
            mined_block_txs_tvs(p.0, p.1@),
        )),
        (forall|rb: QpRemoteBlock, ts: Seq<QpTransaction>| rb.wf() && txs_wf(ts) && data@
            == encoded_list(mined_block_txs_tvs(rb, ts)) ==> (r matches Ok(p) && mined_field_tvs(
            p.0,
        ) == mined_field_tvs(rb) && p.0.block_metadata == rb.block_metadata && txs_tvs(p.1@)
            == txs_tvs(ts))),
        (r matches Err(e) ==> e == ChainRequestError::DecodeError),
{
    let mut kinds: Vec<ParamKind> = Vec::new();
    kinds.push(mined_block_tuple());
    kinds.push(ParamKind::Array(Box::new(transaction_tuple())));
    proof {
        assert(kinds@.len() == 2);
        assert(is_mined_block_tuple_kind(kinds@[0]) && kind_wf(kinds@[0]));
        assert(kinds@[1] matches ParamKind::Array(k1) && is_tx_tuple_kind(*k1) && kind_wf(
            kinds@[1],
        ));
        assert forall|i: int| 0 <= i < kinds@.len() implies kind_wf(#[trigger] kinds@[i]) by {
            assert(0 <= i < 2);
        }
        assert forall|rb: QpRemoteBlock, ts: Seq<QpTransaction>| rb.wf() && txs_wf(ts) && data@
            == encoded_list(mined_block_txs_tvs(rb, ts)) implies crate::codec::whole_parse(
            mined_block_txs_tvs(rb, ts),
            kinds@,
            data@,
        ) by {
            lemma_mined_block_matches(rb, kinds@[0]);
            lemma_txs_array_matches(ts, kinds@[1]);
            assert(matches_kind(mined_block_txs_tvs(rb, ts)[0], kinds@[0]));
            assert(matches_kind(mined_block_txs_tvs(rb, ts)[1], kinds@[1]));
        }
    }
    let toks = match decode(&kinds, data) {
        Ok(ts) => ts,
        Err(_) => {
            return Err(ChainRequestError::DecodeError);
        }
    };
    proof {
        lemma_toks_v_len(toks@);
        lemma_toks_v_index(toks@, 0);
        lemma_toks_v_index(toks@, 1);
        assert(matches_kind(toks_v(toks@)[0], kinds@[0]));
        assert(matches_kind(toks_v(toks@)[1], kinds@[1]));
    }
    let block = match &toks[0] {
        Token::Tuple(inner) => {
            match decode_mined_block_from_tuple(inner) {
                Ok(b) => b,
                Err(e) => {
                    return Err(e);
                }
            }
        }
        _ => {
            return Err(ChainRequestError::DecodeError);
        }
    };
    let txs = match &toks[1] {
        Token::Array(items) => {
            match decode_transaction_array(items) {
                Ok(v) => v,
                Err(e) => {
                    return Err(e);
                }
            }
        }
        _ => {
            return Err(ChainRequestError::DecodeError);
        }
    };
    proof {
        assert(toks_v(toks@) =~= mined_block_txs_tvs(block, txs@));
        assert forall|rb: QpRemoteBlock, ts: Seq<QpTransaction>| rb.wf() && txs_wf(ts) && data@
            == encoded_list(mined_block_txs_tvs(rb, ts)) implies mined_field_tvs(block)
            == mined_field_tvs(rb) && block.block_metadata == rb.block_metadata && txs_tvs(txs@)
            == txs_tvs(ts) by {
            assert(toks_v(toks@) == mined_block_txs_tvs(rb, ts));
            assert(toks_v(toks@)[0] == TokenV::Tuple(mined_field_tvs(rb)));
        }
    }
    Ok((block, txs))
}

} // verus!
