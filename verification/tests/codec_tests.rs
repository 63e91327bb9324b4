use quantum_portal::codec::{decode, encode, u64_of_word_bytes, word_vec, ParamKind, Token};
use quantum_portal::types::DecodeError;

fn uint_tok(v: u64) -> Token {
    Token::Uint(word_vec(v))
}

fn addr_tok(b: u8) -> Token {
    Token::Address(vec![b; 20])
}

#[test]
fn word_vec_is_big_endian() {
    let w = word_vec(0x0102030405060708);
    assert_eq!(w.len(), 32);
    assert_eq!(&w[..24], &[0u8; 24][..]);
    assert_eq!(&w[24..], &[1, 2, 3, 4, 5, 6, 7, 8][..]);
}

#[test]
fn u64_of_word_roundtrip() {
    assert_eq!(u64_of_word_bytes(&word_vec(12345)), Some(12345));
    assert_eq!(u64_of_word_bytes(&word_vec(0)), Some(0));
    assert_eq!(u64_of_word_bytes(&word_vec(u64::MAX)), Some(u64::MAX));
    // a word with a non-zero pad byte is not the word of any u64
    let mut bad = word_vec(7);
    bad[0] = 1;
    assert_eq!(u64_of_word_bytes(&bad), None);
    // wrong length
    assert_eq!(u64_of_word_bytes(&vec![0u8; 31]), None);
}

#[test]
fn round_trip_primitives() {
    let tokens = vec![uint_tok(7), addr_tok(0xaa), Token::FixedBytes(vec![9u8; 32])];
    let kinds = vec![
        ParamKind::Uint(256),
        ParamKind::Address,
        ParamKind::FixedBytes(32),
    ];
    let bytes = encode(&tokens);
    assert_eq!(bytes.len(), 32 + 20 + 32);
    let back = decode(&kinds, bytes.as_slice()).unwrap();
    assert_eq!(back, tokens);
}

#[test]
fn round_trip_nested() {
    let inner = Token::Tuple(vec![uint_tok(1), Token::Bytes(vec![5, 6, 7])]);
    let inner2 = Token::Tuple(vec![uint_tok(2), Token::Bytes(vec![])]);
    let tokens = vec![
        Token::Tuple(vec![uint_tok(42), addr_tok(3)]),
        Token::Array(vec![inner, inner2]),
        Token::Bytes(vec![0xde, 0xad, 0xbe, 0xef]),
    ];
    let elem = ParamKind::Tuple(vec![ParamKind::Uint(256), ParamKind::Bytes]);
    let kinds = vec![
        ParamKind::Tuple(vec![ParamKind::Uint(256), ParamKind::Address]),
        ParamKind::Array(Box::new(elem)),
        ParamKind::Bytes,
    ];
    let bytes = encode(&tokens);
    let back = decode(&kinds, bytes.as_slice()).unwrap();
    assert_eq!(back, tokens);
}

#[test]
fn round_trip_empty_array() {
    let tokens = vec![Token::Array(vec![])];
    let kinds = vec![ParamKind::Array(Box::new(ParamKind::Uint(256)))];
    let bytes = encode(&tokens);
    assert_eq!(bytes.len(), 32);
    let back = decode(&kinds, bytes.as_slice()).unwrap();
    assert_eq!(back, tokens);
}

#[test]
fn decode_rejects_short_buffer() {
    // schema declares three words, buffer carries two
    let kinds = vec![
        ParamKind::Uint(256),
        ParamKind::Uint(256),
        ParamKind::Uint(256),
    ];
    let bytes = encode(&vec![uint_tok(1), uint_tok(2)]);
    assert_eq!(
        decode(&kinds, bytes.as_slice()),
        Err(DecodeError::SchemaMismatch)
    );
}

#[test]
fn decode_rejects_trailing_bytes() {
    let kinds = vec![ParamKind::Uint(256)];
    let mut bytes = encode(&vec![uint_tok(1)]);
    bytes.push(0);
    assert_eq!(
        decode(&kinds, bytes.as_slice()),
        Err(DecodeError::SchemaMismatch)
    );
}

#[test]
fn decode_rejects_array_arity_mismatch() {
    // count word says two elements but only one follows
    let kinds = vec![ParamKind::Array(Box::new(ParamKind::Uint(256)))];
    let mut bytes = word_vec(2);
    bytes.extend_from_slice(&word_vec(9));
    assert_eq!(
        decode(&kinds, bytes.as_slice()),
        Err(DecodeError::SchemaMismatch)
    );
}

#[test]
fn decode_rejects_bytes_length_overrun() {
    // length word says five bytes but only three follow
    let kinds = vec![ParamKind::Bytes];
    let mut bytes = word_vec(5);
    bytes.extend_from_slice(&[1, 2, 3]);
    assert_eq!(
        decode(&kinds, bytes.as_slice()),
        Err(DecodeError::SchemaMismatch)
    );
}

#[test]
fn decode_never_returns_partial_record() {
    // a valid first field followed by a malformed second one fails whole
    let kinds = vec![ParamKind::Uint(256), ParamKind::Bytes];
    let mut bytes = word_vec(1);
    bytes.extend_from_slice(&[0u8; 16]);
    assert_eq!(
        decode(&kinds, bytes.as_slice()),
        Err(DecodeError::SchemaMismatch)
    );
}
