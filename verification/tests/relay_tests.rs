use std::cell::RefCell;
use std::collections::VecDeque;

use quantum_portal::client::{
    check_mine_slot, finalize_decision, finalize_expiry, mine_decision, word_nonzero,
    QuantumPortalClient,
};
use quantum_portal::codec::{encode, word_vec, Token};
use quantum_portal::eip712::pack_multi_signature;
use quantum_portal::gateway::{Gateway, SigningCapability};
use quantum_portal::types::{
    ChainRequestError, ChainRequestResult, EIP712Config, QpLocalBlock, QpRemoteBlock,
};

struct MockGateway {
    call_responses: RefCell<VecDeque<Vec<u8>>>,
    sent: RefCell<Vec<(Vec<u8>, Vec<u8>)>>,
}

impl MockGateway {
    fn new(responses: Vec<Vec<u8>>) -> Self {
        MockGateway {
            call_responses: RefCell::new(responses.into_iter().collect()),
            sent: RefCell::new(Vec::new()),
        }
    }
}

impl Gateway for MockGateway {
    fn call(&self, _method_signature: &Vec<u8>, _args: &Vec<Token>) -> ChainRequestResult<Vec<u8>> {
        match self.call_responses.borrow_mut().pop_front() {
            Some(r) => Ok(r),
            None => Err(ChainRequestError::RequestError),
        }
    }

    fn send(
        &self,
        method_signature: &Vec<u8>,
        args: &Vec<Token>,
        _gas_limit: Option<u64>,
        _gas_price: Option<u64>,
        _value: &Vec<u8>,
        _nonce: Option<u64>,
        _from: &Vec<u8>,
    ) -> ChainRequestResult<Vec<u8>> {
        self.sent
            .borrow_mut()
            .push((method_signature.clone(), encode(args)));
        Ok(vec![0xabu8; 32])
    }
}

struct MockSigner {
    fail: bool,
}

impl SigningCapability for MockSigner {
    fn sign(&self, _hash: &Vec<u8>) -> ChainRequestResult<Vec<u8>> {
        if self.fail {
            Err(ChainRequestError::SigningError)
        } else {
            Ok(vec![0x11u8; 65])
        }
    }

    fn signer_address(&self) -> Vec<u8> {
        vec![0x99u8; 20]
    }
}

fn config() -> EIP712Config {
    EIP712Config {
        contract_name: b"QUANTUM_PORTAL".to_vec(),
        contract_version: b"000.001".to_vec(),
        verifying_address: vec![0x77u8; 20],
    }
}

fn client(chain_id: u64, responses: Vec<Vec<u8>>) -> QuantumPortalClient<MockGateway, MockSigner> {
    QuantumPortalClient::new(
        MockGateway::new(responses),
        MockSigner { fail: false },
        1_000_000,
        50,
        config(),
        chain_id,
    )
}

fn uint_tok(v: u64) -> Token {
    Token::Uint(word_vec(v))
}

fn local_block_bytes(chain_id: u64, nonce: u64, timestamp: u64) -> Vec<u8> {
    encode(&vec![uint_tok(chain_id), uint_tok(nonce), uint_tok(timestamp)])
}

fn local_block_tuple_tok(chain_id: u64, nonce: u64, timestamp: u64) -> Token {
    Token::Tuple(vec![uint_tok(chain_id), uint_tok(nonce), uint_tok(timestamp)])
}

fn tx_tok(timestamp: u64, amount: u64, gas: u64) -> Token {
    Token::Tuple(vec![
        uint_tok(timestamp),
        Token::Address(vec![1u8; 20]),
        Token::Address(vec![2u8; 20]),
        Token::Address(vec![3u8; 20]),
        Token::Address(vec![4u8; 20]),
        Token::Uint(word_vec(amount)),
        Token::Bytes(vec![0xf0, 0x0d]),
        uint_tok(gas),
    ])
}

fn local_block_and_txs_bytes(chain_id: u64, nonce: u64, timestamp: u64) -> Vec<u8> {
    encode(&vec![
        local_block_tuple_tok(chain_id, nonce, timestamp),
        Token::Array(vec![tx_tok(timestamp, 500, 21000)]),
    ])
}

fn mined_block_and_txs_bytes(hash_byte: u8, chain_id: u64, nonce: u64, timestamp: u64) -> Vec<u8> {
    encode(&vec![
        Token::Tuple(vec![
            Token::FixedBytes(vec![hash_byte; 32]),
            Token::Address(vec![5u8; 20]),
            Token::Uint(word_vec(1000)),
            Token::Uint(word_vec(2000)),
            local_block_tuple_tok(chain_id, nonce, timestamp),
        ]),
        Token::Array(vec![]),
    ])
}

#[test]
fn mine_decision_cases() {
    assert_eq!(mine_decision(true, 6, 5), Some(6));
    assert_eq!(mine_decision(true, 5, 5), None);
    assert_eq!(mine_decision(true, 5, 6), None);
    assert_eq!(mine_decision(false, 6, 5), None);
}

#[test]
fn finalize_decision_cases() {
    assert_eq!(finalize_decision(6, 5), Some(6));
    assert_eq!(finalize_decision(5, 5), None);
    assert_eq!(finalize_decision(4, 5), None);
}

#[test]
fn finalize_expiry_is_one_hour() {
    assert_eq!(finalize_expiry(1000), 4600);
    assert_eq!(finalize_expiry(0), 3600);
    assert_eq!(finalize_expiry(u64::MAX - 10), u64::MAX);
}

#[test]
fn check_mine_slot_sentinel() {
    let zero = QpRemoteBlock {
        block_hash: vec![0u8; 32],
        miner: vec![0u8; 20],
        stake: vec![0u8; 32],
        total_value: vec![0u8; 32],
        block_metadata: QpLocalBlock { chain_id: 1, nonce: 1, timestamp: 1 },
    };
    assert_eq!(check_mine_slot(&zero), Ok(()));
    let mut mined = zero;
    mined.block_hash[31] = 1;
    assert_eq!(
        check_mine_slot(&mined),
        Err(ChainRequestError::RemoteBlockAlreadyMined)
    );
}

#[test]
fn word_nonzero_cases() {
    assert_eq!(word_nonzero(&word_vec(0)), Ok(false));
    assert_eq!(word_nonzero(&word_vec(3)), Ok(true));
    assert_eq!(
        word_nonzero(&vec![0u8; 16]),
        Err(ChainRequestError::DecodeError)
    );
}

#[test]
fn pack_multi_signature_is_96_bytes() {
    let mut raw = vec![0u8; 65];
    for (i, b) in raw.iter_mut().enumerate() {
        *b = i as u8;
    }
    let packed = pack_multi_signature(&raw);
    assert_eq!(packed.len(), 96);
    assert_eq!(&packed[..64], &raw[..64]);
    assert_eq!(packed[64], 28);
    assert_eq!(&packed[65..], &[0u8; 31][..]);
}

// Scenario: chain 1 nonce 5, chain 2 last-mined-from-1 is 5: nothing to mine.
#[test]
fn mine_returns_none_when_nothing_new() {
    let remote = client(1, vec![word_vec(1), local_block_bytes(2, 5, 900)]);
    let local = client(2, vec![local_block_bytes(1, 5, 800)]);
    assert_eq!(local.mine(&remote), Ok(None));
    assert!(local.contract.sent.borrow().is_empty());
}

// Scenario: chain 1 nonce 6, same state: a mine submission targeting nonce 6.
#[test]
fn mine_submits_when_source_is_ahead() {
    let remote = client(
        1,
        vec![
            word_vec(1),
            local_block_bytes(2, 6, 900),
            local_block_and_txs_bytes(2, 6, 900),
        ],
    );
    let local = client(
        2,
        vec![
            local_block_bytes(1, 5, 800),
            mined_block_and_txs_bytes(0, 1, 6, 900),
        ],
    );
    let r = local.mine(&remote);
    assert_eq!(r, Ok(Some(vec![0xabu8; 32])));
    let sent = local.contract.sent.borrow();
    assert_eq!(sent.len(), 1);
    // the submission carries the target nonce in its second argument word
    assert_eq!(&sent[0].1[32..64], &word_vec(6)[..]);
}

#[test]
fn mine_returns_none_when_not_ready() {
    let remote = client(1, vec![word_vec(0)]);
    let local = client(2, vec![]);
    assert_eq!(local.mine(&remote), Ok(None));
}

// A non-zero hash in the target slot aborts the mine with the race error.
#[test]
fn mine_fails_when_already_mined() {
    let remote = client(1, vec![word_vec(1), local_block_bytes(2, 6, 900)]);
    let local = client(
        2,
        vec![
            local_block_bytes(1, 5, 800),
            mined_block_and_txs_bytes(7, 1, 6, 900),
        ],
    );
    assert_eq!(
        local.mine(&remote),
        Err(ChainRequestError::RemoteBlockAlreadyMined)
    );
    assert!(local.contract.sent.borrow().is_empty());
}

#[test]
fn mine_propagates_decode_failure() {
    let remote = client(1, vec![word_vec(1), vec![1, 2, 3]]);
    let local = client(2, vec![]);
    assert_eq!(local.mine(&remote), Err(ChainRequestError::DecodeError));
}

#[test]
fn mine_propagates_request_failure() {
    // empty script: the first gateway call fails
    let remote = client(1, vec![]);
    let local = client(2, vec![]);
    assert_eq!(local.mine(&remote), Err(ChainRequestError::RequestError));
}

// Scenario: mined-from-1 nonce 6, finalized 5: a finalize submission whose
// expiry is the mined block's timestamp plus one hour.
#[test]
fn finalize_submits_with_one_hour_expiry() {
    let local = client(
        2,
        vec![
            local_block_bytes(1, 6, 1000),
            local_block_bytes(1, 5, 700),
            mined_block_and_txs_bytes(0x5a, 1, 6, 1000),
        ],
    );
    let r = local.finalize(1);
    assert_eq!(r, Ok(Some(vec![0xabu8; 32])));
    let sent = local.contract.sent.borrow();
    assert_eq!(sent.len(), 1);
    let args = &sent[0].1;
    // words: chain, nonce, finalizers hash, empty array count, salt, expiry
    assert_eq!(&args[0..32], &word_vec(1)[..]);
    assert_eq!(&args[32..64], &word_vec(6)[..]);
    assert_eq!(&args[64..96], &[0x5au8; 32][..]);
    assert_eq!(&args[96..128], &word_vec(0)[..]);
    assert_eq!(&args[128..160], &[0x5au8; 32][..]);
    assert_eq!(&args[160..192], &word_vec(1000 + 3600)[..]);
    // then the packed 96-byte authorization: length word plus payload
    assert_eq!(&args[192..224], &word_vec(96)[..]);
    assert_eq!(args[224 + 64], 28);
}

// Scenario: mined 5, finalized 5: nothing to finalize.
#[test]
fn finalize_returns_none_when_caught_up() {
    let local = client(
        2,
        vec![local_block_bytes(1, 5, 1000), local_block_bytes(1, 5, 700)],
    );
    assert_eq!(local.finalize(1), Ok(None));
    assert!(local.contract.sent.borrow().is_empty());
}

#[test]
fn finalize_fails_when_signer_fails() {
    let mut local = client(
        2,
        vec![
            local_block_bytes(1, 6, 1000),
            local_block_bytes(1, 5, 700),
            mined_block_and_txs_bytes(0x5a, 1, 6, 1000),
        ],
    );
    local.signer = MockSigner { fail: true };
    assert_eq!(local.finalize(1), Err(ChainRequestError::SigningError));
    assert!(local.contract.sent.borrow().is_empty());
}

#[test]
fn generate_multi_signature_packs_the_signature() {
    let local = client(2, vec![]);
    let sig = local
        .generate_multi_signature(
            1,
            6,
            Token::FixedBytes(vec![0u8; 32]),
            Vec::new(),
            Token::FixedBytes(vec![0u8; 32]),
            uint_tok(4600),
        )
        .unwrap();
    assert_eq!(sig.len(), 96);
    assert_eq!(&sig[..64], &[0x11u8; 64][..]);
    assert_eq!(sig[64], 28);
    assert_eq!(&sig[65..], &[0u8; 31][..]);
}
