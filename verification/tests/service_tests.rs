use std::cell::RefCell;
use std::collections::VecDeque;

use tiny_keccak::Hasher;

use quantum_portal::client::QuantumPortalClient;
use quantum_portal::codec::{word_vec, Token};
use quantum_portal::eip712::{domain_hash, final_hash, message_hash};
use quantum_portal::gateway::{Gateway, SigningCapability};
use quantum_portal::revert::decode_revert_message;
use quantum_portal::service::{PairLockTable, ProcessOutcome, QuantumPortalService};
use quantum_portal::types::{ChainRequestError, ChainRequestResult, EIP712Config};

struct ScriptGateway {
    call_responses: RefCell<VecDeque<Vec<u8>>>,
}

impl Gateway for ScriptGateway {
    fn call(&self, _method_signature: &Vec<u8>, _args: &Vec<Token>) -> ChainRequestResult<Vec<u8>> {
        match self.call_responses.borrow_mut().pop_front() {
            Some(r) => Ok(r),
            None => Err(ChainRequestError::RequestError),
        }
    }

    fn send(
        &self,
        _method_signature: &Vec<u8>,
        _args: &Vec<Token>,
        _gas_limit: Option<u64>,
        _gas_price: Option<u64>,
        _value: &Vec<u8>,
        _nonce: Option<u64>,
        _from: &Vec<u8>,
    ) -> ChainRequestResult<Vec<u8>> {
        Ok(vec![0xcdu8; 32])
    }
}

struct StubSigner;

impl SigningCapability for StubSigner {
    fn sign(&self, _hash: &Vec<u8>) -> ChainRequestResult<Vec<u8>> {
        Ok(vec![0x22u8; 65])
    }

    fn signer_address(&self) -> Vec<u8> {
        vec![0x88u8; 20]
    }
}

fn script_client(chain_id: u64, responses: Vec<Vec<u8>>) -> QuantumPortalClient<ScriptGateway, StubSigner> {
    QuantumPortalClient::new(
        ScriptGateway { call_responses: RefCell::new(responses.into_iter().collect()) },
        StubSigner,
        0,
        0,
        EIP712Config {
            contract_name: b"QUANTUM_PORTAL".to_vec(),
            contract_version: b"000.001".to_vec(),
            verifying_address: vec![0x66u8; 20],
        },
        chain_id,
    )
}

fn lb_bytes(chain_id: u64, nonce: u64, timestamp: u64) -> Vec<u8> {
    quantum_portal::codec::encode(&vec![
        Token::Uint(word_vec(chain_id)),
        Token::Uint(word_vec(nonce)),
        Token::Uint(word_vec(timestamp)),
    ])
}

fn keccak(data: &[u8]) -> [u8; 32] {
    let mut h = tiny_keccak::Keccak::v256();
    h.update(data);
    let mut out = [0u8; 32];
    h.finalize(&mut out);
    out
}

// The per-pair lock: a second acquisition of a held pair is refused until
// the first holder releases it; other pairs are unaffected.
#[test]
fn pair_lock_is_exclusive() {
    let mut locks = PairLockTable::new();
    assert!(locks.try_acquire(1, 2));
    assert!(!locks.try_acquire(1, 2));
    assert!(locks.try_acquire(2, 1));
    locks.release(1, 2);
    assert!(locks.try_acquire(1, 2));
    assert!(!locks.try_acquire(2, 1));
}

#[test]
fn process_pair_reports_busy_while_held() {
    let a = script_client(1, vec![word_vec(0)]);
    let b = script_client(2, vec![]);
    let mut svc = QuantumPortalService::new(vec![a, b]);
    assert!(svc.locks.try_acquire(1, 2));
    assert_eq!(svc.process_pair_with_lock(1, 2), Ok(ProcessOutcome::Busy));
    svc.locks.release(1, 2);
}

#[test]
fn process_pair_runs_mine_then_finalize_and_releases() {
    // not ready to mine, nothing to finalize
    let a = script_client(1, vec![word_vec(0)]);
    let b = script_client(2, vec![lb_bytes(1, 5, 100), lb_bytes(1, 5, 90)]);
    let mut svc = QuantumPortalService::new(vec![a, b]);
    let r = svc.process_pair_with_lock(1, 2);
    assert_eq!(
        r,
        Ok(ProcessOutcome::Processed { mine_tx: None, finalize_tx: None })
    );
    // the lock was released on the way out
    assert!(svc.locks.try_acquire(1, 2));
}

#[test]
fn process_pair_fails_for_unknown_chain() {
    let a = script_client(1, vec![]);
    let mut svc = QuantumPortalService::new(vec![a]);
    assert_eq!(
        svc.process_pair_with_lock(1, 9),
        Err(ChainRequestError::RequestError)
    );
    // the lock was still released
    assert!(svc.locks.try_acquire(1, 9));
}

#[test]
fn final_hash_matches_reference_keccak() {
    let d = vec![1u8; 32];
    let m = vec![2u8; 32];
    let got = final_hash(&d, &m);
    let mut pre = vec![0x19u8, 0x01u8];
    pre.extend_from_slice(&d);
    pre.extend_from_slice(&m);
    let want = keccak(&pre);
    assert_eq!(got, want.to_vec());
    assert_ne!(got, d);
}

#[test]
fn message_hash_matches_reference_keccak() {
    let fields = vec![Token::Uint(word_vec(7)), Token::Bytes(vec![1, 2, 3])];
    let got = message_hash(&fields);
    let want = keccak(&quantum_portal::codec::encode(&fields));
    assert_eq!(got, want.to_vec());
}

#[test]
fn domain_hash_matches_reference_keccak() {
    let name = b"QUANTUM_PORTAL".to_vec();
    let version = b"000.001".to_vec();
    let addr = vec![0x66u8; 20];
    let got = domain_hash(&name, &version, 31337, &addr);
    let mut pre: Vec<u8> = Vec::new();
    pre.extend_from_slice(&keccak(
        b"EIP712Domain(string name,string version,uint256 chainId,address verifyingContract)",
    ));
    pre.extend_from_slice(&keccak(&name));
    pre.extend_from_slice(&keccak(&version));
    pre.extend_from_slice(&word_vec(31337));
    pre.extend_from_slice(&addr);
    let want = keccak(&pre);
    assert_eq!(got, want.to_vec());
}

#[test]
fn revert_message_extracts_payload() {
    // selector + offset word + length block summing to 5, then "hello"
    let mut buf = vec![0u8; 4];
    buf.extend_from_slice(&[0u8; 32]);
    buf.extend_from_slice(&word_vec(5));
    buf.extend_from_slice(b"hello");
    assert_eq!(decode_revert_message(&buf), b"hello");
}

#[test]
fn revert_message_falls_back_on_short_input() {
    assert_eq!(
        decode_revert_message(&[0u8; 10]),
        b"decode_revert_message: error"
    );
    // message length claims more bytes than the buffer holds
    let mut buf = vec![0u8; 4];
    buf.extend_from_slice(&[0u8; 32]);
    buf.extend_from_slice(&word_vec(200));
    buf.push(1);
    assert_eq!(
        decode_revert_message(&buf),
        b"decode_revert_message: error"
    );
}

#[test]
fn process_pairs_reports_per_pair_outcomes() {
    let a = script_client(1, vec![word_vec(0)]);
    let b = script_client(2, vec![lb_bytes(1, 5, 100), lb_bytes(1, 5, 90)]);
    let mut svc = QuantumPortalService::new(vec![a, b]);
    // hold (3, 4) so its slot comes back busy; (5, 6) has no clients
    assert!(svc.locks.try_acquire(3, 4));
    let results = svc.process_pairs(&vec![(1, 2), (3, 4), (5, 6)]);
    assert_eq!(results.len(), 3);
    assert_eq!(
        results[0],
        Ok(ProcessOutcome::Processed { mine_tx: None, finalize_tx: None })
    );
    assert_eq!(results[1], Ok(ProcessOutcome::Busy));
    assert_eq!(results[2], Err(ChainRequestError::RequestError));
    // the held pair stayed held, the others left no lock behind
    assert!(!svc.locks.try_acquire(3, 4));
    assert!(svc.locks.try_acquire(1, 2));
    assert!(svc.locks.try_acquire(5, 6));
}
