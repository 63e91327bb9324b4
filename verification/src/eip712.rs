//! Structured-data signing pipeline: domain-separator hashing, message
//! hashing, final-hash assembly, and the packed multi-signature wire format.

use vstd::prelude::*;
use vstd::slice::slice_to_vec;
use vstd::string::StringSliceAdditionalSpecFns;

use crate::codec::{encode, encoded_list, push_bytes, toks_v, word, word_vec, Token};

verus! {

/// The Keccak-256 digest of a byte sequence. The digest is named, not
/// written out: it is a function of the input alone, computed by an outside
/// hashing crate.
pub uninterp spec fn keccak_of(data: Seq<u8>) -> Seq<u8>;

/// Relies on tiny_keccak's Keccak-256 (`Keccak::v256` with
/// `Hasher::update`/`Hasher::finalize`): the digest depends on the input
/// bytes alone and is exactly 32 bytes.
#[verifier::external_body]
pub fn keccak256(data: &Vec<u8>) -> (r: Vec<u8>)
    ensures
        r@ == keccak_of(data@),
        r@.len() == 32,
{
    let mut hasher = tiny_keccak::Keccak::v256();
    tiny_keccak::Hasher::update(&mut hasher, data.as_slice());
    let mut out = [0u8; 32];
    tiny_keccak::Hasher::finalize(hasher, &mut out);
    out.to_vec()
}

/// Type string bound into every domain separator.
pub open spec fn domain_type_bytes() -> Seq<u8> {
    "EIP712Domain(string name,string version,uint256 chainId,address verifyingContract)".spec_bytes()
}

/// Fixed-format encoding of (name, version, chain id, verifying address)
/// whose hash is the domain separator.
pub open spec fn domain_preimage(
    name: Seq<u8>,
    version: Seq<u8>,
    chain_id: u64,
    verifying: Seq<u8>,
) -> Seq<u8> {
    keccak_of(domain_type_bytes()) + keccak_of(name) + keccak_of(version) + word(chain_id)
        + verifying
}

/// Domain separator: hashes the fixed-format encoding of
/// (name, version, chain id, verifying address).
pub fn domain_hash(name: &Vec<u8>, version: &Vec<u8>, chain_id: u64, verifying_address: &Vec<u8>)
    -> (r: Vec<u8>)
    ensures
        r@ == keccak_of(domain_preimage(name@, version@, chain_id, verifying_address@)),
        r@.len() == 32,
{
    let type_bytes = slice_to_vec(
        "EIP712Domain(string name,string version,uint256 chainId,address verifyingContract)"
            .as_bytes(),
    );
    let th = keccak256(&type_bytes);
    let hn = keccak256(name);
    let hv = keccak256(version);
    let mut buf: Vec<u8> = Vec::new();
    push_bytes(&mut buf, &th);
    push_bytes(&mut buf, &hn);
    push_bytes(&mut buf, &hv);
    let cw = word_vec(chain_id);
    push_bytes(&mut buf, &cw);
    push_bytes(&mut buf, verifying_address);
    proof {
        assert(type_bytes@ == domain_type_bytes());
        assert(buf@ =~= domain_preimage(name@, version@, chain_id, verifying_address@));
    }
    keccak256(&buf)
}

/// Message hash: hashes the concatenated encodings of the supplied fields in
/// exactly the order given (the first field is, by convention, the hashed
/// method signature).
pub fn message_hash(fields: &Vec<Token>) -> (r: Vec<u8>)
    ensures
        r@ == keccak_of(encoded_list(toks_v(fields@))),
        r@.len() == 32,
{
    let buf = encode(fields);
    keccak256(&buf)
}

/// Preimage of the value that is actually signed: a fixed two-byte prefix,
/// then the domain separator, then the message hash.
pub open spec fn final_preimage(domain: Seq<u8>, message: Seq<u8>) -> Seq<u8> {
    seq![0x19u8, 0x01u8] + domain + message
}

/// Combines the domain separator and the message hash into the value that is
/// signed.
pub fn final_hash(domain: &Vec<u8>, message: &Vec<u8>) -> (r: Vec<u8>)
    ensures
        r@ == keccak_of(final_preimage(domain@, message@)),
        r@.len() == 32,
{
    let mut buf: Vec<u8> = Vec::new();
    buf.push(0x19u8);
    buf.push(0x01u8);
    push_bytes(&mut buf, domain);
    push_bytes(&mut buf, message);
    proof {
        assert(buf@ =~= final_preimage(domain@, message@));
    }
    keccak256(&buf)
}

/// Reshapes a 65-byte recoverable signature into the fixed 96-byte wire
/// format the verifying contract expects: the first 64 bytes unchanged, one
/// fixed recovery-id byte of 28, then 31 zero bytes.
pub fn pack_multi_signature(raw: &Vec<u8>) -> (r: Vec<u8>)
    requires
        raw@.len() == 65,
    ensures
        r@.len() == 96,
        r@.subrange(0, 64) == raw@.subrange(0, 64),
        r@[64] == 28u8,
        forall|i: int| 65 <= i < 96 ==> r@[i] == 0u8,
{
    let mut out: Vec<u8> = Vec::new();
    let mut i: usize = 0;
    while i < 64
        invariant
            i <= 64,
            raw@.len() == 65,
            out@ == raw@.subrange(0, i as int),
        decreases 64 - i,
    {
        out.push(raw[i]);
        proof {
            assert(raw@.subrange(0, i + 1) =~= raw@.subrange(0, i as int).push(raw@[i as int]));
        }
        i = i + 1;
    }
    out.push(28u8);
    let mut j: usize = 0;
    while j < 31
        invariant
            j <= 31,
            raw@.len() == 65,
            out@.len() == 65 + j,
            out@.subrange(0, 64) == raw@.subrange(0, 64),
            out@[64] == 28u8,
            forall|x: int| 65 <= x < 65 + j ==> out@[x] == 0u8,
        decreases 31 - j,
    {
        out.push(0u8);
        proof {
            assert(out@.subrange(0, 64) =~= raw@.subrange(0, 64));
        }
        j = j + 1;
    }
    out
}

} // verus!
