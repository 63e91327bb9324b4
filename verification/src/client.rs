//! Per-chain-pair relay client: decides mine/finalize eligibility against
//! fresh chain state and builds the corresponding submissions.
//!
//! Every policy decision and every submission payload is a verified pure
//! function with an exact contract; the gateway and signer boundaries state
//! nothing, and their results are checked before use.

use vstd::prelude::*;
use vstd::slice::slice_to_vec;
use vstd::string::StringSliceAdditionalSpecFns;

use crate::codec::{
    clone_token, clone_tokens, lemma_toks_v_index, lemma_toks_v_len, lemma_toks_v_take_push,
    tok_v, toks_v, word, word_vec, Token, TokenV,
};
use crate::eip712::{
    domain_hash, domain_preimage, final_hash, final_preimage, keccak256, keccak_of, message_hash,
    pack_multi_signature,
};
use crate::gateway::{Gateway, SigningCapability};
use crate::records::{
    decode_local_block, decode_local_block_and_txs, decode_mined_block_and_txs, tx_tuple_tv,
    txs_tvs, txs_wf,
};
use crate::types::{
    ChainRequestError, ChainRequestResult, EIP712Config, QpLocalBlock, QpRemoteBlock,
    QpTransaction,
};

verus! {

// ---------------------------------------------------------------------
// Relay policy
// ---------------------------------------------------------------------

/// Mine eligibility: there is something to mine exactly when the remote
/// chain reports its block ready and the source nonce is strictly ahead of
/// the last nonce mined locally from that chain; the target is then the
/// source nonce.
pub fn mine_decision(block_ready: bool, source_nonce: u64, mined_nonce: u64) -> (r: Option<u64>)
    ensures
        r == (if block_ready && mined_nonce < source_nonce {
            Some(source_nonce)
        } else {
            None::<u64>
        }),
{
    if block_ready && mined_nonce < source_nonce {
        Some(source_nonce)
    } else {
        None
    }
}

/// Race detection: mining may proceed only while the target slot still
/// holds the all-zero sentinel hash; otherwise the block was already mined.
pub fn check_mine_slot(mined: &QpRemoteBlock) -> (r: ChainRequestResult<()>)
    ensures
        (r is Ok <==> (forall|i: int| 0 <= i < mined.block_hash@.len()
            ==> mined.block_hash@[i] == 0u8)),
        (r matches Err(e) ==> e == ChainRequestError::RemoteBlockAlreadyMined),
{
    let mut i: usize = 0;
    while i < mined.block_hash.len()
        invariant
            i <= mined.block_hash@.len(),
            forall|j: int| 0 <= j < i ==> mined.block_hash@[j] == 0u8,
        decreases mined.block_hash@.len() - i,
    {
        if mined.block_hash[i] != 0 {
            return Err(ChainRequestError::RemoteBlockAlreadyMined);
        }
        i = i + 1;
    }
    Ok(())
}

/// Finalize eligibility: there is something to finalize exactly when the
/// mined nonce is strictly greater than the last finalized nonce; the
/// target is then the mined nonce.
pub fn finalize_decision(mined_nonce: u64, finalized_nonce: u64) -> (r: Option<u64>)
    ensures
        r == (if mined_nonce > finalized_nonce {
            Some(mined_nonce)
        } else {
            None::<u64>
        }),
{
    if mined_nonce > finalized_nonce {
        Some(mined_nonce)
    } else {
        None
    }
}

/// Authorization expiry: one hour past the mined block's timestamp,
/// saturating at the largest representable time.
pub fn finalize_expiry(timestamp: u64) -> (r: u64)
    ensures
        r == (if timestamp + 3600 <= u64::MAX {
            (timestamp + 3600) as u64
        } else {
            u64::MAX
        }),
{
    if timestamp <= u64::MAX - 3600 {
        timestamp + 3600
    } else {
        u64::MAX
    }
}

/// Reads a boolean out of one response word: true exactly when any byte is
/// non-zero. Fails on a buffer that is not a single 32-byte word.
pub fn word_nonzero(data: &Vec<u8>) -> (r: ChainRequestResult<bool>)
    ensures
        (r matches Ok(f) ==> data@.len() == 32 && (f <==> exists|i: int| 0 <= i < 32
            && data@[i] != 0u8)),
        (data@.len() == 32 ==> r is Ok),
        (r matches Err(e) ==> e == ChainRequestError::DecodeError),
{
    if data.len() != 32 {
        return Err(ChainRequestError::DecodeError);
    }
    let mut i: usize = 0;
    while i < 32
        invariant
            i <= 32,
            data@.len() == 32,
            forall|j: int| 0 <= j < i ==> data@[j] == 0u8,
        decreases 32 - i,
    {
        if data[i] != 0 {
            return Ok(true);
        }
        i = i + 1;
    }
    Ok(false)
}

// ---------------------------------------------------------------------
// Submission payloads
// ---------------------------------------------------------------------

/// Salt carried by a mine submission: a fixed placeholder, 31 zero bytes
/// then one.
pub open spec fn mine_salt_bytes() -> Seq<u8> {
    Seq::new(32, |i: int| if i == 31 { 1u8 } else { 0u8 })
}

/// Signature placeholder carried by a mine submission: 30 zero bytes then
/// two ones (the single-signer mine path submits a fixed authorization).
pub open spec fn mine_placeholder_sig() -> Seq<u8> {
    Seq::new(32, |i: int| if i >= 30 { 1u8 } else { 0u8 })
}

/// Expiry carried by a mine submission.
pub open spec fn mine_placeholder_expiry() -> u64 {
    2147483647u64
}

fn mine_salt_token() -> (r: Token)
    ensures
        tok_v(r) == TokenV::FixedBytes(mine_salt_bytes()),
{
    let mut b: Vec<u8> = Vec::new();
    let mut i: usize = 0;
    while i < 31
        invariant
            i <= 31,
            b@.len() == i,
            forall|j: int| 0 <= j < i ==> b@[j] == 0u8,
        decreases 31 - i,
    {
        b.push(0u8);
        i = i + 1;
    }
    b.push(1u8);
    proof {
        assert(b@ =~= mine_salt_bytes());
    }
    Token::FixedBytes(b)
}

fn mine_placeholder_sig_token() -> (r: Token)
    ensures
        tok_v(r) == TokenV::Bytes(mine_placeholder_sig()),
{
    let mut b: Vec<u8> = Vec::new();
    let mut i: usize = 0;
    while i < 30
        invariant
            i <= 30,
            b@.len() == i,
            forall|j: int| 0 <= j < i ==> b@[j] == 0u8,
        decreases 30 - i,
    {
        b.push(0u8);
        i = i + 1;
    }
    b.push(1u8);
    b.push(1u8);
    proof {
        assert(b@ =~= mine_placeholder_sig());
    }
    Token::Bytes(b)
}

/// One unsigned-integer argument word.
pub fn uint_token(v: u64) -> (r: Token)
    ensures
        tok_v(r) == TokenV::Uint(word(v)),
{
    Token::Uint(word_vec(v))
}

/// One bridged transaction as an argument tuple.
pub fn transaction_token(t: &QpTransaction) -> (r: Token)
    ensures
        tok_v(r) == tx_tuple_tv(*t),
{
    let mut fields: Vec<Token> = Vec::new();
    fields.push(uint_token(t.timestamp));
    fields.push(Token::Address(slice_to_vec(t.remote_contract.as_slice())));
    fields.push(Token::Address(slice_to_vec(t.source_msg_sender.as_slice())));
    fields.push(Token::Address(slice_to_vec(t.source_beneficiary.as_slice())));
    fields.push(Token::Address(slice_to_vec(t.token.as_slice())));
    fields.push(Token::Uint(slice_to_vec(t.amount.as_slice())));
    fields.push(Token::Bytes(slice_to_vec(t.method.as_slice())));
    fields.push(uint_token(t.gas));
    proof {
        lemma_toks_v_len(fields@);
        lemma_toks_v_index(fields@, 0);
        lemma_toks_v_index(fields@, 1);
        lemma_toks_v_index(fields@, 2);
        lemma_toks_v_index(fields@, 3);
        lemma_toks_v_index(fields@, 4);
        lemma_toks_v_index(fields@, 5);
        lemma_toks_v_index(fields@, 6);
        lemma_toks_v_index(fields@, 7);
        assert(toks_v(fields@) =~= crate::records::tx_field_tvs(*t));
    }
    Token::Tuple(fields)
}

/// The whole transaction list as one argument array.
pub fn transaction_array_token(txs: &Vec<QpTransaction>) -> (r: Token)
    ensures
        tok_v(r) == TokenV::Array(txs_tvs(txs@)),
{
    proof {
        crate::records::lemma_txs_tvs_len(txs@);
    }
    let mut items: Vec<Token> = Vec::new();
    let mut i: usize = 0;
    while i < txs.len()
        invariant
            i <= txs@.len(),
            items@.len() == i,
            txs_tvs(txs@).len() == txs@.len(),
            toks_v(items@) == txs_tvs(txs@).subrange(0, i as int),
        decreases txs@.len() - i,
    {
        let tok = transaction_token(&txs[i]);
        proof {
            lemma_toks_v_take_push(items@.push(tok), i as int);
            assert(items@.push(tok).subrange(0, i as int) =~= items@);
            assert(items@.push(tok).subrange(0, i + 1) =~= items@.push(tok));
            crate::records::lemma_txs_tvs_index(txs@, i as int);
            assert(txs_tvs(txs@).subrange(0, i + 1) =~= txs_tvs(txs@).subrange(0, i as int).push(
                txs_tvs(txs@)[i as int],
            ));
        }
        items.push(tok);
        i = i + 1;
    }
    proof {
        assert(txs_tvs(txs@).subrange(0, txs@.len() as int) =~= txs_tvs(txs@));
    }
    Token::Array(items)
}

/// The exact argument values of a mine submission: chain, nonce, the
/// transaction list, and the fixed placeholder salt, expiry and signature
/// of the single-signer mine path.
pub open spec fn mine_args_tvs(
    remote_chain_id: u64,
    block_nonce: u64,
    txs: Seq<QpTransaction>,
) -> Seq<TokenV> {
    seq![
        TokenV::Uint(word(remote_chain_id)),
        TokenV::Uint(word(block_nonce)),
        TokenV::Array(txs_tvs(txs)),
        TokenV::FixedBytes(mine_salt_bytes()),
        TokenV::Uint(word(mine_placeholder_expiry())),
        TokenV::Bytes(mine_placeholder_sig()),
    ]
}

/// Builds the argument list of a mine submission.
pub fn mine_call_args(remote_chain_id: u64, block_nonce: u64, txs: &Vec<QpTransaction>) -> (r:
    Vec<Token>)
    ensures
        toks_v(r@) == mine_args_tvs(remote_chain_id, block_nonce, txs@),
{
    let mut args: Vec<Token> = Vec::new();
    args.push(uint_token(remote_chain_id));
    args.push(uint_token(block_nonce));
    args.push(transaction_array_token(txs));
    args.push(mine_salt_token());
    args.push(uint_token(2147483647u64));
    args.push(mine_placeholder_sig_token());
    proof {
        lemma_toks_v_len(args@);
        lemma_toks_v_index(args@, 0);
        lemma_toks_v_index(args@, 1);
        lemma_toks_v_index(args@, 2);
        lemma_toks_v_index(args@, 3);
        lemma_toks_v_index(args@, 4);
        lemma_toks_v_index(args@, 5);
        assert(toks_v(args@) =~= mine_args_tvs(remote_chain_id, block_nonce, txs@));
    }
    args
}

/// The exact argument values of a finalize submission: chain, nonce, the
/// finalizers hash and salt both bound to the mined block's hash, the
/// one-hour expiry, and the packed authorization.
pub open spec fn finalize_args_tvs(
    remote_chain_id: u64,
    block_nonce: u64,
    block_hash: Seq<u8>,
    expiry_time: u64,
    multi_sig: Seq<u8>,
) -> Seq<TokenV> {
    seq![
        TokenV::Uint(word(remote_chain_id)),
        TokenV::Uint(word(block_nonce)),
        TokenV::FixedBytes(block_hash),
        TokenV::Array(Seq::<TokenV>::empty()),
        TokenV::FixedBytes(block_hash),
        TokenV::Uint(word(expiry_time)),
        TokenV::Bytes(multi_sig),
    ]
}

/// Builds the argument list of a finalize submission.
pub fn finalize_call_args(
    remote_chain_id: u64,
    block_nonce: u64,
    block_hash: &Vec<u8>,
    expiry_time: u64,
    multi_sig: Vec<u8>,
) -> (r: Vec<Token>)
    ensures
        toks_v(r@) == finalize_args_tvs(
            remote_chain_id,
            block_nonce,
            block_hash@,
            expiry_time,
            multi_sig@,
        ),
{
    let mut args: Vec<Token> = Vec::new();
    args.push(uint_token(remote_chain_id));
    args.push(uint_token(block_nonce));
    args.push(Token::FixedBytes(slice_to_vec(block_hash.as_slice())));
    args.push(Token::Array(Vec::new()));
    args.push(Token::FixedBytes(slice_to_vec(block_hash.as_slice())));
    args.push(uint_token(expiry_time));
    args.push(Token::Bytes(multi_sig));
    proof {
        lemma_toks_v_len(args@);
        lemma_toks_v_index(args@, 0);
        lemma_toks_v_index(args@, 1);
        lemma_toks_v_index(args@, 2);
        lemma_toks_v_index(args@, 3);
        lemma_toks_v_index(args@, 4);
        lemma_toks_v_index(args@, 5);
        lemma_toks_v_index(args@, 6);
        assert(toks_v(args@) =~= finalize_args_tvs(
            remote_chain_id,
            block_nonce,
            block_hash@,
            expiry_time,
            multi_sig@,
        ));
    }
    args
}

/// Finalize-submission law: whenever the mined watermark is strictly ahead
/// of the finalized one, the pair is eligible with the mined nonce as the
/// target, and the submission built from the mined block carries in its
/// expiry argument exactly one hour past that block's timestamp.
/// Timestamps within an hour of the largest representable time are left
/// out: there the expiry saturates instead.
pub proof fn lemma_finalize_submission_law(
    remote_chain_id: u64,
    mined_nonce: u64,
    finalized_nonce: u64,
    timestamp: u64,
    block_hash: Seq<u8>,
    multi_sig: Seq<u8>,
)
    requires
        mined_nonce > finalized_nonce,
        timestamp + 3600 <= u64::MAX,
    ensures
        (if mined_nonce > finalized_nonce {
            Some(mined_nonce)
        } else {
            None::<u64>
        }) == Some(mined_nonce),
        ({
            let expiry = if timestamp + 3600 <= u64::MAX {
                (timestamp + 3600) as u64
            } else {
                u64::MAX
            };
            expiry == timestamp + 3600 && finalize_args_tvs(
                remote_chain_id,
                mined_nonce,
                block_hash,
                expiry,
                multi_sig,
            )[5] == TokenV::Uint(word((timestamp + 3600) as u64))
        }),
{
}

// ---------------------------------------------------------------------
// Structured-data authorization
// ---------------------------------------------------------------------

/// Type string of the finalize authorization record.
pub open spec fn finalize_method_type_bytes() -> Seq<u8> {
    "Finalize(uint256 remoteChainId,uint256 blockNonce,bytes32 finalizersHash,address[] finalizers,bytes32 salt,uint64 expiry)".spec_bytes()
}

/// Type string of the authority-signature validation record.
pub open spec fn validate_authority_type_bytes() -> Seq<u8> {
    "ValidateAuthoritySignature(uint256 action,bytes32 msgHash,bytes32 salt,uint64 expiry)".spec_bytes()
}

/// The deterministic hash a finalize authorization signs: domain separator,
/// then the finalize message hash, then the validation record hash, bound
/// together by the fixed two-byte prefix.
pub open spec fn finalize_auth_hash(
    name: Seq<u8>,
    version: Seq<u8>,
    chain_id: u64,
    verifying: Seq<u8>,
    remote_chain_id: u64,
    block_nonce: u64,
    finalizer_hash: TokenV,
    finalizers: Seq<TokenV>,
    salt: TokenV,
    expiry: TokenV,
) -> Seq<u8> {
    let domain = keccak_of(domain_preimage(name, version, chain_id, verifying));
    let msg = keccak_of(crate::codec::encoded_list(seq![
        TokenV::FixedBytes(keccak_of(finalize_method_type_bytes())),
        TokenV::Uint(word(remote_chain_id)),
        TokenV::Uint(word(block_nonce)),
        finalizer_hash,
        TokenV::Array(finalizers),
        salt,
        expiry,
    ]));
    let args = keccak_of(crate::codec::encoded_list(seq![
        TokenV::FixedBytes(keccak_of(validate_authority_type_bytes())),
        TokenV::Uint(word(1u64)),
        TokenV::FixedBytes(msg),
        salt,
        expiry,
    ]));
    keccak_of(final_preimage(domain, args))
}

// ---------------------------------------------------------------------
// The relay client
// ---------------------------------------------------------------------

/// Relay client for one chain: reads watermark state through the gateway,
/// decides the next relay action, and submits it.
pub struct QuantumPortalClient<G: Gateway, S: SigningCapability> {
    pub contract: G,
    pub signer: S,
    pub chain_id: u64,
    pub now: u64,
    pub block_number: u64,
    pub eip_712_config: EIP712Config,
}

impl<G: Gateway, S: SigningCapability> QuantumPortalClient<G, S> {
    pub fn new(
        contract: G,
        signer: S,
        now: u64,
        block_number: u64,
        eip_712_config: EIP712Config,
        chain_id: u64,
    ) -> (r: Self)
        ensures
            r.contract == contract,
            r.signer == signer,
            r.chain_id == chain_id,
            r.now == now,
            r.block_number == block_number,
            r.eip_712_config == eip_712_config,
    {
        QuantumPortalClient { contract, signer, chain_id, now, block_number, eip_712_config }
    }

    /// Asks the remote chain whether its local block for `chain_id` is
    /// ready to be read: any non-zero response word means ready.
    pub fn is_local_block_ready(&self, chain_id: u64) -> ChainRequestResult<bool> {
        let sig = slice_to_vec("isLocalBlockReady(uint64)".as_bytes());
        let mut args: Vec<Token> = Vec::new();
        args.push(uint_token(chain_id));
        match self.contract.call(&sig, &args) {
            Ok(res) => word_nonzero(&res),
            Err(e) => Err(e),
        }
    }

    /// Reads the header of the last block mined on this chain from
    /// `chain_id`.
    pub fn last_remote_mined_block(&self, chain_id: u64) -> ChainRequestResult<QpLocalBlock> {
        let sig = slice_to_vec("lastRemoteMinedBlock(uint64)".as_bytes());
        let mut args: Vec<Token> = Vec::new();
        args.push(uint_token(chain_id));
        match self.contract.call(&sig, &args) {
            Ok(res) => decode_local_block(res.as_slice()),
            Err(e) => Err(e),
        }
    }

    /// Reads the header of the last block finalized on this chain for
    /// `chain_id`.
    pub fn last_finalized_block(&self, chain_id: u64) -> ChainRequestResult<QpLocalBlock> {
        let sig = slice_to_vec("lastFinalizedBlock(uint256)".as_bytes());
        let mut args: Vec<Token> = Vec::new();
        args.push(uint_token(chain_id));
        match self.contract.call(&sig, &args) {
            Ok(res) => decode_local_block(res.as_slice()),
            Err(e) => Err(e),
        }
    }

    /// Reads the latest locally-produced block header for `chain_id`.
    pub fn last_local_block(&self, chain_id: u64) -> ChainRequestResult<QpLocalBlock> {
        let sig = slice_to_vec("lastLocalBlock(uint256)".as_bytes());
        let mut args: Vec<Token> = Vec::new();
        args.push(uint_token(chain_id));
        match self.contract.call(&sig, &args) {
            Ok(res) => decode_local_block(res.as_slice()),
            Err(e) => Err(e),
        }
    }

    /// Reads a local block and its transaction list by nonce.
    pub fn local_block_by_nonce(&self, chain_id: u64, last_block_nonce: u64) -> (r:
        ChainRequestResult<(QpLocalBlock, Vec<QpTransaction>)>)
        ensures
            (r matches Ok(p) ==> txs_wf(p.1@)),
    {
        let sig = slice_to_vec("localBlockByNonce(uint64,uint64)".as_bytes());
        let mut args: Vec<Token> = Vec::new();
        args.push(uint_token(chain_id));
        args.push(uint_token(last_block_nonce));
        match self.contract.call(&sig, &args) {
            Ok(res) => decode_local_block_and_txs(res.as_slice()),
            Err(e) => Err(e),
        }
    }

    /// Reads a mined-block record and its transaction list by nonce.
    pub fn mined_block_by_nonce(&self, chain_id: u64, last_block_nonce: u64) -> (r:
        ChainRequestResult<(QpRemoteBlock, Vec<QpTransaction>)>)
        ensures
            (r matches Ok(p) ==> p.0.wf() && txs_wf(p.1@)),
    {
        let sig = slice_to_vec("minedBlockByNonce(uint64,uint64)".as_bytes());
        let mut args: Vec<Token> = Vec::new();
        args.push(uint_token(chain_id));
        args.push(uint_token(last_block_nonce));
        match self.contract.call(&sig, &args) {
            Ok(res) => decode_mined_block_and_txs(res.as_slice()),
            Err(e) => Err(e),
        }
    }

    /// The deterministic authorization hash over the finalize fields, in
    /// the exact order the verifier reconstructs them.
    pub fn finalize_authorization_hash(
        &self,
        remote_chain_id: u64,
        block_nonce: u64,
        finalizer_hash: &Token,
        finalizer_list: &Vec<Token>,
        salt: &Token,
        expiry: &Token,
    ) -> (r: Vec<u8>)
        ensures
            r@ == finalize_auth_hash(
                self.eip_712_config.contract_name@,
                self.eip_712_config.contract_version@,
                self.chain_id,
                self.eip_712_config.verifying_address@,
                remote_chain_id,
                block_nonce,
                tok_v(*finalizer_hash),
                toks_v(finalizer_list@),
                tok_v(*salt),
                tok_v(*expiry),
            ),
            r@.len() == 32,
    {
        let domain = domain_hash(
            &self.eip_712_config.contract_name,
            &self.eip_712_config.contract_version,
            self.chain_id,
            &self.eip_712_config.verifying_address,
        );
        let ftype = slice_to_vec(
            "Finalize(uint256 remoteChainId,uint256 blockNonce,bytes32 finalizersHash,address[] finalizers,bytes32 salt,uint64 expiry)"
                .as_bytes(),
        );
        let fhash = keccak256(&ftype);
        let ghost fh = fhash@;
        let mut fields: Vec<Token> = Vec::new();
        fields.push(Token::FixedBytes(fhash));
        fields.push(uint_token(remote_chain_id));
        fields.push(uint_token(block_nonce));
        fields.push(clone_token(finalizer_hash));
        fields.push(Token::Array(clone_tokens(finalizer_list)));
        fields.push(clone_token(salt));
        fields.push(clone_token(expiry));
        proof {
            lemma_toks_v_len(fields@);
            lemma_toks_v_index(fields@, 0);
            lemma_toks_v_index(fields@, 1);
            lemma_toks_v_index(fields@, 2);
            lemma_toks_v_index(fields@, 3);
            lemma_toks_v_index(fields@, 4);
            lemma_toks_v_index(fields@, 5);
            lemma_toks_v_index(fields@, 6);
            assert(toks_v(fields@) =~= seq![
                TokenV::FixedBytes(keccak_of(finalize_method_type_bytes())),
                TokenV::Uint(word(remote_chain_id)),
                TokenV::Uint(word(block_nonce)),
                tok_v(*finalizer_hash),
                TokenV::Array(toks_v(finalizer_list@)),
                tok_v(*salt),
                tok_v(*expiry),
            ]);
        }
        let msg = message_hash(&fields);
        let vtype = slice_to_vec(
            "ValidateAuthoritySignature(uint256 action,bytes32 msgHash,bytes32 salt,uint64 expiry)"
                .as_bytes(),
        );
        let vhash = keccak256(&vtype);
        let mut afields: Vec<Token> = Vec::new();
        afields.push(Token::FixedBytes(vhash));
        afields.push(uint_token(1u64));
        afields.push(Token::FixedBytes(slice_to_vec(msg.as_slice())));
        afields.push(clone_token(salt));
        afields.push(clone_token(expiry));
        proof {
            lemma_toks_v_len(afields@);
            lemma_toks_v_index(afields@, 0);
            lemma_toks_v_index(afields@, 1);
            lemma_toks_v_index(afields@, 2);
            lemma_toks_v_index(afields@, 3);
            lemma_toks_v_index(afields@, 4);
            assert(toks_v(afields@) =~= seq![
                TokenV::FixedBytes(keccak_of(validate_authority_type_bytes())),
                TokenV::Uint(word(1u64)),
                TokenV::FixedBytes(msg@),
                tok_v(*salt),
                tok_v(*expiry),
            ]);
        }
        let args_hash = message_hash(&afields);
        final_hash(&domain, &args_hash)
    }

    /// Produces the packed multi-signature authorizing a finalize: hashes
    /// the fields, asks the injected signer for one signature, and packs
    /// it. Whatever the signer returns, the result is 96 bytes in the fixed
    /// wire shape, or a signing error.
    pub fn generate_multi_signature(
        &self,
        remote_chain_id: u64,
        block_nonce: u64,
        finalizer_hash: Token,
        finalizer_list: Vec<Token>,
        salt: Token,
        expiry: Token,
    ) -> (r: ChainRequestResult<Vec<u8>>)
        ensures
            (r matches Ok(sig) ==> sig@.len() == 96 && sig@[64] == 28u8 && (forall|i: int|
                65 <= i < 96 ==> sig@[i] == 0u8)),
            (r matches Err(e) ==> e == ChainRequestError::SigningError),
    {
        let eip_712_hash = self.finalize_authorization_hash(
            remote_chain_id,
            block_nonce,
            &finalizer_hash,
            &finalizer_list,
            &salt,
            &expiry,
        );
        let raw = match self.signer.sign(&eip_712_hash) {
            Ok(s) => s,
            Err(_) => {
                return Err(ChainRequestError::SigningError);
            }
        };
        if raw.len() != 65 {
            return Err(ChainRequestError::SigningError);
        }
        Ok(pack_multi_signature(&raw))
    }

    /// Builds and submits a finalize transaction for `block_nonce`: salt
    /// and finalizers hash are the mined block's hash, the expiry is one
    /// hour past its timestamp, and the authorization is signed by the
    /// injected signer. The submitted argument values are pinned by
    /// `finalize_call_args`.
    pub fn create_finalize_transaction(
        &self,
        remote_chain_id: u64,
        block_nonce: u64,
        _finalizer_hash: Vec<u8>,
        _finalizers: &Vec<Vec<u8>>,
    ) -> ChainRequestResult<Vec<u8>> {
        let block_details = match self.mined_block_by_nonce(remote_chain_id, block_nonce) {
            Ok(p) => p.0,
            Err(e) => {
                return Err(e);
            }
        };
        let expiry_time = finalize_expiry(block_details.block_metadata.timestamp);
        let salt = Token::FixedBytes(slice_to_vec(block_details.block_hash.as_slice()));
        let fin_hash = Token::FixedBytes(slice_to_vec(block_details.block_hash.as_slice()));
        let finalizer_list: Vec<Token> = Vec::new();
        let multi_sig = match self.generate_multi_signature(
            remote_chain_id,
            block_nonce,
            fin_hash,
            finalizer_list,
            salt,
            uint_token(expiry_time),
        ) {
            Ok(s) => s,
            Err(e) => {
                return Err(e);
            }
        };
        let args = finalize_call_args(
            remote_chain_id,
            block_nonce,
            &block_details.block_hash,
            expiry_time,
            multi_sig,
        );
        let sig = slice_to_vec(
            "finalizeSingleSigner(uint256,uint256,bytes32,address[],bytes32,uint64,bytes)"
                .as_bytes(),
        );
        let value = word_vec(0);
        let from = self.signer.signer_address();
        self.contract.send(&sig, &args, None, None, &value, None, &from)
    }

    /// Builds and submits a mine transaction carrying `txs` for
    /// `block_nonce`. The submitted argument values are pinned by
    /// `mine_call_args`.
    pub fn create_mine_transaction(
        &self,
        remote_chain_id: u64,
        block_nonce: u64,
        txs: &Vec<QpTransaction>,
    ) -> ChainRequestResult<Vec<u8>> {
        let args = mine_call_args(remote_chain_id, block_nonce, txs);
        let sig = slice_to_vec(
            "mineRemoteBlock(uint64,uint64,(uint64,address,address,address,address,uint256,bytes,uint256)[],bytes32,uint64,bytes)"
                .as_bytes(),
        );
        let value = word_vec(0);
        let from = self.signer.signer_address();
        self.contract.send(&sig, &args, None, None, &value, None, &from)
    }

    /// One finalize attempt for blocks mined from `chain_id`: reads the
    /// mined and finalized watermarks, and submits a finalize transaction
    /// exactly when `finalize_decision` finds the mined nonce ahead.
    pub fn finalize(&self, chain_id: u64) -> ChainRequestResult<Option<Vec<u8>>> {
        let block = match self.last_remote_mined_block(chain_id) {
            Ok(b) => b,
            Err(e) => {
                return Err(e);
            }
        };
        let last_fin = match self.last_finalized_block(chain_id) {
            Ok(b) => b,
            Err(e) => {
                return Err(e);
            }
        };
        match finalize_decision(block.nonce, last_fin.nonce) {
            Some(nonce) => {
                let mut finalizers: Vec<Vec<u8>> = Vec::new();
                finalizers.push(self.signer.signer_address());
                let tx = match self.create_finalize_transaction(
                    chain_id,
                    nonce,
                    word_vec(0),
                    &finalizers,
                ) {
                    Ok(t) => t,
                    Err(e) => {
                        return Err(e);
                    }
                };
                Ok(Some(tx))
            }
            None => Ok(None),
        }
    }

    /// One mine attempt from the remote chain onto this chain: reads the
    /// readiness flag and both nonce watermarks, and submits a mine
    /// transaction exactly when `mine_decision` finds new work and
    /// `check_mine_slot` sees the zero sentinel; a non-zero slot aborts
    /// with `RemoteBlockAlreadyMined`.
    pub fn mine(&self, remote_client: &QuantumPortalClient<G, S>) -> ChainRequestResult<
        Option<Vec<u8>>,
    > {
        let local_chain = self.chain_id;
        let remote_chain = remote_client.chain_id;
        let block_ready = match remote_client.is_local_block_ready(local_chain) {
            Ok(b) => b,
            Err(e) => {
                return Err(e);
            }
        };
        if !block_ready {
            return Ok(None);
        }
        let last_block = match remote_client.last_local_block(local_chain) {
            Ok(b) => b,
            Err(e) => {
                return Err(e);
            }
        };
        let last_mined_block = match self.last_remote_mined_block(remote_chain) {
            Ok(b) => b,
            Err(e) => {
                return Err(e);
            }
        };
        let nonce = match mine_decision(block_ready, last_block.nonce, last_mined_block.nonce) {
            Some(n) => n,
            None => {
                return Ok(None);
            }
        };
        let mined_block = match self.mined_block_by_nonce(remote_chain, nonce) {
            Ok(p) => p.0,
            Err(e) => {
                return Err(e);
            }
        };
        match check_mine_slot(&mined_block) {
            Ok(_) => {}
            Err(e) => {
                return Err(e);
            }
        }
        let source_block = match remote_client.local_block_by_nonce(local_chain, nonce) {
            Ok(p) => p,
            Err(e) => {
                return Err(e);
            }
        };
        let txs = source_block.1;
        let tx = match self.create_mine_transaction(remote_chain, source_block.0.nonce, &txs) {
            Ok(t) => t,
            Err(e) => {
                return Err(e);
            }
        };
        Ok(Some(tx))
    }
}

} // verus!
