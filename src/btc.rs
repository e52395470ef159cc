//! Bitcoin data as plain values, and the calls into the `bitcoin`,
//! `secp256k1` and `sha2` crates that the peg logic relies on.
use vstd::prelude::*;
use bitcoin::consensus::deserialize;
use bitcoin::{OutPoint, Script, Transaction, TxIn, TxOut};

verus! {

/// A transaction output: its value in satoshis and its output script.
#[derive(Debug, PartialEq, Eq)]
pub struct TxOutput {
    pub value: u64,
    pub script: Vec<u8>,
}

impl View for TxOutput {
    type V = (u64, Seq<u8>);

    open spec fn view(&self) -> (u64, Seq<u8>) {
        (self.value, self.script@)
    }
}

/// A spent output reference with the input's sequence number.
#[derive(Debug, PartialEq, Eq)]
pub struct TxInput {
    pub txid: Vec<u8>,
    pub index: u32,
    pub sequence: u32,
}

impl View for TxInput {
    type V = (Seq<u8>, u32, u32);

    open spec fn view(&self) -> (Seq<u8>, u32, u32) {
        (self.txid@, self.index, self.sequence)
    }
}

/// An unsigned Bitcoin transaction as the peg builds it.
#[derive(Debug, PartialEq, Eq)]
pub struct BitcoinTx {
    pub version: i32,
    pub lock_time: u32,
    pub inputs: Vec<TxInput>,
    pub outputs: Vec<TxOutput>,
}

impl View for BitcoinTx {
    type V = (i32, u32, Seq<(Seq<u8>, u32, u32)>, Seq<(u64, Seq<u8>)>);

    open spec fn view(&self) -> Self::V {
        (self.version, self.lock_time, self.inputs@.map_values(|i: TxInput| i@), self.outputs@.map_values(|o: TxOutput| o@))
    }
}

/// What the peg reads from a decoded deposit transaction.
#[derive(Debug, PartialEq, Eq)]
pub struct DecodedTx {
    pub txid: Vec<u8>,
    pub outputs: Vec<TxOutput>,
}

impl View for DecodedTx {
    type V = (Seq<u8>, Seq<(u64, Seq<u8>)>);

    open spec fn view(&self) -> Self::V {
        (self.txid@, self.outputs@.map_values(|o: TxOutput| o@))
    }
}

/// What a partial merkle tree proves: its root, the matched txids and their positions.
#[derive(Debug, PartialEq, Eq)]
pub struct ProofMatches {
    pub merkle_root: Vec<u8>,
    pub txids: Vec<Vec<u8>>,
    pub indexes: Vec<u32>,
}

impl View for ProofMatches {
    type V = (Seq<u8>, Seq<Seq<u8>>, Seq<u32>);

    open spec fn view(&self) -> Self::V {
        (self.merkle_root@, self.txids@.map_values(|t: Vec<u8>| t@), self.indexes@)
    }
}

/// What the header store reads from a block header.
#[derive(Debug, PartialEq, Eq)]
pub struct HeaderFields {
    pub hash: Vec<u8>,
    pub prev_hash: Vec<u8>,
    pub merkle_root: Vec<u8>,
    /// The header's hash meets the target that its own bits declare.
    pub pow_ok: bool,
    /// That target, as 32 big-endian bytes.
    pub target: Vec<u8>,
}

impl View for HeaderFields {
    type V = (Seq<u8>, Seq<u8>, Seq<u8>, bool, Seq<u8>);

    open spec fn view(&self) -> Self::V {
        (self.hash@, self.prev_hash@, self.merkle_root@, self.pow_ok, self.target@)
    }
}

pub uninterp spec fn decoded_tx(raw: Seq<u8>) -> Option<(Seq<u8>, Seq<(u64, Seq<u8>)>)>;

pub uninterp spec fn extracted_proof(proof: Seq<u8>) -> Option<(Seq<u8>, Seq<Seq<u8>>, Seq<u32>)>;

pub uninterp spec fn decoded_header(raw: Seq<u8>) -> Option<(Seq<u8>, Seq<u8>, Seq<u8>, bool, Seq<u8>)>;

/// The proof-of-work limit, `0xffff << 208`, as 32 big-endian bytes.
pub open spec fn pow_limit_bytes() -> Seq<u8> {
    Seq::new(32, |i: int| if i == 4 || i == 5 { 0xffu8 } else { 0u8 })
}

pub uninterp spec fn bip143_sighash(tx: (i32, u32, Seq<(Seq<u8>, u32, u32)>, Seq<(u64, Seq<u8>)>), input: int, script_code: Seq<u8>, value: u64) -> Seq<u8>;

pub uninterp spec fn tx_encoding(tx: (i32, u32, Seq<(Seq<u8>, u32, u32)>, Seq<(u64, Seq<u8>)>)) -> Seq<u8>;

pub uninterp spec fn tx_id(tx: (i32, u32, Seq<(Seq<u8>, u32, u32)>, Seq<(u64, Seq<u8>)>)) -> Seq<u8>;

pub uninterp spec fn ecdsa_valid(msg: Seq<u8>, sig: Seq<u8>, pubkey: Seq<u8>) -> bool;

pub uninterp spec fn valid_pubkey(bytes: Seq<u8>) -> bool;

pub uninterp spec fn sha256_of(data: Seq<u8>) -> Seq<u8>;

/// Relies on `bitcoin::consensus::deserialize` for a `Transaction`, with its
/// `txid` (32 bytes) and its outputs in order; `None` where the bytes are no
/// transaction.
#[verifier::external_body]
pub(crate) fn decode_transaction(raw: &[u8]) -> (r: Option<DecodedTx>)
    ensures
        r is None <==> decoded_tx(raw@) is None,
        r is Some ==> decoded_tx(raw@) == Some(r->0@) && r->0.txid@.len() == 32,
{
    let tx: Transaction = deserialize(raw).ok()?;
    let outputs = tx.output.iter().map(|o| TxOutput { value: o.value, script: o.script_pubkey.to_bytes() }).collect();
    Some(DecodedTx { txid: bitcoin::hashes::Hash::into_inner(tx.txid()).to_vec(), outputs })
}

/// Relies on `bitcoin::consensus::deserialize` for a `PartialMerkleTree` and
/// on its `extract_matches`: the merkle root, the matched txids and their
/// positions in the block; `None` where either fails.
#[verifier::external_body]
pub(crate) fn extract_proof(proof: &[u8]) -> (r: Option<ProofMatches>)
    ensures
        r is None <==> extracted_proof(proof@) is None,
        r is Some ==> extracted_proof(proof@) == Some(r->0@),
{
    let tree: bitcoin::util::merkleblock::PartialMerkleTree = deserialize(proof).ok()?;
    let (mut txids, mut indexes) = (vec![], vec![]);
    let root = tree.extract_matches(&mut txids, &mut indexes).ok()?;
    let txids = txids.iter().map(|t| bitcoin::hashes::Hash::into_inner(*t).to_vec()).collect();
    Some(ProofMatches { merkle_root: bitcoin::hashes::Hash::into_inner(root).to_vec(), txids, indexes })
}

/// Relies on `bitcoin::consensus::deserialize` for a `BlockHeader`, on its
/// `block_hash`, `prev_blockhash` and `merkle_root`, and on `validate_pow`
/// against the header's own `target`.
#[verifier::external_body]
pub(crate) fn decode_header(raw: &[u8]) -> (r: Option<HeaderFields>)
    ensures
        r is None <==> decoded_header(raw@) is None,
        r is Some ==> decoded_header(raw@) == Some(r->0@) && r->0.target@.len() == 32,
{
    let h: bitcoin::BlockHeader = deserialize(raw).ok()?;
    Some(HeaderFields {
        hash: bitcoin::hashes::Hash::into_inner(h.block_hash()).to_vec(),
        prev_hash: bitcoin::hashes::Hash::into_inner(h.prev_blockhash).to_vec(),
        merkle_root: bitcoin::hashes::Hash::into_inner(h.merkle_root).to_vec(),
        pow_ok: h.validate_pow(&h.target()).is_ok(),
        target: h.target().to_be_bytes().to_vec(),
    })
}

/// Relies on `bitcoin::blockdata::constants::max_target` for the test
/// network, `0xffff << 208`, through `Uint256::to_be_bytes`.
#[verifier::external_body]
pub(crate) fn proof_of_work_limit() -> (r: Vec<u8>)
    ensures
        r@ == pow_limit_bytes(),
{
    bitcoin::blockdata::constants::max_target(bitcoin::Network::Testnet).to_be_bytes().to_vec()
}

/// Relies on `bitcoin::Script::to_v0_p2wsh`: the pay-to-witness-script-hash
/// output script that a witness script is spent through, `OP_0` followed by
/// a push of the script's SHA-256 (`Script::wscript_hash`, `new_v0_wsh`).
#[verifier::external_body]
pub(crate) fn p2wsh(script: &Vec<u8>) -> (r: Vec<u8>)
    ensures
        r@ == seq![0x00u8, 0x20u8] + sha256_of(script@),
{
    Script::from(script.clone()).to_v0_p2wsh().to_bytes()
}

/// Relies on `bitcoin::util::bip143::SighashComponents::sighash_all`: the
/// BIP-143 digest that a signature over input `input` commits to.
#[verifier::external_body]
pub(crate) fn sighash_all(tx: &BitcoinTx, input: usize, script_code: &Vec<u8>, value: u64) -> (r: Vec<u8>)
    requires
        input < tx.inputs@.len(),
        forall|i: int| 0 <= i < tx.inputs@.len() ==> (#[trigger] tx.inputs@[i]).txid@.len() == 32,
    ensures
        r@ == bip143_sighash(tx@, input as int, script_code@, value),
{
    let t = Transaction {
        version: tx.version,
        lock_time: tx.lock_time,
        input: tx.inputs.iter().map(|i| TxIn { previous_output: OutPoint { txid: deserialize(&i.txid).unwrap(), vout: i.index }, script_sig: Script::from(vec![]), sequence: i.sequence, witness: vec![] }).collect(),
        output: tx.outputs.iter().map(|o| TxOut { value: o.value, script_pubkey: Script::from(o.script.clone()) }).collect(),
    };
    let sighash = bitcoin::util::bip143::SighashComponents::new(&t).sighash_all(&t.input[input], &Script::from(script_code.clone()), value);
    bitcoin::hashes::Hash::into_inner(sighash).to_vec()
}

/// Relies on `bitcoin::consensus::serialize` of a `Transaction`: its bytes as
/// relayed to the Bitcoin network.
#[verifier::external_body]
pub(crate) fn encode_transaction(tx: &BitcoinTx) -> (r: Vec<u8>)
    requires
        forall|i: int| 0 <= i < tx.inputs@.len() ==> (#[trigger] tx.inputs@[i]).txid@.len() == 32,
    ensures
        r@ == tx_encoding(tx@),
{
    let t = Transaction {
        version: tx.version,
        lock_time: tx.lock_time,
        input: tx.inputs.iter().map(|i| TxIn { previous_output: OutPoint { txid: deserialize(&i.txid).unwrap(), vout: i.index }, script_sig: Script::from(vec![]), sequence: i.sequence, witness: vec![] }).collect(),
        output: tx.outputs.iter().map(|o| TxOut { value: o.value, script_pubkey: Script::from(o.script.clone()) }).collect(),
    };
    bitcoin::consensus::serialize(&t)
}

/// Relies on `bitcoin::Transaction::txid`: 32 bytes.
#[verifier::external_body]
pub(crate) fn transaction_id(tx: &BitcoinTx) -> (r: Vec<u8>)
    requires
        forall|i: int| 0 <= i < tx.inputs@.len() ==> (#[trigger] tx.inputs@[i]).txid@.len() == 32,
    ensures
        r@ == tx_id(tx@),
        r@.len() == 32,
{
    let t = Transaction {
        version: tx.version,
        lock_time: tx.lock_time,
        input: tx.inputs.iter().map(|i| TxIn { previous_output: OutPoint { txid: deserialize(&i.txid).unwrap(), vout: i.index }, script_sig: Script::from(vec![]), sequence: i.sequence, witness: vec![] }).collect(),
        output: tx.outputs.iter().map(|o| TxOut { value: o.value, script_pubkey: Script::from(o.script.clone()) }).collect(),
    };
    bitcoin::hashes::Hash::into_inner(t.txid()).to_vec()
}

/// Relies on `secp256k1`: `Message::from_slice`, `Signature::from_compact`,
/// `PublicKey::from_slice` and `Secp256k1::verify`; true only where all three
/// parse and the signature verifies.
#[verifier::external_body]
pub(crate) fn verify_ecdsa(msg: &[u8], sig: &[u8], pubkey: &[u8]) -> (r: bool)
    ensures
        r == ecdsa_valid(msg@, sig@, pubkey@),
{
    let secp = secp256k1::Secp256k1::verification_only();
    match (secp256k1::Message::from_slice(msg), secp256k1::Signature::from_compact(sig), secp256k1::PublicKey::from_slice(pubkey)) {
        (Ok(m), Ok(s), Ok(p)) => secp.verify(&m, &s, &p).is_ok(),
        _ => false,
    }
}

/// Relies on `bitcoin::PublicKey::from_slice`: whether the bytes are a
/// secp256k1 public key, compressed or not.
#[verifier::external_body]
pub(crate) fn is_valid_pubkey(bytes: &[u8]) -> (r: bool)
    ensures
        r == valid_pubkey(bytes@),
{
    bitcoin::PublicKey::from_slice(bytes).is_ok()
}

/// Relies on `sha2::Sha256::digest`: 32 bytes.
#[verifier::external_body]
pub(crate) fn sha256(data: &[u8]) -> (r: Vec<u8>)
    ensures
        r@ == sha256_of(data@),
        r@.len() == 32,
{
    <sha2::Sha256 as sha2::Digest>::digest(data).to_vec()
}

} // verus!
