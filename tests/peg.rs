use bitcoin::consensus::{deserialize, serialize};
use bitcoin::util::merkleblock::PartialMerkleTree;
use bitcoin::{BlockHeader, OutPoint, Script, Transaction, TxIn, TxOut};
use nomic_peg::accounts::{Account, Accounts};
use nomic_peg::btc::BitcoinTx;
use nomic_peg::error::Error;
use nomic_peg::peg::begin_block as start_block;
use nomic_peg::peg::{
    deposit_tx, header_tx, initialize, signature_tx, withdrawal_tx, DepositTransaction, HeaderTransaction, PegState,
    SignatureTransaction, Utxo, WithdrawalTransaction, CHECKPOINT_FEE, CHECKPOINT_INTERVAL, SIGNATORY_CHANGE_INTERVAL,
};
use nomic_peg::script::{output_script, redeem_script};
use nomic_peg::signatory_set::{signatories_from_validators, Signatory, SignatorySet};
use secp256k1::{Message, PublicKey, Secp256k1, SecretKey};
use sha2::{Digest, Sha256};

fn keypair(seed: u8) -> (SecretKey, Vec<u8>) {
    let secp = Secp256k1::new();
    let sk = SecretKey::from_slice(&[seed; 32]).unwrap();
    let pk = PublicKey::from_secret_key(&secp, &sk);
    (sk, pk.serialize().to_vec())
}

fn mock_validators() -> Vec<(Vec<u8>, u64)> {
    vec![(keypair(1).1, 100)]
}

fn build_tx(outputs: Vec<(u64, Vec<u8>)>) -> Transaction {
    Transaction {
        version: 1,
        lock_time: 0,
        input: vec![TxIn { previous_output: OutPoint::default(), script_sig: Script::new(), sequence: 0xffff_ffff, witness: vec![] }],
        output: outputs.into_iter().map(|(value, s)| TxOut { value, script_pubkey: Script::from(s) }).collect(),
    }
}

fn header_for(tx: &Transaction, prev: bitcoin::BlockHash) -> BlockHeader {
    let root: bitcoin::TxMerkleNode = deserialize(&serialize(&tx.txid())).unwrap();
    let mut header = BlockHeader { version: 1, prev_blockhash: prev, merkle_root: root, time: 0, bits: 0x207f_ffff, nonce: 0 };
    while header.validate_pow(&header.target()).is_err() {
        header.nonce += 1;
    }
    header
}

fn proof_for(tx: &Transaction) -> Vec<u8> {
    serialize(&PartialMerkleTree::from_txids(&[tx.txid()], &[true]))
}

/// A peg with the signatory set of the mock validators, derived at time 0,
/// and a block at height 0 that holds `tx`.
fn net_with_block(tx: &Transaction) -> (PegState, Accounts) {
    let mut state = PegState::new();
    let header = header_for(tx, Default::default());
    initialize(&mut state, &serialize(&header), 0).unwrap();
    start_block(&mut state, &mock_validators(), 0).unwrap();
    (state, Accounts::new())
}

fn deposit_script() -> Vec<u8> {
    let set = signatories_from_validators(&mock_validators()).unwrap();
    output_script(&set, &[123; 33])
}

fn irrelevant_tx() -> Transaction {
    build_tx(vec![(5000, vec![0x51])])
}

/// A peg whose validators are `validators`, with one pending output of
/// 100_000_000 satoshis and a checkpoint opened over it.
fn net_with_active_checkpoint(validators: &Vec<(Vec<u8>, u64)>) -> PegState {
    let mut state = PegState::new();
    start_block(&mut state, validators, 0).unwrap();
    state.utxos.push(Utxo { txid: vec![7; 32], index: 0, value: 100_000_000, signatory_set_index: 0, data: vec![123; 33] });
    start_block(&mut state, validators, 1000).unwrap();
    assert!(state.active_checkpoint.is_active);
    state
}

fn to_bitcoin(tx: &BitcoinTx) -> Transaction {
    Transaction {
        version: tx.version,
        lock_time: tx.lock_time,
        input: tx
            .inputs
            .iter()
            .map(|i| TxIn { previous_output: OutPoint::new(deserialize(&i.txid).unwrap(), i.index), script_sig: Script::new(), sequence: i.sequence, witness: vec![] })
            .collect(),
        output: tx.outputs.iter().map(|o| TxOut { value: o.value, script_pubkey: Script::from(o.script.clone()) }).collect(),
    }
}

fn checkpoint_signatures(state: &PegState, sk: &SecretKey) -> Vec<Vec<u8>> {
    let secp = Secp256k1::new();
    let btc_tx = to_bitcoin(&state.active_checkpoint_tx());
    let components = bitcoin::util::bip143::SighashComponents::new(&btc_tx);
    state
        .active_checkpoint
        .utxos
        .iter()
        .enumerate()
        .map(|(i, utxo)| {
            let set = &state.signatory_sets[utxo.signatory_set_index as usize].signatories;
            let script = Script::from(redeem_script(set, &utxo.data));
            let sighash = components.sighash_all(&btc_tx.input[i], &script, utxo.value);
            let message = Message::from_slice(&sighash[..]).unwrap();
            secp.sign(&message, sk).serialize_compact().to_vec()
        })
        .collect()
}

fn signatory_position(state: &PegState, pubkey: &[u8]) -> u32 {
    let set = &state.signatory_sets[state.active_checkpoint.signatory_set_index as usize].signatories;
    set.signatories.iter().position(|s| s.pubkey == pubkey).unwrap() as u32
}

fn signatory_sign(state: &mut PegState, sk: &SecretKey, pubkey: &[u8]) {
    let signatures = checkpoint_signatures(state, sk);
    let signatory_index = signatory_position(state, pubkey);
    signature_tx(state, SignatureTransaction { signatures, signatory_index }).unwrap();
}

fn sign_withdrawal(tx: &mut WithdrawalTransaction, sk: &SecretKey) {
    let secp = Secp256k1::new();
    let digest = Sha256::digest(&tx.signing_bytes());
    let message = Message::from_slice(&digest).unwrap();
    tx.signature = secp.sign(&message, sk).serialize_compact().to_vec();
}

fn sender(accounts: &mut Accounts, balance: u64, nonce: u64) -> (SecretKey, Vec<u8>) {
    let (sk, pk) = keypair(1);
    accounts.insert(&pk, Account { balance, nonce });
    (sk, pk)
}

fn withdrawal(from: Vec<u8>, amount: u64, nonce: u64) -> WithdrawalTransaction {
    WithdrawalTransaction { from, to: vec![123], amount, nonce, signature: vec![] }
}

fn set_of(entries: &[(Vec<u8>, u64)]) -> SignatorySet {
    let mut set = SignatorySet::new();
    for (k, p) in entries {
        set.set(Signatory::new(k.clone(), *p));
    }
    set
}

#[test]
fn init() {
    let tx = irrelevant_tx();
    let header = header_for(&tx, Default::default());
    let mut state = PegState::new();
    initialize(&mut state, &serialize(&header), 555).unwrap();
    let stored: BlockHeader = deserialize(state.headers.header_at_height(555).unwrap()).unwrap();
    assert_eq!(stored, header);
    let root = state.headers.merkle_root_at(555).unwrap();
    assert_eq!(root.as_slice(), &serialize(&header.merkle_root)[..]);
    assert!(state.headers.header_at_height(554).is_none());
}

#[test]
fn begin_block() {
    let (sk_a, pk_a) = keypair(1);
    let (_, pk_b) = keypair(2);
    let mut validators = vec![(pk_a.clone(), 100)];
    let mut state = net_with_active_checkpoint(&validators);

    let expected = set_of(&[(pk_a.clone(), 100)]);
    let current = state.current_signatory_set().unwrap();
    assert_eq!(current.time, 0);
    assert_eq!(current.signatories.signatories, expected.signatories);

    signatory_sign(&mut state, &sk_a, &pk_a);

    const TEST_START_TIME: u64 = 100_000_000;
    let mut time = TEST_START_TIME;
    let mut next_checkpoint = |state: &mut PegState, validators: &Vec<(Vec<u8>, u64)>| {
        super_begin_block(state, validators, time);
        time += CHECKPOINT_INTERVAL + 1;
        signatory_sign(state, &sk_a, &pk_a);
    };

    for _ in 0..SIGNATORY_CHANGE_INTERVAL - 3 {
        next_checkpoint(&mut state, &validators);
    }

    // validator set change
    validators.push((pk_b.clone(), 555));

    next_checkpoint(&mut state, &validators);

    // the last checkpoint has not changed the signatory set yet
    let current = state.current_signatory_set().unwrap();
    assert_eq!(current.time, 0);
    assert_eq!(current.signatories.signatories, expected.signatories);

    next_checkpoint(&mut state, &validators);

    // now the signatory set is updated
    let expected = set_of(&[(pk_a.clone(), 100), (pk_b.clone(), 555)]);
    let current = state.current_signatory_set().unwrap();
    assert_eq!(current.time, TEST_START_TIME + (SIGNATORY_CHANGE_INTERVAL - 2) * (CHECKPOINT_INTERVAL + 1));
    assert_eq!(current.signatories.signatories, expected.signatories);
}

fn super_begin_block(state: &mut PegState, validators: &Vec<(Vec<u8>, u64)>, now: u64) {
    start_block(state, validators, now).unwrap();
}

#[test]
fn deposit_invalid_height() {
    let tx = irrelevant_tx();
    let (mut peg_state, mut account_state) = net_with_block(&tx);
    let deposit = DepositTransaction { height: 100, proof: proof_for(&tx), tx: serialize(&tx), block_index: 0, recipients: vec![] };
    assert_eq!(deposit_tx(&mut peg_state, &mut account_state, deposit), Err(Error::UnknownBlock));
}

#[test]
fn deposit_invalid_proof() {
    let tx = irrelevant_tx();
    let (mut peg_state, mut account_state) = net_with_block(&tx);
    let other = build_tx(vec![(1, vec![0x52])]);
    let proof = serialize(&PartialMerkleTree::from_txids(&[other.txid()], &[true]));
    let deposit = DepositTransaction { height: 0, proof, tx: serialize(&tx), block_index: 0, recipients: vec![] };
    assert_eq!(deposit_tx(&mut peg_state, &mut account_state, deposit), Err(Error::BadProof));
}

#[test]
fn deposit_irrelevant() {
    let tx = irrelevant_tx();
    let (mut peg_state, mut account_state) = net_with_block(&tx);
    let deposit = DepositTransaction { height: 0, proof: proof_for(&tx), tx: serialize(&tx), block_index: 0, recipients: vec![vec![123; 33]] };
    assert_eq!(deposit_tx(&mut peg_state, &mut account_state, deposit), Err(Error::NoDepositOutputs));
}

#[test]
fn deposit_duplicate() {
    let tx = build_tx(vec![(100_000_000, deposit_script())]);
    let (mut peg_state, mut account_state) = net_with_block(&tx);
    let deposit = || DepositTransaction { height: 0, proof: proof_for(&tx), tx: serialize(&tx), block_index: 0, recipients: vec![vec![123; 33]] };
    assert_eq!(deposit_tx(&mut peg_state, &mut account_state, deposit()), Ok(()));
    assert_eq!(deposit_tx(&mut peg_state, &mut account_state, deposit()), Err(Error::DuplicateDeposit));
    assert_eq!(account_state.get(&[123; 33]).unwrap(), Account { balance: 100_000_000, nonce: 0 });
    assert_eq!(peg_state.utxos.len(), 1);
}

#[test]
fn deposit_no_recipients() {
    let tx = build_tx(vec![(100_000_000, deposit_script())]);
    let (mut peg_state, mut account_state) = net_with_block(&tx);
    let deposit = DepositTransaction { height: 0, proof: proof_for(&tx), tx: serialize(&tx), block_index: 0, recipients: vec![] };
    assert_eq!(deposit_tx(&mut peg_state, &mut account_state, deposit), Err(Error::RecipientsExhausted));
}

#[test]
fn deposit_ok() {
    let tx = build_tx(vec![(100_000_000, deposit_script())]);
    let (mut peg_state, mut account_state) = net_with_block(&tx);
    let deposit = DepositTransaction { height: 0, proof: proof_for(&tx), tx: serialize(&tx), block_index: 0, recipients: vec![vec![123; 33]] };
    deposit_tx(&mut peg_state, &mut account_state, deposit).unwrap();
    assert_eq!(account_state.get(&[123; 33]).unwrap(), Account { balance: 100_000_000, nonce: 0 });
    assert_eq!(peg_state.utxos.len(), 1);
    assert_eq!(peg_state.utxos[0].value, 100_000_000);
    assert_eq!(peg_state.utxos[0].txid, serialize(&tx.txid()));
    assert_eq!(peg_state.utxos[0].data, vec![123; 33]);
    assert_eq!(peg_state.processed_deposit_txids, vec![serialize(&tx.txid())]);
}

#[test]
fn withdrawal_ok() {
    let mut peg_state = PegState::new();
    let mut account_state = Accounts::new();
    let (sk, pk) = sender(&mut account_state, 1234, 0);
    let mut tx = withdrawal(pk.clone(), 1000, 0);
    sign_withdrawal(&mut tx, &sk);
    withdrawal_tx(&mut peg_state, &mut account_state, tx).unwrap();
    assert_eq!(account_state.get(&pk).unwrap(), Account { balance: 234, nonce: 1 });
    assert_eq!(peg_state.pending_withdrawals[0].value, 1000);
    assert_eq!(peg_state.pending_withdrawals[0].script, vec![123]);
}

#[test]
fn withdrawal_invalid_signature() {
    let mut peg_state = PegState::new();
    let mut account_state = Accounts::new();
    let (sk, pk) = sender(&mut account_state, 1234, 0);
    let mut tx = withdrawal(pk.clone(), 1000, 0);
    sign_withdrawal(&mut tx, &sk);
    tx.signature[10] ^= 1;
    assert_eq!(withdrawal_tx(&mut peg_state, &mut account_state, tx), Err(Error::BadSignature));
    assert_eq!(account_state.get(&pk).unwrap(), Account { balance: 1234, nonce: 0 });
}

#[test]
fn withdrawal_invalid_nonce() {
    let mut peg_state = PegState::new();
    let mut account_state = Accounts::new();
    let (sk, pk) = sender(&mut account_state, 1234, 100);
    let mut tx = withdrawal(pk, 1000, 0);
    sign_withdrawal(&mut tx, &sk);
    assert_eq!(withdrawal_tx(&mut peg_state, &mut account_state, tx), Err(Error::BadNonce));
}

#[test]
fn withdrawal_insufficient_balance() {
    let mut peg_state = PegState::new();
    let mut account_state = Accounts::new();
    let (sk, pk) = sender(&mut account_state, 1234, 0);
    let mut tx = withdrawal(pk, 2000, 0);
    sign_withdrawal(&mut tx, &sk);
    assert_eq!(withdrawal_tx(&mut peg_state, &mut account_state, tx), Err(Error::InsufficientBalance));
}

#[test]
fn withdrawal_from_nonexistent_account() {
    let mut peg_state = PegState::new();
    let mut account_state = Accounts::new();
    let (sk, pk) = keypair(1);
    let mut tx = withdrawal(pk, 1000, 0);
    sign_withdrawal(&mut tx, &sk);
    assert_eq!(withdrawal_tx(&mut peg_state, &mut account_state, tx), Err(Error::NoAccount));
}

#[test]
fn withdrawal_bad_address() {
    let mut peg_state = PegState::new();
    let mut account_state = Accounts::new();
    let tx = withdrawal(vec![1, 2, 3], 1000, 0);
    assert_eq!(withdrawal_tx(&mut peg_state, &mut account_state, tx), Err(Error::BadAddress));
}

#[test]
fn signatory_signature_no_active_checkpoint() {
    let mut state = PegState::new();
    let tx = SignatureTransaction { signatures: vec![], signatory_index: 0 };
    assert_eq!(signature_tx(&mut state, tx), Err(Error::NoActiveCheckpoint));
}

#[test]
fn signatory_signature_incorrect_signature_count() {
    let mut state = net_with_active_checkpoint(&mock_validators());
    let tx = SignatureTransaction { signatures: vec![], signatory_index: 0 };
    assert_eq!(signature_tx(&mut state, tx), Err(Error::SignatureCountMismatch));
}

#[test]
fn signatory_invalid_signature_length() {
    let mut state = net_with_active_checkpoint(&mock_validators());
    let tx = SignatureTransaction { signatures: vec![vec![1, 2, 3]], signatory_index: 0 };
    assert_eq!(signature_tx(&mut state, tx), Err(Error::BadSignatureLength));
}

#[test]
fn signatory_invalid_signatory_index() {
    let mut state = net_with_active_checkpoint(&mock_validators());
    let tx = SignatureTransaction { signatures: vec![vec![123; 64]], signatory_index: 123 };
    assert_eq!(signature_tx(&mut state, tx), Err(Error::SignatoryOutOfBounds));
}

#[test]
fn signatory_invalid_signature() {
    let mut state = net_with_active_checkpoint(&mock_validators());
    let tx = SignatureTransaction { signatures: vec![vec![123; 64]], signatory_index: 0 };
    assert_eq!(signature_tx(&mut state, tx), Err(Error::IncorrectSignature));
    assert!(state.active_checkpoint.is_active);
}

#[test]
fn signatory_ok() {
    let (sk_a, pk_a) = keypair(1);
    let mut state = net_with_active_checkpoint(&mock_validators());
    assert!(state.active_checkpoint.is_active);
    assert_eq!(state.utxos.len(), 0);

    signatory_sign(&mut state, &sk_a, &pk_a);

    assert_eq!(state.utxos.len(), 1);
    assert!(!state.active_checkpoint.is_active);
    assert_eq!(state.active_checkpoint.utxos.len(), 0);
    assert_eq!(state.active_checkpoint.withdrawals.len(), 0);
    assert_eq!(state.active_checkpoint.signed_voting_power, 0);
    assert_eq!(state.active_checkpoint.signatures.len(), 0);
    assert_eq!(state.finalized_checkpoint.signatures.len(), 1);
    assert_eq!(state.finalized_checkpoint.utxos.len(), 1);
    assert_eq!(state.finalized_checkpoint.withdrawals.len(), 0);
}

#[test]
fn signatory_already_signed() {
    let (sk_a, pk_a) = keypair(1);
    let (_, pk_b) = keypair(2);
    let validators = vec![(pk_a.clone(), 50), (pk_b, 50)];
    let mut state = net_with_active_checkpoint(&validators);
    signatory_sign(&mut state, &sk_a, &pk_a);
    let signatures = checkpoint_signatures(&state, &sk_a);
    let signatory_index = signatory_position(&state, &pk_a);
    assert_eq!(signature_tx(&mut state, SignatureTransaction { signatures, signatory_index }), Err(Error::AlreadySigned));
}

#[test]
fn genesis_then_empty_begin_block() {
    let (_, pk_a) = keypair(1);
    let mut state = PegState::new();
    start_block(&mut state, &vec![(pk_a.clone(), 100)], 0).unwrap();
    assert_eq!(state.signatory_sets.len(), 1);
    assert_eq!(state.signatory_sets[0].time, 0);
    assert_eq!(state.signatory_sets[0].signatories.signatories, vec![Signatory::new(pk_a, 100)]);
    assert!(!state.active_checkpoint.is_active);
    assert_eq!(state.checkpoint_index, 0);
}

#[test]
fn begin_block_invalid_validator_key() {
    let mut state = PegState::new();
    assert_eq!(start_block(&mut state, &vec![(vec![1, 2, 3], 100)], 0), Err(Error::InvalidValidatorKey));
    assert_eq!(state.signatory_sets.len(), 0);
}

#[test]
fn begin_block_below_minimum_value_opens_nothing() {
    let validators = mock_validators();
    let mut state = PegState::new();
    start_block(&mut state, &validators, 0).unwrap();
    state.utxos.push(Utxo { txid: vec![7; 32], index: 0, value: 10, signatory_set_index: 0, data: vec![] });
    start_block(&mut state, &validators, 1000).unwrap();
    assert!(!state.active_checkpoint.is_active);
    assert_eq!(state.last_checkpoint_time, 1000);
    assert_eq!(state.utxos.len(), 1);
}

#[test]
fn checkpoint_index_counts_openings() {
    let (sk_a, pk_a) = keypair(1);
    let validators = mock_validators();
    let mut state = net_with_active_checkpoint(&validators);
    assert_eq!(state.checkpoint_index, 1);
    // a checkpoint is active: no second one opens
    start_block(&mut state, &validators, 5000).unwrap();
    assert_eq!(state.checkpoint_index, 1);
    signatory_sign(&mut state, &sk_a, &pk_a);
    start_block(&mut state, &validators, 10_000).unwrap();
    assert_eq!(state.checkpoint_index, 2);
    assert!(state.active_checkpoint.is_active);
}

#[test]
fn signature_threshold() {
    let (sk_a, pk_a) = keypair(1);
    let (sk_b, pk_b) = keypair(2);
    let validators = vec![(pk_a.clone(), 50), (pk_b.clone(), 50)];
    let mut state = net_with_active_checkpoint(&validators);

    signatory_sign(&mut state, &sk_a, &pk_a);
    assert!(state.active_checkpoint.is_active);
    assert_eq!(state.active_checkpoint.signed_voting_power, 50);
    assert_eq!(state.utxos.len(), 0);
    assert_eq!(state.finalized_checkpoint_txs.len(), 0);

    let expected_raw = serialize(&to_bitcoin(&state.active_checkpoint_tx()));
    signatory_sign(&mut state, &sk_b, &pk_b);
    assert!(!state.active_checkpoint.is_active);
    assert_eq!(state.utxos.len(), 1);
    assert_eq!(state.utxos[0].value, 100_000_000 - CHECKPOINT_FEE);
    assert_eq!(state.utxos[0].index, 0);
    assert_eq!(state.finalized_checkpoint_txs, vec![expected_raw.clone()]);
    let relayed: Transaction = deserialize(&expected_raw).unwrap();
    assert_eq!(state.utxos[0].txid, serialize(&relayed.txid()));
}

#[test]
fn checkpoint_tx_pays_withdrawals_then_reserve() {
    let validators = mock_validators();
    let mut state = PegState::new();
    let mut accounts = Accounts::new();
    start_block(&mut state, &validators, 0).unwrap();
    state.utxos.push(Utxo { txid: vec![7; 32], index: 3, value: 100_000, signatory_set_index: 0, data: vec![] });
    let (sk, pk) = sender(&mut accounts, 50_000, 0);
    let mut tx = withdrawal(pk, 20_000, 0);
    sign_withdrawal(&mut tx, &sk);
    withdrawal_tx(&mut state, &mut accounts, tx).unwrap();
    start_block(&mut state, &validators, 1000).unwrap();
    let btc_tx = state.active_checkpoint_tx();
    assert_eq!(btc_tx.version, 1);
    assert_eq!(btc_tx.lock_time, 0);
    assert_eq!(btc_tx.inputs.len(), 1);
    assert_eq!(btc_tx.inputs[0].index, 3);
    assert_eq!(btc_tx.inputs[0].sequence, 0xffff_ffff);
    assert_eq!(btc_tx.outputs.len(), 2);
    assert_eq!(btc_tx.outputs[0].value, 20_000);
    assert_eq!(btc_tx.outputs[0].script, vec![123]);
    assert_eq!(btc_tx.outputs[1].value, 100_000 - 20_000 - CHECKPOINT_FEE);
    let set = signatories_from_validators(&validators).unwrap();
    assert_eq!(btc_tx.outputs[1].script, output_script(&set, &[]));
}

fn mainnet_block_one() -> BlockHeader {
    BlockHeader {
        version: 1,
        prev_blockhash: bitcoin::blockdata::constants::genesis_block(bitcoin::Network::Bitcoin).header.block_hash(),
        merkle_root: deserialize(&[
            0x98, 0x20, 0x51, 0xfd, 0x1e, 0x4b, 0xa7, 0x44, 0xbb, 0xbe, 0x68, 0x0e, 0x1f, 0xee, 0x14, 0x67, 0x7b, 0xa1, 0xa3, 0xc3, 0x54,
            0x0b, 0xf7, 0xb1, 0xcd, 0xb6, 0x06, 0xe8, 0x57, 0x23, 0x3e, 0x0e,
        ])
        .unwrap(),
        time: 1231469665,
        bits: 0x1d00_ffff,
        nonce: 2573394689,
    }
}

#[test]
fn header_tx_extends_chain() {
    let genesis = bitcoin::blockdata::constants::genesis_block(bitcoin::Network::Bitcoin).header;
    let first = mainnet_block_one();
    assert!(first.validate_pow(&first.target()).is_ok());
    let mut state = PegState::new();
    initialize(&mut state, &serialize(&genesis), 0).unwrap();
    header_tx(&mut state, HeaderTransaction { block_headers: vec![serialize(&first)] }).unwrap();
    assert_eq!(state.headers.entries.len(), 2);
    assert_eq!(state.headers.merkle_root_at(1).unwrap(), &serialize(&first.merkle_root));
    let stored: BlockHeader = deserialize(state.headers.header_at_height(1).unwrap()).unwrap();
    assert_eq!(stored, first);
    // a header that links but declares a target above the network's limit is refused
    let easy = header_for(&irrelevant_tx(), first.block_hash());
    let r = header_tx(&mut state, HeaderTransaction { block_headers: vec![serialize(&easy)] });
    assert_eq!(r, Err(Error::BadHeader));
    // a header that does not link to the tip is refused, with nothing kept
    let r = header_tx(&mut state, HeaderTransaction { block_headers: vec![serialize(&first), serialize(&first)] });
    assert_eq!(r, Err(Error::BadHeader));
    assert_eq!(state.headers.entries.len(), 2);
    assert_eq!(header_tx(&mut state, HeaderTransaction { block_headers: vec![vec![1, 2, 3]] }), Err(Error::BadHeader));
}

#[test]
fn begin_block_opens_even_when_withdrawals_exceed_outputs() {
    let validators = mock_validators();
    let mut state = PegState::new();
    let mut accounts = Accounts::new();
    start_block(&mut state, &validators, 0).unwrap();
    state.utxos.push(Utxo { txid: vec![7; 32], index: 0, value: 20_000, signatory_set_index: 0, data: vec![] });
    let (sk, pk) = sender(&mut accounts, 50_000, 0);
    let mut tx = withdrawal(pk, 19_500, 0);
    sign_withdrawal(&mut tx, &sk);
    withdrawal_tx(&mut state, &mut accounts, tx).unwrap();
    assert_eq!(start_block(&mut state, &validators, 1000), Ok(()));
    assert!(state.active_checkpoint.is_active);
    assert_eq!(state.checkpoint_index, 1);
    let btc_tx = state.active_checkpoint_tx();
    assert_eq!(btc_tx.outputs.len(), 2);
    assert_eq!(btc_tx.outputs[1].value, 0);
}

#[test]
fn deposit_undecodable_tx() {
    let tx = irrelevant_tx();
    let (mut peg_state, mut account_state) = net_with_block(&tx);
    let deposit = DepositTransaction { height: 0, proof: proof_for(&tx), tx: vec![1, 2, 3], block_index: 0, recipients: vec![] };
    assert_eq!(deposit_tx(&mut peg_state, &mut account_state, deposit), Err(Error::Deserialization));
}

#[test]
fn deposit_bad_recipient() {
    let tx = build_tx(vec![(100_000_000, deposit_script())]);
    let (mut peg_state, mut account_state) = net_with_block(&tx);
    let deposit = DepositTransaction { height: 0, proof: proof_for(&tx), tx: serialize(&tx), block_index: 0, recipients: vec![vec![123; 32]] };
    assert_eq!(deposit_tx(&mut peg_state, &mut account_state, deposit), Err(Error::BadRecipient));
}

#[test]
fn deposit_wrong_block_index() {
    let tx = build_tx(vec![(100_000_000, deposit_script())]);
    let (mut peg_state, mut account_state) = net_with_block(&tx);
    let deposit = DepositTransaction { height: 0, proof: proof_for(&tx), tx: serialize(&tx), block_index: 1, recipients: vec![vec![123; 33]] };
    assert_eq!(deposit_tx(&mut peg_state, &mut account_state, deposit), Err(Error::BadProof));
}

#[test]
fn deposit_conserves_value() {
    let tx = build_tx(vec![(100_000_000, deposit_script()), (7, vec![0x51])]);
    let (mut peg_state, mut account_state) = net_with_block(&tx);
    let deposit = DepositTransaction { height: 0, proof: proof_for(&tx), tx: serialize(&tx), block_index: 0, recipients: vec![vec![123; 33]] };
    // the second output is examined with no recipient left
    assert_eq!(deposit_tx(&mut peg_state, &mut account_state, deposit), Err(Error::RecipientsExhausted));
    assert_eq!(account_state.get(&[123; 33]), None);
    assert_eq!(peg_state.utxos.len(), 0);
}

#[test]
fn redeem_script_bytes() {
    let (_, pk_a) = keypair(1);
    let set = set_of(&[(pk_a.clone(), 100)]);
    let mut expected = vec![33];
    expected.extend_from_slice(&pk_a);
    expected.extend_from_slice(&[0xac, 0x63, 0x01, 100, 0x67, 0x00, 0x68]);
    expected.extend_from_slice(&[0x01, 66, 0xa0]);
    expected.push(33);
    expected.extend_from_slice(&[123; 33]);
    expected.push(0x75);
    assert_eq!(redeem_script(&set, &[123; 33]), expected);
}

#[test]
fn output_script_is_p2wsh_of_redeem_script() {
    let (_, pk_a) = keypair(1);
    let set = set_of(&[(pk_a, 100)]);
    let redeem = redeem_script(&set, &[123; 33]);
    let out = output_script(&set, &[123; 33]);
    assert_eq!(out.len(), 34);
    assert_eq!(&out[..2], &[0x00, 0x20]);
    assert_eq!(&out[2..], &Sha256::digest(&redeem)[..]);
    assert_ne!(out, redeem);
}

#[test]
fn canonical_order_and_threshold() {
    let a = vec![2u8; 33];
    let b = vec![3u8; 33];
    let c = vec![1u8; 33];
    let mut set = set_of(&[(a.clone(), 10), (b.clone(), 30), (c.clone(), 10)]);
    assert_eq!(set.signatories, vec![Signatory::new(b.clone(), 30), Signatory::new(c.clone(), 10), Signatory::new(a.clone(), 10)]);
    assert_eq!(set.total_voting_power(), 50);
    assert_eq!(set.two_thirds_voting_power(), 33);
    set.set(Signatory::new(b.clone(), 5));
    assert_eq!(set.signatories, vec![Signatory::new(c, 10), Signatory::new(a, 10), Signatory::new(b, 5)]);
    assert_eq!(set.total_voting_power(), 25);
    assert_eq!(set.two_thirds_voting_power(), 16);
}

#[test]
fn derivation_is_deterministic() {
    let (_, pk_a) = keypair(1);
    let (_, pk_b) = keypair(2);
    let first = signatories_from_validators(&vec![(pk_a.clone(), 7), (pk_b.clone(), 7)]).unwrap();
    let second = signatories_from_validators(&vec![(pk_b, 7), (pk_a, 7)]).unwrap();
    assert_eq!(first.signatories, second.signatories);
    assert_eq!(redeem_script(&first, &[]), redeem_script(&second, &[]));
}

#[test]
fn slice_conversions() {
    let address = nomic_peg::peg::unsafe_slice_to_address(&[9u8; 33]);
    assert_eq!(address, [9u8; 33]);
    let signature = nomic_peg::peg::unsafe_slice_to_signature(&[4u8; 64]);
    assert_eq!(signature[..], [4u8; 64][..]);
}
