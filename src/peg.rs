//! The peg state machine: deposits credit the ledger, withdrawals debit it,
//! and checkpoints sweep the peg's outputs into Bitcoin transactions signed by
//! the signatory set.
use vstd::prelude::*;
use crate::accounts::{Account, Accounts};
use crate::btc::{bip143_sighash, decode_transaction, decoded_tx, ecdsa_valid, encode_transaction, extract_proof, extracted_proof, sha256, sha256_of, sighash_all, transaction_id, tx_encoding, tx_id, verify_ecdsa, BitcoinTx, ProofMatches, TxInput, TxOutput};
use crate::bytes::{append_bytes, byte_strings, bytes_eq, contains_bytes, copy_bytes};
use crate::headers::{extend_all, root_at};
use crate::script::{output_script, output_script_of, redeem_script, redeem_script_of};
use crate::error::Error;
use crate::headers::HeaderStore;
use crate::signatory_set::{all_keys_valid, signatories_from_validators, total_power, two_thirds_of, validator_map, validators_view, SignatorySet};

verus! {

/// Seconds that must pass between two checkpoints.
pub const CHECKPOINT_INTERVAL: u64 = 300;

/// Every this many checkpoints, the signatory set is derived anew.
pub const SIGNATORY_CHANGE_INTERVAL: u64 = 5;

/// Pending deposits must reach this value, in satoshis, before a checkpoint opens.
pub const CHECKPOINT_MINIMUM_VALUE: u64 = 10_000;

/// The fee, in satoshis, that each checkpoint transaction pays.
pub const CHECKPOINT_FEE: u64 = 1_000;

/// Length of an address: a compressed secp256k1 public key.
pub const ADDRESS_LENGTH: usize = 33;

/// Length of a compact ECDSA signature.
pub const SIGNATURE_LENGTH: usize = 64;

/// An output held by the peg.
#[derive(Debug, Clone)]
pub struct Utxo {
    pub txid: Vec<u8>,
    pub index: u32,
    pub value: u64,
    /// Position, in the log of signatory sets, of the set whose script holds it.
    pub signatory_set_index: u64,
    /// The depositor's address committed in the script, or nothing.
    pub data: Vec<u8>,
}

impl View for Utxo {
    type V = (Seq<u8>, u32, u64, u64, Seq<u8>);

    open spec fn view(&self) -> Self::V {
        (self.txid@, self.index, self.value, self.signatory_set_index, self.data@)
    }
}

/// A payment out of the peg, to an output script.
#[derive(Debug, Clone)]
pub struct Withdrawal {
    pub value: u64,
    pub script: Vec<u8>,
}

impl View for Withdrawal {
    type V = (u64, Seq<u8>);

    open spec fn view(&self) -> (u64, Seq<u8>) {
        (self.value, self.script@)
    }
}

/// A signatory set with the block time at which it was derived.
#[derive(Debug, Clone)]
pub struct SignatorySetSnapshot {
    pub time: u64,
    pub signatories: SignatorySet,
}

/// A checkpoint: the outputs it spends, the withdrawals it pays, and the
/// signatures gathered so far, one slot per signatory.
#[derive(Debug, Clone)]
pub struct Checkpoint {
    pub is_active: bool,
    pub signatory_set_index: u64,
    pub signed_voting_power: u128,
    pub next_signatory_set: Option<SignatorySetSnapshot>,
    pub utxos: Vec<Utxo>,
    pub withdrawals: Vec<Withdrawal>,
    pub signatures: Vec<Option<Vec<Vec<u8>>>>,
}

/// The replicated state of the peg.
#[derive(Debug, Clone)]
pub struct PegState {
    /// Deposited outputs not yet in a checkpoint.
    pub utxos: Vec<Utxo>,
    pub pending_withdrawals: Vec<Withdrawal>,
    pub processed_deposit_txids: Vec<Vec<u8>>,
    pub headers: HeaderStore,
    /// The log of signatory sets; the last is the current one.
    pub signatory_sets: Vec<SignatorySetSnapshot>,
    pub last_checkpoint_time: u64,
    pub checkpoint_index: u64,
    pub active_checkpoint: Checkpoint,
    pub finalized_checkpoint: Checkpoint,
    /// Encoded checkpoint transactions, for relayers to broadcast.
    pub finalized_checkpoint_txs: Vec<Vec<u8>>,
}

pub open spec fn utxos_view(v: Seq<Utxo>) -> Seq<(Seq<u8>, u32, u64, u64, Seq<u8>)> {
    v.map_values(|u: Utxo| u@)
}

pub open spec fn withdrawals_view(v: Seq<Withdrawal>) -> Seq<(u64, Seq<u8>)> {
    v.map_values(|w: Withdrawal| w@)
}

/// Sum of the values of outputs.
pub open spec fn utxo_sum(s: Seq<Utxo>) -> int
    decreases s.len(),
{
    if s.len() == 0 {
        0
    } else {
        utxo_sum(s.drop_last()) + s.last().value
    }
}

/// Sum of the values of withdrawals.
pub open spec fn withdrawal_sum(s: Seq<Withdrawal>) -> int
    decreases s.len(),
{
    if s.len() == 0 {
        0
    } else {
        withdrawal_sum(s.drop_last()) + s.last().value
    }
}

proof fn lemma_utxo_sum_append(a: Seq<Utxo>, b: Seq<Utxo>)
    ensures
        utxo_sum(a + b) == utxo_sum(a) + utxo_sum(b),
    decreases b.len(),
{
    if b.len() == 0 {
        assert(a + b =~= a);
    } else {
        assert((a + b).drop_last() =~= a + b.drop_last());
        lemma_utxo_sum_append(a, b.drop_last());
    }
}

proof fn lemma_withdrawal_sum_append(a: Seq<Withdrawal>, b: Seq<Withdrawal>)
    ensures
        withdrawal_sum(a + b) == withdrawal_sum(a) + withdrawal_sum(b),
    decreases b.len(),
{
    if b.len() == 0 {
        assert(a + b =~= a);
    } else {
        assert((a + b).drop_last() =~= a + b.drop_last());
        lemma_withdrawal_sum_append(a, b.drop_last());
    }
}

/// Big-endian bytes of a `u64`.
pub open spec fn be_u64(n: u64) -> Seq<u8> {
    seq![(n >> 56) as u8, (n >> 48) as u8, (n >> 40) as u8, (n >> 32) as u8, (n >> 24) as u8, (n >> 16) as u8, (n >> 8) as u8, n as u8]
}

/// The bytes that a withdrawal's signature signs (through their SHA-256):
/// the sender, the length of the destination script, the script, the amount
/// and the nonce.
pub open spec fn withdrawal_message(from: Seq<u8>, to: Seq<u8>, amount: u64, nonce: u64) -> Seq<u8> {
    from + be_u64(to.len() as u64) + to + be_u64(amount) + be_u64(nonce)
}

/// A request to burn `amount` from `from` and pay it to the script `to`.
#[derive(Debug)]
pub struct WithdrawalTransaction {
    pub from: Vec<u8>,
    pub to: Vec<u8>,
    pub amount: u64,
    pub nonce: u64,
    pub signature: Vec<u8>,
}

fn push_be_u64(out: &mut Vec<u8>, n: u64)
    ensures
        final(out)@ == old(out)@ + be_u64(n),
{
    let ghost o = out@;
    out.push((n >> 56) as u8);
    out.push((n >> 48) as u8);
    out.push((n >> 40) as u8);
    out.push((n >> 32) as u8);
    out.push((n >> 24) as u8);
    out.push((n >> 16) as u8);
    out.push((n >> 8) as u8);
    out.push(n as u8);
    assert(out@ =~= o + be_u64(n));
}

impl WithdrawalTransaction {
    /// The bytes that the signature signs, through their SHA-256.
    pub fn signing_bytes(&self) -> (r: Vec<u8>)
        ensures
            r@ == withdrawal_message(self.from@, self.to@, self.amount, self.nonce),
    {
        let mut out: Vec<u8> = Vec::new();
        append_bytes(&mut out, self.from.as_slice());
        push_be_u64(&mut out, self.to.len() as u64);
        append_bytes(&mut out, self.to.as_slice());
        push_be_u64(&mut out, self.amount);
        push_be_u64(&mut out, self.nonce);
        assert(out@ =~= withdrawal_message(self.from@, self.to@, self.amount, self.nonce));
        out
    }

    /// Whether the signature is the sender's over the transaction.
    pub fn verify_signature(&self) -> (r: bool)
        ensures
            r == ecdsa_valid(sha256_of(withdrawal_message(self.from@, self.to@, self.amount, self.nonce)), self.signature@, self.from@),
    {
        let msg = self.signing_bytes();
        let digest = sha256(msg.as_slice());
        verify_ecdsa(digest.as_slice(), self.signature.as_slice(), self.from.as_slice())
    }
}

/// Copies a 33-byte slice into an address.
pub fn unsafe_slice_to_address(slice: &[u8]) -> (r: [u8; 33])
    requires
        slice@.len() == 33,
    ensures
        r@ == slice@,
{
    let mut buf: [u8; 33] = [0; 33];
    let mut i: usize = 0;
    while i < 33
        invariant
            slice@.len() == 33,
            i <= 33,
            forall|k: int| 0 <= k < i ==> buf@[k] == slice@[k],
        decreases 33 - i,
    {
        buf[i] = slice[i];
        i = i + 1;
    }
    assert(buf@ =~= slice@);
    buf
}

/// Copies a 64-byte slice into a compact signature.
pub fn unsafe_slice_to_signature(slice: &[u8]) -> (r: [u8; 64])
    requires
        slice@.len() == 64,
    ensures
        r@ == slice@,
{
    let mut buf: [u8; 64] = [0; 64];
    let mut i: usize = 0;
    while i < 64
        invariant
            slice@.len() == 64,
            i <= 64,
            forall|k: int| 0 <= k < i ==> buf@[k] == slice@[k],
        decreases 64 - i,
    {
        buf[i] = slice[i];
        i = i + 1;
    }
    assert(buf@ =~= slice@);
    buf
}

/// What a withdrawal does to the ledger: the error, or the sender's new account.
pub open spec fn withdrawal_outcome(accounts: Map<Seq<u8>, Account>, tx: WithdrawalTransaction) -> Result<Account, Error> {
    if tx.from@.len() != 33 {
        Err(Error::BadAddress)
    } else if !accounts.contains_key(tx.from@) {
        Err(Error::NoAccount)
    } else if accounts[tx.from@].balance < tx.amount {
        Err(Error::InsufficientBalance)
    } else if tx.nonce != accounts[tx.from@].nonce {
        Err(Error::BadNonce)
    } else if !ecdsa_valid(sha256_of(withdrawal_message(tx.from@, tx.to@, tx.amount, tx.nonce)), tx.signature@, tx.from@) {
        Err(Error::BadSignature)
    } else if accounts[tx.from@].nonce == u64::MAX {
        Err(Error::Overflow)
    } else {
        Ok(Account { balance: (accounts[tx.from@].balance - tx.amount) as u64, nonce: (accounts[tx.from@].nonce + 1) as u64 })
    }
}

impl PegState {
    /// Peg outputs held anywhere: pending, in the active and in the finalized checkpoint.
    pub open spec fn utxo_total(&self) -> int {
        utxo_sum(self.utxos@) + utxo_sum(self.active_checkpoint.utxos@) + utxo_sum(self.finalized_checkpoint.utxos@)
    }

    /// Withdrawals anywhere: pending, in the active and in the finalized checkpoint.
    pub open spec fn withdrawal_total(&self) -> int {
        withdrawal_sum(self.pending_withdrawals@) + withdrawal_sum(self.active_checkpoint.withdrawals@) + withdrawal_sum(self.finalized_checkpoint.withdrawals@)
    }
}

/// The ledger's balances equal the value held by the peg less what is being withdrawn.
pub open spec fn conserved(state: &PegState, accounts: &Accounts) -> bool {
    accounts.total_balance() == state.utxo_total() - state.withdrawal_total()
}

/// Debits the sender and queues the payment, where the sender's account
/// exists, holds the amount, carries the transaction's nonce, and signed it.
pub fn withdrawal_tx(state: &mut PegState, account_state: &mut Accounts, tx: WithdrawalTransaction) -> (r: Result<(), Error>)
    requires
        old(account_state).wf(),
        old(state).wf(),
    ensures
        final(account_state).wf(),
        final(state).wf(),
        conserved(old(state), old(account_state)) ==> conserved(final(state), final(account_state)),
        match withdrawal_outcome(old(account_state).map(), tx) {
            Ok(a) => {
                &&& r is Ok
                &&& final(account_state).map() == old(account_state).map().insert(tx.from@, a)
                &&& withdrawals_view(final(state).pending_withdrawals@) == withdrawals_view(old(state).pending_withdrawals@).push((tx.amount, tx.to@))
                &&& final(state).utxos == old(state).utxos
                &&& final(state).processed_deposit_txids == old(state).processed_deposit_txids
                &&& final(state).headers == old(state).headers
                &&& final(state).signatory_sets == old(state).signatory_sets
                &&& final(state).last_checkpoint_time == old(state).last_checkpoint_time
                &&& final(state).checkpoint_index == old(state).checkpoint_index
                &&& final(state).active_checkpoint == old(state).active_checkpoint
                &&& final(state).finalized_checkpoint == old(state).finalized_checkpoint
                &&& final(state).finalized_checkpoint_txs == old(state).finalized_checkpoint_txs
            },
            Err(e) => r == Err::<(), Error>(e) && *final(state) == *old(state) && *final(account_state) == *old(account_state),
        },
        r is Ok ==> withdrawal_sum(final(state).pending_withdrawals@) == withdrawal_sum(old(state).pending_withdrawals@) + tx.amount,
        r is Ok ==> final(account_state).total_balance() == old(account_state).total_balance() - tx.amount,
{
    if tx.from.len() != ADDRESS_LENGTH {
        return Err(Error::BadAddress);
    }
    let mut account = match account_state.get(tx.from.as_slice()) {
        Some(a) => a,
        None => return Err(Error::NoAccount),
    };
    if account.balance < tx.amount {
        return Err(Error::InsufficientBalance);
    }
    if tx.nonce != account.nonce {
        return Err(Error::BadNonce);
    }
    if !tx.verify_signature() {
        return Err(Error::BadSignature);
    }
    if account.nonce == u64::MAX {
        return Err(Error::Overflow);
    }
    account.nonce = account.nonce + 1;
    account.balance = account.balance - tx.amount;
    account_state.insert(tx.from.as_slice(), account);
    let ghost w0 = state.pending_withdrawals@;
    let amount = tx.amount;
    state.pending_withdrawals.push(Withdrawal { value: amount, script: tx.to });
    proof {
        assert(old(account_state).map().contains_key(tx.from@));
        assert(state.pending_withdrawals@.drop_last() =~= w0);
        assert(withdrawals_view(state.pending_withdrawals@) =~= withdrawals_view(w0).push((amount, tx.to@)));
    }
    Ok(())
}

/// A claim that a Bitcoin transaction paid the peg: the block height, a
/// partial merkle tree proving inclusion, the encoded transaction, its
/// position in the block, and the addresses to credit, in output order.
#[derive(Debug)]
pub struct DepositTransaction {
    pub height: u64,
    pub proof: Vec<u8>,
    pub tx: Vec<u8>,
    pub block_index: u32,
    pub recipients: Vec<Vec<u8>>,
}

/// The deposit outputs among `outputs` from position `i` on, with the
/// recipients from position `j` on: (output position, recipient, value). A
/// recipient is taken for each output that pays to its deposit script.
pub open spec fn deposit_plan(outputs: Seq<(u64, Seq<u8>)>, recipients: Seq<Seq<u8>>, set: Seq<(Seq<u8>, u64)>, i: int, j: int) -> Result<Seq<(int, Seq<u8>, u64)>, Error>
    decreases outputs.len() - i,
{
    if i < 0 || i >= outputs.len() {
        Ok(Seq::empty())
    } else if j < 0 || j >= recipients.len() {
        Err(Error::RecipientsExhausted)
    } else if recipients[j].len() != 33 {
        Err(Error::BadRecipient)
    } else if outputs[i].1 != output_script_of(set, recipients[j]) {
        deposit_plan(outputs, recipients, set, i + 1, j)
    } else {
        match deposit_plan(outputs, recipients, set, i + 1, j + 1) {
            Ok(rest) => Ok(seq![(i, recipients[j], outputs[i].0)] + rest),
            Err(e) => Err(e),
        }
    }
}

pub open spec fn prepend_plan(p: Seq<(int, Seq<u8>, u64)>, r: Result<Seq<(int, Seq<u8>, u64)>, Error>) -> Result<Seq<(int, Seq<u8>, u64)>, Error> {
    match r {
        Ok(rest) => Ok(p + rest),
        Err(e) => Err(e),
    }
}

/// Whether the proof's root is `root` and it proves `txid` at `index`.
pub open spec fn proof_valid(proof: Seq<u8>, root: Seq<u8>, txid: Seq<u8>, index: u32) -> bool {
    match extracted_proof(proof) {
        Some(p) => p.0 == root && exists|k: int| 0 <= k < p.1.len() && k < p.2.len() && #[trigger] p.1[k] == txid && p.2[k] == index,
        None => false,
    }
}

pub open spec fn txid_processed(state: &PegState, txid: Seq<u8>) -> bool {
    exists|k: int| 0 <= k < state.processed_deposit_txids@.len() && #[trigger] state.processed_deposit_txids@[k]@ == txid
}

/// The checks of a deposit before any credit: the error, or the txid with the
/// deposit outputs.
pub open spec fn deposit_outcome(state: &PegState, tx: DepositTransaction) -> Result<(Seq<u8>, Seq<(int, Seq<u8>, u64)>), Error> {
    match decoded_tx(tx.tx@) {
        None => Err(Error::Deserialization),
        Some(d) => {
            if txid_processed(state, d.0) {
                Err(Error::DuplicateDeposit)
            } else if root_at(state.headers@, tx.height) is None {
                Err(Error::UnknownBlock)
            } else if !proof_valid(tx.proof@, root_at(state.headers@, tx.height)->0, d.0, tx.block_index) {
                Err(Error::BadProof)
            } else if state.signatory_sets@.len() == 0 {
                Err(Error::NoDepositOutputs)
            } else {
                match deposit_plan(d.1, byte_strings(tx.recipients@), state.signatory_sets@.last().signatories@, 0, 0) {
                    Err(e) => Err(e),
                    Ok(plan) => if plan.len() == 0 {
                        Err(Error::NoDepositOutputs)
                    } else {
                        Ok((d.0, plan))
                    },
                }
            }
        },
    }
}

/// The ledger after crediting `v` to `addr`, creating its account if needed;
/// `None` where the balance would leave `u64`.
pub open spec fn credit(m: Map<Seq<u8>, Account>, addr: Seq<u8>, v: u64) -> Option<Map<Seq<u8>, Account>> {
    let a = if m.contains_key(addr) { m[addr] } else { Account { balance: 0, nonce: 0 } };
    if a.balance + v > u64::MAX {
        None
    } else {
        Some(m.insert(addr, Account { balance: (a.balance + v) as u64, nonce: a.nonce }))
    }
}

pub open spec fn apply_credits(m: Map<Seq<u8>, Account>, plan: Seq<(int, Seq<u8>, u64)>) -> Option<Map<Seq<u8>, Account>>
    decreases plan.len(),
{
    if plan.len() == 0 {
        Some(m)
    } else {
        match apply_credits(m, plan.drop_last()) {
            Some(m2) => credit(m2, plan.last().1, plan.last().2),
            None => None,
        }
    }
}

pub open spec fn plan_sum(plan: Seq<(int, Seq<u8>, u64)>) -> int
    decreases plan.len(),
{
    if plan.len() == 0 {
        0
    } else {
        plan_sum(plan.drop_last()) + plan.last().2
    }
}

/// The outputs that a deposit adds to the peg.
pub open spec fn plan_utxos(plan: Seq<(int, Seq<u8>, u64)>, txid: Seq<u8>, set_index: u64) -> Seq<(Seq<u8>, u32, u64, u64, Seq<u8>)> {
    plan.map_values(|p: (int, Seq<u8>, u64)| (txid, p.0 as u32, p.2, set_index, p.1))
}

pub open spec fn txids_distinct(state: &PegState) -> bool {
    forall|a: int, b: int| 0 <= a < b < state.processed_deposit_txids@.len() ==> #[trigger] state.processed_deposit_txids@[a]@ != #[trigger] state.processed_deposit_txids@[b]@
}

proof fn lemma_apply_credits_none(m: Map<Seq<u8>, Account>, plan: Seq<(int, Seq<u8>, u64)>, k: int)
    requires
        0 <= k <= plan.len(),
        apply_credits(m, plan.take(k)) is None,
    ensures
        apply_credits(m, plan) is None,
    decreases plan.len() - k,
{
    if k < plan.len() {
        assert(plan.take(k + 1).drop_last() =~= plan.take(k));
        lemma_apply_credits_none(m, plan, k + 1);
    } else {
        assert(plan.take(k) =~= plan);
    }
}

fn proof_matches(p: &ProofMatches, txid: &[u8], index: u32) -> (r: bool)
    ensures
        r == exists|k: int| 0 <= k < p@.1.len() && k < p@.2.len() && #[trigger] p@.1[k] == txid@ && p@.2[k] == index,
{
    let mut k: usize = 0;
    while k < p.txids.len() && k < p.indexes.len()
        invariant
            k <= p@.1.len(),
            k <= p@.2.len(),
            forall|x: int| 0 <= x < k ==> !(#[trigger] p@.1[x] == txid@ && p@.2[x] == index),
        decreases p@.1.len() - k,
    {
        assert(p@.1[k as int] == p.txids@[k as int]@);
        if p.indexes[k] == index && bytes_eq(p.txids[k].as_slice(), txid) {
            return true;
        }
        k = k + 1;
    }
    false
}

/// Whether `proof` has the merkle root `root` and proves `txid` at `index`.
fn check_proof(proof: &[u8], root: &[u8], txid: &[u8], index: u32) -> (r: bool)
    ensures
        r == proof_valid(proof@, root@, txid@, index),
{
    match extract_proof(proof) {
        Some(p) => bytes_eq(p.merkle_root.as_slice(), root) && proof_matches(&p, txid, index),
        None => false,
    }
}

/// Credits the recipients of a Bitcoin transaction's deposit outputs, where
/// it is proven to stand in a known block and was not processed before.
#[verifier::rlimit(50)]
pub fn deposit_tx(peg_state: &mut PegState, account_state: &mut Accounts, deposit_transaction: DepositTransaction) -> (r: Result<(), Error>)
    requires
        old(account_state).wf(),
        old(peg_state).wf(),
    ensures
        final(account_state).wf(),
        final(peg_state).wf(),
        conserved(old(peg_state), old(account_state)) ==> conserved(final(peg_state), final(account_state)),
        match deposit_outcome(old(peg_state), deposit_transaction) {
            Err(e) => r == Err::<(), Error>(e) && *final(peg_state) == *old(peg_state) && *final(account_state) == *old(account_state),
            Ok((txid, plan)) => match apply_credits(old(account_state).map(), plan) {
                None => r == Err::<(), Error>(Error::Overflow) && *final(peg_state) == *old(peg_state) && *final(account_state) == *old(account_state),
                Some(m) => {
                    &&& r is Ok
                    &&& final(account_state).map() == m
                    &&& final(account_state).total_balance() == old(account_state).total_balance() + plan_sum(plan)
                    &&& utxos_view(final(peg_state).utxos@) == utxos_view(old(peg_state).utxos@) + plan_utxos(plan, txid, (old(peg_state).signatory_sets@.len() - 1) as u64)
                    &&& utxo_sum(final(peg_state).utxos@) == utxo_sum(old(peg_state).utxos@) + plan_sum(plan)
                    &&& byte_strings(final(peg_state).processed_deposit_txids@) == byte_strings(old(peg_state).processed_deposit_txids@).push(txid)
                    &&& final(peg_state).pending_withdrawals == old(peg_state).pending_withdrawals
                    &&& final(peg_state).headers == old(peg_state).headers
                    &&& final(peg_state).signatory_sets == old(peg_state).signatory_sets
                    &&& final(peg_state).last_checkpoint_time == old(peg_state).last_checkpoint_time
                    &&& final(peg_state).checkpoint_index == old(peg_state).checkpoint_index
                    &&& final(peg_state).active_checkpoint == old(peg_state).active_checkpoint
                    &&& final(peg_state).finalized_checkpoint == old(peg_state).finalized_checkpoint
                    &&& final(peg_state).finalized_checkpoint_txs == old(peg_state).finalized_checkpoint_txs
                },
            },
        },
        txids_distinct(old(peg_state)) ==> txids_distinct(final(peg_state)),
        r is Ok ==> deposit_outcome(final(peg_state), deposit_transaction) == Err::<(Seq<u8>, Seq<(int, Seq<u8>, u64)>), Error>(Error::DuplicateDeposit),
{
    let tx = &deposit_transaction;
    assert(peg_state.headers.wf());
    let decoded = match decode_transaction(tx.tx.as_slice()) {
        Some(d) => d,
        None => return Err(Error::Deserialization),
    };
    let ghost dv = decoded@;
    if contains_bytes(&peg_state.processed_deposit_txids, decoded.txid.as_slice()) {
        return Err(Error::DuplicateDeposit);
    }
    let root = match peg_state.headers.merkle_root_at(tx.height) {
        Some(root) => root,
        None => return Err(Error::UnknownBlock),
    };
    if !check_proof(tx.proof.as_slice(), root.as_slice(), decoded.txid.as_slice(), tx.block_index) {
        return Err(Error::BadProof);
    }
    let n_sets = peg_state.signatory_sets.len();
    if n_sets == 0 {
        assert(!txid_processed(old(peg_state), dv.0));
        assert(root_at(old(peg_state).headers@, tx.height) == Some(root@));
        return Err(Error::NoDepositOutputs);
    }
    let set_index = n_sets - 1;
    let set = &peg_state.signatory_sets[set_index].signatories;
    let ghost o = dv.1;
    let ghost rs = byte_strings(tx.recipients@);
    let ghost sv = set@;
    proof {
        assert(!txid_processed(old(peg_state), dv.0));
        assert(root_at(old(peg_state).headers@, tx.height) == Some(root@));
        assert(sv == old(peg_state).signatory_sets@.last().signatories@);
        assert(rs == byte_strings(deposit_transaction.recipients@));
    }
    let ghost outcome = match deposit_plan(o, rs, sv, 0, 0) {
        Err(e) => Err(e),
        Ok(plan) => if plan.len() == 0 {
            Err(Error::NoDepositOutputs)
        } else {
            Ok((dv.0, plan))
        },
    };
    assert(deposit_outcome(old(peg_state), deposit_transaction) == outcome);
    // Match outputs with recipients.
    let mut plan: Vec<(usize, usize)> = Vec::new();
    let ghost pv: Seq<(int, Seq<u8>, u64)> = Seq::empty();
    let mut i: usize = 0;
    let mut j: usize = 0;
    assert(pv + Seq::<(int, Seq<u8>, u64)>::empty() =~= pv);
    while i < decoded.outputs.len()
        invariant
            *peg_state == *old(peg_state),
            *account_state == *old(account_state),
            account_state.wf(),
            peg_state.wf(),
            deposit_outcome(old(peg_state), deposit_transaction) == outcome,
            outcome == (match deposit_plan(o, rs, sv, 0, 0) {
                Err(e) => Err(e),
                Ok(plan) => if plan.len() == 0 {
                    Err(Error::NoDepositOutputs)
                } else {
                    Ok((dv.0, plan))
                },
            }),
            o == decoded@.1,
            rs == byte_strings(tx.recipients@),
            sv == set@,
            i <= o.len(),
            j <= rs.len(),
            plan@.len() == pv.len(),
            forall|k: int| 0 <= k < pv.len() ==> (#[trigger] pv[k]).0 == plan@[k].0 && pv[k].1 == rs[plan@[k].1 as int] && pv[k].2 == o[plan@[k].0 as int].0,
            forall|k: int| 0 <= k < pv.len() ==> (#[trigger] plan@[k]).0 < o.len() && plan@[k].1 < rs.len(),
            deposit_plan(o, rs, sv, 0, 0) == prepend_plan(pv, deposit_plan(o, rs, sv, i as int, j as int)),
        decreases o.len() - i,
    {
        if j >= tx.recipients.len() {
            return Err(Error::RecipientsExhausted);
        }
        assert(rs[j as int] == tx.recipients@[j as int]@);
        if tx.recipients[j].len() != ADDRESS_LENGTH {
            return Err(Error::BadRecipient);
        }
        let expected = output_script(set, tx.recipients[j].as_slice());
        assert(o[i as int] == decoded.outputs@[i as int]@);
        if bytes_eq(decoded.outputs[i].script.as_slice(), expected.as_slice()) {
            let ghost e = (i as int, rs[j as int], o[i as int].0);
            proof {
                match deposit_plan(o, rs, sv, i as int + 1, j as int + 1) {
                    Ok(rest) => {
                        assert(pv + (seq![e] + rest) =~= pv.push(e) + rest);
                    },
                    Err(_) => {},
                }
                pv = pv.push(e);
            }
            plan.push((i, j));
            j = j + 1;
        }
        i = i + 1;
    }
    assert(deposit_plan(o, rs, sv, i as int, j as int) == Ok::<Seq<(int, Seq<u8>, u64)>, Error>(Seq::empty()));
    assert(pv + Seq::<(int, Seq<u8>, u64)>::empty() =~= pv);
    if plan.len() == 0 {
        return Err(Error::NoDepositOutputs);
    }
    assert(deposit_outcome(old(peg_state), deposit_transaction) == Ok::<(Seq<u8>, Seq<(int, Seq<u8>, u64)>), Error>((dv.0, pv)));
    // Credit the recipients on a copy of the ledger.
    let ghost m0 = account_state.map();
    let mut staged = account_state.duplicate();
    let mut k: usize = 0;
    while k < plan.len()
        invariant
            *peg_state == *old(peg_state),
            *account_state == *old(account_state),
            deposit_outcome(old(peg_state), deposit_transaction) == Ok::<(Seq<u8>, Seq<(int, Seq<u8>, u64)>), Error>((dv.0, pv)),
            account_state.wf(),
            peg_state.wf(),
            staged.wf(),
            m0 == account_state.map(),
            k <= pv.len(),
            plan@.len() == pv.len(),
            forall|x: int| 0 <= x < pv.len() ==> (#[trigger] pv[x]).0 == plan@[x].0 && pv[x].1 == rs[plan@[x].1 as int] && pv[x].2 == o[plan@[x].0 as int].0,
            forall|x: int| 0 <= x < pv.len() ==> (#[trigger] plan@[x]).0 < o.len() && plan@[x].1 < rs.len(),
            o == decoded@.1,
            rs == byte_strings(tx.recipients@),
            apply_credits(m0, pv.take(k as int)) == Some(staged.map()),
            staged.total_balance() == account_state.total_balance() + plan_sum(pv.take(k as int)),
        decreases pv.len() - k,
    {
        let (oi, rj) = plan[k];
        assert(pv.take(k as int + 1).drop_last() =~= pv.take(k as int));
        assert(rs[rj as int] == tx.recipients@[rj as int]@);
        assert(o[oi as int] == decoded.outputs@[oi as int]@);
        let recipient = tx.recipients[rj].as_slice();
        let value = decoded.outputs[oi].value;
        let current = match staged.get(recipient) {
            Some(a) => a,
            None => Account { balance: 0, nonce: 0 },
        };
        assert(pv.take(k as int + 1).last() == pv[k as int]);
        if current.balance > u64::MAX - value {
            proof {
                lemma_apply_credits_none(m0, pv, k as int + 1);
            }
            return Err(Error::Overflow);
        }
        staged.insert(recipient, Account { balance: current.balance + value, nonce: current.nonce });
        k = k + 1;
    }
    assert(pv.take(k as int) =~= pv);
    *account_state = staged;
    // Record the outputs and the transaction.
    let ghost u0 = peg_state.utxos@;
    let mut k: usize = 0;
    while k < plan.len()
        invariant
            peg_state.pending_withdrawals == old(peg_state).pending_withdrawals,
            peg_state.processed_deposit_txids == old(peg_state).processed_deposit_txids,
            peg_state.headers == old(peg_state).headers,
            peg_state.signatory_sets == old(peg_state).signatory_sets,
            peg_state.last_checkpoint_time == old(peg_state).last_checkpoint_time,
            peg_state.checkpoint_index == old(peg_state).checkpoint_index,
            peg_state.active_checkpoint == old(peg_state).active_checkpoint,
            peg_state.finalized_checkpoint == old(peg_state).finalized_checkpoint,
            peg_state.finalized_checkpoint_txs == old(peg_state).finalized_checkpoint_txs,
            u0 == old(peg_state).utxos@,
            old(peg_state).wf(),
            k <= pv.len(),
            plan@.len() == pv.len(),
            forall|x: int| 0 <= x < pv.len() ==> (#[trigger] pv[x]).0 == plan@[x].0 && pv[x].1 == rs[plan@[x].1 as int] && pv[x].2 == o[plan@[x].0 as int].0,
            forall|x: int| 0 <= x < pv.len() ==> (#[trigger] plan@[x]).0 < o.len() && plan@[x].1 < rs.len(),
            o == decoded@.1,
            rs == byte_strings(tx.recipients@),
            utxos_view(peg_state.utxos@) == utxos_view(u0) + plan_utxos(pv.take(k as int), decoded.txid@, set_index as u64),
            utxo_sum(peg_state.utxos@) == utxo_sum(u0) + plan_sum(pv.take(k as int)),
        decreases pv.len() - k,
    {
        let (oi, rj) = plan[k];
        assert(rs[rj as int] == tx.recipients@[rj as int]@);
        assert(o[oi as int] == decoded.outputs@[oi as int]@);
        let ghost before = peg_state.utxos@;
        peg_state.utxos.push(Utxo {
            txid: copy_bytes(decoded.txid.as_slice()),
            index: #[verifier::truncate] (oi as u32),
            value: decoded.outputs[oi].value,
            signatory_set_index: set_index as u64,
            data: copy_bytes(tx.recipients[rj].as_slice()),
        });
        proof {
            assert(pv.take(k as int + 1).drop_last() =~= pv.take(k as int));
            assert(peg_state.utxos@.drop_last() =~= before);
            assert(utxos_view(peg_state.utxos@) =~= utxos_view(before).push(peg_state.utxos@.last()@));
            assert(plan_utxos(pv.take(k as int + 1), decoded.txid@, set_index as u64) =~= plan_utxos(pv.take(k as int), decoded.txid@, set_index as u64).push(peg_state.utxos@.last()@));
        }
        k = k + 1;
    }
    assert(pv.take(k as int) =~= pv);
    let ghost t0 = peg_state.processed_deposit_txids@;
    peg_state.processed_deposit_txids.push(decoded.txid);
    proof {
        let t1 = peg_state.processed_deposit_txids@;
        assert forall|a: int, b: int| 0 <= a < b < t1.len() && txids_distinct(old(peg_state)) implies #[trigger] t1[a]@ != #[trigger] t1[b]@ by {
            assert(t1[a] == t0[a]);
            if b < t0.len() {
                assert(t1[b] == t0[b]);
            } else {
                assert(!txid_processed(old(peg_state), dv.0));
                assert(t0[a]@ != dv.0);
            }
        }
        assert(byte_strings(peg_state.processed_deposit_txids@) =~= byte_strings(t0).push(dv.0));
        let t1 = peg_state.processed_deposit_txids@;
        assert(t1[t1.len() - 1]@ == dv.0);
        assert(txid_processed(peg_state, dv.0));
        let u1 = peg_state.utxos@;
        assert forall|x: int| 0 <= x < u1.len() implies (#[trigger] u1[x]).txid@.len() == 32 && u1[x].signatory_set_index < peg_state.signatory_sets@.len() by {
            if x < u0.len() {
                assert(utxos_view(u1)[x] == utxos_view(u0)[x]);
            } else {
                assert(utxos_view(u1)[x] == plan_utxos(pv, dv.0, set_index as u64)[x - u0.len()]);
            }
        }
    }
    Ok(())
}

pub open spec fn utxos_ok(u: Seq<Utxo>, n_sets: int) -> bool {
    forall|i: int| 0 <= i < u.len() ==> (#[trigger] u[i]).txid@.len() == 32 && u[i].signatory_set_index < n_sets
}

/// The voting power of the members whose slot among the first `n` holds signatures.
pub open spec fn signed_power(slots: Seq<Option<Vec<Vec<u8>>>>, set: Seq<(Seq<u8>, u64)>, n: int) -> nat
    decreases n,
{
    if n <= 0 {
        0
    } else {
        signed_power(slots, set, n - 1) + if slots[n - 1] is Some { set[n - 1].1 as nat } else { 0nat }
    }
}

proof fn lemma_signed_power_none(slots: Seq<Option<Vec<Vec<u8>>>>, set: Seq<(Seq<u8>, u64)>, n: int)
    requires
        all_none(slots),
        n <= slots.len(),
    ensures
        signed_power(slots, set, n) == 0,
    decreases n,
{
    if n > 0 {
        lemma_signed_power_none(slots, set, n - 1);
    }
}

proof fn lemma_signed_power_update(slots: Seq<Option<Vec<Vec<u8>>>>, set: Seq<(Seq<u8>, u64)>, n: int, idx: int, x: Vec<Vec<u8>>)
    requires
        0 <= idx < n <= slots.len(),
        slots[idx] is None,
    ensures
        signed_power(slots.update(idx, Some(x)), set, n) == signed_power(slots, set, n) + set[idx].1,
    decreases n,
{
    if n - 1 > idx {
        lemma_signed_power_update(slots, set, n - 1, idx, x);
    } else {
        lemma_signed_power_same(slots, slots.update(idx, Some(x)), set, n - 1);
    }
}

proof fn lemma_signed_power_same(a: Seq<Option<Vec<Vec<u8>>>>, b: Seq<Option<Vec<Vec<u8>>>>, set: Seq<(Seq<u8>, u64)>, n: int)
    requires
        n <= a.len(),
        n <= b.len(),
        forall|i: int| 0 <= i < n ==> (#[trigger] a[i] is Some) == (b[i] is Some),
    ensures
        signed_power(a, set, n) == signed_power(b, set, n),
    decreases n,
{
    if n > 0 {
        lemma_signed_power_same(a, b, set, n - 1);
    }
}

proof fn lemma_signed_power_bound(slots: Seq<Option<Vec<Vec<u8>>>>, set: Seq<(Seq<u8>, u64)>, n: int)
    requires
        0 <= n <= set.len(),
        n <= slots.len(),
    ensures
        signed_power(slots, set, n) <= total_power(set.take(n)),
    decreases n,
{
    if n > 0 {
        lemma_signed_power_bound(slots, set, n - 1);
        assert(set.take(n).drop_last() =~= set.take(n - 1));
    }
}

pub open spec fn all_none(s: Seq<Option<Vec<Vec<u8>>>>) -> bool {
    forall|i: int| 0 <= i < s.len() ==> (#[trigger] s[i]) is None
}

impl PegState {
    /// The state's invariant: the header chain is linked, no txid was
    /// processed twice, every signatory set is canonical, every output names
    /// a logged signatory set, an active checkpoint has one signature slot per
    /// member of its set, and an inactive one holds nothing.
    pub open spec fn wf(&self) -> bool {
        &&& self.headers.wf()
        &&& txids_distinct(self)
        &&& forall|k: int| 0 <= k < self.signatory_sets@.len() ==> (#[trigger] self.signatory_sets@[k]).signatories.wf()
        &&& utxos_ok(self.utxos@, self.signatory_sets@.len() as int)
        &&& utxos_ok(self.active_checkpoint.utxos@, self.signatory_sets@.len() as int)
        &&& self.active_checkpoint.is_active ==> {
            &&& self.active_checkpoint.signatory_set_index < self.signatory_sets@.len()
            &&& self.active_checkpoint.signatures@.len() == self.signatory_sets@[self.active_checkpoint.signatory_set_index as int].signatories@.len()
            &&& self.active_checkpoint.signed_voting_power == signed_power(self.active_checkpoint.signatures@, self.signatory_sets@[self.active_checkpoint.signatory_set_index as int].signatories@, self.active_checkpoint.signatures@.len() as int)
        }
        &&& (self.active_checkpoint.next_signatory_set matches Some(n) ==> n.signatories.wf())
        &&& !self.active_checkpoint.is_active ==> {
            &&& self.active_checkpoint.utxos@.len() == 0
            &&& self.active_checkpoint.withdrawals@.len() == 0
            &&& self.active_checkpoint.next_signatory_set is None
        }
    }

    /// A state with no deposits, no signatory set and no checkpoint.
    pub fn new() -> (r: PegState)
        ensures
            r.wf(),
            r.utxos@.len() == 0,
            r.pending_withdrawals@.len() == 0,
            r.processed_deposit_txids@.len() == 0,
            r.headers@.len() == 0,
            r.finalized_checkpoint_txs@.len() == 0,
            r.signatory_sets@.len() == 0,
            r.checkpoint_index == 0,
            r.last_checkpoint_time == 0,
            !r.active_checkpoint.is_active,
            r.utxo_total() == 0,
            r.withdrawal_total() == 0,
    {
        PegState {
            utxos: Vec::new(),
            pending_withdrawals: Vec::new(),
            processed_deposit_txids: Vec::new(),
            headers: HeaderStore::new(),
            signatory_sets: Vec::new(),
            last_checkpoint_time: 0,
            checkpoint_index: 0,
            active_checkpoint: Checkpoint::empty(),
            finalized_checkpoint: Checkpoint::empty(),
            finalized_checkpoint_txs: Vec::new(),
        }
    }

    /// The newest signatory set, if one was derived.
    pub fn current_signatory_set(&self) -> (r: Option<&SignatorySetSnapshot>)
        ensures
            self.signatory_sets@.len() == 0 ==> r is None,
            self.signatory_sets@.len() > 0 ==> r == Some(&self.signatory_sets@.last()),
    {
        let n = self.signatory_sets.len();
        if n == 0 {
            None
        } else {
            Some(&self.signatory_sets[n - 1])
        }
    }
}

impl Checkpoint {
    /// An inactive checkpoint with nothing in it.
    pub fn empty() -> (r: Checkpoint)
        ensures
            !r.is_active,
            r.signed_voting_power == 0,
            r.next_signatory_set is None,
            r.utxos@.len() == 0,
            r.withdrawals@.len() == 0,
            r.signatures@.len() == 0,
    {
        Checkpoint {
            is_active: false,
            signatory_set_index: 0,
            signed_voting_power: 0,
            next_signatory_set: None,
            utxos: Vec::new(),
            withdrawals: Vec::new(),
            signatures: Vec::new(),
        }
    }
}

/// Whether the block time `now` is more than the checkpoint interval past the last checkpoint time.
pub open spec fn checkpoint_due(state: &PegState, now: u64) -> bool {
    now > state.last_checkpoint_time + CHECKPOINT_INTERVAL
}

/// Whether a block at `now` opens a checkpoint: one is due, none is active,
/// and the pending outputs are there and reach the minimum value.
pub open spec fn opens_checkpoint(state: &PegState, now: u64) -> bool {
    &&& checkpoint_due(state, now)
    &&& state.utxos@.len() > 0
    &&& !state.active_checkpoint.is_active
    &&& utxo_sum(state.utxos@) >= CHECKPOINT_MINIMUM_VALUE
}

/// Whether the next checkpoint to open also derives a new signatory set.
pub open spec fn rotates_signatories(state: &PegState) -> bool {
    (state.checkpoint_index + 1) % (SIGNATORY_CHANGE_INTERVAL as int) == 0
}

/// Whether a block at `now` derives a signatory set from the validators.
pub open spec fn derives_signatories(state: &PegState, now: u64) -> bool {
    state.signatory_sets@.len() == 0 || (opens_checkpoint(state, now) && rotates_signatories(state))
}

/// Whether `snap` is the signatory set of `validators` taken at `now`.
pub open spec fn snapshot_of(snap: &SignatorySetSnapshot, validators: Seq<(Seq<u8>, u64)>, now: u64) -> bool {
    snap.time == now && snap.signatories.wf() && snap.signatories.power_map() == validator_map(validators)
}

/// Starts a block at time `now`: derives the first signatory set if there is
/// none, and opens a checkpoint when one is due, deriving the next signatory
/// set every `SIGNATORY_CHANGE_INTERVAL` checkpoints.
#[verifier::rlimit(50)]
pub fn begin_block(state: &mut PegState, validators: &Vec<(Vec<u8>, u64)>, now: u64) -> (r: Result<(), Error>)
    requires
        old(state).wf(),
    ensures
        final(state).wf(),
        derives_signatories(old(state), now) && !all_keys_valid(validators_view(validators@)) ==> r == Err::<(), Error>(Error::InvalidValidatorKey),
        !(derives_signatories(old(state), now) && !all_keys_valid(validators_view(validators@))) && opens_checkpoint(old(state), now) && old(state).checkpoint_index == u64::MAX ==> r == Err::<(), Error>(Error::Overflow),
        r is Err ==> *final(state) == *old(state),
        r is Ok <==> {
            &&& !(derives_signatories(old(state), now) && !all_keys_valid(validators_view(validators@)))
            &&& !(opens_checkpoint(old(state), now) && old(state).checkpoint_index == u64::MAX)
        },
        r is Ok ==> {
            &&& old(state).signatory_sets@.len() == 0 ==> final(state).signatory_sets@.len() == 1 && snapshot_of(&final(state).signatory_sets@[0], validators_view(validators@), now)
            &&& old(state).signatory_sets@.len() > 0 ==> final(state).signatory_sets == old(state).signatory_sets
            &&& final(state).last_checkpoint_time == if checkpoint_due(old(state), now) { now } else { old(state).last_checkpoint_time }
            &&& final(state).checkpoint_index == old(state).checkpoint_index + if opens_checkpoint(old(state), now) { 1int } else { 0int }
            &&& final(state).active_checkpoint.is_active == (old(state).active_checkpoint.is_active || opens_checkpoint(old(state), now))
            &&& final(state).processed_deposit_txids == old(state).processed_deposit_txids
            &&& final(state).headers == old(state).headers
            &&& final(state).finalized_checkpoint == old(state).finalized_checkpoint
            &&& final(state).finalized_checkpoint_txs == old(state).finalized_checkpoint_txs
            &&& final(state).utxo_total() == old(state).utxo_total()
            &&& final(state).withdrawal_total() == old(state).withdrawal_total()
        },
        r is Ok && !opens_checkpoint(old(state), now) ==> {
            &&& final(state).utxos == old(state).utxos
            &&& final(state).pending_withdrawals == old(state).pending_withdrawals
            &&& final(state).active_checkpoint == old(state).active_checkpoint
        },
        r is Ok && opens_checkpoint(old(state), now) ==> {
            let a = final(state).active_checkpoint;
            &&& final(state).utxos@.len() == 0
            &&& final(state).pending_withdrawals@.len() == 0
            &&& a.utxos@ == old(state).active_checkpoint.utxos@ + old(state).utxos@
            &&& a.withdrawals@ == old(state).active_checkpoint.withdrawals@ + old(state).pending_withdrawals@
            &&& a.signatory_set_index == final(state).signatory_sets@.len() - 1
            &&& a.signatures@.len() == final(state).signatory_sets@.last().signatories@.len()
            &&& all_none(a.signatures@)
            &&& a.signed_voting_power == 0
            &&& rotates_signatories(old(state)) ==> (a.next_signatory_set matches Some(n) && snapshot_of(&n, validators_view(validators@), now))
            &&& !rotates_signatories(old(state)) ==> a.next_signatory_set is None
            &&& final(state).signatory_sets@.len() == old(state).signatory_sets@.len() || old(state).signatory_sets@.len() == 0
        },
{
    let need_initial = state.signatory_sets.len() == 0;
    let due = now > state.last_checkpoint_time && now - state.last_checkpoint_time > CHECKPOINT_INTERVAL;
    let opens = due && state.utxos.len() > 0 && !state.active_checkpoint.is_active && sum_utxos(&state.utxos) >= CHECKPOINT_MINIMUM_VALUE as u128;
    let rotate = opens && state.checkpoint_index % SIGNATORY_CHANGE_INTERVAL == SIGNATORY_CHANGE_INTERVAL - 1;
    assert(rotate == (opens && rotates_signatories(old(state))));
    let initial = if need_initial {
        match signatories_from_validators(validators) {
            Ok(s) => Some(SignatorySetSnapshot { time: now, signatories: s }),
            Err(e) => return Err(e),
        }
    } else {
        None
    };
    let next = if rotate {
        match signatories_from_validators(validators) {
            Ok(s) => Some(SignatorySetSnapshot { time: now, signatories: s }),
            Err(e) => return Err(e),
        }
    } else {
        None
    };
    if opens && state.checkpoint_index == u64::MAX {
        return Err(Error::Overflow);
    }
    if let Some(snap) = initial {
        state.signatory_sets.push(snap);
    }
    if due {
        state.last_checkpoint_time = now;
    }
    if opens {
        state.checkpoint_index = state.checkpoint_index + 1;
        let n_sets = state.signatory_sets.len();
        let n = state.signatory_sets[n_sets - 1].signatories.len();
        let mut signatures: Vec<Option<Vec<Vec<u8>>>> = Vec::new();
        let mut i: usize = 0;
        while i < n
            invariant
                i <= n,
                signatures@.len() == i,
                all_none(signatures@),
            decreases n - i,
        {
            signatures.push(None);
            i = i + 1;
        }
        let ghost au = state.active_checkpoint.utxos@;
        let ghost aw = state.active_checkpoint.withdrawals@;
        let ghost pu = state.utxos@;
        let ghost pw = state.pending_withdrawals@;
        state.active_checkpoint.is_active = true;
        state.active_checkpoint.signatory_set_index = (n_sets - 1) as u64;
        state.active_checkpoint.signatures = signatures;
        state.active_checkpoint.signed_voting_power = 0;
        state.active_checkpoint.utxos.append(&mut state.utxos);
        state.active_checkpoint.withdrawals.append(&mut state.pending_withdrawals);
        if let Some(snap) = next {
            state.active_checkpoint.next_signatory_set = Some(snap);
        }
        proof {
            lemma_signed_power_none(state.active_checkpoint.signatures@, state.signatory_sets@.last().signatories@, n as int);
            lemma_utxo_sum_append(au, pu);
            lemma_withdrawal_sum_append(aw, pw);
            assert(utxo_sum(Seq::<Utxo>::empty()) == 0);
            assert(withdrawal_sum(Seq::<Withdrawal>::empty()) == 0);
            let t = state.active_checkpoint.utxos@;
            assert forall|i: int| 0 <= i < t.len() implies (#[trigger] t[i]).txid@.len() == 32 && t[i].signatory_set_index < state.signatory_sets@.len() by {
                if i < au.len() {
                    assert(t[i] == au[i]);
                } else {
                    assert(t[i] == pu[i - au.len()]);
                }
            }
        }
    }
    Ok(())
}

/// Version of the checkpoint transactions.
pub const TX_VERSION: i32 = 1;

/// Sequence number of each checkpoint input.
pub const SEQUENCE_FINAL: u32 = 0xffff_ffff;

/// The signatory set that a checkpoint's reserve output pays to: the next
/// set where the checkpoint rotates, else the checkpoint's own.
pub open spec fn reserve_set(cp: &Checkpoint, sets: Seq<SignatorySetSnapshot>) -> Seq<(Seq<u8>, u64)> {
    match cp.next_signatory_set {
        Some(n) => n.signatories@,
        None => sets[cp.signatory_set_index as int].signatories@,
    }
}

/// What the reserve output keeps: the inputs less the withdrawals and the
/// fee, within the range of `u64`: nothing where the withdrawals and the
/// fee take all of the inputs.
pub open spec fn reserve_value(cp: &Checkpoint) -> u64 {
    let v = utxo_sum(cp.utxos@) - withdrawal_sum(cp.withdrawals@) - CHECKPOINT_FEE;
    if v < 0 {
        0
    } else if v > u64::MAX {
        u64::MAX
    } else {
        v as u64
    }
}

pub open spec fn input_of(u: Utxo) -> (Seq<u8>, u32, u32) {
    (u.txid@, u.index, SEQUENCE_FINAL)
}

pub open spec fn output_of(w: Withdrawal) -> (u64, Seq<u8>) {
    (w.value, w.script@)
}

pub open spec fn utxo_inputs(u: Seq<Utxo>) -> Seq<(Seq<u8>, u32, u32)> {
    u.map_values(|x: Utxo| input_of(x))
}

pub open spec fn withdrawal_outputs(w: Seq<Withdrawal>) -> Seq<(u64, Seq<u8>)> {
    w.map_values(|x: Withdrawal| output_of(x))
}

/// The transaction of a checkpoint: it spends the checkpoint's outputs in
/// order, pays its withdrawals in order, and pays the rest, less the fee, to
/// the reserve set's script.
pub open spec fn checkpoint_tx_of(cp: &Checkpoint, sets: Seq<SignatorySetSnapshot>) -> (i32, u32, Seq<(Seq<u8>, u32, u32)>, Seq<(u64, Seq<u8>)>) {
    (
        TX_VERSION,
        0,
        utxo_inputs(cp.utxos@),
        withdrawal_outputs(cp.withdrawals@).push((reserve_value(cp), output_script_of(reserve_set(cp, sets), Seq::empty()))),
    )
}

proof fn lemma_utxo_sum_bound(u: Seq<Utxo>)
    ensures
        0 <= utxo_sum(u) <= u.len() * 0xffff_ffff_ffff_ffff,
    decreases u.len(),
{
    if u.len() > 0 {
        lemma_utxo_sum_bound(u.drop_last());
        assert((u.len() - 1) * 0xffff_ffff_ffff_ffff + 0xffff_ffff_ffff_ffff == u.len() * 0xffff_ffff_ffff_ffff) by (nonlinear_arith);
    }
}

proof fn lemma_withdrawal_sum_bound(u: Seq<Withdrawal>)
    ensures
        0 <= withdrawal_sum(u) <= u.len() * 0xffff_ffff_ffff_ffff,
    decreases u.len(),
{
    if u.len() > 0 {
        lemma_withdrawal_sum_bound(u.drop_last());
        assert((u.len() - 1) * 0xffff_ffff_ffff_ffff + 0xffff_ffff_ffff_ffff == u.len() * 0xffff_ffff_ffff_ffff) by (nonlinear_arith);
    }
}

fn sum_utxos(u: &Vec<Utxo>) -> (r: u128)
    ensures
        r == utxo_sum(u@),
{
    let mut sum: u128 = 0;
    let mut i: usize = 0;
    while i < u.len()
        invariant
            i <= u@.len(),
            sum == utxo_sum(u@.take(i as int)),
        decreases u@.len() - i,
    {
        proof {
            assert(u@.take(i as int + 1).drop_last() =~= u@.take(i as int));
            lemma_utxo_sum_bound(u@.take(i as int));
            assert(i * 0xffff_ffff_ffff_ffffnat <= 0xffff_ffff_ffff_ffff * 0xffff_ffff_ffff_ffffnat) by (nonlinear_arith)
                requires i <= 0xffff_ffff_ffff_ffffnat;
        }
        sum = sum + u[i].value as u128;
        i = i + 1;
    }
    assert(u@.take(i as int) =~= u@);
    sum
}

fn sum_withdrawals(u: &Vec<Withdrawal>) -> (r: u128)
    ensures
        r == withdrawal_sum(u@),
{
    let mut sum: u128 = 0;
    let mut i: usize = 0;
    while i < u.len()
        invariant
            i <= u@.len(),
            sum == withdrawal_sum(u@.take(i as int)),
        decreases u@.len() - i,
    {
        proof {
            assert(u@.take(i as int + 1).drop_last() =~= u@.take(i as int));
            lemma_withdrawal_sum_bound(u@.take(i as int));
            assert(i * 0xffff_ffff_ffff_ffffnat <= 0xffff_ffff_ffff_ffff * 0xffff_ffff_ffff_ffffnat) by (nonlinear_arith)
                requires i <= 0xffff_ffff_ffff_ffffnat;
        }
        sum = sum + u[i].value as u128;
        i = i + 1;
    }
    assert(u@.take(i as int) =~= u@);
    sum
}

/// Builds the transaction of checkpoint `cp`.
pub fn checkpoint_tx(cp: &Checkpoint, sets: &Vec<SignatorySetSnapshot>) -> (r: BitcoinTx)
    requires
        cp.next_signatory_set is Some || cp.signatory_set_index < sets@.len(),
    ensures
        r@ == checkpoint_tx_of(cp, sets@),
        forall|i: int| 0 <= i < r.inputs@.len() ==> (#[trigger] r.inputs@[i]).txid@ == cp.utxos@[i].txid@,
        r.inputs@.len() == cp.utxos@.len(),
{
    let mut inputs: Vec<TxInput> = Vec::new();
    let mut i: usize = 0;
    while i < cp.utxos.len()
        invariant
            i <= cp.utxos@.len(),
            inputs@.len() == i,
            forall|k: int| 0 <= k < i ==> (#[trigger] inputs@[k])@ == input_of(cp.utxos@[k]),
        decreases cp.utxos@.len() - i,
    {
        let u = &cp.utxos[i];
        inputs.push(TxInput { txid: copy_bytes(u.txid.as_slice()), index: u.index, sequence: SEQUENCE_FINAL });
        i = i + 1;
    }
    let mut outputs: Vec<TxOutput> = Vec::new();
    let mut i: usize = 0;
    while i < cp.withdrawals.len()
        invariant
            i <= cp.withdrawals@.len(),
            outputs@.len() == i,
            forall|k: int| 0 <= k < i ==> (#[trigger] outputs@[k])@ == output_of(cp.withdrawals@[k]),
        decreases cp.withdrawals@.len() - i,
    {
        let w = &cp.withdrawals[i];
        outputs.push(TxOutput { value: w.value, script: copy_bytes(w.script.as_slice()) });
        i = i + 1;
    }
    let total_in = sum_utxos(&cp.utxos);
    let total_out = sum_withdrawals(&cp.withdrawals);
    let value: u64 = if total_in < total_out || total_in - total_out < CHECKPOINT_FEE as u128 {
        0
    } else if total_in - total_out - CHECKPOINT_FEE as u128 > u64::MAX as u128 {
        u64::MAX
    } else {
        (total_in - total_out - CHECKPOINT_FEE as u128) as u64
    };
    let empty: Vec<u8> = Vec::new();
    let script = match &cp.next_signatory_set {
        Some(n) => output_script(&n.signatories, empty.as_slice()),
        None => {
            let n_sets = sets.len();
            assert(cp.signatory_set_index < n_sets);
            let k = cp.signatory_set_index as usize;
            output_script(&sets[k].signatories, empty.as_slice())
        },
    };
    assert(empty@ =~= Seq::<u8>::empty());
    assert(script@ == output_script_of(reserve_set(cp, sets@), Seq::empty()));
    let ghost o0 = outputs@;
    outputs.push(TxOutput { value, script });
    let r = BitcoinTx { version: TX_VERSION, lock_time: 0, inputs, outputs };
    proof {
        assert(empty@ =~= Seq::<u8>::empty());
        assert(r@.2 =~= utxo_inputs(cp.utxos@));
        assert(value == reserve_value(cp));
        assert(r.outputs@.last()@ == (reserve_value(cp), output_script_of(reserve_set(cp, sets@), Seq::empty())));
        assert(r@.3.drop_last() =~= withdrawal_outputs(cp.withdrawals@)) by {
            assert forall|k: int| 0 <= k < cp.withdrawals@.len() implies r@.3[k] == withdrawal_outputs(cp.withdrawals@)[k] by {
                assert(r.outputs@[k] == o0[k]);
            }
        }
        assert(r@.3 =~= withdrawal_outputs(cp.withdrawals@).push((reserve_value(cp), output_script_of(reserve_set(cp, sets@), Seq::empty()))));
        assert forall|i: int| 0 <= i < r.inputs@.len() implies (#[trigger] r.inputs@[i]).txid@ == cp.utxos@[i].txid@ by {
            assert(r.inputs@[i]@ == input_of(cp.utxos@[i]));
        }
    }
    r
}

impl PegState {
    /// The transaction of the active checkpoint, for signatories to sign.
    pub fn active_checkpoint_tx(&self) -> (r: BitcoinTx)
        requires
            self.wf(),
            self.active_checkpoint.is_active,
        ensures
            r@ == checkpoint_tx_of(&self.active_checkpoint, self.signatory_sets@),
            0 <= utxo_sum(self.active_checkpoint.utxos@) - withdrawal_sum(self.active_checkpoint.withdrawals@) - CHECKPOINT_FEE <= u64::MAX ==> reserve_value(&self.active_checkpoint) == utxo_sum(self.active_checkpoint.utxos@) - withdrawal_sum(self.active_checkpoint.withdrawals@) - CHECKPOINT_FEE,
    {
        checkpoint_tx(&self.active_checkpoint, &self.signatory_sets)
    }

    /// The transaction of the last finalized checkpoint.
    pub fn finalized_checkpoint_tx(&self) -> (r: Option<BitcoinTx>)
        ensures
            match r {
                Some(t) => t@ == checkpoint_tx_of(&self.finalized_checkpoint, self.signatory_sets@),
                None => self.finalized_checkpoint.next_signatory_set is None && self.finalized_checkpoint.signatory_set_index >= self.signatory_sets@.len(),
            },
    {
        if self.finalized_checkpoint.next_signatory_set.is_none() && self.finalized_checkpoint.signatory_set_index >= self.signatory_sets.len() as u64 {
            return None;
        }
        Some(checkpoint_tx(&self.finalized_checkpoint, &self.signatory_sets))
    }
}

/// One signatory's signatures, one per input of the active checkpoint.
#[derive(Debug)]
pub struct SignatureTransaction {
    pub signatures: Vec<Vec<u8>>,
    pub signatory_index: u32,
}

impl SignatorySetSnapshot {
    pub open spec fn view(&self) -> (u64, Seq<(Seq<u8>, u64)>) {
        (self.time, self.signatories@)
    }

    pub fn duplicate(&self) -> (r: SignatorySetSnapshot)
        ensures
            r.view() == self.view(),
    {
        SignatorySetSnapshot { time: self.time, signatories: self.signatories.duplicate() }
    }
}

/// The members of the active checkpoint's signatory set.
pub open spec fn active_set(state: &PegState) -> Seq<(Seq<u8>, u64)> {
    state.signatory_sets@[state.active_checkpoint.signatory_set_index as int].signatories@
}

/// Whether `sig` signs input `k` of the active checkpoint's transaction under `pubkey`.
pub open spec fn input_signed(state: &PegState, sig: Seq<u8>, pubkey: Seq<u8>, k: int) -> bool {
    let u = state.active_checkpoint.utxos@[k];
    let script = redeem_script_of(state.signatory_sets@[u.signatory_set_index as int].signatories@, u.data@);
    ecdsa_valid(bip143_sighash(checkpoint_tx_of(&state.active_checkpoint, state.signatory_sets@), k, script, u.value), sig, pubkey)
}

/// The error of a signature submission, or `Ok` where it is accepted.
pub open spec fn signature_outcome(state: &PegState, tx: &SignatureTransaction) -> Result<(), Error> {
    let cp = state.active_checkpoint;
    let n = cp.utxos@.len();
    if !cp.is_active {
        Err(Error::NoActiveCheckpoint)
    } else if tx.signatures@.len() != n {
        Err(Error::SignatureCountMismatch)
    } else if exists|k: int| 0 <= k < n && (#[trigger] tx.signatures@[k])@.len() != 64 {
        Err(Error::BadSignatureLength)
    } else if tx.signatory_index >= active_set(state).len() {
        Err(Error::SignatoryOutOfBounds)
    } else if cp.signatures@[tx.signatory_index as int] is Some {
        Err(Error::AlreadySigned)
    } else if !(forall|k: int| 0 <= k < n ==> #[trigger] input_signed(state, tx.signatures@[k]@, active_set(state)[tx.signatory_index as int].0, k)) {
        Err(Error::IncorrectSignature)
    } else {
        Ok(())
    }
}

/// Whether an accepted submission finalizes the checkpoint: the signed power
/// then strictly exceeds two thirds of the set's total.
pub open spec fn finalizes(state: &PegState, tx: &SignatureTransaction) -> bool {
    state.active_checkpoint.signed_voting_power + active_set(state)[tx.signatory_index as int].1 > two_thirds_of(total_power(active_set(state)))
}

/// Whether `sig` signs input `k` of the active checkpoint's transaction `btc_tx` under `pubkey`.
fn check_input(state: &PegState, btc_tx: &BitcoinTx, k: usize, sig: &[u8], pubkey: &[u8]) -> (r: bool)
    requires
        state.wf(),
        k < state.active_checkpoint.utxos@.len(),
        btc_tx@ == checkpoint_tx_of(&state.active_checkpoint, state.signatory_sets@),
        btc_tx.inputs@.len() == state.active_checkpoint.utxos@.len(),
        forall|i: int| 0 <= i < btc_tx.inputs@.len() ==> (#[trigger] btc_tx.inputs@[i]).txid@.len() == 32,
    ensures
        r == input_signed(state, sig@, pubkey@, k as int),
{
    let n_sets = state.signatory_sets.len();
    let u = &state.active_checkpoint.utxos[k];
    assert(u.signatory_set_index < n_sets);
    let script = redeem_script(&state.signatory_sets[u.signatory_set_index as usize].signatories, u.data.as_slice());
    let sighash = sighash_all(btc_tx, k, &script, u.value);
    verify_ecdsa(sighash.as_slice(), sig, pubkey)
}

/// Whether each of `sigs` signs its input of the active checkpoint's transaction under `pubkey`.
fn check_all_inputs(state: &PegState, btc_tx: &BitcoinTx, sigs: &Vec<Vec<u8>>, pubkey: &[u8]) -> (r: bool)
    requires
        state.wf(),
        sigs@.len() == state.active_checkpoint.utxos@.len(),
        btc_tx@ == checkpoint_tx_of(&state.active_checkpoint, state.signatory_sets@),
        btc_tx.inputs@.len() == state.active_checkpoint.utxos@.len(),
        forall|i: int| 0 <= i < btc_tx.inputs@.len() ==> (#[trigger] btc_tx.inputs@[i]).txid@.len() == 32,
    ensures
        r == forall|k: int| 0 <= k < sigs@.len() ==> #[trigger] input_signed(state, sigs@[k]@, pubkey@, k),
{
    let mut k: usize = 0;
    while k < sigs.len()
        invariant
            state.wf(),
            sigs@.len() == state.active_checkpoint.utxos@.len(),
            btc_tx@ == checkpoint_tx_of(&state.active_checkpoint, state.signatory_sets@),
            btc_tx.inputs@.len() == state.active_checkpoint.utxos@.len(),
            forall|i: int| 0 <= i < btc_tx.inputs@.len() ==> (#[trigger] btc_tx.inputs@[i]).txid@.len() == 32,
            k <= sigs@.len(),
            forall|j: int| 0 <= j < k ==> #[trigger] input_signed(state, sigs@[j]@, pubkey@, j),
        decreases sigs@.len() - k,
    {
        if !check_input(state, btc_tx, k, sigs[k].as_slice(), pubkey) {
            return false;
        }
        k = k + 1;
    }
    true
}

/// Records a signatory's signatures on the active checkpoint; once the signed
/// power strictly exceeds two thirds of the total, finalizes it: the next
/// signatory set, if any, is logged, the checkpoint moves to the finalized
/// slot, its reserve output becomes a pending output, and its encoded
/// transaction is kept for relayers.
#[verifier::rlimit(80)]
pub fn signature_tx(state: &mut PegState, tx: SignatureTransaction) -> (r: Result<(), Error>)
    requires
        old(state).wf(),
    ensures
        final(state).wf(),
        r == signature_outcome(old(state), &tx),
        r is Err ==> *final(state) == *old(state),
        r is Ok ==> {
            &&& final(state).pending_withdrawals == old(state).pending_withdrawals
            &&& final(state).processed_deposit_txids == old(state).processed_deposit_txids
            &&& final(state).headers == old(state).headers
            &&& final(state).last_checkpoint_time == old(state).last_checkpoint_time
            &&& final(state).checkpoint_index == old(state).checkpoint_index
        },
        r is Ok && !finalizes(old(state), &tx) ==> final(state).utxo_total() == old(state).utxo_total() && final(state).withdrawal_total() == old(state).withdrawal_total(),
        r is Ok && !finalizes(old(state), &tx) ==> {
            let a = final(state).active_checkpoint;
            let o = old(state).active_checkpoint;
            &&& a.is_active
            &&& a.signatures@ == o.signatures@.update(tx.signatory_index as int, Some(tx.signatures))
            &&& a.signed_voting_power == o.signed_voting_power + active_set(old(state))[tx.signatory_index as int].1
            &&& a.utxos == o.utxos
            &&& a.withdrawals == o.withdrawals
            &&& a.next_signatory_set == o.next_signatory_set
            &&& a.signatory_set_index == o.signatory_set_index
            &&& final(state).utxos == old(state).utxos
            &&& final(state).signatory_sets == old(state).signatory_sets
            &&& final(state).finalized_checkpoint == old(state).finalized_checkpoint
            &&& final(state).finalized_checkpoint_txs == old(state).finalized_checkpoint_txs
        },
        r is Ok && finalizes(old(state), &tx) ==> {
            let o = old(state).active_checkpoint;
            let f = final(state).finalized_checkpoint;
            let a = final(state).active_checkpoint;
            let txv = checkpoint_tx_of(&o, old(state).signatory_sets@);
            &&& !a.is_active
            &&& a.utxos@.len() == 0
            &&& a.withdrawals@.len() == 0
            &&& a.signatures@.len() == 0
            &&& a.signed_voting_power == 0
            &&& a.next_signatory_set is None
            &&& f.utxos == o.utxos
            &&& f.withdrawals == o.withdrawals
            &&& f.signatures@ == o.signatures@.update(tx.signatory_index as int, Some(tx.signatures))
            &&& f.signatory_set_index == o.signatory_set_index
            &&& !f.is_active
            &&& f.signed_voting_power == o.signed_voting_power + active_set(old(state))[tx.signatory_index as int].1
            &&& (o.next_signatory_set is None ==> final(state).signatory_sets == old(state).signatory_sets && f.next_signatory_set is None)
            &&& (o.next_signatory_set matches Some(n) ==> {
                &&& final(state).signatory_sets@.len() == old(state).signatory_sets@.len() + 1
                &&& final(state).signatory_sets@.drop_last() == old(state).signatory_sets@
                &&& final(state).signatory_sets@.last() == n
                &&& f.next_signatory_set matches Some(m) && m.view() == n.view()
            })
            &&& utxos_view(final(state).utxos@) == utxos_view(old(state).utxos@).push((tx_id(txv), (txv.3.len() - 1) as u32, reserve_value(&o), (final(state).signatory_sets@.len() - 1) as u64, Seq::<u8>::empty()))
            &&& byte_strings(final(state).finalized_checkpoint_txs@) == byte_strings(old(state).finalized_checkpoint_txs@).push(tx_encoding(txv))
        },
{
    if !state.active_checkpoint.is_active {
        return Err(Error::NoActiveCheckpoint);
    }
    let n_inputs = state.active_checkpoint.utxos.len();
    if tx.signatures.len() != n_inputs {
        return Err(Error::SignatureCountMismatch);
    }
    let mut k: usize = 0;
    while k < n_inputs
        invariant
            *state == *old(state),
            state.wf(),
            state.active_checkpoint.is_active,
            n_inputs == tx.signatures@.len(),
            n_inputs == state.active_checkpoint.utxos@.len(),
            k <= n_inputs,
            forall|j: int| 0 <= j < k ==> (#[trigger] tx.signatures@[j])@.len() == 64,
        decreases n_inputs - k,
    {
        if tx.signatures[k].len() != SIGNATURE_LENGTH {
            assert(tx.signatures@[k as int]@.len() != 64);
            return Err(Error::BadSignatureLength);
        }
        k = k + 1;
    }
    let n_sets = state.signatory_sets.len();
    let set_idx = state.active_checkpoint.signatory_set_index as usize;
    assert(set_idx == state.active_checkpoint.signatory_set_index);
    let si = tx.signatory_index as usize;
    if si >= state.signatory_sets[set_idx].signatories.len() {
        return Err(Error::SignatoryOutOfBounds);
    }
    if state.active_checkpoint.signatures[si].is_some() {
        return Err(Error::AlreadySigned);
    }
    let btc_tx = state.active_checkpoint_tx();
    let ghost set_view = active_set(state);
    assert(set_view[si as int] == state.signatory_sets@[set_idx as int].signatories.signatories@[si as int]@);
    let vp = state.signatory_sets[set_idx].signatories.signatories[si].voting_power;
    let threshold = state.signatory_sets[set_idx].signatories.two_thirds_voting_power();
    let total = state.signatory_sets[set_idx].signatories.total_voting_power();
    proof {
        assert(btc_tx@.2.len() == btc_tx.inputs@.len());
        assert forall|i: int| 0 <= i < btc_tx.inputs@.len() implies (#[trigger] btc_tx.inputs@[i]).txid@.len() == 32 by {
            assert(btc_tx@.2[i] == btc_tx.inputs@[i]@);
            assert(utxo_inputs(state.active_checkpoint.utxos@)[i] == input_of(state.active_checkpoint.utxos@[i]));
        }
    }
    assert(set_view[si as int].0 == state.signatory_sets@[set_idx as int].signatories.signatories@[si as int].pubkey@);
    if !check_all_inputs(state, &btc_tx, &tx.signatures, state.signatory_sets[set_idx].signatories.signatories[si].pubkey.as_slice()) {
        return Err(Error::IncorrectSignature);
    }
    assert(signature_outcome(old(state), &tx) == Ok::<(), Error>(()));
    proof {
        lemma_signed_power_bound(state.active_checkpoint.signatures@, set_view, set_view.len() as int);
        assert(set_view.take(set_view.len() as int) =~= set_view);
        lemma_signed_power_update(state.active_checkpoint.signatures@, set_view, set_view.len() as int, si as int, tx.signatures);
        lemma_signed_power_bound(state.active_checkpoint.signatures@.update(si as int, Some(tx.signatures)), set_view, set_view.len() as int);
    }
    let new_power = state.active_checkpoint.signed_voting_power + vp as u128;
    let ghost old_sigs = state.active_checkpoint.signatures@;
    let ghost sigs_value = tx.signatures;
    state.active_checkpoint.signatures.set(si, Some(tx.signatures));
    if new_power <= threshold {
        state.active_checkpoint.signed_voting_power = new_power;
        return Ok(());
    }
    // Finalize.
    let ghost s0 = state.signatory_sets@;
    let ghost u0 = state.utxos@;
    let mut done = Checkpoint::empty();
    std::mem::swap(&mut done, &mut state.active_checkpoint);
    let next = match done.next_signatory_set {
        Some(n) => {
            let copy = n.duplicate();
            state.signatory_sets.push(n);
            Some(copy)
        },
        None => None,
    };
    let txid = transaction_id(&btc_tx);
    let raw = encode_transaction(&btc_tx);
    let n_out = btc_tx.outputs.len();
    assert(btc_tx@.3.len() == n_out);
    assert(btc_tx.outputs@[n_out - 1]@ == btc_tx@.3[n_out - 1]);
    let reserve = btc_tx.outputs[n_out - 1].value;
    let n_sets_now = state.signatory_sets.len();
    state.finalized_checkpoint = Checkpoint {
        is_active: false,
        signatory_set_index: done.signatory_set_index,
        signed_voting_power: new_power,
        next_signatory_set: next,
        utxos: done.utxos,
        withdrawals: done.withdrawals,
        signatures: done.signatures,
    };
    state.utxos.push(Utxo {
        txid,
        index: #[verifier::truncate] ((n_out - 1) as u32),
        value: reserve,
        signatory_set_index: (n_sets_now - 1) as u64,
        data: Vec::new(),
    });
    let ghost f0 = state.finalized_checkpoint_txs@;
    state.finalized_checkpoint_txs.push(raw);
    proof {
        assert(byte_strings(state.finalized_checkpoint_txs@) =~= byte_strings(f0).push(tx_encoding(btc_tx@)));
        assert(state.utxos@.drop_last() =~= u0);
        assert(utxos_view(state.utxos@) =~= utxos_view(u0).push(state.utxos@.last()@));
        assert(state.utxos@.last()@.4 =~= Seq::<u8>::empty());
        assert forall|k: int| 0 <= k < state.signatory_sets@.len() implies (#[trigger] state.signatory_sets@[k]).signatories.wf() by {
            if k < s0.len() {
                assert(state.signatory_sets@[k] == s0[k]);
            }
        }
        assert(utxos_ok(state.utxos@, state.signatory_sets@.len() as int)) by {
            assert forall|i: int| 0 <= i < state.utxos@.len() implies (#[trigger] state.utxos@[i]).txid@.len() == 32 && state.utxos@[i].signatory_set_index < state.signatory_sets@.len() by {
                if i < u0.len() {
                    assert(state.utxos@[i] == u0[i]);
                }
            }
        }
        if old(state).active_checkpoint.next_signatory_set is Some {
            assert(state.signatory_sets@.drop_last() =~= s0);
        }
    }
    Ok(())
}

/// Bitcoin block headers to append to the SPV chain, in order.
#[derive(Debug)]
pub struct HeaderTransaction {
    pub block_headers: Vec<Vec<u8>>,
}

/// Makes the pinned checkpoint header `header` the root of the SPV chain at `height`.
pub fn initialize(state: &mut PegState, header: &[u8], height: u64) -> (r: Result<(), Error>)
    requires
        old(state).wf(),
    ensures
        final(state).wf(),
        match crate::btc::decoded_header(header@) {
            Some(h) => r is Ok && final(state).headers@ == seq![(height, h.0, h.2, header@)] && crate::headers::header_at(final(state).headers@, height) == Some(header@),
            None => r == Err::<(), Error>(Error::BadHeader) && final(state).headers@ == old(state).headers@,
        },
        final(state).utxos == old(state).utxos,
        final(state).pending_withdrawals == old(state).pending_withdrawals,
        final(state).processed_deposit_txids == old(state).processed_deposit_txids,
        final(state).signatory_sets == old(state).signatory_sets,
        final(state).active_checkpoint == old(state).active_checkpoint,
        final(state).finalized_checkpoint == old(state).finalized_checkpoint,
        final(state).finalized_checkpoint_txs == old(state).finalized_checkpoint_txs,
        final(state).last_checkpoint_time == old(state).last_checkpoint_time,
        final(state).checkpoint_index == old(state).checkpoint_index,
{
    state.headers.add_header_raw(header, height)
}

/// Appends the headers to the SPV chain; where one is rejected, none is kept.
pub fn header_tx(state: &mut PegState, tx: HeaderTransaction) -> (r: Result<(), Error>)
    requires
        old(state).wf(),
    ensures
        final(state).wf(),
        match extend_all(old(state).headers@, byte_strings(tx.block_headers@)) {
            Some(t) => r is Ok && final(state).headers@ == t,
            None => r == Err::<(), Error>(Error::BadHeader) && final(state).headers@ == old(state).headers@,
        },
        final(state).utxos == old(state).utxos,
        final(state).pending_withdrawals == old(state).pending_withdrawals,
        final(state).processed_deposit_txids == old(state).processed_deposit_txids,
        final(state).signatory_sets == old(state).signatory_sets,
        final(state).active_checkpoint == old(state).active_checkpoint,
        final(state).finalized_checkpoint == old(state).finalized_checkpoint,
        final(state).finalized_checkpoint_txs == old(state).finalized_checkpoint_txs,
        final(state).last_checkpoint_time == old(state).last_checkpoint_time,
        final(state).checkpoint_index == old(state).checkpoint_index,
{
    let r = state.headers.add_headers(&tx.block_headers);
    proof {
        if r is Err {
            assert(state.headers@ =~= old(state).headers@);
        }
    }
    r
}

} // verus!
