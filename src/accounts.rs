//! The ledger of balances, in satoshis, keyed by 33-byte addresses.
use vstd::prelude::*;
use crate::bytes::bytes_eq;
use crate::keyed::{has_key, keyed_map, keys_unique, lemma_keyed_index, lemma_keyed_insert, lemma_keyed_update};

verus! {

/// A balance with the nonce that the next withdrawal must carry.
#[derive(Debug, Clone, Copy, PartialEq, Eq, Structural, Default)]
pub struct Account {
    pub balance: u64,
    pub nonce: u64,
}

/// Sum of the balances of the entries.
pub open spec fn balance_sum(s: Seq<(Seq<u8>, Account)>) -> int
    decreases s.len(),
{
    if s.len() == 0 {
        0
    } else {
        balance_sum(s.drop_last()) + s.last().1.balance
    }
}

proof fn lemma_balance_sum_update(s: Seq<(Seq<u8>, Account)>, i: int, e: (Seq<u8>, Account))
    requires
        0 <= i < s.len(),
    ensures
        balance_sum(s.update(i, e)) == balance_sum(s) - s[i].1.balance + e.1.balance,
    decreases s.len(),
{
    if i < s.len() - 1 {
        assert(s.update(i, e).drop_last() =~= s.drop_last().update(i, e));
        lemma_balance_sum_update(s.drop_last(), i, e);
    } else {
        assert(s.update(i, e).drop_last() =~= s.drop_last());
    }
}

/// Accounts, created on their first credit and never removed.
#[derive(Debug, Clone)]
pub struct Accounts {
    pub entries: Vec<(Vec<u8>, Account)>,
}

impl View for Accounts {
    type V = Seq<(Seq<u8>, Account)>;

    open spec fn view(&self) -> Seq<(Seq<u8>, Account)> {
        self.entries@.map_values(|e: (Vec<u8>, Account)| (e.0@, e.1))
    }
}

impl Accounts {
    pub open spec fn wf(&self) -> bool {
        keys_unique(self@)
    }

    /// The ledger as a map from address to account.
    pub open spec fn map(&self) -> Map<Seq<u8>, Account> {
        keyed_map(self@)
    }

    /// Sum of all balances.
    pub open spec fn total_balance(&self) -> int {
        balance_sum(self@)
    }

    /// The account at `a`, if there is one.
    pub open spec fn account_at(&self, a: Seq<u8>) -> Option<Account> {
        if self.map().contains_key(a) {
            Some(self.map()[a])
        } else {
            None
        }
    }

    pub fn new() -> (r: Accounts)
        ensures
            r.wf(),
            r.map() == Map::<Seq<u8>, Account>::empty(),
            r.total_balance() == 0,
    {
        let r = Accounts { entries: Vec::new() };
        assert(r@ =~= Seq::<(Seq<u8>, Account)>::empty());
        assert(r.map() =~= Map::<Seq<u8>, Account>::empty());
        r
    }

    fn position(&self, address: &[u8]) -> (r: Option<usize>)
        ensures
            r is Some ==> r->0 < self@.len() && self@[r->0 as int].0 == address@,
            r is None ==> !has_key(self@, address@),
    {
        let mut i: usize = 0;
        while i < self.entries.len()
            invariant
                i <= self@.len(),
                self@.len() == self.entries@.len(),
                forall|k: int| 0 <= k < i ==> #[trigger] self@[k].0 != address@,
            decreases self@.len() - i,
        {
            assert(self@[i as int].0 == self.entries@[i as int].0@);
            if bytes_eq(self.entries[i].0.as_slice(), address) {
                return Some(i);
            }
            i = i + 1;
        }
        None
    }

    /// The account at `address`, if it exists.
    pub fn get(&self, address: &[u8]) -> (r: Option<Account>)
        requires
            self.wf(),
        ensures
            r == self.account_at(address@),
    {
        match self.position(address) {
            Some(i) => {
                proof {
                    lemma_keyed_index(self@, i as int);
                }
                Some(self.entries[i].1)
            },
            None => None,
        }
    }

    /// Stores `account` at `address`, creating or replacing it.
    pub fn insert(&mut self, address: &[u8], account: Account)
        requires
            old(self).wf(),
        ensures
            final(self).wf(),
            final(self).map() == old(self).map().insert(address@, account),
            final(self).total_balance() == old(self).total_balance() - (match old(self).account_at(address@) {
                Some(a) => a.balance as int,
                None => 0,
            }) + account.balance,
    {
        let ghost s0 = self@;
        match self.position(address) {
            Some(i) => {
                proof {
                    lemma_keyed_index(s0, i as int);
                    lemma_keyed_update(s0, i as int, account);
                    lemma_balance_sum_update(s0, i as int, (s0[i as int].0, account));
                }
                let key = self.entries[i].0.clone();
                self.entries.set(i, (key, account));
                assert(self@ =~= s0.update(i as int, (s0[i as int].0, account)));
            },
            None => {
                let mut key: Vec<u8> = Vec::new();
                let mut k: usize = 0;
                while k < address.len()
                    invariant
                        k <= address@.len(),
                        key@ == address@.take(k as int),
                    decreases address@.len() - k,
                {
                    key.push(address[k]);
                    assert(address@.take(k as int + 1) =~= address@.take(k as int).push(address@[k as int]));
                    k = k + 1;
                }
                assert(address@.take(k as int) =~= address@);
                self.entries.push((key, account));
                assert(self@ =~= s0.insert(s0.len() as int, (address@, account)));
                proof {
                    lemma_keyed_insert(s0, s0.len() as int, (address@, account));
                    assert(s0.insert(s0.len() as int, (address@, account)).drop_last() =~= s0);
                    assert(!keyed_map(s0).contains_key(address@));
                }
            },
        }
    }

    pub fn duplicate(&self) -> (r: Accounts)
        ensures
            r@ == self@,
    {
        let mut v: Vec<(Vec<u8>, Account)> = Vec::new();
        let mut i: usize = 0;
        while i < self.entries.len()
            invariant
                i <= self.entries@.len(),
                v@.len() == i,
                forall|k: int| 0 <= k < i ==> (#[trigger] v@[k]).0@ == self.entries@[k].0@ && v@[k].1 == self.entries@[k].1,
            decreases self.entries@.len() - i,
        {
            let key = self.entries[i].0.clone();
            v.push((key, self.entries[i].1));
            i = i + 1;
        }
        let r = Accounts { entries: v };
        assert(r@ =~= self@);
        r
    }
}

} // verus!
