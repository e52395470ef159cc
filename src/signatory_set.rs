//! Signatory sets: the committee, derived from the validator set, that signs
//! the peg's Bitcoin transactions, with its canonical order and its
//! voting-power threshold.
use vstd::prelude::*;
use crate::bytes::{bytes_eq, bytes_less, bytes_lt, lemma_bytes_lt_total, lemma_bytes_lt_transitive};
use crate::btc::{is_valid_pubkey, valid_pubkey};
use crate::error::Error;
use crate::keyed::{has_key, keyed_map, keys_unique, lemma_keyed_index, lemma_keyed_insert, lemma_keyed_remove};

verus! {

/// One member of a signatory set: a public key with its voting power.
#[derive(Debug, Clone, PartialEq, Eq)]
pub struct Signatory {
    pub pubkey: Vec<u8>,
    pub voting_power: u64,
}

impl View for Signatory {
    type V = (Seq<u8>, u64);

    open spec fn view(&self) -> (Seq<u8>, u64) {
        (self.pubkey@, self.voting_power)
    }
}

impl Signatory {
    pub fn new(pubkey: Vec<u8>, voting_power: u64) -> (r: Signatory)
        ensures
            r@ == (pubkey@, voting_power),
    {
        Signatory { pubkey, voting_power }
    }

    pub fn duplicate(&self) -> (r: Signatory)
        ensures
            r@ == self@,
    {
        Signatory { pubkey: self.pubkey.clone(), voting_power: self.voting_power }
    }
}

/// Canonical order: higher voting power first, then the smaller key.
pub open spec fn precedes(x: (Seq<u8>, u64), y: (Seq<u8>, u64)) -> bool {
    x.1 > y.1 || (x.1 == y.1 && bytes_lt(x.0, y.0))
}

pub open spec fn sorted_canonically(s: Seq<(Seq<u8>, u64)>) -> bool {
    forall|i: int, j: int| 0 <= i < j < s.len() ==> precedes(#[trigger] s[i], #[trigger] s[j])
}

/// Sum of the voting powers.
pub open spec fn total_power(s: Seq<(Seq<u8>, u64)>) -> nat
    decreases s.len(),
{
    if s.len() == 0 {
        0
    } else {
        total_power(s.drop_last()) + s.last().1 as nat
    }
}

/// The power that signatures must strictly exceed: two thirds of the total, rounded down.
pub open spec fn two_thirds_of(total: nat) -> nat {
    total * 2 / 3
}

/// An ordered set of signatories, unique by key, in canonical order.
#[derive(Debug, Clone, PartialEq, Eq)]
pub struct SignatorySet {
    pub signatories: Vec<Signatory>,
}

impl View for SignatorySet {
    type V = Seq<(Seq<u8>, u64)>;

    open spec fn view(&self) -> Seq<(Seq<u8>, u64)> {
        self.signatories@.map_values(|s: Signatory| s@)
    }
}

proof fn lemma_precedes_total(x: (Seq<u8>, u64), y: (Seq<u8>, u64))
    requires
        x.0 != y.0,
    ensures
        precedes(x, y) || precedes(y, x),
        !(precedes(x, y) && precedes(y, x)),
{
    lemma_bytes_lt_total(x.0, y.0);
}

proof fn lemma_precedes_transitive(x: (Seq<u8>, u64), y: (Seq<u8>, u64), z: (Seq<u8>, u64))
    requires
        precedes(x, y),
        precedes(y, z),
    ensures
        precedes(x, z),
{
    if x.1 == y.1 && y.1 == z.1 {
        lemma_bytes_lt_transitive(x.0, y.0, z.0);
    }
}

proof fn lemma_total_power_bound(s: Seq<(Seq<u8>, u64)>)
    ensures
        total_power(s) <= s.len() * 0xffff_ffff_ffff_ffff,
    decreases s.len(),
{
    if s.len() > 0 {
        lemma_total_power_bound(s.drop_last());
        assert(total_power(s.drop_last()) + s.last().1 <= (s.len() - 1) * 0xffff_ffff_ffff_ffff + 0xffff_ffff_ffff_ffff) by (nonlinear_arith)
            requires
                total_power(s.drop_last()) <= (s.len() - 1) * 0xffff_ffff_ffff_ffff,
                s.last().1 <= 0xffff_ffff_ffff_ffff,
        ;
        assert((s.len() - 1) * 0xffff_ffff_ffff_ffff + 0xffff_ffff_ffff_ffff == s.len() * 0xffff_ffff_ffff_ffff) by (nonlinear_arith);
    }
}

impl SignatorySet {
    /// Keys are unique and the members stand in canonical order.
    pub open spec fn wf(&self) -> bool {
        keys_unique(self@) && sorted_canonically(self@)
    }

    /// The members as a map from key to voting power.
    pub open spec fn power_map(&self) -> Map<Seq<u8>, u64> {
        keyed_map(self@)
    }

    pub fn new() -> (r: SignatorySet)
        ensures
            r.wf(),
            r@ == Seq::<(Seq<u8>, u64)>::empty(),
    {
        let r = SignatorySet { signatories: Vec::new() };
        assert(r@ =~= Seq::<(Seq<u8>, u64)>::empty());
        r
    }

    pub fn len(&self) -> (r: usize)
        ensures
            r == self@.len(),
    {
        self.signatories.len()
    }

    pub fn duplicate(&self) -> (r: SignatorySet)
        ensures
            r@ == self@,
    {
        let mut v: Vec<Signatory> = Vec::new();
        let mut i: usize = 0;
        while i < self.signatories.len()
            invariant
                i <= self.signatories@.len(),
                v@.len() == i,
                forall|k: int| 0 <= k < i ==> #[trigger] v@[k]@ == self.signatories@[k]@,
            decreases self.signatories@.len() - i,
        {
            v.push(self.signatories[i].duplicate());
            i = i + 1;
        }
        let r = SignatorySet { signatories: v };
        assert(r@ =~= self@);
        r
    }

    /// Inserts a signatory, or replaces the voting power of the one with the
    /// same key, keeping the canonical order.
    pub fn set(&mut self, signatory: Signatory)
        requires
            old(self).wf(),
        ensures
            final(self).wf(),
            final(self).power_map() == old(self).power_map().insert(signatory.pubkey@, signatory.voting_power),
    {
        let ghost e = signatory@;
        let mut i: usize = 0;
        let mut found = false;
        while i < self.signatories.len() && !found
            invariant
                e == signatory@,
                i <= self.signatories@.len(),
                found ==> i < self@.len() && self@[i as int].0 == e.0,
                forall|k: int| 0 <= k < i ==> #[trigger] self@[k].0 != e.0,
            decreases self.signatories@.len() - i, if found { 0int } else { 1int },
        {
            assert(self@[i as int] == self.signatories@[i as int]@);
            if bytes_eq(self.signatories[i].pubkey.as_slice(), signatory.pubkey.as_slice()) {
                found = true;
            } else {
                i = i + 1;
            }
        }
        let ghost s0 = self@;
        if found {
            let _ = self.signatories.remove(i);
            assert(self@ =~= s0.remove(i as int));
            proof {
                lemma_keyed_remove(s0, i as int);
                assert forall|a: int, b: int| 0 <= a < b < self@.len() implies precedes(#[trigger] self@[a], #[trigger] self@[b]) by {
                    let a2 = if a < i { a } else { a + 1 };
                    let b2 = if b < i { b } else { b + 1 };
                    assert(self@[a] == s0[a2]);
                    assert(self@[b] == s0[b2]);
                }
                assert(s0[i as int].0 == e.0);
            }
        }
        let ghost s1 = self@;
        assert(!has_key(s1, e.0)) by {
            if has_key(s1, e.0) {
                let a = choose|a: int| 0 <= a < s1.len() && #[trigger] s1[a].0 == e.0;
                if found {
                    let a2 = if a < i { a } else { a + 1 };
                    assert(s1[a] == s0[a2]);
                } else {
                    assert(s1[a] == s0[a]);
                }
            }
        }
        let mut p: usize = 0;
        let mut stop = false;
        while p < self.signatories.len() && !stop
            invariant
                e == signatory@,
                self@ == s1,
                !has_key(s1, e.0),
                p <= s1.len(),
                stop ==> p < s1.len() && precedes(e, s1[p as int]),
                forall|k: int| 0 <= k < p ==> precedes(#[trigger] s1[k], e),
            decreases s1.len() - p, if stop { 0int } else { 1int },
        {
            let c = &self.signatories[p];
            assert(s1[p as int] == c@);
            let before = c.voting_power < signatory.voting_power || (c.voting_power == signatory.voting_power && bytes_less(signatory.pubkey.as_slice(), c.pubkey.as_slice()));
            if before {
                stop = true;
            } else {
                proof {
                    assert(s1[p as int].0 != e.0);
                    lemma_precedes_total(s1[p as int], e);
                }
                p = p + 1;
            }
        }
        proof {
            if p < s1.len() {
                assert(precedes(e, s1[p as int]));
            }
        }
        self.signatories.insert(p, signatory);
        assert(self@ =~= s1.insert(p as int, e));
        proof {
            lemma_keyed_insert(s1, p as int, e);
            let t = self@;
            assert forall|a: int, b: int| 0 <= a < b < t.len() implies precedes(#[trigger] t[a], #[trigger] t[b]) by {
                if a < p && b < p {
                    assert(t[a] == s1[a] && t[b] == s1[b]);
                } else if a < p && b == p {
                    assert(t[a] == s1[a]);
                } else if a < p {
                    assert(t[a] == s1[a] && t[b] == s1[b - 1]);
                    lemma_precedes_transitive(s1[a], e, s1[p as int]);
                    if b - 1 > p {
                        lemma_precedes_transitive(s1[a], s1[p as int], s1[b - 1]);
                    }
                } else if a == p {
                    assert(t[b] == s1[b - 1]);
                    if b - 1 > p {
                        lemma_precedes_transitive(e, s1[p as int], s1[b - 1]);
                    }
                } else {
                    assert(t[a] == s1[a - 1] && t[b] == s1[b - 1]);
                }
            }
            if found {
                assert(keyed_map(s0).remove(e.0).insert(e.0, e.1) =~= keyed_map(s0).insert(e.0, e.1));
            } else {
                assert(s1 == s0);
            }
        }
    }

    /// Sum of the members' voting powers.
    pub fn total_voting_power(&self) -> (r: u128)
        ensures
            r == total_power(self@),
    {
        let mut sum: u128 = 0;
        let mut i: usize = 0;
        while i < self.signatories.len()
            invariant
                i <= self@.len(),
                sum == total_power(self@.take(i as int)),
            decreases self@.len() - i,
        {
            proof {
                assert(self@.take(i as int + 1).drop_last() =~= self@.take(i as int));
                lemma_total_power_bound(self@.take(i as int));
                assert(i * 0xffff_ffff_ffff_ffffnat <= 0xffff_ffff_ffff_ffff * 0xffff_ffff_ffff_ffffnat) by (nonlinear_arith)
                    requires i <= 0xffff_ffff_ffff_ffffnat;
            }
            assert(self@[i as int] == self.signatories@[i as int]@);
            sum = sum + self.signatories[i].voting_power as u128;
            i = i + 1;
        }
        assert(self@.take(i as int) =~= self@);
        sum
    }

    /// Two thirds of the total voting power, rounded down.
    pub fn two_thirds_voting_power(&self) -> (r: u128)
        ensures
            r == two_thirds_of(total_power(self@)),
    {
        let t = self.total_voting_power();
        assert(t / 3 * 2 + t % 3 * 2 / 3 == t * 2 / 3) by (nonlinear_arith);
        t / 3 * 2 + t % 3 * 2 / 3
    }
}

/// The validator map that a list of (key, power) pairs denotes; a later pair
/// for the same key wins.
pub open spec fn validator_map(v: Seq<(Seq<u8>, u64)>) -> Map<Seq<u8>, u64>
    decreases v.len(),
{
    if v.len() == 0 {
        Map::empty()
    } else {
        validator_map(v.drop_last()).insert(v.last().0, v.last().1)
    }
}

pub open spec fn validators_view(v: Seq<(Vec<u8>, u64)>) -> Seq<(Seq<u8>, u64)> {
    v.map_values(|e: (Vec<u8>, u64)| (e.0@, e.1))
}

/// Every validator key is a secp256k1 public key.
pub open spec fn all_keys_valid(v: Seq<(Seq<u8>, u64)>) -> bool {
    forall|i: int| 0 <= i < v.len() ==> valid_pubkey(#[trigger] v[i].0)
}

/// The signatory set of a validator map: each validator's key with its
/// power; fails where a key is no secp256k1 public key.
pub fn signatories_from_validators(validators: &Vec<(Vec<u8>, u64)>) -> (r: Result<SignatorySet, Error>)
    ensures
        match r {
            Ok(s) => all_keys_valid(validators_view(validators@)) && s.wf() && s.power_map() == validator_map(validators_view(validators@)),
            Err(e) => e == Error::InvalidValidatorKey && !all_keys_valid(validators_view(validators@)),
        },
{
    let ghost v = validators_view(validators@);
    let mut signatories = SignatorySet::new();
    assert(signatories.power_map() =~= Map::<Seq<u8>, u64>::empty());
    let mut i: usize = 0;
    while i < validators.len()
        invariant
            v == validators_view(validators@),
            i <= v.len(),
            signatories.wf(),
            signatories.power_map() == validator_map(v.take(i as int)),
            all_keys_valid(v.take(i as int)),
        decreases v.len() - i,
    {
        assert(v[i as int] == (validators@[i as int].0@, validators@[i as int].1));
        if !is_valid_pubkey(validators[i].0.as_slice()) {
            assert(!valid_pubkey(v[i as int].0));
            return Err(Error::InvalidValidatorKey);
        }
        let key = validators[i].0.clone();
        signatories.set(Signatory::new(key, validators[i].1));
        assert(v.take(i as int + 1).drop_last() =~= v.take(i as int));
        assert(forall|k: int| 0 <= k < i ==> v.take(i as int + 1)[k] == v.take(i as int)[k]);
        i = i + 1;
    }
    assert(v.take(i as int) =~= v);
    Ok(signatories)
}

proof fn lemma_canonical_unique(a: Seq<(Seq<u8>, u64)>, b: Seq<(Seq<u8>, u64)>)
    requires
        keys_unique(a),
        sorted_canonically(a),
        keys_unique(b),
        sorted_canonically(b),
        keyed_map(a) == keyed_map(b),
    ensures
        a == b,
    decreases a.len(),
{
    if a.len() == 0 {
        if b.len() > 0 {
            lemma_keyed_index(b, 0);
        }
        assert(a =~= b);
    } else {
        lemma_keyed_index(a, 0);
        assert(has_key(b, a[0].0));
        let j = choose|j: int| 0 <= j < b.len() && #[trigger] b[j].0 == a[0].0;
        lemma_keyed_index(b, j);
        assert(b[j] == a[0]);
        if j > 0 {
            lemma_keyed_index(b, 0);
            assert(has_key(a, b[0].0));
            let k = choose|k: int| 0 <= k < a.len() && #[trigger] a[k].0 == b[0].0;
            lemma_keyed_index(a, k);
            assert(precedes(b[0], b[j]));
            assert(k != 0);
            assert(precedes(a[0], a[k]));
            lemma_precedes_total(a[0], b[0]);
        }
        assert(b[0] == a[0]);
        lemma_keyed_remove(a, 0);
        lemma_keyed_remove(b, 0);
        let a1 = a.remove(0);
        let b1 = b.remove(0);
        assert forall|x: int, y: int| 0 <= x < y < a1.len() implies precedes(#[trigger] a1[x], #[trigger] a1[y]) by {
            assert(a1[x] == a[x + 1] && a1[y] == a[y + 1]);
        }
        assert forall|x: int, y: int| 0 <= x < y < b1.len() implies precedes(#[trigger] b1[x], #[trigger] b1[y]) by {
            assert(b1[x] == b[x + 1] && b1[y] == b[y + 1]);
        }
        lemma_canonical_unique(a1, b1);
        assert(a =~= seq![a[0]] + a1);
        assert(b =~= seq![b[0]] + b1);
    }
}

/// Deriving the signatory set is deterministic: any two sets in canonical
/// order that hold exactly the validators of one map are the same sequence of
/// keys and powers, so the scripts built from them are byte-identical.
pub proof fn lemma_derivation_deterministic(validators: Seq<(Seq<u8>, u64)>, a: SignatorySet, b: SignatorySet)
    requires
        a.wf(),
        b.wf(),
        a.power_map() == validator_map(validators),
        b.power_map() == validator_map(validators),
    ensures
        a@ == b@,
{
    lemma_canonical_unique(a@, b@);
}

/// With two members of equal, positive power, one member's signatures never
/// strictly exceed two thirds of the total, and both members' always do.
pub proof fn lemma_two_equal_members_threshold(p: nat)
    requires
        p > 0,
    ensures
        !(p > two_thirds_of(2 * p)),
        2 * p > two_thirds_of(2 * p),
{
    assert(p <= (2 * p) * 2 / 3) by (nonlinear_arith)
        requires p > 0;
    assert(2 * p > (2 * p) * 2 / 3) by (nonlinear_arith)
        requires p > 0;
}

} // verus!
