//! The peg's Bitcoin scripts: a weighted multisig over a signatory set, with
//! the depositor's address committed in it, and its P2WSH output script.
use vstd::prelude::*;
use crate::btc::{p2wsh, sha256_of};
use crate::bytes::append_bytes;
use crate::signatory_set::{total_power, two_thirds_of, SignatorySet};

verus! {

pub const OP_0: u8 = 0x00;
pub const OP_PUSHDATA1: u8 = 0x4c;
pub const OP_PUSHDATA2: u8 = 0x4d;
pub const OP_PUSHDATA4: u8 = 0x4e;
pub const OP_IF: u8 = 0x63;
pub const OP_ELSE: u8 = 0x67;
pub const OP_ENDIF: u8 = 0x68;
pub const OP_DROP: u8 = 0x75;
pub const OP_SWAP: u8 = 0x7c;
pub const OP_ADD: u8 = 0x93;
pub const OP_GREATERTHAN: u8 = 0xa0;
pub const OP_CHECKSIG: u8 = 0xac;

/// Little-endian digits of `n` in base 256, without trailing zeros.
pub open spec fn le_bytes(n: nat) -> Seq<u8>
    decreases n,
{
    if n == 0 {
        Seq::empty()
    } else {
        seq![(n % 256) as u8] + le_bytes(n / 256)
    }
}

/// Minimal script-number encoding of a non-negative integer.
pub open spec fn script_num(n: nat) -> Seq<u8> {
    let b = le_bytes(n);
    if b.len() > 0 && b.last() >= 0x80 {
        b.push(0)
    } else {
        b
    }
}

/// The script that pushes the number `n`.
pub open spec fn push_int(n: nat) -> Seq<u8> {
    if n == 0 {
        seq![OP_0]
    } else if n <= 16 {
        seq![(0x50 + n) as u8]
    } else {
        seq![script_num(n).len() as u8] + script_num(n)
    }
}

/// The script that pushes the bytes `d`.
pub open spec fn push_bytes(d: Seq<u8>) -> Seq<u8> {
    let n = d.len();
    if n <= 75 {
        seq![n as u8] + d
    } else if n <= 0xff {
        seq![OP_PUSHDATA1, n as u8] + d
    } else if n <= 0xffff {
        seq![OP_PUSHDATA2, (n % 256) as u8, (n / 256) as u8] + d
    } else {
        seq![OP_PUSHDATA4, (n % 256) as u8, (n / 256 % 256) as u8, (n / 65536 % 256) as u8, (n / 16777216 % 256) as u8] + d
    }
}

/// The part of the redeem script that checks the signature of member `i` and
/// adds its voting power to the tally.
pub open spec fn signatory_clause(s: Seq<(Seq<u8>, u64)>, i: int) -> Seq<u8> {
    if i == 0 {
        push_bytes(s[0].0) + seq![OP_CHECKSIG, OP_IF] + push_int(s[0].1 as nat) + seq![OP_ELSE, OP_0, OP_ENDIF]
    } else {
        seq![OP_SWAP] + push_bytes(s[i].0) + seq![OP_CHECKSIG, OP_IF] + push_int(s[i].1 as nat) + seq![OP_ADD, OP_ENDIF]
    }
}

pub open spec fn signatory_clauses(s: Seq<(Seq<u8>, u64)>, n: int) -> Seq<u8>
    decreases n,
{
    if n <= 0 {
        Seq::empty()
    } else {
        signatory_clauses(s, n - 1) + signatory_clause(s, n - 1)
    }
}

/// The witness script of a peg output: signatures whose power strictly
/// exceeds two thirds of the set's total spend it; `data` (the depositor's
/// address, or nothing) is committed in it.
pub open spec fn redeem_script_of(s: Seq<(Seq<u8>, u64)>, data: Seq<u8>) -> Seq<u8> {
    signatory_clauses(s, s.len() as int) + push_int(two_thirds_of(total_power(s))) + seq![OP_GREATERTHAN] + (if data.len() > 0 {
        push_bytes(data) + seq![OP_DROP]
    } else {
        Seq::empty()
    })
}

/// The output script that deposits for `data` pay to: version-0 witness
/// program holding the SHA-256 of the redeem script.
pub open spec fn output_script_of(s: Seq<(Seq<u8>, u64)>, data: Seq<u8>) -> Seq<u8> {
    seq![OP_0, 0x20u8] + sha256_of(redeem_script_of(s, data))
}

fn append_push_bytes(out: &mut Vec<u8>, d: &[u8])
    ensures
        final(out)@ == old(out)@ + push_bytes(d@),
{
    let ghost o = out@;
    let n = d.len();
    if n <= 75 {
        out.push(n as u8);
    } else if n <= 0xff {
        out.push(OP_PUSHDATA1);
        out.push(n as u8);
    } else if n <= 0xffff {
        out.push(OP_PUSHDATA2);
        out.push((n % 256) as u8);
        out.push((n / 256) as u8);
    } else {
        out.push(OP_PUSHDATA4);
        out.push((n % 256) as u8);
        out.push((n / 256 % 256) as u8);
        out.push((n / 65536 % 256) as u8);
        out.push((n / 16777216 % 256) as u8);
    }
    let ghost mid = out@;
    append_bytes(out, d);
    assert(out@ =~= o + push_bytes(d@));
}

fn script_number(n: u128) -> (r: Vec<u8>)
    ensures
        r@ == script_num(n as nat),
{
    let mut r: Vec<u8> = Vec::new();
    let mut m: u128 = n;
    while m > 0
        invariant
            r@ + le_bytes(m as nat) == le_bytes(n as nat),
        decreases m,
    {
        assert(r@ + le_bytes(m as nat) =~= r@.push((m % 256) as u8) + le_bytes((m / 256) as nat));
        r.push((m % 256) as u8);
        m = m / 256;
    }
    assert(r@ =~= le_bytes(n as nat));
    if r.len() > 0 && r[r.len() - 1] >= 0x80 {
        r.push(0);
    }
    r
}

fn append_push_int(out: &mut Vec<u8>, n: u128)
    ensures
        final(out)@ == old(out)@ + push_int(n as nat),
{
    let ghost o = out@;
    if n == 0 {
        out.push(OP_0);
    } else if n <= 16 {
        out.push((0x50 + n) as u8);
    } else {
        let b = script_number(n);
        out.push(b.len() as u8);
        append_bytes(out, b.as_slice());
    }
    assert(out@ =~= o + push_int(n as nat));
}

/// The witness script of an output held by `signatories` for `data`.
pub fn redeem_script(signatories: &SignatorySet, data: &[u8]) -> (r: Vec<u8>)
    ensures
        r@ == redeem_script_of(signatories@, data@),
{
    let ghost v = signatories@;
    let mut out: Vec<u8> = Vec::new();
    let mut i: usize = 0;
    while i < signatories.signatories.len()
        invariant
            v == signatories@,
            v.len() == signatories.signatories@.len(),
            i <= v.len(),
            out@ == signatory_clauses(v, i as int),
        decreases v.len() - i,
    {
        assert(v[i as int] == signatories.signatories@[i as int]@);
        assert(i == 0 ==> v[0] == signatories.signatories@[0]@);
        let ghost o = out@;
        if i == 0 {
            append_push_bytes(&mut out, signatories.signatories[0].pubkey.as_slice());
            out.push(OP_CHECKSIG);
            out.push(OP_IF);
            append_push_int(&mut out, signatories.signatories[0].voting_power as u128);
            out.push(OP_ELSE);
            out.push(OP_0);
            out.push(OP_ENDIF);
        } else {
            out.push(OP_SWAP);
            append_push_bytes(&mut out, signatories.signatories[i].pubkey.as_slice());
            out.push(OP_CHECKSIG);
            out.push(OP_IF);
            append_push_int(&mut out, signatories.signatories[i].voting_power as u128);
            out.push(OP_ADD);
            out.push(OP_ENDIF);
        }
        assert(out@ =~= o + signatory_clause(v, i as int));
        i = i + 1;
    }
    let ghost o = out@;
    let threshold = signatories.two_thirds_voting_power();
    append_push_int(&mut out, threshold);
    out.push(OP_GREATERTHAN);
    if data.len() > 0 {
        append_push_bytes(&mut out, data);
        out.push(OP_DROP);
    }
    assert(out@ =~= redeem_script_of(v, data@));
    out
}

/// The output script that deposits to `signatories` for `data` pay to.
pub fn output_script(signatories: &SignatorySet, data: &[u8]) -> (r: Vec<u8>)
    ensures
        r@ == output_script_of(signatories@, data@),
{
    let redeem = redeem_script(signatories, data);
    p2wsh(&redeem)
}

} // verus!
