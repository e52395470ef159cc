//! The SPV view of the Bitcoin chain: a run of linked headers at consecutive
//! heights, from a pinned checkpoint header to the tip.
use vstd::prelude::*;
use crate::btc::{decode_header, decoded_header, pow_limit_bytes, proof_of_work_limit};
use crate::bytes::{byte_strings, bytes_eq, bytes_less, bytes_lt, copy_bytes};
use crate::error::Error;

verus! {

/// A stored header: its height, its hash, its merkle root and its encoding.
#[derive(Debug, Clone)]
pub struct HeaderEntry {
    pub height: u64,
    pub hash: Vec<u8>,
    pub merkle_root: Vec<u8>,
    pub header: Vec<u8>,
}

impl View for HeaderEntry {
    type V = (u64, Seq<u8>, Seq<u8>, Seq<u8>);

    open spec fn view(&self) -> (u64, Seq<u8>, Seq<u8>, Seq<u8>) {
        (self.height, self.hash@, self.merkle_root@, self.header@)
    }
}

/// The chain after appending the header `raw`, or `None` where it is
/// undecodable, fails its proof of work, declares a target above the
/// proof-of-work limit, or does not extend the tip.
pub open spec fn extend_one(s: Seq<(u64, Seq<u8>, Seq<u8>, Seq<u8>)>, raw: Seq<u8>) -> Option<Seq<(u64, Seq<u8>, Seq<u8>, Seq<u8>)>> {
    match decoded_header(raw) {
        Some(h) => {
            if s.len() > 0 && h.3 && !bytes_lt(pow_limit_bytes(), h.4) && h.1 == s.last().1 && s.last().0 < u64::MAX {
                Some(s.push(((s.last().0 + 1) as u64, h.0, h.2, raw)))
            } else {
                None
            }
        },
        None => None,
    }
}

/// The chain after appending each of `raws` in order; `None` where any is rejected.
pub open spec fn extend_all(s: Seq<(u64, Seq<u8>, Seq<u8>, Seq<u8>)>, raws: Seq<Seq<u8>>) -> Option<Seq<(u64, Seq<u8>, Seq<u8>, Seq<u8>)>>
    decreases raws.len(),
{
    if raws.len() == 0 {
        Some(s)
    } else {
        match extend_all(s, raws.drop_last()) {
            Some(t) => extend_one(t, raws.last()),
            None => None,
        }
    }
}

/// The encoded header stored for `height`.
pub open spec fn header_at(s: Seq<(u64, Seq<u8>, Seq<u8>, Seq<u8>)>, height: u64) -> Option<Seq<u8>> {
    if exists|i: int| 0 <= i < s.len() && #[trigger] s[i].0 == height {
        Some(s[choose|i: int| 0 <= i < s.len() && #[trigger] s[i].0 == height].3)
    } else {
        None
    }
}

/// The merkle root stored for `height`.
pub open spec fn root_at(s: Seq<(u64, Seq<u8>, Seq<u8>, Seq<u8>)>, height: u64) -> Option<Seq<u8>> {
    if exists|i: int| 0 <= i < s.len() && #[trigger] s[i].0 == height {
        Some(s[choose|i: int| 0 <= i < s.len() && #[trigger] s[i].0 == height].2)
    } else {
        None
    }
}

#[derive(Debug, Clone)]
pub struct HeaderStore {
    pub entries: Vec<HeaderEntry>,
}

impl View for HeaderStore {
    type V = Seq<(u64, Seq<u8>, Seq<u8>, Seq<u8>)>;

    open spec fn view(&self) -> Seq<(u64, Seq<u8>, Seq<u8>, Seq<u8>)> {
        self.entries@.map_values(|e: HeaderEntry| e@)
    }
}

impl HeaderStore {
    /// Heights are consecutive.
    pub open spec fn wf(&self) -> bool {
        consecutive(self@)
    }

    pub fn new() -> (r: HeaderStore)
        ensures
            r.wf(),
            r@ == Seq::<(u64, Seq<u8>, Seq<u8>, Seq<u8>)>::empty(),
    {
        let r = HeaderStore { entries: Vec::new() };
        assert(r@ =~= Seq::<(u64, Seq<u8>, Seq<u8>, Seq<u8>)>::empty());
        r
    }

    /// Makes the header `raw` the root of the chain at `height`, dropping
    /// whatever was stored; fails where the bytes are no header.
    pub fn add_header_raw(&mut self, raw: &[u8], height: u64) -> (r: Result<(), Error>)
        ensures
            match decoded_header(raw@) {
                Some(h) => r is Ok && final(self)@ == seq![(height, h.0, h.2, raw@)] && header_at(final(self)@, height) == Some(raw@),
                None => r == Err::<(), Error>(Error::BadHeader) && final(self)@ == old(self)@,
            },
            old(self).wf() ==> final(self).wf(),
    {
        match decode_header(raw) {
            Some(h) => {
                let ghost hv = h@;
                self.entries = vec![HeaderEntry { height, hash: h.hash, merkle_root: h.merkle_root, header: copy_bytes(raw) }];
                assert(self@ =~= seq![(height, hv.0, hv.2, raw@)]);
                assert(self@[0].0 == height);
                Ok(())
            },
            None => Err(Error::BadHeader),
        }
    }

    /// Appends the header `raw` to the tip.
    pub fn add_header(&mut self, raw: &[u8]) -> (r: Result<(), Error>)
        requires
            old(self).wf(),
        ensures
            final(self).wf(),
            match extend_one(old(self)@, raw@) {
                Some(t) => r is Ok && final(self)@ == t,
                None => r == Err::<(), Error>(Error::BadHeader) && final(self)@ == old(self)@,
            },
    {
        let h = match decode_header(raw) {
            Some(h) => h,
            None => return Err(Error::BadHeader),
        };
        let n = self.entries.len();
        let limit = proof_of_work_limit();
        if n == 0 || !h.pow_ok || bytes_less(limit.as_slice(), h.target.as_slice()) {
            return Err(Error::BadHeader);
        }
        assert(self@[n - 1] == self.entries@[n - 1]@);
        if !bytes_eq(h.prev_hash.as_slice(), self.entries[n - 1].hash.as_slice()) || self.entries[n - 1].height == u64::MAX {
            return Err(Error::BadHeader);
        }
        let height = self.entries[n - 1].height + 1;
        let ghost s0 = self@;
        self.entries.push(HeaderEntry { height, hash: h.hash, merkle_root: h.merkle_root, header: copy_bytes(raw) });
        assert(self@ =~= s0.push((height, h.hash@, h.merkle_root@, raw@)));
        proof {
            assert forall|i: int| 0 <= i < self@.len() implies #[trigger] self@[i].0 == self@[0].0 + i by {
                if i < n {
                    assert(self@[i] == s0[i]);
                }
                if n > 0 {
                    assert(self@[0] == s0[0]);
                    assert(s0[n - 1].0 == s0[0].0 + (n - 1));
                }
            }
        }
        Ok(())
    }

    /// Appends the headers in order; where one is rejected, none is kept.
    pub fn add_headers(&mut self, raws: &Vec<Vec<u8>>) -> (r: Result<(), Error>)
        requires
            old(self).wf(),
        ensures
            final(self).wf(),
            match extend_all(old(self)@, byte_strings(raws@)) {
                Some(t) => r is Ok && final(self)@ == t,
                None => r == Err::<(), Error>(Error::BadHeader) && final(self)@ == old(self)@,
            },
    {
        let ghost s0 = self@;
        let ghost rs = byte_strings(raws@);
        let n0 = self.entries.len();
        let mut i: usize = 0;
        while i < raws.len()
            invariant
                self.wf(),
                i <= raws@.len(),
                rs == byte_strings(raws@),
                extend_all(s0, rs.take(i as int)) == Some(self@),
                n0 == s0.len(),
                s0 == old(self)@,
                n0 <= self@.len(),
                self@.take(n0 as int) == s0,
            decreases raws@.len() - i,
        {
            assert(rs.take(i as int + 1).drop_last() =~= rs.take(i as int));
            assert(rs.take(i as int + 1).last() == raws@[i as int]@);
            let ghost before = self@;
            match self.add_header(raws[i].as_slice()) {
                Ok(()) => {
                    assert(self@.take(n0 as int) =~= before.take(n0 as int));
                    assert(extend_all(s0, rs.take(i as int + 1)) == Some(self@));
                },
                Err(_) => {
                    assert(extend_one(before, raws@[i as int]@) is None);
                    assert(extend_all(s0, rs.take(i as int + 1)) is None);
                    proof {
                        lemma_extend_all_none(s0, rs, i as int + 1);
                    }
                    self.entries.truncate(n0);
                    assert(self@ =~= s0);
                    assert(extend_all(s0, rs) is None);
                    assert(extend_all(s0, byte_strings(raws@)) is None);
                    return Err(Error::BadHeader);
                },
            }
            i = i + 1;
        }
        assert(rs.take(i as int) =~= rs);
        Ok(())
    }

    /// The merkle root of the header at `height`, if one is stored.
    pub fn merkle_root_at(&self, height: u64) -> (r: Option<&Vec<u8>>)
        requires
            self.wf(),
        ensures
            match r {
                Some(v) => root_at(self@, height) == Some(v@),
                None => root_at(self@, height) is None,
            },
    {
        let n = self.entries.len();
        if n == 0 {
            return None;
        }
        assert(self@[0] == self.entries@[0]@);
        let base = self.entries[0].height;
        if height < base || height - base >= n as u64 {
            proof {
                assert forall|i: int| 0 <= i < self@.len() implies #[trigger] self@[i].0 != height by {}
            }
            return None;
        }
        let i = (height - base) as usize;
        assert(self@[i as int] == self.entries@[i as int]@);
        proof {
            assert(self@[i as int].0 == height);
            let j = choose|j: int| 0 <= j < self@.len() && #[trigger] self@[j].0 == height;
            assert(j == i);
        }
        Some(&self.entries[i].merkle_root)
    }

    /// The encoded header stored at `height`, if any.
    pub fn header_at_height(&self, height: u64) -> (r: Option<&Vec<u8>>)
        requires
            self.wf(),
        ensures
            match r {
                Some(v) => header_at(self@, height) == Some(v@),
                None => header_at(self@, height) is None,
            },
    {
        let n = self.entries.len();
        if n == 0 {
            return None;
        }
        assert(self@[0] == self.entries@[0]@);
        let base = self.entries[0].height;
        if height < base || height - base >= n as u64 {
            proof {
                assert forall|i: int| 0 <= i < self@.len() implies #[trigger] self@[i].0 != height by {}
            }
            return None;
        }
        let i = (height - base) as usize;
        assert(self@[i as int] == self.entries@[i as int]@);
        proof {
            assert(self@[i as int].0 == height);
            let j = choose|j: int| 0 <= j < self@.len() && #[trigger] self@[j].0 == height;
            assert(j == i);
        }
        Some(&self.entries[i].header)
    }
}

proof fn lemma_extend_all_none(s: Seq<(u64, Seq<u8>, Seq<u8>, Seq<u8>)>, rs: Seq<Seq<u8>>, k: int)
    requires
        0 <= k <= rs.len(),
        extend_all(s, rs.take(k)) is None,
    ensures
        extend_all(s, rs) is None,
    decreases rs.len() - k,
{
    if k < rs.len() {
        assert(rs.take(k + 1).drop_last() =~= rs.take(k));
        lemma_extend_all_none(s, rs, k + 1);
    } else {
        assert(rs.take(k) =~= rs);
    }
}

/// Heights are consecutive.
pub open spec fn consecutive(s: Seq<(u64, Seq<u8>, Seq<u8>, Seq<u8>)>) -> bool {
    forall|i: int| 0 <= i < s.len() ==> #[trigger] s[i].0 == s[0].0 + i
}

proof fn lemma_header_at_index(t: Seq<(u64, Seq<u8>, Seq<u8>, Seq<u8>)>, j: int)
    requires
        consecutive(t),
        0 <= j < t.len(),
    ensures
        header_at(t, t[j].0) == Some(t[j].3),
{
    let j2 = choose|i: int| 0 <= i < t.len() && #[trigger] t[i].0 == t[j].0;
    assert(t[j2].0 == t[0].0 + j2);
}

proof fn lemma_extend_all_shape(s: Seq<(u64, Seq<u8>, Seq<u8>, Seq<u8>)>, raws: Seq<Seq<u8>>, t: Seq<(u64, Seq<u8>, Seq<u8>, Seq<u8>)>)
    requires
        consecutive(s),
        s.len() > 0,
        extend_all(s, raws) == Some(t),
    ensures
        consecutive(t),
        t.len() == s.len() + raws.len(),
        t[0] == s[0],
        forall|k: int| 0 <= k < raws.len() ==> #[trigger] t[s.len() + k].3 == raws[k],
    decreases raws.len(),
{
    if raws.len() == 0 {
    } else {
        let t1 = extend_all(s, raws.drop_last())->0;
        lemma_extend_all_shape(s, raws.drop_last(), t1);
        let h = decoded_header(raws.last())->0;
        assert(t == t1.push(((t1.last().0 + 1) as u64, h.0, h.2, raws.last())));
        assert(t1.last().0 == t1[0].0 + (t1.len() - 1));
        assert forall|i: int| 0 <= i < t.len() implies #[trigger] t[i].0 == t[0].0 + i by {
            if i < t1.len() {
                assert(t[i] == t1[i]);
            }
        }
        assert forall|k: int| 0 <= k < raws.len() implies #[trigger] t[s.len() + k].3 == raws[k] by {
            if k < raws.len() - 1 {
                assert(t[s.len() + k] == t1[s.len() + k]);
                assert(raws.drop_last()[k] == raws[k]);
            }
        }
    }
}

/// After headers are appended, each can be read back at its height: the
/// `k`-th at one more than `k` past the old tip.
pub proof fn lemma_appended_headers_readable(s: Seq<(u64, Seq<u8>, Seq<u8>, Seq<u8>)>, raws: Seq<Seq<u8>>, t: Seq<(u64, Seq<u8>, Seq<u8>, Seq<u8>)>)
    requires
        consecutive(s),
        s.len() > 0,
        extend_all(s, raws) == Some(t),
    ensures
        forall|k: int| 0 <= k < raws.len() ==> #[trigger] header_at(t, (s.last().0 + k + 1) as u64) == Some(raws[k]),
        t.len() > 0 && t.last().3 == (if raws.len() > 0 { raws.last() } else { s.last().3 }),
{
    lemma_extend_all_shape(s, raws, t);
    assert forall|k: int| 0 <= k < raws.len() implies #[trigger] header_at(t, (s.last().0 + k + 1) as u64) == Some(raws[k]) by {
        let j = s.len() + k;
        assert(t[j].0 == t[0].0 + j);
        assert(s.last().0 == s[0].0 + (s.len() - 1));
        lemma_header_at_index(t, j);
    }
    if raws.len() == 0 {
        assert(t == s);
    } else {
        assert(t[s.len() + raws.len() - 1].3 == raws[raws.len() - 1]);
    }
}

} // verus!
