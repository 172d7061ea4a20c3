//! The records that participants exchange: the dealer's distribution box and
//! each recipient's decrypted share with its proof.

use vstd::prelude::*;

use crate::bignum::{big_eq, dup_all, nums, BigNum};

verus! {

/// The keys of an association list, as values.
pub open spec fn key_values<V>(e: Seq<(BigNum, V)>) -> Seq<int> {
    e.map_values(|p: (BigNum, V)| p.0.value())
}

/// The index of the last entry whose key is `k`: a later entry for a key
/// replaces an earlier one.
pub open spec fn last_index(keys: Seq<int>, k: int) -> Option<int>
    decreases keys.len(),
{
    if keys.len() == 0 {
        None
    } else if keys.last() == k {
        Some(keys.len() - 1)
    } else {
        last_index(keys.drop_last(), k)
    }
}

/// The index of the entry that holds `key`, the last one if several do.
pub fn find_key<V>(entries: &Vec<(BigNum, V)>, key: &BigNum) -> (r: Option<usize>)
    ensures
        r matches Some(i) ==> last_index(key_values(entries@), key.value()) == Some(i as int)
            && i < entries@.len(),
        r is None ==> last_index(key_values(entries@), key.value()) is None,
{
    let mut k: usize = entries.len();
    assert(key_values(entries@).subrange(0, k as int) =~= key_values(entries@));
    while k > 0
        invariant
            k <= entries@.len(),
            last_index(key_values(entries@), key.value()) == last_index(
                key_values(entries@).subrange(0, k as int),
                key.value(),
            ),
        decreases k,
    {
        let ghost ks = key_values(entries@).subrange(0, k as int);
        assert(ks.drop_last() =~= key_values(entries@).subrange(0, k - 1));
        if big_eq(&entries[k - 1].0, key) {
            return Some(k - 1);
        }
        k -= 1;
    }
    assert(key_values(entries@).subrange(0, 0) =~= Seq::<int>::empty());
    None
}

/// A recipient's decrypted share `S = G^s` with the proof that it was
/// decrypted honestly.
#[derive(Debug, Clone)]
pub struct ShareBox {
    pub publickey: BigNum,
    pub share: BigNum,
    pub challenge: BigNum,
    pub response: BigNum,
}

impl ShareBox {
    /// A box with every number zero.
    pub fn new() -> (r: ShareBox)
        ensures
            r.publickey.value() == 0 && r.share.value() == 0,
            r.challenge.value() == 0 && r.response.value() == 0,
    {
        ShareBox {
            publickey: BigNum::zero(),
            share: BigNum::zero(),
            challenge: BigNum::zero(),
            response: BigNum::zero(),
        }
    }

    pub fn init(&mut self, publickey: BigNum, share: BigNum, challenge: BigNum, response: BigNum)
        ensures
            final(self).publickey == publickey && final(self).share == share,
            final(self).challenge == challenge && final(self).response == response,
    {
        self.publickey = publickey;
        self.share = share;
        self.challenge = challenge;
        self.response = response;
    }
}

/// What the dealer publishes: commitments to the polynomial, each
/// recipient's position, encrypted share and proof response, the shared
/// challenge and the masked secret. The three per-recipient lists are
/// association lists keyed by public key.
#[derive(Debug, Clone)]
pub struct DistributionShareBox {
    pub commitments: Vec<BigNum>,
    pub positions: Vec<(BigNum, i64)>,
    pub shares: Vec<(BigNum, BigNum)>,
    pub publickeys: Vec<BigNum>,
    pub challenge: BigNum,
    pub responses: Vec<(BigNum, BigNum)>,
    pub u: BigNum,
}

impl DistributionShareBox {
    /// The box's shape: positions, encrypted shares and responses are keyed
    /// by exactly the listed public keys, in their order, and there are at
    /// least as many keys as commitments, of which there is at least one.
    pub open spec fn wf(&self) -> bool {
        &&& key_values(self.positions@) == nums(self.publickeys@)
        &&& key_values(self.shares@) == nums(self.publickeys@)
        &&& key_values(self.responses@) == nums(self.publickeys@)
        &&& 1 <= self.commitments@.len() <= self.publickeys@.len()
    }

    /// The position recorded for key `k`.
    pub open spec fn position_at(&self, k: int) -> Option<int> {
        match last_index(key_values(self.positions@), k) {
            Some(i) => Some(self.positions@[i].1 as int),
            None => None,
        }
    }

    /// The encrypted share recorded for key `k`.
    pub open spec fn share_at(&self, k: int) -> Option<int> {
        match last_index(key_values(self.shares@), k) {
            Some(i) => Some(self.shares@[i].1.value()),
            None => None,
        }
    }

    /// The response recorded for key `k`.
    pub open spec fn response_at(&self, k: int) -> Option<int> {
        match last_index(key_values(self.responses@), k) {
            Some(i) => Some(self.responses@[i].1.value()),
            None => None,
        }
    }

    /// An empty box.
    pub fn new() -> (r: DistributionShareBox)
        ensures
            r.commitments@.len() == 0 && r.positions@.len() == 0 && r.shares@.len() == 0,
            r.publickeys@.len() == 0 && r.responses@.len() == 0,
            r.challenge.value() == 0 && r.u.value() == 0,
    {
        DistributionShareBox {
            commitments: Vec::new(),
            positions: Vec::new(),
            shares: Vec::new(),
            publickeys: Vec::new(),
            challenge: BigNum::zero(),
            responses: Vec::new(),
            u: BigNum::zero(),
        }
    }

    pub fn init(
        &mut self,
        commitments: &[BigNum],
        positions: Vec<(BigNum, i64)>,
        shares: Vec<(BigNum, BigNum)>,
        publickeys: &[BigNum],
        challenge: &BigNum,
        responses: Vec<(BigNum, BigNum)>,
        u: &BigNum,
    )
        ensures
            nums(final(self).commitments@) == nums(commitments@),
            final(self).positions == positions,
            final(self).shares == shares,
            nums(final(self).publickeys@) == nums(publickeys@),
            final(self).challenge.value() == challenge.value(),
            final(self).responses == responses,
            final(self).u.value() == u.value(),
    {
        self.commitments = dup_all(commitments);
        self.positions = positions;
        self.shares = shares;
        self.publickeys = dup_all(publickeys);
        self.challenge = challenge.dup();
        self.responses = responses;
        self.u = u.dup();
    }

    /// The position recorded for `publickey`.
    pub fn position_of(&self, publickey: &BigNum) -> (r: Option<i64>)
        ensures
            r matches Some(p) ==> self.position_at(publickey.value()) == Some(p as int),
            r is None ==> self.position_at(publickey.value()) is None,
    {
        match find_key(&self.positions, publickey) {
            Some(i) => Some(self.positions[i].1),
            None => None,
        }
    }

    /// The encrypted share recorded for `publickey`.
    pub fn share_of(&self, publickey: &BigNum) -> (r: Option<BigNum>)
        ensures
            r matches Some(s) ==> self.share_at(publickey.value()) == Some(s.value()),
            r is None ==> self.share_at(publickey.value()) is None,
    {
        match find_key(&self.shares, publickey) {
            Some(i) => Some(self.shares[i].1.dup()),
            None => None,
        }
    }

    /// The proof response recorded for `publickey`.
    pub fn response_of(&self, publickey: &BigNum) -> (r: Option<BigNum>)
        ensures
            r matches Some(s) ==> self.response_at(publickey.value()) == Some(s.value()),
            r is None ==> self.response_at(publickey.value()) is None,
    {
        match find_key(&self.responses, publickey) {
            Some(i) => Some(self.responses[i].1.dup()),
            None => None,
        }
    }
}

} // verus!
