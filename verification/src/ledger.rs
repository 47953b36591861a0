//! The stores the protocol mutates: the per-token origin ledger, the
//! local fungible units, and the connected-contract mapping.
//!
//! Each store is a vector of entries with pairwise-distinct keys and is
//! read in contracts as a map from key to entry. The host is expected
//! to give each operation exclusive access to the stores it touches.

use vstd::prelude::*;

use crate::universal_nft_core::ConnectedContract;
use crate::words::{bytes20_eq, bytes32_eq, vec_eq_addr20};
use crate::{ErrorCode, NFTOrigin};

verus! {

// --- the origin ledger ---

spec fn origins_map(s: Seq<NFTOrigin>) -> Map<u64, NFTOrigin>
    decreases s.len(),
{
    if s.len() == 0 {
        Map::empty()
    } else {
        origins_map(s.drop_last()).insert(s.last().token_id, s.last())
    }
}

spec fn distinct_origin_keys(s: Seq<NFTOrigin>) -> bool {
    forall|i: int, j: int| 0 <= i < j < s.len() ==> s[i].token_id != s[j].token_id
}

proof fn lemma_origins_map_contains(s: Seq<NFTOrigin>, k: u64)
    ensures
        origins_map(s).contains_key(k) <==> exists|i: int|
            0 <= i < s.len() && s[i].token_id == k,
    decreases s.len(),
{
    if s.len() > 0 {
        let s0 = s.drop_last();
        lemma_origins_map_contains(s0, k);
        if origins_map(s).contains_key(k) {
            if k == s.last().token_id {
                assert(s[s.len() - 1].token_id == k);
            } else {
                let i = choose|i: int| 0 <= i < s0.len() && s0[i].token_id == k;
                assert(s[i].token_id == k);
            }
        }
        if exists|i: int| 0 <= i < s.len() && s[i].token_id == k {
            let i = choose|i: int| 0 <= i < s.len() && s[i].token_id == k;
            if i < s.len() - 1 {
                assert(s0[i].token_id == k);
            }
        }
    }
}

proof fn lemma_origins_map_index(s: Seq<NFTOrigin>, i: int)
    requires
        distinct_origin_keys(s),
        0 <= i < s.len(),
    ensures
        origins_map(s).contains_key(s[i].token_id),
        origins_map(s)[s[i].token_id] == s[i],
    decreases s.len(),
{
    if i < s.len() - 1 {
        let s0 = s.drop_last();
        assert(distinct_origin_keys(s0));
        lemma_origins_map_index(s0, i);
        assert(s.last().token_id != s[i].token_id);
    }
}

proof fn lemma_origins_map_update(s: Seq<NFTOrigin>, i: int, r: NFTOrigin)
    requires
        distinct_origin_keys(s),
        0 <= i < s.len(),
        r.token_id == s[i].token_id,
    ensures
        origins_map(s.update(i, r)) == origins_map(s).insert(r.token_id, r),
    decreases s.len(),
{
    let k = r.token_id;
    let s0 = s.drop_last();
    if i == s.len() - 1 {
        assert(s.update(i, r).drop_last() =~= s0);
        assert(s.update(i, r).last() == r);
        assert(origins_map(s0).insert(k, r) =~= origins_map(s0).insert(k, s.last()).insert(k, r));
    } else {
        assert(distinct_origin_keys(s0));
        lemma_origins_map_update(s0, i, r);
        assert(s.update(i, r).drop_last() =~= s0.update(i, r));
        assert(s.update(i, r).last() == s.last());
        assert(s.last().token_id != k);
        assert(origins_map(s0).insert(k, r).insert(s.last().token_id, s.last()) =~= origins_map(
            s0,
        ).insert(s.last().token_id, s.last()).insert(k, r));
    }
}

/// The per-token origin ledger: at most one record per token id.
pub struct OriginLedger {
    entries: Vec<NFTOrigin>,
}

impl View for OriginLedger {
    type V = Map<u64, NFTOrigin>;

    closed spec fn view(&self) -> Map<u64, NFTOrigin> {
        origins_map(self.entries@)
    }
}

impl OriginLedger {
    /// Token ids are pairwise distinct.
    pub closed spec fn wf(&self) -> bool {
        distinct_origin_keys(self.entries@)
    }

    pub fn new() -> (r: OriginLedger)
        ensures
            r@ == Map::<u64, NFTOrigin>::empty(),
            r.wf(),
    {
        OriginLedger { entries: Vec::new() }
    }

    fn find(&self, token_id: u64) -> (r: Option<usize>)
        ensures
            (match r {
                Some(i) => i < self.entries@.len() && self.entries@[i as int].token_id == token_id,
                None => forall|i: int|
                    0 <= i < self.entries@.len() ==> self.entries@[i].token_id != token_id,
            }),
    {
        let mut i: usize = 0;
        while i < self.entries.len()
            invariant
                i <= self.entries@.len(),
                forall|j: int| 0 <= j < i ==> self.entries@[j].token_id != token_id,
            decreases self.entries@.len() - i,
        {
            if self.entries[i].token_id == token_id {
                return Some(i);
            }
            i = i + 1;
        }
        None
    }

    /// The record of a token, or None if the token has none.
    pub fn get(&self, token_id: u64) -> (r: Option<&NFTOrigin>)
        requires
            self.wf(),
        ensures
            (match r {
                Some(rec) => self@.contains_key(token_id) && *rec == self@[token_id],
                None => !self@.contains_key(token_id),
            }),
    {
        proof {
            lemma_origins_map_contains(self.entries@, token_id);
        }
        match self.find(token_id) {
            Some(i) => {
                proof {
                    lemma_origins_map_index(self.entries@, i as int);
                }
                Some(&self.entries[i])
            },
            None => None,
        }
    }

    /// Creates the record of a fresh token id; fails if the id already
    /// has one, leaving the ledger unchanged.
    pub fn create(&mut self, record: NFTOrigin) -> (r: Result<(), ErrorCode>)
        requires
            old(self).wf(),
        ensures
            final(self).wf(),
            old(self)@.contains_key(record.token_id) ==> r == Err::<(), ErrorCode>(
                ErrorCode::TokenIdAlreadyExists,
            ) && final(self)@ == old(self)@,
            !old(self)@.contains_key(record.token_id) ==> r == Ok::<(), ErrorCode>(())
                && final(self)@ == old(self)@.insert(record.token_id, record),
    {
        proof {
            lemma_origins_map_contains(self.entries@, record.token_id);
        }
        match self.find(record.token_id) {
            Some(_) => Err(ErrorCode::TokenIdAlreadyExists),
            None => {
                self.entries.push(record);
                proof {
                    assert(self.entries@.drop_last() =~= old(self).entries@);
                }
                Ok(())
            },
        }
    }

    /// Writes the record a receive operation materializes. A fresh token
    /// id gets the full record; an existing record keeps its provenance
    /// (`origin_chain`, `origin_token_id`, `created_at`) and only its
    /// URI and mint are rewritten.
    pub fn upsert_from_receive(
        &mut self,
        token_id: u64,
        metadata_uri: String,
        mint: [u8; 32],
        origin_chain: u64,
        origin_token_id: u64,
        created_at: i64,
    )
        requires
            old(self).wf(),
        ensures
            final(self).wf(),
            final(self)@.contains_key(token_id),
            final(self)@[token_id].token_id == token_id,
            final(self)@[token_id].metadata_uri == metadata_uri,
            final(self)@[token_id].mint == mint,
            old(self)@.contains_key(token_id) ==> final(self)@[token_id].origin_chain
                == old(self)@[token_id].origin_chain
                && final(self)@[token_id].origin_token_id == old(self)@[token_id].origin_token_id
                && final(self)@[token_id].created_at == old(self)@[token_id].created_at,
            !old(self)@.contains_key(token_id) ==> final(self)@[token_id].origin_chain
                == origin_chain && final(self)@[token_id].origin_token_id == origin_token_id
                && final(self)@[token_id].created_at == created_at,
            final(self)@.remove(token_id) == old(self)@.remove(token_id),
    {
        proof {
            lemma_origins_map_contains(self.entries@, token_id);
        }
        match self.find(token_id) {
            Some(i) => {
                proof {
                    lemma_origins_map_index(self.entries@, i as int);
                }
                let rec = NFTOrigin {
                    token_id,
                    origin_chain: self.entries[i].origin_chain,
                    origin_token_id: self.entries[i].origin_token_id,
                    metadata_uri,
                    mint,
                    created_at: self.entries[i].created_at,
                };
                proof {
                    lemma_origins_map_update(self.entries@, i as int, rec);
                }
                self.entries[i] = rec;
                proof {
                    assert(final(self)@.remove(token_id) =~= old(self)@.remove(token_id));
                }
            },
            None => {
                let rec = NFTOrigin {
                    token_id,
                    origin_chain,
                    origin_token_id,
                    metadata_uri,
                    mint,
                    created_at,
                };
                self.entries.push(rec);
                proof {
                    assert(self.entries@.drop_last() =~= old(self).entries@);
                    assert(final(self)@.remove(token_id) =~= old(self)@.remove(token_id));
                }
            },
        }
    }

    /// Rewrites the URI of an existing record, leaving every other
    /// field as it was.
    pub fn set_metadata_uri(&mut self, token_id: u64, metadata_uri: String)
        requires
            old(self).wf(),
            old(self)@.contains_key(token_id),
        ensures
            final(self).wf(),
            final(self)@.contains_key(token_id),
            final(self)@[token_id].token_id == old(self)@[token_id].token_id,
            final(self)@[token_id].metadata_uri == metadata_uri,
            final(self)@[token_id].mint == old(self)@[token_id].mint,
            final(self)@[token_id].origin_chain == old(self)@[token_id].origin_chain,
            final(self)@[token_id].origin_token_id == old(self)@[token_id].origin_token_id,
            final(self)@[token_id].created_at == old(self)@[token_id].created_at,
            final(self)@.remove(token_id) == old(self)@.remove(token_id),
    {
        proof {
            lemma_origins_map_contains(self.entries@, token_id);
        }
        match self.find(token_id) {
            Some(i) => {
                proof {
                    lemma_origins_map_index(self.entries@, i as int);
                }
                let rec = NFTOrigin {
                    token_id: self.entries[i].token_id,
                    origin_chain: self.entries[i].origin_chain,
                    origin_token_id: self.entries[i].origin_token_id,
                    metadata_uri,
                    mint: self.entries[i].mint,
                    created_at: self.entries[i].created_at,
                };
                proof {
                    lemma_origins_map_update(self.entries@, i as int, rec);
                }
                self.entries[i] = rec;
                proof {
                    assert(final(self)@.remove(token_id) =~= old(self)@.remove(token_id));
                }
            },
            None => {
                proof {
                    assert(false);
                }
            },
        }
    }
}

// --- the local fungible units ---

/// One live local unit: the token it represents and who holds it.
#[derive(Clone, Copy)]
pub struct TokenUnit {
    pub token_id: u64,
    pub holder: [u8; 32],
}

spec fn units_map(s: Seq<TokenUnit>) -> Map<u64, Seq<u8>>
    decreases s.len(),
{
    if s.len() == 0 {
        Map::empty()
    } else {
        units_map(s.drop_last()).insert(s.last().token_id, s.last().holder@)
    }
}

spec fn distinct_unit_keys(s: Seq<TokenUnit>) -> bool {
    forall|i: int, j: int| 0 <= i < j < s.len() ==> s[i].token_id != s[j].token_id
}

proof fn lemma_units_map_contains(s: Seq<TokenUnit>, k: u64)
    ensures
        units_map(s).contains_key(k) <==> exists|i: int| 0 <= i < s.len() && s[i].token_id == k,
    decreases s.len(),
{
    if s.len() > 0 {
        let s0 = s.drop_last();
        lemma_units_map_contains(s0, k);
        if units_map(s).contains_key(k) {
            if k == s.last().token_id {
                assert(s[s.len() - 1].token_id == k);
            } else {
                let i = choose|i: int| 0 <= i < s0.len() && s0[i].token_id == k;
                assert(s[i].token_id == k);
            }
        }
        if exists|i: int| 0 <= i < s.len() && s[i].token_id == k {
            let i = choose|i: int| 0 <= i < s.len() && s[i].token_id == k;
            if i < s.len() - 1 {
                assert(s0[i].token_id == k);
            }
        }
    }
}

proof fn lemma_units_map_index(s: Seq<TokenUnit>, i: int)
    requires
        distinct_unit_keys(s),
        0 <= i < s.len(),
    ensures
        units_map(s).contains_key(s[i].token_id),
        units_map(s)[s[i].token_id] == s[i].holder@,
    decreases s.len(),
{
    if i < s.len() - 1 {
        let s0 = s.drop_last();
        assert(distinct_unit_keys(s0));
        lemma_units_map_index(s0, i);
        assert(s.last().token_id != s[i].token_id);
    }
}

proof fn lemma_units_map_update(s: Seq<TokenUnit>, i: int, u: TokenUnit)
    requires
        distinct_unit_keys(s),
        0 <= i < s.len(),
        u.token_id == s[i].token_id,
    ensures
        units_map(s.update(i, u)) == units_map(s).insert(u.token_id, u.holder@),
    decreases s.len(),
{
    let k = u.token_id;
    let s0 = s.drop_last();
    if i == s.len() - 1 {
        assert(s.update(i, u).drop_last() =~= s0);
        assert(s.update(i, u).last() == u);
        assert(units_map(s0).insert(k, u.holder@) =~= units_map(s0).insert(
            k,
            s.last().holder@,
        ).insert(k, u.holder@));
    } else {
        assert(distinct_unit_keys(s0));
        lemma_units_map_update(s0, i, u);
        assert(s.update(i, u).drop_last() =~= s0.update(i, u));
        assert(s.update(i, u).last() == s.last());
        assert(s.last().token_id != k);
        assert(units_map(s0).insert(k, u.holder@).insert(s.last().token_id, s.last().holder@)
            =~= units_map(s0).insert(s.last().token_id, s.last().holder@).insert(k, u.holder@));
    }
}

proof fn lemma_units_map_remove(s: Seq<TokenUnit>, i: int)
    requires
        distinct_unit_keys(s),
        0 <= i < s.len(),
    ensures
        units_map(s.remove(i)) == units_map(s).remove(s[i].token_id),
    decreases s.len(),
{
    let k = s[i].token_id;
    let s0 = s.drop_last();
    if i == s.len() - 1 {
        assert(s.remove(i) =~= s0);
        assert(forall|j: int| 0 <= j < s0.len() ==> s0[j].token_id != k);
        lemma_units_map_contains(s0, k);
        assert(units_map(s0) =~= units_map(s0).insert(k, s.last().holder@).remove(k));
    } else {
        assert(distinct_unit_keys(s0));
        lemma_units_map_remove(s0, i);
        assert(s.remove(i).drop_last() =~= s0.remove(i));
        assert(s.remove(i).last() == s.last());
        assert(s.last().token_id != k);
        assert(units_map(s0).remove(k).insert(s.last().token_id, s.last().holder@) =~= units_map(
            s0,
        ).insert(s.last().token_id, s.last().holder@).remove(k));
    }
}

/// The live local units, at most one per token id, read as a map from
/// token id to the 32-byte identity holding the unit.
#[derive(Clone)]
pub struct TokenUnits {
    entries: Vec<TokenUnit>,
}

impl View for TokenUnits {
    type V = Map<u64, Seq<u8>>;

    closed spec fn view(&self) -> Map<u64, Seq<u8>> {
        units_map(self.entries@)
    }
}

impl TokenUnits {
    /// Token ids are pairwise distinct.
    pub closed spec fn wf(&self) -> bool {
        distinct_unit_keys(self.entries@)
    }

    pub fn new() -> (r: TokenUnits)
        ensures
            r@ == Map::<u64, Seq<u8>>::empty(),
            r.wf(),
    {
        TokenUnits { entries: Vec::new() }
    }

    fn find(&self, token_id: u64) -> (r: Option<usize>)
        ensures
            (match r {
                Some(i) => i < self.entries@.len() && self.entries@[i as int].token_id == token_id,
                None => forall|i: int|
                    0 <= i < self.entries@.len() ==> self.entries@[i].token_id != token_id,
            }),
    {
        let mut i: usize = 0;
        while i < self.entries.len()
            invariant
                i <= self.entries@.len(),
                forall|j: int| 0 <= j < i ==> self.entries@[j].token_id != token_id,
            decreases self.entries@.len() - i,
        {
            if self.entries[i].token_id == token_id {
                return Some(i);
            }
            i = i + 1;
        }
        None
    }

    /// True if a live unit exists for the token.
    pub fn has_unit(&self, token_id: u64) -> (r: bool)
        requires
            self.wf(),
        ensures
            r == self@.contains_key(token_id),
    {
        proof {
            lemma_units_map_contains(self.entries@, token_id);
        }
        match self.find(token_id) {
            Some(i) => {
                proof {
                    lemma_units_map_index(self.entries@, i as int);
                }
                true
            },
            None => false,
        }
    }

    /// True if the token's unit exists and `who` holds it.
    pub fn holder_matches(&self, token_id: u64, who: &[u8; 32]) -> (r: bool)
        requires
            self.wf(),
        ensures
            r == (self@.contains_key(token_id) && self@[token_id] == who@),
    {
        proof {
            lemma_units_map_contains(self.entries@, token_id);
        }
        match self.find(token_id) {
            Some(i) => {
                proof {
                    lemma_units_map_index(self.entries@, i as int);
                }
                bytes32_eq(&self.entries[i].holder, who)
            },
            None => false,
        }
    }

    /// Mints the token's unit to `holder`; an existing unit changes
    /// hands.
    pub fn mint_unit(&mut self, token_id: u64, holder: [u8; 32])
        requires
            old(self).wf(),
        ensures
            final(self).wf(),
            final(self)@ == old(self)@.insert(token_id, holder@),
    {
        let unit = TokenUnit { token_id, holder };
        match self.find(token_id) {
            Some(i) => {
                proof {
                    lemma_units_map_update(self.entries@, i as int, unit);
                }
                self.entries[i] = unit;
            },
            None => {
                self.entries.push(unit);
                proof {
                    assert(self.entries@.drop_last() =~= old(self).entries@);
                }
            },
        }
    }

    /// Burns the token's unit.
    pub fn burn_unit(&mut self, token_id: u64)
        requires
            old(self).wf(),
            old(self)@.contains_key(token_id),
        ensures
            final(self).wf(),
            final(self)@ == old(self)@.remove(token_id),
    {
        proof {
            lemma_units_map_contains(self.entries@, token_id);
        }
        match self.find(token_id) {
            Some(i) => {
                proof {
                    lemma_units_map_remove(self.entries@, i as int);
                }
                let _ = self.entries.remove(i);
            },
            None => {
                proof {
                    assert(false);
                }
            },
        }
    }
}

// --- the connected-contract mapping ---

spec fn connected_map(s: Seq<ConnectedContract>) -> Map<Seq<u8>, Seq<u8>>
    decreases s.len(),
{
    if s.len() == 0 {
        Map::empty()
    } else {
        connected_map(s.drop_last()).insert(s.last().zrc20@, s.last().contract_address@)
    }
}

spec fn distinct_connected_keys(s: Seq<ConnectedContract>) -> bool {
    forall|i: int, j: int| 0 <= i < j < s.len() ==> s[i].zrc20@ != s[j].zrc20@
}

proof fn lemma_connected_map_contains(s: Seq<ConnectedContract>, k: Seq<u8>)
    ensures
        connected_map(s).contains_key(k) <==> exists|i: int| 0 <= i < s.len() && s[i].zrc20@ == k,
    decreases s.len(),
{
    if s.len() > 0 {
        let s0 = s.drop_last();
        lemma_connected_map_contains(s0, k);
        if connected_map(s).contains_key(k) {
            if k == s.last().zrc20@ {
                assert(s[s.len() - 1].zrc20@ == k);
            } else {
                let i = choose|i: int| 0 <= i < s0.len() && s0[i].zrc20@ == k;
                assert(s[i].zrc20@ == k);
            }
        }
        if exists|i: int| 0 <= i < s.len() && s[i].zrc20@ == k {
            let i = choose|i: int| 0 <= i < s.len() && s[i].zrc20@ == k;
            if i < s.len() - 1 {
                assert(s0[i].zrc20@ == k);
            }
        }
    }
}

proof fn lemma_connected_map_index(s: Seq<ConnectedContract>, i: int)
    requires
        distinct_connected_keys(s),
        0 <= i < s.len(),
    ensures
        connected_map(s).contains_key(s[i].zrc20@),
        connected_map(s)[s[i].zrc20@] == s[i].contract_address@,
    decreases s.len(),
{
    if i < s.len() - 1 {
        let s0 = s.drop_last();
        assert(distinct_connected_keys(s0));
        lemma_connected_map_index(s0, i);
        assert(s.last().zrc20@ != s[i].zrc20@);
    }
}

proof fn lemma_connected_map_update(s: Seq<ConnectedContract>, i: int, c: ConnectedContract)
    requires
        distinct_connected_keys(s),
        0 <= i < s.len(),
        c.zrc20@ == s[i].zrc20@,
    ensures
        connected_map(s.update(i, c)) == connected_map(s).insert(c.zrc20@, c.contract_address@),
    decreases s.len(),
{
    let k = c.zrc20@;
    let s0 = s.drop_last();
    if i == s.len() - 1 {
        assert(s.update(i, c).drop_last() =~= s0);
        assert(s.update(i, c).last() == c);
        assert(connected_map(s0).insert(k, c.contract_address@) =~= connected_map(s0).insert(
            k,
            s.last().contract_address@,
        ).insert(k, c.contract_address@));
    } else {
        assert(distinct_connected_keys(s0));
        lemma_connected_map_update(s0, i, c);
        assert(s.update(i, c).drop_last() =~= s0.update(i, c));
        assert(s.update(i, c).last() == s.last());
        assert(s.last().zrc20@ != k);
        assert(connected_map(s0).insert(k, c.contract_address@).insert(
            s.last().zrc20@,
            s.last().contract_address@,
        ) =~= connected_map(s0).insert(s.last().zrc20@, s.last().contract_address@).insert(
            k,
            c.contract_address@,
        ));
    }
}

/// The connected-contract mapping: for each 20-byte gas-token identity,
/// the contract registered as this protocol's counterpart on that chain.
/// An inbound message is accepted only if its claimed sender equals the
/// contract registered for the message's gas-token identity.
pub struct ConnectedContracts {
    entries: Vec<ConnectedContract>,
}

impl View for ConnectedContracts {
    type V = Map<Seq<u8>, Seq<u8>>;

    closed spec fn view(&self) -> Map<Seq<u8>, Seq<u8>> {
        connected_map(self.entries@)
    }
}

impl ConnectedContracts {
    /// Gas-token identities are pairwise distinct.
    pub closed spec fn wf(&self) -> bool {
        distinct_connected_keys(self.entries@)
    }

    pub fn new() -> (r: ConnectedContracts)
        ensures
            r@ == Map::<Seq<u8>, Seq<u8>>::empty(),
            r.wf(),
    {
        ConnectedContracts { entries: Vec::new() }
    }

    fn find(&self, zrc20: &[u8; 20]) -> (r: Option<usize>)
        ensures
            (match r {
                Some(i) => i < self.entries@.len() && self.entries@[i as int].zrc20@ == zrc20@,
                None => forall|i: int|
                    0 <= i < self.entries@.len() ==> self.entries@[i].zrc20@ != zrc20@,
            }),
    {
        let mut i: usize = 0;
        while i < self.entries.len()
            invariant
                i <= self.entries@.len(),
                forall|j: int| 0 <= j < i ==> self.entries@[j].zrc20@ != zrc20@,
            decreases self.entries@.len() - i,
    {
            if bytes20_eq(&self.entries[i].zrc20, zrc20) {
                return Some(i);
            }
            i = i + 1;
        }
        None
    }

    /// Registers (or re-registers) the counterpart contract for a
    /// gas-token identity.
    pub fn set_connected(&mut self, zrc20: [u8; 20], contract_address: Vec<u8>)
        requires
            old(self).wf(),
        ensures
            final(self).wf(),
            final(self)@ == old(self)@.insert(zrc20@, contract_address@),
    {
        let entry = ConnectedContract { zrc20, contract_address };
        match self.find(&zrc20) {
            Some(i) => {
                proof {
                    lemma_connected_map_update(self.entries@, i as int, entry);
                }
                self.entries[i] = entry;
            },
            None => {
                self.entries.push(entry);
                proof {
                    assert(self.entries@.drop_last() =~= old(self).entries@);
                }
            },
        }
    }

    /// True if `sender` is the contract registered for `zrc20`.
    pub fn is_authorized_sender(&self, zrc20: &[u8; 20], sender: &[u8; 20]) -> (r: bool)
        requires
            self.wf(),
        ensures
            r == (self@.contains_key(zrc20@) && self@[zrc20@] == sender@),
    {
        proof {
            lemma_connected_map_contains(self.entries@, zrc20@);
        }
        match self.find(zrc20) {
            Some(i) => {
                proof {
                    lemma_connected_map_index(self.entries@, i as int);
                }
                vec_eq_addr20(&self.entries[i].contract_address, sender)
            },
            None => false,
        }
    }
}

} // verus!
