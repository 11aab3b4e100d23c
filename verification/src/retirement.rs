//! The retirement tracker: a permanent ledger of burned tokens.
//!
//! Retiring a token burns it on the asset registry and records the burn
//! forever: a retirement record is immutable once written and is never
//! removed, so a token can be retired at most once. Each record carries a
//! transaction hash derived from the ledger's state at the time of the burn.

use vstd::prelude::*;

use crate::address::Address;
use crate::address::is_signed;
use crate::address::spec_signed;
use crate::digest::sha256;
use crate::digest::sha256_of;
use crate::registry::AssetRegistry;
use crate::registry::removed_from;

verus! {

/// Everything that can go wrong in a tracker operation.
#[derive(Clone, Copy, PartialEq, Eq, Structural, Debug)]
pub enum ContractError {
    NotAuthorized,
    TokenNotOwned,
    TokenAlreadyRetired,
    InvalidTokenId,
    BurnFailed,
    ContractNotInitialized,
}

/// The durable fact that a token was retired: by whom, when, and under which
/// transaction hash. Immutable once written.
#[derive(Clone, PartialEq, Eq, Debug)]
pub struct RetirementRecord {
    pub token_id: u32,
    pub retiring_entity: Address,
    pub timestamp: u64,
    pub tx_hash: Vec<u8>,
    pub reason: Option<String>,
}

/// The tracker's configuration, set once at initialization; the registry
/// address may later be moved by the admin.
#[derive(Clone, Copy, Debug)]
pub struct RetirementConfig {
    pub admin: Address,
    pub carbon_asset_contract: Address,
}

/// The big-endian bytes of a 32-bit integer.
pub open spec fn spec_u32_be(x: u32) -> Seq<u8> {
    seq![(x >> 24) as u8, (x >> 16) as u8, (x >> 8) as u8, x as u8]
}

/// The big-endian bytes of a 64-bit integer.
pub open spec fn spec_u64_be(x: u64) -> Seq<u8> {
    seq![
        (x >> 56) as u8,
        (x >> 48) as u8,
        (x >> 40) as u8,
        (x >> 32) as u8,
        (x >> 24) as u8,
        (x >> 16) as u8,
        (x >> 8) as u8,
        x as u8,
    ]
}

/// The byte string hashed into a retirement's transaction hash: the token
/// id, the ledger timestamp and the ledger sequence number, each big-endian.
pub open spec fn spec_hash_input(token_id: u32, timestamp: u64, ledger_seq: u64) -> Seq<u8> {
    spec_u32_be(token_id) + spec_u64_be(timestamp) + spec_u64_be(ledger_seq)
}

/// Build the hash input bytes.
fn hash_input(token_id: u32, timestamp: u64, ledger_seq: u64) -> (r: Vec<u8>)
    ensures
        r@ == spec_hash_input(token_id, timestamp, ledger_seq),
{
    let mut v: Vec<u8> = Vec::new();
    v.push((token_id >> 24) as u8);
    v.push((token_id >> 16) as u8);
    v.push((token_id >> 8) as u8);
    v.push(token_id as u8);
    v.push((timestamp >> 56) as u8);
    v.push((timestamp >> 48) as u8);
    v.push((timestamp >> 40) as u8);
    v.push((timestamp >> 32) as u8);
    v.push((timestamp >> 24) as u8);
    v.push((timestamp >> 16) as u8);
    v.push((timestamp >> 8) as u8);
    v.push(timestamp as u8);
    v.push((ledger_seq >> 56) as u8);
    v.push((ledger_seq >> 48) as u8);
    v.push((ledger_seq >> 40) as u8);
    v.push((ledger_seq >> 32) as u8);
    v.push((ledger_seq >> 24) as u8);
    v.push((ledger_seq >> 16) as u8);
    v.push((ledger_seq >> 8) as u8);
    v.push(ledger_seq as u8);
    proof {
        assert(v@ =~= spec_hash_input(token_id, timestamp, ledger_seq));
    }
    v
}

/// No two records name the same token: a token is retired at most once.
pub open spec fn records_wf(s: Seq<RetirementRecord>) -> bool {
    forall|i: int, j: int| 0 <= i < j < s.len() ==> s[i].token_id != s[j].token_id
}

/// Some record names the token.
pub open spec fn records_has(s: Seq<RetirementRecord>, token_id: u32) -> bool {
    exists|i: int| 0 <= i < s.len() && s[i].token_id == token_id
}

/// The index of the record naming the token: unique when the records are
/// well-formed and one exists.
pub open spec fn records_index(s: Seq<RetirementRecord>, token_id: u32) -> int {
    choose|i: int| 0 <= i < s.len() && s[i].token_id == token_id
}

/// The record kept for the token.
pub open spec fn records_at(s: Seq<RetirementRecord>, token_id: u32) -> RetirementRecord {
    s[records_index(s, token_id)]
}

/// In well-formed records, the record at index `i` is the one and only
/// record for its token.
proof fn lemma_record_at(s: Seq<RetirementRecord>, i: int)
    requires
        records_wf(s),
        0 <= i < s.len(),
    ensures
        records_has(s, s[i].token_id),
        records_index(s, s[i].token_id) == i,
        records_at(s, s[i].token_id) == s[i],
{
    assert(records_has(s, s[i].token_id)) by {
        assert(0 <= i < s.len() && s[i].token_id == s[i].token_id);
    }
    let j = records_index(s, s[i].token_id);
    assert(0 <= j < s.len() && s[j].token_id == s[i].token_id);
    if j < i {
        assert(s[j].token_id != s[i].token_id);
    } else if i < j {
        assert(s[i].token_id != s[j].token_id);
    }
}

/// Appending a record for a token the records do not yet name keeps them
/// well-formed, adds exactly that record, and touches no other token's
/// record.
proof fn lemma_push_record(s: Seq<RetirementRecord>, record: RetirementRecord)
    requires
        records_wf(s),
        !records_has(s, record.token_id),
    ensures
        ({
            let s2 = s.push(record);
            &&& records_wf(s2)
            &&& records_has(s2, record.token_id)
            &&& records_at(s2, record.token_id) == record
            &&& forall|t: u32| t != record.token_id ==> records_has(s2, t) == records_has(s, t)
            &&& forall|t: u32|
                t != record.token_id && records_has(s, t) ==> records_at(s2, t) == records_at(
                    s,
                    t,
                )
        }),
{
    let s2 = s.push(record);
    assert(forall|k: int| 0 <= k < s.len() ==> s2[k] == s[k]);
    assert(s2[s.len() as int] == record);
    assert forall|a: int, b: int| 0 <= a < b < s2.len() implies s2[a].token_id != s2[b].token_id by {
        if b < s.len() {
            assert(s[a].token_id != s[b].token_id);
        } else {
            if s2[a].token_id == record.token_id {
                assert(0 <= a < s.len() && s[a].token_id == record.token_id);
                assert(records_has(s, record.token_id));
            }
        }
    }
    lemma_record_at(s2, s.len() as int);
    assert forall|t: u32| t != record.token_id implies records_has(s2, t) == records_has(s, t) by {
        if records_has(s, t) {
            let k = choose|k: int| 0 <= k < s.len() && s[k].token_id == t;
            assert(0 <= k < s2.len() && s2[k].token_id == t);
        }
        if records_has(s2, t) {
            let k = choose|k: int| 0 <= k < s2.len() && s2[k].token_id == t;
            assert(k < s.len());
            assert(0 <= k < s.len() && s[k].token_id == t);
        }
    }
    assert forall|t: u32|
        t != record.token_id && records_has(s, t) implies records_at(s2, t) == records_at(
        s,
        t,
    ) by {
        let k = choose|k: int| 0 <= k < s.len() && s[k].token_id == t;
        lemma_record_at(s, k);
        assert(s2[k] == s[k]);
        lemma_record_at(s2, k);
    }
}

/// The reason text carried by a record, by content.
pub open spec fn reason_view(o: Option<String>) -> Option<Seq<char>> {
    match o {
        Some(s) => Some(s@),
        None => None,
    }
}

/// The fields a retirement of `token_id` by `entity` must record, including
/// the transaction hash derived from the ledger's state.
pub open spec fn record_matches(
    rec: RetirementRecord,
    token_id: u32,
    entity: Address,
    timestamp: u64,
    ledger_seq: u64,
    reason: Option<Seq<char>>,
) -> bool {
    &&& rec.token_id == token_id
    &&& rec.retiring_entity == entity
    &&& rec.timestamp == timestamp
    &&& rec.tx_hash@ == sha256_of(spec_hash_input(token_id, timestamp, ledger_seq))
    &&& reason_view(rec.reason) == reason
}

/// The token ids retired by `entity`, in retirement order.
pub open spec fn entity_tokens_in(s: Seq<RetirementRecord>, entity: Address) -> Seq<u32>
    decreases s.len(),
{
    if s.len() == 0 {
        Seq::empty()
    } else if s.last().retiring_entity == entity {
        entity_tokens_in(s.drop_last(), entity).push(s.last().token_id)
    } else {
        entity_tokens_in(s.drop_last(), entity)
    }
}

/// The permanent ledger of retirements.
pub struct RetirementTracker {
    config: Option<RetirementConfig>,
    records: Vec<RetirementRecord>,
}

/// The whole effect of `retire`: the entity must have authorized the
/// invocation, a token is retired at most once, the burn must succeed on the
/// registry, and on success exactly one new record is appended.
pub open spec fn retire_post(
    pre_t: RetirementTracker,
    pre_r: AssetRegistry,
    post_t: RetirementTracker,
    post_r: AssetRegistry,
    token_id: u32,
    retiring_entity: Address,
    reason: Option<Seq<char>>,
    now: u64,
    ledger_seq: u64,
    signers: Seq<Address>,
    r: Result<RetirementRecord, ContractError>,
) -> bool {
    &&& post_t.spec_config() == pre_t.spec_config()
    &&& if !spec_signed(signers, retiring_entity) {
        r == Err::<RetirementRecord, ContractError>(ContractError::NotAuthorized) && post_t
            == pre_t && post_r == pre_r
    } else if pre_t.has_record(token_id) {
        r == Err::<RetirementRecord, ContractError>(ContractError::TokenAlreadyRetired) && post_t
            == pre_t && post_r == pre_r
    } else if pre_t.spec_config() is None {
        r == Err::<RetirementRecord, ContractError>(ContractError::ContractNotInitialized)
            && post_t == pre_t && post_r == pre_r
    } else if !pre_r.has_token(token_id) || pre_r.holder_of(token_id) != retiring_entity {
        r == Err::<RetirementRecord, ContractError>(ContractError::BurnFailed) && post_t == pre_t
            && post_r == pre_r
    } else {
        &&& match r {
            Ok(rec) => record_matches(rec, token_id, retiring_entity, now, ledger_seq, reason),
            Err(_) => false,
        }
        &&& post_t.wf()
        &&& post_t.has_record(token_id)
        &&& record_matches(
            post_t.record_of(token_id),
            token_id,
            retiring_entity,
            now,
            ledger_seq,
            reason,
        )
        &&& post_t.records_seq().len() == pre_t.records_seq().len() + 1
        &&& post_t.records_seq().drop_last() == pre_t.records_seq()
        &&& post_t.records_seq().last() == post_t.record_of(token_id)
        &&& removed_from(pre_r, post_r, token_id)
    }
}

/// The whole effect of `batch_retire` once the entity's authorization is
/// checked: the tokens are retired one after the other, each with the full
/// `retire` semantics; an item's failure skips it and the batch goes on. The
/// records collected are exactly those of the successful items, in order.
pub open spec fn batch_retire_post(
    pre_t: RetirementTracker,
    pre_r: AssetRegistry,
    post_t: RetirementTracker,
    post_r: AssetRegistry,
    tokens: Seq<u32>,
    entity: Address,
    reason: Option<Seq<char>>,
    now: u64,
    ledger_seq: u64,
    signers: Seq<Address>,
    out: Seq<RetirementRecord>,
) -> bool
    decreases tokens.len(),
{
    if tokens.len() == 0 {
        post_t == pre_t && post_r == pre_r && out.len() == 0
    } else {
        exists|
            mid_t: RetirementTracker,
            mid_r: AssetRegistry,
            r0: Result<RetirementRecord, ContractError>,
        |
            #![auto]
            retire_post(
                pre_t,
                pre_r,
                mid_t,
                mid_r,
                tokens[0],
                entity,
                reason,
                now,
                ledger_seq,
                signers,
                r0,
            ) && match r0 {
                Ok(rec) => out.len() > 0 && out[0] == rec && batch_retire_post(
                    mid_t,
                    mid_r,
                    post_t,
                    post_r,
                    tokens.drop_first(),
                    entity,
                    reason,
                    now,
                    ledger_seq,
                    signers,
                    out.drop_first(),
                ),
                Err(_) => batch_retire_post(
                    mid_t,
                    mid_r,
                    post_t,
                    post_r,
                    tokens.drop_first(),
                    entity,
                    reason,
                    now,
                    ledger_seq,
                    signers,
                    out,
                ),
            }
    }
}

impl RetirementTracker {
    /// The configuration, absent until `initialize` succeeds.
    pub closed spec fn spec_config(self) -> Option<RetirementConfig> {
        self.config
    }

    /// The retirement records, in retirement order.
    pub closed spec fn records_seq(self) -> Seq<RetirementRecord> {
        self.records@
    }

    /// The tracker has been configured.
    pub open spec fn is_initialized(self) -> bool {
        self.spec_config() is Some
    }

    /// At most one record per token.
    pub open spec fn wf(self) -> bool {
        records_wf(self.records_seq())
    }

    /// A retirement record exists for the token.
    pub open spec fn has_record(self, token_id: u32) -> bool {
        records_has(self.records_seq(), token_id)
    }

    /// The record kept for the token (meaningful only when `has_record`
    /// holds).
    pub open spec fn record_of(self, token_id: u32) -> RetirementRecord {
        records_at(self.records_seq(), token_id)
    }

    /// A fresh, unconfigured tracker with no retirement recorded.
    pub fn new() -> (r: RetirementTracker)
        ensures
            r.wf(),
            !r.is_initialized(),
            forall|t: u32| !r.has_record(t),
            r.records_seq().len() == 0,
    {
        RetirementTracker { config: None, records: Vec::new() }
    }

    /// The index of the token's record, if one exists.
    fn find_record(&self, token_id: u32) -> (r: Option<usize>)
        ensures
            match r {
                Some(i) => i < self.records_seq().len() && self.records_seq()[i as int].token_id
                    == token_id,
                None => !self.has_record(token_id),
            },
    {
        let mut i: usize = 0;
        while i < self.records.len()
            invariant
                0 <= i <= self.records_seq().len(),
                forall|j: int| 0 <= j < i ==> self.records_seq()[j].token_id != token_id,
            decreases self.records_seq().len() - i,
        {
            if self.records[i].token_id == token_id {
                return Some(i);
            }
            i += 1;
        }
        None
    }

    /// Configure the tracker, once. The admin must have authorized the
    /// invocation.
    pub fn initialize(&mut self, admin: Address, carbon_asset_contract: Address, signers: &Vec<
        Address,
    >) -> (r: Result<(), ContractError>)
        requires
            old(self).wf(),
            !old(self).is_initialized(),
        ensures
            final(self).wf(),
            final(self).records_seq() == old(self).records_seq(),
            if !spec_signed(signers@, admin) {
                r == Err::<(), ContractError>(ContractError::NotAuthorized) && *final(self)
                    == *old(self)
            } else {
                r is Ok && (final(self).spec_config() matches Some(cfg) && cfg.admin == admin
                    && cfg.carbon_asset_contract == carbon_asset_contract)
            },
    {
        if !is_signed(signers, admin) {
            return Err(ContractError::NotAuthorized);
        }
        self.config = Some(RetirementConfig { admin, carbon_asset_contract });
        Ok(())
    }

    /// Retire a token: burn it on the registry and record the burn forever.
    pub fn retire(
        &mut self,
        token_id: u32,
        retiring_entity: Address,
        reason: Option<String>,
        now: u64,
        ledger_seq: u64,
        signers: &Vec<Address>,
        registry: &mut AssetRegistry,
    ) -> (r: Result<RetirementRecord, ContractError>)
        requires
            old(self).wf(),
            old(registry).wf(),
        ensures
            final(self).wf(),
            final(registry).wf(),
            retire_post(
                *old(self),
                *old(registry),
                *final(self),
                *final(registry),
                token_id,
                retiring_entity,
                reason_view(reason),
                now,
                ledger_seq,
                signers@,
                r,
            ),
    {
        if !is_signed(signers, retiring_entity) {
            return Err(ContractError::NotAuthorized);
        }
        if self.find_record(token_id).is_some() {
            return Err(ContractError::TokenAlreadyRetired);
        }
        if self.config.is_none() {
            return Err(ContractError::ContractNotInitialized);
        }
        match registry.burn(token_id, retiring_entity) {
            Ok(()) => {},
            Err(_) => {
                return Err(ContractError::BurnFailed);
            },
        }
        let input = hash_input(token_id, now, ledger_seq);
        let reason_kept = reason.clone();
        let stored = RetirementRecord {
            token_id,
            retiring_entity,
            timestamp: now,
            tx_hash: sha256(&input),
            reason: reason_kept,
        };
        proof {
            lemma_push_record(self.records@, stored);
        }
        self.records.push(stored);
        proof {
            assert(self.records@.drop_last() =~= old(self).records@);
        }
        let returned = RetirementRecord {
            token_id,
            retiring_entity,
            timestamp: now,
            tx_hash: sha256(&input),
            reason,
        };
        Ok(returned)
    }

    /// Retire several tokens in order; an item that cannot be retired is
    /// skipped and the rest go on. Returns the records of the successful
    /// items, in order.
    pub fn batch_retire(
        &mut self,
        token_ids: &Vec<u32>,
        retiring_entity: Address,
        reason: Option<String>,
        now: u64,
        ledger_seq: u64,
        signers: &Vec<Address>,
        registry: &mut AssetRegistry,
    ) -> (r: Result<Vec<RetirementRecord>, ContractError>)
        requires
            old(self).wf(),
            old(registry).wf(),
        ensures
            final(self).wf(),
            final(registry).wf(),
            match r {
                Ok(out) => spec_signed(signers@, retiring_entity) && batch_retire_post(
                    *old(self),
                    *old(registry),
                    *final(self),
                    *final(registry),
                    token_ids@,
                    retiring_entity,
                    reason_view(reason),
                    now,
                    ledger_seq,
                    signers@,
                    out@,
                ),
                Err(e) => e == ContractError::NotAuthorized && !spec_signed(
                    signers@,
                    retiring_entity,
                ) && *final(self) == *old(self) && *final(registry) == *old(registry),
            },
    {
        if !is_signed(signers, retiring_entity) {
            return Err(ContractError::NotAuthorized);
        }
        let mut results: Vec<RetirementRecord> = Vec::new();
        let mut i: usize = 0;
        while i < token_ids.len()
            invariant
                0 <= i <= token_ids@.len(),
                self.wf(),
                registry.wf(),
                spec_signed(signers@, retiring_entity),
                batch_retire_post(
                    *old(self),
                    *old(registry),
                    *self,
                    *registry,
                    token_ids@.take(i as int),
                    retiring_entity,
                    reason_view(reason),
                    now,
                    ledger_seq,
                    signers@,
                    results@,
                ),
            decreases token_ids@.len() - i,
        {
            let ghost pre_t = *self;
            let ghost pre_r = *registry;
            let ghost pre_out = results@;
            let item_reason = reason.clone();
            proof {
                assert(reason_view(item_reason) == reason_view(reason));
            }
            let res = self.retire(
                token_ids[i],
                retiring_entity,
                item_reason,
                now,
                ledger_seq,
                signers,
                registry,
            );
            let ghost res_snapshot = res;
            match res {
                Ok(record) => {
                    results.push(record);
                },
                Err(_) => {},
            }
            proof {
                lemma_batch_retire_snoc(
                    *old(self),
                    *old(registry),
                    pre_t,
                    pre_r,
                    *self,
                    *registry,
                    token_ids@.take(i as int),
                    token_ids@[i as int],
                    retiring_entity,
                    reason_view(reason),
                    now,
                    ledger_seq,
                    signers@,
                    pre_out,
                    res_snapshot,
                );
                assert(token_ids@.take(i as int).push(token_ids@[i as int]) =~= token_ids@.take(
                    i as int + 1,
                ));
            }
            i += 1;
        }
        proof {
            assert(token_ids@.take(token_ids@.len() as int) =~= token_ids@);
        }
        Ok(results)
    }

    /// Whether the token has been retired.
    pub fn is_retired(&self, token_id: u32) -> (r: bool)
        ensures
            r == self.has_record(token_id),
    {
        match self.find_record(token_id) {
            Some(i) => {
                proof {
                    assert(0 <= i < self.records_seq().len() && self.records_seq()[i as int].token_id
                        == token_id);
                }
                true
            },
            None => false,
        }
    }

    /// The token's retirement record, or its explicit absence.
    pub fn get_retirement_record(&self, token_id: u32) -> (r: Option<&RetirementRecord>)
        requires
            self.wf(),
        ensures
            match r {
                Some(rec) => self.has_record(token_id) && *rec == self.record_of(token_id),
                None => !self.has_record(token_id),
            },
    {
        match self.find_record(token_id) {
            Some(i) => {
                proof {
                    lemma_record_at(self.records@, i as int);
                }
                Some(&self.records[i])
            },
            None => None,
        }
    }

    /// The token ids retired by the entity, in retirement order.
    pub fn get_retirements_by_entity(&self, retiring_entity: Address) -> (r: Vec<u32>)
        ensures
            r@ == entity_tokens_in(self.records_seq(), retiring_entity),
    {
        let mut result: Vec<u32> = Vec::new();
        let mut i: usize = 0;
        while i < self.records.len()
            invariant
                0 <= i <= self.records@.len(),
                result@ == entity_tokens_in(self.records@.take(i as int), retiring_entity),
            decreases self.records@.len() - i,
        {
            proof {
                assert(self.records@.take(i as int + 1).drop_last() =~= self.records@.take(
                    i as int,
                ));
                assert(self.records@.take(i as int + 1).last() == self.records@[i as int]);
            }
            if self.records[i].retiring_entity == retiring_entity {
                result.push(self.records[i].token_id);
            }
            i += 1;
        }
        proof {
            assert(self.records@.take(self.records@.len() as int) =~= self.records@);
        }
        result
    }

    /// Move the registry address the tracker burns against. Only the
    /// configured admin may do so.
    pub fn update_carbon_asset_contract(
        &mut self,
        caller: Address,
        new_contract: Address,
        signers: &Vec<Address>,
    ) -> (r: Result<(), ContractError>)
        requires
            old(self).wf(),
        ensures
            final(self).wf(),
            final(self).records_seq() == old(self).records_seq(),
            if !spec_signed(signers@, caller) {
                r == Err::<(), ContractError>(ContractError::NotAuthorized) && *final(self)
                    == *old(self)
            } else {
                match old(self).spec_config() {
                    None => r == Err::<(), ContractError>(ContractError::ContractNotInitialized)
                        && *final(self) == *old(self),
                    Some(cfg) => {
                        if caller != cfg.admin {
                            r == Err::<(), ContractError>(ContractError::NotAuthorized)
                                && *final(self) == *old(self)
                        } else {
                            r is Ok && (final(self).spec_config() matches Some(cfg2) && cfg2.admin
                                == cfg.admin && cfg2.carbon_asset_contract == new_contract)
                        }
                    },
                }
            },
    {
        if !is_signed(signers, caller) {
            return Err(ContractError::NotAuthorized);
        }
        let cfg = match self.config {
            Some(c) => c,
            None => {
                return Err(ContractError::ContractNotInitialized);
            },
        };
        if caller != cfg.admin {
            return Err(ContractError::NotAuthorized);
        }
        self.config = Some(
            RetirementConfig { admin: cfg.admin, carbon_asset_contract: new_contract },
        );
        Ok(())
    }

    /// The configured admin identity, if any.
    pub fn get_admin(&self) -> (r: Option<Address>)
        ensures
            r == (match self.spec_config() {
                Some(cfg) => Some(cfg.admin),
                None => None::<Address>,
            }),
    {
        match &self.config {
            Some(cfg) => Some(cfg.admin),
            None => None,
        }
    }

    /// The configured registry identity, if any.
    pub fn get_carbon_asset_contract(&self) -> (r: Option<Address>)
        ensures
            r == (match self.spec_config() {
                Some(cfg) => Some(cfg.carbon_asset_contract),
                None => None::<Address>,
            }),
    {
        match &self.config {
            Some(cfg) => Some(cfg.carbon_asset_contract),
            None => None,
        }
    }
}

/// Extending a batch by one more item is again a batch, whether the item
/// retired or was skipped.
pub proof fn lemma_batch_retire_snoc(
    pre_t: RetirementTracker,
    pre_r: AssetRegistry,
    mid_t: RetirementTracker,
    mid_r: AssetRegistry,
    post_t: RetirementTracker,
    post_r: AssetRegistry,
    tokens: Seq<u32>,
    token: u32,
    entity: Address,
    reason: Option<Seq<char>>,
    now: u64,
    ledger_seq: u64,
    signers: Seq<Address>,
    out: Seq<RetirementRecord>,
    r0: Result<RetirementRecord, ContractError>,
)
    requires
        batch_retire_post(
            pre_t,
            pre_r,
            mid_t,
            mid_r,
            tokens,
            entity,
            reason,
            now,
            ledger_seq,
            signers,
            out,
        ),
        retire_post(
            mid_t,
            mid_r,
            post_t,
            post_r,
            token,
            entity,
            reason,
            now,
            ledger_seq,
            signers,
            r0,
        ),
    ensures
        batch_retire_post(
            pre_t,
            pre_r,
            post_t,
            post_r,
            tokens.push(token),
            entity,
            reason,
            now,
            ledger_seq,
            signers,
            (match r0 {
                Ok(rec) => out.push(rec),
                Err(_) => out,
            }),
        ),
    decreases tokens.len(),
{
    let full = tokens.push(token);
    let out2 = match r0 {
        Ok(rec) => out.push(rec),
        Err(_) => out,
    };
    if tokens.len() == 0 {
        assert(full[0] == token);
        assert(full.drop_first() =~= Seq::<u32>::empty());
        assert(mid_t == pre_t && mid_r == pre_r && out.len() == 0);
        match r0 {
            Ok(rec) => {
                assert(out2[0] == rec);
                assert(out2.drop_first() =~= out);
                assert(batch_retire_post(
                    post_t,
                    post_r,
                    post_t,
                    post_r,
                    full.drop_first(),
                    entity,
                    reason,
                    now,
                    ledger_seq,
                    signers,
                    out2.drop_first(),
                ));
            },
            Err(_) => {
                assert(batch_retire_post(
                    post_t,
                    post_r,
                    post_t,
                    post_r,
                    full.drop_first(),
                    entity,
                    reason,
                    now,
                    ledger_seq,
                    signers,
                    out2,
                ));
            },
        }
        assert(retire_post(
            pre_t,
            pre_r,
            post_t,
            post_r,
            full[0],
            entity,
            reason,
            now,
            ledger_seq,
            signers,
            r0,
        ));
    } else {
        let (m1_t, m1_r, rr) = choose|
            m1_t: RetirementTracker,
            m1_r: AssetRegistry,
            rr: Result<RetirementRecord, ContractError>,
        |
            #![auto]
            retire_post(
                pre_t,
                pre_r,
                m1_t,
                m1_r,
                tokens[0],
                entity,
                reason,
                now,
                ledger_seq,
                signers,
                rr,
            ) && match rr {
                Ok(rec) => out.len() > 0 && out[0] == rec && batch_retire_post(
                    m1_t,
                    m1_r,
                    mid_t,
                    mid_r,
                    tokens.drop_first(),
                    entity,
                    reason,
                    now,
                    ledger_seq,
                    signers,
                    out.drop_first(),
                ),
                Err(_) => batch_retire_post(
                    m1_t,
                    m1_r,
                    mid_t,
                    mid_r,
                    tokens.drop_first(),
                    entity,
                    reason,
                    now,
                    ledger_seq,
                    signers,
                    out,
                ),
            };
        assert(full.drop_first() =~= tokens.drop_first().push(token));
        assert(full[0] == tokens[0]);
        match rr {
            Ok(rec) => {
                lemma_batch_retire_snoc(
                    m1_t,
                    m1_r,
                    mid_t,
                    mid_r,
                    post_t,
                    post_r,
                    tokens.drop_first(),
                    token,
                    entity,
                    reason,
                    now,
                    ledger_seq,
                    signers,
                    out.drop_first(),
                    r0,
                );
                assert(out2[0] == rec);
                assert(out2.drop_first() =~= (match r0 {
                    Ok(rec2) => out.drop_first().push(rec2),
                    Err(_) => out.drop_first(),
                }));
            },
            Err(_) => {
                lemma_batch_retire_snoc(
                    m1_t,
                    m1_r,
                    mid_t,
                    mid_r,
                    post_t,
                    post_r,
                    tokens.drop_first(),
                    token,
                    entity,
                    reason,
                    now,
                    ledger_seq,
                    signers,
                    out,
                    r0,
                );
            },
        }
        assert(retire_post(
            pre_t,
            pre_r,
            m1_t,
            m1_r,
            full[0],
            entity,
            reason,
            now,
            ledger_seq,
            signers,
            rr,
        ));
    }
}

} // verus!
