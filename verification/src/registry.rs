//! The registry state machine: it owns the name-to-record store, enacts
//! registration, address update, renewal, unregistration and the expiry
//! sweep, and keeps custody of the two ledgers.
//!
//! Every mutating operation either fully completes or returns an error and
//! leaves the registry exactly as it was. The external period counter is
//! injected as an argument wherever an operation needs the current period;
//! the registry never owns or advances it.

use vstd::prelude::*;

use crate::ids::{hash_name, name_id};
use crate::types::{
    distinct_ids, has_id, index_of, lemma_record_at, lemma_total_locked_push,
    lemma_total_locked_remove, lemma_total_locked_update, record_of, total_locked, Currency,
    Funds, NameRecord, RecordModel, RnsError,
};
use crate::PERIODS_PER_YEAR;

verus! {

/// The ownership certificate of a registered name. Possession of this value
/// is ownership of the record: it cannot be copied, it is minted only by a
/// successful registration, and it is consumed by unregistration. There is
/// no name-to-owner table; the certificate is the ownership link.
#[derive(Debug)]
pub struct Certificate {
    id: u128,
}

impl Certificate {
    /// The derived identifier of the record this certificate owns.
    pub closed spec fn spec_id(self) -> u128 {
        self.id
    }

    /// Reads the derived identifier off the certificate.
    pub fn record_id(&self) -> (id: u128)
        ensures
            id == self.spec_id(),
    {
        self.id
    }
}

/// The administrative capability. It is minted exactly once, when the
/// registry is instantiated, and cannot be constructed anywhere else;
/// presenting it is what authorizes fee withdrawal and the expiry sweep.
pub struct AdminBadge {
    seal: (),
}

/// The mathematical image of the whole registry.
pub ghost struct ServiceModel {
    pub records: Seq<RecordModel>,
    pub deposit_balance: u128,
    pub fee_balance: u128,
    pub deposit_per_year: u128,
    pub fee_address_update: u128,
    pub fee_renewal_per_year: u128,
}

/// The registry: the record store keyed by derived identifier, the two
/// custody ledgers, and the three prices fixed at instantiation. Certificate
/// mint, burn and update happen only inside this type's methods, after the
/// public entry point's own proof and payment checks have passed; no caller
/// can reach that mutation path directly.
pub struct RadixNameService {
    records: Vec<NameRecord>,
    deposit_balance: u128,
    fee_balance: u128,
    deposit_per_year: u128,
    fee_address_update: u128,
    fee_renewal_per_year: u128,
}

impl View for RadixNameService {
    type V = ServiceModel;

    closed spec fn view(&self) -> ServiceModel {
        ServiceModel {
            records: self.records@.map_values(|r: NameRecord| r@),
            deposit_balance: self.deposit_balance,
            fee_balance: self.fee_balance,
            deposit_per_year: self.deposit_per_year,
            fee_address_update: self.fee_address_update,
            fee_renewal_per_year: self.fee_renewal_per_year,
        }
    }
}

/// A name satisfies the registry's domain-suffix policy when its UTF-8 bytes
/// end in `.xrd`.
pub open spec fn valid_name(name: Seq<char>) -> bool {
    let b = vstd::utf8::encode_utf8(name);
    b.len() >= 4 && b[b.len() - 4] == 46 && b[b.len() - 3] == 120 && b[b.len() - 2] == 114
        && b[b.len() - 1] == 100
}

/// The deposit a registration of `years` years must lock.
pub open spec fn register_required(m: ServiceModel, years: u8) -> int {
    m.deposit_per_year * years
}

/// The fee a renewal of `years` years must pay.
pub open spec fn renew_required(m: ServiceModel, years: u8) -> int {
    m.fee_renewal_per_year * years
}

/// The record a successful registration mints.
pub open spec fn minted_record(
    m: ServiceModel,
    name: Seq<char>,
    target: Seq<char>,
    years: u8,
    period: u64,
) -> RecordModel {
    RecordModel {
        record_id: name_id(name),
        target_address: target,
        valid_until_period: (period + years * PERIODS_PER_YEAR) as u64,
        locked_deposit: register_required(m, years) as u128,
    }
}

/// The failing condition of a registration, if any, checked in the order
/// the operation checks them.
pub open spec fn register_err(
    m: ServiceModel,
    name: Seq<char>,
    years: u8,
    deposit: Funds,
) -> Option<RnsError> {
    if !valid_name(name) {
        Some(RnsError::InvalidNameFormat)
    } else if years == 0 {
        Some(RnsError::ReserveDurationTooShort)
    } else if deposit.currency != Currency::Custody {
        Some(RnsError::WrongCurrency)
    } else if deposit.amount < register_required(m, years) {
        Some(RnsError::InsufficientPayment { required: register_required(m, years) as u128 })
    } else if has_id(m.records, name_id(name)) {
        Some(RnsError::DuplicateName)
    } else {
        None
    }
}

/// The failing condition of an address update, if any, checked in the order
/// the operation checks them.
pub open spec fn update_err(m: ServiceModel, id: u128, fee: Funds) -> Option<RnsError> {
    if fee.currency != Currency::Custody {
        Some(RnsError::WrongCurrency)
    } else if !has_id(m.records, id) {
        Some(RnsError::OwnershipProofInvalid)
    } else if fee.amount < m.fee_address_update {
        Some(RnsError::InsufficientPayment { required: m.fee_address_update })
    } else {
        None
    }
}

/// The failing condition of a renewal, if any, checked in the order the
/// operation checks them.
pub open spec fn renew_err(m: ServiceModel, id: u128, years: u8, fee: Funds) -> Option<RnsError> {
    if fee.currency != Currency::Custody {
        Some(RnsError::WrongCurrency)
    } else if years == 0 {
        Some(RnsError::ReserveDurationTooShort)
    } else if !has_id(m.records, id) {
        Some(RnsError::OwnershipProofInvalid)
    } else if fee.amount < renew_required(m, years) {
        Some(RnsError::InsufficientPayment { required: renew_required(m, years) as u128 })
    } else {
        None
    }
}

/// The identifiers a batch of presented certificates proves ownership of.
pub open spec fn cert_ids(certs: Seq<Certificate>) -> Seq<u128> {
    certs.map_values(|c: Certificate| c.spec_id())
}

/// A batch of certificate identifiers is valid against a state when each
/// names a live record and no identifier is presented twice.
pub open spec fn certs_valid(m: ServiceModel, ids: Seq<u128>) -> bool {
    &&& forall|i: int| 0 <= i < ids.len() ==> has_id(m.records, #[trigger] ids[i])
    &&& forall|i: int, j: int|
        0 <= i < ids.len() && 0 <= j < ids.len() && i != j ==> ids[i] != ids[j]
}

/// The total deposit refunded for a batch of identifiers: the sum of the
/// locked deposits of the named records.
pub open spec fn refund_total(m: ServiceModel, ids: Seq<u128>) -> int
    decreases ids.len(),
{
    if ids.len() == 0 {
        0
    } else {
        refund_total(m, ids.drop_last()) + record_of(m.records, ids.last()).locked_deposit
    }
}

/// The identifiers of the records whose lease lapsed before `period`, in
/// store order.
pub open spec fn expired_ids(records: Seq<RecordModel>, period: u64) -> Seq<u128>
    decreases records.len(),
{
    if records.len() == 0 {
        Seq::empty()
    } else {
        let rest = expired_ids(records.drop_last(), period);
        if records.last().valid_until_period < period {
            rest.push(records.last().record_id)
        } else {
            rest
        }
    }
}

/// In a store with distinct identifiers, the expired batch names exactly the
/// records whose lease lapsed before `period`, each exactly once.
proof fn lemma_expired_ids(records: Seq<RecordModel>, period: u64)
    requires
        distinct_ids(records),
    ensures
        forall|id: u128|
            (#[trigger] expired_ids(records, period).contains(id)) <==> (has_id(records, id)
                && record_of(records, id).valid_until_period < period),
        forall|a: int, b: int|
            0 <= a < b < expired_ids(records, period).len() ==> expired_ids(records, period)[a]
                != expired_ids(records, period)[b],
    decreases records.len(),
{
    let e = expired_ids(records, period);
    if records.len() == 0 {
        assert(forall|id: u128| !(#[trigger] e.contains(id)));
    } else {
        let prefix = records.drop_last();
        let last = records.last();
        let e1 = expired_ids(prefix, period);
        assert(distinct_ids(prefix));
        lemma_expired_ids(prefix, period);
        assert forall|id: u128| has_id(prefix, id) implies has_id(records, id) && record_of(
            records,
            id,
        ) == record_of(prefix, id) by {
            let w = index_of(prefix, id);
            lemma_record_at(prefix, w, id);
            assert(records[w].record_id == id);
            lemma_record_at(records, w, id);
        }
        assert(!has_id(prefix, last.record_id)) by {
            if has_id(prefix, last.record_id) {
                let w = index_of(prefix, last.record_id);
                assert(records[w].record_id == records[records.len() - 1].record_id);
            }
        }
        lemma_record_at(records, records.len() - 1, last.record_id);
        assert forall|id: u128| #[trigger] e.contains(id) implies (has_id(records, id)
            && record_of(records, id).valid_until_period < period) by {
            let a = choose|a: int| 0 <= a < e.len() && (#[trigger] e[a]) == id;
            if last.valid_until_period < period {
                if a < e1.len() {
                    assert(e1.contains(id)) by {
                        assert(e1[a] == id);
                    }
                } else {
                    assert(id == last.record_id);
                }
            } else {
                assert(e1.contains(id)) by {
                    assert(e1[a] == id);
                }
            }
        }
        assert forall|id: u128| has_id(records, id) && record_of(
            records,
            id,
        ).valid_until_period < period implies #[trigger] e.contains(id) by {
            let w = index_of(records, id);
            assert(0 <= w < records.len() && records[w].record_id == id);
            if w < records.len() - 1 {
                assert(prefix[w].record_id == id);
                assert(has_id(prefix, id));
                assert(record_of(prefix, id) == record_of(records, id));
                assert(e1.contains(id));
                let a = choose|a: int| 0 <= a < e1.len() && e1[a] == id;
                assert(e[a] == id);
            } else {
                assert(id == last.record_id);
                assert(e[e.len() - 1] == id);
            }
        }
        assert forall|a: int, b: int| 0 <= a < b < e.len() implies e[a] != e[b] by {
            if b < e1.len() {
            } else {
                assert(e1.contains(e1[a])) by {
                    assert(e1[a] == e1[a]);
                }
                assert(has_id(prefix, e1[a]));
            }
        }
    }
}

/// The failing condition of an unregistration, if any.
pub open spec fn unregister_err(m: ServiceModel, ids: Seq<u128>) -> Option<RnsError> {
    if ids.len() == 0 {
        Some(RnsError::InvalidOrEmptyCertificate)
    } else if !certs_valid(m, ids) {
        Some(RnsError::OwnershipProofInvalid)
    } else {
        None
    }
}

/// What a lookup of `name` returns on a given registry state. Expiry is not
/// checked: a record whose lease has lapsed still resolves until it is
/// unregistered or swept.
pub open spec fn lookup_spec(m: ServiceModel, name: Seq<char>) -> Result<Seq<char>, RnsError> {
    if has_id(m.records, name_id(name)) {
        Ok(record_of(m.records, name_id(name)).target_address)
    } else {
        Err(RnsError::NameNotFound)
    }
}

impl RadixNameService {
    /// The registry invariant: record identifiers are distinct, and the
    /// deposit ledger balance equals the sum of the locked deposits of all
    /// live records. Every operation requires it and re-establishes it, so
    /// it holds after any sequence of calls on a freshly instantiated
    /// registry.
    pub open spec fn wf(self) -> bool {
        &&& distinct_ids(self@.records)
        &&& self@.deposit_balance == total_locked(self@.records)
    }

    /// Whether a live record exists under identifier `id`.
    pub open spec fn live(self, id: u128) -> bool {
        has_id(self@.records, id)
    }

    /// The live record under identifier `id`; meaningful when `live` holds.
    pub open spec fn record(self, id: u128) -> RecordModel {
        record_of(self@.records, id)
    }

    /// Creates a new registry with the given prices, holding no records and
    /// empty ledgers, and mints the one administrative badge.
    pub fn instantiate_rns(
        deposit_per_year: u128,
        fee_address_update: u128,
        fee_renewal_per_year: u128,
    ) -> (r: (RadixNameService, AdminBadge))
        ensures
            r.0.wf(),
            r.0@.records.len() == 0,
            r.0@.deposit_balance == 0,
            r.0@.fee_balance == 0,
            r.0@.deposit_per_year == deposit_per_year,
            r.0@.fee_address_update == fee_address_update,
            r.0@.fee_renewal_per_year == fee_renewal_per_year,
    {
        let service = RadixNameService {
            records: Vec::new(),
            deposit_balance: 0,
            fee_balance: 0,
            deposit_per_year,
            fee_address_update,
            fee_renewal_per_year,
        };
        proof {
            assert(service@.records =~= Seq::<RecordModel>::empty());
        }
        (service, AdminBadge { seal: () })
    }

    /// The position of the live record under `id`, if there is one.
    fn find_index(&self, id: u128) -> (r: Option<usize>)
        ensures
            match r {
                Some(i) => i < self@.records.len() && self@.records[i as int].record_id == id
                    && self.live(id),
                None => !self.live(id),
            },
    {
        let mut i: usize = 0;
        while i < self.records.len()
            invariant
                i <= self.records.len(),
                self@.records.len() == self.records@.len(),
                forall|j: int| 0 <= j < i ==> self@.records[j].record_id != id,
            decreases self.records.len() - i,
        {
            if self.records[i].record_id == id {
                return Some(i);
            }
            i = i + 1;
        }
        None
    }

    /// Checks the registry's domain-suffix policy on `name`.
    fn name_has_suffix(name: &str) -> (r: bool)
        ensures
            r == valid_name(name@),
    {
        let bytes = name.as_bytes();
        let n = bytes.len();
        if n < 4 {
            return false;
        }
        let b0 = *vstd::slice::slice_index_get(bytes, n - 4);
        let b1 = *vstd::slice::slice_index_get(bytes, n - 3);
        let b2 = *vstd::slice::slice_index_get(bytes, n - 2);
        let b3 = *vstd::slice::slice_index_get(bytes, n - 1);
        b0 == 46 && b1 == 120 && b2 == 114 && b3 == 100
    }

    /// Looks up the target address registered for `name`, or fails with
    /// `NameNotFound`. Expiry is deliberately not checked here, matching the
    /// lifecycle in which a lapsed record stays live until unregistered or
    /// swept.
    pub fn lookup_address(&self, name: &str) -> (result: Result<String, RnsError>)
        requires
            self.wf(),
        ensures
            result is Ok <==> lookup_spec(self@, name@) is Ok,
            result matches Ok(address) ==> lookup_spec(self@, name@) == Ok::<Seq<char>, RnsError>(
                address@,
            ),
            result matches Err(e) ==> lookup_spec(self@, name@) == Err::<Seq<char>, RnsError>(e),
    {
        let id = hash_name(name);
        match self.find_index(id) {
            Some(i) => {
                proof {
                    lemma_record_at(self@.records, i as int, id);
                }
                Ok(self.records[i].target_address.clone())
            },
            None => Err(RnsError::NameNotFound),
        }
    }

    /// Registers `name` to resolve to `target_address` for `reserve_years`
    /// years from `current_period`. The deposit of `deposit_per_year` per
    /// year is locked until the name is unregistered; the rest of the
    /// payment is returned as change, together with the freshly minted
    /// ownership certificate.
    pub fn register_name(
        &mut self,
        name: &str,
        target_address: String,
        reserve_years: u8,
        deposit: Funds,
        current_period: u64,
    ) -> (result: Result<(Certificate, Funds), RnsError>)
        requires
            old(self).wf(),
            register_required(old(self)@, reserve_years) <= u128::MAX,
            old(self)@.deposit_balance + register_required(old(self)@, reserve_years)
                <= u128::MAX,
            current_period + reserve_years * PERIODS_PER_YEAR <= u64::MAX,
        ensures
            final(self).wf(),
            match register_err(old(self)@, name@, reserve_years, deposit) {
                Some(e) => final(self)@ == old(self)@ && result == Err::<
                    (Certificate, Funds),
                    RnsError,
                >(e),
                None => {
                    &&& result is Ok
                    &&& result->Ok_0.0.spec_id() == name_id(name@)
                    &&& result->Ok_0.1 == (Funds {
                        currency: Currency::Custody,
                        amount: (deposit.amount - register_required(old(self)@, reserve_years)) as u128,
                    })
                    &&& final(self)@.records == old(self)@.records.push(
                        minted_record(
                            old(self)@,
                            name@,
                            target_address@,
                            reserve_years,
                            current_period,
                        ),
                    )
                    &&& final(self)@.deposit_balance == old(self)@.deposit_balance
                        + register_required(old(self)@, reserve_years)
                    &&& final(self)@.fee_balance == old(self)@.fee_balance
                    &&& final(self)@.deposit_per_year == old(self)@.deposit_per_year
                    &&& final(self)@.fee_address_update == old(self)@.fee_address_update
                    &&& final(self)@.fee_renewal_per_year == old(self)@.fee_renewal_per_year
                },
            },
    {
        if !Self::name_has_suffix(name) {
            return Err(RnsError::InvalidNameFormat);
        }
        if reserve_years == 0 {
            return Err(RnsError::ReserveDurationTooShort);
        }
        if deposit.currency != Currency::Custody {
            return Err(RnsError::WrongCurrency);
        }
        let id = hash_name(name);
        let required = self.deposit_per_year * (reserve_years as u128);
        let valid_until = current_period + crate::years_to_periods(reserve_years);
        if deposit.amount < required {
            return Err(RnsError::InsufficientPayment { required });
        }
        if self.find_index(id).is_some() {
            return Err(RnsError::DuplicateName);
        }
        let ghost pre = self@;
        let record = NameRecord {
            record_id: id,
            target_address,
            valid_until_period: valid_until,
            locked_deposit: required,
        };
        let ghost minted = record@;
        self.records.push(record);
        self.deposit_balance = self.deposit_balance + required;
        proof {
            assert(self@.records =~= pre.records.push(minted));
            lemma_total_locked_push(pre.records, minted);
            assert forall|i: int, j: int|
                0 <= i < self@.records.len() && 0 <= j < self@.records.len() && i != j
                    implies self@.records[i].record_id != self@.records[j].record_id by {
                if i < pre.records.len() && j < pre.records.len() {
                    assert(pre.records[i].record_id != pre.records[j].record_id);
                }
            }
        }
        Ok((
            Certificate { id },
            Funds { currency: Currency::Custody, amount: deposit.amount - required },
        ))
    }

    /// Updates the target address of the record owned by `name_nft`. The fee
    /// is routed to the fee ledger, is not added to the locked deposit, and
    /// is not returned on unregistration; overpaid fees come back as change.
    /// The lease deadline and the locked deposit are unchanged.
    pub fn update_address(
        &mut self,
        name_nft: &Certificate,
        new_address: String,
        fee: Funds,
    ) -> (result: Result<Funds, RnsError>)
        requires
            old(self).wf(),
            old(self)@.fee_balance + old(self)@.fee_address_update <= u128::MAX,
        ensures
            final(self).wf(),
            match update_err(old(self)@, name_nft.spec_id(), fee) {
                Some(e) => final(self)@ == old(self)@ && result == Err::<Funds, RnsError>(e),
                None => {
                    &&& result == Ok::<Funds, RnsError>(Funds {
                        currency: Currency::Custody,
                        amount: (fee.amount - old(self)@.fee_address_update) as u128,
                    })
                    &&& final(self)@.records == old(self)@.records.update(
                        index_of(old(self)@.records, name_nft.spec_id()),
                        (RecordModel {
                            target_address: new_address@,
                            ..record_of(old(self)@.records, name_nft.spec_id())
                        }),
                    )
                    &&& final(self)@.fee_balance == old(self)@.fee_balance
                        + old(self)@.fee_address_update
                    &&& final(self)@.deposit_balance == old(self)@.deposit_balance
                    &&& final(self)@.deposit_per_year == old(self)@.deposit_per_year
                    &&& final(self)@.fee_address_update == old(self)@.fee_address_update
                    &&& final(self)@.fee_renewal_per_year == old(self)@.fee_renewal_per_year
                },
            },
    {
        if fee.currency != Currency::Custody {
            return Err(RnsError::WrongCurrency);
        }
        let id = name_nft.id;
        let i = match self.find_index(id) {
            Some(i) => i,
            None => {
                return Err(RnsError::OwnershipProofInvalid);
            },
        };
        let required = self.fee_address_update;
        if fee.amount < required {
            return Err(RnsError::InsufficientPayment { required });
        }
        let ghost pre = self@;
        proof {
            lemma_record_at(pre.records, i as int, id);
        }
        let mut record = self.records.remove(i);
        record.target_address = new_address;
        let ghost updated = record@;
        self.records.insert(i, record);
        self.fee_balance = self.fee_balance + required;
        proof {
            assert(self@.records =~= pre.records.update(i as int, updated));
            lemma_total_locked_update(pre.records, i as int, updated);
            assert forall|a: int, b: int|
                0 <= a < self@.records.len() && 0 <= b < self@.records.len() && a != b
                    implies self@.records[a].record_id != self@.records[b].record_id by {
                assert(pre.records[a].record_id != pre.records[b].record_id);
            }
        }
        Ok(Funds { currency: Currency::Custody, amount: fee.amount - required })
    }

    /// Extends the lease of the record owned by `name_nft` by `renew_years`
    /// years. The extension is additive from the prior deadline, not from the
    /// current period: a lapsed name still extends from its original
    /// deadline. The fee is routed to the fee ledger; overpaid fees come back
    /// as change.
    pub fn renew_name(&mut self, name_nft: &Certificate, renew_years: u8, fee: Funds) -> (result:
        Result<Funds, RnsError>)
        requires
            old(self).wf(),
            renew_required(old(self)@, renew_years) <= u128::MAX,
            old(self)@.fee_balance + renew_required(old(self)@, renew_years) <= u128::MAX,
            old(self).live(name_nft.spec_id()) ==> old(self).record(
                name_nft.spec_id(),
            ).valid_until_period + renew_years * PERIODS_PER_YEAR <= u64::MAX,
        ensures
            final(self).wf(),
            match renew_err(old(self)@, name_nft.spec_id(), renew_years, fee) {
                Some(e) => final(self)@ == old(self)@ && result == Err::<Funds, RnsError>(e),
                None => {
                    &&& result == Ok::<Funds, RnsError>(Funds {
                        currency: Currency::Custody,
                        amount: (fee.amount - renew_required(old(self)@, renew_years)) as u128,
                    })
                    &&& final(self)@.records == old(self)@.records.update(
                        index_of(old(self)@.records, name_nft.spec_id()),
                        (RecordModel {
                            valid_until_period: (record_of(
                                old(self)@.records,
                                name_nft.spec_id(),
                            ).valid_until_period + renew_years * PERIODS_PER_YEAR) as u64,
                            ..record_of(old(self)@.records, name_nft.spec_id())
                        }),
                    )
                    &&& final(self)@.fee_balance == old(self)@.fee_balance + renew_required(
                        old(self)@,
                        renew_years,
                    )
                    &&& final(self)@.deposit_balance == old(self)@.deposit_balance
                    &&& final(self)@.deposit_per_year == old(self)@.deposit_per_year
                    &&& final(self)@.fee_address_update == old(self)@.fee_address_update
                    &&& final(self)@.fee_renewal_per_year == old(self)@.fee_renewal_per_year
                },
            },
    {
        if fee.currency != Currency::Custody {
            return Err(RnsError::WrongCurrency);
        }
        if renew_years == 0 {
            return Err(RnsError::ReserveDurationTooShort);
        }
        let id = name_nft.id;
        let i = match self.find_index(id) {
            Some(i) => i,
            None => {
                return Err(RnsError::OwnershipProofInvalid);
            },
        };
        let required = self.fee_renewal_per_year * (renew_years as u128);
        if fee.amount < required {
            return Err(RnsError::InsufficientPayment { required });
        }
        let ghost pre = self@;
        proof {
            lemma_record_at(pre.records, i as int, id);
        }
        let mut record = self.records.remove(i);
        record.valid_until_period = record.valid_until_period + crate::years_to_periods(
            renew_years,
        );
        let ghost updated = record@;
        self.records.insert(i, record);
        self.fee_balance = self.fee_balance + required;
        proof {
            assert(self@.records =~= pre.records.update(i as int, updated));
            lemma_total_locked_update(pre.records, i as int, updated);
            assert forall|a: int, b: int|
                0 <= a < self@.records.len() && 0 <= b < self@.records.len() && a != b
                    implies self@.records[a].record_id != self@.records[b].record_id by {
                assert(pre.records[a].record_id != pre.records[b].record_id);
            }
        }
        Ok(Funds { currency: Currency::Custody, amount: fee.amount - required })
    }

    /// Unregisters every name whose certificate is in the presented batch:
    /// the certificates are consumed, the records are destroyed, and the sum
    /// of their locked deposits is withdrawn from the deposit ledger and
    /// returned. On failure the whole call aborts, nothing changes, and the
    /// batch is handed back.
    pub fn unregister_name(&mut self, name_nft: Vec<Certificate>) -> (result: Result<
        Funds,
        (RnsError, Vec<Certificate>),
    >)
        requires
            old(self).wf(),
        ensures
            final(self).wf(),
            match unregister_err(old(self)@, cert_ids(name_nft@)) {
                Some(e) => {
                    &&& final(self)@ == old(self)@
                    &&& result matches Err(back) && back.0 == e && back.1@ =~= name_nft@
                },
                None => {
                    &&& result == Ok::<Funds, (RnsError, Vec<Certificate>)>(Funds {
                        currency: Currency::Custody,
                        amount: refund_total(old(self)@, cert_ids(name_nft@)) as u128,
                    })
                    &&& forall|id: u128|
                        has_id(final(self)@.records, id) <==> (has_id(old(self)@.records, id)
                            && !cert_ids(name_nft@).contains(id))
                    &&& forall|id: u128|
                        has_id(final(self)@.records, id) ==> record_of(final(self)@.records, id)
                            == record_of(old(self)@.records, id)
                    &&& final(self)@.deposit_balance == old(self)@.deposit_balance - refund_total(
                        old(self)@,
                        cert_ids(name_nft@),
                    )
                    &&& final(self)@.fee_balance == old(self)@.fee_balance
                    &&& final(self)@.deposit_per_year == old(self)@.deposit_per_year
                    &&& final(self)@.fee_address_update == old(self)@.fee_address_update
                    &&& final(self)@.fee_renewal_per_year == old(self)@.fee_renewal_per_year
                },
            },
    {
        let ghost ids = cert_ids(name_nft@);
        if name_nft.is_empty() {
            return Err((RnsError::InvalidOrEmptyCertificate, name_nft));
        }
        // First pass: every certificate must name a live record, and no
        // identifier may be presented twice; otherwise nothing changes.
        let mut ids_v: Vec<u128> = Vec::new();
        let mut k: usize = 0;
        while k < name_nft.len()
            invariant
                k <= name_nft@.len(),
                ids == cert_ids(name_nft@),
                ids_v@ == ids.take(k as int),
                self.wf(),
                *self == *old(self),
                forall|a: int| 0 <= a < k ==> has_id(self@.records, #[trigger] ids[a]),
                forall|a: int, b: int| 0 <= a < b < k ==> ids[a] != ids[b],
            decreases name_nft@.len() - k,
        {
            let id_k = name_nft[k].record_id();
            if self.find_index(id_k).is_none() {
                proof {
                    assert(!has_id(self@.records, ids[k as int]));
                }
                return Err((RnsError::OwnershipProofInvalid, name_nft));
            }
            let mut j: usize = 0;
            while j < k
                invariant
                    j <= k,
                    k < name_nft@.len(),
                    ids == cert_ids(name_nft@),
                    id_k == ids[k as int],
                    self.wf(),
                    *self == *old(self),
                    forall|a: int| 0 <= a < j ==> ids[a] != ids[k as int],
                decreases k - j,
            {
                if name_nft[j].record_id() == id_k {
                    proof {
                        assert(ids[j as int] == ids[k as int]);
                        assert(!certs_valid(self@, ids));
                    }
                    return Err((RnsError::OwnershipProofInvalid, name_nft));
                }
                j = j + 1;
            }
            ids_v.push(id_k);
            k = k + 1;
            proof {
                assert(ids_v@ =~= ids.take(k as int));
            }
        }
        let ghost pre = self@;
        proof {
            assert(ids_v@ =~= ids);
            assert(certs_valid(pre, ids));
        }
        let total = self.remove_all(&ids_v);
        proof {
            crate::types::lemma_total_locked_nonneg(self@.records);
            assert(ids_v@ == ids);
        }
        self.deposit_balance = self.deposit_balance - total;
        Ok(Funds { currency: Currency::Custody, amount: total })
    }

    /// Burns the record of every identifier in the batch and returns the sum
    /// of their locked deposits. The deposit ledger balance is left for the
    /// caller to settle.
    fn remove_all(&mut self, ids_v: &Vec<u128>) -> (total: u128)
        requires
            old(self).wf(),
            certs_valid(old(self)@, ids_v@),
        ensures
            distinct_ids(final(self)@.records),
            forall|id: u128|
                (#[trigger] has_id(final(self)@.records, id)) <==> (has_id(
                    old(self)@.records,
                    id,
                ) && !ids_v@.contains(id)),
            forall|id: u128|
                has_id(final(self)@.records, id) ==> record_of(final(self)@.records, id)
                    == record_of(old(self)@.records, id),
            total == refund_total(old(self)@, ids_v@),
            total == total_locked(old(self)@.records) - total_locked(final(self)@.records),
            final(self)@.deposit_balance == old(self)@.deposit_balance,
            final(self)@.fee_balance == old(self)@.fee_balance,
            final(self)@.deposit_per_year == old(self)@.deposit_per_year,
            final(self)@.fee_address_update == old(self)@.fee_address_update,
            final(self)@.fee_renewal_per_year == old(self)@.fee_renewal_per_year,
    {
        let ghost ids = ids_v@;
        let ghost pre = self@;
        let mut total: u128 = 0;
        let mut k: usize = 0;
        while k < ids_v.len()
            invariant
                k <= ids.len(),
                ids == ids_v@,
                certs_valid(pre, ids),
                pre.deposit_balance == total_locked(pre.records),
                distinct_ids(self@.records),
                forall|id: u128|
                    has_id(self@.records, id) <==> (has_id(pre.records, id) && !ids.take(
                        k as int,
                    ).contains(id)),
                forall|id: u128|
                    has_id(self@.records, id) ==> record_of(self@.records, id) == record_of(
                        pre.records,
                        id,
                    ),
                total == refund_total(pre, ids.take(k as int)),
                total == total_locked(pre.records) - total_locked(self@.records),
                self@.deposit_balance == pre.deposit_balance,
                self@.fee_balance == pre.fee_balance,
                self@.deposit_per_year == pre.deposit_per_year,
                self@.fee_address_update == pre.fee_address_update,
                self@.fee_renewal_per_year == pre.fee_renewal_per_year,
            decreases ids.len() - k,
        {
            let id_k = ids_v[k];
            proof {
                assert(has_id(pre.records, ids[k as int]));
                assert(!ids.take(k as int).contains(id_k)) by {
                    if ids.take(k as int).contains(id_k) {
                        let a = choose|a: int|
                            0 <= a < k && ids.take(k as int)[a] == id_k;
                        assert(ids[a] == ids[k as int]);
                    }
                }
            }
            let i = match self.find_index(id_k) {
                Some(i) => i,
                None => {
                    proof {
                        assert(has_id(self@.records, id_k));
                        assert(false);
                    }
                    0
                },
            };
            let ghost cur = self@;
            proof {
                lemma_record_at(cur.records, i as int, id_k);
                lemma_total_locked_remove(cur.records, i as int);
                crate::types::lemma_total_locked_nonneg(cur.records.remove(i as int));
            }
            let rec = self.records.remove(i);
            proof {
                assert(self@.records =~= cur.records.remove(i as int));
            }
            total = total + rec.locked_deposit;
            k = k + 1;
            proof {
                assert(ids.take(k as int).drop_last() =~= ids.take(k - 1));
                assert(ids.take(k as int).last() == ids[k - 1]);
                assert(record_of(pre.records, ids[k - 1]) == record_of(cur.records, id_k));
                assert(record_of(cur.records, id_k).locked_deposit == rec@.locked_deposit);
                assert forall|id: u128| has_id(self@.records, id) implies (has_id(pre.records, id)
                    && !ids.take(k as int).contains(id)) by {
                    let w = choose|w: int|
                        0 <= w < self@.records.len() && self@.records[w].record_id == id;
                    let v = if w < i { w } else { w + 1 };
                    assert(cur.records[v].record_id == id);
                    assert(has_id(cur.records, id));
                    if ids.take(k as int).contains(id) {
                        let a = choose|a: int| 0 <= a < k && ids.take(k as int)[a] == id;
                        assert(ids[a] == id);
                        if a < k - 1 {
                            assert(ids.take(k - 1).contains(id)) by {
                                assert(ids.take(k - 1)[a] == id);
                            }
                        } else {
                            assert(id == id_k);
                            lemma_record_at(cur.records, i as int, id_k);
                            assert(cur.records[v].record_id == cur.records[i as int].record_id);
                        }
                    }
                }
                assert forall|id: u128| has_id(pre.records, id) && !ids.take(k as int).contains(
                    id,
                ) implies has_id(self@.records, id) by {
                    assert(!ids.take(k - 1).contains(id)) by {
                        if ids.take(k - 1).contains(id) {
                            let a = choose|a: int|
                                0 <= a < k - 1 && (#[trigger] ids.take(k - 1)[a]) == id;
                            assert(ids.take(k as int)[a] == id);
                        }
                    }
                    assert(id != id_k) by {
                        assert(ids.take(k as int)[k - 1] == id_k);
                    }
                    assert(has_id(cur.records, id));
                    let w = choose|w: int|
                        0 <= w < cur.records.len() && cur.records[w].record_id == id;
                    assert(w != i);
                    let v = if w < i { w } else { w - 1 };
                    assert(self@.records[v].record_id == id);
                }
                assert forall|id: u128| has_id(self@.records, id) implies record_of(
                    self@.records,
                    id,
                ) == record_of(pre.records, id) by {
                    let w = index_of(self@.records, id);
                    assert(0 <= w < self@.records.len() && self@.records[w].record_id == id);
                    let v = if w < i { w } else { w + 1 };
                    assert(cur.records[v].record_id == id);
                    lemma_record_at(cur.records, v, id);
                    assert(record_of(self@.records, id) == self@.records[w]);
                    assert(self@.records[w] == cur.records[v]);
                }
            }
        }
        proof {
            assert(ids.take(ids.len() as int) =~= ids);
        }
        total
    }

    /// Burns every record whose lease lapsed before `current_period`. Only
    /// the holder of the administrative badge can call this; the period is
    /// read off the external counter by the caller.
    ///
    /// Policy: the locked deposits of swept records are forfeited to the fee
    /// ledger. The certificate is a bearer instrument and the registry keeps
    /// no owner table, so once the record is burned there is nobody to pay a
    /// refund to; a certificate whose record was swept no longer proves
    /// ownership, and later calls presenting it fail with
    /// `OwnershipProofInvalid`.
    pub fn burn_expired_names(&mut self, _admin: &AdminBadge, current_period: u64)
        requires
            old(self).wf(),
            old(self)@.fee_balance + old(self)@.deposit_balance <= u128::MAX,
        ensures
            final(self).wf(),
            forall|id: u128|
                (#[trigger] has_id(final(self)@.records, id)) <==> (has_id(
                    old(self)@.records,
                    id,
                ) && record_of(old(self)@.records, id).valid_until_period >= current_period),
            forall|id: u128|
                has_id(final(self)@.records, id) ==> record_of(final(self)@.records, id)
                    == record_of(old(self)@.records, id),
            final(self)@.deposit_balance == old(self)@.deposit_balance - refund_total(
                old(self)@,
                expired_ids(old(self)@.records, current_period),
            ),
            final(self)@.fee_balance == old(self)@.fee_balance + (old(self)@.deposit_balance
                - final(self)@.deposit_balance),
            final(self)@.deposit_per_year == old(self)@.deposit_per_year,
            final(self)@.fee_address_update == old(self)@.fee_address_update,
            final(self)@.fee_renewal_per_year == old(self)@.fee_renewal_per_year,
    {
        let ghost pre = self@;
        // Collect the identifiers of the expired records, in store order.
        let mut expired: Vec<u128> = Vec::new();
        let mut i: usize = 0;
        while i < self.records.len()
            invariant
                *self == *old(self),
                self.wf(),
                i <= self.records@.len(),
                expired@ == expired_ids(self@.records.take(i as int), current_period),
            decreases self.records@.len() - i,
        {
            proof {
                assert(self@.records.take(i + 1).drop_last() =~= self@.records.take(i as int));
                assert(self@.records.take(i + 1).last() == self@.records[i as int]);
            }
            if self.records[i].valid_until_period < current_period {
                expired.push(self.records[i].record_id);
            }
            i = i + 1;
        }
        proof {
            assert(self@.records.take(self@.records.len() as int) =~= self@.records);
            lemma_expired_ids(pre.records, current_period);
            assert(certs_valid(pre, expired@)) by {
                assert forall|a: int| 0 <= a < expired@.len() implies has_id(
                    pre.records,
                    #[trigger] expired@[a],
                ) by {
                    assert(expired@.contains(expired@[a]));
                }
            }
        }
        // Burn them and forfeit their deposits to the fee ledger.
        let total = self.remove_all(&expired);
        proof {
            crate::types::lemma_total_locked_nonneg(self@.records);
            assert forall|id: u128| has_id(self@.records, id) <==> (has_id(pre.records, id)
                && record_of(pre.records, id).valid_until_period >= current_period) by {
                assert(has_id(self@.records, id) <==> (has_id(pre.records, id)
                    && !expired@.contains(id)));
            }
        }
        self.deposit_balance = self.deposit_balance - total;
        self.fee_balance = self.fee_balance + total;
    }

    /// Drains the fee ledger in full; partial withdrawal is not offered.
    /// Only the holder of the administrative badge can call this.
    pub fn withdraw_fees(&mut self, _admin: &AdminBadge) -> (fees: Funds)
        requires
            old(self).wf(),
        ensures
            final(self).wf(),
            fees == (Funds { currency: Currency::Custody, amount: old(self)@.fee_balance }),
            final(self)@.fee_balance == 0,
            final(self)@.records == old(self)@.records,
            final(self)@.deposit_balance == old(self)@.deposit_balance,
            final(self)@.deposit_per_year == old(self)@.deposit_per_year,
            final(self)@.fee_address_update == old(self)@.fee_address_update,
            final(self)@.fee_renewal_per_year == old(self)@.fee_renewal_per_year,
    {
        let amount = self.fee_balance;
        self.fee_balance = 0;
        Funds { currency: Currency::Custody, amount }
    }

    /// The deposit ledger balance: the custody the registry holds on behalf
    /// of record owners.
    pub fn deposit_ledger_balance(&self) -> (balance: u128)
        ensures
            balance == self@.deposit_balance,
    {
        self.deposit_balance
    }

    /// The fee ledger balance: the custody the registry holds for its
    /// operator.
    pub fn fee_ledger_balance(&self) -> (balance: u128)
        ensures
            balance == self@.fee_balance,
    {
        self.fee_balance
    }

    /// The period after which the record for `name` expires, or
    /// `NameNotFound` if no live record exists for it.
    pub fn valid_until(&self, name: &str) -> (result: Result<u64, RnsError>)
        requires
            self.wf(),
        ensures
            self.live(name_id(name@)) ==> result == Ok::<u64, RnsError>(
                self.record(name_id(name@)).valid_until_period,
            ),
            !self.live(name_id(name@)) ==> result == Err::<u64, RnsError>(RnsError::NameNotFound),
    {
        let id = hash_name(name);
        match self.find_index(id) {
            Some(i) => {
                proof {
                    lemma_record_at(self@.records, i as int, id);
                }
                Ok(self.records[i].valid_until_period)
            },
            None => Err(RnsError::NameNotFound),
        }
    }
}

} // verus!
