//! Plain data carried across the registry's boundary: payments, records,
//! and the error taxonomy, together with the spec-level model of a record
//! store and the lemmas about its aggregate deposit sum.

use vstd::prelude::*;

verus! {

/// The currency a payment is denominated in, as the registry reads it:
/// either the single custody currency it accepts, or anything else.
#[derive(Clone, Copy, PartialEq, Eq, Structural, Debug)]
pub enum Currency {
    Custody,
    Foreign,
}

/// A quantity of tokens handed to or returned by the registry. An amount
/// counts the custody currency's smallest indivisible subunit, so all
/// monetary arithmetic is exact fixed-point arithmetic.
#[derive(Clone, Copy, PartialEq, Eq, Structural, Debug)]
pub struct Funds {
    pub currency: Currency,
    pub amount: u128,
}

/// The single failing condition of an aborted call. Every failure leaves the
/// registry exactly as it was: no partial state change survives.
#[derive(Clone, Copy, PartialEq, Eq, Structural, Debug)]
pub enum RnsError {
    /// The name does not satisfy the registry's domain-suffix policy.
    InvalidNameFormat,
    /// A reservation or renewal must cover at least one year.
    ReserveDurationTooShort,
    /// The payment is not denominated in the custody currency.
    WrongCurrency,
    /// The payment is smaller than the restated minimum `required`.
    InsufficientPayment { required: u128 },
    /// A live record already exists under the name's derived identifier.
    DuplicateName,
    /// No live record exists under the name's derived identifier.
    NameNotFound,
    /// No certificate was presented where at least one is needed.
    InvalidOrEmptyCertificate,
    /// A presented certificate does not prove ownership of a live record.
    OwnershipProofInvalid,
    /// Reserved for administrative misuse. In this registry administrative
    /// authority is possession of the `AdminBadge` value itself, so no call
    /// path produces this value.
    Unauthorized,
}

/// A live name record: the derived identifier doubles as the map key, the
/// target address is what the name resolves to, the lease runs until
/// `valid_until_period` on the external period counter, and `locked_deposit`
/// is the refundable amount backing the record.
pub struct NameRecord {
    pub record_id: u128,
    pub target_address: String,
    pub valid_until_period: u64,
    pub locked_deposit: u128,
}

/// The mathematical image of a `NameRecord`.
pub ghost struct RecordModel {
    pub record_id: u128,
    pub target_address: Seq<char>,
    pub valid_until_period: u64,
    pub locked_deposit: u128,
}

impl View for NameRecord {
    type V = RecordModel;

    open spec fn view(&self) -> RecordModel {
        RecordModel {
            record_id: self.record_id,
            target_address: self.target_address@,
            valid_until_period: self.valid_until_period,
            locked_deposit: self.locked_deposit,
        }
    }
}

/// Whether a live record exists under identifier `id`.
pub open spec fn has_id(records: Seq<RecordModel>, id: u128) -> bool {
    exists|i: int| 0 <= i < records.len() && records[i].record_id == id
}

/// The position of the record under `id`; meaningful when `has_id` holds.
pub open spec fn index_of(records: Seq<RecordModel>, id: u128) -> int {
    choose|i: int| 0 <= i < records.len() && records[i].record_id == id
}

/// The record stored under `id`; meaningful when `has_id` holds.
pub open spec fn record_of(records: Seq<RecordModel>, id: u128) -> RecordModel {
    records[index_of(records, id)]
}

/// No two records share an identifier; insertion under a live key fails
/// rather than overwrites, so this holds of every reachable store.
pub open spec fn distinct_ids(records: Seq<RecordModel>) -> bool {
    forall|i: int, j: int|
        0 <= i < records.len() && 0 <= j < records.len() && i != j
            ==> records[i].record_id != records[j].record_id
}

/// The sum of the locked deposits of all records in the store.
pub open spec fn total_locked(records: Seq<RecordModel>) -> int
    decreases records.len(),
{
    if records.len() == 0 {
        0
    } else {
        total_locked(records.drop_last()) + records.last().locked_deposit
    }
}

pub proof fn lemma_total_locked_nonneg(records: Seq<RecordModel>)
    ensures
        total_locked(records) >= 0,
    decreases records.len(),
{
    if records.len() > 0 {
        lemma_total_locked_nonneg(records.drop_last());
    }
}

pub proof fn lemma_total_locked_push(records: Seq<RecordModel>, r: RecordModel)
    ensures
        total_locked(records.push(r)) == total_locked(records) + r.locked_deposit,
{
    assert(records.push(r).drop_last() =~= records);
}

pub proof fn lemma_total_locked_remove(records: Seq<RecordModel>, i: int)
    requires
        0 <= i < records.len(),
    ensures
        total_locked(records.remove(i)) == total_locked(records) - records[i].locked_deposit,
    decreases records.len(),
{
    if i == records.len() - 1 {
        assert(records.remove(i) =~= records.drop_last());
    } else {
        lemma_total_locked_remove(records.drop_last(), i);
        assert(records.remove(i).drop_last() =~= records.drop_last().remove(i));
        assert(records.remove(i).last() == records.last());
    }
}

pub proof fn lemma_total_locked_update(records: Seq<RecordModel>, i: int, r: RecordModel)
    requires
        0 <= i < records.len(),
    ensures
        total_locked(records.update(i, r)) == total_locked(records) - records[i].locked_deposit
            + r.locked_deposit,
    decreases records.len(),
{
    if i == records.len() - 1 {
        assert(records.update(i, r).drop_last() =~= records.drop_last());
        assert(records.update(i, r).last() == r);
    } else {
        lemma_total_locked_update(records.drop_last(), i, r);
        assert(records.update(i, r).drop_last() =~= records.drop_last().update(i, r));
        assert(records.update(i, r).last() == records.last());
    }
}

/// In a store with distinct identifiers, the record found at a position with
/// a matching identifier is the record of that identifier.
pub proof fn lemma_record_at(records: Seq<RecordModel>, i: int, id: u128)
    requires
        distinct_ids(records),
        0 <= i < records.len(),
        records[i].record_id == id,
    ensures
        index_of(records, id) == i,
        record_of(records, id) == records[i],
        has_id(records, id),
{
    assert(has_id(records, id));
    let j = index_of(records, id);
    assert(0 <= j < records.len() && records[j].record_id == id);
}

} // verus!
