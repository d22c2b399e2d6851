//! The registry's general laws, stated over the spec-level model that the
//! operations' contracts are written in, and proved from those contracts.

use vstd::prelude::*;

use crate::ids::name_id;
use crate::registry::{
    lookup_spec, minted_record, register_err, register_required, RadixNameService, ServiceModel,
};
use crate::types::{has_id, index_of, record_of, total_locked, Currency, Funds, RnsError};

verus! {

/// Law: after a successful registration of `name` with target address
/// `target`, a lookup of `name` on the resulting state returns `target`.
///
/// The premises are exactly what `register_name` ensures of a successful
/// call: no failing condition held, and the minted record was appended.
pub proof fn lemma_register_then_lookup(
    pre: ServiceModel,
    post: ServiceModel,
    name: Seq<char>,
    target: Seq<char>,
    years: u8,
    deposit: Funds,
    period: u64,
)
    requires
        register_err(pre, name, years, deposit) is None,
        post.records == pre.records.push(minted_record(pre, name, target, years, period)),
    ensures
        lookup_spec(post, name) == Ok::<Seq<char>, RnsError>(target),
{
    let id = name_id(name);
    let n = pre.records.len() as int;
    assert(post.records[n].record_id == id);
    assert(has_id(post.records, id));
    let j = index_of(post.records, id);
    assert(0 <= j < post.records.len() && post.records[j].record_id == id);
    if j < n {
        assert(pre.records[j].record_id == id);
        assert(has_id(pre.records, id));
    }
    assert(record_of(post.records, id) == minted_record(pre, name, target, years, period));
}

/// Law (deposit invariant): in a well-formed registry the deposit ledger
/// balance equals the sum of the locked deposits over all live records.
/// Every operation requires well-formedness and re-establishes it, so the
/// invariant holds between any two calls in any sequence of operations on a
/// freshly instantiated registry.
pub proof fn lemma_deposit_invariant(service: RadixNameService)
    requires
        service.wf(),
    ensures
        service@.deposit_balance == total_locked(service@.records),
{
}

/// Law: when the name is well-formed and the payment suffices, registering
/// a name fails with `DuplicateName` exactly while a live record exists
/// under its identifier — and succeeds as soon as none does, for instance
/// right after the earlier registration was unregistered.
pub proof fn lemma_duplicate_name(m: ServiceModel, name: Seq<char>, years: u8, deposit: Funds)
    requires
        crate::registry::valid_name(name),
        years >= 1,
        deposit.currency == Currency::Custody,
        deposit.amount >= register_required(m, years),
    ensures
        has_id(m.records, name_id(name)) ==> register_err(m, name, years, deposit) == Some(
            RnsError::DuplicateName,
        ),
        !has_id(m.records, name_id(name)) ==> register_err(m, name, years, deposit) is None,
{
}

/// Law: a lookup of a name with no live record — one never registered, or
/// one whose record is gone — fails with `NameNotFound`.
pub proof fn lemma_lookup_unregistered(m: ServiceModel, name: Seq<char>)
    requires
        !has_id(m.records, name_id(name)),
    ensures
        lookup_spec(m, name) == Err::<Seq<char>, RnsError>(RnsError::NameNotFound),
{
}

} // verus!
