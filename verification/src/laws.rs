use vstd::prelude::*;

use crate::addressing::{derived_of, tag_seq};
use crate::errors::CustomError;
use crate::keys::KEY_LEN;
use crate::record::{
    lemma_count_update, lemma_encode_fields, rec_authority, rec_count, wrap_inc, RECORD_SIZE,
};
use crate::service::{spec_increment, spec_initialize};

verus! {

/// Whether derivation succeeds for `signer` inside the `program`
/// namespace.
pub open spec fn derivation_ok(signer: Seq<u8>, program: Seq<u8>) -> bool {
    derived_of(tag_seq(), signer, program) is Some
}

/// The derived address of `signer`'s record inside the `program`
/// namespace, when derivation succeeds.
pub open spec fn address_for(signer: Seq<u8>, program: Seq<u8>) -> Seq<u8> {
    match derived_of(tag_seq(), signer, program) {
        Some(p) => p.0,
        None => Seq::empty(),
    }
}

/// Initializing a record and then incrementing it as its owner succeeds,
/// and leaves the owner's record holding the successor of the initial
/// count under unsigned 8-bit wraparound, with the owner still the
/// authority.
pub proof fn lemma_initialize_then_increment(
    m: Map<Seq<u8>, Seq<u8>>,
    program: Seq<u8>,
    signer: Seq<u8>,
    payer_funds: u64,
    count: u8,
)
    requires
        signer.len() == KEY_LEN,
        derivation_ok(signer, program),
        !m.contains_key(address_for(signer, program)),
        payer_funds >= RECORD_SIZE as u64,
    ensures
        ({
            let (r1, m1) = spec_initialize(m, program, signer, payer_funds, count);
            let (r2, m2) = spec_increment(m1, program, signer);
            let addr = address_for(signer, program);
            r1 == Ok::<(), CustomError>(()) && r2 == Ok::<(), CustomError>(()) && rec_count(
                m2[addr],
            ) == wrap_inc(count) && rec_authority(m2[addr]) == signer
        }),
{
    let addr = address_for(signer, program);
    lemma_encode_fields(count, signer);
    let (r1, m1) = spec_initialize(m, program, signer, payer_funds, count);
    assert(rec_count(m1[addr]) == count);
    assert(rec_authority(m1[addr]) == signer);
    lemma_count_update(m1[addr], wrap_inc(count));
}

/// A second `initialize` by the same owner fails with `AlreadyExists` and
/// leaves the store, and in particular the record the first call wrote,
/// unchanged.
pub proof fn lemma_reinitialize_fails(
    m: Map<Seq<u8>, Seq<u8>>,
    program: Seq<u8>,
    signer: Seq<u8>,
    funds1: u64,
    funds2: u64,
    count1: u8,
    count2: u8,
)
    requires
        signer.len() == KEY_LEN,
        derivation_ok(signer, program),
        !m.contains_key(address_for(signer, program)),
        funds1 >= RECORD_SIZE as u64,
    ensures
        ({
            let (r1, m1) = spec_initialize(m, program, signer, funds1, count1);
            let (r2, m2) = spec_initialize(m1, program, signer, funds2, count2);
            let addr = address_for(signer, program);
            r1 is Ok && r2 == Err::<(), CustomError>(CustomError::AlreadyExists) && m2 == m1
                && rec_count(m1[addr]) == count1 && rec_authority(m1[addr]) == signer
        }),
{
    lemma_encode_fields(count1, signer);
}

/// Incrementing as an owner that has never initialized a record fails
/// with `NotFound` and changes nothing, provided the two owners' derived
/// addresses are distinct, as the derivation's collision resistance makes
/// overwhelmingly likely for distinct owners.
pub proof fn lemma_increment_without_record(
    m: Map<Seq<u8>, Seq<u8>>,
    program: Seq<u8>,
    owner_a: Seq<u8>,
    funds: u64,
    count: u8,
    owner_b: Seq<u8>,
)
    requires
        owner_a.len() == KEY_LEN,
        derivation_ok(owner_a, program),
        derivation_ok(owner_b, program),
        !m.contains_key(address_for(owner_a, program)),
        !m.contains_key(address_for(owner_b, program)),
        address_for(owner_b, program) != address_for(owner_a, program),
        funds >= RECORD_SIZE as u64,
    ensures
        ({
            let (r1, m1) = spec_initialize(m, program, owner_a, funds, count);
            let (r2, m2) = spec_increment(m1, program, owner_b);
            r1 is Ok && r2 == Err::<(), CustomError>(CustomError::NotFound) && m2 == m1
        }),
{
}

/// No operation leads a record back to nonexistence: `initialize` only
/// adds a record and `increment` only rewrites one in place.
pub proof fn lemma_records_never_destroyed(
    m: Map<Seq<u8>, Seq<u8>>,
    program: Seq<u8>,
    signer: Seq<u8>,
    funds: u64,
    count: u8,
)
    ensures
        ({
            let (r1, m1) = spec_initialize(m, program, signer, funds, count);
            forall|a: Seq<u8>| #[trigger] m.contains_key(a) ==> m1.contains_key(a)
        }),
        ({
            let (r2, m2) = spec_increment(m, program, signer);
            forall|a: Seq<u8>| #[trigger] m.contains_key(a) ==> m2.contains_key(a)
        }),
{
}

/// The stored authority of every record is immutable under `increment`:
/// the operation touches at most the count byte of its caller's own
/// record.
pub proof fn lemma_increment_preserves_authorities(
    m: Map<Seq<u8>, Seq<u8>>,
    program: Seq<u8>,
    signer: Seq<u8>,
)
    requires
        forall|a: Seq<u8>| m.contains_key(a) ==> (#[trigger] m[a]).len() == RECORD_SIZE,
    ensures
        ({
            let (r, m2) = spec_increment(m, program, signer);
            forall|a: Seq<u8>|
                m.contains_key(a) ==> m2.contains_key(a) && rec_authority(#[trigger] m2[a])
                    == rec_authority(m[a])
        }),
{
    let (r, m2) = spec_increment(m, program, signer);
    if r is Ok {
        let addr = address_for(signer, program);
        lemma_count_update(m[addr], wrap_inc(rec_count(m[addr])));
    }
}

/// A caller other than the stored authority is turned away with
/// `Unauthorized` and the record is left unchanged. The target of an
/// `increment` is always the caller's own derived address, so reaching
/// another owner's record at all supposes that the intruder's derivation
/// lands on the owner's address.
pub proof fn lemma_increment_unauthorized(
    m: Map<Seq<u8>, Seq<u8>>,
    program: Seq<u8>,
    owner: Seq<u8>,
    funds: u64,
    count: u8,
    intruder: Seq<u8>,
)
    requires
        owner.len() == KEY_LEN,
        intruder != owner,
        derivation_ok(owner, program),
        derivation_ok(intruder, program),
        address_for(intruder, program) == address_for(owner, program),
        !m.contains_key(address_for(owner, program)),
        funds >= RECORD_SIZE as u64,
    ensures
        ({
            let (r1, m1) = spec_initialize(m, program, owner, funds, count);
            let (r2, m2) = spec_increment(m1, program, intruder);
            let addr = address_for(owner, program);
            r1 is Ok && r2 == Err::<(), CustomError>(CustomError::Unauthorized) && m2 == m1
                && rec_count(m1[addr]) == count
        }),
{
    lemma_encode_fields(count, owner);
}

} // verus!
