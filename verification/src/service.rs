use vstd::prelude::*;

use crate::addressing::{derive_record_address, derived_of, tag_seq};
use crate::errors::CustomError;
use crate::keys::Identity;
use crate::record::{
    decode_record, encode_record, encode_spec, lemma_count_update, rec_authority, rec_count,
    wrap_inc, HEADER_LEN, RECORD_SIZE,
};
use crate::store::RecordStore;

verus! {

/// The accounts taking part in `initialize`: the signing caller, who also
/// acts as the payer of the allocation, with the funds it disposes of.
pub struct Initialize {
    pub signer: Identity,
    pub payer_funds: u64,
}

/// The accounts taking part in `increment`: the signing caller. The target
/// record is implicit: the one at the caller's own derived address.
pub struct Increment {
    pub signer: Identity,
}

/// What `initialize` returns and how it changes the store's contents, as
/// a function of the old contents, the program namespace, the caller, its
/// funds and the initial count.
pub open spec fn spec_initialize(
    m: Map<Seq<u8>, Seq<u8>>,
    program: Seq<u8>,
    signer: Seq<u8>,
    payer_funds: u64,
    count: u8,
) -> (Result<(), CustomError>, Map<Seq<u8>, Seq<u8>>) {
    match derived_of(tag_seq(), signer, program) {
        None => (Err(CustomError::DerivationExhausted), m),
        Some((addr, bump)) => if m.contains_key(addr) {
            (Err(CustomError::AlreadyExists), m)
        } else if payer_funds < RECORD_SIZE as u64 {
            (Err(CustomError::InsufficientFunds), m)
        } else {
            (Ok(()), m.insert(addr, encode_spec(count, signer)))
        },
    }
}

/// What `increment` returns and how it changes the store's contents: the
/// count byte of the caller's record is replaced by its successor under
/// 8-bit wraparound, and nothing else changes.
pub open spec fn spec_increment(m: Map<Seq<u8>, Seq<u8>>, program: Seq<u8>, signer: Seq<u8>) -> (
    Result<(), CustomError>,
    Map<Seq<u8>, Seq<u8>>,
) {
    match derived_of(tag_seq(), signer, program) {
        None => (Err(CustomError::DerivationExhausted), m),
        Some((addr, bump)) => if !m.contains_key(addr) {
            (Err(CustomError::NotFound), m)
        } else if rec_authority(m[addr]) != signer {
            (Err(CustomError::Unauthorized), m)
        } else {
            (
                Ok(()),
                m.insert(addr, m[addr].update(HEADER_LEN as int, wrap_inc(rec_count(m[addr])))),
            )
        },
    }
}

/// Creates the caller's counter record at its derived address, with the
/// caller as authority and `count` as the initial count; the caller also
/// funds the allocation. The call fails when the derivation search space
/// is exhausted, when a record already exists at the derived address, or
/// when the payer cannot cover the allocation cost; a failed call changes
/// nothing.
pub fn initialize(
    store: &mut RecordStore,
    program_id: &Identity,
    ctx: &Initialize,
    count: u8,
) -> (r: Result<(), CustomError>)
    requires
        old(store).wf(),
        old(store).record_size_spec() == RECORD_SIZE,
        program_id.wf(),
        ctx.signer.wf(),
    ensures
        final(store).wf(),
        final(store).record_size_spec() == RECORD_SIZE,
        ({
            let (res, m) = spec_initialize(
                old(store).contents(),
                program_id@,
                ctx.signer@,
                ctx.payer_funds,
                count,
            );
            r == res && final(store).contents() == m
        }),
{
    let (addr, _bump) = match derive_record_address(&ctx.signer, program_id) {
        Ok(p) => p,
        Err(e) => {
            return Err(e);
        },
    };
    match store.allocate(&addr, RECORD_SIZE, ctx.payer_funds) {
        Ok(()) => {},
        Err(e) => {
            return Err(e);
        },
    }
    let data = encode_record(count, &ctx.signer);
    match store.write(&addr, data) {
        Ok(()) => {
            proof {
                assert(store.contents() =~= old(store).contents().insert(
                    addr@,
                    encode_spec(count, ctx.signer@),
                ));
            }
            Ok(())
        },
        Err(e) => {
            proof {
                assert(false);
            }
            Err(e)
        },
    }
}

/// Replaces the count of the caller's counter record by its successor
/// under unsigned 8-bit wraparound, after checking that the caller's
/// identity equals the record's stored authority, by exact value equality
/// over the full identity. The check precedes any mutation, so a failed
/// call changes nothing.
pub fn increment(store: &mut RecordStore, program_id: &Identity, ctx: &Increment) -> (r: Result<
    (),
    CustomError,
>)
    requires
        old(store).wf(),
        old(store).record_size_spec() == RECORD_SIZE,
        program_id.wf(),
        ctx.signer.wf(),
    ensures
        final(store).wf(),
        final(store).record_size_spec() == RECORD_SIZE,
        ({
            let (res, m) = spec_increment(old(store).contents(), program_id@, ctx.signer@);
            r == res && final(store).contents() == m
        }),
{
    let (addr, _bump) = match derive_record_address(&ctx.signer, program_id) {
        Ok(p) => p,
        Err(e) => {
            return Err(e);
        },
    };
    let mut data = match store.read(&addr) {
        Ok(d) => d,
        Err(e) => {
            return Err(e);
        },
    };
    proof {
        store.lemma_contents_sized(addr@);
    }
    let rec = match decode_record(&data) {
        Some(c) => c,
        None => {
            proof {
                assert(false);
            }
            return Err(CustomError::NotFound);
        },
    };
    if !rec.authority().eq_id(&ctx.signer) {
        return Err(CustomError::Unauthorized);
    }
    let new_count = if rec.count == 255 {
        0
    } else {
        rec.count + 1
    };
    proof {
        assert(new_count == wrap_inc(rec_count(data@)));
        lemma_count_update(data@, new_count);
    }
    data[HEADER_LEN] = new_count;
    match store.write(&addr, data) {
        Ok(()) => Ok(()),
        Err(e) => {
            proof {
                assert(false);
            }
            Err(e)
        },
    }
}

} // verus!
