use vstd::prelude::*;

use crate::errors::CustomError;
use crate::keys::{Address, Identity, KEY_LEN};

verus! {

/// The domain-separation tag `"count_data"` as a byte sequence. It
/// namespaces every derived address of this record type.
pub open spec fn tag_seq() -> Seq<u8> {
    seq![0x63u8, 0x6fu8, 0x75u8, 0x6eu8, 0x74u8, 0x5fu8, 0x64u8, 0x61u8, 0x74u8, 0x61u8]
}

/// The domain-separation tag as bytes.
pub fn tag_bytes() -> (r: Vec<u8>)
    ensures
        r@ == tag_seq(),
{
    let mut out: Vec<u8> = Vec::new();
    out.push(0x63u8);
    out.push(0x6fu8);
    out.push(0x75u8);
    out.push(0x6eu8);
    out.push(0x74u8);
    out.push(0x5fu8);
    out.push(0x64u8);
    out.push(0x61u8);
    out.push(0x74u8);
    out.push(0x61u8);
    proof {
        assert(out@ == tag_seq());
    }
    out
}

/// What the host's address derivation returns for a given domain tag,
/// owner identity and program namespace: a derived address with its
/// disambiguation byte, or nothing when the whole disambiguation search
/// space is exhausted.
pub uninterp spec fn derived_of(tag: Seq<u8>, owner: Seq<u8>, program: Seq<u8>) -> Option<
    (Seq<u8>, u8),
>;

/// Relies on `Pubkey::try_find_program_address` (the type `anchor_lang`
/// re-exports): the result is a deterministic function of the seeds and
/// the program id alone, a returned address is exactly 32 bytes, and the
/// call returns `None` rather than failing when no disambiguation byte
/// yields a valid address.
#[verifier::external_body]
fn find_derived(tag: &Vec<u8>, owner: &Identity, program: &Identity) -> (r: Option<(Vec<u8>, u8)>)
    requires
        owner.wf(),
        program.wf(),
    ensures
        (match r {
            Some((a, b)) => derived_of(tag@, owner@, program@) == Some((a@, b)) && a@.len()
                == KEY_LEN,
            None => derived_of(tag@, owner@, program@) is None,
        }),
{
    let mut program_arr = [0u8; 32];
    program_arr.copy_from_slice(program.as_bytes().as_slice());
    let program_key = anchor_lang::prelude::Pubkey::new_from_array(program_arr);
    let seeds: [&[u8]; 2] = [tag.as_slice(), owner.as_bytes().as_slice()];
    anchor_lang::prelude::Pubkey::try_find_program_address(&seeds, &program_key)
        .map(|(a, bump)| (a.to_bytes().to_vec(), bump))
}

/// Derives the storage address and disambiguation byte of `owner`'s
/// counter record inside the `program_id` namespace. The result is a
/// function of the inputs alone, so repeated calls for the same owner
/// yield the same address.
pub fn derive_record_address(owner: &Identity, program_id: &Identity) -> (r: Result<
    (Address, u8),
    CustomError,
>)
    requires
        owner.wf(),
        program_id.wf(),
    ensures
        (match r {
            Ok((a, bump)) => derived_of(tag_seq(), owner@, program_id@) == Some((a@, bump))
                && a.wf(),
            Err(e) => e == CustomError::DerivationExhausted && derived_of(
                tag_seq(),
                owner@,
                program_id@,
            ) is None,
        }),
{
    let tag = tag_bytes();
    match find_derived(&tag, owner, program_id) {
        None => Err(CustomError::DerivationExhausted),
        Some((bytes, bump)) => match Address::from_bytes(bytes) {
            Some(a) => Ok((a, bump)),
            None => {
                proof {
                    assert(false);
                }
                Err(CustomError::DerivationExhausted)
            },
        },
    }
}

} // verus!
