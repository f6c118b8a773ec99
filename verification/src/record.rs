use vstd::prelude::*;

use crate::keys::{Identity, KEY_LEN};

verus! {

/// Bytes of storage-layer header preceding the record payload.
pub const HEADER_LEN: usize = 8;

/// Total bytes allocated for one record: the header, one count byte and a
/// `KEY_LEN`-byte authority.
pub const RECORD_SIZE: usize = 41;

/// The byte image of a freshly created record: a zeroed header, the count,
/// then the authority bytes.
pub open spec fn encode_spec(count: u8, authority: Seq<u8>) -> Seq<u8> {
    Seq::new(HEADER_LEN as nat, |i: int| 0u8).push(count) + authority
}

/// The count stored in a record image.
pub open spec fn rec_count(bytes: Seq<u8>) -> u8 {
    bytes[HEADER_LEN as int]
}

/// The authority stored in a record image.
pub open spec fn rec_authority(bytes: Seq<u8>) -> Seq<u8> {
    bytes.subrange(HEADER_LEN as int + 1, RECORD_SIZE as int)
}

/// The successor of a count under unsigned 8-bit wraparound.
pub open spec fn wrap_inc(c: u8) -> u8 {
    if c == 255 {
        0
    } else {
        (c + 1) as u8
    }
}

/// A freshly encoded record reads back the fields that were written.
pub proof fn lemma_encode_fields(count: u8, authority: Seq<u8>)
    requires
        authority.len() == KEY_LEN,
    ensures
        encode_spec(count, authority).len() == RECORD_SIZE,
        rec_count(encode_spec(count, authority)) == count,
        rec_authority(encode_spec(count, authority)) == authority,
{
    assert(rec_authority(encode_spec(count, authority)) =~= authority);
}

/// Updating the count byte of a record image leaves its length and its
/// stored authority as they were.
pub proof fn lemma_count_update(bytes: Seq<u8>, c: u8)
    requires
        bytes.len() == RECORD_SIZE,
    ensures
        bytes.update(HEADER_LEN as int, c).len() == RECORD_SIZE,
        rec_count(bytes.update(HEADER_LEN as int, c)) == c,
        rec_authority(bytes.update(HEADER_LEN as int, c)) == rec_authority(bytes),
{
    assert(rec_authority(bytes.update(HEADER_LEN as int, c)) =~= rec_authority(bytes));
}

/// The sole record type: a count and the single authority permitted to
/// mutate it. The authority is fixed at creation.
pub struct Counter {
    pub count: u8,
    pub authority: Identity,
}

impl Counter {
    /// The bytes of the stored authority, for use in contracts.
    pub open spec fn authority_view(&self) -> Seq<u8> {
        self.authority@
    }

    /// A well-formed record holds a well-formed authority.
    pub open spec fn wf(&self) -> bool {
        self.authority_view().len() == KEY_LEN
    }

    /// Creates a record owned by `authority` with the given initial count.
    pub fn new(count: u8, authority: Identity) -> (r: Counter)
        ensures
            r.count == count,
            r.authority_view() == authority@,
    {
        Counter { count, authority }
    }

    /// The record's stored authority.
    pub fn authority(&self) -> (r: &Identity)
        ensures
            r@ == self.authority_view(),
    {
        &self.authority
    }
}

/// Serializes a record's fields into its fixed-size byte image.
pub fn encode_record(count: u8, authority: &Identity) -> (r: Vec<u8>)
    requires
        authority.wf(),
    ensures
        r@ == encode_spec(count, authority@),
        r@.len() == RECORD_SIZE,
{
    let mut out: Vec<u8> = Vec::new();
    let mut i: usize = 0;
    while i < HEADER_LEN
        invariant
            i <= HEADER_LEN,
            out@ == Seq::new(i as nat, |k: int| 0u8),
        decreases HEADER_LEN - i,
    {
        out.push(0u8);
        i = i + 1;
    }
    out.push(count);
    let auth = authority.as_bytes();
    let mut j: usize = 0;
    while j < auth.len()
        invariant
            j <= auth@.len(),
            auth@ == authority@,
            out@ == Seq::new(HEADER_LEN as nat, |k: int| 0u8).push(count) + auth@.subrange(
                0,
                j as int,
            ),
        decreases auth@.len() - j,
    {
        out.push(auth[j]);
        j = j + 1;
    }
    proof {
        assert(out@ == encode_spec(count, authority@));
        lemma_encode_fields(count, authority@);
    }
    out
}

/// Parses a fixed-size byte image back into a record; any other length is
/// rejected.
pub fn decode_record(bytes: &Vec<u8>) -> (r: Option<Counter>)
    ensures
        bytes@.len() == RECORD_SIZE ==> (r matches Some(c) && c.count == rec_count(bytes@)
            && c.authority_view() == rec_authority(bytes@) && c.wf()),
        bytes@.len() != RECORD_SIZE ==> r is None,
{
    if bytes.len() != RECORD_SIZE {
        return None;
    }
    let count = bytes[HEADER_LEN];
    let mut auth: Vec<u8> = Vec::new();
    let mut i: usize = HEADER_LEN + 1;
    while i < RECORD_SIZE
        invariant
            HEADER_LEN + 1 <= i <= RECORD_SIZE,
            bytes@.len() == RECORD_SIZE,
            auth@ == bytes@.subrange(HEADER_LEN as int + 1, i as int),
        decreases RECORD_SIZE - i,
    {
        auth.push(bytes[i]);
        i = i + 1;
    }
    proof {
        assert(auth@ == rec_authority(bytes@));
        assert(auth@.len() == KEY_LEN);
    }
    match Identity::from_bytes(auth) {
        Some(id) => Some(Counter::new(count, id)),
        None => {
            proof {
                assert(false);
            }
            None
        },
    }
}

} // verus!
