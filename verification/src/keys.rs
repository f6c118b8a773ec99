use vstd::prelude::*;

verus! {

/// Number of bytes in a public-key-like identity and in a derived address.
pub const KEY_LEN: usize = 32;

/// Copies a byte vector element by element.
pub fn copy_bytes(src: &Vec<u8>) -> (r: Vec<u8>)
    ensures
        r@ == src@,
{
    let mut out: Vec<u8> = Vec::new();
    let mut i: usize = 0;
    while i < src.len()
        invariant
            i <= src@.len(),
            out@ == src@.subrange(0, i as int),
        decreases src@.len() - i,
    {
        out.push(src[i]);
        i = i + 1;
    }
    proof {
        assert(out@ == src@);
    }
    out
}

/// Compares two byte vectors by exact value equality over every byte.
pub fn bytes_eq(a: &Vec<u8>, b: &Vec<u8>) -> (r: bool)
    ensures
        r == (a@ == b@),
{
    if a.len() != b.len() {
        return false;
    }
    let mut i: usize = 0;
    while i < a.len()
        invariant
            i <= a@.len(),
            a@.len() == b@.len(),
            forall|j: int| 0 <= j < i ==> a@[j] == b@[j],
        decreases a@.len() - i,
    {
        if a[i] != b[i] {
            return false;
        }
        i = i + 1;
    }
    proof {
        assert(a@ == b@);
    }
    true
}

/// A principal's identity: a public-key-like value of exactly `KEY_LEN`
/// bytes. It serves both as the authority of a record and as the seed of
/// the record's derived address.
pub struct Identity {
    bytes: Vec<u8>,
}

impl View for Identity {
    type V = Seq<u8>;

    closed spec fn view(&self) -> Seq<u8> {
        self.bytes@
    }
}

impl Identity {
    /// A well-formed identity holds exactly `KEY_LEN` bytes.
    pub open spec fn wf(&self) -> bool {
        self@.len() == KEY_LEN
    }

    /// Wraps raw bytes as an identity; any length other than `KEY_LEN` is
    /// rejected.
    pub fn from_bytes(bytes: Vec<u8>) -> (r: Option<Identity>)
        ensures
            bytes@.len() == KEY_LEN ==> (r matches Some(id) && id@ == bytes@ && id.wf()),
            bytes@.len() != KEY_LEN ==> r is None,
    {
        if bytes.len() == KEY_LEN {
            Some(Identity { bytes })
        } else {
            None
        }
    }

    /// The raw bytes of the identity.
    pub fn as_bytes(&self) -> (r: &Vec<u8>)
        ensures
            r@ == self@,
    {
        &self.bytes
    }

    /// An owned copy of this identity.
    pub fn dup(&self) -> (r: Identity)
        ensures
            r@ == self@,
    {
        Identity { bytes: copy_bytes(&self.bytes) }
    }

    /// Exact value equality over the full identity representation.
    pub fn eq_id(&self, other: &Identity) -> (r: bool)
        ensures
            r == (self@ == other@),
    {
        bytes_eq(&self.bytes, &other.bytes)
    }
}

/// A derived storage address: exactly `KEY_LEN` bytes, computed from a
/// domain tag and an owner identity rather than chosen freely.
pub struct Address {
    bytes: Vec<u8>,
}

impl View for Address {
    type V = Seq<u8>;

    closed spec fn view(&self) -> Seq<u8> {
        self.bytes@
    }
}

impl Address {
    /// A well-formed address holds exactly `KEY_LEN` bytes.
    pub open spec fn wf(&self) -> bool {
        self@.len() == KEY_LEN
    }

    /// Wraps raw bytes as an address; any length other than `KEY_LEN` is
    /// rejected.
    pub fn from_bytes(bytes: Vec<u8>) -> (r: Option<Address>)
        ensures
            bytes@.len() == KEY_LEN ==> (r matches Some(a) && a@ == bytes@ && a.wf()),
            bytes@.len() != KEY_LEN ==> r is None,
    {
        if bytes.len() == KEY_LEN {
            Some(Address { bytes })
        } else {
            None
        }
    }

    /// The raw bytes of the address.
    pub fn as_bytes(&self) -> (r: &Vec<u8>)
        ensures
            r@ == self@,
    {
        &self.bytes
    }

    /// An owned copy of this address.
    pub fn dup(&self) -> (r: Address)
        ensures
            r@ == self@,
    {
        Address { bytes: copy_bytes(&self.bytes) }
    }

    /// Exact value equality over the full address representation.
    pub fn eq_addr(&self, other: &Address) -> (r: bool)
        ensures
            r == (self@ == other@),
    {
        bytes_eq(&self.bytes, &other.bytes)
    }
}

} // verus!
