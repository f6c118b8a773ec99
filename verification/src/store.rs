use vstd::prelude::*;

use crate::errors::CustomError;
use crate::keys::{copy_bytes, Address};

verus! {

/// One allocated record: its address and the bytes stored there.
struct StoredRecord {
    address: Address,
    bytes: Vec<u8>,
}

/// `len` zeroed bytes, the image of a fresh allocation.
pub open spec fn zero_bytes(len: nat) -> Seq<u8> {
    Seq::new(len, |i: int| 0u8)
}

/// The address-to-bytes map described by a list of allocated records.
spec fn map_of(s: Seq<StoredRecord>) -> Map<Seq<u8>, Seq<u8>>
    decreases s.len(),
{
    if s.len() == 0 {
        Map::empty()
    } else {
        map_of(s.drop_last()).insert(s.last().address@, s.last().bytes@)
    }
}

/// No two allocated records share an address.
spec fn unique_addresses(s: Seq<StoredRecord>) -> bool {
    forall|i: int, j: int| 0 <= i < j < s.len() ==> s[i].address@ != s[j].address@
}

proof fn lemma_map_of_domain(s: Seq<StoredRecord>, a: Seq<u8>)
    ensures
        map_of(s).contains_key(a) <==> exists|i: int| 0 <= i < s.len() && s[i].address@ == a,
    decreases s.len(),
{
    if s.len() > 0 {
        let pre = s.drop_last();
        lemma_map_of_domain(pre, a);
        if s.last().address@ == a {
            assert(s[s.len() - 1].address@ == a);
        } else {
            if exists|i: int| 0 <= i < s.len() && s[i].address@ == a {
                let i = choose|i: int| 0 <= i < s.len() && s[i].address@ == a;
                assert(i < s.len() - 1);
                assert(pre[i].address@ == a);
            }
            if exists|i: int| 0 <= i < pre.len() && pre[i].address@ == a {
                let i = choose|i: int| 0 <= i < pre.len() && pre[i].address@ == a;
                assert(s[i].address@ == a);
            }
        }
    }
}

proof fn lemma_map_of_get(s: Seq<StoredRecord>, i: int)
    requires
        unique_addresses(s),
        0 <= i < s.len(),
    ensures
        map_of(s).contains_key(s[i].address@),
        map_of(s)[s[i].address@] == s[i].bytes@,
    decreases s.len(),
{
    if i == s.len() - 1 {
    } else {
        let pre = s.drop_last();
        assert(unique_addresses(pre));
        lemma_map_of_get(pre, i);
        assert(pre[i] == s[i]);
        assert(s.last().address@ != s[i].address@);
    }
}

proof fn lemma_map_of_update(s: Seq<StoredRecord>, j: int, r: StoredRecord)
    requires
        unique_addresses(s),
        0 <= j < s.len(),
        r.address@ == s[j].address@,
    ensures
        map_of(s.update(j, r)) =~= map_of(s).insert(r.address@, r.bytes@),
    decreases s.len(),
{
    let s2 = s.update(j, r);
    if j == s.len() - 1 {
        assert(s2.drop_last() =~= s.drop_last());
        assert(s2.last() == r);
        assert(map_of(s2) =~= map_of(s).insert(r.address@, r.bytes@));
    } else {
        let pre = s.drop_last();
        assert(unique_addresses(pre));
        assert(s2.drop_last() =~= pre.update(j, r));
        assert(pre[j] == s[j]);
        lemma_map_of_update(pre, j, r);
        assert(s2.last() == s.last());
        assert(s.last().address@ != r.address@);
        assert(map_of(s2) =~= map_of(s).insert(r.address@, r.bytes@));
    }
}

/// The keyed record persistence layer: at most one fixed-size record per
/// address, allocated once and then read or overwritten in place. Records
/// are never destroyed.
pub struct RecordStore {
    record_size: usize,
    records: Vec<StoredRecord>,
}

impl RecordStore {
    /// The fixed number of bytes of every record in this store.
    pub closed spec fn record_size_spec(&self) -> usize {
        self.record_size
    }

    /// The stored bytes at each allocated address.
    pub closed spec fn contents(&self) -> Map<Seq<u8>, Seq<u8>> {
        map_of(self.records@)
    }

    /// Well-formed: addresses are distinct and every record holds exactly
    /// `record_size` bytes.
    pub closed spec fn wf(&self) -> bool {
        &&& unique_addresses(self.records@)
        &&& forall|i: int|
            0 <= i < self.records@.len() ==> (#[trigger] self.records@[i]).bytes@.len()
                == self.record_size
    }

    /// Every allocated record holds exactly `record_size` bytes.
    pub proof fn lemma_contents_sized(&self, a: Seq<u8>)
        requires
            self.wf(),
            self.contents().contains_key(a),
        ensures
            self.contents()[a].len() == self.record_size_spec(),
    {
        lemma_map_of_domain(self.records@, a);
        let i = choose|i: int| 0 <= i < self.records@.len() && self.records@[i].address@ == a;
        lemma_map_of_get(self.records@, i);
    }

    /// An empty store whose records will all hold `record_size` bytes.
    pub fn new(record_size: usize) -> (r: RecordStore)
        ensures
            r.wf(),
            r.record_size_spec() == record_size,
            r.contents() == Map::<Seq<u8>, Seq<u8>>::empty(),
    {
        let r = RecordStore { record_size, records: Vec::new() };
        proof {
            assert(r.contents() =~= Map::<Seq<u8>, Seq<u8>>::empty());
        }
        r
    }

    /// The fixed record size this store was created with.
    pub fn record_size(&self) -> (r: usize)
        ensures
            r == self.record_size_spec(),
    {
        self.record_size
    }

    fn find_index(&self, address: &Address) -> (r: Option<usize>)
        ensures
            (match r {
                Some(i) => i < self.records@.len() && self.records@[i as int].address@
                    == address@,
                None => forall|i: int|
                    0 <= i < self.records@.len() ==> self.records@[i].address@ != address@,
            }),
    {
        let mut i: usize = 0;
        while i < self.records.len()
            invariant
                i <= self.records@.len(),
                forall|j: int| 0 <= j < i ==> self.records@[j].address@ != address@,
            decreases self.records@.len() - i,
        {
            if self.records[i].address.eq_addr(address) {
                return Some(i);
            }
            i = i + 1;
        }
        None
    }

    /// Whether a record is allocated at `address`.
    pub fn has_record(&self, address: &Address) -> (r: bool)
        ensures
            r == self.contents().contains_key(address@),
    {
        proof {
            lemma_map_of_domain(self.records@, address@);
        }
        match self.find_index(address) {
            Some(_) => true,
            None => false,
        }
    }

    /// Allocates `size` zeroed bytes at `address`, funded by a payer that
    /// disposes of `payer_funds`. An address that is already in use is
    /// rejected before the payer's funds are examined; the cost of an
    /// allocation is one funding unit per byte.
    pub fn allocate(&mut self, address: &Address, size: usize, payer_funds: u64) -> (r: Result<
        (),
        CustomError,
    >)
        requires
            old(self).wf(),
            size == old(self).record_size_spec(),
        ensures
            final(self).wf(),
            final(self).record_size_spec() == old(self).record_size_spec(),
            (match r {
                Ok(()) => !old(self).contents().contains_key(address@) && payer_funds >= size
                    as u64 && final(self).contents() == old(self).contents().insert(
                    address@,
                    zero_bytes(size as nat),
                ),
                Err(e) => final(self).contents() == old(self).contents() && ((e
                    == CustomError::AlreadyExists && old(self).contents().contains_key(address@))
                    || (e == CustomError::InsufficientFunds && !old(
                    self,
                ).contents().contains_key(address@) && payer_funds < size as u64)),
            }),
    {
        proof {
            lemma_map_of_domain(self.records@, address@);
        }
        match self.find_index(address) {
            Some(_) => Err(CustomError::AlreadyExists),
            None => {
                if payer_funds < size as u64 {
                    Err(CustomError::InsufficientFunds)
                } else {
                    let ghost old_records = self.records@;
                    let mut zeros: Vec<u8> = Vec::new();
                    let mut i: usize = 0;
                    while i < size
                        invariant
                            i <= size,
                            zeros@ == zero_bytes(i as nat),
                        decreases size - i,
                    {
                        zeros.push(0u8);
                        i = i + 1;
                    }
                    self.records.push(StoredRecord { address: address.dup(), bytes: zeros });
                    proof {
                        assert(self.records@.drop_last() =~= old_records);
                        assert forall|p: int, q: int|
                            0 <= p < q < self.records@.len() implies self.records@[p].address@
                            != self.records@[q].address@ by {
                            if q == self.records@.len() - 1 {
                                assert(self.records@[p] == old_records[p]);
                                assert(self.records@[q].address@ == address@);
                            } else {
                                assert(self.records@[p] == old_records[p]);
                                assert(self.records@[q] == old_records[q]);
                            }
                        }
                        assert forall|k: int|
                            0 <= k < self.records@.len() implies (
                            #[trigger] self.records@[k]).bytes@.len() == self.record_size by {
                            if k < self.records@.len() - 1 {
                                assert(self.records@[k] == old_records[k]);
                            }
                        }
                        assert(self.contents() =~= map_of(old_records).insert(
                            address@,
                            zero_bytes(size as nat),
                        ));
                    }
                    Ok(())
                }
            },
        }
    }

    /// Reads a copy of the record at `address`.
    pub fn read(&self, address: &Address) -> (r: Result<Vec<u8>, CustomError>)
        requires
            self.wf(),
        ensures
            (match r {
                Ok(bytes) => self.contents().contains_key(address@) && bytes@
                    == self.contents()[address@],
                Err(e) => e == CustomError::NotFound && !self.contents().contains_key(address@),
            }),
    {
        proof {
            lemma_map_of_domain(self.records@, address@);
        }
        match self.find_index(address) {
            Some(i) => {
                proof {
                    lemma_map_of_get(self.records@, i as int);
                }
                Ok(copy_bytes(&self.records[i].bytes))
            },
            None => Err(CustomError::NotFound),
        }
    }

    /// Overwrites the record at `address` with `data`, which must keep the
    /// record's fixed size: no growth is supported.
    pub fn write(&mut self, address: &Address, data: Vec<u8>) -> (r: Result<(), CustomError>)
        requires
            old(self).wf(),
            data@.len() == old(self).record_size_spec(),
        ensures
            final(self).wf(),
            final(self).record_size_spec() == old(self).record_size_spec(),
            (match r {
                Ok(()) => old(self).contents().contains_key(address@) && final(self).contents()
                    == old(self).contents().insert(address@, data@),
                Err(e) => e == CustomError::NotFound && !old(self).contents().contains_key(
                    address@,
                ) && final(self).contents() == old(self).contents(),
            }),
    {
        proof {
            lemma_map_of_domain(self.records@, address@);
        }
        match self.find_index(address) {
            Some(i) => {
                let ghost old_records = self.records@;
                let new_rec = StoredRecord { address: address.dup(), bytes: data };
                self.records[i] = new_rec;
                proof {
                    assert forall|p: int, q: int|
                        0 <= p < q < self.records@.len() implies self.records@[p].address@
                        != self.records@[q].address@ by {
                        assert(old_records[p].address@ != old_records[q].address@);
                    }
                    lemma_map_of_update(old_records, i as int, self.records@[i as int]);
                }
                Ok(())
            },
            None => Err(CustomError::NotFound),
        }
    }
}

} // verus!
