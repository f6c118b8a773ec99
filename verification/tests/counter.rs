use pda_db::addressing::{derive_record_address, tag_bytes};
use pda_db::errors::CustomError;
use pda_db::keys::{bytes_eq, copy_bytes, Address, Identity};
use pda_db::record::{decode_record, encode_record, Counter, RECORD_SIZE};
use pda_db::service::{increment, initialize, Increment, Initialize};
use pda_db::store::RecordStore;

fn ident(byte: u8) -> Identity {
    Identity::from_bytes(vec![byte; 32]).unwrap()
}

fn program() -> Identity {
    ident(0x77)
}

fn new_store() -> RecordStore {
    RecordStore::new(RECORD_SIZE)
}

fn derived(owner: &Identity) -> Address {
    derive_record_address(owner, &program()).unwrap().0
}

fn read_counter(store: &RecordStore, owner: &Identity) -> Counter {
    let addr = derived(owner);
    let bytes = store.read(&addr).unwrap();
    decode_record(&bytes).unwrap()
}

#[test]
fn initialize_then_increment_updates_count() {
    let a = ident(1);
    let mut store = new_store();
    let init = Initialize { signer: a.dup(), payer_funds: 1000 };
    assert_eq!(initialize(&mut store, &program(), &init, 5), Ok(()));
    let bump = Increment { signer: a.dup() };
    assert_eq!(increment(&mut store, &program(), &bump), Ok(()));
    let rec = read_counter(&store, &a);
    assert_eq!(rec.count, 6);
    assert!(rec.authority.eq_id(&a));
}

#[test]
fn each_increment_adds_exactly_one() {
    let a = ident(15);
    let mut store = new_store();
    let init = Initialize { signer: a.dup(), payer_funds: 1000 };
    assert_eq!(initialize(&mut store, &program(), &init, 40), Ok(()));
    let bump = Increment { signer: a.dup() };
    assert_eq!(increment(&mut store, &program(), &bump), Ok(()));
    assert_eq!(increment(&mut store, &program(), &bump), Ok(()));
    assert_eq!(read_counter(&store, &a).count, 42);
}

#[test]
fn increment_wraps_at_the_byte_boundary() {
    let a = ident(2);
    let mut store = new_store();
    let init = Initialize { signer: a.dup(), payer_funds: 1000 };
    assert_eq!(initialize(&mut store, &program(), &init, 255), Ok(()));
    let bump = Increment { signer: a.dup() };
    assert_eq!(increment(&mut store, &program(), &bump), Ok(()));
    assert_eq!(read_counter(&store, &a).count, 0);
}

#[test]
fn increment_without_a_record_is_not_found() {
    let a = ident(3);
    let b = ident(4);
    let mut store = new_store();
    let init = Initialize { signer: a.dup(), payer_funds: 1000 };
    assert_eq!(initialize(&mut store, &program(), &init, 0), Ok(()));
    let bump = Increment { signer: b.dup() };
    assert_eq!(increment(&mut store, &program(), &bump), Err(CustomError::NotFound));
    assert_eq!(read_counter(&store, &a).count, 0);
}

#[test]
fn a_second_initialize_already_exists() {
    let a = ident(5);
    let mut store = new_store();
    let first = Initialize { signer: a.dup(), payer_funds: 1000 };
    assert_eq!(initialize(&mut store, &program(), &first, 0), Ok(()));
    let second = Initialize { signer: a.dup(), payer_funds: 1000 };
    assert_eq!(
        initialize(&mut store, &program(), &second, 1),
        Err(CustomError::AlreadyExists)
    );
    assert_eq!(read_counter(&store, &a).count, 0);
}

#[test]
fn a_caller_that_is_not_the_authority_is_unauthorized() {
    // A record whose stored authority differs from the identity that
    // derives its address: written through the store primitives, since
    // the service itself always pairs the two.
    let owner = ident(6);
    let intruder = ident(7);
    let mut store = new_store();
    let addr = derived(&intruder);
    assert_eq!(store.allocate(&addr, RECORD_SIZE, 1000), Ok(()));
    assert_eq!(store.write(&addr, encode_record(0, &owner)), Ok(()));
    let bump = Increment { signer: intruder.dup() };
    assert_eq!(increment(&mut store, &program(), &bump), Err(CustomError::Unauthorized));
    let rec = decode_record(&store.read(&addr).unwrap()).unwrap();
    assert_eq!(rec.count, 0);
    assert!(rec.authority.eq_id(&owner));
}

#[test]
fn a_poor_payer_cannot_allocate() {
    let a = ident(8);
    let mut store = new_store();
    let init = Initialize { signer: a.dup(), payer_funds: 5 };
    assert_eq!(
        initialize(&mut store, &program(), &init, 0),
        Err(CustomError::InsufficientFunds)
    );
    assert!(!store.has_record(&derived(&a)));
}

#[test]
fn derivation_is_deterministic() {
    let a = ident(9);
    let (addr1, bump1) = derive_record_address(&a, &program()).unwrap();
    let (addr2, bump2) = derive_record_address(&a, &program()).unwrap();
    assert!(addr1.eq_addr(&addr2));
    assert_eq!(bump1, bump2);
}

#[test]
fn distinct_owners_get_distinct_addresses() {
    let a = ident(10);
    let b = ident(11);
    let addr_a = derived(&a);
    let addr_b = derived(&b);
    assert!(!addr_a.eq_addr(&addr_b));
}

#[test]
fn a_derived_address_is_not_the_owner_key() {
    let a = ident(12);
    let addr = derived(&a);
    assert!(!bytes_eq(addr.as_bytes(), a.as_bytes()));
}

#[test]
fn records_round_trip_through_their_byte_image() {
    let a = ident(13);
    let bytes = encode_record(9, &a);
    assert_eq!(bytes.len(), RECORD_SIZE);
    let rec = decode_record(&bytes).unwrap();
    assert_eq!(rec.count, 9);
    assert!(rec.authority.eq_id(&a));
}

#[test]
fn the_domain_tag_is_count_data() {
    assert_eq!(tag_bytes(), b"count_data".to_vec());
}

#[test]
fn store_primitives_reject_missing_and_duplicate_addresses() {
    let mut store = new_store();
    let addr = derived(&ident(14));
    assert_eq!(store.read(&addr), Err(CustomError::NotFound));
    assert_eq!(
        store.write(&addr, vec![0; RECORD_SIZE]),
        Err(CustomError::NotFound)
    );
    assert_eq!(store.allocate(&addr, RECORD_SIZE, 1000), Ok(()));
    assert_eq!(
        store.allocate(&addr, RECORD_SIZE, 1000),
        Err(CustomError::AlreadyExists)
    );
    let zeroed = store.read(&addr).unwrap();
    assert_eq!(zeroed, vec![0u8; RECORD_SIZE]);
}

#[test]
fn identities_must_hold_exactly_thirty_two_bytes() {
    assert!(Identity::from_bytes(vec![0; 31]).is_none());
    assert!(Identity::from_bytes(vec![0; 33]).is_none());
    assert!(Identity::from_bytes(vec![0; 32]).is_some());
    assert!(Address::from_bytes(vec![0; 16]).is_none());
}

#[test]
fn byte_helpers_compare_and_copy_exactly() {
    let x = vec![1u8, 2, 3];
    let y = vec![1u8, 2, 4];
    assert!(bytes_eq(&x, &copy_bytes(&x)));
    assert!(!bytes_eq(&x, &y));
    assert!(!bytes_eq(&x, &vec![1u8, 2]));
}

#[test]
fn malformed_record_images_are_rejected() {
    assert!(decode_record(&vec![0u8; RECORD_SIZE - 1]).is_none());
    assert!(decode_record(&vec![0u8; RECORD_SIZE + 1]).is_none());
}
