use sha2::Digest;

use osclientcerts::codec::serialize_uint;
use osclientcerts::codec::ULONG_WIDTH;
use osclientcerts::manager::CertRecord;
use osclientcerts::manager::Manager;
use osclientcerts::object::KeyType;
use osclientcerts::object::Spki;
use osclientcerts::object::CKA_CLASS;
use osclientcerts::object::CKA_ID;
use osclientcerts::object::CKA_MODULUS;
use osclientcerts::object::CKA_VALUE;
use osclientcerts::object::CKO_CERTIFICATE;
use osclientcerts::object::CKO_PRIVATE_KEY;

// RSAPublicKey: SEQUENCE { INTEGER (8-byte modulus), INTEGER 3 }
fn rsa_public_key() -> Vec<u8> {
    vec![
        0x30, 0x0e, 0x02, 0x09, 0x00, 0xc0, 0x01, 0x02, 0x03, 0x04, 0x05, 0x06, 0x07, 0x02,
        0x01, 0x03,
    ]
}

fn rsa_modulus() -> Vec<u8> {
    vec![0xc0, 0x01, 0x02, 0x03, 0x04, 0x05, 0x06, 0x07]
}

fn rsa_record(der: Vec<u8>) -> CertRecord {
    CertRecord {
        der,
        issuer: vec![0x0a],
        serial_number: vec![0x0b],
        subject: vec![0x0c],
        spki: Spki::Rsa { public_key: rsa_public_key() },
    }
}

fn ec_record(der: Vec<u8>) -> CertRecord {
    CertRecord {
        der,
        issuer: vec![0x0a],
        serial_number: vec![0x0b],
        subject: vec![0x0c],
        spki: Spki::Ec {
            params: vec![0x06, 0x08, 0x2a, 0x86, 0x48, 0xce, 0x3d, 0x03, 0x01, 0x07],
        },
    }
}

fn class_template(class: u64) -> Vec<(u64, Vec<u8>)> {
    vec![(CKA_CLASS, serialize_uint(class, ULONG_WIDTH))]
}

#[test]
fn fresh_manager_needs_enumeration() {
    let mut m = Manager::new();
    assert!(m.needs_enumeration());
    m.load_objects(&vec![]).unwrap();
    assert!(!m.needs_enumeration());
    m.close_all_sessions().unwrap();
    assert!(m.needs_enumeration());
}

#[test]
fn load_materializes_cert_and_key_pairs() {
    let mut m = Manager::new();
    let der = vec![0x31, 0x32, 0x33];
    m.load_objects(&vec![rsa_record(der.clone())]).unwrap();
    let session = m.open_session().unwrap();

    // One certificate object.
    m.start_search(session, &class_template(CKO_CERTIFICATE)).unwrap();
    let certs = m.search(session, 10).unwrap();
    assert_eq!(certs, vec![1]);
    m.clear_search(session).unwrap();

    // One private-key object, paired by id.
    let id: Vec<u8> = sha2::Sha256::digest(&der).to_vec();
    let mut template = class_template(CKO_PRIVATE_KEY);
    template.push((CKA_ID, id.clone()));
    m.start_search(session, &template).unwrap();
    let keys = m.search(session, 10).unwrap();
    assert_eq!(keys, vec![2]);

    // The certificate carries the DER; the key carries the modulus.
    assert_eq!(m.get_attribute(1, CKA_VALUE).unwrap(), Some(der));
    assert_eq!(m.get_attribute(2, CKA_MODULUS).unwrap(), Some(rsa_modulus()));
    assert_eq!(m.get_attribute(1, CKA_ID).unwrap(), Some(id.clone()));
    assert_eq!(m.get_attribute(2, CKA_ID).unwrap(), Some(id));
}

// Every certificate object pairs with exactly one private-key object that
// carries the same id, and vice versa.
#[test]
fn certs_and_keys_pair_by_id() {
    let mut m = Manager::new();
    let der_a = vec![0x41];
    let der_b = vec![0x42];
    m.load_objects(&vec![rsa_record(der_a.clone()), ec_record(der_b.clone())])
        .unwrap();
    let id_a = m.get_attribute(1, CKA_ID).unwrap().unwrap();
    let id_b = m.get_attribute(3, CKA_ID).unwrap().unwrap();
    assert_eq!(m.get_attribute(2, CKA_ID).unwrap().unwrap(), id_a);
    assert_eq!(m.get_attribute(4, CKA_ID).unwrap().unwrap(), id_b);
    assert_ne!(id_a, id_b);
    let digest_a: Vec<u8> = sha2::Sha256::digest(&der_a).to_vec();
    let digest_b: Vec<u8> = sha2::Sha256::digest(&der_b).to_vec();
    assert_eq!(id_a, digest_a);
    assert_eq!(id_b, digest_b);

    // Exactly one key object carries each id.
    let session = m.open_session().unwrap();
    let mut template = class_template(CKO_PRIVATE_KEY);
    template.push((CKA_ID, id_a));
    m.start_search(session, &template).unwrap();
    assert_eq!(m.search(session, 10).unwrap(), vec![2]);
}

#[test]
fn unusable_records_are_skipped() {
    let mut m = Manager::new();
    let bad = CertRecord {
        der: vec![0x01],
        issuer: vec![],
        serial_number: vec![],
        subject: vec![],
        spki: Spki::Rsa { public_key: vec![0xff] },
    };
    m.load_objects(&vec![bad, rsa_record(vec![0x02])]).unwrap();
    let session = m.open_session().unwrap();
    m.start_search(session, &vec![]).unwrap();
    let all = m.search(session, 10).unwrap();
    assert_eq!(all, vec![1, 2]);
}

#[test]
fn get_attributes_is_vectorized_and_fails_on_unknown_handle() {
    let mut m = Manager::new();
    m.load_objects(&vec![rsa_record(vec![0x44])]).unwrap();
    let values = m
        .get_attributes(2, &vec![CKA_MODULUS, CKA_VALUE, CKA_CLASS])
        .unwrap();
    assert_eq!(values.len(), 3);
    assert_eq!(values[0], Some(rsa_modulus()));
    assert_eq!(values[1], None);
    assert_eq!(values[2], Some(serialize_uint(CKO_PRIVATE_KEY, ULONG_WIDTH)));
    assert!(m.get_attributes(99, &vec![CKA_CLASS]).is_err());
    assert!(m.get_attribute(99, CKA_CLASS).is_err());
}

#[test]
fn search_without_init_returns_no_handles() {
    let mut m = Manager::new();
    m.load_objects(&vec![rsa_record(vec![0x55])]).unwrap();
    let session = m.open_session().unwrap();
    assert_eq!(m.search(session, 10).unwrap(), Vec::<u64>::new());
    assert!(m.search(9999, 10).is_err());
}

#[test]
fn search_drains_cursor_in_chunks() {
    let mut m = Manager::new();
    m.load_objects(&vec![
        rsa_record(vec![0x01]),
        rsa_record(vec![0x02]),
        rsa_record(vec![0x03]),
    ])
    .unwrap();
    let session = m.open_session().unwrap();
    m.start_search(session, &vec![]).unwrap();
    assert_eq!(m.search(session, 4).unwrap(), vec![1, 2, 3, 4]);
    assert_eq!(m.search(session, 4).unwrap(), vec![5, 6]);
    // Exhausted, but not destroyed: further calls return nothing.
    assert_eq!(m.search(session, 4).unwrap(), Vec::<u64>::new());
    m.clear_search(session).unwrap();
}

#[test]
fn start_search_fails_on_unknown_session() {
    let mut m = Manager::new();
    m.load_objects(&vec![]).unwrap();
    assert!(m.start_search(7, &vec![]).is_err());
    assert!(m.close_session(7).is_err());
}

#[test]
fn clear_search_is_permissive() {
    let mut m = Manager::new();
    let session = m.open_session().unwrap();
    // No search active, and even no such session: still fine.
    m.clear_search(session).unwrap();
    m.clear_search(9999).unwrap();
}

#[test]
fn session_handles_grow_past_close_all() {
    let mut m = Manager::new();
    let s1 = m.open_session().unwrap();
    let s2 = m.open_session().unwrap();
    assert_eq!(s1, 1);
    assert_eq!(s2, 2);
    m.close_all_sessions().unwrap();
    // No previously issued handle is valid any more.
    assert!(m.close_session(s1).is_err());
    assert!(m.close_session(s2).is_err());
    // Idempotent.
    m.close_all_sessions().unwrap();
    m.close_all_sessions().unwrap();
    // The next session handle is strictly greater than every prior one.
    let s3 = m.open_session().unwrap();
    assert_eq!(s3, 3);
}

#[test]
fn object_handles_are_never_reused() {
    let mut m = Manager::new();
    m.load_objects(&vec![rsa_record(vec![0x61])]).unwrap();
    m.close_all_sessions().unwrap();
    // Re-materializing issues fresh handles past the old ones.
    m.load_objects(&vec![rsa_record(vec![0x61])]).unwrap();
    let session = m.open_session().unwrap();
    m.start_search(session, &vec![]).unwrap();
    assert_eq!(m.search(session, 10).unwrap(), vec![3, 4]);
    assert!(m.get_attribute(1, CKA_CLASS).is_err());
}

#[test]
fn sign_state_machine_is_single_shot() {
    let mut m = Manager::new();
    m.load_objects(&vec![ec_record(vec![0x71])]).unwrap();
    let session = m.open_session().unwrap();

    // Initializing a sign operation on the certificate object fails.
    assert!(m.start_sign(session, 1, None).is_err());
    // On the key object it succeeds.
    m.start_sign(session, 2, None).unwrap();

    // P-256: 2 x 32 bytes, and the length query does not consume the state.
    let data = vec![0xaa; 32];
    assert_eq!(m.get_signature_length(session, &data), Ok(64));
    assert_eq!(m.get_signature_length(session, &data), Ok(64));

    let req = m.sign_request(session, data.clone()).unwrap();
    assert_eq!(req.key_handle, 2);
    assert!(matches!(req.key_type, KeyType::EC));
    assert_eq!(req.ec_field_len, Some(32));
    assert!(req.pss.is_none());
    assert_eq!(req.data, data);

    // Consumed: signing again without a new init fails.
    assert!(m.sign_request(session, data.clone()).is_err());
    assert!(m.get_signature_length(session, &data).is_err());
}

#[test]
fn rsa_signature_length_is_modulus_length() {
    let mut m = Manager::new();
    m.load_objects(&vec![rsa_record(vec![0x81])]).unwrap();
    let session = m.open_session().unwrap();
    m.start_sign(session, 2, None).unwrap();
    let data = vec![0xbb; 51];
    assert_eq!(m.get_signature_length(session, &data), Ok(8));
    let req = m.sign_request(session, data).unwrap();
    assert!(matches!(req.key_type, KeyType::RSA));
    assert_eq!(req.ec_field_len, None);
}

#[test]
fn unknown_curve_cannot_be_signed_with() {
    let mut m = Manager::new();
    let record = CertRecord {
        der: vec![0x91],
        issuer: vec![],
        serial_number: vec![],
        subject: vec![],
        spki: Spki::Ec { params: vec![0x06, 0x01, 0x2a] },
    };
    m.load_objects(&vec![record]).unwrap();
    let session = m.open_session().unwrap();
    m.start_sign(session, 2, None).unwrap();
    assert!(m.get_signature_length(session, &vec![0x01]).is_err());
    assert!(m.sign_request(session, vec![0x01]).is_err());
}

#[test]
fn pss_parameters_ride_along_with_the_request() {
    let mut m = Manager::new();
    m.load_objects(&vec![rsa_record(vec![0xb1])]).unwrap();
    let session = m.open_session().unwrap();
    let pss = osclientcerts::manager::PssParams { hash_alg: 0x250, mgf: 0x02, salt_len: 32 };
    m.start_sign(session, 2, Some(pss)).unwrap();
    let req = m.sign_request(session, vec![0x01, 0x02]).unwrap();
    let carried = req.pss.unwrap();
    assert_eq!(carried.hash_alg, 0x250);
    assert_eq!(carried.mgf, 0x02);
    assert_eq!(carried.salt_len, 32);
}

#[test]
fn sign_operations_need_a_session_and_an_init() {
    let mut m = Manager::new();
    m.load_objects(&vec![rsa_record(vec![0xa1])]).unwrap();
    let session = m.open_session().unwrap();
    assert!(m.start_sign(9999, 2, None).is_err());
    assert!(m.start_sign(session, 9999, None).is_err());
    assert!(m.get_signature_length(session, &vec![]).is_err());
    assert!(m.sign_request(session, vec![]).is_err());
    assert!(m.sign_request(9999, vec![]).is_err());
}
