//! Certificate and private-key objects and their attributes.
//!
//! Every object carries a fixed set of Cryptoki attributes as byte strings,
//! canonically encoded at construction time (integer codes through
//! `codec::serialize_uint`, the id as the SHA-256 digest of the certificate).
//! Template matching is therefore byte-for-byte comparison, and each object
//! kind has a specification-level attribute lookup (`spec_get_attribute`)
//! that the executable lookup and matcher are proved against.

use sha2::Digest;
use vstd::prelude::*;

use crate::codec::serialize_uint;
use crate::codec::spec_le_bytes;
use crate::codec::ULONG_WIDTH;
use crate::der::read_rsa_modulus;
use crate::der::spec_read_rsa_modulus;
use crate::util::bytes_eq;
use crate::util::clone_bytes;

verus! {

pub const CKA_CLASS: u64 = 0x0000;

pub const CKA_TOKEN: u64 = 0x0001;

pub const CKA_PRIVATE: u64 = 0x0002;

pub const CKA_LABEL: u64 = 0x0003;

pub const CKA_VALUE: u64 = 0x0011;

pub const CKA_ISSUER: u64 = 0x0081;

pub const CKA_SERIAL_NUMBER: u64 = 0x0082;

pub const CKA_KEY_TYPE: u64 = 0x0100;

pub const CKA_SUBJECT: u64 = 0x0101;

pub const CKA_ID: u64 = 0x0102;

pub const CKA_MODULUS: u64 = 0x0120;

pub const CKA_EC_PARAMS: u64 = 0x0180;

pub const CKO_CERTIFICATE: u64 = 0x0001;

pub const CKO_PRIVATE_KEY: u64 = 0x0003;

pub const CKK_RSA: u64 = 0x0000;

pub const CKK_EC: u64 = 0x0003;

pub const CK_TRUE: u64 = 1;

/// The SHA-256 digest of `data`. The digest itself is computed by an outside
/// crate; this name stands for its result, which depends on `data` alone.
pub uninterp spec fn sha256_of(data: Seq<u8>) -> Seq<u8>;

/// Relies on sha2's `Sha256`: the digest is a function of the input bytes
/// alone and is always 32 bytes long.
#[verifier::external_body]
fn sha256(data: &Vec<u8>) -> (r: Vec<u8>)
    ensures
        r@ == sha256_of(data@),
        r@.len() == 32,
{
    sha2::Sha256::digest(data.as_slice()).to_vec()
}

/// An attribute template: pairs of attribute type and expected value.
pub open spec fn spec_template(t: Seq<(u64, Vec<u8>)>) -> Seq<(u64, Seq<u8>)> {
    t.map_values(|p: (u64, Vec<u8>)| (p.0, p.1@))
}

/// A certificate object. All fields are attribute values, already encoded.
pub struct Cert {
    pub class: Vec<u8>,
    pub token: Vec<u8>,
    pub id: Vec<u8>,
    pub label: Vec<u8>,
    pub value: Vec<u8>,
    pub issuer: Vec<u8>,
    pub serial_number: Vec<u8>,
    pub subject: Vec<u8>,
}

impl Cert {
    /// Well-formedness: the constant attributes carry their canonical
    /// encodings, and the id is the SHA-256 digest of the certificate bytes
    /// (the label is a placeholder equal to the id).
    pub open spec fn wf(&self) -> bool {
        &&& self.class@ == spec_le_bytes(CKO_CERTIFICATE, ULONG_WIDTH as nat)
        &&& self.token@ == spec_le_bytes(CK_TRUE, ULONG_WIDTH as nat)
        &&& self.id@ == sha256_of(self.value@)
        &&& self.label@ == self.id@
    }

    /// Build the certificate object for a certificate with DER encoding
    /// `value` and the given issuer, serial number and subject bytes.
    pub fn new(value: Vec<u8>, issuer: Vec<u8>, serial_number: Vec<u8>, subject: Vec<u8>) -> (r:
        Cert)
        ensures
            r.wf(),
            r.value@ == value@,
            r.issuer@ == issuer@,
            r.serial_number@ == serial_number@,
            r.subject@ == subject@,
    {
        let id = sha256(&value);
        let label = clone_bytes(&id);
        Cert {
            class: serialize_uint(CKO_CERTIFICATE, ULONG_WIDTH),
            token: serialize_uint(CK_TRUE, ULONG_WIDTH),
            id,
            label,
            value,
            issuer,
            serial_number,
            subject,
        }
    }

    /// The attribute value the object reports for `attribute`, if it carries
    /// that attribute.
    pub open spec fn spec_get_attribute(&self, attribute: u64) -> Option<Seq<u8>> {
        if attribute == CKA_CLASS {
            Some(self.class@)
        } else if attribute == CKA_TOKEN {
            Some(self.token@)
        } else if attribute == CKA_LABEL {
            Some(self.label@)
        } else if attribute == CKA_ID {
            Some(self.id@)
        } else if attribute == CKA_VALUE {
            Some(self.value@)
        } else if attribute == CKA_ISSUER {
            Some(self.issuer@)
        } else if attribute == CKA_SERIAL_NUMBER {
            Some(self.serial_number@)
        } else if attribute == CKA_SUBJECT {
            Some(self.subject@)
        } else {
            None
        }
    }

    pub fn get_attribute(&self, attribute: u64) -> (r: Option<Vec<u8>>)
        ensures
            match self.spec_get_attribute(attribute) {
                Some(v) => r matches Some(b) && b@ == v,
                None => r is None,
            },
    {
        if attribute == CKA_CLASS {
            Some(clone_bytes(&self.class))
        } else if attribute == CKA_TOKEN {
            Some(clone_bytes(&self.token))
        } else if attribute == CKA_LABEL {
            Some(clone_bytes(&self.label))
        } else if attribute == CKA_ID {
            Some(clone_bytes(&self.id))
        } else if attribute == CKA_VALUE {
            Some(clone_bytes(&self.value))
        } else if attribute == CKA_ISSUER {
            Some(clone_bytes(&self.issuer))
        } else if attribute == CKA_SERIAL_NUMBER {
            Some(clone_bytes(&self.serial_number))
        } else if attribute == CKA_SUBJECT {
            Some(clone_bytes(&self.subject))
        } else {
            None
        }
    }
}

/// A private-key object's algorithm kind.
#[derive(Clone, Copy, Debug)]
pub enum KeyType {
    EC,
    RSA,
}

/// The public-key half of a certificate's SubjectPublicKeyInfo, as plain
/// values: the DER `RSAPublicKey` bit-string content for RSA, or the DER
/// algorithm parameters (the named-curve OID) for EC.
pub enum Spki {
    Rsa { public_key: Vec<u8> },
    Ec { params: Vec<u8> },
}

/// Whether a private-key object can be built from this public-key info:
/// RSA keys need a parseable `RSAPublicKey`, EC keys are taken as given.
pub open spec fn spec_spki_usable(spki: &Spki) -> bool {
    match spki {
        Spki::Rsa { public_key } => spec_read_rsa_modulus(public_key@) is Some,
        Spki::Ec { params: _ } => true,
    }
}

/// A private-key object. All byte-string fields are attribute values.
pub struct Key {
    pub class: Vec<u8>,
    pub token: Vec<u8>,
    pub id: Vec<u8>,
    pub private: Vec<u8>,
    pub key_type: Vec<u8>,
    pub modulus: Option<Vec<u8>>,
    pub ec_params: Option<Vec<u8>>,
    pub key_type_enum: KeyType,
}

impl Key {
    /// Well-formedness: constant attributes canonically encoded, the id 32
    /// bytes (a SHA-256 digest), and the algorithm-specific attributes
    /// present exactly for their algorithm.
    pub open spec fn wf(&self) -> bool {
        &&& self.class@ == spec_le_bytes(CKO_PRIVATE_KEY, ULONG_WIDTH as nat)
        &&& self.token@ == spec_le_bytes(CK_TRUE, ULONG_WIDTH as nat)
        &&& self.private@ == spec_le_bytes(CK_TRUE, ULONG_WIDTH as nat)
        &&& self.id@.len() == 32
        &&& match self.key_type_enum {
            KeyType::RSA => {
                &&& self.key_type@ == spec_le_bytes(CKK_RSA, ULONG_WIDTH as nat)
                &&& self.modulus is Some
                &&& self.ec_params is None
            },
            KeyType::EC => {
                &&& self.key_type@ == spec_le_bytes(CKK_EC, ULONG_WIDTH as nat)
                &&& self.modulus is None
                &&& self.ec_params is Some
            },
        }
    }

    /// Build the private-key object paired with the certificate whose DER
    /// encoding is `cert_der`. Fails exactly when the public-key info is
    /// unusable (an RSA `RSAPublicKey` that does not parse); the caller
    /// skips such certificates.
    pub fn new(cert_der: &Vec<u8>, spki: &Spki) -> (r: Result<Key, ()>)
        ensures
            r is Ok <==> spec_spki_usable(spki),
            r matches Ok(k) ==> {
                &&& k.wf()
                &&& k.id@ == sha256_of(cert_der@)
                &&& match spki {
                    Spki::Rsa { public_key } => {
                        &&& k.key_type_enum is RSA
                        &&& k.modulus matches Some(m) && Some(m@) == spec_read_rsa_modulus(
                            public_key@,
                        )
                    },
                    Spki::Ec { params } => {
                        &&& k.key_type_enum is EC
                        &&& k.ec_params matches Some(p) && p@ == params@
                    },
                }
            },
    {
        let id = sha256(cert_der);
        let (key_type_enum, key_type_code, modulus, ec_params): (
            KeyType,
            u64,
            Option<Vec<u8>>,
            Option<Vec<u8>>,
        ) = match spki {
            Spki::Rsa { public_key } => {
                let modulus_value = match read_rsa_modulus(public_key) {
                    Ok(m) => m,
                    Err(()) => {
                        return Err(());
                    },
                };
                (KeyType::RSA, CKK_RSA, Some(modulus_value), None)
            },
            Spki::Ec { params } => (KeyType::EC, CKK_EC, None, Some(clone_bytes(params))),
        };
        Ok(
            Key {
                class: serialize_uint(CKO_PRIVATE_KEY, ULONG_WIDTH),
                token: serialize_uint(CK_TRUE, ULONG_WIDTH),
                id,
                private: serialize_uint(CK_TRUE, ULONG_WIDTH),
                key_type: serialize_uint(key_type_code, ULONG_WIDTH),
                modulus,
                ec_params,
                key_type_enum,
            },
        )
    }

    /// The attribute value the object reports for `attribute`, if it carries
    /// that attribute. `MODULUS` and `EC_PARAMS` are carried only by the
    /// matching algorithm's keys.
    pub open spec fn spec_get_attribute(&self, attribute: u64) -> Option<Seq<u8>> {
        if attribute == CKA_CLASS {
            Some(self.class@)
        } else if attribute == CKA_TOKEN {
            Some(self.token@)
        } else if attribute == CKA_ID {
            Some(self.id@)
        } else if attribute == CKA_PRIVATE {
            Some(self.private@)
        } else if attribute == CKA_KEY_TYPE {
            Some(self.key_type@)
        } else if attribute == CKA_MODULUS && self.modulus is Some {
            Some(self.modulus->0@)
        } else if attribute == CKA_EC_PARAMS && self.ec_params is Some {
            Some(self.ec_params->0@)
        } else {
            None
        }
    }

    pub fn get_attribute(&self, attribute: u64) -> (r: Option<Vec<u8>>)
        ensures
            match self.spec_get_attribute(attribute) {
                Some(v) => r matches Some(b) && b@ == v,
                None => r is None,
            },
    {
        if attribute == CKA_CLASS {
            Some(clone_bytes(&self.class))
        } else if attribute == CKA_TOKEN {
            Some(clone_bytes(&self.token))
        } else if attribute == CKA_ID {
            Some(clone_bytes(&self.id))
        } else if attribute == CKA_PRIVATE {
            Some(clone_bytes(&self.private))
        } else if attribute == CKA_KEY_TYPE {
            Some(clone_bytes(&self.key_type))
        } else if attribute == CKA_MODULUS {
            match &self.modulus {
                Some(m) => Some(clone_bytes(m)),
                None => None,
            }
        } else if attribute == CKA_EC_PARAMS {
            match &self.ec_params {
                Some(p) => Some(clone_bytes(p)),
                None => None,
            }
        } else {
            None
        }
    }
}

/// A token object: a certificate or a private key.
pub enum Object {
    Cert(Cert),
    Key(Key),
}

impl Object {
    pub open spec fn wf(&self) -> bool {
        match self {
            Object::Cert(cert) => cert.wf(),
            Object::Key(key) => key.wf(),
        }
    }

    /// The object's `ID` attribute value.
    pub open spec fn spec_id(&self) -> Seq<u8> {
        match self {
            Object::Cert(cert) => cert.id@,
            Object::Key(key) => key.id@,
        }
    }

    pub open spec fn spec_get_attribute(&self, attribute: u64) -> Option<Seq<u8>> {
        match self {
            Object::Cert(cert) => cert.spec_get_attribute(attribute),
            Object::Key(key) => key.spec_get_attribute(attribute),
        }
    }

    /// Whether every `(attribute, value)` pair of the template is carried by
    /// the object with exactly those bytes.
    pub open spec fn spec_matches(&self, template: Seq<(u64, Seq<u8>)>) -> bool {
        forall|i: int|
            0 <= i < template.len() ==> self.spec_get_attribute(template[i].0) == Some(
                template[i].1,
            )
    }

    pub fn get_attribute(&self, attribute: u64) -> (r: Option<Vec<u8>>)
        ensures
            match self.spec_get_attribute(attribute) {
                Some(v) => r matches Some(b) && b@ == v,
                None => r is None,
            },
    {
        match self {
            Object::Cert(cert) => cert.get_attribute(attribute),
            Object::Key(key) => key.get_attribute(attribute),
        }
    }

    pub fn matches(&self, attrs: &Vec<(u64, Vec<u8>)>) -> (r: bool)
        ensures
            r == self.spec_matches(spec_template(attrs@)),
    {
        let ghost t = spec_template(attrs@);
        let mut i: usize = 0;
        while i < attrs.len()
            invariant
                i <= attrs@.len(),
                t == spec_template(attrs@),
                forall|j: int|
                    0 <= j < i ==> self.spec_get_attribute(t[j].0) == Some(t[j].1),
            decreases attrs@.len() - i,
        {
            let pair = &attrs[i];
            let attr_type = pair.0;
            let comparison = self.get_attribute(attr_type);
            match comparison {
                Some(stored) => {
                    if !bytes_eq(&pair.1, &stored) {
                        proof {
                            assert(self.spec_get_attribute(t[i as int].0) != Some(t[i as int].1));
                        }
                        return false;
                    }
                },
                None => {
                    proof {
                        assert(self.spec_get_attribute(t[i as int].0) != Some(t[i as int].1));
                    }
                    return false;
                },
            }
            i = i + 1;
        }
        true
    }
}

/// The law of template matching: a template matches an object exactly when
/// every templated attribute is present on the object with exactly the
/// templated bytes, as reported by attribute lookup.
pub proof fn lemma_matches_characterization(o: Object, template: Seq<(u64, Seq<u8>)>)
    ensures
        o.spec_matches(template) <==> (forall|i: int|
            0 <= i < template.len() ==> o.spec_get_attribute(template[i].0) == Some(
                template[i].1,
            )),
{
}

/// Attribute lookup is read-only and deterministic: what it returns is a
/// function of the object and the attribute type alone, so any number of
/// calls returns the same bytes.
pub proof fn lemma_get_attribute_stable(
    o: Object,
    attribute: u64,
    r1: Option<Seq<u8>>,
    r2: Option<Seq<u8>>,
)
    requires
        r1 == o.spec_get_attribute(attribute),
        r2 == o.spec_get_attribute(attribute),
    ensures
        r1 == r2,
{
}

/// Field-element width in bytes for the NIST curves this module recognizes,
/// keyed by the DER-encoded named-curve OID found in `EC_PARAMS`.
pub open spec fn spec_ec_field_len(params: Seq<u8>) -> Option<usize> {
    if spec_is_p256(params) {
        Some(32usize)
    } else if spec_is_p384(params) {
        Some(48usize)
    } else if spec_is_p521(params) {
        Some(66usize)
    } else {
        None
    }
}

/// The DER OID 1.2.840.10045.3.1.7 (secp256r1).
pub open spec fn spec_is_p256(s: Seq<u8>) -> bool {
    s =~= seq![0x06u8, 0x08, 0x2a, 0x86, 0x48, 0xce, 0x3d, 0x03, 0x01, 0x07]
}

/// The DER OID 1.3.132.0.34 (secp384r1).
pub open spec fn spec_is_p384(s: Seq<u8>) -> bool {
    s =~= seq![0x06u8, 0x05, 0x2b, 0x81, 0x04, 0x00, 0x22]
}

/// The DER OID 1.3.132.0.35 (secp521r1).
pub open spec fn spec_is_p521(s: Seq<u8>) -> bool {
    s =~= seq![0x06u8, 0x05, 0x2b, 0x81, 0x04, 0x00, 0x23]
}

/// Field-element width for the curve named by `EC_PARAMS`, or `None` for a
/// curve this module does not recognize.
pub fn ec_field_len(params: &Vec<u8>) -> (r: Option<usize>)
    ensures
        r == spec_ec_field_len(params@),
{
    let p256: Vec<u8> = oid_p256();
    if bytes_eq(params, &p256) {
        return Some(32);
    }
    let p384: Vec<u8> = oid_p384();
    if bytes_eq(params, &p384) {
        return Some(48);
    }
    let p521: Vec<u8> = oid_p521();
    if bytes_eq(params, &p521) {
        return Some(66);
    }
    None
}

fn oid_p256() -> (r: Vec<u8>)
    ensures
        r@ == seq![0x06u8, 0x08, 0x2a, 0x86, 0x48, 0xce, 0x3d, 0x03, 0x01, 0x07],
{
    let mut v: Vec<u8> = Vec::new();
    v.push(0x06);
    v.push(0x08);
    v.push(0x2a);
    v.push(0x86);
    v.push(0x48);
    v.push(0xce);
    v.push(0x3d);
    v.push(0x03);
    v.push(0x01);
    v.push(0x07);
    proof {
        assert(v@ =~= seq![0x06u8, 0x08, 0x2a, 0x86, 0x48, 0xce, 0x3d, 0x03, 0x01, 0x07]);
    }
    v
}

fn oid_p384() -> (r: Vec<u8>)
    ensures
        r@ == seq![0x06u8, 0x05, 0x2b, 0x81, 0x04, 0x00, 0x22],
{
    let mut v: Vec<u8> = Vec::new();
    v.push(0x06);
    v.push(0x05);
    v.push(0x2b);
    v.push(0x81);
    v.push(0x04);
    v.push(0x00);
    v.push(0x22);
    proof {
        assert(v@ =~= seq![0x06u8, 0x05, 0x2b, 0x81, 0x04, 0x00, 0x22]);
    }
    v
}

fn oid_p521() -> (r: Vec<u8>)
    ensures
        r@ == seq![0x06u8, 0x05, 0x2b, 0x81, 0x04, 0x00, 0x23],
{
    let mut v: Vec<u8> = Vec::new();
    v.push(0x06);
    v.push(0x05);
    v.push(0x2b);
    v.push(0x81);
    v.push(0x04);
    v.push(0x00);
    v.push(0x23);
    proof {
        assert(v@ =~= seq![0x06u8, 0x05, 0x2b, 0x81, 0x04, 0x00, 0x23]);
    }
    v
}

} // verus!
