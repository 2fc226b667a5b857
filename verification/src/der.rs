//! A minimal DER reader.
//!
//! The module reads constructed SEQUENCEs and INTEGERs with short-form and
//! 0x81/0x82 long-form length encodings, rejecting non-minimal encodings,
//! truncation and trailing data. It is used to pull the modulus out of an
//! `RSAPublicKey` and to deconstruct an ECDSA signature into `r` and `s`.
//!
//! Every reader has a specification-level twin (`spec_der_read`,
//! `spec_read_uint`, ...) that defines exactly which inputs parse and what
//! they parse to; the executable readers are proved to agree with the twins.

use vstd::prelude::*;

use crate::util::append_bytes;
use crate::util::push_zeros;
use crate::util::subrange_vec;

verus! {

/// ASN.1 tag identifying an integer.
pub const INTEGER: u8 = 0x02;

/// ASN.1 tag identifying a sequence.
pub const SEQUENCE: u8 = 0x10;

/// ASN.1 tag modifier identifying an item as constructed.
pub const CONSTRUCTED: u8 = 0x20;

/// Result of decoding a DER length at the head of `s`: the content length
/// and the number of length bytes, or `None` if the encoding is truncated,
/// non-minimal, or uses a form this reader does not support.
pub open spec fn spec_len_parse(s: Seq<u8>) -> Option<(nat, nat)> {
    if s.len() >= 1 && s[0] < 0x80 {
        Some((s[0] as nat, 1nat))
    } else if s.len() >= 2 && s[0] == 0x81 && s[1] >= 0x80 {
        Some((s[1] as nat, 2nat))
    } else if s.len() >= 3 && s[0] == 0x82 && (s[1] as nat) * 256 + (s[2] as nat) >= 256 {
        Some(((s[1] as nat) * 256 + (s[2] as nat), 3nat))
    } else {
        None
    }
}

/// Result of reading one tagged item at the head of `s`: the item's content
/// bytes and the bytes that follow it, or `None` if the head of `s` is not a
/// well-formed item with tag `tag`.
pub open spec fn spec_der_read(s: Seq<u8>, tag: u8) -> Option<(Seq<u8>, Seq<u8>)> {
    if s.len() >= 1 && s[0] == tag {
        match spec_len_parse(s.skip(1)) {
            Some((len, hdr)) => {
                if s.len() >= 1 + hdr + len {
                    Some(
                        (
                            s.subrange(1 + hdr as int, 1 + hdr + len as int),
                            s.skip(1 + hdr + len as int),
                        ),
                    )
                } else {
                    None
                }
            },
            None => None,
        }
    } else {
        None
    }
}

/// A helper struct for reading DER data. The contents are treated like a
/// cursor, so its position is updated as data is read.
pub struct Der {
    contents: Vec<u8>,
}

impl Der {
    /// The bytes the cursor has not consumed yet.
    pub closed spec fn bytes(&self) -> Seq<u8> {
        self.contents@
    }

    pub fn new(contents: &Vec<u8>) -> (r: Der)
        ensures
            r.bytes() == contents@,
    {
        let copy = subrange_vec(contents, 0, contents.len());
        proof {
            assert(copy@ =~= contents@);
        }
        Der { contents: copy }
    }

    /// Read one item with the given tag from the head of the cursor. On
    /// success the cursor advances past the item; on failure it is unchanged.
    pub fn read(&mut self, tag: u8) -> (r: Result<Vec<u8>, ()>)
        ensures
            match spec_der_read(old(self).bytes(), tag) {
                Some((content, rest)) => {
                    &&& r matches Ok(v) && v@ == content
                    &&& final(self).bytes() == rest
                },
                None => r is Err && final(self).bytes() == old(self).bytes(),
            },
    {
        let n = self.contents.len();
        if n < 1 {
            return Err(());
        }
        if self.contents[0] != tag {
            return Err(());
        }
        if n < 2 {
            return Err(());
        }
        proof {
            assert(old(self).bytes().skip(1)[0] == old(self).bytes()[1]);
        }
        let l1 = self.contents[1];
        let (length, header): (usize, usize) = if l1 < 0x80 {
            (l1 as usize, 2)
        } else if l1 == 0x81 {
            if n < 3 {
                return Err(());
            }
            let l2 = self.contents[2];
            proof {
                assert(old(self).bytes().skip(1)[1] == old(self).bytes()[2]);
            }
            if l2 < 0x80 {
                return Err(());
            }
            (l2 as usize, 3)
        } else if l1 == 0x82 {
            if n < 4 {
                return Err(());
            }
            let hi = self.contents[2];
            let lo = self.contents[3];
            proof {
                assert(old(self).bytes().skip(1)[1] == old(self).bytes()[2]);
                assert(old(self).bytes().skip(1)[2] == old(self).bytes()[3]);
            }
            let two: usize = (hi as usize) * 256 + (lo as usize);
            if two < 256 {
                return Err(());
            }
            (two, 4)
        } else {
            return Err(());
        };
        if n - header < length {
            return Err(());
        }
        let content = subrange_vec(&self.contents, header, header + length);
        let rest = subrange_vec(&self.contents, header + length, n);
        self.contents = rest;
        proof {
            assert(final(self).bytes() =~= old(self).bytes().skip(
                header + length,
            ));
        }
        Ok(content)
    }

    pub fn at_end(&self) -> (r: bool)
        ensures
            r == (self.bytes().len() == 0),
    {
        self.contents.len() == 0
    }
}

/// The content of an INTEGER with a redundant leading zero removed.
pub open spec fn spec_uint_strip(content: Seq<u8>) -> Seq<u8> {
    if content.len() > 1 && content[0] == 0 {
        content.skip(1)
    } else {
        content
    }
}

/// Result of reading an unsigned INTEGER at the head of `s`: the integer's
/// bytes (leading zero stripped) and the bytes that follow, or `None` if the
/// head is not an INTEGER or its content is empty.
pub open spec fn spec_read_uint(s: Seq<u8>) -> Option<(Seq<u8>, Seq<u8>)> {
    match spec_der_read(s, INTEGER) {
        Some((content, rest)) => {
            if content.len() == 0 {
                None
            } else {
                Some((spec_uint_strip(content), rest))
            }
        },
        None => None,
    }
}

/// The content of the input when it is exactly one constructed SEQUENCE with
/// nothing after it, or `None` otherwise.
pub open spec fn spec_sequence_new(input: Seq<u8>) -> Option<Seq<u8>> {
    match spec_der_read(input, SEQUENCE | CONSTRUCTED) {
        Some((content, rest)) => {
            if rest.len() == 0 {
                Some(content)
            } else {
                None
            }
        },
        None => None,
    }
}

/// A helper struct for reading items from a DER SEQUENCE (all sequences are
/// assumed to be CONSTRUCTED, and to span the entire input).
pub struct Sequence {
    contents: Der,
}

impl Sequence {
    /// The sequence content bytes not consumed yet.
    pub closed spec fn bytes(&self) -> Seq<u8> {
        self.contents.bytes()
    }

    pub fn new(input: &Vec<u8>) -> (r: Result<Sequence, ()>)
        ensures
            match spec_sequence_new(input@) {
                Some(content) => r matches Ok(s) && s.bytes() == content,
                None => r is Err,
            },
    {
        let mut der = Der::new(input);
        let sequence_bytes = match der.read(SEQUENCE | CONSTRUCTED) {
            Ok(b) => b,
            Err(()) => {
                return Err(());
            },
        };
        if !der.at_end() {
            return Err(());
        }
        Ok(Sequence { contents: Der::new(&sequence_bytes) })
    }

    /// Read one unsigned INTEGER from the head of the remaining content,
    /// stripping a redundant leading zero byte.
    pub fn read_unsigned_integer(&mut self) -> (r: Result<Vec<u8>, ()>)
        ensures
            match spec_der_read(old(self).bytes(), INTEGER) {
                Some((content, rest)) => {
                    &&& final(self).bytes() == rest
                    &&& if content.len() == 0 {
                        r is Err
                    } else {
                        r matches Ok(v) && v@ == spec_uint_strip(content)
                    }
                },
                None => r is Err && final(self).bytes() == old(self).bytes(),
            },
    {
        let bytes = match self.contents.read(INTEGER) {
            Ok(b) => b,
            Err(()) => {
                return Err(());
            },
        };
        if bytes.len() == 0 {
            return Err(());
        }
        if bytes[0] == 0 && bytes.len() > 1 {
            Ok(subrange_vec(&bytes, 1, bytes.len()))
        } else {
            proof {
                assert(bytes@.subrange(1, bytes@.len() as int) =~= bytes@.skip(1));
            }
            Ok(bytes)
        }
    }

    pub fn at_end(&self) -> (r: bool)
        ensures
            r == (self.bytes().len() == 0),
    {
        self.contents.at_end()
    }
}

/// The modulus that `read_rsa_modulus` extracts from `s`, or `None` when `s`
/// is not exactly `SEQUENCE { INTEGER, INTEGER }`.
pub open spec fn spec_read_rsa_modulus(s: Seq<u8>) -> Option<Seq<u8>> {
    match spec_sequence_new(s) {
        Some(content) => match spec_read_uint(content) {
            Some((modulus, rest1)) => match spec_read_uint(rest1) {
                Some((_exponent, rest2)) => {
                    if rest2.len() == 0 {
                        Some(modulus)
                    } else {
                        None
                    }
                },
                None => None,
            },
            None => None,
        },
        None => None,
    }
}

/// Given DER bytes representing an RSA public key, extracts the bytes of the
/// modulus as an unsigned integer. Also verifies that the public exponent is
/// present (again as an unsigned integer), and that reading these values
/// consumes the entirety of the input.
/// RSAPublicKey ::= SEQUENCE {
///     modulus           INTEGER,  -- n
///     publicExponent    INTEGER   -- e
/// }
pub fn read_rsa_modulus(public_key: &Vec<u8>) -> (r: Result<Vec<u8>, ()>)
    ensures
        match spec_read_rsa_modulus(public_key@) {
            Some(modulus) => r matches Ok(v) && v@ == modulus,
            None => r is Err,
        },
{
    let mut sequence = match Sequence::new(public_key) {
        Ok(s) => s,
        Err(()) => {
            return Err(());
        },
    };
    let modulus_value = match sequence.read_unsigned_integer() {
        Ok(v) => v,
        Err(()) => {
            return Err(());
        },
    };
    let _exponent = match sequence.read_unsigned_integer() {
        Ok(v) => v,
        Err(()) => {
            return Err(());
        },
    };
    if !sequence.at_end() {
        return Err(());
    }
    Ok(modulus_value)
}

/// The `(r, s)` pair that `read_ec_sig_point` extracts from the input, or
/// `None` when the input is not exactly `SEQUENCE { INTEGER, INTEGER }`.
pub open spec fn spec_read_ec_sig_point(sig: Seq<u8>) -> Option<(Seq<u8>, Seq<u8>)> {
    match spec_sequence_new(sig) {
        Some(content) => match spec_read_uint(content) {
            Some((r_int, rest1)) => match spec_read_uint(rest1) {
                Some((s_int, rest2)) => {
                    if rest2.len() == 0 {
                        Some((r_int, s_int))
                    } else {
                        None
                    }
                },
                None => None,
            },
            None => None,
        },
        None => None,
    }
}

/// Given DER bytes representing an ECDSA signature, extracts the bytes of `r`
/// and `s` as unsigned integers. Also verifies that this consumes the
/// entirety of the input.
///   Ecdsa-Sig-Value  ::=  SEQUENCE  {
///        r     INTEGER,
///        s     INTEGER  }
pub fn read_ec_sig_point(signature: &Vec<u8>) -> (r: Result<(Vec<u8>, Vec<u8>), ()>)
    ensures
        match spec_read_ec_sig_point(signature@) {
            Some((ri, si)) => r matches Ok(p) && p.0@ == ri && p.1@ == si,
            None => r is Err,
        },
{
    let mut sequence = match Sequence::new(signature) {
        Ok(s) => s,
        Err(()) => {
            return Err(());
        },
    };
    let r_int = match sequence.read_unsigned_integer() {
        Ok(v) => v,
        Err(()) => {
            return Err(());
        },
    };
    let s_int = match sequence.read_unsigned_integer() {
        Ok(v) => v,
        Err(()) => {
            return Err(());
        },
    };
    if !sequence.at_end() {
        return Err(());
    }
    Ok((r_int, s_int))
}

/// All-zero byte string of length `n`.
pub open spec fn spec_zeros(n: nat) -> Seq<u8> {
    Seq::new(n, |i: int| 0u8)
}

/// The raw `r || s` form of a DER ECDSA signature over a curve whose field
/// elements take `field_len` bytes: each integer left-padded with zeros to
/// `field_len`. `None` when the input does not parse as a signature or one
/// of the integers does not fit the field.
pub open spec fn spec_ec_sig_to_raw(sig: Seq<u8>, field_len: nat) -> Option<Seq<u8>> {
    match spec_read_ec_sig_point(sig) {
        Some((ri, si)) => {
            if ri.len() <= field_len && si.len() <= field_len {
                Some(
                    spec_zeros((field_len - ri.len()) as nat) + ri + spec_zeros(
                        (field_len - si.len()) as nat,
                    ) + si,
                )
            } else {
                None
            }
        },
        None => None,
    }
}

/// Convert a DER `SEQUENCE { INTEGER r, INTEGER s }` ECDSA signature into the
/// raw `r || s` concatenation Cryptoki hands to the host, padding each
/// integer with leading zeros to the curve's field-element width.
pub fn ec_sig_to_raw(signature: &Vec<u8>, field_len: usize) -> (r: Result<Vec<u8>, ()>)
    requires
        field_len <= usize::MAX / 2,
    ensures
        match spec_ec_sig_to_raw(signature@, field_len as nat) {
            Some(raw) => r matches Ok(v) && v@ == raw,
            None => r is Err,
        },
{
    let (r_int, s_int) = match read_ec_sig_point(signature) {
        Ok(p) => p,
        Err(()) => {
            return Err(());
        },
    };
    if r_int.len() > field_len || s_int.len() > field_len {
        return Err(());
    }
    let mut out: Vec<u8> = Vec::new();
    push_zeros(&mut out, field_len - r_int.len());
    append_bytes(&mut out, &r_int);
    push_zeros(&mut out, field_len - s_int.len());
    append_bytes(&mut out, &s_int);
    proof {
        assert(out@ =~= spec_zeros((field_len - r_int@.len()) as nat) + r_int@ + spec_zeros(
            (field_len - s_int@.len()) as nat,
        ) + s_int@);
    }
    Ok(out)
}

} // verus!
