use osclientcerts::der::ec_sig_to_raw;
use osclientcerts::der::read_ec_sig_point;
use osclientcerts::der::read_rsa_modulus;

// SEQUENCE { INTEGER 0x00 0x81, INTEGER 0x03 }: the modulus comes back with
// the leading sign byte stripped.
#[test]
fn rsa_modulus_strips_leading_zero() {
    let input = vec![0x30, 0x07, 0x02, 0x02, 0x00, 0x81, 0x02, 0x01, 0x03];
    assert_eq!(read_rsa_modulus(&input), Ok(vec![0x81]));
}

#[test]
fn rsa_modulus_without_leading_zero_kept_whole() {
    let input = vec![0x30, 0x06, 0x02, 0x01, 0x7f, 0x02, 0x01, 0x03];
    assert_eq!(read_rsa_modulus(&input), Ok(vec![0x7f]));
}

#[test]
fn rsa_modulus_rejects_single_integer() {
    let input = vec![0x30, 0x03, 0x02, 0x01, 0x01];
    assert!(read_rsa_modulus(&input).is_err());
}

#[test]
fn rsa_modulus_rejects_wrong_inner_tag() {
    // SEQUENCE { OCTET STRING, INTEGER }
    let input = vec![0x30, 0x06, 0x04, 0x01, 0x01, 0x02, 0x01, 0x03];
    assert!(read_rsa_modulus(&input).is_err());
}

#[test]
fn rsa_modulus_rejects_trailing_bytes_inside_sequence() {
    let input = vec![0x30, 0x07, 0x02, 0x01, 0x01, 0x02, 0x01, 0x03, 0x00];
    assert!(read_rsa_modulus(&input).is_err());
}

#[test]
fn rsa_modulus_rejects_trailing_bytes_after_sequence() {
    let input = vec![0x30, 0x06, 0x02, 0x01, 0x01, 0x02, 0x01, 0x03, 0x00];
    assert!(read_rsa_modulus(&input).is_err());
}

#[test]
fn rsa_modulus_rejects_empty_integer() {
    let input = vec![0x30, 0x05, 0x02, 0x00, 0x02, 0x01, 0x03];
    assert!(read_rsa_modulus(&input).is_err());
}

#[test]
fn rsa_modulus_rejects_non_minimal_one_byte_long_form() {
    // 0x81 length byte whose value is below 0x80.
    let input = vec![0x30, 0x81, 0x06, 0x02, 0x01, 0x01, 0x02, 0x01, 0x03];
    assert!(read_rsa_modulus(&input).is_err());
}

#[test]
fn rsa_modulus_rejects_non_minimal_two_byte_long_form() {
    // 0x82 length bytes whose value is below 256.
    let input = vec![0x30, 0x82, 0x00, 0x06, 0x02, 0x01, 0x01, 0x02, 0x01, 0x03];
    assert!(read_rsa_modulus(&input).is_err());
}

#[test]
fn rsa_modulus_rejects_truncated_content() {
    let input = vec![0x30, 0x06, 0x02, 0x01, 0x01, 0x02, 0x05, 0x03];
    assert!(read_rsa_modulus(&input).is_err());
}

#[test]
fn rsa_modulus_accepts_one_byte_long_form_length() {
    // A SEQUENCE whose content is 0x80 bytes long: an INTEGER carrying 123
    // bytes plus a one-byte INTEGER.
    let mut input = vec![0x30, 0x81, 0x80, 0x02, 0x7b];
    let modulus_bytes = vec![0x55; 0x7b];
    input.extend_from_slice(&modulus_bytes);
    input.extend_from_slice(&[0x02, 0x01, 0x03]);
    assert_eq!(read_rsa_modulus(&input), Ok(modulus_bytes));
}

#[test]
fn ec_sig_point_strips_leading_zeros() {
    let input = vec![0x30, 0x08, 0x02, 0x02, 0x00, 0xaa, 0x02, 0x02, 0x00, 0xbb];
    assert_eq!(read_ec_sig_point(&input), Ok((vec![0xaa], vec![0xbb])));
}

#[test]
fn ec_sig_to_raw_pads_each_half() {
    let input = vec![0x30, 0x07, 0x02, 0x01, 0x0a, 0x02, 0x02, 0x0b, 0x0c];
    assert_eq!(
        ec_sig_to_raw(&input, 4),
        Ok(vec![0x00, 0x00, 0x00, 0x0a, 0x00, 0x00, 0x0b, 0x0c])
    );
}

#[test]
fn ec_sig_to_raw_rejects_oversized_integer() {
    let input = vec![0x30, 0x08, 0x02, 0x03, 0x0a, 0x0b, 0x0c, 0x02, 0x01, 0x0d];
    assert!(ec_sig_to_raw(&input, 2).is_err());
}

#[test]
fn ec_sig_to_raw_rejects_malformed_signature() {
    let input = vec![0x30, 0x03, 0x02, 0x01, 0x0a];
    assert!(ec_sig_to_raw(&input, 32).is_err());
}
