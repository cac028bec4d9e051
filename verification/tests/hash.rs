use bonsai_git_mapping::hex::{decode, encode};
use bonsai_git_mapping::{ChangesetId, GitSha1, GitSha1Prefix, ParseError, RepositoryId};

const ONES_HEX: &str = "1111111111111111111111111111111111111111";

#[test]
fn git_sha1_from_str_parses_forty_digits() {
    let h = GitSha1::from_str("0123456789abcdefABCDEF000000000000000010").unwrap();
    assert_eq!(
        h.as_bytes(),
        &[
            0x01, 0x23, 0x45, 0x67, 0x89, 0xab, 0xcd, 0xef, 0xab, 0xcd, 0xef, 0, 0, 0, 0, 0, 0, 0,
            0, 0x10
        ]
    );
}

#[test]
fn git_sha1_hex_round_trip() {
    let h = GitSha1::from_str(ONES_HEX).unwrap();
    assert_eq!(h.to_hex(), ONES_HEX.as_bytes().to_vec());
    assert_eq!(GitSha1::from_hex(&h.to_hex()), Ok(h));
    assert_eq!(h, GitSha1::from_byte_array([0x11; 20]));
}

#[test]
fn git_sha1_from_str_refuses_other_lengths() {
    assert_eq!(
        GitSha1::from_str("abc"),
        Err(ParseError::InvalidLength { len: 3 })
    );
    assert_eq!(
        GitSha1::from_str(""),
        Err(ParseError::InvalidLength { len: 0 })
    );
}

#[test]
fn git_sha1_from_str_names_the_first_bad_digit() {
    assert_eq!(
        GitSha1::from_str("11111g1111111111111111111111111111111z11"),
        Err(ParseError::InvalidHex { position: 5 })
    );
}

#[test]
fn git_sha1_from_bytes_wants_twenty_bytes() {
    assert_eq!(
        GitSha1::from_bytes(&[7u8; 20]),
        Ok(GitSha1::from_byte_array([7u8; 20]))
    );
    assert_eq!(
        GitSha1::from_bytes(&[7u8; 19]),
        Err(ParseError::InvalidLength { len: 19 })
    );
}

#[test]
fn git_sha1_order_is_the_order_of_the_bytes() {
    let mut low = [0u8; 20];
    let mut high = [0u8; 20];
    low[19] = 0xff;
    high[18] = 0x01;
    let low = GitSha1::from_byte_array(low);
    let high = GitSha1::from_byte_array(high);
    assert!(low.precedes(&high));
    assert!(!high.precedes(&low));
    assert!(!low.precedes(&low));
    assert!(low.is_within(&low, &high));
    assert!(high.is_within(&low, &high));
    assert!(!high.is_within(&low, &low));
    assert!(low.equals(&low));
    assert!(!low.equals(&high));
}

#[test]
fn changeset_id_parses_sixty_four_digits() {
    let text = "00000000000000000000000000000000000000000000000000000000000000ff";
    let id = ChangesetId::from_hex(text.as_bytes()).unwrap();
    let mut bytes = [0u8; 32];
    bytes[31] = 0xff;
    assert_eq!(id, ChangesetId::new(bytes));
    assert_eq!(id.to_hex(), text.as_bytes().to_vec());
    assert_eq!(ChangesetId::from_bytes(&bytes), Ok(id));
    assert_eq!(
        ChangesetId::from_hex(ONES_HEX.as_bytes()),
        Err(ParseError::InvalidLength { len: 40 })
    );
    assert_eq!(
        ChangesetId::from_bytes(&[0u8; 20]),
        Err(ParseError::InvalidLength { len: 20 })
    );
}

#[test]
fn hex_decode_and_encode() {
    assert_eq!(decode(b"00ffA1"), Ok(vec![0x00, 0xff, 0xa1]));
    assert_eq!(decode(b"0x"), Err(ParseError::InvalidHex { position: 1 }));
    assert_eq!(decode(b"abc"), Err(ParseError::InvalidLength { len: 3 }));
    assert_eq!(encode(&[0x00, 0xff, 0xa1]), b"00ffa1".to_vec());
}

#[test]
fn repository_id_wraps_a_number() {
    assert_eq!(RepositoryId::new(5).id(), 5);
    assert_eq!(RepositoryId::new(5), RepositoryId(5));
}

#[test]
fn prefix_pads_with_zeros_and_with_ones() {
    let p = GitSha1Prefix::from_str("abc").unwrap();
    assert_eq!(
        p.min_cs(),
        GitSha1::from_str("abc0000000000000000000000000000000000000").unwrap()
    );
    assert_eq!(
        p.max_cs(),
        GitSha1::from_str("abcfffffffffffffffffffffffffffffffffffff").unwrap()
    );
    assert_eq!(p.min_as_ref()[1], 0xc0);
    assert_eq!(p.max_as_ref()[1], 0xcf);
    assert_eq!(p.into_git_sha1(), None);
}

#[test]
fn empty_prefix_covers_every_hash() {
    let p = GitSha1Prefix::from_str("").unwrap();
    assert_eq!(p.min_cs(), GitSha1::from_byte_array([0x00; 20]));
    assert_eq!(p.max_cs(), GitSha1::from_byte_array([0xff; 20]));
}

#[test]
fn full_prefix_is_one_hash() {
    let p = GitSha1Prefix::from_str(ONES_HEX).unwrap();
    assert_eq!(
        p.into_git_sha1(),
        Some(GitSha1::from_byte_array([0x11; 20]))
    );
}

#[test]
fn prefix_refuses_what_is_no_prefix() {
    assert_eq!(
        GitSha1Prefix::from_str("11111111111111111111111111111111111111111"),
        Err(ParseError::InvalidLength { len: 41 })
    );
    assert_eq!(
        GitSha1Prefix::from_str("12x4"),
        Err(ParseError::InvalidHex { position: 2 })
    );
    assert_eq!(
        GitSha1Prefix::from_bytes(&[0u8; 21]),
        Err(ParseError::InvalidLength { len: 21 })
    );
}

#[test]
fn prefix_from_bytes_pads_whole_bytes() {
    let p = GitSha1Prefix::from_bytes(&[0xab, 0xcd]).unwrap();
    assert_eq!(
        p,
        GitSha1Prefix::from_str("abcd").unwrap()
    );
    let mut max = [0xffu8; 20];
    max[0] = 0xab;
    max[1] = 0xcd;
    assert_eq!(p.max_cs(), GitSha1::from_byte_array(max));
}
