use anoma_host::address::Address;
use anoma_host::codec::{decode_byte_list, decode_u64, encode_u64};
use anoma_host::ibc::data::{decimal, decode_state, encode_state, parse_decimal, ClientType, Height};
use anoma_host::key::{Key, KeyError};

#[test]
fn keys_parse_and_print() {
    let k = Key::parse(b"a/#estX/c").unwrap();
    assert_eq!(k.len(), 3);
    assert_eq!(k.to_bytes(), b"a/#estX/c".to_vec());
    let addrs = k.find_addresses();
    assert_eq!(addrs.len(), 1);
    assert!(addrs[0].same(&Address::Established(b"X".to_vec())));
    assert_eq!(Key::parse(b"").unwrap_err(), KeyError::EmptySegment);
    assert_eq!(Key::parse(b"/a").unwrap_err(), KeyError::EmptySegment);
    assert_eq!(Key::parse(b"a/").unwrap_err(), KeyError::EmptySegment);
    assert!(Key::parse(b"#validity_predicate/#IBC").unwrap().is_validity_predicate().is_some());
    assert!(Key::parse(b"#IBC/clients").unwrap().find_addresses()[0].is_implicit_or_internal());
}

#[test]
fn addresses_decode() {
    assert!(matches!(Address::decode(b"IBC"), Some(Address::Internal(_))));
    assert!(matches!(Address::decode(b"impQ"), Some(Address::Implicit(id)) if id == b"Q".to_vec()));
    assert!(Address::decode(b"est").is_none());
    assert!(Address::decode(b"xyz1").is_none());
    assert_eq!(Address::Established(b"7".to_vec()).encode(), b"est7".to_vec());
}

#[test]
fn integers_and_lists() {
    assert_eq!(encode_u64(258), vec![2, 1, 0, 0, 0, 0, 0, 0]);
    assert_eq!(decode_u64(&[2, 1, 0, 0, 0, 0, 0, 0]), Some(258));
    assert_eq!(decode_u64(&[1, 2, 3]), None);
    assert_eq!(decimal(1024), b"1024".to_vec());
    assert_eq!(decimal(0), b"0".to_vec());
    assert_eq!(parse_decimal(b"1024"), Some(1024));
    assert_eq!(parse_decimal(b"007"), None);
    assert_eq!(parse_decimal(b"18446744073709551616"), None);
    assert_eq!(decode_byte_list(&[1, 0, 0, 0, 2, 0, 0, 0, 5, 6]), Some(vec![vec![5, 6]]));
    assert_eq!(decode_byte_list(&[1, 0, 0, 0, 2, 0, 0, 0, 5]), None);
}

#[test]
fn client_states_round_trip() {
    let h = Height { revision_number: 1, revision_height: 10 };
    let b = encode_state(ClientType::Tendermint, h);
    assert_eq!(&b[0..4], &[13, 0, 0, 0]);
    assert_eq!(decode_state(&b), Some((ClientType::Tendermint, h)));
    assert_eq!(decode_state(&b[..b.len() - 1]), None);
}
