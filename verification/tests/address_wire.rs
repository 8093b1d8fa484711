use runnel::address::{Address, AddressError, Host};
use runnel::wire::{append, copy_range, get_be16, get_be32, get_be64, put_be16, put_be32, put_be64};

#[test]
fn ipv4_address_on_the_wire() {
    let a = Address { host: Host::V4([127, 0, 0, 1]), port: 80 };
    assert_eq!(a.encode(), vec![1, 127, 0, 0, 1, 0, 80]);
    assert_eq!(Address::decode(&[1, 127, 0, 0, 1, 0, 80]), Ok((a, 7)));
}

#[test]
fn ipv6_address_on_the_wire() {
    let ip = [0x20, 0x01, 0x0d, 0xb8, 0, 0, 0, 0, 0, 0, 0, 0, 0, 0, 0, 1];
    let a = Address { host: Host::V6(ip), port: 443 };
    let mut expected = vec![4];
    expected.extend_from_slice(&ip);
    expected.extend_from_slice(&[1, 187]);
    assert_eq!(a.encode(), expected);
    assert_eq!(Address::decode(&expected), Ok((a, 19)));
}

#[test]
fn domain_address_on_the_wire() {
    let a = Address { host: Host::Domain(b"example.org".to_vec()), port: 8443 };
    let mut expected = vec![3, 11];
    expected.extend_from_slice(b"example.org");
    expected.extend_from_slice(&[0x20, 0xFB]);
    assert_eq!(a.encode(), expected);
    assert_eq!(Address::decode(&expected), Ok((a, 15)));
}

#[test]
fn address_decode_says_how_much_it_took() {
    let bytes = [1, 10, 0, 0, 9, 0x1F, 0x90, 0xAA, 0xBB];
    let (a, used) = Address::decode(&bytes).unwrap();
    assert_eq!(a, Address { host: Host::V4([10, 0, 0, 9]), port: 8080 });
    assert_eq!(used, 7);
}

#[test]
fn address_errors() {
    assert_eq!(Address::decode(&[]), Err(AddressError::Truncated));
    assert_eq!(Address::decode(&[1, 1, 2, 3, 4, 0]), Err(AddressError::Truncated));
    assert_eq!(Address::decode(&[4, 1, 2, 3]), Err(AddressError::Truncated));
    assert_eq!(Address::decode(&[3]), Err(AddressError::Truncated));
    assert_eq!(Address::decode(&[3, 2, b'a', b'b', 0]), Err(AddressError::Truncated));
    assert_eq!(Address::decode(&[0, 1, 2, 3, 4, 0, 80]), Err(AddressError::UnsupportedType));
    assert_eq!(Address::decode(&[2, 1, 2, 3, 4, 0, 80]), Err(AddressError::UnsupportedType));
    assert_eq!(Address::decode(&[3, 1, 0xFF, 0, 80]), Err(AddressError::InvalidDomain));
    assert_eq!(Address::decode(&[3, 3, 0xE2, 0x82, 0x28, 0, 80]), Err(AddressError::InvalidDomain));
}

#[test]
fn domain_constructor_checks_length_and_utf8() {
    assert_eq!(Host::domain(b"ok.example"), Some(Host::Domain(b"ok.example".to_vec())));
    assert_eq!(Host::domain("caf\u{e9}.fr".as_bytes()), Some(Host::Domain("caf\u{e9}.fr".as_bytes().to_vec())));
    assert_eq!(Host::domain(&[0xC0, 0x80]), None);
    assert_eq!(Host::domain(&vec![b'a'; 255]).map(|h| h.is_valid()), Some(true));
    assert_eq!(Host::domain(&vec![b'a'; 256]), None);
    assert!(!Host::Domain(vec![b'a'; 256]).is_valid());
    assert!(!Host::Domain(vec![0x80]).is_valid());
    assert!(Host::V4([1, 2, 3, 4]).is_valid());
    assert!(Host::V6([0; 16]).is_valid());
}

#[test]
fn unspecified_address_is_all_zero() {
    let a = Address::unspecified();
    assert_eq!(a, Address { host: Host::V4([0, 0, 0, 0]), port: 0 });
    assert_eq!(a.encode(), vec![1, 0, 0, 0, 0, 0, 0]);
    assert!(a.is_valid());
}

#[test]
fn duplicate_is_equal() {
    for a in [
        Address { host: Host::V4([1, 2, 3, 4]), port: 5 },
        Address { host: Host::Domain(b"x.y".to_vec()), port: 6 },
        Address { host: Host::V6([7; 16]), port: 8 },
    ] {
        assert_eq!(a.duplicate(), a);
    }
}

#[test]
fn write_to_appends() {
    let mut out = vec![0xEE];
    Address { host: Host::V4([1, 2, 3, 4]), port: 0x0102 }.write_to(&mut out);
    assert_eq!(out, vec![0xEE, 1, 1, 2, 3, 4, 1, 2]);
}

#[test]
fn big_endian_integers() {
    let mut out = Vec::new();
    put_be16(&mut out, 0x1234);
    put_be32(&mut out, 0x89ABCDEF);
    put_be64(&mut out, 0x0102030405060708);
    assert_eq!(
        out,
        vec![0x12, 0x34, 0x89, 0xAB, 0xCD, 0xEF, 0x01, 0x02, 0x03, 0x04, 0x05, 0x06, 0x07, 0x08]
    );
    assert_eq!(get_be16(&out, 0), 0x1234);
    assert_eq!(get_be32(&out, 2), 0x89ABCDEF);
    assert_eq!(get_be64(&out, 6), 0x0102030405060708);
    let mut max = Vec::new();
    put_be64(&mut max, u64::MAX);
    assert_eq!(max, vec![0xFF; 8]);
    assert_eq!(get_be64(&max, 0), u64::MAX);
    assert_eq!(get_be16(&[0, 80], 0), 80);
}

#[test]
fn byte_copies() {
    let mut dst = vec![1, 2];
    append(&mut dst, &[3, 4, 5]);
    assert_eq!(dst, vec![1, 2, 3, 4, 5]);
    assert_eq!(copy_range(&dst, 1, 4), vec![2, 3, 4]);
    assert_eq!(copy_range(&dst, 2, 2), Vec::<u8>::new());
}
