use runnel::address::{Address, Host};
use runnel::socks5::{
    decode_reply, encode_reply, failure_reply, greeting_needed, method_reply_bytes, read_greeting,
    read_request, rejection, request_needed, success_reply, OpenFailure, Socks5Error,
};

fn v4(a: u8, b: u8, c: u8, d: u8, port: u16) -> Address {
    Address { host: Host::V4([a, b, c, d]), port }
}

#[test]
fn greeting_with_no_authentication_is_accepted() {
    assert_eq!(read_greeting(&[0x05, 0x01, 0x00]), Ok(3));
    assert_eq!(method_reply_bytes(), vec![0x05, 0x00]);
}

#[test]
fn greeting_accepts_no_authentication_among_other_methods() {
    assert_eq!(read_greeting(&[0x05, 0x03, 0x02, 0x01, 0x00]), Ok(5));
    assert_eq!(read_greeting(&[0x05, 0x02, 0x00, 0x02, 0xAA]), Ok(4));
}

#[test]
fn greeting_without_no_authentication_is_refused_with_ff() {
    assert_eq!(read_greeting(&[0x05, 0x02, 0x01, 0x02]), Err(Socks5Error::UnsupportedAuth));
    assert_eq!(read_greeting(&[0x05, 0x00]), Err(Socks5Error::UnsupportedAuth));
    assert_eq!(rejection(Socks5Error::UnsupportedAuth), vec![0x05, 0xFF]);
}

#[test]
fn greeting_with_wrong_version_is_refused_without_reply() {
    assert_eq!(read_greeting(&[0x04, 0x01, 0x00]), Err(Socks5Error::UnsupportedVersion));
    assert_eq!(rejection(Socks5Error::UnsupportedVersion), Vec::<u8>::new());
}

#[test]
fn greeting_cut_short_is_truncated() {
    assert_eq!(read_greeting(&[]), Err(Socks5Error::Truncated));
    assert_eq!(read_greeting(&[0x05]), Err(Socks5Error::Truncated));
    assert_eq!(read_greeting(&[0x05, 0x02, 0x00]), Err(Socks5Error::Truncated));
}

#[test]
fn greeting_needed_counts_missing_bytes() {
    assert_eq!(greeting_needed(&[]), Ok(2));
    assert_eq!(greeting_needed(&[0x05]), Ok(1));
    assert_eq!(greeting_needed(&[0x05, 0x03]), Ok(3));
    assert_eq!(greeting_needed(&[0x05, 0x03, 0x00]), Ok(2));
    assert_eq!(greeting_needed(&[0x05, 0x01, 0x00]), Ok(0));
    assert_eq!(greeting_needed(&[0x04, 0x01]), Err(Socks5Error::UnsupportedVersion));
}

#[test]
fn connect_request_to_ipv4_is_read() {
    let bytes = [0x05, 0x01, 0x00, 0x01, 0x7F, 0x00, 0x00, 0x01, 0x00, 0x50];
    assert_eq!(read_request(&bytes), Ok((v4(127, 0, 0, 1, 80), 10)));
}

#[test]
fn connect_request_to_domain_is_read() {
    let mut bytes = vec![0x05, 0x01, 0x00, 0x03, 11];
    bytes.extend_from_slice(b"example.com");
    bytes.extend_from_slice(&[0x01, 0xBB]);
    let (target, used) = read_request(&bytes).unwrap();
    assert_eq!(used, 18);
    assert_eq!(target.host, Host::Domain(b"example.com".to_vec()));
    assert_eq!(target.port, 443);
}

#[test]
fn connect_request_to_ipv6_is_read() {
    let mut bytes = vec![0x05, 0x01, 0x00, 0x04];
    let mut ip = [0u8; 16];
    ip[15] = 1;
    bytes.extend_from_slice(&ip);
    bytes.extend_from_slice(&[0x1F, 0x90]);
    assert_eq!(read_request(&bytes), Ok((Address { host: Host::V6(ip), port: 8080 }, 22)));
}

#[test]
fn request_ignores_what_follows_it() {
    let bytes = [0x05, 0x01, 0x00, 0x01, 10, 0, 0, 1, 0x00, 0x16, 0xDE, 0xAD];
    assert_eq!(read_request(&bytes), Ok((v4(10, 0, 0, 1, 22), 10)));
}

#[test]
fn request_with_other_command_is_refused_with_status_7() {
    let bind = [0x05, 0x02, 0x00, 0x01, 0x7F, 0x00, 0x00, 0x01, 0x00, 0x50];
    assert_eq!(read_request(&bind), Err(Socks5Error::CommandNotSupported));
    let udp = [0x05, 0x03, 0x00, 0x01, 0x7F, 0x00, 0x00, 0x01, 0x00, 0x50];
    assert_eq!(read_request(&udp), Err(Socks5Error::CommandNotSupported));
    assert_eq!(
        rejection(Socks5Error::CommandNotSupported),
        vec![0x05, 0x07, 0x00, 0x01, 0, 0, 0, 0, 0, 0]
    );
}

#[test]
fn request_address_is_judged_before_command() {
    let bytes = [0x05, 0x02, 0x00, 0x09, 0x7F, 0x00, 0x00, 0x01, 0x00, 0x50];
    assert_eq!(read_request(&bytes), Err(Socks5Error::UnsupportedAddressType));
    let short = [0x05, 0x02, 0x00, 0x01, 0x7F];
    assert_eq!(read_request(&short), Err(Socks5Error::Truncated));
}

#[test]
fn request_with_wrong_version_is_refused() {
    let bytes = [0x04, 0x01, 0x00, 0x01, 0x7F, 0x00, 0x00, 0x01, 0x00, 0x50];
    assert_eq!(read_request(&bytes), Err(Socks5Error::UnsupportedVersion));
    assert_eq!(rejection(Socks5Error::UnsupportedVersion), Vec::<u8>::new());
}

#[test]
fn request_with_unknown_address_type_is_refused() {
    let bytes = [0x05, 0x01, 0x00, 0x02, 0x7F, 0x00, 0x00, 0x01, 0x00, 0x50];
    assert_eq!(read_request(&bytes), Err(Socks5Error::UnsupportedAddressType));
    assert_eq!(rejection(Socks5Error::UnsupportedAddressType), Vec::<u8>::new());
}

#[test]
fn request_with_domain_that_is_not_utf8_is_refused() {
    let bytes = [0x05, 0x01, 0x00, 0x03, 0x02, 0xC3, 0x28, 0x00, 0x50];
    assert_eq!(read_request(&bytes), Err(Socks5Error::InvalidDomain));
    let ok = [0x05, 0x01, 0x00, 0x03, 0x02, 0xC3, 0xA9, 0x00, 0x50];
    assert_eq!(
        read_request(&ok),
        Ok((Address { host: Host::Domain(vec![0xC3, 0xA9]), port: 80 }, 9))
    );
}

#[test]
fn request_cut_short_is_truncated() {
    assert_eq!(read_request(&[0x05, 0x01, 0x00]), Err(Socks5Error::Truncated));
    assert_eq!(read_request(&[0x05, 0x01, 0x00, 0x01, 1, 2, 3, 4, 0]), Err(Socks5Error::Truncated));
    assert_eq!(read_request(&[0x05, 0x01, 0x00, 0x03]), Err(Socks5Error::Truncated));
    assert_eq!(read_request(&[0x05, 0x01, 0x00, 0x03, 3, b'a', b'b', b'c', 0]), Err(Socks5Error::Truncated));
}

#[test]
fn request_needed_counts_missing_bytes() {
    assert_eq!(request_needed(&[]), Ok(4));
    assert_eq!(request_needed(&[0x05, 0x01]), Ok(2));
    assert_eq!(request_needed(&[0x05, 0x01, 0x00, 0x01]), Ok(6));
    assert_eq!(request_needed(&[0x05, 0x01, 0x00, 0x04]), Ok(18));
    assert_eq!(request_needed(&[0x05, 0x01, 0x00, 0x03]), Ok(1));
    assert_eq!(request_needed(&[0x05, 0x01, 0x00, 0x03, 11]), Ok(13));
    assert_eq!(request_needed(&[0x05, 0x01, 0x00, 0x03, 0]), Ok(2));
    assert_eq!(request_needed(&[0x05, 0x01, 0x00, 0x01, 127, 0, 0, 1, 0, 80]), Ok(0));
    assert_eq!(request_needed(&[0x04, 0x01, 0x00, 0x01]), Err(Socks5Error::UnsupportedVersion));
    assert_eq!(request_needed(&[0x05, 0x01, 0x00, 0x07]), Err(Socks5Error::UnsupportedAddressType));
}

#[test]
fn request_with_empty_domain_is_read() {
    let bytes = [0x05, 0x01, 0x00, 0x03, 0x00, 0x00, 0x50];
    assert_eq!(read_request(&bytes), Ok((Address { host: Host::Domain(vec![]), port: 80 }, 7)));
}

#[test]
fn success_reply_carries_bound_address() {
    assert_eq!(
        success_reply(&v4(192, 168, 1, 7, 0xC350)),
        vec![0x05, 0x00, 0x00, 0x01, 192, 168, 1, 7, 0xC3, 0x50]
    );
    let mut ip = [0u8; 16];
    ip[0] = 0xFE;
    ip[1] = 0x80;
    ip[15] = 9;
    let reply = success_reply(&Address { host: Host::V6(ip), port: 1 });
    assert_eq!(reply.len(), 22);
    assert_eq!(&reply[..4], &[0x05, 0x00, 0x00, 0x04]);
    assert_eq!(&reply[4..20], &ip);
    assert_eq!(&reply[20..], &[0x00, 0x01]);
}

#[test]
fn reply_with_domain_carries_its_length() {
    let bound = Address { host: Host::Domain(b"gw.local".to_vec()), port: 1080 };
    let mut expected = vec![0x05, 0x00, 0x00, 0x03, 8];
    expected.extend_from_slice(b"gw.local");
    expected.extend_from_slice(&[0x04, 0x38]);
    assert_eq!(encode_reply(0x00, &bound), expected);
}

#[test]
fn failure_reply_maps_reason_to_status() {
    assert_eq!(
        failure_reply(OpenFailure::ConnectFailed),
        vec![0x05, 0x05, 0x00, 0x01, 0, 0, 0, 0, 0, 0]
    );
    assert_eq!(failure_reply(OpenFailure::Other), vec![0x05, 0x01, 0x00, 0x01, 0, 0, 0, 0, 0, 0]);
    assert_eq!(OpenFailure::ConnectFailed.to_status(), 0x05);
    assert_eq!(OpenFailure::Other.to_status(), 0x01);
    assert_eq!(OpenFailure::from_status(0x05), OpenFailure::ConnectFailed);
    assert_eq!(OpenFailure::from_status(0x01), OpenFailure::Other);
    assert_eq!(OpenFailure::from_status(0x04), OpenFailure::Other);
}

#[test]
fn every_reply_reads_back() {
    for status in [0x00u8, 0x01, 0x05, 0x07] {
        let bound = v4(10, 1, 2, 3, 4242);
        let bytes = encode_reply(status, &bound);
        assert_eq!(decode_reply(&bytes), Some((status, bound, 10)));
    }
    assert_eq!(decode_reply(&[0x05, 0x00, 0x01, 0x01, 0, 0, 0, 0, 0, 0]), None);
    assert_eq!(decode_reply(&[0x04, 0x00, 0x00, 0x01, 0, 0, 0, 0, 0, 0]), None);
    assert_eq!(decode_reply(&[0x05, 0x00, 0x00, 0x01, 0, 0, 0]), None);
}
