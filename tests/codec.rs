use tuic::address::Address;
use tuic::command::{Command, UdpHeader, TUIC_PROTOCOL_VERSION};
use tuic::error::Error;

fn v4() -> Address {
    Address::SocketAddressV4([127, 0, 0, 1], 22)
}

fn v6() -> Address {
    Address::SocketAddressV6([0x20, 0x01, 0x0d, 0xb8, 0, 0, 0, 0, 0, 0, 0, 0, 0, 0, 0, 1], 443)
}

fn domain() -> Address {
    Address::DomainAddress(b"example.com".to_vec(), 8080)
}

fn all_commands() -> Vec<Command> {
    vec![
        Command::new_response(true),
        Command::new_response(false),
        Command::new_authenticate([7u8; 32]),
        Command::new_connect(v4()),
        Command::new_connect(v6()),
        Command::new_connect(domain()),
        Command::new_packet(7, 5, v4()),
        Command::new_packet(0xdead_beef, 0xffff, domain()),
        Command::new_dissociate(0x0102_0304),
        Command::new_heartbeat(),
    ]
}

#[test]
fn command_round_trip_all_kinds() {
    for c in all_commands() {
        let bytes = c.encode();
        assert_eq!(bytes.len(), c.serialized_len());
        let (back, n) = Command::read_from(&bytes).unwrap();
        assert_eq!(back, c);
        assert_eq!(n, bytes.len());
    }
}

#[test]
fn command_read_stops_at_its_end() {
    let mut bytes = Command::new_dissociate(9).encode();
    bytes.extend_from_slice(&[1, 2, 3]);
    let (c, n) = Command::read_from(&bytes).unwrap();
    assert_eq!(c, Command::new_dissociate(9));
    assert_eq!(n, 6);
}

#[test]
fn address_round_trip_three_shapes() {
    for a in [v4(), v6(), domain()] {
        let mut out = Vec::new();
        a.write_to_vec(&mut out);
        assert_eq!(out.len(), a.serialized_len());
        let (back, n) = Address::read_from(&out).unwrap();
        assert_eq!(back, a);
        assert_eq!(n, out.len());
    }
}

#[test]
fn udp_header_round_trip() {
    let h = UdpHeader::new(7, 5, Address::SocketAddressV4([8, 8, 8, 8], 53));
    let mut out = Vec::new();
    h.write_to_vec(&mut out);
    assert_eq!(out.len(), h.serialized_len());
    out.extend_from_slice(b"hello");
    let (back, n) = UdpHeader::read_from(&out).unwrap();
    assert_eq!(back, h);
    assert_eq!(&out[n..], b"hello");
}

#[test]
fn exact_wire_bytes() {
    assert_eq!(Command::new_response(true).encode(), vec![TUIC_PROTOCOL_VERSION, 0xff, 0x00]);
    assert_eq!(Command::new_response(false).encode(), vec![TUIC_PROTOCOL_VERSION, 0xff, 0xff]);
    assert_eq!(Command::new_heartbeat().encode(), vec![TUIC_PROTOCOL_VERSION, 0x04]);
    assert_eq!(
        Command::new_dissociate(0x0102_0304).encode(),
        vec![TUIC_PROTOCOL_VERSION, 0x03, 1, 2, 3, 4]
    );
    assert_eq!(
        Command::new_packet(7, 5, Address::SocketAddressV4([8, 8, 8, 8], 53)).encode(),
        vec![TUIC_PROTOCOL_VERSION, 0x02, 0, 0, 0, 7, 0, 5, 0x01, 8, 8, 8, 8, 0, 53]
    );
    assert_eq!(
        Command::new_connect(Address::DomainAddress(b"ab".to_vec(), 0x1234)).encode(),
        vec![TUIC_PROTOCOL_VERSION, 0x01, 0xff, 2, b'a', b'b', 0x12, 0x34]
    );
    let auth = Command::new_authenticate([0xaa; 32]).encode();
    assert_eq!(auth.len(), 34);
    assert_eq!(&auth[..2], &[TUIC_PROTOCOL_VERSION, 0x00]);
    assert!(auth[2..].iter().all(|b| *b == 0xaa));
}

#[test]
fn serialized_len_values() {
    assert_eq!(Command::new_response(true).serialized_len(), 3);
    assert_eq!(Command::new_authenticate([0; 32]).serialized_len(), 34);
    assert_eq!(Command::new_connect(v4()).serialized_len(), 9);
    assert_eq!(Command::new_connect(v6()).serialized_len(), 21);
    assert_eq!(Command::new_packet(1, 2, domain()).serialized_len(), 8 + 4 + 11);
    assert_eq!(Command::new_dissociate(1).serialized_len(), 6);
    assert_eq!(Command::new_heartbeat().serialized_len(), 2);
}

#[test]
fn wrong_version_is_unsupported() {
    for v in [0u8, 1, 3, 5, 0xff] {
        assert_eq!(Command::read_from(&[v, 0x04]), Err(Error::UnsupportedVersion(v)));
        assert_eq!(Command::read_from(&[v, 0x00, 1, 2, 3]), Err(Error::UnsupportedVersion(v)));
    }
}

#[test]
fn unknown_type_is_unsupported_command() {
    for t in [0x05u8, 0x10, 0x7f, 0xfe] {
        assert_eq!(
            Command::read_from(&[TUIC_PROTOCOL_VERSION, t, 0, 0]),
            Err(Error::UnsupportedCommand(t))
        );
    }
}

#[test]
fn invalid_response_byte() {
    assert_eq!(
        Command::read_from(&[TUIC_PROTOCOL_VERSION, 0xff, 0x01]),
        Err(Error::InvalidResponse(0x01))
    );
}

#[test]
fn invalid_address_type() {
    assert_eq!(Address::read_from(&[0x02, 1, 2, 3, 4, 0, 1]), Err(Error::InvalidAddressType(0x02)));
    assert_eq!(
        Command::read_from(&[TUIC_PROTOCOL_VERSION, 0x01, 0x09, 0, 0]),
        Err(Error::InvalidAddressType(0x09))
    );
}

#[test]
fn short_input_is_io() {
    assert_eq!(Command::read_from(&[]), Err(Error::Io));
    assert_eq!(Command::read_from(&[TUIC_PROTOCOL_VERSION]), Err(Error::Io));
    assert_eq!(Command::read_from(&[TUIC_PROTOCOL_VERSION, 0x00, 1, 2]), Err(Error::Io));
    assert_eq!(Command::read_from(&[TUIC_PROTOCOL_VERSION, 0x03, 0, 0, 1]), Err(Error::Io));
    assert_eq!(Address::read_from(&[0xff, 5, b'a', b'b']), Err(Error::Io));
    assert_eq!(Address::read_from(&[0x04, 0, 0]), Err(Error::Io));
    assert_eq!(UdpHeader::read_from(&[0, 0, 0, 1, 0]), Err(Error::Io));
}

#[test]
fn longest_domain_round_trip() {
    let a = Address::DomainAddress(vec![b'x'; 255], 65535);
    let c = Command::new_connect(a);
    let bytes = c.encode();
    assert_eq!(bytes.len(), 2 + 4 + 255);
    assert_eq!(Command::read_from(&bytes).unwrap().0, c);
}

#[test]
fn write_to_buf_appends() {
    let mut buf = bytes::BytesMut::new();
    buf.extend_from_slice(&[9, 9]);
    Command::new_dissociate(5).write_to_buf(&mut buf);
    assert_eq!(&buf[..], &[9, 9, TUIC_PROTOCOL_VERSION, 0x03, 0, 0, 0, 5]);
    let whole = Command::new_heartbeat().to_buf();
    assert_eq!(&whole[..], &[TUIC_PROTOCOL_VERSION, 0x04]);
}
