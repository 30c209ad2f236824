use sha2::Digest;
use tuic::address::Address;
use tuic::auth::{digest_eq, token_digest};
use tuic::client::{connect_outcome, heartbeat_due, ClientConnection};
use tuic::command::{Command, UdpHeader};
use tuic::connection::{Action, Admission, Channel, CloseCode, ConnectionState, ServerConnection};
use tuic::error::Error;
use tuic::fragment::fragment_packet;
use tuic::session::SessionTable;

fn hunter2() -> [u8; 32] {
    token_digest(b"hunter2")
}

fn dns() -> Address {
    Address::SocketAddressV4([8, 8, 8, 8], 53)
}

fn authenticated_server() -> ServerConnection {
    let mut s = ServerConnection::new(hunter2());
    let a = s.on_command(Channel::Control, Command::new_authenticate(hunter2()));
    assert_eq!(a, Action::ReleaseHeld);
    s
}

fn datagram(assoc_id: u32, len: u16, addr: Address, payload: &[u8]) -> Vec<u8> {
    let mut out = Vec::new();
    UdpHeader::new(assoc_id, len, addr).write_to_vec(&mut out);
    out.extend_from_slice(payload);
    out
}

#[test]
fn token_digest_is_sha256() {
    let expected: [u8; 32] = sha2::Sha256::digest(b"hunter2").into();
    assert_eq!(hunter2(), expected);
    assert_ne!(hunter2().to_vec(), b"hunter2".to_vec());
}

#[test]
fn digest_compare() {
    let a = hunter2();
    let mut b = a;
    assert!(digest_eq(&a, &b));
    b[31] ^= 1;
    assert!(!digest_eq(&a, &b));
    b = a;
    b[0] ^= 0x80;
    assert!(!digest_eq(&a, &b));
}

#[test]
fn auth_then_connect_success() {
    let mut s = ServerConnection::new(hunter2());
    assert_eq!(s.admission(), Admission::Hold);
    let client = ClientConnection::new(b"hunter2");
    let auth = client.authenticate_command();
    assert_eq!(s.on_command(Channel::Control, auth), Action::ReleaseHeld);
    assert_eq!(s.state, ConnectionState::Authenticated);
    assert_eq!(s.admission(), Admission::Process);
    let target = Address::SocketAddressV4([127, 0, 0, 1], 22);
    let a = s.on_command(Channel::Bidirectional, Command::new_connect(target.clone()));
    assert_eq!(a, Action::Dial(target));
    let resp = s.on_dial_result(true);
    assert_eq!(resp, Command::new_response(true));
    assert_eq!(connect_outcome(&resp), Ok(()));
}

#[test]
fn auth_failure_closes() {
    let mut s = ServerConnection::new(hunter2());
    let a = s.on_command(Channel::Control, Command::new_authenticate([0u8; 32]));
    assert_eq!(a, Action::CloseConnection(CloseCode::AuthenticationFailed));
    assert_eq!(s.state, ConnectionState::Closed(CloseCode::AuthenticationFailed));
    let a = s.on_command(Channel::Bidirectional, Command::new_connect(dns()));
    assert_eq!(a, Action::Ignore);
    assert_eq!(s.admission(), Admission::Drop);
}

#[test]
fn command_before_auth_closes_unauthenticated() {
    let cmds = vec![
        (Channel::Bidirectional, Command::new_connect(dns())),
        (Channel::Datagram, Command::new_packet(1, 1, dns())),
        (Channel::Control, Command::new_heartbeat()),
        (Channel::Control, Command::new_dissociate(3)),
        (Channel::Unidirectional, Command::new_authenticate(hunter2())),
    ];
    for (ch, c) in cmds {
        let mut s = ServerConnection::new(hunter2());
        assert_eq!(s.on_command(ch, c), Action::CloseConnection(CloseCode::Unauthenticated));
        assert_eq!(s.state, ConnectionState::Closed(CloseCode::Unauthenticated));
    }
}

#[test]
fn auth_timeout_closes() {
    let mut s = ServerConnection::new(hunter2());
    assert_eq!(s.on_auth_deadline(), Action::CloseConnection(CloseCode::AuthTimeout));
    assert_eq!(s.state, ConnectionState::Closed(CloseCode::AuthTimeout));
    let mut t = authenticated_server();
    assert_eq!(t.on_auth_deadline(), Action::Ignore);
    assert_eq!(t.state, ConnectionState::Authenticated);
}

#[test]
fn second_authenticate_is_protocol_error() {
    let mut s = authenticated_server();
    let a = s.on_command(Channel::Control, Command::new_authenticate(hunter2()));
    assert_eq!(a, Action::CloseConnection(CloseCode::ProtocolError));
}

#[test]
fn dispatch_after_auth() {
    let mut s = authenticated_server();
    assert_eq!(
        s.on_command(Channel::Unidirectional, Command::new_packet(7, 5, dns())),
        Action::RelayUdp { assoc_id: 7, len: 5, addr: dns(), reliable: true }
    );
    assert_eq!(
        s.on_command(Channel::Datagram, Command::new_packet(7, 5, dns())),
        Action::RelayUdp { assoc_id: 7, len: 5, addr: dns(), reliable: false }
    );
    assert_eq!(s.on_command(Channel::Control, Command::new_dissociate(7)), Action::Dissociate(7));
    assert_eq!(s.on_command(Channel::Control, Command::new_heartbeat()), Action::ResetIdle);
    assert_eq!(s.on_command(Channel::Unidirectional, Command::new_connect(dns())), Action::CloseStream);
    assert_eq!(s.on_command(Channel::Bidirectional, Command::new_response(true)), Action::CloseStream);
    assert_eq!(s.state, ConnectionState::Authenticated);
}

#[test]
fn decode_errors() {
    let mut s = authenticated_server();
    assert_eq!(s.on_decode_error(Error::UnsupportedCommand(9)), Action::CloseStream);
    assert_eq!(s.state, ConnectionState::Authenticated);
    assert_eq!(
        s.on_decode_error(Error::UnsupportedVersion(1)),
        Action::CloseConnection(CloseCode::ProtocolError)
    );
    assert_eq!(s.state, ConnectionState::Closed(CloseCode::ProtocolError));
}

#[test]
fn dial_failure_answers_false() {
    let s = authenticated_server();
    let resp = s.on_dial_result(false);
    assert_eq!(resp, Command::new_response(false));
    assert_eq!(connect_outcome(&resp), Err(Error::RemoteRefused));
    assert_eq!(connect_outcome(&Command::new_heartbeat()), Err(Error::ProtocolError));
}

#[test]
fn udp_round_trip_datagram_mode() {
    let mut table = SessionTable::new();
    let d = datagram(7, 5, dns(), b"hello");
    let (id, addr, out) = table.receive_datagram(&d).unwrap();
    assert_eq!(id, 7);
    assert_eq!(addr, dns());
    assert!(out.opened);
    assert_eq!(out.message, Some(b"hello".to_vec()));
    assert!(table.contains(7));
    let reply = fragment_packet(7, &dns(), b"world!", 1500).unwrap();
    assert_eq!(reply.len(), 1);
    assert_eq!(reply[0], datagram(7, 6, dns(), b"world!"));
}

#[test]
fn udp_fragmentation_four_bytes_per_fragment() {
    let header_len = UdpHeader::new(3, 10, dns()).serialized_len();
    let frames = fragment_packet(3, &dns(), b"0123456789", header_len + 4).unwrap();
    assert_eq!(frames.len(), 3);
    assert_eq!(frames[0], datagram(3, 10, dns(), b"0123"));
    assert_eq!(frames[1], datagram(3, 10, dns(), b"4567"));
    assert_eq!(frames[2], datagram(3, 10, dns(), b"89"));
    let mut table = SessionTable::new();
    let mut delivered = Vec::new();
    for f in &frames {
        let (_, _, out) = table.receive_datagram(f).unwrap();
        if let Some(m) = out.message {
            delivered.push(m);
        }
    }
    assert_eq!(delivered, vec![b"0123456789".to_vec()]);
}

#[test]
fn fragments_of_two_sessions_interleave() {
    let other = Address::DomainAddress(b"example.org".to_vec(), 9);
    let a = fragment_packet(1, &dns(), b"aaaaaa", UdpHeader::new(1, 6, dns()).serialized_len() + 2).unwrap();
    let b = fragment_packet(2, &other, b"bbbbbbbb", UdpHeader::new(2, 8, other.clone()).serialized_len() + 3)
        .unwrap();
    assert_eq!(a.len(), 3);
    assert_eq!(b.len(), 3);
    let mut table = SessionTable::new();
    let mut got = Vec::new();
    for i in 0..3 {
        for f in [&b[i], &a[i]] {
            let (id, _, out) = table.receive_datagram(f).unwrap();
            if let Some(m) = out.message {
                got.push((id, m));
            }
        }
    }
    assert_eq!(got, vec![(2, b"bbbbbbbb".to_vec()), (1, b"aaaaaa".to_vec())]);
}

#[test]
fn dissociate_drops_session() {
    let mut table = SessionTable::new();
    table.receive(7, 5, dns(), b"hel").unwrap();
    table.receive(8, 1, dns(), b"x").unwrap();
    table.dissociate(7);
    assert!(!table.contains(7));
    assert!(table.contains(8));
    let out = table.receive(7, 5, dns(), b"lo").unwrap();
    assert!(out.opened);
    assert_eq!(out.message, None);
    let out = table.receive(7, 5, dns(), b"abc").unwrap();
    assert!(!out.opened);
    assert_eq!(out.message, Some(b"loabc".to_vec()));
}

#[test]
fn empty_message_is_delivered() {
    let mut table = SessionTable::new();
    let out = table.receive(1, 0, dns(), b"").unwrap();
    assert_eq!(out.message, Some(Vec::new()));
    let frames = fragment_packet(1, &dns(), b"", 100).unwrap();
    assert_eq!(frames, vec![datagram(1, 0, dns(), b"")]);
}

#[test]
fn overlong_fragment_is_protocol_error() {
    let mut table = SessionTable::new();
    table.receive(1, 4, dns(), b"abc").unwrap();
    assert_eq!(table.receive(1, 4, dns(), b"de"), Err(Error::ProtocolError));
    let out = table.receive(1, 4, dns(), b"wxyz").unwrap();
    assert_eq!(out.message, Some(b"wxyz".to_vec()));
}

#[test]
fn changed_length_restarts_message() {
    let mut table = SessionTable::new();
    table.receive(1, 4, dns(), b"ab").unwrap();
    let out = table.receive(1, 3, dns(), b"xyz").unwrap();
    assert_eq!(out.message, Some(b"xyz".to_vec()));
}

#[test]
fn fragmentation_limits() {
    let header_len = UdpHeader::new(1, 1, dns()).serialized_len();
    assert_eq!(fragment_packet(1, &dns(), b"a", header_len), Err(Error::ProtocolError));
    let big = vec![0u8; 65536];
    assert_eq!(fragment_packet(1, &dns(), &big, 100_000), Err(Error::ProtocolError));
    let max = vec![1u8; 65535];
    let frames = fragment_packet(1, &dns(), &max, 100_000).unwrap();
    assert_eq!(frames.len(), 1);
    assert_eq!(frames[0].len(), header_len + 65535);
}

#[test]
fn bad_datagram_header_leaves_table() {
    let mut table = SessionTable::new();
    assert_eq!(table.receive_datagram(&[0, 0, 0, 1, 0, 1, 0x07]), Err(Error::InvalidAddressType(7)));
    assert!(!table.contains(1));
}

#[test]
fn associate_is_monotonic() {
    let mut c = ClientConnection::new(b"hunter2");
    assert_eq!(c.associate(), Some(0));
    assert_eq!(c.associate(), Some(1));
    assert_eq!(c.associate(), Some(2));
    c.next_assoc_id = u32::MAX;
    assert_eq!(c.associate(), Some(u32::MAX));
    assert_eq!(c.associate(), None);
    assert_eq!(c.dissociate_command(7), Command::new_dissociate(7));
}

#[test]
fn heartbeat_each_interval() {
    assert!(!heartbeat_due(999, 1000));
    assert!(heartbeat_due(1000, 1000));
    assert!(heartbeat_due(1500, 1000));
    let mut s = authenticated_server();
    assert_eq!(s.on_command(Channel::Control, Command::new_heartbeat()), Action::ResetIdle);
}
