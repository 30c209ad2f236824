use vstd::prelude::*;
use crate::address::{lemma_address_round_trip, parse_address, Address, AddressModel};
use crate::buf::{buf_put_slice, buf_with_capacity, contents};
use crate::error::Error;
use bytes::BytesMut;
use vstd::slice::slice_subrange;
use crate::wire::{be16, be16_at, be32, be32_at, lemma_be16_round_trip, lemma_be32_round_trip, push_be16, push_be32, read_be16, read_be32};

verus! {

/// The protocol version that heads every command.
pub const TUIC_PROTOCOL_VERSION: u8 = 0x04;

pub const TYPE_RESPONSE: u8 = 0xff;
pub const TYPE_AUTHENTICATE: u8 = 0x00;
pub const TYPE_CONNECT: u8 = 0x01;
pub const TYPE_PACKET: u8 = 0x02;
pub const TYPE_DISSOCIATE: u8 = 0x03;
pub const TYPE_HEARTBEAT: u8 = 0x04;

pub const RESPONSE_SUCCEEDED: u8 = 0x00;
pub const RESPONSE_FAILED: u8 = 0xff;

/// A command of the tunnel protocol: a version byte, a type byte, then the
/// body of that type.
#[derive(Debug, Clone, PartialEq, Eq)]
pub enum Command {
    Response(bool),
    Authenticate { digest: [u8; 32] },
    Connect { addr: Address },
    Packet { assoc_id: u32, len: u16, addr: Address },
    Dissociate { assoc_id: u32 },
    Heartbeat,
}

/// What a `Command` holds, as mathematical values.
pub enum CommandModel {
    Response(bool),
    Authenticate(Seq<u8>),
    Connect(AddressModel),
    Packet(u32, u16, AddressModel),
    Dissociate(u32),
    Heartbeat,
}

impl View for Command {
    type V = CommandModel;

    open spec fn view(&self) -> CommandModel {
        match self {
            Command::Response(ok) => CommandModel::Response(*ok),
            Command::Authenticate { digest } => CommandModel::Authenticate(digest@),
            Command::Connect { addr } => CommandModel::Connect(addr@),
            Command::Packet { assoc_id, len, addr } => CommandModel::Packet(*assoc_id, *len, addr@),
            Command::Dissociate { assoc_id } => CommandModel::Dissociate(*assoc_id),
            Command::Heartbeat => CommandModel::Heartbeat,
        }
    }
}

/// The bytes of a `Packet` body, which is also the header of a UDP datagram.
pub open spec fn packet_body(assoc_id: u32, len: u16, addr: AddressModel) -> Seq<u8> {
    be32(assoc_id) + be16(len) + addr.bytes()
}

impl CommandModel {
    /// Whether the command can be written: the digest has 32 bytes and each
    /// address can be written.
    pub open spec fn wf(self) -> bool {
        match self {
            CommandModel::Authenticate(digest) => digest.len() == 32,
            CommandModel::Connect(addr) => addr.wf(),
            CommandModel::Packet(_, _, addr) => addr.wf(),
            _ => true,
        }
    }

    /// The bytes that stand for the command on the wire.
    pub open spec fn bytes(self) -> Seq<u8> {
        seq![TUIC_PROTOCOL_VERSION] + match self {
            CommandModel::Response(ok) => seq![
                TYPE_RESPONSE,
                if ok {
                    RESPONSE_SUCCEEDED
                } else {
                    RESPONSE_FAILED
                },
            ],
            CommandModel::Authenticate(digest) => seq![TYPE_AUTHENTICATE] + digest,
            CommandModel::Connect(addr) => seq![TYPE_CONNECT] + addr.bytes(),
            CommandModel::Packet(assoc_id, len, addr) => seq![TYPE_PACKET] + packet_body(
                assoc_id,
                len,
                addr,
            ),
            CommandModel::Dissociate(assoc_id) => seq![TYPE_DISSOCIATE] + be32(assoc_id),
            CommandModel::Heartbeat => seq![TYPE_HEARTBEAT],
        }
    }
}

/// What reading a `Packet` body from the front of `s` gives.
pub open spec fn parse_packet_body(s: Seq<u8>) -> Result<(CommandModel, int), Error> {
    if s.len() < 6 {
        Err(Error::Io)
    } else {
        match parse_address(s.subrange(6, s.len() as int)) {
            Ok((addr, n)) => Ok((CommandModel::Packet(be32_at(s, 0), be16_at(s, 4), addr), n + 6)),
            Err(e) => Err(e),
        }
    }
}

/// What reading the body of a command of type `t` from the front of `s` gives.
pub open spec fn parse_body(t: u8, s: Seq<u8>) -> Result<(CommandModel, int), Error> {
    if t == TYPE_RESPONSE {
        if s.len() < 1 {
            Err(Error::Io)
        } else if s[0] == RESPONSE_SUCCEEDED {
            Ok((CommandModel::Response(true), 1))
        } else if s[0] == RESPONSE_FAILED {
            Ok((CommandModel::Response(false), 1))
        } else {
            Err(Error::InvalidResponse(s[0]))
        }
    } else if t == TYPE_AUTHENTICATE {
        if s.len() < 32 {
            Err(Error::Io)
        } else {
            Ok((CommandModel::Authenticate(s.subrange(0, 32)), 32))
        }
    } else if t == TYPE_CONNECT {
        match parse_address(s) {
            Ok((addr, n)) => Ok((CommandModel::Connect(addr), n)),
            Err(e) => Err(e),
        }
    } else if t == TYPE_PACKET {
        parse_packet_body(s)
    } else if t == TYPE_DISSOCIATE {
        if s.len() < 4 {
            Err(Error::Io)
        } else {
            Ok((CommandModel::Dissociate(be32_at(s, 0)), 4))
        }
    } else if t == TYPE_HEARTBEAT {
        Ok((CommandModel::Heartbeat, 0))
    } else {
        Err(Error::UnsupportedCommand(t))
    }
}

/// What reading a command from the front of `s` gives: the command and the
/// number of bytes it took, or the error.
pub open spec fn parse_command(s: Seq<u8>) -> Result<(CommandModel, int), Error> {
    if s.len() < 2 {
        Err(Error::Io)
    } else if s[0] != TUIC_PROTOCOL_VERSION {
        Err(Error::UnsupportedVersion(s[0]))
    } else {
        match parse_body(s[1], s.subrange(2, s.len() as int)) {
            Ok((c, n)) => Ok((c, n + 2)),
            Err(e) => Err(e),
        }
    }
}

proof fn lemma_packet_body_round_trip(assoc_id: u32, len: u16, addr: AddressModel, rest: Seq<u8>)
    requires
        addr.wf(),
    ensures
        parse_packet_body(packet_body(assoc_id, len, addr) + rest) == Ok::<(CommandModel, int), Error>(
            (CommandModel::Packet(assoc_id, len, addr), packet_body(assoc_id, len, addr).len() as int),
        ),
{
    let s = packet_body(assoc_id, len, addr) + rest;
    assert(s.subrange(0, 4) =~= be32(assoc_id));
    assert(s.subrange(4, 6) =~= be16(len));
    lemma_be32_round_trip(assoc_id, s, 0);
    lemma_be16_round_trip(len, s, 4);
    assert(s.subrange(6, s.len() as int) =~= addr.bytes() + rest);
    lemma_address_round_trip(addr, rest);
}

/// Reading back a written command gives the same command, and stops where the
/// command ends, whatever follows it.
pub proof fn lemma_command_round_trip(c: CommandModel, rest: Seq<u8>)
    requires
        c.wf(),
    ensures
        parse_command(c.bytes() + rest) == Ok::<(CommandModel, int), Error>((c, c.bytes().len() as int)),
{
    let s = c.bytes() + rest;
    let body = s.subrange(2, s.len() as int);
    assert(s[0] == TUIC_PROTOCOL_VERSION);
    match c {
        CommandModel::Response(ok) => {
            assert(s[1] == TYPE_RESPONSE);
            assert(body[0] == s[2]);
        },
        CommandModel::Authenticate(digest) => {
            assert(s[1] == TYPE_AUTHENTICATE);
            assert(body.subrange(0, 32) =~= digest);
        },
        CommandModel::Connect(addr) => {
            assert(s[1] == TYPE_CONNECT);
            assert(body =~= addr.bytes() + rest);
            lemma_address_round_trip(addr, rest);
        },
        CommandModel::Packet(assoc_id, len, addr) => {
            assert(s[1] == TYPE_PACKET);
            assert(body =~= packet_body(assoc_id, len, addr) + rest);
            lemma_packet_body_round_trip(assoc_id, len, addr, rest);
        },
        CommandModel::Dissociate(assoc_id) => {
            assert(s[1] == TYPE_DISSOCIATE);
            assert(body.subrange(0, 4) =~= be32(assoc_id));
            lemma_be32_round_trip(assoc_id, body, 0);
        },
        CommandModel::Heartbeat => {
            assert(s[1] == TYPE_HEARTBEAT);
        },
    }
}

/// Any input whose first byte is not the protocol version, and that holds a
/// version and a type byte, is refused with that byte.
pub proof fn lemma_unsupported_version(s: Seq<u8>)
    requires
        s.len() >= 2,
        s[0] != TUIC_PROTOCOL_VERSION,
    ensures
        parse_command(s) == Err::<(CommandModel, int), Error>(Error::UnsupportedVersion(s[0])),
{
}

/// Whether `t` is the type byte of one of the six commands.
pub open spec fn is_command_type(t: u8) -> bool {
    t == TYPE_RESPONSE || t == TYPE_AUTHENTICATE || t == TYPE_CONNECT || t == TYPE_PACKET || t
        == TYPE_DISSOCIATE || t == TYPE_HEARTBEAT
}

/// Under the right version, an unknown type byte is refused with that byte,
/// whatever follows it.
pub proof fn lemma_unsupported_command(s: Seq<u8>)
    requires
        s.len() >= 2,
        s[0] == TUIC_PROTOCOL_VERSION,
        !is_command_type(s[1]),
    ensures
        parse_command(s) == Err::<(CommandModel, int), Error>(Error::UnsupportedCommand(s[1])),
{
}


impl Command {
    pub fn new_response(is_succeeded: bool) -> (r: Self)
        ensures
            r@ == CommandModel::Response(is_succeeded),
    {
        Command::Response(is_succeeded)
    }

    pub fn new_authenticate(digest: [u8; 32]) -> (r: Self)
        ensures
            r@ == CommandModel::Authenticate(digest@),
    {
        Command::Authenticate { digest }
    }

    pub fn new_connect(addr: Address) -> (r: Self)
        ensures
            r@ == CommandModel::Connect(addr@),
    {
        Command::Connect { addr }
    }

    pub fn new_packet(assoc_id: u32, len: u16, addr: Address) -> (r: Self)
        ensures
            r@ == CommandModel::Packet(assoc_id, len, addr@),
    {
        Command::Packet { assoc_id, len, addr }
    }

    pub fn new_dissociate(assoc_id: u32) -> (r: Self)
        ensures
            r@ == CommandModel::Dissociate(assoc_id),
    {
        Command::Dissociate { assoc_id }
    }

    pub fn new_heartbeat() -> (r: Self)
        ensures
            r@ == CommandModel::Heartbeat,
    {
        Command::Heartbeat
    }

    /// Reads a command from the front of `buf`; returns it with the number of
    /// bytes it took.
    pub fn read_from(buf: &[u8]) -> (r: Result<(Command, usize), Error>)
        ensures
            match r {
                Ok((c, n)) => parse_command(buf@) == Ok::<(CommandModel, int), Error>((c@, n as int)),
                Err(e) => parse_command(buf@) == Err::<(CommandModel, int), Error>(e),
            },
    {
        if buf.len() < 2 {
            return Err(Error::Io);
        }
        let ver = buf[0];
        let cmd = buf[1];
        if ver != TUIC_PROTOCOL_VERSION {
            return Err(Error::UnsupportedVersion(ver));
        }
        let ghost body = buf@.subrange(2, buf@.len() as int);
        if cmd == TYPE_RESPONSE {
            if buf.len() < 3 {
                return Err(Error::Io);
            }
            assert(body[0] == buf@[2]);
            let resp = buf[2];
            if resp == RESPONSE_SUCCEEDED {
                Ok((Command::new_response(true), 3))
            } else if resp == RESPONSE_FAILED {
                Ok((Command::new_response(false), 3))
            } else {
                Err(Error::InvalidResponse(resp))
            }
        } else if cmd == TYPE_AUTHENTICATE {
            if buf.len() < 34 {
                return Err(Error::Io);
            }
            let digest: [u8; 32] = [
                    buf[2],
                    buf[3],
                    buf[4],
                    buf[5],
                    buf[6],
                    buf[7],
                    buf[8],
                    buf[9],
                    buf[10],
                    buf[11],
                    buf[12],
                    buf[13],
                    buf[14],
                    buf[15],
                    buf[16],
                    buf[17],
                    buf[18],
                    buf[19],
                    buf[20],
                    buf[21],
                    buf[22],
                    buf[23],
                    buf[24],
                    buf[25],
                    buf[26],
                    buf[27],
                    buf[28],
                    buf[29],
                    buf[30],
                    buf[31],
                    buf[32],
                    buf[33],
            ];
            assert(digest@ =~= body.subrange(0, 32));
            Ok((Command::new_authenticate(digest), 34))
        } else if cmd == TYPE_CONNECT {
            let rest = slice_subrange(buf, 2, buf.len());
            assert(rest@ =~= body);
            match Address::read_from(rest) {
                Ok((addr, n)) => Ok((Command::new_connect(addr), n + 2)),
                Err(e) => Err(e),
            }
        } else if cmd == TYPE_PACKET {
            let rest = slice_subrange(buf, 2, buf.len());
            assert(rest@ =~= body);
            match UdpHeader::read_from(rest) {
                Ok((h, n)) => Ok((Command::new_packet(h.assoc_id, h.len, h.addr), n + 2)),
                Err(e) => Err(e),
            }
        } else if cmd == TYPE_DISSOCIATE {
            if buf.len() < 6 {
                return Err(Error::Io);
            }
            let assoc_id = read_be32(buf, 2);
            assert(be32_at(buf@, 2) == be32_at(body, 0));
            Ok((Command::new_dissociate(assoc_id), 6))
        } else if cmd == TYPE_HEARTBEAT {
            Ok((Command::new_heartbeat(), 2))
        } else {
            Err(Error::UnsupportedCommand(cmd))
        }
    }

    /// Appends the wire form of the command to `out`.
    pub fn write_to_vec(&self, out: &mut Vec<u8>)
        requires
            self@.wf(),
        ensures
            final(out)@ == old(out)@ + self@.bytes(),
    {
        out.push(TUIC_PROTOCOL_VERSION);
        match self {
            Command::Response(is_succeeded) => {
                out.push(TYPE_RESPONSE);
                if *is_succeeded {
                    out.push(RESPONSE_SUCCEEDED);
                } else {
                    out.push(RESPONSE_FAILED);
                }
            },
            Command::Authenticate { digest } => {
                out.push(TYPE_AUTHENTICATE);
                let mut i: usize = 0;
                while i < 32
                    invariant
                        i <= 32,
                        digest@.len() == 32,
                        out@ == old(out)@ + seq![TUIC_PROTOCOL_VERSION, TYPE_AUTHENTICATE] + digest@.subrange(0, i as int),
                    decreases 32 - i,
                {
                    out.push(digest[i]);
                    i = i + 1;
                    assert(out@ =~= old(out)@ + seq![TUIC_PROTOCOL_VERSION, TYPE_AUTHENTICATE] + digest@.subrange(0, i as int));
                }
                assert(digest@.subrange(0, 32) =~= digest@);
            },
            Command::Connect { addr } => {
                out.push(TYPE_CONNECT);
                addr.write_to_vec(out);
            },
            Command::Packet { assoc_id, len, addr } => {
                out.push(TYPE_PACKET);
                push_be32(out, *assoc_id);
                push_be16(out, *len);
                addr.write_to_vec(out);
            },
            Command::Dissociate { assoc_id } => {
                out.push(TYPE_DISSOCIATE);
                push_be32(out, *assoc_id);
            },
            Command::Heartbeat => {
                out.push(TYPE_HEARTBEAT);
            },
        }
        assert(final(out)@ =~= old(out)@ + self@.bytes());
    }

    /// The wire form of the command.
    pub fn encode(&self) -> (r: Vec<u8>)
        requires
            self@.wf(),
        ensures
            r@ == self@.bytes(),
    {
        let mut out: Vec<u8> = Vec::new();
        self.write_to_vec(&mut out);
        assert(out@ =~= self@.bytes());
        out
    }

    /// The number of bytes that the command takes on the wire.
    pub fn serialized_len(&self) -> (r: usize)
        requires
            self@.wf(),
        ensures
            r == self@.bytes().len(),
    {
        match self {
            Command::Response(_) => 3,
            Command::Authenticate { .. } => 34,
            Command::Connect { addr } => 2 + addr.serialized_len(),
            Command::Packet { addr, .. } => 8 + addr.serialized_len(),
            Command::Dissociate { .. } => 6,
            Command::Heartbeat => 2,
        }
    }
}

/// The header of a UDP datagram in the tunnel: the association, the length of
/// the whole message, and the peer address. It has the layout of a `Packet`
/// body.
#[derive(Debug, Clone, PartialEq, Eq)]
pub struct UdpHeader {
    pub assoc_id: u32,
    pub len: u16,
    pub addr: Address,
}

/// What a `UdpHeader` holds, as mathematical values.
pub struct UdpHeaderModel {
    pub assoc_id: u32,
    pub len: u16,
    pub addr: AddressModel,
}

impl View for UdpHeader {
    type V = UdpHeaderModel;

    open spec fn view(&self) -> UdpHeaderModel {
        UdpHeaderModel { assoc_id: self.assoc_id, len: self.len, addr: self.addr@ }
    }
}

impl UdpHeaderModel {
    pub open spec fn bytes(self) -> Seq<u8> {
        packet_body(self.assoc_id, self.len, self.addr)
    }
}

/// What reading a UDP header from the front of `s` gives.
pub open spec fn parse_udp_header(s: Seq<u8>) -> Result<(UdpHeaderModel, int), Error> {
    match parse_packet_body(s) {
        Ok((CommandModel::Packet(assoc_id, len, addr), n)) => Ok(
            (UdpHeaderModel { assoc_id, len, addr }, n),
        ),
        Ok(_) => Err(Error::Io),
        Err(e) => Err(e),
    }
}

/// Reading back a written UDP header gives the same header, and stops where
/// the header ends, so that the payload follows.
pub proof fn lemma_udp_header_round_trip(h: UdpHeaderModel, rest: Seq<u8>)
    requires
        h.addr.wf(),
    ensures
        parse_udp_header(h.bytes() + rest) == Ok::<(UdpHeaderModel, int), Error>((h, h.bytes().len() as int)),
{
    lemma_packet_body_round_trip(h.assoc_id, h.len, h.addr, rest);
}

impl UdpHeader {
    pub fn new(assoc_id: u32, len: u16, addr: Address) -> (r: Self)
        ensures
            r@ == (UdpHeaderModel { assoc_id, len, addr: addr@ }),
    {
        UdpHeader { assoc_id, len, addr }
    }

    /// Reads a header from the front of `buf`; returns it with the number of
    /// bytes it took, which is where the payload starts.
    pub fn read_from(buf: &[u8]) -> (r: Result<(UdpHeader, usize), Error>)
        ensures
            match r {
                Ok((h, n)) => parse_udp_header(buf@) == Ok::<(UdpHeaderModel, int), Error>((h@, n as int))
                    && parse_packet_body(buf@) == Ok::<(CommandModel, int), Error>(
                    (CommandModel::Packet(h.assoc_id, h.len, h.addr@), n as int),
                ),
                Err(e) => parse_udp_header(buf@) == Err::<(UdpHeaderModel, int), Error>(e)
                    && parse_packet_body(buf@) == Err::<(CommandModel, int), Error>(e),
            },
    {
        if buf.len() < 6 {
            return Err(Error::Io);
        }
        let assoc_id = read_be32(buf, 0);
        let len = read_be16(buf, 4);
        let rest = slice_subrange(buf, 6, buf.len());
        match Address::read_from(rest) {
            Ok((addr, n)) => Ok((UdpHeader { assoc_id, len, addr }, n + 6)),
            Err(e) => Err(e),
        }
    }

    /// Appends the wire form of the header to `out`.
    pub fn write_to_vec(&self, out: &mut Vec<u8>)
        requires
            self.addr@.wf(),
        ensures
            final(out)@ == old(out)@ + self@.bytes(),
    {
        push_be32(out, self.assoc_id);
        push_be16(out, self.len);
        self.addr.write_to_vec(out);
        assert(final(out)@ =~= old(out)@ + self@.bytes());
    }

    /// The number of bytes that the header takes on the wire.
    pub fn serialized_len(&self) -> (r: usize)
        requires
            self.addr@.wf(),
        ensures
            r == self@.bytes().len(),
    {
        6 + self.addr.serialized_len()
    }
}


impl Command {
    /// Appends the wire form of the command to `buf`, in one write.
    pub fn write_to_buf(&self, buf: &mut BytesMut)
        requires
            self@.wf(),
            contents(*old(buf)).len() + self@.bytes().len() <= isize::MAX,
        ensures
            contents(*final(buf)) == contents(*old(buf)) + self@.bytes(),
    {
        let bytes = self.encode();
        buf_put_slice(buf, bytes.as_slice());
    }

    /// A new buffer that holds the wire form of the command and nothing else.
    pub fn to_buf(&self) -> (r: BytesMut)
        requires
            self@.wf(),
        ensures
            contents(r) == self@.bytes(),
    {
        let mut buf = buf_with_capacity(self.serialized_len());
        proof {
            lemma_command_len_bound(self@);
        }
        self.write_to_buf(&mut buf);
        assert(contents(buf) =~= self@.bytes());
        buf
    }
}

/// A command that can be written takes at most 8 bytes beside its address.
pub proof fn lemma_command_len_bound(c: CommandModel)
    requires
        c.wf(),
    ensures
        c.bytes().len() <= 8 + 4 + 255 + 2,
{
}

} // verus!
