use vstd::prelude::*;
use crate::error::Error;
use crate::wire::{be16, be16_at, lemma_be16_round_trip, push_be16, read_be16};
use vstd::array::array_as_slice;
use vstd::slice::{slice_subrange, slice_to_vec};

verus! {

pub const TYPE_DOMAIN: u8 = 0xff;
pub const TYPE_IPV4: u8 = 0x01;
pub const TYPE_IPV6: u8 = 0x04;

/// A destination: a host name to resolve, or an IPv4 or IPv6 socket address.
#[derive(Debug, Clone, PartialEq, Eq)]
pub enum Address {
    /// The host name is an opaque byte string of 1 to 255 bytes.
    DomainAddress(Vec<u8>, u16),
    SocketAddressV4([u8; 4], u16),
    SocketAddressV6([u8; 16], u16),
}

/// What an `Address` holds, as mathematical values.
pub enum AddressModel {
    Domain(Seq<u8>, u16),
    V4(Seq<u8>, u16),
    V6(Seq<u8>, u16),
}

impl View for Address {
    type V = AddressModel;

    open spec fn view(&self) -> AddressModel {
        match self {
            Address::DomainAddress(host, port) => AddressModel::Domain(host@, *port),
            Address::SocketAddressV4(ip, port) => AddressModel::V4(ip@, *port),
            Address::SocketAddressV6(ip, port) => AddressModel::V6(ip@, *port),
        }
    }
}

impl AddressModel {
    /// Whether the address can be written: a host name of 1 to 255 bytes, or
    /// an IP address of 4 or 16 bytes.
    pub open spec fn wf(self) -> bool {
        match self {
            AddressModel::Domain(host, _) => 1 <= host.len() <= 255,
            AddressModel::V4(ip, _) => ip.len() == 4,
            AddressModel::V6(ip, _) => ip.len() == 16,
        }
    }

    /// The bytes that stand for the address on the wire.
    pub open spec fn bytes(self) -> Seq<u8> {
        match self {
            AddressModel::Domain(host, port) => seq![TYPE_DOMAIN, host.len() as u8] + host + be16(
                port,
            ),
            AddressModel::V4(ip, port) => seq![TYPE_IPV4] + ip + be16(port),
            AddressModel::V6(ip, port) => seq![TYPE_IPV6] + ip + be16(port),
        }
    }
}

/// What reading an address from the front of `s` gives: the address and the
/// number of bytes it took, or the error.
pub open spec fn parse_address(s: Seq<u8>) -> Result<(AddressModel, int), Error> {
    if s.len() < 1 {
        Err(Error::Io)
    } else if s[0] == TYPE_IPV4 {
        if s.len() < 7 {
            Err(Error::Io)
        } else {
            Ok((AddressModel::V4(s.subrange(1, 5), be16_at(s, 5)), 7))
        }
    } else if s[0] == TYPE_IPV6 {
        if s.len() < 19 {
            Err(Error::Io)
        } else {
            Ok((AddressModel::V6(s.subrange(1, 17), be16_at(s, 17)), 19))
        }
    } else if s[0] == TYPE_DOMAIN {
        if s.len() < 2 {
            Err(Error::Io)
        } else {
            let n = s[1] as int;
            if s.len() < n + 4 {
                Err(Error::Io)
            } else {
                Ok((AddressModel::Domain(s.subrange(2, n + 2), be16_at(s, n + 2)), n + 4))
            }
        }
    } else {
        Err(Error::InvalidAddressType(s[0]))
    }
}

/// Reading back what was written gives the same address, and stops where
/// the address ends, whatever follows it.
pub proof fn lemma_address_round_trip(a: AddressModel, rest: Seq<u8>)
    requires
        a.wf(),
    ensures
        parse_address(a.bytes() + rest) == Ok::<(AddressModel, int), Error>((a, a.bytes().len() as int)),
{
    let s = a.bytes() + rest;
    match a {
        AddressModel::Domain(host, port) => {
            let n = host.len() as int;
            assert(s[0] == TYPE_DOMAIN);
            assert(s[1] == host.len() as u8);
            assert(s.subrange(2, n + 2) =~= host);
            assert(s.subrange(n + 2, n + 4) =~= be16(port));
            lemma_be16_round_trip(port, s, n + 2);
        },
        AddressModel::V4(ip, port) => {
            assert(s[0] == TYPE_IPV4);
            assert(s.subrange(1, 5) =~= ip);
            assert(s.subrange(5, 7) =~= be16(port));
            lemma_be16_round_trip(port, s, 5);
        },
        AddressModel::V6(ip, port) => {
            assert(s[0] == TYPE_IPV6);
            assert(s.subrange(1, 17) =~= ip);
            assert(s.subrange(17, 19) =~= be16(port));
            lemma_be16_round_trip(port, s, 17);
        },
    }
}

impl Address {
    /// Reads an address from the front of `buf`; returns it with the number of
    /// bytes it took.
    pub fn read_from(buf: &[u8]) -> (r: Result<(Address, usize), Error>)
        ensures
            match r {
                Ok((a, n)) => parse_address(buf@) == Ok::<(AddressModel, int), Error>((a@, n as int)),
                Err(e) => parse_address(buf@) == Err::<(AddressModel, int), Error>(e),
            },
    {
        if buf.len() < 1 {
            return Err(Error::Io);
        }
        let tag = buf[0];
        if tag == TYPE_IPV4 {
            if buf.len() < 7 {
                return Err(Error::Io);
            }
            let ip: [u8; 4] = [buf[1], buf[2], buf[3], buf[4]];
            assert(ip@ =~= buf@.subrange(1, 5));
            Ok((Address::SocketAddressV4(ip, read_be16(buf, 5)), 7))
        } else if tag == TYPE_IPV6 {
            if buf.len() < 19 {
                return Err(Error::Io);
            }
            let ip: [u8; 16] = [
                buf[1],
                buf[2],
                buf[3],
                buf[4],
                buf[5],
                buf[6],
                buf[7],
                buf[8],
                buf[9],
                buf[10],
                buf[11],
                buf[12],
                buf[13],
                buf[14],
                buf[15],
                buf[16],
            ];
            assert(ip@ =~= buf@.subrange(1, 17));
            Ok((Address::SocketAddressV6(ip, read_be16(buf, 17)), 19))
        } else if tag == TYPE_DOMAIN {
            if buf.len() < 2 {
                return Err(Error::Io);
            }
            let n = buf[1] as usize;
            if buf.len() < n + 4 {
                return Err(Error::Io);
            }
            let host = slice_to_vec(slice_subrange(buf, 2, n + 2));
            Ok((Address::DomainAddress(host, read_be16(buf, n + 2)), n + 4))
        } else {
            Err(Error::InvalidAddressType(tag))
        }
    }

    /// Appends the wire form of the address to `out`.
    pub fn write_to_vec(&self, out: &mut Vec<u8>)
        requires
            self@.wf(),
        ensures
            final(out)@ == old(out)@ + self@.bytes(),
    {
        match self {
            Address::DomainAddress(host, port) => {
                out.push(TYPE_DOMAIN);
                out.push(host.len() as u8);
                let mut i: usize = 0;
                while i < host.len()
                    invariant
                        i <= host@.len(),
                        out@ == old(out)@ + seq![TYPE_DOMAIN, host@.len() as u8] + host@.subrange(0, i as int),
                    decreases host@.len() - i,
                {
                    out.push(host[i]);
                    i = i + 1;
                    assert(out@ =~= old(out)@ + seq![TYPE_DOMAIN, host@.len() as u8] + host@.subrange(0, i as int));
                }
                assert(host@.subrange(0, host@.len() as int) =~= host@);
                push_be16(out, *port);
            },
            Address::SocketAddressV4(ip, port) => {
                out.push(TYPE_IPV4);
                let mut i: usize = 0;
                while i < 4
                    invariant
                        i <= 4,
                        ip@.len() == 4,
                        out@ == old(out)@ + seq![TYPE_IPV4] + ip@.subrange(0, i as int),
                    decreases 4 - i,
                {
                    out.push(ip[i]);
                    i = i + 1;
                    assert(out@ =~= old(out)@ + seq![TYPE_IPV4] + ip@.subrange(0, i as int));
                }
                assert(ip@.subrange(0, 4) =~= ip@);
                push_be16(out, *port);
            },
            Address::SocketAddressV6(ip, port) => {
                out.push(TYPE_IPV6);
                let mut i: usize = 0;
                while i < 16
                    invariant
                        i <= 16,
                        ip@.len() == 16,
                        out@ == old(out)@ + seq![TYPE_IPV6] + ip@.subrange(0, i as int),
                    decreases 16 - i,
                {
                    out.push(ip[i]);
                    i = i + 1;
                    assert(out@ =~= old(out)@ + seq![TYPE_IPV6] + ip@.subrange(0, i as int));
                }
                assert(ip@.subrange(0, 16) =~= ip@);
                push_be16(out, *port);
            },
        }
        assert(final(out)@ =~= old(out)@ + self@.bytes());
    }

    /// The number of bytes that the address takes on the wire.
    pub fn serialized_len(&self) -> (r: usize)
        requires
            self@.wf(),
        ensures
            r == self@.bytes().len(),
    {
        match self {
            Address::DomainAddress(host, _) => 4 + host.len(),
            Address::SocketAddressV4(..) => 7,
            Address::SocketAddressV6(..) => 19,
        }
    }
}


/// Whether two byte strings are equal.
pub fn bytes_eq(a: &[u8], b: &[u8]) -> (r: bool)
    ensures
        r == (a@ == b@),
{
    if a.len() != b.len() {
        return false;
    }
    let mut i: usize = 0;
    while i < a.len()
        invariant
            i <= a@.len(),
            a@.len() == b@.len(),
            a@.subrange(0, i as int) == b@.subrange(0, i as int),
        decreases a@.len() - i,
    {
        if a[i] != b[i] {
            assert(a@[i as int] != b@[i as int]);
            return false;
        }
        i = i + 1;
        assert(a@.subrange(0, i as int) =~= b@.subrange(0, i as int)) by {
            assert(a@.subrange(0, i as int) =~= a@.subrange(0, i - 1).push(a@[i - 1]));
            assert(b@.subrange(0, i as int) =~= b@.subrange(0, i - 1).push(b@[i - 1]));
        }
    }
    assert(a@ =~= a@.subrange(0, i as int));
    assert(b@ =~= b@.subrange(0, i as int));
    true
}

impl Address {
    /// Whether two addresses are the same: same kind, same bytes, same port.
    pub fn same_as(&self, other: &Address) -> (r: bool)
        ensures
            r == (self@ == other@),
    {
        match (self, other) {
            (Address::DomainAddress(h1, p1), Address::DomainAddress(h2, p2)) => *p1 == *p2
                && bytes_eq(h1.as_slice(), h2.as_slice()),
            (Address::SocketAddressV4(a1, p1), Address::SocketAddressV4(a2, p2)) => *p1 == *p2
                && bytes_eq(array_as_slice(a1), array_as_slice(a2)),
            (Address::SocketAddressV6(a1, p1), Address::SocketAddressV6(a2, p2)) => *p1 == *p2
                && bytes_eq(array_as_slice(a1), array_as_slice(a2)),
            _ => false,
        }
    }
}

} // verus!
