use vstd::prelude::*;
use crate::address::Address;
use crate::command::{UdpHeader, UdpHeaderModel};
use crate::error::Error;
use crate::session::{pending_for, reassemble, SlotKey, SlotMap};

verus! {

/// The bytes of fragment `i` of `payload`, when each fragment carries at most
/// `chunk` bytes.
pub open spec fn chunk_of(payload: Seq<u8>, chunk: int, i: int) -> Seq<u8> {
    let end = if (i + 1) * chunk < payload.len() {
        (i + 1) * chunk
    } else {
        payload.len() as int
    };
    payload.subrange(i * chunk, end)
}

/// Whether `count` fragments of at most `chunk` bytes are just enough for
/// `n` bytes; an empty message still takes one fragment.
pub open spec fn fragment_count_fits(n: int, chunk: int, count: int) -> bool {
    if n == 0 {
        count == 1
    } else {
        count >= 1 && count * chunk >= n && (count - 1) * chunk < n
    }
}

/// Splits a UDP message for association `assoc_id`, from or to `addr`, into
/// datagrams of at most `max_udp_packet_size` bytes. Each datagram is a UDP
/// header that declares the whole length, followed by the next piece of the
/// payload. Fails where the payload is too long for a header to declare, or
/// where not one payload byte fits beside the header.
pub fn fragment_packet(assoc_id: u32, addr: &Address, payload: &[u8], max_udp_packet_size: usize) -> (r:
    Result<Vec<Vec<u8>>, Error>)
    requires
        addr@.wf(),
    ensures
        ({
            let header = UdpHeaderModel { assoc_id, len: payload@.len() as u16, addr: addr@ };
            let chunk = max_udp_packet_size - header.bytes().len();
            match r {
                Ok(frames) => {
                    &&& payload@.len() <= u16::MAX
                    &&& max_udp_packet_size > header.bytes().len()
                    &&& fragment_count_fits(payload@.len() as int, chunk, frames@.len() as int)
                    &&& forall|i: int|
                        0 <= i < frames@.len() ==> (#[trigger] frames@[i])@ == header.bytes() + chunk_of(
                            payload@,
                            chunk,
                            i,
                        )
                },
                Err(e) => e == Error::ProtocolError && (payload@.len() > u16::MAX
                    || max_udp_packet_size <= header.bytes().len()),
            }
        }),
{
    if payload.len() > 0xffff {
        return Err(Error::ProtocolError);
    }
    let n = payload.len();
    let header = UdpHeader::new(assoc_id, n as u16, addr.clone_address());
    let header_len = header.serialized_len();
    if max_udp_packet_size <= header_len {
        return Err(Error::ProtocolError);
    }
    let chunk = max_udp_packet_size - header_len;
    let ghost hb = header@.bytes();
    let mut frames: Vec<Vec<u8>> = Vec::new();
    let mut start: usize = 0;
    while start < n || frames.len() == 0
        invariant
            n == payload@.len(),
            n <= 0xffff,
            chunk >= 1,
            header@.bytes() == hb,
            header.addr@.wf(),
            start <= n,
            frames@.len() == 0 ==> start == 0,
            n == 0 ==> frames@.len() <= 1,
            start < n ==> start == frames@.len() * chunk,
            start == n && frames@.len() > 0 ==> frames@.len() * chunk >= n,
            n > 0 && frames@.len() > 0 ==> (frames@.len() - 1) * chunk < n,
            forall|i: int|
                0 <= i < frames@.len() ==> (#[trigger] frames@[i])@ == hb + chunk_of(payload@, chunk as int, i),
        decreases n + 1 - start, if frames@.len() == 0 { 1int } else { 0int },
    {
        let ghost k = frames@.len() as int;
        let end: usize = if chunk < n - start {
            start + chunk
        } else {
            n
        };
        let mut frame: Vec<u8> = Vec::new();
        header.write_to_vec(&mut frame);
        let mut j: usize = start;
        while j < end
            invariant
                start <= j <= end <= n,
                n == payload@.len(),
                frame@ == hb + payload@.subrange(start as int, j as int),
            decreases end - j,
        {
            frame.push(payload[j]);
            j = j + 1;
            assert(frame@ =~= hb + payload@.subrange(start as int, j as int));
        }
        assert((k + 1) * chunk == k * chunk + chunk) by (nonlinear_arith);
        assert(k >= 0 ==> k * chunk >= 0) by (nonlinear_arith)
            requires
                chunk >= 1,
        ;
        if start == n {
            assert(k == 0);
        }
        assert(frame@ == hb + chunk_of(payload@, chunk as int, k));
        frames.push(frame);
        start = end;
    }
    Ok(frames)
}

impl Address {
    /// A copy of the address.
    pub fn clone_address(&self) -> (r: Address)
        ensures
            r@ == self@,
    {
        match self {
            Address::DomainAddress(host, port) => {
                let mut h: Vec<u8> = Vec::new();
                let mut i: usize = 0;
                while i < host.len()
                    invariant
                        i <= host@.len(),
                        h@ == host@.subrange(0, i as int),
                    decreases host@.len() - i,
                {
                    h.push(host[i]);
                    i = i + 1;
                    assert(h@ =~= host@.subrange(0, i as int));
                }
                assert(h@ =~= host@);
                Address::DomainAddress(h, *port)
            },
            Address::SocketAddressV4(ip, port) => Address::SocketAddressV4(*ip, *port),
            Address::SocketAddressV6(ip, port) => Address::SocketAddressV6(*ip, *port),
        }
    }
}


/// The `count` pieces of `payload` that fragments of at most `chunk` bytes
/// carry, in order.
pub open spec fn fragments(payload: Seq<u8>, chunk: int, count: int) -> Seq<Seq<u8>> {
    Seq::new(count as nat, |i: int| chunk_of(payload, chunk, i))
}

/// Feeds `frags`, in order, to the reassembly of the message keyed `k` with
/// declared length `len`; gives the partial messages at the end and what each
/// fragment gave.
pub open spec fn feed(m: SlotMap, k: SlotKey, len: u16, frags: Seq<Seq<u8>>) -> (
    SlotMap,
    Seq<Result<Option<Seq<u8>>, Error>>,
)
    decreases frags.len(),
{
    if frags.len() == 0 {
        (m, Seq::empty())
    } else {
        let before = feed(m, k, len, frags.drop_last());
        let step = reassemble(before.0, k, len, frags.last());
        (step.0, before.1.push(step.1))
    }
}

/// What the first `i` of `count` fragments give: nothing for each.
pub open spec fn nothing_yet(i: int) -> Seq<Result<Option<Seq<u8>>, Error>> {
    Seq::new(i as nat, |j: int| Ok::<Option<Seq<u8>>, Error>(None))
}

proof fn lemma_feed_prefix(m: SlotMap, k: SlotKey, payload: Seq<u8>, chunk: int, count: int, i: int)
    requires
        !m.contains_key(k),
        payload.len() <= u16::MAX,
        chunk >= 1,
        fragment_count_fits(payload.len() as int, chunk, count),
        0 <= i < count,
    ensures
        ({
            let r = feed(m, k, payload.len() as u16, fragments(payload, chunk, count).take(i));
            &&& i * chunk < payload.len() || i == 0
            &&& pending_for(r.0, k, payload.len() as u16) == payload.subrange(0, i * chunk)
            &&& r.0.remove(k) == m.remove(k)
            &&& r.1 == nothing_yet(i)
        }),
    decreases i,
{
    let n = payload.len() as int;
    let len = payload.len() as u16;
    let frags = fragments(payload, chunk, count);
    assert((count - 1) * chunk < n || n == 0);
    assert(i * chunk <= (count - 1) * chunk) by (nonlinear_arith)
        requires
            i <= count - 1,
            chunk >= 1,
    ;
    if i == 0 {
        assert(i * chunk == 0) by (nonlinear_arith)
            requires
                i == 0,
        ;
        assert(frags.take(0) =~= Seq::<Seq<u8>>::empty());
        assert(payload.subrange(0, 0) =~= Seq::<u8>::empty());
        assert(nothing_yet(0) =~= Seq::empty());
    } else {
        lemma_feed_prefix(m, k, payload, chunk, count, i - 1);
        let prev = feed(m, k, len, frags.take(i - 1));
        assert(frags.take(i).drop_last() =~= frags.take(i - 1));
        assert(frags.take(i).last() == chunk_of(payload, chunk, i - 1));
        assert((i - 1) * chunk + chunk == i * chunk) by (nonlinear_arith);
        assert(i * chunk < n);
        let acc = payload.subrange(0, (i - 1) * chunk) + chunk_of(payload, chunk, i - 1);
        assert(acc =~= payload.subrange(0, i * chunk));
        assert(pending_for(prev.0, k, len) + frags.take(i).last() == acc);
        assert(acc.len() < len);
        let r = feed(m, k, len, frags.take(i));
        assert(r.0 == prev.0.insert(k, (len, acc)));
        assert(r.0.remove(k) =~= prev.0.remove(k));
        assert(r.1 =~= nothing_yet(i));
    }
}

/// The pieces that the fragments of a message carry, fed in order to a
/// reassembly that holds nothing for its key, give nothing until the last
/// one, which gives the whole message, once; nothing is left behind for the
/// key, and other keys are untouched.
pub proof fn lemma_fragments_reassemble(m: SlotMap, k: SlotKey, payload: Seq<u8>, chunk: int, count: int)
    requires
        !m.contains_key(k),
        payload.len() <= u16::MAX,
        chunk >= 1,
        fragment_count_fits(payload.len() as int, chunk, count),
    ensures
        ({
            let r = feed(m, k, payload.len() as u16, fragments(payload, chunk, count));
            &&& r.0 == m
            &&& r.1 == nothing_yet(count - 1).push(Ok::<Option<Seq<u8>>, Error>(Some(payload)))
        }),
{
    let n = payload.len() as int;
    let len = payload.len() as u16;
    let frags = fragments(payload, chunk, count);
    lemma_feed_prefix(m, k, payload, chunk, count, count - 1);
    let prev = feed(m, k, len, frags.take(count - 1));
    assert(frags.take(count) =~= frags);
    assert(frags.drop_last() =~= frags.take(count - 1));
    assert((count - 1) * chunk + chunk == count * chunk) by (nonlinear_arith);
    let acc = payload.subrange(0, (count - 1) * chunk) + chunk_of(payload, chunk, count - 1);
    assert(acc =~= payload);
    assert(pending_for(prev.0, k, len) + frags.last() == acc);
    let r = feed(m, k, len, frags);
    assert(r.0 == prev.0.remove(k));
    assert(m.remove(k) =~= m);
    assert(r.0 =~= m);
}

} // verus!
