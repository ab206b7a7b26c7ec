//! The query session engine.
//!
//! A session frames one request per page, decodes each response datagram,
//! and keeps the continuation cursor: the last address/port pair decoded,
//! which the next request carries so the directory host resumes the list
//! from that point.  The session is done once a datagram's entry list ends
//! with the all-zero terminator address.

use vstd::prelude::*;

use crate::error::ProtocolError;
use crate::packet_ext::{
    be_u16, cstring_encoding, PacketReader, PacketWriter, ReadPacketExt, WritePacketExt,
};

verus! {

/// A response datagram must fit in a buffer of this many bytes; one at least
/// this large may have been truncated by the receive call and is rejected.
pub const MAX_DATAGRAM: usize = 2048;

/// A server's 4-octet network address.  The all-zero value is reserved as
/// the end-of-list terminator and never names a real server.
#[derive(Debug, PartialEq, Eq, Structural, Clone, Copy)]
pub struct Address {
    pub a: u8,
    pub b: u8,
    pub c: u8,
    pub d: u8,
}

/// Whether an address is the reserved all-zero terminator.
pub open spec fn addr_is_terminator(addr: Address) -> bool {
    addr.a == 0 && addr.b == 0 && addr.c == 0 && addr.d == 0
}

impl Address {
    /// Report whether this address is the reserved all-zero terminator.
    pub fn is_terminator(&self) -> (r: bool)
        ensures
            r == addr_is_terminator(*self),
    {
        self.a == 0 && self.b == 0 && self.c == 0 && self.d == 0
    }
}

impl Default for Address {
    /// The all-zero address, the cursor of a session's first request.
    fn default() -> (r: Self)
        ensures
            r == (Address { a: 0, b: 0, c: 0, d: 0 }),
    {
        Address { a: 0, b: 0, c: 0, d: 0 }
    }
}

/// The shortest decimal numeral of `n`: its digits as bytes, no sign, no
/// leading zero (a single `'0'` for zero itself).
pub open spec fn dec_rep(n: nat) -> Seq<u8>
    decreases n,
{
    if n < 10 {
        seq![(48 + n) as u8]
    } else {
        dec_rep(n / 10).push((48 + n % 10) as u8)
    }
}

/// The cursor rendered as text: a dotted-quad address, a colon, and the
/// port, all in decimal.
pub open spec fn cursor_text(addr: Address, port: u16) -> Seq<u8> {
    dec_rep(addr.a as nat) + seq![46u8] + dec_rep(addr.b as nat) + seq![46u8] + dec_rep(
        addr.c as nat,
    ) + seq![46u8] + dec_rep(addr.d as nat) + seq![58u8] + dec_rep(port as nat)
}

/// One whole request packet: the query byte, the region byte, then the
/// cursor text and the filter text as zero-terminated fields.
pub open spec fn request_packet(region_code: u8, addr: Address, port: u16, filter: Seq<u8>) -> Seq<
    u8,
> {
    seq![0x31u8, region_code] + cstring_encoding(cursor_text(addr, port)) + cstring_encoding(filter)
}

/// The fixed six-byte sentinel every response datagram must begin with.
pub open spec fn header_sentinel() -> Seq<u8> {
    seq![0xFFu8, 0xFFu8, 0xFFu8, 0xFFu8, 0x66u8, 0x0Au8]
}

/// The entry a response payload begins with: four address octets, then a
/// big-endian port.
pub open spec fn entry_at(p: Seq<u8>) -> (Address, u16)
    recommends
        p.len() >= 6,
{
    (Address { a: p[0], b: p[1], c: p[2], d: p[3] }, be_u16(p[4], p[5]))
}

/// The entries a response payload delivers: every full six-byte entry up to
/// but not including the terminator, or up to where fewer than six bytes
/// remain (a naturally short final entry run, not an error).
pub open spec fn page_entries(p: Seq<u8>) -> Seq<(Address, u16)>
    decreases p.len(),
{
    if p.len() < 6 {
        Seq::empty()
    } else if addr_is_terminator(entry_at(p).0) {
        Seq::empty()
    } else {
        seq![entry_at(p)] + page_entries(p.skip(6))
    }
}

/// Whether a response payload reaches the all-zero terminator, marking the
/// end of the list.
pub open spec fn page_terminated(p: Seq<u8>) -> bool
    decreases p.len(),
{
    if p.len() < 6 {
        false
    } else if addr_is_terminator(entry_at(p).0) {
        true
    } else {
        page_terminated(p.skip(6))
    }
}

/// The terminator is never among a page's entries: every delivered entry
/// has a non-terminator address, for any payload whatsoever.
pub proof fn lemma_terminator_excluded(p: Seq<u8>)
    ensures
        forall|i: int|
            0 <= i < page_entries(p).len() ==> !addr_is_terminator(
                #[trigger] page_entries(p)[i].0,
            ),
    decreases p.len(),
{
    if p.len() < 6 {
    } else if addr_is_terminator(entry_at(p).0) {
    } else {
        lemma_terminator_excluded(p.skip(6));
        assert forall|i: int|
            0 <= i < page_entries(p).len() implies !addr_is_terminator(
            page_entries(p)[i].0,
        ) by {
            if i > 0 {
                assert(page_entries(p)[i] == page_entries(p.skip(6))[i - 1]);
            }
        }
    }
}

/// The header sentinel as concrete bytes.
fn header_bytes() -> (r: Vec<u8>)
    ensures
        r@ == header_sentinel(),
{
    let mut v: Vec<u8> = Vec::new();
    v.push(0xFF);
    v.push(0xFF);
    v.push(0xFF);
    v.push(0xFF);
    v.push(0x66);
    v.push(0x0A);
    proof {
        assert(v@ =~= header_sentinel());
    }
    v
}

/// Append the decimal numeral of `n`.
fn write_u16_decimal(w: &mut PacketWriter, n: u16)
    ensures
        final(w).written() == old(w).written() + dec_rep(n as nat),
    decreases n,
{
    if n < 10 {
        w.write_u8(48 + (n as u8));
        proof {
            assert(final(w).written() =~= old(w).written() + dec_rep(n as nat));
        }
    } else {
        write_u16_decimal(w, n / 10);
        w.write_u8(48 + ((n % 10) as u8));
        proof {
            assert(final(w).written() =~= old(w).written() + dec_rep(n as nat));
        }
    }
}

/// Append the cursor as text: `a.b.c.d:port` in decimal.
fn write_cursor_text(w: &mut PacketWriter, addr: &Address, port: u16)
    ensures
        final(w).written() == old(w).written() + cursor_text(*addr, port),
{
    write_u16_decimal(w, addr.a as u16);
    w.write_u8(46);
    write_u16_decimal(w, addr.b as u16);
    w.write_u8(46);
    write_u16_decimal(w, addr.c as u16);
    w.write_u8(46);
    write_u16_decimal(w, addr.d as u16);
    w.write_u8(58);
    write_u16_decimal(w, port);
    proof {
        assert(final(w).written() =~= old(w).written() + cursor_text(*addr, port));
    }
}

/// Build one request packet from the region byte, the continuation cursor,
/// and the filter text.
pub fn build_request(region_code: u8, addr: &Address, port: u16, filter: &[u8]) -> (r: Vec<u8>)
    ensures
        r@ == request_packet(region_code, *addr, port, filter@),
{
    let mut w = PacketWriter::new();
    w.write_u8(0x31);
    w.write_u8(region_code);
    write_cursor_text(&mut w, addr, port);
    w.write_u8(0);
    w.write_cstring(filter);
    proof {
        assert(w.written() =~= request_packet(region_code, *addr, port, filter@));
    }
    w.into_vec()
}

/// One in-flight query: the region byte, the filter text, the continuation
/// cursor, and whether the terminator has been seen.  A session lives for
/// one query and owns its cursor alone.
pub struct QuerySession {
    /// The protocol byte of the region the query is restricted to.
    pub region_code: u8,
    /// The caller-supplied filter text, framed but never interpreted.
    pub filter: Vec<u8>,
    /// The address of the last entry decoded, or all-zero before the first.
    pub cursor_addr: Address,
    /// The port of the last entry decoded, or zero before the first.
    pub cursor_port: u16,
    /// Whether a response has ended the list with the terminator.
    pub finished: bool,
}

impl QuerySession {
    /// Start a session: the first request carries the all-zero cursor.
    pub fn new(region_code: u8, filter: Vec<u8>) -> (s: QuerySession)
        ensures
            s.region_code == region_code,
            s.filter@ == filter@,
            s.cursor_addr == (Address { a: 0, b: 0, c: 0, d: 0 }),
            s.cursor_port == 0,
            !s.finished,
    {
        QuerySession {
            region_code,
            filter,
            cursor_addr: Address { a: 0, b: 0, c: 0, d: 0 },
            cursor_port: 0,
            finished: false,
        }
    }

    /// Whether the terminator has been seen; no further request is owed.
    pub fn is_finished(&self) -> (r: bool)
        ensures
            r == self.finished,
    {
        self.finished
    }

    /// The bytes of the request that continues the session from its cursor.
    pub fn next_request(&self) -> (r: Vec<u8>)
        ensures
            r@ == request_packet(self.region_code, self.cursor_addr, self.cursor_port, self.filter@),
    {
        build_request(self.region_code, &self.cursor_addr, self.cursor_port, self.filter.as_slice())
    }

    /// Decode one response datagram.
    ///
    /// On success the returned entries are exactly the page's entries, in
    /// order, none of them the terminator; the cursor moves to the last of
    /// them (or stays put on an empty page), and the session is finished
    /// once the page ends with the terminator.  A datagram that fills the
    /// receive buffer, lacks a full header, or carries the wrong header
    /// fails the session and leaves it unchanged.
    pub fn handle_datagram(&mut self, datagram: &[u8]) -> (r: Result<
        Vec<(Address, u16)>,
        ProtocolError,
    >)
        ensures
            r is Err ==> *final(self) == *old(self),
            (r matches Err(e) && e == ProtocolError::MalformedResponse) <==> datagram@.len()
                >= MAX_DATAGRAM,
            (r matches Err(e) && e == ProtocolError::UnexpectedEof) <==> (datagram@.len()
                < MAX_DATAGRAM && datagram@.len() < 6),
            (r matches Err(e) && e == ProtocolError::HeaderMismatch) <==> (datagram@.len()
                < MAX_DATAGRAM && datagram@.len() >= 6 && datagram@.take(6) != header_sentinel()),
            r is Ok <==> (datagram@.len() < MAX_DATAGRAM && datagram@.len() >= 6 && datagram@.take(
                6,
            ) == header_sentinel()),
            r matches Ok(entries) ==> {
                let payload = datagram@.skip(6);
                &&& entries@ == page_entries(payload)
                &&& (forall|i: int|
                    0 <= i < entries@.len() ==> !addr_is_terminator(#[trigger] entries@[i].0))
                &&& final(self).finished == (old(self).finished || page_terminated(payload))
                &&& (if page_entries(payload).len() > 0 {
                    final(self).cursor_addr == page_entries(payload).last().0
                        && final(self).cursor_port == page_entries(payload).last().1
                } else {
                    final(self).cursor_addr == old(self).cursor_addr && final(self).cursor_port
                        == old(self).cursor_port
                })
                &&& final(self).region_code == old(self).region_code
                &&& final(self).filter@ == old(self).filter@
            },
    {
        if datagram.len() >= MAX_DATAGRAM {
            return Err(ProtocolError::MalformedResponse);
        }
        let data = vstd::slice::slice_to_vec(datagram);
        let mut reader = PacketReader::new(data);
        let hdr = header_bytes();
        let matched = match reader.read_u8_veccheck(hdr.as_slice()) {
            Ok(m) => m,
            Err(e) => {
                return Err(e);
            },
        };
        if !matched {
            return Err(ProtocolError::HeaderMismatch);
        }
        let ghost payload = datagram@.skip(6);
        proof {
            assert(reader.remaining() == payload);
        }
        let mut entries: Vec<(Address, u16)> = Vec::new();
        let mut terminated = false;
        loop
            invariant_except_break
                page_entries(payload) == entries@ + page_entries(reader.remaining()),
                page_terminated(payload) == page_terminated(reader.remaining()),
                !terminated,
            invariant
                reader.wf(),
                forall|i: int|
                    0 <= i < entries@.len() ==> !addr_is_terminator(#[trigger] entries@[i].0),
                entries@.len() > 0 ==> self.cursor_addr == entries@.last().0 && self.cursor_port
                    == entries@.last().1,
                entries@.len() == 0 ==> self.cursor_addr == old(self).cursor_addr
                    && self.cursor_port == old(self).cursor_port,
                self.region_code == old(self).region_code,
                self.filter@ == old(self).filter@,
                self.finished == old(self).finished,
            ensures
                reader.wf(),
                entries@ == page_entries(payload),
                terminated == page_terminated(payload),
                entries@.len() > 0 ==> self.cursor_addr == entries@.last().0 && self.cursor_port
                    == entries@.last().1,
                entries@.len() == 0 ==> self.cursor_addr == old(self).cursor_addr
                    && self.cursor_port == old(self).cursor_port,
                forall|i: int|
                    0 <= i < entries@.len() ==> !addr_is_terminator(#[trigger] entries@[i].0),
                self.region_code == old(self).region_code,
                self.filter@ == old(self).filter@,
                self.finished == old(self).finished,
            decreases reader.remaining().len(),
        {
            let ghost rem = reader.remaining();
            if reader.remaining_len() < 6 {
                proof {
                    assert(page_entries(rem) =~= Seq::<(Address, u16)>::empty());
                    assert(entries@ + page_entries(rem) =~= entries@);
                }
                break ;
            }
            let oct_a = reader.read_u8().unwrap();
            let oct_b = reader.read_u8().unwrap();
            let oct_c = reader.read_u8().unwrap();
            let oct_d = reader.read_u8().unwrap();
            let addr = Address { a: oct_a, b: oct_b, c: oct_c, d: oct_d };
            proof {
                assert(rem.skip(1).skip(1) =~= rem.skip(2));
                assert(rem.skip(2).skip(1) =~= rem.skip(3));
                assert(rem.skip(3).skip(1) =~= rem.skip(4));
                assert(addr == entry_at(rem).0);
            }
            if addr.is_terminator() {
                terminated = true;
                proof {
                    assert(page_entries(rem) =~= Seq::<(Address, u16)>::empty());
                    assert(entries@ + page_entries(rem) =~= entries@);
                    assert(page_terminated(rem));
                }
                break ;
            }
            let port = reader.read_u16_be().unwrap();
            proof {
                assert(rem.skip(4).skip(2) =~= rem.skip(6));
                assert(port == entry_at(rem).1);
                assert(page_entries(rem) == seq![entry_at(rem)] + page_entries(rem.skip(6)));
                assert(entries@ + page_entries(rem) =~= entries@.push(entry_at(rem))
                    + page_entries(rem.skip(6)));
            }
            entries.push((addr, port));
            self.cursor_addr = addr;
            self.cursor_port = port;
        }
        if terminated {
            self.finished = true;
        }
        Ok(entries)
    }
}

} // verus!
