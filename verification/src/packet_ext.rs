//! Wire codec for the protocol's primitive field types.
//!
//! The protocol knows two primitives: fixed-width big-endian integers and
//! zero-terminated variable-length text fields ("C-strings").  Text is
//! handled as raw bytes: the engine frames a caller-supplied filter string
//! without interpreting it, so the codec never needs to know its character
//! encoding.

use vstd::prelude::*;

use crate::error::ProtocolError;

verus! {

/// The bytes of a zero-terminated text field: the text itself followed by a
/// single zero byte.  The text must not contain an embedded zero byte.
pub open spec fn cstring_encoding(s: Seq<u8>) -> Seq<u8> {
    s + seq![0u8]
}

/// The text a zero-terminated field decodes to: the bytes before the first
/// zero byte, or `None` when no zero byte is present.
pub open spec fn cstring_decoding(b: Seq<u8>) -> Option<Seq<u8>>
    decreases b.len(),
{
    if b.len() == 0 {
        None
    } else if b[0] == 0 {
        Some(Seq::empty())
    } else {
        match cstring_decoding(b.skip(1)) {
            Some(t) => Some(seq![b[0]] + t),
            None => None,
        }
    }
}

/// The big-endian value of two bytes.
pub open spec fn be_u16(hi: u8, lo: u8) -> u16 {
    ((hi as int) * 256 + (lo as int)) as u16
}

/// A byte source that can match a literal byte sequence against its prefix.
pub trait ReadPacketExt {
    /// The source is in a readable state.
    spec fn source_wf(&self) -> bool;

    /// The bytes not yet consumed from the source.
    spec fn source_rest(&self) -> Seq<u8>;

    /// Consume exactly `cmp.len()` bytes and report whether they equal `cmp`
    /// byte for byte.  The bytes are consumed on mismatch as well, so the
    /// cursor lands in the same place either way; when fewer than `cmp.len()`
    /// bytes remain, the read fails and the source is left untouched.
    fn read_u8_veccheck(&mut self, cmp: &[u8]) -> (r: Result<bool, ProtocolError>)
        requires
            old(self).source_wf(),
        ensures
            final(self).source_wf(),
            r is Ok <==> old(self).source_rest().len() >= cmp@.len(),
            r matches Ok(m) ==> {
                &&& m <==> old(self).source_rest().take(cmp@.len() as int) == cmp@
                &&& final(self).source_rest() == old(self).source_rest().skip(cmp@.len() as int)
            },
            r is Err ==> r == Err::<bool, ProtocolError>(ProtocolError::UnexpectedEof)
                && final(self).source_rest() == old(self).source_rest(),
    ;
}

/// A byte sink that can append a zero-terminated text field.
pub trait WritePacketExt {
    /// The bytes written to the sink so far.
    spec fn sink_written(&self) -> Seq<u8>;

    /// Append `src` followed by a single zero terminator.  `src` is framed as
    /// raw bytes; a caller must not pass text with an embedded zero byte.
    fn write_cstring(&mut self, src: &[u8])
        ensures
            final(self).sink_written() == old(self).sink_written() + cstring_encoding(src@),
    ;
}

/// Reads the primitive fields of one received datagram, front to back.
pub struct PacketReader {
    data: Vec<u8>,
    pos: usize,
}

/// Builds the bytes of one outgoing datagram.
pub struct PacketWriter {
    data: Vec<u8>,
}

impl PacketReader {
    /// The read position never passes the end of the buffer.
    pub closed spec fn wf(&self) -> bool {
        self.pos <= self.data.len()
    }

    /// The bytes not yet consumed.
    pub closed spec fn remaining(&self) -> Seq<u8> {
        self.data@.skip(self.pos as int)
    }

    /// Start reading a datagram from its first byte.
    pub fn new(data: Vec<u8>) -> (r: PacketReader)
        ensures
            r.wf(),
            r.remaining() == data@,
    {
        let r = PacketReader { data, pos: 0 };
        proof {
            assert(r.remaining() =~= r.data@);
        }
        r
    }

    /// Read one byte; fails once the buffer is exhausted.
    pub fn read_u8(&mut self) -> (r: Result<u8, ProtocolError>)
        requires
            old(self).wf(),
        ensures
            final(self).wf(),
            r is Ok <==> old(self).remaining().len() > 0,
            r matches Ok(b) ==> b == old(self).remaining()[0] && final(self).remaining()
                == old(self).remaining().skip(1),
            r is Err ==> r == Err::<u8, ProtocolError>(ProtocolError::UnexpectedEof)
                && *final(self) == *old(self),
    {
        if self.pos < self.data.len() {
            let b = self.data[self.pos];
            self.pos = self.pos + 1;
            proof {
                assert(final(self).remaining() =~= old(self).remaining().skip(1));
            }
            Ok(b)
        } else {
            Err(ProtocolError::UnexpectedEof)
        }
    }

    /// Read a big-endian 16-bit integer; fails, without consuming anything,
    /// when fewer than two bytes remain.
    pub fn read_u16_be(&mut self) -> (r: Result<u16, ProtocolError>)
        requires
            old(self).wf(),
        ensures
            final(self).wf(),
            r is Ok <==> old(self).remaining().len() >= 2,
            r matches Ok(v) ==> v == be_u16(old(self).remaining()[0], old(self).remaining()[1])
                && final(self).remaining() == old(self).remaining().skip(2),
            r is Err ==> r == Err::<u16, ProtocolError>(ProtocolError::UnexpectedEof)
                && *final(self) == *old(self),
    {
        if self.data.len() - self.pos >= 2 {
            let hi = self.data[self.pos];
            let lo = self.data[self.pos + 1];
            self.pos = self.pos + 2;
            proof {
                assert(final(self).remaining() =~= old(self).remaining().skip(2));
            }
            Ok((hi as u16) * 256 + (lo as u16))
        } else {
            Err(ProtocolError::UnexpectedEof)
        }
    }

    /// How many bytes are left to read.
    pub fn remaining_len(&self) -> (r: usize)
        requires
            self.wf(),
        ensures
            r == self.remaining().len(),
    {
        self.data.len() - self.pos
    }
}

/// The text decoded so far, put back in front of what the rest of the
/// buffer decodes to.
spec fn decoded_after(p: Seq<u8>, o: Option<Seq<u8>>) -> Option<Seq<u8>> {
    match o {
        Some(t) => Some(p + t),
        None => None,
    }
}

impl PacketReader {
    /// Read a zero-terminated text field and consume its terminator; fails
    /// when the buffer runs out before a zero byte is seen.
    pub fn read_cstring(&mut self) -> (r: Result<Vec<u8>, ProtocolError>)
        requires
            old(self).wf(),
        ensures
            final(self).wf(),
            r is Ok <==> cstring_decoding(old(self).remaining()) is Some,
            r matches Ok(v) ==> cstring_decoding(old(self).remaining()) == Some(v@)
                && final(self).remaining() == old(self).remaining().skip(v@.len() as int + 1),
            r matches Err(e) ==> e == ProtocolError::UnexpectedEof,
    {
        let mut acc: Vec<u8> = Vec::new();
        proof {
            assert(old(self).remaining().skip(0) =~= old(self).remaining());
        }
        loop
            invariant
                self.wf(),
                acc@.len() <= old(self).remaining().len(),
                self.remaining() == old(self).remaining().skip(acc@.len() as int),
                cstring_decoding(old(self).remaining()) == decoded_after(
                    acc@,
                    cstring_decoding(self.remaining()),
                ),
            decreases self.remaining().len(),
        {
            let ghost pre_rem = self.remaining();
            match self.read_u8() {
                Err(_) => {
                    return Err(ProtocolError::UnexpectedEof);
                },
                Ok(b) => {
                    if b == 0 {
                        proof {
                            assert(cstring_decoding(pre_rem) == Some(Seq::<u8>::empty()));
                            assert(acc@ + Seq::<u8>::empty() =~= acc@);
                            assert(old(self).remaining().skip(acc@.len() as int + 1)
                                =~= pre_rem.skip(1));
                        }
                        return Ok(acc);
                    }
                    proof {
                        assert(old(self).remaining().skip((acc@.len() + 1) as int)
                            =~= pre_rem.skip(1));
                        match cstring_decoding(pre_rem.skip(1)) {
                            Some(t) => {
                                assert(cstring_decoding(pre_rem) == Some(seq![b] + t));
                                assert(acc@ + (seq![b] + t) =~= acc@.push(b) + t);
                            },
                            None => {
                                assert(cstring_decoding(pre_rem) is None);
                            },
                        }
                    }
                    acc.push(b);
                },
            }
        }
    }
}

impl ReadPacketExt for PacketReader {
    open spec fn source_wf(&self) -> bool {
        self.wf()
    }

    open spec fn source_rest(&self) -> Seq<u8> {
        self.remaining()
    }

    fn read_u8_veccheck(&mut self, cmp: &[u8]) -> (r: Result<bool, ProtocolError>) {
        let ghost orig = self.remaining();
        if self.remaining_len() < cmp.len() {
            return Err(ProtocolError::UnexpectedEof);
        }
        let mut m = true;
        let mut i: usize = 0;
        proof {
            assert(orig.skip(0) =~= orig);
        }
        while i < cmp.len()
            invariant
                self.wf(),
                i <= cmp@.len(),
                orig.len() >= cmp@.len(),
                orig == old(self).remaining(),
                self.remaining() == orig.skip(i as int),
                m <==> (forall|j: int| 0 <= j < i ==> orig[j] == cmp@[j]),
            decreases cmp@.len() - i,
        {
            let b = self.read_u8().unwrap();
            if b != *vstd::slice::slice_index_get(cmp, i) {
                m = false;
            }
            proof {
                assert(b == orig[i as int]);
                assert(orig.skip(i as int).skip(1) =~= orig.skip(i as int + 1));
            }
            i = i + 1;
        }
        proof {
            if forall|j: int| 0 <= j < cmp@.len() ==> orig[j] == cmp@[j] {
                assert(orig.take(cmp@.len() as int) =~= cmp@);
            } else {
                let j = choose|j: int| 0 <= j < cmp@.len() && orig[j] != cmp@[j];
                assert(orig.take(cmp@.len() as int)[j] == orig[j]);
            }
        }
        Ok(m)
    }
}

impl PacketWriter {
    /// The bytes written so far.
    pub closed spec fn written(&self) -> Seq<u8> {
        self.data@
    }

    /// Start an empty packet.
    pub fn new() -> (r: PacketWriter)
        ensures
            r.written() == Seq::<u8>::empty(),
    {
        let r = PacketWriter { data: Vec::new() };
        proof {
            assert(r.written() =~= Seq::<u8>::empty());
        }
        r
    }

    /// Append one byte.
    pub fn write_u8(&mut self, b: u8)
        ensures
            final(self).written() == old(self).written().push(b),
    {
        self.data.push(b);
    }

    /// Hand the finished packet over.
    pub fn into_vec(self) -> (r: Vec<u8>)
        ensures
            r@ == self.written(),
    {
        self.data
    }
}

impl WritePacketExt for PacketWriter {
    open spec fn sink_written(&self) -> Seq<u8> {
        self.written()
    }

    fn write_cstring(&mut self, src: &[u8]) {
        let mut i: usize = 0;
        proof {
            assert(old(self).written() + src@.take(0) =~= old(self).written());
        }
        while i < src.len()
            invariant
                i <= src@.len(),
                self.written() == old(self).written() + src@.take(i as int),
            decreases src@.len() - i,
        {
            let b = *vstd::slice::slice_index_get(src, i);
            self.write_u8(b);
            proof {
                assert((old(self).written() + src@.take(i as int)).push(src@[i as int])
                    =~= old(self).written() + src@.take(i as int + 1));
            }
            i = i + 1;
        }
        self.write_u8(0);
        proof {
            assert(src@.take(src@.len() as int) =~= src@);
            assert((old(self).written() + src@).push(0u8)
                =~= old(self).written() + cstring_encoding(src@));
        }
    }
}

/// Decoding the bytes produced by encoding gives the text back exactly,
/// for any text without an embedded zero byte.
pub proof fn lemma_cstring_round_trip(s: Seq<u8>)
    requires
        forall|i: int| 0 <= i < s.len() ==> s[i] != 0,
    ensures
        cstring_decoding(cstring_encoding(s)) == Some(s),
    decreases s.len(),
{
    let e = cstring_encoding(s);
    if s.len() == 0 {
        assert(e =~= seq![0u8]);
        assert(s =~= Seq::<u8>::empty());
    } else {
        assert(e[0] == s[0]);
        assert(e.skip(1) =~= cstring_encoding(s.skip(1)));
        lemma_cstring_round_trip(s.skip(1));
        assert(seq![s[0]] + s.skip(1) =~= s);
    }
}

} // verus!
