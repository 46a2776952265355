//! The stream framer: a growable buffer fed by a socket, from which whole
//! RESP values are taken together with the exact bytes that carried them.
use vstd::prelude::*;
use crate::decimal::{parse_u64_range, parse_u64_spec};
use crate::parse::{deserialize, find_crlf, find_crlf_from, lemma_find_crlf_bounds, parse_value, Frame, Parsed};
use crate::resp::{RespDatatype, RespValue};

verus! {

/// Why a connection's byte stream cannot be framed.
#[derive(Debug, PartialEq, Eq, Structural)]
pub enum FrameError {
    /// The bytes cannot start a value.
    MalformedFrame,
    /// The stream ended inside a value.
    UnexpectedEof,
}

/// What a snapshot transfer `$<len>\r\n<len bytes>` at the front of `s` holds.
pub open spec fn parse_rdb(s: Seq<u8>) -> Parsed {
    match find_crlf(s, 0) {
        None => Parsed::Partial,
        Some(e) => {
            if e == 0 || s[0] != 36u8 {
                Parsed::Malformed
            } else {
                match parse_u64_spec(s.subrange(1, e)) {
                    None => Parsed::Malformed,
                    Some(n) => {
                        if s.len() < e + 2 + n {
                            Parsed::Partial
                        } else {
                            Parsed::Done(
                                RespValue::RdbFile(s.subrange(e + 2, e + 2 + n)),
                                e + 2 + n,
                            )
                        }
                    },
                }
            }
        },
    }
}

/// A buffer of received bytes not yet framed.
pub struct RespFramer {
    buf: Vec<u8>,
    received: Ghost<Seq<u8>>,
    delivered: Ghost<Seq<u8>>,
}

impl RespFramer {
    /// Every byte received so far, in order.
    pub closed spec fn received(&self) -> Seq<u8> {
        self.received@
    }

    /// The bytes handed out with framed values, in order.
    pub closed spec fn delivered(&self) -> Seq<u8> {
        self.delivered@
    }

    /// The bytes received and not yet framed.
    pub closed spec fn pending(&self) -> Seq<u8> {
        self.buf@
    }

    pub closed spec fn wf(&self) -> bool {
        self.received@ == self.delivered@ + self.buf@
    }

    pub fn new() -> (r: Self)
        ensures
            r.wf(),
            r.received() == Seq::<u8>::empty(),
            r.delivered() == Seq::<u8>::empty(),
            r.pending() == Seq::<u8>::empty(),
    {
        let r = RespFramer { buf: Vec::new(), received: Ghost(Seq::empty()), delivered: Ghost(Seq::empty()) };
        assert(r.received@ =~= r.delivered@ + r.buf@);
        r
    }

    /// Adds bytes read from the socket.
    pub fn feed(&mut self, bytes: &[u8])
        requires
            old(self).wf(),
        ensures
            final(self).wf(),
            final(self).received() == old(self).received() + bytes@,
            final(self).delivered() == old(self).delivered(),
            final(self).pending() == old(self).pending() + bytes@,
    {
        crate::resp::append_bytes(&mut self.buf, bytes);
        self.received = Ghost(self.received@ + bytes@);
        assert(self.received@ =~= self.delivered@ + self.buf@);
    }

    /// True when no byte waits to be framed.
    pub fn is_empty(&self) -> (r: bool)
        ensures
            r == (self.pending().len() == 0),
    {
        self.buf.len() == 0
    }

    /// Fails with `UnexpectedEof` when the stream ends inside a value.
    pub fn finish(&self) -> (r: Result<(), FrameError>)
        ensures
            r is Ok <==> self.pending().len() == 0,
            r is Err ==> r == Err::<(), FrameError>(FrameError::UnexpectedEof),
    {
        if self.buf.len() == 0 {
            Ok(())
        } else {
            Err(FrameError::UnexpectedEof)
        }
    }

    /// Takes the first `n` pending bytes.
    fn take_front(&mut self, n: usize) -> (raw: Vec<u8>)
        requires
            old(self).wf(),
            n <= old(self).pending().len(),
        ensures
            final(self).wf(),
            raw@ == old(self).pending().subrange(0, n as int),
            final(self).pending() == old(self).pending().subrange(n as int, old(self).pending().len() as int),
            final(self).delivered() == old(self).delivered() + raw@,
            final(self).received() == old(self).received(),
    {
        let mut rest = self.buf.split_off(n);
        std::mem::swap(&mut self.buf, &mut rest);
        self.delivered = Ghost(self.delivered@ + rest@);
        assert(self.received@ =~= self.delivered@ + self.buf@);
        rest
    }

    /// Takes one whole value from the front of the buffer, with the bytes that
    /// carried it. `Ok(None)` asks for more bytes; the buffer is then unchanged.
    pub fn deserialize_stream(&mut self) -> (r: Result<Option<(RespDatatype, Vec<u8>)>, FrameError>)
        requires
            old(self).wf(),
        ensures
            final(self).wf(),
            final(self).received() == old(self).received(),
            match parse_value(old(self).pending(), 0) {
                Parsed::Done(v, n) => r matches Ok(Some((value, raw))) && value@ == v && raw@
                    == old(self).pending().subrange(0, n) && 0 < n <= old(self).pending().len()
                    && final(self).pending() == old(self).pending().subrange(
                    n,
                    old(self).pending().len() as int,
                ) && final(self).delivered() == old(self).delivered() + raw@,
                Parsed::Partial => r == Ok::<Option<(RespDatatype, Vec<u8>)>, FrameError>(None)
                    && final(self).pending() == old(self).pending() && final(self).delivered() == old(
                    self,
                ).delivered(),
                Parsed::Malformed => r matches Err(FrameError::MalformedFrame) && final(self).pending()
                    == old(self).pending() && final(self).delivered() == old(self).delivered(),
            },
    {
        match deserialize(self.buf.as_slice()) {
            Frame::Complete(value, n) => {
                let raw = self.take_front(n);
                Ok(Some((value, raw)))
            },
            Frame::Incomplete => Ok(None),
            Frame::Malformed => Err(FrameError::MalformedFrame),
        }
    }

    /// Takes a snapshot `$<len>\r\n<len bytes>` (no trailing CRLF) from the
    /// front of the buffer. `Ok(None)` asks for more bytes.
    pub fn get_rdb(&mut self) -> (r: Result<Option<Vec<u8>>, FrameError>)
        requires
            old(self).wf(),
        ensures
            final(self).wf(),
            final(self).received() == old(self).received(),
            match parse_rdb(old(self).pending()) {
                Parsed::Done(v, n) => r matches Ok(Some(rdb)) && v == RespValue::RdbFile(rdb@)
                    && final(self).pending() == old(self).pending().subrange(
                    n,
                    old(self).pending().len() as int,
                ) && final(self).delivered() == old(self).delivered() + old(self).pending().subrange(
                    0,
                    n,
                ),
                Parsed::Partial => r == Ok::<Option<Vec<u8>>, FrameError>(None) && final(self).pending()
                    == old(self).pending() && final(self).delivered() == old(self).delivered(),
                Parsed::Malformed => r matches Err(FrameError::MalformedFrame) && final(self).pending()
                    == old(self).pending() && final(self).delivered() == old(self).delivered(),
            },
    {
        let bytes = self.buf.as_slice();
        let total: usize = bytes.len();
        let e = match find_crlf_from(bytes, 0) {
            None => return Ok(None),
            Some(e) => e,
        };
        proof {
            lemma_find_crlf_bounds(self.buf@, 0);
            assert(bytes@ == self.buf@);
            assert(find_crlf(bytes@, 0) == Some(e as int));
            assert(e + 1 < bytes@.len());
        }
        if e == 0 || self.buf[0] != 36u8 {
            return Err(FrameError::MalformedFrame);
        }
        let n = match parse_u64_range(bytes, 1, e) {
            None => return Err(FrameError::MalformedFrame),
            Some(n) => n,
        };
        let start = e + 2;
        if ((self.buf.len() - start) as u64) < n {
            return Ok(None);
        }
        let end = start + n as usize;
        let ghost old_pending = self.buf@;
        let head = self.take_front(end);
        let rdb = crate::parse::copy_range(head.as_slice(), start, end);
        assert(rdb@ =~= old_pending.subrange(start as int, end as int));
        Ok(Some(rdb))
    }
}

/// Across a session, the bytes handed out with framed values followed by the
/// bytes still buffered are exactly the bytes received: none lost, none
/// repeated.
pub proof fn lemma_framed_bytes_account(f: &RespFramer)
    requires
        f.wf(),
    ensures
        f.delivered() + f.pending() == f.received(),
{
}

} // verus!
