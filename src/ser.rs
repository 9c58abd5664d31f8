//! The incremental decoder (`Reader`) and encoder (`Writer`).

use crate::buffer::{
    buf_advance, buf_bytes, buf_extend, buf_len, buf_new, buf_take_front, bytes_of,
};
use crate::frame::{
    announced_len, concat, frame, frame_header, header_len, lemma_concat_front,
    lemma_concat_nonempty, lemma_parse_frame, parse, Parsed,
};
use crate::header::{
    be_bytes, be_decode, be_encode, lemma_be_bytes_len, lemma_be_bytes_of_value,
    lemma_be_u64_round_trip, marker, DecodeHeaderError, Header, HEADER_SIZE, LENGTH_FIELD_LEN,
    MARKER_LEN,
};
use bytes::BytesMut;
use std::collections::VecDeque;
use vstd::prelude::*;

verus! {

/// Why the decoder cannot go on: the stream can no longer be trusted.
#[derive(Clone, Copy, Debug, PartialEq, Eq)]
pub enum DecodeError {
    /// A header at the front of the stream is not valid.
    DeserializeHeader(DecodeHeaderError),
}

/// The bodies held in a queue of byte vectors.
pub open spec fn bodies_of(q: Seq<Vec<u8>>) -> Seq<Seq<u8>> {
    q.map_values(|v: Vec<u8>| v@)
}

/// Decodes frames out of the bytes fed to it and queues their bodies.
/// `MARKED` says whether each header opens with the validation marker.
#[derive(Debug)]
pub struct Reader<const MARKED: bool> {
    buf: BytesMut,
    next_msg_len: Option<u64>,
    received: VecDeque<Vec<u8>>,
}

impl Reader<false> {
    /// A decoder of frames whose header is the bare body length.
    pub fn new() -> (r: Reader<false>)
        ensures
            r.queued() == Seq::<Seq<u8>>::empty(),
            r.pending() == Seq::<u8>::empty(),
            r.awaiting() == None::<u64>,
            r.unconsumed() == Seq::<u8>::empty(),
    {
        Reader::empty()
    }
}

impl<const MARKED: bool> Reader<MARKED> {
    /// Bytes received and not yet taken into a header or a body.
    pub closed spec fn pending(&self) -> Seq<u8> {
        bytes_of(self.buf)
    }

    /// The body length of the header being waited on, if one was decoded.
    pub closed spec fn awaiting(&self) -> Option<u64> {
        self.next_msg_len
    }

    /// Decoded bodies not yet taken out, oldest first.
    pub closed spec fn queued(&self) -> Seq<Seq<u8>> {
        bodies_of(self.received@)
    }

    /// The part of the stream not decoded yet, a decoded header included.
    pub open spec fn unconsumed(&self) -> Seq<u8> {
        match self.awaiting() {
            None => self.pending(),
            Some(n) => frame_header(MARKED, n as nat) + self.pending(),
        }
    }

    /// Whether a part of a frame has been received: a zero-length read now
    /// means the peer went away in the middle of a frame.
    pub open spec fn mid_frame(&self) -> bool {
        self.unconsumed().len() > 0
    }

    /// A decoder with nothing received.
    pub fn empty() -> (r: Reader<MARKED>)
        ensures
            r.queued() == Seq::<Seq<u8>>::empty(),
            r.pending() == Seq::<u8>::empty(),
            r.awaiting() == None::<u64>,
            r.unconsumed() == Seq::<u8>::empty(),
    {
        let r = Reader::<MARKED> { buf: buf_new(), next_msg_len: None, received: VecDeque::new() };
        assert(r.queued() =~= Seq::<Seq<u8>>::empty());
        r
    }

    /// Appends received bytes; decodes nothing.
    pub fn feed(&mut self, data: &[u8])
        requires
            old(self).pending().len() + data@.len() <= isize::MAX,
        ensures
            final(self).pending() == old(self).pending() + data@,
            final(self).unconsumed() == old(self).unconsumed() + data@,
            final(self).awaiting() == old(self).awaiting(),
            final(self).queued() == old(self).queued(),
    {
        buf_extend(&mut self.buf, data);
        proof {
            if let Some(n) = self.next_msg_len {
                assert(self.unconsumed() =~= old(self).unconsumed() + data@);
            }
        }
    }

    /// Number of received bytes waiting in the buffer.
    pub fn buf_len(&self) -> (r: usize)
        ensures
            r == self.pending().len(),
    {
        buf_len(&self.buf)
    }

    /// Number of decoded bodies waiting to be taken out.
    pub fn ready_len(&self) -> (r: usize)
        ensures
            r == self.queued().len(),
    {
        self.received.len()
    }

    /// Whether a header has been decoded and its body is awaited.
    pub fn awaiting_body(&self) -> (r: bool)
        ensures
            r == self.awaiting() is Some,
    {
        self.next_msg_len.is_some()
    }

    /// Whether part of a frame has been received (see `mid_frame`).
    pub fn is_mid_frame(&self) -> (r: bool)
        ensures
            r == self.mid_frame(),
    {
        if self.next_msg_len.is_some() {
            proof {
                let n = self.awaiting().unwrap();
                lemma_be_u64_round_trip(n);
            }
            true
        } else {
            buf_len(&self.buf) > 0
        }
    }

    fn decode(&mut self) -> (r: bool)
        requires
            old(self).awaiting() is Some,
        ensures
            ({
                let n = old(self).awaiting().unwrap() as int;
                let p = old(self).pending();
                if p.len() >= n {
                    &&& r
                    &&& final(self).queued() == old(self).queued().push(p.take(n))
                    &&& final(self).pending() == p.skip(n)
                    &&& final(self).awaiting() == None::<u64>
                } else {
                    &&& !r
                    &&& *final(self) == *old(self)
                }
            }),
    {
        let msg_len = self.next_msg_len.unwrap();
        let have = buf_len(&self.buf);
        if have as u64 >= msg_len {
            let data = buf_take_front(&mut self.buf, msg_len as usize);
            self.received.push_back(data);
            self.next_msg_len = None;
            assert(self.queued() =~= old(self).queued().push(old(self).pending().take(
                msg_len as int,
            )));
            true
        } else {
            false
        }
    }

    /// What the decoder holds once everything buffered is decoded: every
    /// body queued, the bytes left over, and whether they are corrupt.
    pub open spec fn settled(self) -> Parsed {
        let p = parse(MARKED, self.unconsumed());
        Parsed { msgs: self.queued() + p.msgs, rest: p.rest, corrupt: p.corrupt }
    }

    /// One step of decoding from `self` gives `next` and the result `r`.
    /// Waiting for a header with a full header buffered, the header is taken
    /// in and its length awaited, with `Ok(false)`; waiting for `n` body
    /// bytes with all of them buffered, the body is queued and a header is
    /// awaited again, with `Ok(true)`; with too few bytes nothing changes and
    /// the result is `Ok(false)`. A full header with a wrong marker gives
    /// `InvalidMarker`, and nothing changes.
    pub open spec fn steps_to(self, next: Reader<MARKED>, r: Result<bool, DecodeError>) -> bool {
        let p = self.pending();
        let h = header_len(MARKED);
        match self.awaiting() {
            None => if p.len() < h {
                &&& r == Ok::<bool, DecodeError>(false)
                &&& next == self
            } else if MARKED && p.take(MARKER_LEN as int) != marker() {
                &&& r == Err::<bool, DecodeError>(
                    DecodeError::DeserializeHeader(DecodeHeaderError::InvalidMarker),
                )
                &&& next == self
            } else {
                &&& r == Ok::<bool, DecodeError>(false)
                &&& next.awaiting() == Some(announced_len(MARKED, p) as u64)
                &&& next.pending() == p.skip(h)
                &&& next.queued() == self.queued()
            },
            Some(n) => if p.len() >= n {
                &&& r == Ok::<bool, DecodeError>(true)
                &&& next.queued() == self.queued().push(p.take(n as int))
                &&& next.pending() == p.skip(n as int)
                &&& next.awaiting() == None::<u64>
            } else {
                &&& r == Ok::<bool, DecodeError>(false)
                &&& next == self
            },
        }
    }

    /// Makes at most one step of decoding (see `steps_to`).
    pub fn update(&mut self) -> (r: Result<bool, DecodeError>)
        ensures
            old(self).steps_to(*final(self), r),
            // Stepping never changes what the stream decodes to.
            r is Ok ==> final(self).settled() == old(self).settled(),
    {
        if self.next_msg_len.is_some() {
            let r = self.decode();
            proof {
                let n = old(self).awaiting().unwrap();
                let p = old(self).pending();
                if r {
                    let body = p.take(n as int);
                    let t = p.skip(n as int);
                    assert(old(self).unconsumed() =~= frame(MARKED, body) + t);
                    lemma_parse_frame(MARKED, body, t);
                    assert(old(self).queued().push(body) + parse(MARKED, t).msgs =~= old(
                        self,
                    ).queued() + (seq![body] + parse(MARKED, t).msgs));
                }
            }
            Ok(r)
        } else {
            let hl: usize = if MARKED {
                HEADER_SIZE
            } else {
                LENGTH_FIELD_LEN
            };
            let have = buf_len(&self.buf);
            if have < hl {
                return Ok(false);
            }
            let all = buf_bytes(&self.buf);
            let head_bytes = &all[0..hl];
            let ghost p = old(self).pending();
            proof {
                assert(head_bytes@ =~= p.take(hl as int));
            }
            let size: u64;
            if MARKED {
                match Header::decode_from_bytes(head_bytes) {
                    Ok(h) => {
                        size = h.size();
                        proof {
                            assert(head_bytes@.skip(MARKER_LEN as int) =~= p.subrange(
                                MARKER_LEN as int,
                                HEADER_SIZE as int,
                            ));
                        }
                    },
                    Err(e) => {
                        proof {
                            assert(head_bytes@.take(MARKER_LEN as int) =~= p.take(
                                MARKER_LEN as int,
                            ));
                        }
                        return Err(DecodeError::DeserializeHeader(e));
                    },
                }
            } else {
                size = be_decode(head_bytes);
                proof {
                    assert(head_bytes@ =~= p.subrange(0, LENGTH_FIELD_LEN as int));
                }
            }
            buf_advance(&mut self.buf, hl);
            self.next_msg_len = Some(size);
            proof {
                let field = p.subrange(hl - LENGTH_FIELD_LEN, hl as int);
                lemma_be_bytes_of_value(field);
                if MARKED {
                    assert(p.take(MARKER_LEN as int) =~= head_bytes@.take(MARKER_LEN as int));
                    assert(p.take(HEADER_SIZE as int) =~= marker() + field);
                }
                assert(p.take(hl as int) =~= frame_header(MARKED, size as nat));
                assert(p =~= p.take(hl as int) + p.skip(hl as int));
                assert(self.unconsumed() =~= old(self).unconsumed());
            }
            Ok(false)
        }
    }

    /// Decodes everything that the buffered bytes hold: the bodies of all
    /// complete frames are queued, in order, and what is left is the start
    /// of the next frame. Returns whether a body was queued; a header with
    /// a wrong marker is an error, with the bodies before it still queued.
    pub fn full_update(&mut self) -> (r: Result<bool, DecodeError>)
        ensures
            final(self).queued() == old(self).queued() + parse(MARKED, old(self).unconsumed()).msgs,
            final(self).unconsumed() == parse(MARKED, old(self).unconsumed()).rest,
            r is Err <==> parse(MARKED, old(self).unconsumed()).corrupt,
            r is Err ==> r == Err::<bool, DecodeError>(
                DecodeError::DeserializeHeader(DecodeHeaderError::InvalidMarker),
            ),
            r is Ok ==> r == Ok::<bool, DecodeError>(
                parse(MARKED, old(self).unconsumed()).msgs.len() > 0,
            ),
    {
        let ghost start_queue = old(self).queued();
        let ghost start_parse = parse(MARKED, old(self).unconsumed());
        let mut found = false;
        assert(start_queue + start_parse.msgs =~= self.queued() + parse(
            MARKED,
            self.unconsumed(),
        ).msgs);
        loop
            invariant
                start_queue == old(self).queued(),
                start_parse == parse(MARKED, old(self).unconsumed()),
                self.queued() + parse(MARKED, self.unconsumed()).msgs == start_queue
                    + start_parse.msgs,
                parse(MARKED, self.unconsumed()).rest == start_parse.rest,
                parse(MARKED, self.unconsumed()).corrupt == start_parse.corrupt,
                self.queued().len() >= start_queue.len(),
                found == (self.queued().len() > start_queue.len()),
            decreases 2 * self.pending().len() + if self.awaiting() is Some {
                1int
            } else {
                0int
            },
        {
            let was_awaiting = self.next_msg_len.is_some();
            match self.update() {
                Err(e) => {
                    proof {
                        let s = self.unconsumed();
                        assert(parse(MARKED, s).msgs =~= Seq::<Seq<u8>>::empty());
                        assert(self.queued() =~= start_queue + start_parse.msgs);
                    }
                    return Err(e);
                },
                Ok(true) => {
                    found = true;
                },
                Ok(false) => {
                    if was_awaiting || self.next_msg_len.is_none() {
                        proof {
                            let s = self.unconsumed();
                            if let Some(n) = self.awaiting() {
                                lemma_be_u64_round_trip(n);
                                let h = header_len(MARKED);
                                let lenf = s.subrange(h - LENGTH_FIELD_LEN, h);
                                if MARKED {
                                    assert(s.take(MARKER_LEN as int) =~= marker());
                                }
                                assert(lenf =~= be_bytes(n as nat, 8));
                            }
                            assert(parse(MARKED, s).msgs =~= Seq::<Seq<u8>>::empty());
                            assert(self.queued() =~= start_queue + start_parse.msgs);
                            assert((start_queue + start_parse.msgs).len() == start_queue.len()
                                + start_parse.msgs.len());
                        }
                        return Ok(found);
                    }
                },
            }
        }
    }

    /// Takes out the oldest decoded body, if there is one.
    pub fn get_next(&mut self) -> (r: Option<Vec<u8>>)
        ensures
            old(self).queued().len() == 0 ==> r is None && final(self).queued() == old(
                self,
            ).queued(),
            old(self).queued().len() > 0 ==> r is Some && r->Some_0@ == old(self).queued()[0]
                && final(self).queued() == old(self).queued().drop_first(),
            final(self).pending() == old(self).pending(),
            final(self).awaiting() == old(self).awaiting(),
    {
        let r = self.received.pop_front();
        proof {
            if old(self).queued().len() > 0 {
                assert(self.queued() =~= old(self).queued().drop_first());
            }
        }
        r
    }
}

/// Frames message bodies and holds the framed bytes until they are written
/// out, oldest first. `MARKED` says whether each header opens with the
/// validation marker.
#[derive(Debug)]
pub struct Writer<const MARKED: bool> {
    frames: VecDeque<BytesMut>,
    len: usize,
}

impl Writer<false> {
    /// An encoder of frames whose header is the bare body length.
    pub fn new() -> (r: Writer<false>)
        ensures
            r.wf(),
            r.entries() == Seq::<Seq<u8>>::empty(),
            r.outbound() == Seq::<u8>::empty(),
    {
        Writer::empty()
    }
}

impl<const MARKED: bool> Writer<MARKED> {
    /// The framed messages not fully written yet, oldest first; the oldest
    /// may have lost the bytes already written.
    pub closed spec fn entries(&self) -> Seq<Seq<u8>> {
        self.frames@.map_values(|b: BytesMut| bytes_of(b))
    }

    /// Every byte still to be written, in the order it goes out.
    pub open spec fn outbound(&self) -> Seq<u8> {
        concat(self.entries())
    }

    pub closed spec fn wf(&self) -> bool {
        &&& self.len == self.outbound().len()
        &&& forall|i: int| 0 <= i < self.entries().len() ==> #[trigger] self.entries()[i].len() > 0
    }

    /// The bytes that the next write should take: what is left of the
    /// oldest frame.
    pub open spec fn next_chunk(&self) -> Seq<u8> {
        if self.entries().len() == 0 {
            Seq::empty()
        } else {
            self.entries()[0]
        }
    }

    /// An encoder with nothing queued.
    pub fn empty() -> (r: Writer<MARKED>)
        ensures
            r.wf(),
            r.entries() == Seq::<Seq<u8>>::empty(),
            r.outbound() == Seq::<u8>::empty(),
    {
        let r = Writer::<MARKED> { frames: VecDeque::new(), len: 0 };
        assert(r.entries() =~= Seq::<Seq<u8>>::empty());
        r
    }

    /// Frames `body` and queues the frame behind those already queued.
    pub fn sink(&mut self, body: &[u8])
        requires
            old(self).wf(),
            old(self).outbound().len() + HEADER_SIZE + body@.len() <= isize::MAX,
        ensures
            final(self).wf(),
            final(self).entries() == old(self).entries().push(frame(MARKED, body@)),
            final(self).outbound() == old(self).outbound() + frame(MARKED, body@),
    {
        let head_bytes = if MARKED {
            Header::header_for(body).serialize_header()
        } else {
            be_encode(body.len() as u64, LENGTH_FIELD_LEN)
        };
        proof {
            lemma_be_bytes_len(body@.len(), 8);
        }
        let mut buf = buf_new();
        buf_extend(&mut buf, head_bytes.as_slice());
        buf_extend(&mut buf, body);
        self.frames.push_back(buf);
        self.len = self.len + head_bytes.len() + body.len();
        proof {
            let fb = frame(MARKED, body@);
            assert(bytes_of(buf) =~= fb);
            assert(self.entries() =~= old(self).entries().push(fb));
            assert(self.entries().drop_last() =~= old(self).entries());
            assert forall|i: int| 0 <= i < self.entries().len() implies #[trigger] self.entries()[
                i
            ].len() > 0 by {
                if i < old(self).entries().len() {
                    assert(self.entries()[i] == old(self).entries()[i]);
                }
            }
        }
    }

    /// Number of bytes still to be written.
    pub fn buf_len(&self) -> (r: usize)
        requires
            self.wf(),
        ensures
            r == self.outbound().len(),
    {
        self.len
    }

    /// Whether every queued byte has been written.
    pub fn is_empty(&self) -> (r: bool)
        requires
            self.wf(),
        ensures
            r == (self.outbound().len() == 0),
            r == (self.entries().len() == 0),
    {
        proof {
            if self.entries().len() > 0 {
                lemma_concat_nonempty(self.entries());
            }
        }
        self.frames.len() == 0
    }

    /// The bytes that the next write should take (empty when all is written).
    pub fn as_byte_source(&self) -> (r: &[u8])
        requires
            self.wf(),
        ensures
            r@ == self.next_chunk(),
            r@ == self.outbound().take(r@.len() as int),
            self.outbound().len() > 0 ==> r@.len() > 0,
    {
        proof {
            if self.entries().len() > 0 {
                lemma_concat_front(self.entries());
                assert(self.entries()[0] =~= self.outbound().take(self.entries()[0].len() as int));
            }
        }
        if self.frames.len() == 0 {
            &[]
        } else {
            buf_bytes(&self.frames[0])
        }
    }

    /// Records that the first `n` bytes of `as_byte_source` were written: they
    /// leave the queue, and a frame leaves once all of it is written.
    pub fn advance(&mut self, n: usize)
        requires
            old(self).wf(),
            n <= old(self).next_chunk().len(),
        ensures
            final(self).wf(),
            final(self).outbound() == old(self).outbound().skip(n as int),
            n < old(self).next_chunk().len() ==> final(self).entries().len() == old(
                self,
            ).entries().len(),
            n > 0 && n == old(self).next_chunk().len() ==> final(self).entries() == old(
                self,
            ).entries().drop_first(),
    {
        if n == 0 {
            assert(old(self).outbound().skip(0) =~= old(self).outbound());
            return ;
        }
        let ghost e = old(self).entries();
        proof {
            lemma_concat_front(e);
        }
        let mut front = self.frames.pop_front().unwrap();
        buf_advance(&mut front, n);
        if buf_len(&front) > 0 {
            self.frames.push_front(front);
            proof {
                let e2 = self.entries();
                assert(e2 =~= seq![e[0].skip(n as int)] + e.drop_first());
                lemma_concat_front(e2);
                assert(e2.drop_first() =~= e.drop_first());
                assert(self.outbound() =~= old(self).outbound().skip(n as int));
                assert forall|i: int| 0 <= i < e2.len() implies #[trigger] e2[i].len() > 0 by {
                    if i > 0 {
                        assert(e2[i] == e[i]);
                    }
                }
            }
        } else {
            proof {
                assert(self.entries() =~= e.drop_first());
                assert(self.outbound() =~= old(self).outbound().skip(n as int));
                let e2 = self.entries();
                assert forall|i: int| 0 <= i < e2.len() implies #[trigger] e2[i].len() > 0 by {
                    assert(self.entries()[i] == e[i + 1]);
                }
            }
        }
        self.len = self.len - n;
    }
}

} // verus!
