//! What a byte stream of frames means: the messages it carries, and the
//! bytes that are left over once every complete frame has been taken out.
//!
//! A frame is a header, then the body. The header is the body length as
//! eight big-endian bytes, preceded by the validation marker when `marked`.

use crate::header::{
    be_bytes, be_value, header_bytes, lemma_be_u64_round_trip, marker, HEADER_SIZE,
    LENGTH_FIELD_LEN, MARKER_LEN,
};
use vstd::prelude::*;

verus! {

/// Size in bytes of a frame header.
pub open spec fn header_len(marked: bool) -> int {
    if marked {
        HEADER_SIZE as int
    } else {
        LENGTH_FIELD_LEN as int
    }
}

/// The header of a body of `size` bytes.
pub open spec fn frame_header(marked: bool, size: nat) -> Seq<u8> {
    if marked {
        header_bytes(size)
    } else {
        be_bytes(size, LENGTH_FIELD_LEN as nat)
    }
}

/// One frame on the wire: the header of `body`, then `body`.
pub open spec fn frame(marked: bool, body: Seq<u8>) -> Seq<u8> {
    frame_header(marked, body.len()) + body
}

/// The frames of `bodies`, in order.
pub open spec fn frames(marked: bool, bodies: Seq<Seq<u8>>) -> Seq<u8>
    decreases bodies.len(),
{
    if bodies.len() == 0 {
        Seq::empty()
    } else {
        frames(marked, bodies.drop_last()) + frame(marked, bodies.last())
    }
}

/// The chunks joined in order.
pub open spec fn concat(chunks: Seq<Seq<u8>>) -> Seq<u8>
    decreases chunks.len(),
{
    if chunks.len() == 0 {
        Seq::empty()
    } else {
        concat(chunks.drop_last()) + chunks.last()
    }
}

/// Every body is short enough for its length to fit the header.
pub open spec fn bodies_fit(bodies: Seq<Seq<u8>>) -> bool {
    forall|i: int| 0 <= i < bodies.len() ==> #[trigger] bodies[i].len() <= u64::MAX
}

/// The outcome of decoding a byte stream.
pub struct Parsed {
    /// The bodies of the complete frames, in stream order.
    pub msgs: Seq<Seq<u8>>,
    /// The bytes after the last complete frame.
    pub rest: Seq<u8>,
    /// Whether `rest` opens with a full header whose marker is wrong.
    pub corrupt: bool,
}

/// Body length announced by a stream that opens with a full header.
pub open spec fn announced_len(marked: bool, s: Seq<u8>) -> nat {
    be_value(s.subrange(header_len(marked) - LENGTH_FIELD_LEN, header_len(marked)))
}

/// Decodes the complete frames at the front of `s`.
pub open spec fn parse(marked: bool, s: Seq<u8>) -> Parsed
    decreases s.len(),
{
    let h = header_len(marked);
    if s.len() < h {
        Parsed { msgs: Seq::empty(), rest: s, corrupt: false }
    } else if marked && s.take(MARKER_LEN as int) != marker() {
        Parsed { msgs: Seq::empty(), rest: s, corrupt: true }
    } else if s.len() < h + announced_len(marked, s) {
        Parsed { msgs: Seq::empty(), rest: s, corrupt: false }
    } else {
        let end = h + announced_len(marked, s);
        let p = parse(marked, s.skip(end));
        Parsed {
            msgs: seq![s.subrange(h, end)] + p.msgs,
            rest: p.rest,
            corrupt: p.corrupt,
        }
    }
}

/// Feeds `chunks` to a fresh decoder one at a time, decoding all it can
/// after each.
pub open spec fn feed_chunks(marked: bool, chunks: Seq<Seq<u8>>) -> Parsed
    decreases chunks.len(),
{
    if chunks.len() == 0 {
        Parsed { msgs: Seq::empty(), rest: Seq::empty(), corrupt: false }
    } else {
        let p = feed_chunks(marked, chunks.drop_last());
        let q = parse(marked, p.rest + chunks.last());
        Parsed { msgs: p.msgs + q.msgs, rest: q.rest, corrupt: q.corrupt }
    }
}

/// Decoding `a + b` is decoding `a`, then decoding what `a` left over
/// followed by `b`.
pub proof fn lemma_parse_append(marked: bool, a: Seq<u8>, b: Seq<u8>)
    ensures
        parse(marked, a + b).msgs == parse(marked, a).msgs + parse(
            marked,
            parse(marked, a).rest + b,
        ).msgs,
        parse(marked, a + b).rest == parse(marked, parse(marked, a).rest + b).rest,
        parse(marked, a + b).corrupt == parse(marked, parse(marked, a).rest + b).corrupt,
    decreases a.len(),
{
    let ab = a + b;
    let h = header_len(marked);
    if a.len() < h {
        assert(parse(marked, a).msgs + parse(marked, ab).msgs =~= parse(marked, ab).msgs);
    } else {
        if marked {
            assert(ab.take(MARKER_LEN as int) =~= a.take(MARKER_LEN as int));
        }
        if marked && a.take(MARKER_LEN as int) != marker() {
            assert(parse(marked, a).msgs + parse(marked, ab).msgs =~= parse(marked, ab).msgs);
        } else {
            assert(ab.subrange(h - LENGTH_FIELD_LEN, h) =~= a.subrange(h - LENGTH_FIELD_LEN, h));
            let end = h + announced_len(marked, a);
            if a.len() < end {
                assert(parse(marked, a).msgs + parse(marked, ab).msgs =~= parse(marked, ab).msgs);
            } else {
                let a2 = a.skip(end);
                assert(ab.skip(end) =~= a2 + b);
                assert(ab.subrange(h, end) =~= a.subrange(h, end));
                lemma_parse_append(marked, a2, b);
                let m = seq![a.subrange(h, end)];
                assert(m + parse(marked, a2).msgs + parse(marked, parse(marked, a2).rest + b).msgs
                    =~= m + (parse(marked, a2).msgs + parse(
                    marked,
                    parse(marked, a2).rest + b,
                ).msgs));
            }
        }
    }
}

/// A frame decodes to its body, whatever follows it.
pub proof fn lemma_parse_frame(marked: bool, body: Seq<u8>, t: Seq<u8>)
    requires
        body.len() <= u64::MAX,
    ensures
        parse(marked, frame(marked, body) + t).msgs == seq![body] + parse(marked, t).msgs,
        parse(marked, frame(marked, body) + t).rest == parse(marked, t).rest,
        parse(marked, frame(marked, body) + t).corrupt == parse(marked, t).corrupt,
{
    let s = frame(marked, body) + t;
    let n = body.len();
    let h = header_len(marked);
    lemma_be_u64_round_trip(n as u64);
    let lenf = be_bytes(n, LENGTH_FIELD_LEN as nat);
    if marked {
        assert(s.take(MARKER_LEN as int) =~= marker());
    }
    assert(s.subrange(h - LENGTH_FIELD_LEN, h) =~= lenf);
    assert(announced_len(marked, s) == n);
    assert(s.subrange(h, h + n) =~= body);
    assert(s.skip(h + n) =~= t);
}

/// Decoding the frames of `bodies` followed by `t` yields `bodies` first.
pub proof fn lemma_parse_frames(marked: bool, bodies: Seq<Seq<u8>>, t: Seq<u8>)
    requires
        bodies_fit(bodies),
    ensures
        parse(marked, frames(marked, bodies) + t).msgs == bodies + parse(marked, t).msgs,
        parse(marked, frames(marked, bodies) + t).rest == parse(marked, t).rest,
        parse(marked, frames(marked, bodies) + t).corrupt == parse(marked, t).corrupt,
    decreases bodies.len(),
{
    if bodies.len() == 0 {
        assert(frames(marked, bodies) + t =~= t);
        assert(bodies + parse(marked, t).msgs =~= parse(marked, t).msgs);
    } else {
        let init = bodies.drop_last();
        let last = bodies.last();
        assert(bodies_fit(init)) by {
            assert forall|i: int| 0 <= i < init.len() implies #[trigger] init[i].len()
                <= u64::MAX by {
                assert(init[i] == bodies[i]);
            }
        }
        assert(bodies[bodies.len() - 1].len() <= u64::MAX);
        assert(frames(marked, bodies) + t =~= frames(marked, init) + (frame(marked, last) + t));
        lemma_parse_frames(marked, init, frame(marked, last) + t);
        lemma_parse_frame(marked, last, t);
        assert(init + (seq![last] + parse(marked, t).msgs) =~= bodies + parse(marked, t).msgs);
    }
}

/// Chunk-size independence: feeding a stream in chunks, decoding after each,
/// gives the same messages, leftover bytes and verdict as decoding the
/// whole stream at once.
pub proof fn lemma_chunk_independence(marked: bool, chunks: Seq<Seq<u8>>)
    ensures
        feed_chunks(marked, chunks) == parse(marked, concat(chunks)),
    decreases chunks.len(),
{
    if chunks.len() == 0 {
        assert(parse(marked, Seq::<u8>::empty()).msgs =~= Seq::<Seq<u8>>::empty());
    } else {
        let init = chunks.drop_last();
        lemma_chunk_independence(marked, init);
        lemma_parse_append(marked, concat(init), chunks.last());
    }
}

/// Round trip: however the frame of `m` is cut into chunks, feeding them to
/// a fresh decoder yields exactly `m`, with nothing left over.
pub proof fn lemma_round_trip(marked: bool, m: Seq<u8>, chunks: Seq<Seq<u8>>)
    requires
        m.len() <= u64::MAX,
        concat(chunks) == frame(marked, m),
    ensures
        feed_chunks(marked, chunks).msgs == seq![m],
        feed_chunks(marked, chunks).rest.len() == 0,
        !feed_chunks(marked, chunks).corrupt,
{
    lemma_chunk_independence(marked, chunks);
    lemma_parse_frame(marked, m, Seq::empty());
    assert(frame(marked, m) + Seq::<u8>::empty() =~= frame(marked, m));
    assert(seq![m] + parse(marked, Seq::<u8>::empty()).msgs =~= seq![m]);
}

/// Ordering: the frames of several bodies decode to those bodies in the
/// order they were framed.
pub proof fn lemma_fifo(marked: bool, bodies: Seq<Seq<u8>>)
    requires
        bodies_fit(bodies),
    ensures
        parse(marked, frames(marked, bodies)).msgs == bodies,
        parse(marked, frames(marked, bodies)).rest.len() == 0,
        !parse(marked, frames(marked, bodies)).corrupt,
{
    lemma_parse_frames(marked, bodies, Seq::empty());
    assert(frames(marked, bodies) + Seq::<u8>::empty() =~= frames(marked, bodies));
    assert(bodies + parse(marked, Seq::<u8>::empty()).msgs =~= bodies);
}

/// The chunks joined in order start with the first chunk.
pub proof fn lemma_concat_front(chunks: Seq<Seq<u8>>)
    requires
        chunks.len() > 0,
    ensures
        concat(chunks) == chunks[0] + concat(chunks.drop_first()),
    decreases chunks.len(),
{
    if chunks.len() == 1 {
        assert(concat(chunks.drop_last()) =~= Seq::<u8>::empty());
        assert(concat(chunks.drop_first()) =~= Seq::<u8>::empty());
        assert(concat(chunks) =~= chunks[0]);
        assert(chunks[0] + Seq::<u8>::empty() =~= chunks[0]);
    } else {
        let init = chunks.drop_last();
        lemma_concat_front(init);
        assert(init.drop_first() =~= chunks.drop_first().drop_last());
        assert(chunks.drop_first().last() == chunks.last());
        assert(init[0] == chunks[0]);
        assert(concat(chunks) =~= chunks[0] + concat(chunks.drop_first()));
    }
}

/// The chunks joined in order are empty only if every chunk is.
pub proof fn lemma_concat_nonempty(chunks: Seq<Seq<u8>>)
    requires
        chunks.len() > 0,
        forall|i: int| 0 <= i < chunks.len() ==> #[trigger] chunks[i].len() > 0,
    ensures
        concat(chunks).len() > 0,
{
    assert(chunks[chunks.len() - 1].len() > 0);
}

/// Decoding again right after decoding finds nothing new: what was left
/// over stays as it is, with the same verdict.
pub proof fn lemma_drain_idempotent(marked: bool, s: Seq<u8>)
    ensures
        parse(marked, parse(marked, s).rest).msgs.len() == 0,
        parse(marked, parse(marked, s).rest).rest == parse(marked, s).rest,
        parse(marked, parse(marked, s).rest).corrupt == parse(marked, s).corrupt,
    decreases s.len(),
{
    let h = header_len(marked);
    if s.len() >= h && !(marked && s.take(MARKER_LEN as int) != marker()) && s.len() >= h
        + announced_len(marked, s) {
        lemma_drain_idempotent(marked, s.skip(h + announced_len(marked, s)));
    }
}

} // verus!
