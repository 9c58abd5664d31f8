//! The write direction of a connection: what to write next, and what to
//! make of each write to the socket. The caller performs the writes and
//! hands over how many bytes the socket took.

use crate::frame::frame;
use crate::header::HEADER_SIZE;
use crate::ser::Writer;
use vstd::prelude::*;

verus! {

/// Why writing to a connection failed.
#[derive(Clone, Copy, Debug, PartialEq, Eq)]
pub enum UpdateError {
    /// The socket took no byte while bytes were waiting: the peer is gone.
    Disconnected,
}

/// What taking in that one write took `written` bytes gives, for an encoder
/// in state `w`: whether all is written, or the error.
pub open spec fn write_outcome<const MARKED: bool>(w: Writer<MARKED>, written: usize) -> Result<
    bool,
    UpdateError,
> {
    if written == 0 && w.outbound().len() > 0 {
        Err(UpdateError::Disconnected)
    } else {
        Ok(w.outbound().len() == written)
    }
}

/// The bytes still to be written after one write took `written` bytes.
pub open spec fn outbound_after_write<const MARKED: bool>(
    w: Writer<MARKED>,
    written: usize,
) -> Seq<u8> {
    if written == 0 {
        w.outbound()
    } else {
        w.outbound().skip(written as int)
    }
}

/// The encoding side of a connection. `MARKED` says whether each header
/// opens with the validation marker.
#[derive(Debug)]
pub struct SocketWriter<const MARKED: bool> {
    writer: Writer<MARKED>,
}

impl SocketWriter<false> {
    /// Nothing queued yet; headers are the bare body length.
    pub fn new() -> (r: SocketWriter<false>)
        ensures
            r.wf(),
            r.encoder().outbound() == Seq::<u8>::empty(),
    {
        SocketWriter::empty()
    }
}

impl<const MARKED: bool> SocketWriter<MARKED> {
    /// The encoder state.
    pub closed spec fn encoder(&self) -> Writer<MARKED> {
        self.writer
    }

    pub open spec fn wf(&self) -> bool {
        self.encoder().wf()
    }

    /// Nothing queued yet.
    pub fn empty() -> (r: SocketWriter<MARKED>)
        ensures
            r.wf(),
            r.encoder().outbound() == Seq::<u8>::empty(),
    {
        SocketWriter { writer: Writer::empty() }
    }

    /// The encoder state, given up.
    pub fn into_writer(self) -> (r: Writer<MARKED>)
        ensures
            r == self.encoder(),
    {
        self.writer
    }

    /// Queues the frame of a serialized message.
    pub fn queue(&mut self, msg: &[u8])
        requires
            old(self).wf(),
            old(self).encoder().outbound().len() + HEADER_SIZE + msg@.len() <= isize::MAX,
        ensures
            final(self).wf(),
            final(self).encoder().entries() == old(self).encoder().entries().push(
                frame(MARKED, msg@),
            ),
            final(self).encoder().outbound() == old(self).encoder().outbound() + frame(
                MARKED,
                msg@,
            ),
    {
        self.writer.sink(msg)
    }

    /// Number of bytes still to be written.
    pub fn buf_len(&self) -> (r: usize)
        requires
            self.wf(),
        ensures
            r == self.encoder().outbound().len(),
    {
        self.writer.buf_len()
    }

    /// Whether every queued byte has been written.
    pub fn is_done(&self) -> (r: bool)
        requires
            self.wf(),
        ensures
            r == (self.encoder().outbound().len() == 0),
    {
        self.writer.is_empty()
    }

    /// The bytes to hand to the next write (empty when all is written).
    pub fn as_byte_source(&self) -> (r: &[u8])
        requires
            self.wf(),
        ensures
            r@ == self.encoder().next_chunk(),
            r@ == self.encoder().outbound().take(r@.len() as int),
            self.encoder().outbound().len() > 0 ==> r@.len() > 0,
    {
        self.writer.as_byte_source()
    }

    /// Takes in how many bytes of `as_byte_source` one write took. Returns
    /// whether everything queued has now been written. A write that took
    /// nothing while bytes were waiting means the peer is gone.
    pub fn on_write(&mut self, written: usize) -> (r: Result<bool, UpdateError>)
        requires
            old(self).wf(),
            written <= old(self).encoder().next_chunk().len(),
        ensures
            final(self).wf(),
            r == write_outcome(old(self).encoder(), written),
            final(self).encoder().outbound() == outbound_after_write(old(self).encoder(), written),
            r is Err ==> final(self).encoder() == old(self).encoder(),
    {
        if written == 0 {
            if self.writer.is_empty() {
                assert(self.encoder().outbound().skip(0) =~= self.encoder().outbound());
                return Ok(true);
            } else {
                return Err(UpdateError::Disconnected);
            }
        }
        self.writer.advance(written);
        Ok(self.writer.is_empty())
    }
}

/// Writing in pieces is writing at once: the bytes that two successive
/// partial writes take are the front of the outgoing bytes, in order, and
/// what is left is what one write of both counts would leave.
pub proof fn lemma_partial_writes(out: Seq<u8>, a: nat, b: nat)
    requires
        a + b <= out.len(),
    ensures
        out.take(a as int) + out.skip(a as int).take(b as int) == out.take((a + b) as int),
        out.skip(a as int).skip(b as int) == out.skip((a + b) as int),
{
    assert(out.take(a as int) + out.skip(a as int).take(b as int) =~= out.take((a + b) as int));
    assert(out.skip(a as int).skip(b as int) =~= out.skip((a + b) as int));
}

} // verus!
