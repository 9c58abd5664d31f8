//! A connection that owns both directions, and the two halves it splits
//! into so that reading and writing can be driven by separate owners.

use crate::frame::{frame, parse};
use crate::header::HEADER_SIZE;
use crate::read::{
    queued_after_read, read_outcome, unconsumed_after_read, ReadStatus, SocketReader, UpdateError,
};
use crate::ser::{DecodeError, Reader, Writer};
use crate::write::{outbound_after_write, write_outcome, SocketWriter};
use vstd::prelude::*;

verus! {

/// Why receiving on a connection failed.
#[derive(Clone, Copy, Debug, PartialEq, Eq)]
pub enum ConnectionRecvError {
    /// The peer closed the connection in the middle of a frame.
    Disconnected,
    /// The received stream could not be decoded.
    DecodeError(DecodeError),
}

/// Why sending on a connection failed.
#[derive(Clone, Copy, Debug, PartialEq, Eq)]
pub enum ConnectionSendError {
    /// The socket took no byte while bytes were waiting: the peer is gone.
    Disconnected,
}

/// The receive error for a read error.
pub open spec fn recv_result(r: Result<ReadStatus, UpdateError>) -> Result<
    ReadStatus,
    ConnectionRecvError,
> {
    match r {
        Ok(s) => Ok(s),
        Err(UpdateError::Disconnected) => Err(ConnectionRecvError::Disconnected),
        Err(UpdateError::ReaderUpdate(e)) => Err(ConnectionRecvError::DecodeError(e)),
    }
}

/// The send error for a write error.
pub open spec fn send_result(r: Result<bool, crate::write::UpdateError>) -> Result<
    bool,
    ConnectionSendError,
> {
    match r {
        Ok(b) => Ok(b),
        Err(crate::write::UpdateError::Disconnected) => Err(ConnectionSendError::Disconnected),
    }
}

fn recv<const MARKED: bool>(
    reader: &mut SocketReader<MARKED>,
    data: &[u8],
) -> (r: Result<ReadStatus, ConnectionRecvError>)
    requires
        old(reader).decoder().pending().len() + data@.len() <= isize::MAX,
    ensures
        r == recv_result(read_outcome(old(reader).decoder(), data@)),
        final(reader).decoder().queued() == queued_after_read(old(reader).decoder(), data@),
        final(reader).decoder().unconsumed() == unconsumed_after_read(old(reader).decoder(), data@),
{
    match reader.on_read(data) {
        Ok(s) => Ok(s),
        Err(UpdateError::Disconnected) => Err(ConnectionRecvError::Disconnected),
        Err(UpdateError::ReaderUpdate(e)) => Err(ConnectionRecvError::DecodeError(e)),
    }
}

fn send<const MARKED: bool>(
    writer: &mut SocketWriter<MARKED>,
    written: usize,
) -> (r: Result<bool, ConnectionSendError>)
    requires
        old(writer).wf(),
        written <= old(writer).encoder().next_chunk().len(),
    ensures
        final(writer).wf(),
        r == send_result(write_outcome(old(writer).encoder(), written)),
        final(writer).encoder().outbound() == outbound_after_write(old(writer).encoder(), written),
{
    match writer.on_write(written) {
        Ok(b) => Ok(b),
        Err(crate::write::UpdateError::Disconnected) => Err(ConnectionSendError::Disconnected),
    }
}

/// Both directions of one connection. Each header opens with the
/// validation marker.
#[derive(Debug)]
pub struct Connection {
    reader: SocketReader<true>,
    writer: SocketWriter<true>,
}

impl Connection {
    pub closed spec fn decoder(&self) -> Reader<true> {
        self.reader.decoder()
    }

    pub closed spec fn encoder(&self) -> Writer<true> {
        self.writer.encoder()
    }

    pub open spec fn wf(&self) -> bool {
        self.encoder().wf()
    }

    /// A connection with nothing received or queued.
    pub fn new() -> (r: Connection)
        ensures
            r.wf(),
            r.decoder().queued() == Seq::<Seq<u8>>::empty(),
            r.decoder().unconsumed() == Seq::<u8>::empty(),
            r.encoder().outbound() == Seq::<u8>::empty(),
    {
        Connection { reader: SocketReader::empty(), writer: SocketWriter::empty() }
    }

    /// Queues the frame of a serialized message to be sent.
    pub fn queue(&mut self, message: &[u8])
        requires
            old(self).wf(),
            old(self).encoder().outbound().len() + HEADER_SIZE + message@.len() <= isize::MAX,
        ensures
            final(self).wf(),
            final(self).encoder().outbound() == old(self).encoder().outbound() + frame(
                true,
                message@,
            ),
            final(self).decoder() == old(self).decoder(),
    {
        self.writer.queue(message)
    }

    /// The bytes to hand to the next write (empty when all is sent).
    pub fn as_byte_source(&self) -> (r: &[u8])
        requires
            self.wf(),
        ensures
            r@ == self.encoder().next_chunk(),
            r@ == self.encoder().outbound().take(r@.len() as int),
            self.encoder().outbound().len() > 0 ==> r@.len() > 0,
    {
        self.writer.as_byte_source()
    }

    /// Takes in how many bytes of `as_byte_source` one write took; returns
    /// whether all queued data is sent.
    pub fn sent(&mut self, written: usize) -> (r: Result<bool, ConnectionSendError>)
        requires
            old(self).wf(),
            written <= old(self).encoder().next_chunk().len(),
        ensures
            final(self).wf(),
            r == send_result(write_outcome(old(self).encoder(), written)),
            final(self).encoder().outbound() == outbound_after_write(old(self).encoder(), written),
            final(self).decoder() == old(self).decoder(),
    {
        send(&mut self.writer, written)
    }

    /// Whether all queued data is sent.
    pub fn is_flushed(&self) -> (r: bool)
        requires
            self.wf(),
        ensures
            r == (self.encoder().outbound().len() == 0),
    {
        self.writer.is_done()
    }

    /// Number of received bytes waiting in the buffer.
    pub fn recv_buf_len(&self) -> (r: usize)
        ensures
            r == self.decoder().pending().len(),
    {
        self.reader.buf_len()
    }

    /// Number of bytes still to be sent.
    pub fn send_buf_len(&self) -> (r: usize)
        requires
            self.wf(),
        ensures
            r == self.encoder().outbound().len(),
    {
        self.writer.buf_len()
    }

    /// Appends received bytes; decodes nothing.
    pub fn feed(&mut self, data: &[u8])
        requires
            old(self).decoder().pending().len() + data@.len() <= isize::MAX,
        ensures
            final(self).decoder().pending() == old(self).decoder().pending() + data@,
            final(self).decoder().unconsumed() == old(self).decoder().unconsumed() + data@,
            final(self).decoder().awaiting() == old(self).decoder().awaiting(),
            final(self).decoder().queued() == old(self).decoder().queued(),
            final(self).encoder() == old(self).encoder(),
    {
        self.reader.feed(data)
    }

    /// Makes at most one step of decoding (see `Reader::steps_to`).
    pub fn attempt_decode(&mut self) -> (r: Result<bool, DecodeError>)
        ensures
            old(self).decoder().steps_to(final(self).decoder(), r),
            r is Ok ==> final(self).decoder().settled() == old(self).decoder().settled(),
            final(self).encoder() == old(self).encoder(),
    {
        self.reader.attempt_decode()
    }

    /// Takes in what one read returned and decodes all it can.
    pub fn received(&mut self, data: &[u8]) -> (r: Result<ReadStatus, ConnectionRecvError>)
        requires
            old(self).decoder().pending().len() + data@.len() <= isize::MAX,
        ensures
            r == recv_result(read_outcome(old(self).decoder(), data@)),
            final(self).decoder().queued() == queued_after_read(old(self).decoder(), data@),
            final(self).decoder().unconsumed() == unconsumed_after_read(
                old(self).decoder(),
                data@,
            ),
            final(self).encoder() == old(self).encoder(),
    {
        recv(&mut self.reader, data)
    }

    /// Takes out the oldest received message, if there is one. Messages come
    /// out in the order they were sent.
    pub fn get(&mut self) -> (r: Option<Vec<u8>>)
        ensures
            old(self).decoder().queued().len() == 0 ==> r is None && final(self).decoder().queued()
                == old(self).decoder().queued(),
            old(self).decoder().queued().len() > 0 ==> r is Some && r->Some_0@ == old(
                self,
            ).decoder().queued()[0] && final(self).decoder().queued() == old(
                self,
            ).decoder().queued().drop_first(),
            final(self).decoder().unconsumed() == old(self).decoder().unconsumed(),
            final(self).encoder() == old(self).encoder(),
    {
        self.reader.get_next()
    }

    /// Splits into a read half and a write half, each keeping its state.
    pub fn into_split(self) -> (r: (ConnectionReadHalf<true>, ConnectionWriteHalf<true>))
        requires
            self.wf(),
        ensures
            r.0.decoder() == self.decoder(),
            r.1.encoder() == self.encoder(),
            r.1.wf(),
    {
        halves(self.reader, self.writer)
    }
}

/// The two halves made of a reading side and a writing side.
pub(crate) fn halves<const MARKED: bool>(
    reader: SocketReader<MARKED>,
    writer: SocketWriter<MARKED>,
) -> (r: (ConnectionReadHalf<MARKED>, ConnectionWriteHalf<MARKED>))
    ensures
        r.0.decoder() == reader.decoder(),
        r.1.encoder() == writer.encoder(),
{
    (ConnectionReadHalf { reader }, ConnectionWriteHalf { writer })
}

/// The read direction of a split connection.
#[derive(Debug)]
pub struct ConnectionReadHalf<const MARKED: bool> {
    reader: SocketReader<MARKED>,
}

impl<const MARKED: bool> ConnectionReadHalf<MARKED> {
    pub closed spec fn decoder(&self) -> Reader<MARKED> {
        self.reader.decoder()
    }

    /// Appends received bytes; decodes nothing.
    pub fn feed(&mut self, data: &[u8])
        requires
            old(self).decoder().pending().len() + data@.len() <= isize::MAX,
        ensures
            final(self).decoder().pending() == old(self).decoder().pending() + data@,
            final(self).decoder().unconsumed() == old(self).decoder().unconsumed() + data@,
            final(self).decoder().awaiting() == old(self).decoder().awaiting(),
            final(self).decoder().queued() == old(self).decoder().queued(),
    {
        self.reader.feed(data)
    }

    /// Makes at most one step of decoding (see `Reader::steps_to`).
    pub fn attempt_decode(&mut self) -> (r: Result<bool, DecodeError>)
        ensures
            old(self).decoder().steps_to(final(self).decoder(), r),
            r is Ok ==> final(self).decoder().settled() == old(self).decoder().settled(),
    {
        self.reader.attempt_decode()
    }

    /// Takes in what one read returned and decodes all it can.
    pub fn received(&mut self, data: &[u8]) -> (r: Result<ReadStatus, ConnectionRecvError>)
        requires
            old(self).decoder().pending().len() + data@.len() <= isize::MAX,
        ensures
            r == recv_result(read_outcome(old(self).decoder(), data@)),
            final(self).decoder().queued() == queued_after_read(old(self).decoder(), data@),
            final(self).decoder().unconsumed() == unconsumed_after_read(
                old(self).decoder(),
                data@,
            ),
    {
        recv(&mut self.reader, data)
    }

    /// Number of received bytes waiting in the buffer.
    pub fn buf_len(&self) -> (r: usize)
        ensures
            r == self.decoder().pending().len(),
    {
        self.reader.buf_len()
    }

    /// Takes out the oldest received message, if there is one.
    pub fn get(&mut self) -> (r: Option<Vec<u8>>)
        ensures
            old(self).decoder().queued().len() == 0 ==> r is None && final(self).decoder().queued()
                == old(self).decoder().queued(),
            old(self).decoder().queued().len() > 0 ==> r is Some && r->Some_0@ == old(
                self,
            ).decoder().queued()[0] && final(self).decoder().queued() == old(
                self,
            ).decoder().queued().drop_first(),
            final(self).decoder().unconsumed() == old(self).decoder().unconsumed(),
    {
        self.reader.get_next()
    }
}

/// The write direction of a split connection.
#[derive(Debug)]
pub struct ConnectionWriteHalf<const MARKED: bool> {
    writer: SocketWriter<MARKED>,
}

impl<const MARKED: bool> ConnectionWriteHalf<MARKED> {
    pub closed spec fn encoder(&self) -> Writer<MARKED> {
        self.writer.encoder()
    }

    pub open spec fn wf(&self) -> bool {
        self.encoder().wf()
    }

    /// Queues the frame of a serialized message to be sent.
    pub fn queue(&mut self, message: &[u8])
        requires
            old(self).wf(),
            old(self).encoder().outbound().len() + HEADER_SIZE + message@.len() <= isize::MAX,
        ensures
            final(self).wf(),
            final(self).encoder().outbound() == old(self).encoder().outbound() + frame(
                MARKED,
                message@,
            ),
    {
        self.writer.queue(message)
    }

    /// Number of bytes still to be sent.
    pub fn buf_len(&self) -> (r: usize)
        requires
            self.wf(),
        ensures
            r == self.encoder().outbound().len(),
    {
        self.writer.buf_len()
    }

    /// The bytes to hand to the next write (empty when all is sent).
    pub fn as_byte_source(&self) -> (r: &[u8])
        requires
            self.wf(),
        ensures
            r@ == self.encoder().next_chunk(),
            r@ == self.encoder().outbound().take(r@.len() as int),
            self.encoder().outbound().len() > 0 ==> r@.len() > 0,
    {
        self.writer.as_byte_source()
    }

    /// Takes in how many bytes of `as_byte_source` one write took; returns
    /// whether all queued data is sent.
    pub fn sent(&mut self, written: usize) -> (r: Result<bool, ConnectionSendError>)
        requires
            old(self).wf(),
            written <= old(self).encoder().next_chunk().len(),
        ensures
            final(self).wf(),
            r == send_result(write_outcome(old(self).encoder(), written)),
            final(self).encoder().outbound() == outbound_after_write(old(self).encoder(), written),
    {
        send(&mut self.writer, written)
    }

    /// Whether all queued data is sent.
    pub fn is_flushed(&self) -> (r: bool)
        requires
            self.wf(),
        ensures
            r == (self.encoder().outbound().len() == 0),
    {
        self.writer.is_done()
    }
}

} // verus!
