//! The full-duplex stream: reads and writes go on together while bytes wait
//! to be sent, and the stream only reads once they are all sent. The caller
//! runs the loop: it performs the action that each step asks for and hands
//! back what came of it.

use crate::connection::{halves, ConnectionReadHalf, ConnectionWriteHalf};
use crate::frame::{frame, parse};
use crate::header::HEADER_SIZE;
use crate::read::{
    drain_outcome, queued_after_read, read_outcome, unconsumed_after_read, ReadStatus,
    SocketReader,
};
use crate::ser::{Reader, Writer};
use crate::write::{outbound_after_write, write_outcome, SocketWriter};
use vstd::prelude::*;

verus! {

/// Why driving a stream failed.
#[derive(Clone, Copy, Debug, PartialEq, Eq)]
pub enum StreamUpdateErr {
    /// Reading failed.
    Reader(crate::read::UpdateError),
    /// Writing failed.
    Writer(crate::write::UpdateError),
}

/// What happened since the last step.
#[derive(Debug)]
pub enum StreamEvent {
    /// Nothing yet: the loop is starting.
    Start,
    /// A read returned these bytes (none: the peer closed).
    Received(Vec<u8>),
    /// A write took this many bytes of `as_byte_source`.
    Sent(usize),
}

/// What the loop should do next.
#[derive(Clone, Copy, Debug, PartialEq, Eq)]
pub enum StreamAction {
    /// A message is ready: stop and let the caller take it with `get`.
    MessageReady,
    /// Wait for whichever comes first: a read, or a write of `as_byte_source`.
    ReadOrWrite,
    /// Nothing waits to be sent: wait for a read.
    Read,
    /// The peer closed the connection between frames.
    Closed,
}

/// The next action once no message is ready: write too while bytes wait.
pub open spec fn io_action(w: Writer<false>) -> StreamAction {
    if w.outbound().len() > 0 {
        StreamAction::ReadOrWrite
    } else {
        StreamAction::Read
    }
}

/// Both directions of one connection, driven together. Each header is the
/// bare body length.
#[derive(Debug)]
pub struct Stream {
    reader: SocketReader<false>,
    writer: SocketWriter<false>,
}

impl Stream {
    pub closed spec fn decoder(&self) -> Reader<false> {
        self.reader.decoder()
    }

    pub closed spec fn encoder(&self) -> Writer<false> {
        self.writer.encoder()
    }

    pub open spec fn wf(&self) -> bool {
        self.encoder().wf()
    }

    /// What a step needs of its event.
    pub open spec fn accepts(&self, event: StreamEvent) -> bool {
        match event {
            StreamEvent::Start => true,
            StreamEvent::Received(data) => self.decoder().pending().len() + data@.len()
                <= isize::MAX,
            StreamEvent::Sent(n) => n <= self.encoder().next_chunk().len(),
        }
    }

    /// A stream with nothing received or queued.
    pub fn new() -> (r: Stream)
        ensures
            r.wf(),
            r.decoder().queued() == Seq::<Seq<u8>>::empty(),
            r.decoder().unconsumed() == Seq::<u8>::empty(),
            r.encoder().outbound() == Seq::<u8>::empty(),
    {
        Stream { reader: SocketReader::new(), writer: SocketWriter::new() }
    }

    /// Queues the frame of a serialized message to be sent; never blocks.
    pub fn queue(&mut self, msg: &[u8])
        requires
            old(self).wf(),
            old(self).encoder().outbound().len() + HEADER_SIZE + msg@.len() <= isize::MAX,
        ensures
            final(self).wf(),
            final(self).encoder().outbound() == old(self).encoder().outbound() + frame(false, msg@),
            final(self).decoder() == old(self).decoder(),
    {
        self.writer.queue(msg)
    }

    /// Takes out the oldest received message, if there is one. Messages come
    /// out in the order they were sent.
    pub fn get(&mut self) -> (r: Option<Vec<u8>>)
        ensures
            old(self).decoder().queued().len() == 0 ==> r is None && final(self).decoder().queued()
                == old(self).decoder().queued(),
            old(self).decoder().queued().len() > 0 ==> r is Some && r->Some_0@ == old(
                self,
            ).decoder().queued()[0] && final(self).decoder().queued() == old(
                self,
            ).decoder().queued().drop_first(),
            final(self).decoder().unconsumed() == old(self).decoder().unconsumed(),
            final(self).encoder() == old(self).encoder(),
    {
        self.reader.get_next()
    }

    /// Number of received bytes waiting in the buffer.
    pub fn recv_buf_len(&self) -> (r: usize)
        ensures
            r == self.decoder().pending().len(),
    {
        self.reader.buf_len()
    }

    /// Number of bytes still to be sent.
    pub fn send_buf_len(&self) -> (r: usize)
        requires
            self.wf(),
        ensures
            r == self.encoder().outbound().len(),
    {
        self.writer.buf_len()
    }

    /// The bytes to hand to the next write (empty when all is sent).
    pub fn as_byte_source(&self) -> (r: &[u8])
        requires
            self.wf(),
        ensures
            r@ == self.encoder().next_chunk(),
            r@ == self.encoder().outbound().take(r@.len() as int),
            self.encoder().outbound().len() > 0 ==> r@.len() > 0,
    {
        self.writer.as_byte_source()
    }

    fn io_next(&self) -> (r: StreamAction)
        requires
            self.wf(),
        ensures
            r == io_action(self.encoder()),
    {
        if self.writer.is_done() {
            StreamAction::Read
        } else {
            StreamAction::ReadOrWrite
        }
    }

    /// One step of the loop that runs until a message is ready. At the start
    /// it decodes what is already buffered; a read's bytes are decoded as far
    /// as they go; a write's count leaves the outgoing queue. Then it stops
    /// on a ready message or a clean close, and otherwise asks to read, and
    /// to write as well while bytes wait to be sent.
    pub fn update_loop(&mut self, event: StreamEvent) -> (r: Result<StreamAction, StreamUpdateErr>)
        requires
            old(self).wf(),
            old(self).accepts(event),
        ensures
            final(self).wf(),
            match event {
                StreamEvent::Start => {
                    let p = parse(false, old(self).decoder().unconsumed());
                    &&& final(self).decoder().queued() == old(self).decoder().queued() + p.msgs
                    &&& final(self).decoder().unconsumed() == p.rest
                    &&& final(self).encoder() == old(self).encoder()
                    &&& r == match drain_outcome(old(self).decoder()) {
                        Err(e) => Err(StreamUpdateErr::Reader(e)),
                        Ok(true) => Ok(StreamAction::MessageReady),
                        Ok(false) => Ok(io_action(old(self).encoder())),
                    }
                },
                StreamEvent::Received(data) => {
                    &&& final(self).decoder().queued() == queued_after_read(
                        old(self).decoder(),
                        data@,
                    )
                    &&& final(self).decoder().unconsumed() == unconsumed_after_read(
                        old(self).decoder(),
                        data@,
                    )
                    &&& final(self).encoder() == old(self).encoder()
                    &&& r == match read_outcome(old(self).decoder(), data@) {
                        Err(e) => Err(StreamUpdateErr::Reader(e)),
                        Ok(ReadStatus::MessageReady) => Ok(StreamAction::MessageReady),
                        Ok(ReadStatus::PeerClosed) => Ok(StreamAction::Closed),
                        Ok(ReadStatus::NeedMore) => Ok(io_action(old(self).encoder())),
                    }
                },
                StreamEvent::Sent(n) => {
                    &&& final(self).decoder() == old(self).decoder()
                    &&& final(self).encoder().outbound() == outbound_after_write(
                        old(self).encoder(),
                        n,
                    )
                    &&& r == match write_outcome(old(self).encoder(), n) {
                        Err(e) => Err(StreamUpdateErr::Writer(e)),
                        Ok(_) => Ok(io_action(final(self).encoder())),
                    }
                },
            },
    {
        match event {
            StreamEvent::Start => match self.reader.update() {
                Err(e) => Err(StreamUpdateErr::Reader(e)),
                Ok(true) => Ok(StreamAction::MessageReady),
                Ok(false) => Ok(self.io_next()),
            },
            StreamEvent::Received(data) => match self.reader.on_read(data.as_slice()) {
                Err(e) => Err(StreamUpdateErr::Reader(e)),
                Ok(ReadStatus::MessageReady) => Ok(StreamAction::MessageReady),
                Ok(ReadStatus::PeerClosed) => Ok(StreamAction::Closed),
                Ok(ReadStatus::NeedMore) => Ok(self.io_next()),
            },
            StreamEvent::Sent(n) => match self.writer.on_write(n) {
                Err(e) => Err(StreamUpdateErr::Writer(e)),
                Ok(_) => Ok(self.io_next()),
            },
        }
    }

    /// Splits into a read half and a write half, each keeping its state.
    pub fn into_split(self) -> (r: (ConnectionReadHalf<false>, ConnectionWriteHalf<false>))
        requires
            self.wf(),
        ensures
            r.0.decoder() == self.decoder(),
            r.1.encoder() == self.encoder(),
            r.1.wf(),
    {
        halves(self.reader, self.writer)
    }
}

} // verus!
