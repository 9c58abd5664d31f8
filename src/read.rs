//! The read direction of a connection: what to make of each read from the
//! socket. The caller performs the reads and hands over what they returned.

use crate::frame::parse;
use crate::header::{lemma_be_u64_round_trip, DecodeHeaderError};
use crate::ser::{DecodeError, Reader};
use vstd::prelude::*;

verus! {

/// Why reading from a connection failed.
#[derive(Clone, Copy, Debug, PartialEq, Eq)]
pub enum UpdateError {
    /// The peer closed the connection in the middle of a frame.
    Disconnected,
    /// The received stream could not be decoded.
    ReaderUpdate(DecodeError),
}

/// What a read from the socket amounted to.
#[derive(Clone, Copy, Debug, PartialEq, Eq)]
pub enum ReadStatus {
    /// At least one message was decoded.
    MessageReady,
    /// No message is complete yet: read again.
    NeedMore,
    /// The peer closed the connection between frames.
    PeerClosed,
}

/// The error that a corrupt stream gives.
pub open spec fn corrupt_error() -> UpdateError {
    UpdateError::ReaderUpdate(DecodeError::DeserializeHeader(DecodeHeaderError::InvalidMarker))
}

/// What taking in the result `data` of one read gives, for a decoder in
/// state `d`.
pub open spec fn read_outcome<const MARKED: bool>(d: Reader<MARKED>, data: Seq<u8>) -> Result<
    ReadStatus,
    UpdateError,
> {
    if data.len() == 0 {
        if d.mid_frame() {
            Err(UpdateError::Disconnected)
        } else {
            Ok(ReadStatus::PeerClosed)
        }
    } else {
        let p = parse(MARKED, d.unconsumed() + data);
        if p.corrupt {
            Err(corrupt_error())
        } else if p.msgs.len() > 0 {
            Ok(ReadStatus::MessageReady)
        } else {
            Ok(ReadStatus::NeedMore)
        }
    }
}

/// The decoded bodies waiting after taking in the result `data` of one read.
pub open spec fn queued_after_read<const MARKED: bool>(
    d: Reader<MARKED>,
    data: Seq<u8>,
) -> Seq<Seq<u8>> {
    if data.len() == 0 {
        d.queued()
    } else {
        d.queued() + parse(MARKED, d.unconsumed() + data).msgs
    }
}

/// The undecoded bytes left after taking in the result `data` of one read.
pub open spec fn unconsumed_after_read<const MARKED: bool>(
    d: Reader<MARKED>,
    data: Seq<u8>,
) -> Seq<u8> {
    if data.len() == 0 {
        d.unconsumed()
    } else {
        parse(MARKED, d.unconsumed() + data).rest
    }
}

/// What decoding the bytes already buffered gives, for a decoder in state
/// `d`: whether a message was decoded, or the error.
pub open spec fn drain_outcome<const MARKED: bool>(d: Reader<MARKED>) -> Result<bool, UpdateError> {
    let p = parse(MARKED, d.unconsumed());
    if p.corrupt {
        Err(corrupt_error())
    } else {
        Ok(p.msgs.len() > 0)
    }
}

/// The decoding side of a connection. `MARKED` says whether each header
/// opens with the validation marker.
#[derive(Debug)]
pub struct SocketReader<const MARKED: bool> {
    reader: Reader<MARKED>,
}

impl SocketReader<false> {
    /// Nothing received yet; headers are the bare body length.
    pub fn new() -> (r: SocketReader<false>)
        ensures
            r.decoder().queued() == Seq::<Seq<u8>>::empty(),
            r.decoder().unconsumed() == Seq::<u8>::empty(),
    {
        SocketReader::empty()
    }
}

impl<const MARKED: bool> SocketReader<MARKED> {
    /// The decoder state.
    pub closed spec fn decoder(&self) -> Reader<MARKED> {
        self.reader
    }

    /// Nothing received yet.
    pub fn empty() -> (r: SocketReader<MARKED>)
        ensures
            r.decoder().queued() == Seq::<Seq<u8>>::empty(),
            r.decoder().unconsumed() == Seq::<u8>::empty(),
    {
        SocketReader { reader: Reader::empty() }
    }

    /// The decoder state, given up.
    pub fn into_reader(self) -> (r: Reader<MARKED>)
        ensures
            r == self.decoder(),
    {
        self.reader
    }

    /// Takes out the oldest decoded body, if there is one.
    pub fn get_next(&mut self) -> (r: Option<Vec<u8>>)
        ensures
            old(self).decoder().queued().len() == 0 ==> r is None && final(self).decoder().queued()
                == old(self).decoder().queued(),
            old(self).decoder().queued().len() > 0 ==> r is Some && r->Some_0@ == old(
                self,
            ).decoder().queued()[0] && final(self).decoder().queued() == old(
                self,
            ).decoder().queued().drop_first(),
            final(self).decoder().unconsumed() == old(self).decoder().unconsumed(),
    {
        self.reader.get_next()
    }

    /// Appends received bytes; decodes nothing.
    pub fn feed(&mut self, data: &[u8])
        requires
            old(self).decoder().pending().len() + data@.len() <= isize::MAX,
        ensures
            final(self).decoder().pending() == old(self).decoder().pending() + data@,
            final(self).decoder().unconsumed() == old(self).decoder().unconsumed() + data@,
            final(self).decoder().awaiting() == old(self).decoder().awaiting(),
            final(self).decoder().queued() == old(self).decoder().queued(),
    {
        self.reader.feed(data)
    }

    /// Makes at most one step of decoding (see `Reader::steps_to`).
    pub fn attempt_decode(&mut self) -> (r: Result<bool, DecodeError>)
        ensures
            old(self).decoder().steps_to(final(self).decoder(), r),
            r is Ok ==> final(self).decoder().settled() == old(self).decoder().settled(),
    {
        self.reader.update()
    }

    /// Number of received bytes waiting in the buffer.
    pub fn buf_len(&self) -> (r: usize)
        ensures
            r == self.decoder().pending().len(),
    {
        self.reader.buf_len()
    }

    /// Number of decoded bodies waiting to be taken out.
    pub fn ready_len(&self) -> (r: usize)
        ensures
            r == self.decoder().queued().len(),
    {
        self.reader.ready_len()
    }

    /// The step before reading: decodes what is already buffered. `Ok(true)`
    /// means a message was decoded and the socket need not be read now.
    pub fn update(&mut self) -> (r: Result<bool, UpdateError>)
        ensures
            r == drain_outcome(old(self).decoder()),
            final(self).decoder().queued() == old(self).decoder().settled().msgs,
            final(self).decoder().unconsumed() == old(self).decoder().settled().rest,
    {
        match self.reader.full_update() {
            Ok(b) => Ok(b),
            Err(e) => Err(UpdateError::ReaderUpdate(e)),
        }
    }

    /// Takes in what one read from the socket returned and decodes all it
    /// can. An empty read is the peer closing: an error in the middle of a
    /// frame, a clean close between frames.
    pub fn on_read(&mut self, data: &[u8]) -> (r: Result<ReadStatus, UpdateError>)
        requires
            old(self).decoder().pending().len() + data@.len() <= isize::MAX,
        ensures
            r == read_outcome(old(self).decoder(), data@),
            final(self).decoder().queued() == queued_after_read(old(self).decoder(), data@),
            final(self).decoder().unconsumed() == unconsumed_after_read(old(self).decoder(), data@),
            data@.len() == 0 ==> final(self).decoder() == old(self).decoder(),
    {
        if data.len() == 0 {
            if self.reader.is_mid_frame() {
                return Err(UpdateError::Disconnected);
            } else {
                return Ok(ReadStatus::PeerClosed);
            }
        }
        self.reader.feed(data);
        match self.reader.full_update() {
            Ok(true) => Ok(ReadStatus::MessageReady),
            Ok(false) => Ok(ReadStatus::NeedMore),
            Err(e) => Err(UpdateError::ReaderUpdate(e)),
        }
    }
}

/// Disconnection signaling: an empty read while a body is awaited is the
/// peer disconnecting; an empty read while a header is awaited and nothing
/// is buffered is a clean close.
pub proof fn lemma_empty_read<const MARKED: bool>(d: Reader<MARKED>)
    ensures
        d.awaiting() is Some ==> read_outcome(d, Seq::empty()) == Err::<ReadStatus, UpdateError>(
            UpdateError::Disconnected,
        ),
        d.awaiting() is None && d.pending().len() == 0 ==> read_outcome(d, Seq::empty()) == Ok::<
            ReadStatus,
            UpdateError,
        >(ReadStatus::PeerClosed),
{
    if let Some(n) = d.awaiting() {
        lemma_be_u64_round_trip(n);
    }
}

} // verus!
