//! The buffer in which the byte stream waits until whole frames can be taken out.
//!
//! Bytes arrive in chunks of any size, cut anywhere. They are appended to the
//! buffer; whole frames leave it from the front. The laws at the end of this
//! file say that the cuts between chunks do not matter.

use vstd::prelude::*;
use crate::tlv_translator::{
    drained_frames,
    drained_rest,
    find_magic,
    first_magic,
    frame_views,
    has_magic,
    header_at,
    lemma_first_magic_unique,
    locate_magic,
    magic_at,
    next_frame,
    read_frame,
    translate_tlv,
    Frame,
    FrameHeader,
    HEADER_LEN,
};

verus! {

/// How far the front of the stream has come towards a whole frame.
#[derive(Clone, Copy, Debug, PartialEq, Eq, Structural)]
pub enum StreamState {
    /// No magic word has been seen.
    Searching,
    /// A magic word has been seen, but not yet the 40 bytes of its header.
    HeaderPending,
    /// The header is there, but not yet as many bytes as its package length.
    BodyPending,
    /// A whole frame is there to be taken out.
    FrameReady,
}

/// The state of a stream whose pending bytes are `s`.
pub open spec fn stream_state(s: Seq<u8>) -> StreamState {
    if !has_magic(s) {
        StreamState::Searching
    } else if s.len() - first_magic(s) < 40 {
        StreamState::HeaderPending
    } else if s.len() - first_magic(s) < header_at(s, first_magic(s)).package_length {
        StreamState::BodyPending
    } else {
        StreamState::FrameReady
    }
}

/// Milliseconds that the decoder waits when no chunk has arrived.
pub const DECODE_IDLE_MS: u64 = 100;

/// What the decoder does after it has asked for the next chunk.
pub enum DecodeAction {
    /// Hand these frames on, in this order, then ask again.
    Forward(Vec<Frame>),
    /// Wait this many milliseconds, then ask again.
    Wait { millis: u64 },
}

/// The pending bytes of the stream, oldest first.
pub struct ReassemblyBuffer {
    bytes: Vec<u8>,
}

impl View for ReassemblyBuffer {
    type V = Seq<u8>;

    closed spec fn view(&self) -> Seq<u8> {
        self.bytes@
    }
}

impl ReassemblyBuffer {
    /// A buffer with no bytes pending.
    pub fn new() -> (buffer: ReassemblyBuffer)
        ensures
            buffer@ == Seq::<u8>::empty(),
    {
        ReassemblyBuffer { bytes: Vec::new() }
    }

    /// The number of bytes pending.
    pub fn len(&self) -> (n: usize)
        ensures
            n == self@.len(),
    {
        self.bytes.len()
    }

    /// The bytes pending, oldest first.
    pub fn as_bytes(&self) -> (bytes: &Vec<u8>)
        ensures
            bytes@ == self@,
    {
        &self.bytes
    }

    /// Appends a chunk at the tail; what is pending already stays in place.
    pub fn append(&mut self, bytes: &[u8])
        ensures
            final(self)@ == old(self)@ + bytes@,
    {
        self.bytes.extend_from_slice(bytes);
        assert(self@ =~= old(self)@ + bytes@);
    }

    /// Every offset at which the magic word stands in the pending bytes, ascending.
    pub fn locate_magic(&self) -> (offsets: Vec<usize>)
        ensures
            forall|k: int|
                0 <= k < offsets@.len() ==> magic_at(self@, #[trigger] offsets@[k] as int),
            forall|k: int, l: int| 0 <= k < l < offsets@.len() ==> offsets@[k] < offsets@[l],
            forall|i: int| magic_at(self@, i) ==> offsets@.contains(i as usize),
    {
        locate_magic(&self.bytes)
    }

    /// How far the front of the stream has come towards a whole frame.
    pub fn state(&self) -> (state: StreamState)
        ensures
            state == stream_state(self@),
            state == StreamState::FrameReady <==> next_frame(self@) is Some,
    {
        let off: usize = match find_magic(&self.bytes) {
            Some(off) => off,
            None => { return StreamState::Searching; },
        };
        proof {
            lemma_first_magic_unique(self@, off as int);
        }
        if self.bytes.len() - off < HEADER_LEN {
            return StreamState::HeaderPending;
        }
        let header = FrameHeader::decode(self.bytes.as_slice(), off);
        if self.bytes.len() - off < header.frame_len() {
            return StreamState::BodyPending;
        }
        StreamState::FrameReady
    }

    /// Takes the first whole frame out of the buffer and decodes it.
    ///
    /// Nothing is returned, and nothing changes, while the pending bytes hold
    /// no magic word, fewer than 40 bytes from the first magic word on, or
    /// fewer than the package length that the header there gives.
    pub fn try_extract_frame(&mut self) -> (frame: Option<Frame>)
        ensures
            match next_frame(old(self)@) {
                Some(taken) => frame is Some && frame->0@ == taken.frame && final(self)@
                    == taken.rest,
                None => frame is None && final(self)@ == old(self)@,
            },
            frame is Some ==> old(self)@.len() - final(self)@.len() == first_magic(old(self)@)
                + header_at(old(self)@, first_magic(old(self)@)).package_length,
    {
        read_frame(&mut self.bytes)
    }

    /// Takes every whole frame out of the buffer and decodes it, in stream order.
    pub fn drain_frames(&mut self) -> (frames: Vec<Frame>)
        ensures
            frame_views(frames@) == drained_frames(old(self)@),
            final(self)@ == drained_rest(old(self)@),
    {
        translate_tlv(&mut self.bytes)
    }

    /// Appends a chunk and takes out every frame that it completes.
    pub fn feed(&mut self, chunk: &[u8]) -> (frames: Vec<Frame>)
        ensures
            frame_views(frames@) == drained_frames(old(self)@ + chunk@),
            final(self)@ == drained_rest(old(self)@ + chunk@),
    {
        self.append(chunk);
        self.drain_frames()
    }

    /// One turn of the decoder: takes in the chunk that arrived, if one did.
    ///
    /// With a chunk, every frame that it completes is handed on. Without one
    /// the buffer stays as it is and the decoder waits.
    pub fn on_receive(&mut self, received: Option<&[u8]>) -> (action: DecodeAction)
        ensures
            match received {
                Some(chunk) => action matches DecodeAction::Forward(frames) && frame_views(
                    frames@,
                ) == drained_frames(old(self)@ + chunk@) && final(self)@ == drained_rest(
                    old(self)@ + chunk@,
                ),
                None => action == (DecodeAction::Wait { millis: DECODE_IDLE_MS }) && final(self)@
                    == old(self)@,
            },
    {
        match received {
            Some(chunk) => DecodeAction::Forward(self.feed(chunk)),
            None => DecodeAction::Wait { millis: DECODE_IDLE_MS },
        }
    }
}

} // verus!
