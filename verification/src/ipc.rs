//! How a frame is laid on the channel to another process.
//!
//! The channel carries text, one serialized frame per line.

use vstd::prelude::*;
use vstd::string::*;
use vstd::utf8::encode_utf8;

verus! {

/// The byte that ends a message on the channel: a line feed.
pub const DELIMITER: u8 = 0x0a;

/// The bytes that carry one serialized frame: its text in UTF-8 and the delimiter.
pub open spec fn message_bytes(serialized: Seq<char>) -> Seq<u8> {
    encode_utf8(serialized).push(DELIMITER)
}

/// Lays one serialized frame out as a message for the channel.
pub fn frame_message(serialized: &str) -> (message: Vec<u8>)
    ensures
        message@ == message_bytes(serialized@),
{
    let mut message: Vec<u8> = serialized.as_bytes_vec();
    message.push(DELIMITER);
    message
}

/// How the attempt to send one frame ended.
#[derive(Clone, Copy, Debug, PartialEq, Eq, Structural)]
pub enum SendOutcome {
    /// The frame went out.
    Sent,
    /// The channel reported an error.
    Failed,
}

/// What the sending side does after an attempt.
#[derive(Clone, Copy, Debug, PartialEq, Eq, Structural)]
pub enum SinkAction {
    /// Take the next frame.
    Next,
    /// Report that the frame is lost, then take the next frame.
    ReportAndNext,
}

/// What follows an attempt to send a frame.
///
/// A frame that could not be sent is lost to this channel and reported; in
/// either case the next frame is taken. No outcome ends the sending.
pub fn after_send(outcome: SendOutcome) -> (action: SinkAction)
    ensures
        outcome == SendOutcome::Sent ==> action == SinkAction::Next,
        outcome == SendOutcome::Failed ==> action == SinkAction::ReportAndNext,
{
    match outcome {
        SendOutcome::Sent => SinkAction::Next,
        SendOutcome::Failed => SinkAction::ReportAndNext,
    }
}

} // verus!
