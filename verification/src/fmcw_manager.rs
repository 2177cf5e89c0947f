//! What the acquisition side decides: how reads are gathered into a batch,
//! what follows a read, and what is sent to configure the sensor.
//!
//! The serial ports themselves are driven elsewhere; here are the rules, on
//! plain values.

use vstd::prelude::*;
use vstd::string::*;
use vstd::utf8::encode_utf8;
use crate::file_reader::Config;
use crate::text::{chars_of, lines_of, next_line};

verus! {

/// The number of bytes asked for in one read of the data link.
pub const READ_SIZE: usize = 1024;

/// A batch is handed on once it holds more bytes than this.
pub const BATCH_LIMIT: usize = 2048;

/// Milliseconds to wait after a read that failed or brought nothing.
pub const IDLE_DELAY_MS: u64 = 100;

/// Milliseconds to wait after each command line sent to the sensor.
pub const COMMAND_GAP_MS: u64 = 10;

/// The bytes gathered from consecutive reads of the data link.
pub struct ReadBatch {
    bytes: Vec<u8>,
}

impl View for ReadBatch {
    type V = Seq<u8>;

    closed spec fn view(&self) -> Seq<u8> {
        self.bytes@
    }
}

impl ReadBatch {
    /// A batch with nothing in it.
    pub fn new() -> (batch: ReadBatch)
        ensures
            batch@ == Seq::<u8>::empty(),
    {
        ReadBatch { bytes: Vec::new() }
    }

    /// Adds what one read brought and says whether to read again.
    ///
    /// Reading goes on until a read brings nothing or the batch holds more
    /// than `BATCH_LIMIT` bytes.
    pub fn push_read(&mut self, data: &[u8]) -> (again: bool)
        ensures
            final(self)@ == old(self)@ + data@,
            again == (data@.len() > 0 && final(self)@.len() <= BATCH_LIMIT),
    {
        self.bytes.extend_from_slice(data);
        assert(self@ =~= old(self)@ + data@);
        data.len() > 0 && self.bytes.len() <= BATCH_LIMIT
    }

    /// The bytes of the batch, in the order in which they were read.
    pub fn into_bytes(self) -> (bytes: Vec<u8>)
        ensures
            bytes@ == self@,
    {
        self.bytes
    }
}

/// How an attempt to gather a batch from the data link ended.
pub enum ReadOutcome {
    /// The link reported an error.
    Failed,
    /// The link delivered these bytes, possibly none.
    Received(Vec<u8>),
}

/// What the acquisition side does next.
pub enum AcquireAction {
    /// Wait this many milliseconds, then read again.
    Wait { millis: u64 },
    /// Hand these bytes to the decoder, then read again.
    Forward(Vec<u8>),
}

/// What follows an attempt to read.
///
/// A failure and an empty read are both answered by waiting; bytes are handed
/// on as they came. Nothing ends the acquisition.
pub fn next_action(outcome: ReadOutcome) -> (action: AcquireAction)
    ensures
        match outcome {
            ReadOutcome::Failed => action == (AcquireAction::Wait { millis: IDLE_DELAY_MS }),
            ReadOutcome::Received(bytes) => if bytes@.len() == 0 {
                action == (AcquireAction::Wait { millis: IDLE_DELAY_MS })
            } else {
                action == AcquireAction::Forward(bytes)
            },
        },
{
    match outcome {
        ReadOutcome::Failed => AcquireAction::Wait { millis: IDLE_DELAY_MS },
        ReadOutcome::Received(bytes) => {
            if bytes.len() == 0 {
                AcquireAction::Wait { millis: IDLE_DELAY_MS }
            } else {
                AcquireAction::Forward(bytes)
            }
        },
    }
}

/// The bytes that send one line of the command script: the line in UTF-8 and
/// a line feed.
pub open spec fn command_bytes(line: Seq<char>) -> Seq<u8> {
    encode_utf8(line) + seq![0x0au8]
}

/// The byte strings that send a command script, one for each of its lines.
pub open spec fn commands_of(script: Seq<char>) -> Seq<Seq<u8>> {
    Seq::new(lines_of(script).len(), |i: int| command_bytes(lines_of(script)[i]))
}

/// The views of the byte strings in `commands`.
pub open spec fn command_views(commands: Seq<Vec<u8>>) -> Seq<Seq<u8>> {
    Seq::new(commands.len(), |i: int| commands[i]@)
}

/// What is to be written to the command link, line by line, to configure the sensor.
pub fn config_commands(config: &Config) -> (commands: Vec<Vec<u8>>)
    ensures
        command_views(commands@) == commands_of(config.raw_input@),
{
    let script: &str = config.raw_input.as_str();
    let chars: Vec<char> = chars_of(script);
    let mut commands: Vec<Vec<u8>> = Vec::new();
    let ghost mut done: Seq<Seq<char>> = Seq::empty();
    let mut pos: usize = 0;
    assert(chars@.skip(0) =~= script@);
    while pos < chars.len()
        invariant
            pos <= chars.len(),
            chars@ == script@,
            done + lines_of(chars@.skip(pos as int)) == lines_of(script@),
            commands@.len() == done.len(),
            forall|i: int| 0 <= i < done.len() ==> (#[trigger] commands@[i])@ == command_bytes(done[i]),
        decreases chars.len() - pos,
    {
        let (end, next) = next_line(&chars, pos);
        let ghost line = chars@.subrange(pos as int, end as int);
        let mut command: Vec<u8> = script.substring_char(pos, end).as_bytes_vec();
        command.push(0x0a);
        commands.push(command);
        proof {
            let rest = lines_of(chars@.skip(next as int));
            assert(done + (seq![line] + rest) =~= done.push(line) + rest);
            done = done.push(line);
        }
        pos = next;
    }
    proof {
        assert(lines_of(chars@.skip(pos as int)) =~= Seq::<Seq<char>>::empty());
        assert(done + Seq::<Seq<char>>::empty() =~= done);
        assert(command_views(commands@) =~= commands_of(script@));
    }
    commands
}

} // verus!
