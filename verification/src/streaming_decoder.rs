//! The decisions of a decoder that pulls a frame through a source piece by
//! piece.
//!
//! Such a decoder keeps what it has read from its source and the frame
//! decoder has not read yet. It starts a frame with
//! [`FrameDecoder::reset`](crate::frame_decoder::FrameDecoder::reset) and
//! serves every read with
//! [`FrameDecoder::decode_from_to`](crate::frame_decoder::FrameDecoder::decode_from_to);
//! after each of the two calls it asks here what comes next. Reading from
//! the source is left to it.

use vstd::prelude::*;
use crate::errors::{DecodeError, FrameDecoderError};

verus! {

/// What comes next after an attempt to start a frame.
#[derive(Debug, Copy, Clone, PartialEq, Eq, Structural)]
pub enum StartStep {
    /// The frame is started; its header ends at this position of what was
    /// given.
    Started(usize),
    /// The data ends within the frame header: more must be read from the
    /// source, and the frame started again.
    Fetch,
    /// The frame cannot be started.
    Failed(FrameDecoderError),
}

/// What comes next after an attempt to serve a read.
#[derive(Debug, Copy, Clone, PartialEq, Eq, Structural)]
pub enum ReadStep {
    /// This many bytes have been written to the target: the read is
    /// served.
    Deliver(usize),
    /// The frame is decoded and all of its output has been handed out:
    /// the read is served with nothing.
    End,
    /// The decoder has read data but has no output yet: it is asked again
    /// with what is left of the data.
    Again,
    /// The decoder can do nothing with the data it has: more must be read
    /// from the source.
    Fetch,
    /// The decoder can do nothing with the data it has, and the source has
    /// no more: the source ended within the frame.
    SourceEnded,
}

/// What comes next after `reset` has answered `outcome`, given whether the
/// source has ended.
pub open spec fn spec_start_step(outcome: Result<usize, FrameDecoderError>, source_ended: bool) -> StartStep {
    match outcome {
        Ok(behind_header) => StartStep::Started(behind_header),
        Err(e) => if e == FrameDecoderError::FailedToInitialize(DecodeError::ShortInput)
            && !source_ended {
            StartStep::Fetch
        } else {
            StartStep::Failed(e)
        },
    }
}

/// What comes next after `decode_from_to` has read `read` bytes and written
/// `written` bytes, given whether the frame is decoded and whether the
/// source has ended. Output is handed out as soon as there is some; the
/// source is asked only when the decoder cannot go on without it.
pub open spec fn spec_read_step(read: usize, written: usize, finished: bool, source_ended: bool) -> ReadStep {
    if written > 0 {
        ReadStep::Deliver(written)
    } else if finished {
        ReadStep::End
    } else if read > 0 {
        ReadStep::Again
    } else if source_ended {
        ReadStep::SourceEnded
    } else {
        ReadStep::Fetch
    }
}

/// Decides what comes next after an attempt to start a frame, as
/// [`spec_start_step`] describes.
pub fn start_step(outcome: Result<usize, FrameDecoderError>, source_ended: bool) -> (res: StartStep)
    ensures
        res == spec_start_step(outcome, source_ended),
{
    match outcome {
        Ok(behind_header) => StartStep::Started(behind_header),
        Err(e) => {
            let short: bool = match e {
                FrameDecoderError::FailedToInitialize(cause) => match cause {
                    DecodeError::ShortInput => true,
                    _ => false,
                },
                _ => false,
            };
            if short && !source_ended {
                StartStep::Fetch
            } else {
                StartStep::Failed(e)
            }
        },
    }
}

/// Decides what comes next after an attempt to serve a read, as
/// [`spec_read_step`] describes.
pub fn read_step(read: usize, written: usize, finished: bool, source_ended: bool) -> (res: ReadStep)
    ensures
        res == spec_read_step(read, written, finished, source_ended),
{
    if written > 0 {
        ReadStep::Deliver(written)
    } else if finished {
        ReadStep::End
    } else if read > 0 {
        ReadStep::Again
    } else if source_ended {
        ReadStep::SourceEnded
    } else {
        ReadStep::Fetch
    }
}

} // verus!
