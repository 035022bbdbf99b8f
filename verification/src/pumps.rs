//! Moving a body's frames into a channel: how far, and what the reader is told when
//! it ends early.
use vstd::prelude::*;

use crate::error::{CoreError, ErrorCode, ErrorView};
use crate::text::{append_decimal, decimal};

verus! {

/// How many bytes are read from a stream at once.
pub const PUMP_READ_BUF: usize = 65536;

/// What came of waiting for a body's next frame.
#[derive(Debug)]
pub enum FrameEvent {
    /// A frame of so many bytes of data.
    Data(usize),
    /// A frame that holds no data.
    NoData,
    /// The body is at its end.
    End,
    /// No frame came in time.
    TimedOut,
    /// The body is larger than a layer before this one allows.
    OverLimit,
    /// The body failed, in its own words.
    Failed(String),
}

/// What is done with it.
#[derive(Debug)]
pub enum PumpAction {
    /// Hand the data to the reader, and wait for the next frame; stop if the reader
    /// has gone.
    Forward,
    /// Drop the frame, and wait for the next one.
    Skip,
    /// Tell whoever answers the request that its body is too large, where somebody
    /// is waiting to hear it; tell the reader of the error; drop the frame, and wait
    /// for the next one.
    Overflow(CoreError),
    /// Tell the reader of the error, and stop.
    Abort(CoreError),
    /// Stop.
    Stop,
}

/// How far a body has been moved.
#[derive(Debug, Clone, Copy, PartialEq, Eq, Structural)]
pub struct Pump {
    /// The number of bytes that may be moved. `None` means any number.
    pub limit: Option<usize>,
    /// The bytes that came, as long as they were within the limit.
    pub total: usize,
    /// Whether more came. What comes then is read and dropped, so that the peer can
    /// finish sending instead of stalling.
    pub overflowed: bool,
}

/// What is said of a body that is larger than the limit.
pub open spec fn over_limit(limit: usize) -> ErrorView {
    (
        ErrorCode::BodyTooLarge,
        "body exceeded configured size limit of "@ + decimal(limit as nat) + " bytes"@,
    )
}

/// The bytes once more have come.
pub open spec fn grown(total: usize, len: usize) -> int {
    if total + len > usize::MAX {
        usize::MAX as int
    } else {
        total + len
    }
}

/// Whether so many more bytes are too many.
pub open spec fn exceeds(p: Pump, len: usize) -> bool {
    p.limit is Some && grown(p.total, len) > p.limit->Some_0
}

impl Pump {
    /// A pump that has moved nothing.
    pub fn new(limit: Option<usize>) -> (r: Self)
        ensures
            r == (Pump { limit, total: 0, overflowed: false }),
    {
        Pump { limit, total: 0, overflowed: false }
    }

    /// Decides what is done with what came.
    pub fn on_frame(&mut self, event: FrameEvent) -> (r: PumpAction)
        ensures
            match event {
                FrameEvent::End => r is Stop && *final(self) == *old(self),
                FrameEvent::TimedOut => {
                    &&& r matches PumpAction::Abort(e)
                    &&& e@ == (ErrorCode::Timeout, "body frame read timed out"@)
                    &&& *final(self) == *old(self)
                },
                FrameEvent::OverLimit => {
                    &&& r matches PumpAction::Abort(e)
                    &&& e@ == (ErrorCode::BodyTooLarge, "body exceeded configured size limit"@)
                    &&& *final(self) == *old(self)
                },
                FrameEvent::Failed(m) => {
                    &&& r matches PumpAction::Abort(e)
                    &&& e@ == (ErrorCode::Internal, "body stream error: "@ + m@)
                    &&& *final(self) == *old(self)
                },
                FrameEvent::NoData => r is Skip && *final(self) == *old(self),
                FrameEvent::Data(len) => {
                    &&& *final(self) == data_step(*old(self), len)
                    &&& if old(self).overflowed {
                        r is Skip
                    } else if exceeds(*old(self), len) {
                        r matches PumpAction::Overflow(e) && e@ == over_limit(
                            old(self).limit->Some_0,
                        )
                    } else {
                        r is Forward
                    }
                },
            },
    {
        match event {
            FrameEvent::End => PumpAction::Stop,
            FrameEvent::TimedOut => PumpAction::Abort(
                CoreError::timeout("body frame read timed out"),
            ),
            FrameEvent::OverLimit => PumpAction::Abort(
                CoreError::body_too_large("body exceeded configured size limit"),
            ),
            FrameEvent::Failed(m) => {
                let mut s: String = String::from_str("body stream error: ");
                s.append(&m);
                PumpAction::Abort(CoreError { code: ErrorCode::Internal, message: s })
            },
            FrameEvent::NoData => PumpAction::Skip,
            FrameEvent::Data(len) => {
                if self.overflowed {
                    return PumpAction::Skip;
                }
                self.total = self.total.saturating_add(len);
                if let Some(limit) = self.limit {
                    if self.total > limit {
                        self.overflowed = true;
                        let mut s: String = String::from_str(
                            "body exceeded configured size limit of ",
                        );
                        append_decimal(&mut s, limit as u64);
                        s.append(" bytes");
                        return PumpAction::Overflow(
                            CoreError { code: ErrorCode::BodyTooLarge, message: s },
                        );
                    }
                }
                PumpAction::Forward
            },
        }
    }
}

/// The pump after a frame of so many bytes.
pub open spec fn data_step(p: Pump, len: usize) -> Pump {
    if p.overflowed {
        p
    } else {
        Pump {
            total: grown(p.total, len) as usize,
            overflowed: exceeds(p, len),
            ..p
        }
    }
}

/// What became of a body: the bytes that were handed on, and how often somebody was
/// told that it is too large.
pub struct Moved {
    pub pump: Pump,
    pub forwarded: nat,
    pub overflows: nat,
}

/// What becomes of frames of these sizes, in this order.
pub open spec fn move_frames(limit: Option<usize>, lens: Seq<usize>) -> Moved
    decreases lens.len(),
{
    if lens.len() == 0 {
        Moved {
            pump: Pump { limit, total: 0, overflowed: false },
            forwarded: 0,
            overflows: 0,
        }
    } else {
        let m = move_frames(limit, lens.drop_last());
        let len = lens.last();
        Moved {
            pump: data_step(m.pump, len),
            forwarded: if m.pump.overflowed || exceeds(m.pump, len) {
                m.forwarded
            } else {
                m.forwarded + len as nat
            },
            overflows: if !m.pump.overflowed && exceeds(m.pump, len) {
                m.overflows + 1
            } else {
                m.overflows
            },
        }
    }
}

/// The size of all frames together.
pub open spec fn body_size(lens: Seq<usize>) -> nat
    decreases lens.len(),
{
    if lens.len() == 0 {
        0
    } else {
        body_size(lens.drop_last()) + lens.last() as nat
    }
}

/// Whatever frames come, no more bytes than the limit are handed on, and it is told
/// exactly once that the body is too large when it is, and never when it is not. A
/// body within the limit is handed on whole.
pub proof fn limit_holds(limit: usize, lens: Seq<usize>)
    requires
        limit < usize::MAX || body_size(lens) <= usize::MAX,
    ensures
        move_frames(Some(limit), lens).forwarded <= limit,
        body_size(lens) <= limit ==> move_frames(Some(limit), lens).forwarded == body_size(lens),
        move_frames(Some(limit), lens).overflows == if body_size(lens) > limit {
            1nat
        } else {
            0
        },
{
    limit_kept(limit, lens);
}

proof fn limit_kept(limit: usize, lens: Seq<usize>)
    requires
        limit < usize::MAX || body_size(lens) <= usize::MAX,
    ensures
        ({
            let m = move_frames(Some(limit), lens);
            &&& m.pump.limit == Some(limit)
            &&& m.forwarded <= limit
            &&& if m.pump.overflowed {
                m.overflows == 1 && body_size(lens) > limit
            } else {
                &&& m.overflows == 0
                &&& m.pump.total == body_size(lens)
                &&& m.forwarded == body_size(lens)
                &&& body_size(lens) <= limit
            }
        }),
    decreases lens.len(),
{
    if lens.len() > 0 {
        limit_kept(limit, lens.drop_last());
    }
}

/// Without a limit every frame is handed on.
pub proof fn nothing_is_lost(lens: Seq<usize>)
    ensures
        move_frames(None, lens).forwarded == body_size(lens),
        move_frames(None, lens).overflows == 0,
        !move_frames(None, lens).pump.overflowed,
        move_frames(None, lens).pump.limit is None,
    decreases lens.len(),
{
    if lens.len() > 0 {
        nothing_is_lost(lens.drop_last());
    }
}

/// Bytes add up, as far as they can be counted; they are too many exactly where there is a
/// limit and they are more than it.
pub proof fn bytes_add_up(p: Pump, len: usize)
    ensures
        p.total + len <= usize::MAX ==> grown(p.total, len) == p.total + len,
        p.total + len > usize::MAX ==> grown(p.total, len) == usize::MAX,
        p.limit is None ==> !exceeds(p, len),
        p.limit matches Some(n) ==> p.total + len <= usize::MAX ==> (exceeds(p, len) <==> p.total
            + len > n),
        !p.overflowed && p.total + len <= usize::MAX ==> data_step(p, len) == (Pump {
            limit: p.limit,
            total: (p.total + len) as usize,
            overflowed: p.limit is Some && p.total + len > p.limit->Some_0,
        }),
        p.overflowed ==> data_step(p, len) == p,
{
}

/// A body is as large as its frames together, and the error of one that is too large names
/// the limit.
pub proof fn bodies_have_their_size(lens: Seq<usize>, len: usize, limit: usize)
    ensures
        body_size(Seq::empty()) == 0,
        body_size(lens.push(len)) == body_size(lens) + len,
        over_limit(limit) == (
            ErrorCode::BodyTooLarge,
            "body exceeded configured size limit of "@ + decimal(limit as nat) + " bytes"@,
        ),
        PUMP_READ_BUF == 65536,
{
    assert(lens.push(len).drop_last() =~= lens);
}

} // verus!
