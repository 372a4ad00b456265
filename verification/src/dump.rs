//! Netlink dumps: what is received, and how often a dump is restarted.
//!
//! The frames of a dump are gathered until its end.  A first receive-buffer
//! overflow doubles the buffer; a second one for the same request ends the dump.
//! An interrupted dump is sent again, up to a bound.
use crate::error::{CollectError, TransportError};
use vstd::prelude::*;

verus! {

/// Most restarts of an interrupted dump before it is given up.
pub const MAX_DUMP_RESTARTS: u32 = 8;

/// What to do after a dump attempt.
#[derive(Debug)]
pub enum DumpStep {
    /// Send the request again.
    Retry,
    /// The dump is complete.
    Done(Vec<Vec<u8>>),
    /// Give up with this error.
    Fail(TransportError),
}

/// What a dump attempt returns.
pub type Reply = Result<Vec<Vec<u8>>, TransportError>;

/// The dump is sent again after `reply`: it was interrupted, and was not yet
/// restarted often enough.
pub open spec fn sent_again(reply: Reply, restarts: nat, max_restarts: nat) -> bool {
    reply == Err::<Vec<Vec<u8>>, TransportError>(TransportError::DumpIntr) && restarts
        < max_restarts
}

/// Counts the restarts of one dump.
#[derive(Debug)]
pub struct DumpRetry {
    restarts: u32,
    max_restarts: u32,
}

impl DumpRetry {
    /// Restarts so far.
    pub closed spec fn restarts(&self) -> nat {
        self.restarts as nat
    }

    /// Most restarts.
    pub closed spec fn max_restarts(&self) -> nat {
        self.max_restarts as nat
    }

    /// A policy that restarts a dump at most `max_restarts` times.
    pub fn new(max_restarts: u32) -> (r: Self)
        ensures
            r.restarts() == 0,
            r.max_restarts() == max_restarts,
    {
        DumpRetry { restarts: 0, max_restarts }
    }

    /// Decides what follows a dump attempt.
    ///
    /// A reply ends the dump, and so does any error but an interruption.  An
    /// interrupted dump is sent again until it was restarted often enough.
    pub fn step(&mut self, reply: Reply) -> (r: DumpStep)
        ensures
            final(self).max_restarts() == old(self).max_restarts(),
            r is Retry <==> sent_again(reply, old(self).restarts(), old(self).max_restarts()),
            if r is Retry {
                final(self).restarts() == old(self).restarts() + 1
            } else {
                *final(self) == *old(self)
            },
            match r {
                DumpStep::Retry => true,
                DumpStep::Done(frames) => reply == Ok::<Vec<Vec<u8>>, TransportError>(frames),
                DumpStep::Fail(e) => reply == Err::<Vec<Vec<u8>>, TransportError>(e),
            },
    {
        match reply {
            Ok(frames) => DumpStep::Done(frames),
            Err(TransportError::DumpIntr) => {
                if self.restarts < self.max_restarts {
                    self.restarts = self.restarts + 1;
                    DumpStep::Retry
                } else {
                    DumpStep::Fail(TransportError::DumpIntr)
                }
            },
            Err(e) => DumpStep::Fail(e),
        }
    }
}

/// Smallest receive buffer: 4 MiB.
pub const MIN_RCVBUF: usize = 0x40_0000;

/// What is received while a dump runs.
#[derive(Debug)]
pub enum DumpEvent {
    /// A frame of the reply.
    Frame(Vec<u8>),
    /// The end of the reply.
    Done,
    /// A header that marks the dump as interrupted (`NLM_F_DUMP_INTR`).
    Interrupted,
    /// A receive-buffer overflow (`ENOBUFS`).
    Overflow,
    /// An error frame, with its errno.
    Refused(i32),
}

/// What to do after an event.
#[derive(Debug)]
pub enum DumpAction {
    /// Receive more.
    Receive,
    /// Grow the receive buffer to this size, and receive more.
    Grow(usize),
    /// The dump is over.
    Finish(Reply),
}

/// How a dump ends.
pub enum DumpEnd {
    /// With these frames.
    Frames(Seq<Vec<u8>>),
    /// It was interrupted.
    Interrupted,
    /// The receive buffer overflowed again.
    Overflow,
    /// The kernel refused it.
    Refused(i32),
}

/// What follows an event.
pub enum DumpNext {
    /// More is received, in this state.
    Receive { frames: Seq<Vec<u8>>, overflowed: bool },
    /// The dump ends.
    End(DumpEnd),
}

/// What follows an event when `frames` were received before, and when
/// `overflowed` tells whether the buffer has overflowed before.
pub open spec fn after_event(
    event: DumpEvent,
    frames: Seq<Vec<u8>>,
    overflowed: bool,
) -> DumpNext {
    match event {
        DumpEvent::Frame(f) => DumpNext::Receive { frames: frames.push(f), overflowed },
        DumpEvent::Done => DumpNext::End(DumpEnd::Frames(frames)),
        DumpEvent::Interrupted => DumpNext::End(DumpEnd::Interrupted),
        DumpEvent::Overflow => if overflowed {
            DumpNext::End(DumpEnd::Overflow)
        } else {
            DumpNext::Receive { frames, overflowed: true }
        },
        DumpEvent::Refused(errno) => DumpNext::End(DumpEnd::Refused(errno)),
    }
}

/// How a dump ends that receives `events`, if it ends.
pub open spec fn dump_end(
    events: Seq<DumpEvent>,
    frames: Seq<Vec<u8>>,
    overflowed: bool,
) -> Option<DumpEnd>
    decreases events.len(),
{
    if events.len() == 0 {
        None
    } else {
        match after_event(events[0], frames, overflowed) {
            DumpNext::Receive { frames, overflowed } => dump_end(
                events.skip(1),
                frames,
                overflowed,
            ),
            DumpNext::End(end) => Some(end),
        }
    }
}

/// The reply stands for the end of a dump.
pub open spec fn replies_with(reply: Reply, end: DumpEnd) -> bool {
    match reply {
        Ok(frames) => end == DumpEnd::Frames(frames@),
        Err(TransportError::DumpIntr) => end is Interrupted,
        Err(TransportError::RecvBufOverflow) => end is Overflow,
        Err(TransportError::NlError { errno }) => end == DumpEnd::Refused(errno),
        Err(_) => false,
    }
}

/// Twice the size, but at most the largest.
pub open spec fn doubled(size: usize) -> usize {
    if size <= usize::MAX - size {
        (size + size) as usize
    } else {
        usize::MAX
    }
}

/// Gathers the frames of one dump.
#[derive(Debug)]
pub struct DumpReceiver {
    frames: Vec<Vec<u8>>,
    overflowed: bool,
    rcvbuf_size: usize,
}

impl DumpReceiver {
    /// Frames so far.
    pub closed spec fn frames(&self) -> Seq<Vec<u8>> {
        self.frames@
    }

    /// The buffer has overflowed.
    pub closed spec fn overflowed(&self) -> bool {
        self.overflowed
    }

    /// Size of the receive buffer.
    pub closed spec fn rcvbuf_size(&self) -> usize {
        self.rcvbuf_size
    }

    /// A receiver for a dump on a socket with a buffer of `rcvbuf_size` bytes.
    pub fn new(rcvbuf_size: usize) -> (r: Self)
        ensures
            r.frames() == Seq::<Vec<u8>>::empty(),
            !r.overflowed(),
            r.rcvbuf_size() == rcvbuf_size,
    {
        DumpReceiver { frames: Vec::new(), overflowed: false, rcvbuf_size }
    }

    /// Decides what follows an event.
    pub fn handle(&mut self, event: DumpEvent) -> (r: DumpAction)
        ensures
            match after_event(event, old(self).frames(), old(self).overflowed()) {
                DumpNext::Receive { frames, overflowed } => {
                    &&& final(self).frames() == frames
                    &&& final(self).overflowed() == overflowed
                    &&& r == if event is Overflow {
                        DumpAction::Grow(doubled(old(self).rcvbuf_size()))
                    } else {
                        DumpAction::Receive
                    }
                },
                DumpNext::End(end) => r matches DumpAction::Finish(reply) && replies_with(
                    reply,
                    end,
                ),
            },
            final(self).rcvbuf_size() == if r is Grow {
                doubled(old(self).rcvbuf_size())
            } else {
                old(self).rcvbuf_size()
            },
    {
        match event {
            DumpEvent::Frame(f) => {
                self.frames.push(f);
                DumpAction::Receive
            },
            DumpEvent::Done => {
                let mut frames: Vec<Vec<u8>> = Vec::new();
                std::mem::swap(&mut frames, &mut self.frames);
                DumpAction::Finish(Ok(frames))
            },
            DumpEvent::Interrupted => DumpAction::Finish(Err(TransportError::DumpIntr)),
            DumpEvent::Overflow => {
                if self.overflowed {
                    DumpAction::Finish(Err(TransportError::RecvBufOverflow))
                } else {
                    self.overflowed = true;
                    self.rcvbuf_size = self.rcvbuf_size.saturating_add(self.rcvbuf_size);
                    DumpAction::Grow(self.rcvbuf_size)
                }
            },
            DumpEvent::Refused(errno) => DumpAction::Finish(
                Err(TransportError::NlError { errno }),
            ),
        }
    }
}

/// The error that a failed dump becomes.
pub open spec fn collect_error(e: TransportError) -> CollectErrorView {
    match e {
        TransportError::DumpIntr => CollectErrorView::DumpIntr,
        TransportError::RecvBufOverflow => CollectErrorView::RecvBufOverflow,
        _ => CollectErrorView::Io(e.text()),
    }
}

/// The mathematical content of a collector error.
pub enum CollectErrorView {
    Unavailable(Seq<char>),
    DumpIntr,
    RecvBufOverflow,
    Parse(Seq<char>),
    Timeout(u64),
    Io(Seq<char>),
}

/// The view of a collector error.
pub open spec fn collect_error_view(e: CollectError) -> CollectErrorView {
    match e {
        CollectError::Unavailable { reason } => CollectErrorView::Unavailable(reason@),
        CollectError::DumpIntr => CollectErrorView::DumpIntr,
        CollectError::RecvBufOverflow => CollectErrorView::RecvBufOverflow,
        CollectError::Parse(message) => CollectErrorView::Parse(message@),
        CollectError::Timeout { millis } => CollectErrorView::Timeout(millis),
        CollectError::Io(message) => CollectErrorView::Io(message@),
    }
}

/// Maps a transport error to a collector error.
pub fn nl_err_to_collect(e: TransportError) -> (r: CollectError)
    ensures
        collect_error_view(r) == collect_error(e),
{
    match e {
        TransportError::DumpIntr => CollectError::DumpIntr,
        TransportError::RecvBufOverflow => CollectError::RecvBufOverflow,
        other => CollectError::Io(other.message()),
    }
}

// ---------------------------------------------------------------------------
// Laws
// ---------------------------------------------------------------------------

/// Number of requests that are sent from a state with `restarts` restarts on,
/// when `replies` are the further replies.  A reply beyond the end of the
/// sequence is no interruption.
pub open spec fn requests_sent(replies: Seq<Reply>, restarts: nat, max_restarts: nat) -> nat
    decreases replies.len(),
{
    if replies.len() > 0 && sent_again(replies[0], restarts, max_restarts) {
        1 + requests_sent(replies.skip(1), restarts + 1, max_restarts)
    } else {
        1
    }
}

/// However often a dump is interrupted, it is restarted at most `max_restarts`
/// times; and it is restarted that often when it is always interrupted.
pub proof fn law_bounded_requests(replies: Seq<Reply>, restarts: nat, max_restarts: nat)
    requires
        restarts <= max_restarts,
    ensures
        1 <= requests_sent(replies, restarts, max_restarts) <= 1 + max_restarts - restarts,
        replies.len() >= max_restarts - restarts && (forall|i: int|
            0 <= i < replies.len() ==> (#[trigger] replies[i]) == Err::<
                Vec<Vec<u8>>,
                TransportError,
            >(TransportError::DumpIntr)) ==> requests_sent(replies, restarts, max_restarts) == 1
            + max_restarts - restarts,
    decreases replies.len(),
{
    if replies.len() > 0 && sent_again(replies[0], restarts, max_restarts) {
        law_bounded_requests(replies.skip(1), restarts + 1, max_restarts);
    }
}

/// A dump that only sends frames loses none and keeps their order.
pub proof fn law_frames_gathered(frames: Seq<Vec<u8>>, earlier: Seq<Vec<u8>>, overflowed: bool)
    ensures
        dump_end(
            frames.map_values(|f: Vec<u8>| DumpEvent::Frame(f)).push(DumpEvent::Done),
            earlier,
            overflowed,
        ) == Some(DumpEnd::Frames(earlier + frames)),
    decreases frames.len(),
{
    let events = frames.map_values(|f: Vec<u8>| DumpEvent::Frame(f)).push(DumpEvent::Done);
    if frames.len() == 0 {
        assert(earlier + frames =~= earlier);
    } else {
        law_frames_gathered(frames.skip(1), earlier.push(frames[0]), overflowed);
        assert(events.skip(1) =~= frames.skip(1).map_values(
            |f: Vec<u8>| DumpEvent::Frame(f),
        ).push(DumpEvent::Done));
        assert(earlier.push(frames[0]) + frames.skip(1) =~= earlier + frames);
    }
}

/// Number of overflows among events.
pub open spec fn overflows(events: Seq<DumpEvent>) -> nat
    decreases events.len(),
{
    if events.len() == 0 {
        0
    } else {
        overflows(events.skip(1)) + if events[0] is Overflow {
            1nat
        } else {
            0nat
        }
    }
}

/// A single overflow is survived: without another one, no dump ends for it.
pub proof fn law_one_overflow_survived(
    events: Seq<DumpEvent>,
    frames: Seq<Vec<u8>>,
    overflowed: bool,
)
    requires
        overflows(events) + (if overflowed {
            1nat
        } else {
            0nat
        }) <= 1,
    ensures
        dump_end(events, frames, overflowed) != Some(DumpEnd::Overflow),
    decreases events.len(),
{
    if events.len() > 0 {
        match after_event(events[0], frames, overflowed) {
            DumpNext::Receive { frames: f, overflowed: o } => {
                law_one_overflow_survived(events.skip(1), f, o);
            },
            DumpNext::End(_) => {},
        }
    }
}

/// A dump ends with what ended it, whatever was gathered before and whatever
/// comes after: the frames so far, an interruption or a refusal.
pub proof fn law_end_decides(
    frames: Seq<Vec<u8>>,
    more: Seq<DumpEvent>,
    overflowed: bool,
    errno: i32,
)
    ensures
        dump_end(seq![DumpEvent::Done] + more, frames, overflowed) == Some(
            DumpEnd::Frames(frames),
        ),
        dump_end(seq![DumpEvent::Interrupted] + more, frames, overflowed) == Some(
            DumpEnd::Interrupted,
        ),
        dump_end(seq![DumpEvent::Refused(errno)] + more, frames, overflowed) == Some(
            DumpEnd::Refused(errno),
        ),
        dump_end(seq![DumpEvent::Overflow] + more, frames, true) == Some(DumpEnd::Overflow),
        dump_end(seq![], frames, overflowed) is None,
{
}

/// A first overflow loses nothing that was gathered, and a frame is added behind
/// the others.
pub proof fn law_gathering_goes_on(
    frames: Seq<Vec<u8>>,
    frame: Vec<u8>,
    more: Seq<DumpEvent>,
    overflowed: bool,
)
    ensures
        dump_end(seq![DumpEvent::Overflow] + more, frames, false) == dump_end(more, frames, true),
        dump_end(seq![DumpEvent::Frame(frame)] + more, frames, overflowed) == dump_end(
            more,
            frames.push(frame),
            overflowed,
        ),
{
    assert((seq![DumpEvent::Overflow] + more).skip(1) =~= more);
    assert((seq![DumpEvent::Frame(frame)] + more).skip(1) =~= more);
}

/// The buffer doubles, as far as it can be told.
pub proof fn law_buffer_doubles(size: usize)
    ensures
        2 * size <= usize::MAX ==> doubled(size) == 2 * size,
        2 * size > usize::MAX ==> doubled(size) == usize::MAX,
{
}

/// Only an interrupted dump is sent again, and only while restarts are left.
pub proof fn law_only_interruptions_sent_again(reply: Reply, restarts: nat, max_restarts: nat)
    ensures
        sent_again(reply, restarts, max_restarts) <==> reply == Err::<
            Vec<Vec<u8>>,
            TransportError,
        >(TransportError::DumpIntr) && restarts < max_restarts,
        restarts >= max_restarts ==> !sent_again(reply, restarts, max_restarts),
        reply is Ok ==> !sent_again(reply, restarts, max_restarts),
{
}

/// A reply tells how the dump ended: no two ends have the same reply, and the
/// frames of a reply are those that were gathered.
pub proof fn law_reply_tells_end(reply: Reply, first: DumpEnd, second: DumpEnd)
    requires
        replies_with(reply, first),
    ensures
        replies_with(reply, second) <==> first == second,
        reply matches Ok(frames) ==> first == DumpEnd::Frames(frames@),
        reply is Err ==> !(first is Frames),
{
}

/// An interruption and an overflow are passed on as what they are, and every
/// other failure with its own message.
pub proof fn law_failures_passed_on(e: TransportError)
    ensures
        e == TransportError::DumpIntr <==> collect_error(e) == CollectErrorView::DumpIntr,
        e == TransportError::RecvBufOverflow <==> collect_error(e)
            == CollectErrorView::RecvBufOverflow,
        e != TransportError::DumpIntr && e != TransportError::RecvBufOverflow ==> collect_error(e)
            == CollectErrorView::Io(e.text()),
{
}

} // verus!
