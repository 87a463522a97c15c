//! The session: it issues commands, buffers what the transport delivers,
//! drives the parser over the buffer and resyncs once per fill on bytes
//! that begin no response.
//!
//! What a session has done is told by its view: the bytes that wait in
//! its buffer, and records that only grow, of the commands it issued
//! with what the transport made of each, of what each read came to, of
//! the bytes delivered and of the responses handed out. What went over
//! the transport is noted where the transport is called and nowhere
//! else (`link`). Given that record, what every operation returns is
//! told exactly: `wait_spec` says what a wait comes to over its reads.

use crate::command::Command;
use crate::error::{Error, ResponseKind, Result};
use crate::flags::{BaudRate, TriggerMode};
use crate::io_adapter::IoAdapter;
use crate::link::{Issued, Link};
use crate::parser::{align_response, align_spec, lemma_align_offset, starts_response};
use crate::response::{result_view, Frame, Response, ResponseView, MAX_PACKET_SIZE};
use crate::stream::{
    lemma_tracks_growth, lemma_tracks_poll, lemma_wait_goes_on, lemma_wait_of_one_read,
    lemma_waiting_moves_on, poll_bytes, poll_spec, still_waiting, tracks, wait_spec, wait_step,
    Poll, PollView, WaitStep,
};
use crate::version_details::VersionDetails;
use vstd::prelude::*;
use vstd::slice::*;

verus! {

/// Size of the read buffer: two of the largest response, so that a
/// misaligned beginning and a whole response behind it fit together.
pub const READ_BUF_SIZE: usize = MAX_PACKET_SIZE + MAX_PACKET_SIZE;

/// A session as a mathematical value.
pub struct SessionView {
    /// The bytes that were read and not yet consumed.
    pub pending: Seq<u8>,
    /// Whether a resync was tried since bytes were last read.
    pub aligned: bool,
    /// Whether a frame with a wrong checksum is refused.
    pub crc_enforced: bool,
    /// How many frames with a wrong checksum were seen, as far as the
    /// counter reaches.
    pub crc_mismatches: usize,
    /// The commands handed to the transport so far, oldest first.
    pub issued: Seq<Issued>,
    /// What each read made so far came to, oldest first: the bytes it
    /// delivered, or its failure.
    pub reads: Seq<Result<Seq<u8>>>,
    /// The bytes that the transport delivered so far, oldest first.
    pub delivered: Seq<u8>,
    /// The responses handed out so far, oldest first.
    pub received: Seq<ResponseView>,
}

impl SessionView {
    /// This state with `pending` in its buffer and with the given mark.
    pub open spec fn with_buffer(self, pending: Seq<u8>, aligned: bool) -> SessionView {
        SessionView { pending, aligned, ..self }
    }

    /// This state with one more command issued.
    pub open spec fn with_issued(self, command: Command, outcome: Result<()>) -> SessionView {
        SessionView { issued: self.issued.push(Issued { command, outcome }), ..self }
    }

    /// This state without the command that was issued last.
    pub open spec fn before_last_issue(self) -> SessionView {
        SessionView { issued: self.issued.drop_last(), ..self }
    }

    /// Whether `later` may come after this state: nothing that was issued,
    /// delivered or received is taken back.
    pub open spec fn precedes(self, later: SessionView) -> bool {
        &&& self.issued.len() <= later.issued.len()
        &&& later.issued.subrange(0, self.issued.len() as int) == self.issued
        &&& self.reads.len() <= later.reads.len()
        &&& later.reads.subrange(0, self.reads.len() as int) == self.reads
        &&& self.delivered.len() <= later.delivered.len()
        &&& later.delivered.subrange(0, self.delivered.len() as int) == self.delivered
        &&& self.received.len() <= later.received.len()
        &&& later.received.subrange(0, self.received.len() as int) == self.received
    }

    /// The bytes that the transport delivered between this state and
    /// `later`.
    pub open spec fn delivered_until(self, later: SessionView) -> Seq<u8> {
        later.delivered.subrange(self.delivered.len() as int, later.delivered.len() as int)
    }

    /// What the reads made between this state and `later` came to.
    pub open spec fn reads_until(self, later: SessionView) -> Seq<Result<Seq<u8>>> {
        later.reads.subrange(self.reads.len() as int, later.reads.len() as int)
    }

    /// The commands issued between this state and `later`.
    pub open spec fn issued_until(self, later: SessionView) -> Seq<Issued> {
        later.issued.subrange(self.issued.len() as int, later.issued.len() as int)
    }

    /// The responses handed out between this state and `later`.
    pub open spec fn received_until(self, later: SessionView) -> Seq<ResponseView> {
        later.received.subrange(self.received.len() as int, later.received.len() as int)
    }

    /// Everything that the session had to look at between this state and
    /// `later`: what waited in its buffer, and what was delivered since.
    pub open spec fn stream_until(self, later: SessionView) -> Seq<u8> {
        self.pending + self.delivered_until(later)
    }

    /// Whether, between this state and `later`, exactly `response` was
    /// handed out, and is what one look at everything the session had to
    /// look at gives, with what follows the response left in the buffer.
    pub open spec fn answered_by(self, later: SessionView, response: ResponseView) -> bool {
        &&& self.received_until(later) == seq![response]
        &&& poll_spec(self.stream_until(later), false) matches PollView::Ready {
            response: found,
            checksum_ok,
            rest,
            ..
        }
        &&& found == response
        &&& rest == later.pending
        &&& (checksum_ok || !later.crc_enforced)
    }

    /// What the wait that lies between this state and `later` came to,
    /// as `wait_spec` tells it from what waited here and from what the
    /// reads made since came to.
    pub open spec fn waited(self, later: SessionView) -> Option<Result<ResponseView>> {
        wait_spec(self.pending, self.crc_enforced, self.reads_until(later))
    }

    /// What a wait for a frame that lies between this state and `later`
    /// came to: what the wait came to, with a response that is no frame
    /// turned into the error that names its kind.
    pub open spec fn frame_awaited(self, later: SessionView) -> Option<Result<ResponseView>> {
        match self.waited(later) {
            Some(Ok(response)) => Some(expect_kind(response, ResponseKind::SingleReading)),
            other => other,
        }
    }

    /// What a request for a response of kind `wanted` that lies between
    /// this state and `later` came to: the failure of the write where the
    /// transport refused the command, after which nothing is read; else
    /// what the wait came to, with a response of another kind than
    /// `wanted` turned into the error that names its kind. `None` marks
    /// states between which no one whole request lies.
    pub open spec fn requested(
        self,
        later: SessionView,
        wanted: ResponseKind,
    ) -> Option<Result<ResponseView>> {
        match self.issued_until(later)[0].outcome {
            Err(e) => if self.reads_until(later).len() == 0 {
                Some(Err(e))
            } else {
                None
            },
            Ok(_) => match self.waited(later) {
                Some(Ok(response)) => Some(expect_kind(response, wanted)),
                other => other,
            },
        }
    }

    /// Whether, between this state and `later`, exactly one command was
    /// issued, and that one is `command`.
    pub open spec fn asked(self, later: SessionView, command: Command) -> bool {
        self.issued_until(later).len() == 1 && self.issued_until(later)[0].command == command
    }

    /// What a request for a response of kind `wanted` that failed with
    /// `error` left behind: either no response was handed out, or one of
    /// another kind was taken out of the stream, and the error names that
    /// kind.
    pub open spec fn failed_with(
        self,
        later: SessionView,
        wanted: ResponseKind,
        error: Error,
    ) -> bool {
        ||| self.received_until(later).len() == 0
        ||| {
            &&& self.answered_by(later, self.received_until(later)[0])
            &&& self.received_until(later)[0].kind() != wanted
            &&& error == Error::UnexpectedResponse(self.received_until(later)[0].kind())
        }
    }

    /// Whether, between this state and `later`, the frames `frames[from..]`
    /// were handed out, in their order, and nothing else.
    pub open spec fn received_frames(
        self,
        later: SessionView,
        frames: Seq<Frame>,
        from: int,
    ) -> bool {
        &&& self.received_until(later).len() == frames.len() - from
        &&& forall|i: int|
            from <= i < frames.len() ==> self.received_until(later)[i - from]
                == ResponseView::SingleReading((#[trigger] frames[i])@)
    }

    /// Whether `trail` is the way of a session through the frames
    /// `frames[from..]`: one state more than frames, and between each
    /// state and the next lies one wait that came to a frame, the frame
    /// that one look at what waited and what was delivered between the
    /// two gives.
    pub open spec fn frames_in_turn(
        trail: Seq<SessionView>,
        frames: Seq<Frame>,
        from: int,
    ) -> bool {
        &&& trail.len() == frames.len() - from + 1
        &&& forall|i: int|
            0 <= i < frames.len() - from ==> (#[trigger] trail[i]).answered_by(
                trail[i + 1],
                ResponseView::SingleReading(frames[from + i]@),
            ) && trail[i].frame_awaited(trail[i + 1]) == Some(
                Ok::<ResponseView, Error>(ResponseView::SingleReading(frames[from + i]@)),
            )
    }

    /// Whether `trail` leads from this state to `later` as a collecting
    /// of frames that came to `outcome` does: it begins here; where all
    /// went well it ends at `later`; where the collecting failed, a last
    /// wait lies between its end and `later`, one that handed out no
    /// frame and came to the error of `outcome`.
    pub open spec fn collected_along(
        self,
        trail: Seq<SessionView>,
        later: SessionView,
        frames: Seq<Frame>,
        from: int,
        outcome: Result<()>,
    ) -> bool {
        &&& Self::frames_in_turn(trail, frames, from)
        &&& trail[0] == self
        &&& match outcome {
            Ok(()) => trail.last() == later,
            Err(e) => trail.last().precedes(later) && trail.last().failed_with(
                later,
                ResponseKind::SingleReading,
                e,
            ) && trail.last().frame_awaited(later) == Some(Err::<ResponseView, Error>(e)),
        }
    }

    /// Whether, between this state and `later`, the frames `frames[from..]`
    /// and no others were taken out of the stream, each by a wait of its
    /// own and in their order, and the collecting came to `outcome`.
    pub open spec fn collected(
        self,
        later: SessionView,
        frames: Seq<Frame>,
        from: int,
        outcome: Result<()>,
    ) -> bool {
        exists|trail: Seq<SessionView>| #[trigger]
            self.collected_along(trail, later, frames, from, outcome)
    }

    /// Whether a continuous read lies between this state and `later`:
    /// two commands were issued, first a `ContinuousRead`, then a
    /// `PauseRead`.
    pub open spec fn streamed(self, later: SessionView) -> bool {
        &&& self.issued_until(later).len() == 2
        &&& self.issued_until(later)[0].command == Command::ContinuousRead
        &&& self.issued_until(later)[1].command == Command::PauseRead
    }

    /// The state in which the continuous read that lies between this
    /// state and `later` began: this state with the `ContinuousRead`
    /// issued, and with what the transport made of it.
    pub open spec fn stream_begun(self, later: SessionView) -> SessionView {
        self.with_issued(Command::ContinuousRead, self.issued_until(later)[0].outcome)
    }

    /// Whether the transport took the `ContinuousRead` of the continuous
    /// read that lies between this state and `later`.
    pub open spec fn stream_started(self, later: SessionView) -> bool {
        self.issued_until(later)[0].accepted()
    }

    /// Whether the transport took the `PauseRead` of the continuous read
    /// that lies between this state and `later`.
    pub open spec fn stream_paused(self, later: SessionView) -> bool {
        self.issued_until(later)[1].accepted()
    }
}

/// The response where it is of kind `wanted`, and else the error that
/// names the kind it is of.
pub open spec fn expect_kind(response: ResponseView, wanted: ResponseKind) -> Result<
    ResponseView,
> {
    if response.kind() == wanted {
        Ok(response)
    } else {
        Err(Error::UnexpectedResponse(response.kind()))
    }
}

/// Every state may come after itself, with nothing between.
pub proof fn lemma_precedes_itself(state: SessionView)
    ensures
        state.precedes(state),
        state.issued_until(state) == Seq::<Issued>::empty(),
        state.reads_until(state) == Seq::<Result<Seq<u8>>>::empty(),
        state.delivered_until(state) == Seq::<u8>::empty(),
        state.received_until(state) == Seq::<ResponseView>::empty(),
        state.stream_until(state) == state.pending,
{
    assert(state.issued.subrange(0, state.issued.len() as int) =~= state.issued);
    assert(state.reads.subrange(0, state.reads.len() as int) =~= state.reads);
    assert(state.delivered.subrange(0, state.delivered.len() as int) =~= state.delivered);
    assert(state.received.subrange(0, state.received.len() as int) =~= state.received);
    assert(state.stream_until(state) =~= state.pending);
}

/// What lies between a first state and a third is what lies between the
/// first and a second, and then what lies between the second and the
/// third.
pub proof fn lemma_precedes_chain(first: SessionView, second: SessionView, third: SessionView)
    requires
        first.precedes(second),
        second.precedes(third),
    ensures
        first.precedes(third),
        first.issued_until(third) == first.issued_until(second) + second.issued_until(third),
        first.reads_until(third) == first.reads_until(second) + second.reads_until(third),
        first.delivered_until(third) == first.delivered_until(second) + second.delivered_until(
            third,
        ),
        first.received_until(third) == first.received_until(second) + second.received_until(
            third,
        ),
{
    assert(third.issued.subrange(0, first.issued.len() as int) =~= second.issued.subrange(
        0,
        first.issued.len() as int,
    ));
    assert(third.reads.subrange(0, first.reads.len() as int) =~= second.reads.subrange(
        0,
        first.reads.len() as int,
    ));
    assert(first.reads_until(third) =~= first.reads_until(second) + second.reads_until(third));
    assert(third.delivered.subrange(0, first.delivered.len() as int)
        =~= second.delivered.subrange(0, first.delivered.len() as int));
    assert(third.received.subrange(0, first.received.len() as int) =~= second.received.subrange(
        0,
        first.received.len() as int,
    ));
    assert(first.issued_until(third) =~= first.issued_until(second) + second.issued_until(
        third,
    ));
    assert(first.delivered_until(third) =~= first.delivered_until(second)
        + second.delivered_until(third));
    assert(first.received_until(third) =~= first.received_until(second)
        + second.received_until(third));
}

/// What is owed to the caller when a continuous read ends: the failure
/// to pause where there was one, for it leaves the sensor streaming;
/// else what the streaming itself came to.
pub open spec fn close_stream_spec(streamed: Result<()>, paused: Result<()>) -> Result<()> {
    match paused {
        Err(e) => Err(e),
        Ok(()) => streamed,
    }
}

/// What is owed to the caller when a continuous read ends: the failure
/// to pause where there was one, for it leaves the sensor streaming;
/// else what the streaming itself came to.
pub fn close_stream(streamed: Result<()>, paused: Result<()>) -> (r: Result<()>)
    ensures
        r == close_stream_spec(streamed, paused),
{
    match paused {
        Err(e) => Err(e),
        Ok(()) => streamed,
    }
}

/// A session with one sensor over one transport.
pub struct CCD<IO: IoAdapter> {
    // The transport, with the record of what went over it
    link: Link<IO>,
    // Read buffer
    buf: [u8; READ_BUF_SIZE],
    // Points to the top of buffer
    top: usize,
    // Keeps track if buffer was aligned after latest buffer read
    aligned: bool,
    // Whether a frame with a wrong checksum is refused
    crc_enforced: bool,
    // Frames with a wrong checksum seen so far
    crc_mismatches: usize,
    received: Ghost<Seq<ResponseView>>,
}

impl<IO: IoAdapter> View for CCD<IO> {
    type V = SessionView;

    closed spec fn view(&self) -> SessionView {
        SessionView {
            pending: self.buf@.subrange(0, self.top as int),
            aligned: self.aligned,
            crc_enforced: self.crc_enforced,
            crc_mismatches: self.crc_mismatches,
            issued: self.link@.issued,
            reads: self.link@.reads,
            delivered: self.link@.delivered,
            received: self.received@,
        }
    }
}

impl<IO: IoAdapter> CCD<IO> {
    /// The buffer's top lies inside the buffer. Every session that `new`
    /// made is well formed, and every operation keeps it so.
    pub closed spec fn wf(&self) -> bool {
        self.top <= READ_BUF_SIZE
    }

    /// A session over `io` with an empty buffer. Frames with a wrong
    /// checksum are counted and accepted.
    pub fn new(io: IO) -> (ccd: Self)
        ensures
            ccd.wf(),
            ccd@ == (SessionView {
                pending: Seq::empty(),
                aligned: false,
                crc_enforced: false,
                crc_mismatches: 0,
                issued: Seq::empty(),
                reads: Seq::empty(),
                delivered: Seq::empty(),
                received: Seq::empty(),
            }),
    {
        let ccd = CCD {
            link: Link::new(io),
            buf: [0; READ_BUF_SIZE],
            top: 0,
            aligned: false,
            crc_enforced: false,
            crc_mismatches: 0,
            received: Ghost(Seq::empty()),
        };
        assert(ccd@.pending =~= Seq::<u8>::empty());
        ccd
    }

    /// Drops every byte that waits in the buffer. This is the way out
    /// for a caller whose buffer is full, or begins with bytes that are
    /// no response.
    pub fn clear_buffer(&mut self)
        ensures
            final(self).wf(),
            final(self)@ == old(self)@.with_buffer(Seq::empty(), false),
    {
        self.top = 0;
        self.aligned = false;
        assert(self@.pending =~= Seq::<u8>::empty());
    }

    /// How many bytes wait in the buffer.
    pub fn pending_len(&self) -> (n: usize)
        requires
            self.wf(),
        ensures
            n == self@.pending.len(),
            n <= READ_BUF_SIZE,
    {
        self.top
    }

    /// Whether a frame with a wrong checksum is refused.
    pub fn crc_enforced(&self) -> (b: bool)
        ensures
            b == self@.crc_enforced,
    {
        self.crc_enforced
    }

    /// Chooses what happens to a frame with a wrong checksum: with
    /// `enforce` it is dropped and reported as `InvalidData`, without it
    /// the frame is counted and handed out.
    pub fn set_crc_enforced(&mut self, enforce: bool)
        ensures
            final(self).wf() == old(self).wf(),
            final(self)@ == (SessionView { crc_enforced: enforce, ..old(self)@ }),
    {
        self.crc_enforced = enforce;
    }

    /// How many frames with a wrong checksum were seen. The counter stops
    /// at the largest number it can hold.
    pub fn crc_mismatches(&self) -> (n: usize)
        ensures
            n == self@.crc_mismatches,
    {
        self.crc_mismatches
    }

    /// Drops the first `count` bytes of the buffer and moves the rest to
    /// its front.
    fn drain_front(&mut self, count: usize)
        requires
            old(self).wf(),
            count <= old(self)@.pending.len(),
        ensures
            final(self).wf(),
            final(self)@ == old(self)@.with_buffer(
                old(self)@.pending.subrange(count as int, old(self)@.pending.len() as int),
                old(self)@.aligned,
            ),
    {
        if count == 0 {
            assert(self@.pending.subrange(0, self@.pending.len() as int) =~= self@.pending);
            return ;
        }
        let kept: usize = self.top - count;
        let mut i: usize = 0;
        while i < kept
            invariant
                i <= kept,
                kept + count == self.top,
                self.top <= READ_BUF_SIZE,
                self.top == old(self).top,
                self.aligned == old(self).aligned,
                self.crc_enforced == old(self).crc_enforced,
                self.crc_mismatches == old(self).crc_mismatches,
                self.link@ == old(self).link@,
                self.received == old(self).received,
                forall|j: int| 0 <= j < i ==> self.buf@[j] == old(self).buf@[j + count],
                forall|j: int| i <= j < READ_BUF_SIZE ==> self.buf@[j] == old(self).buf@[j],
            decreases kept - i,
        {
            self.buf[i] = self.buf[i + count];
            i += 1;
        }
        self.top = kept;
        assert(self@.pending =~= old(self)@.pending.subrange(
            count as int,
            old(self)@.pending.len() as int,
        ));
    }

    /// Reads once from the transport into the free part of the buffer.
    ///
    /// What the transport delivered stands behind the bytes that waited
    /// before, and is noted behind what was delivered before. The resync
    /// mark is cleared. A failed read delivers nothing; a count above the
    /// space that was offered is a failed read, refused as `InvalidData`.
    pub fn fill_buffer(&mut self) -> (r: Result<()>)
        requires
            old(self).wf(),
        ensures
            final(self).wf(),
            old(self)@.precedes(final(self)@),
            final(self)@ == (SessionView {
                pending: old(self)@.stream_until(final(self)@),
                aligned: false,
                reads: final(self)@.reads,
                delivered: final(self)@.delivered,
                ..old(self)@
            }),
            old(self)@.reads_until(final(self)@) == seq![
                if r is Ok {
                    Ok::<Seq<u8>, Error>(old(self)@.delivered_until(final(self)@))
                } else {
                    Err::<Seq<u8>, Error>(r->Err_0)
                },
            ],
            r is Err ==> final(self)@.delivered == old(self)@.delivered,
    {
        self.aligned = false;
        let top = self.top;
        let (used, free) = self.buf.split_at_mut(top);
        let ghost before = self.link@.delivered;
        let ghost reads_before = self.link@.reads;
        let outcome = self.link.read(free);
        let ghost read_into = free@;
        let r = match outcome {
            Ok(read_bytes) => {
                self.top = top + read_bytes;
                Ok(())
            },
            Err(e) => Err(e),
        };
        proof {
            let fresh = old(self)@.delivered_until(self@);
            let count = self.top - top;
            assert(self.buf@.len() == READ_BUF_SIZE);
            assert(used@.len() == top);
            assert(self.buf@ == used@ + read_into);
            assert(read_into.len() == READ_BUF_SIZE - top);
            assert(self.buf@.subrange(0, top as int) =~= old(self)@.pending);
            if r is Ok {
                let came = read_into.subrange(0, count);
                assert(self@.delivered == before + came);
                assert(fresh =~= came);
                assert(self.buf@.subrange(top as int, self.top as int) =~= came);
            } else {
                assert(fresh =~= Seq::<u8>::empty());
            }
            assert(self@.delivered.subrange(0, before.len() as int) =~= before);
            assert(self@.reads.subrange(0, reads_before.len() as int) =~= reads_before);
            assert(old(self)@.reads_until(self@) =~= seq![self@.reads.last()]);
            assert(self@.issued.subrange(0, self@.issued.len() as int) =~= self@.issued);
            assert(self@.received.subrange(0, self@.received.len() as int) =~= self@.received);
            assert(self@.pending =~= old(self)@.pending + fresh);
        }
        r
    }

    /// Tries to align data in the read buffer to the beginning of a
    /// response: where one can begin somewhere in the buffer, the bytes
    /// before that place are dropped and the resync mark is set. Where
    /// none can, nothing changes.
    pub fn align_buffer(&mut self)
        requires
            old(self).wf(),
        ensures
            final(self).wf(),
            final(self)@ == match align_spec(old(self)@.pending) {
                Some(suffix) => old(self)@.with_buffer(suffix, true),
                None => old(self)@,
            },
    {
        let top = self.top;
        let kept = match align_response(slice_subrange(self.buf.as_slice(), 0, top)) {
            Some(tail) => tail.len(),
            None => {
                return ;
            },
        };
        proof {
            lemma_align_offset(old(self)@.pending, 0);
        }
        self.drain_front(top - kept);
        self.aligned = true;
    }

    /// Hands the five bytes of `cmd` to the transport. The command is
    /// noted, with the result of the write, behind those issued before,
    /// and that result is handed back as it came.
    pub fn send_package(&mut self, cmd: Command) -> (r: Result<()>)
        requires
            old(self).wf(),
        ensures
            final(self).wf(),
            final(self)@ == old(self)@.with_issued(cmd, r),
    {
        self.link.send(cmd)
    }

    /// Looks once at the buffer, as `poll_spec` says: takes a complete
    /// response off its front, or waits, or resyncs once and looks again.
    pub fn poll_buffer(&mut self) -> (r: Poll)
        requires
            old(self).wf(),
        ensures
            final(self).wf(),
            match poll_spec(old(self)@.pending, old(self)@.aligned) {
                PollView::Ready { response, checksum_ok, rest, aligned } => r matches Poll::Ready {
                    response: found,
                    checksum_ok: ok,
                } && found@ == response && ok == checksum_ok
                    && final(self)@ == old(self)@.with_buffer(rest, aligned),
                PollView::Pending { pending, aligned } => r is Pending
                    && final(self)@ == old(self)@.with_buffer(pending, aligned),
                PollView::Failed { pending } => r is Failed
                    && final(self)@ == old(self)@.with_buffer(pending, true),
            },
    {
        let step = poll_bytes(slice_subrange(self.buf.as_slice(), 0, self.top), self.aligned);
        self.drain_front(step.consumed);
        self.aligned = step.aligned;
        step.outcome
    }

    /// Waits for one response: reads, looks at the buffer, and reads
    /// again while the look says that more bytes are needed.
    ///
    /// A read that brings no byte while the buffer still lacks the rest
    /// of a response ends the wait with `UnexpectedEop`, so the wait
    /// cannot outlast a full buffer or a closed stream. Bytes that begin
    /// no response after a resync end it with `InvalidData`, and so does
    /// a frame with a wrong checksum where the checksum is enforced. What
    /// the transport reports is passed on.
    ///
    /// The response that is handed out is the one that a single look at
    /// everything that waited and came gives: in whatever pieces the
    /// transport delivers a stream, the same response comes out of it,
    /// and what follows the response waits in the buffer.
    pub fn receive_package(&mut self) -> (r: Result<Response>)
        requires
            old(self).wf(),
        ensures
            final(self).wf(),
            old(self)@.precedes(final(self)@),
            final(self)@.issued == old(self)@.issued,
            final(self)@.crc_enforced == old(self)@.crc_enforced,
            final(self)@.crc_mismatches == old(self)@.crc_mismatches || final(self)@.crc_mismatches
                == old(self)@.crc_mismatches + 1,
            old(self)@.waited(final(self)@) == Some(result_view(r)),
            r is Err ==> final(self)@.received == old(self)@.received,
            r matches Ok(response) ==> old(self)@.answered_by(final(self)@, response@),
    {
        proof {
            lemma_precedes_itself(self@);
        }
        loop
            invariant
                self.wf(),
                old(self)@.precedes(self@),
                self@.issued == old(self)@.issued,
                self@.received == old(self)@.received,
                self@.crc_enforced == old(self)@.crc_enforced,
                self@.crc_mismatches == old(self)@.crc_mismatches,
                tracks(old(self)@.stream_until(self@), self@.pending),
                still_waiting(
                    old(self)@.pending,
                    old(self)@.crc_enforced,
                    old(self)@.reads_until(self@),
                    old(self)@.stream_until(self@),
                ),
            decreases
                    (if starts_response(self@.pending, 0) {
                        0int
                    } else {
                        1int
                    }),
                    READ_BUF_SIZE - self@.pending.len(),
        {
            let ghost at_entry = self@;
            let before = self.top;
            let filled = self.fill_buffer();
            let ghost after_fill = self@;
            let ghost stream = old(self)@.stream_until(after_fill);
            let ghost fresh = at_entry.delivered_until(after_fill);
            let ghost read = at_entry.reads_until(after_fill)[0];
            proof {
                lemma_precedes_chain(old(self)@, at_entry, after_fill);
                assert(old(self)@.reads_until(after_fill) =~= old(self)@.reads_until(
                    at_entry,
                ).push(read));
                assert(stream =~= old(self)@.stream_until(at_entry) + fresh);
                lemma_wait_goes_on(
                    old(self)@.pending,
                    old(self)@.crc_enforced,
                    old(self)@.reads_until(at_entry),
                    old(self)@.stream_until(at_entry),
                    read,
                );
                lemma_wait_of_one_read(
                    old(self)@.stream_until(at_entry),
                    old(self)@.crc_enforced,
                    read,
                );
            }
            match filled {
                Ok(()) => {},
                Err(e) => {
                    return Err(e);
                },
            }
            let grew = self.top > before;
            proof {
                lemma_tracks_growth(old(self)@.stream_until(at_entry), at_entry.pending, fresh);
                lemma_tracks_poll(stream, after_fill.pending);
                if grew {
                    lemma_waiting_moves_on(at_entry.pending, fresh);
                }
            }
            let outcome = self.poll_buffer();
            if let Poll::Ready { checksum_ok: false, .. } = &outcome {
                if self.crc_mismatches < usize::MAX {
                    self.crc_mismatches = self.crc_mismatches + 1;
                }
            }
            match wait_step(outcome, grew, self.crc_enforced) {
                WaitStep::Deliver(response) => {
                    proof {
                        self.received@ = self.received@.push(response@);
                        assert(old(self)@.received_until(self@) =~= seq![response@]);
                        assert(self@.received.subrange(0, old(self)@.received.len() as int)
                            =~= old(self)@.received);
                    }
                    return Ok(response);
                },
                WaitStep::Fail(e) => {
                    return Err(e);
                },
                WaitStep::ReadMore => {},
            }
        }
    }

    /// Issues `cmd` and, where the transport took it, waits for one
    /// response.
    fn request(&mut self, cmd: Command) -> (r: Result<Response>)
        requires
            old(self).wf(),
        ensures
            final(self).wf(),
            old(self)@.precedes(final(self)@),
            old(self)@.asked(final(self)@, cmd),
            final(self)@.crc_enforced == old(self)@.crc_enforced,
            final(self)@.issued.last().outcome matches Err(e) ==> r is Err && r->Err_0 == e
                && final(self)@ == old(self)@.with_issued(cmd, Err(e)),
            final(self)@.issued.last().accepted() ==> old(self)@.waited(final(self)@) == Some(
                result_view(r),
            ),
            r is Err ==> final(self)@.received == old(self)@.received,
            r matches Ok(response) ==> old(self)@.answered_by(final(self)@, response@),
    {
        let sent = self.send_package(cmd);
        let ghost asked = self@;
        proof {
            assert(old(self)@.issued_until(asked) =~= seq![
                Issued { command: cmd, outcome: sent },
            ]);
            assert(asked.issued.subrange(0, old(self)@.issued.len() as int) =~= old(self)@.issued);
            assert(asked.delivered.subrange(0, asked.delivered.len() as int)
                =~= asked.delivered);
            assert(asked.reads.subrange(0, asked.reads.len() as int) =~= asked.reads);
            assert(asked.received.subrange(0, asked.received.len() as int) =~= asked.received);
        }
        match sent {
            Ok(()) => {
                let r = self.receive_package();
                proof {
                    assert(old(self)@.delivered_until(self@) =~= asked.delivered_until(self@));
                    assert(old(self)@.reads_until(self@) =~= asked.reads_until(self@));
                    assert(old(self)@.received_until(self@) =~= asked.received_until(self@));
                    assert(old(self)@.issued_until(self@) =~= old(self)@.issued_until(asked));
                    assert(self@.issued.subrange(0, old(self)@.issued.len() as int)
                        =~= old(self)@.issued);
                }
                r
            },
            Err(e) => Err(e),
        }
    }

    /// Sets the number of readings that the sensor averages.
    pub fn set_avg_time(&mut self, t: u8) -> (r: Result<()>)
        requires
            old(self).wf(),
        ensures
            final(self).wf(),
            final(self)@ == old(self)@.with_issued(Command::SetAverageTime(t), r),
    {
        self.send_package(Command::SetAverageTime(t))
    }

    /// Asks the sensor for its average time. Any other response than an
    /// average time is consumed and reported as unexpected.
    pub fn get_avg_time(&mut self) -> (r: Result<u8>)
        requires
            old(self).wf(),
        ensures
            final(self).wf(),
            old(self)@.precedes(final(self)@),
            old(self)@.asked(final(self)@, Command::GetAverageTime),
            final(self)@.crc_enforced == old(self)@.crc_enforced,
            final(self)@.issued.last().outcome matches Err(e) ==> r is Err && r->Err_0 == e
                && final(self)@ == old(self)@.with_issued(Command::GetAverageTime, Err(e)),
            r matches Ok(t) ==> old(self)@.answered_by(
                final(self)@,
                ResponseView::AverageTime(t),
            ),
            r matches Err(e) ==> old(self)@.failed_with(
                final(self)@,
                ResponseKind::AverageTime,
                e,
            ),
            r matches Ok(t) ==> old(self)@.requested(final(self)@, ResponseKind::AverageTime)
                == Some(
                Ok::<ResponseView, Error>(ResponseView::AverageTime(t)),
            ),
            r matches Err(e) ==> old(self)@.requested(final(self)@, ResponseKind::AverageTime)
                == Some(
                Err::<ResponseView, Error>(e),
            ),
    {
        match self.request(Command::GetAverageTime) {
            Ok(response) => response.into_average_time(),
            Err(e) => Err(e),
        }
    }

    /// Sets the integration time of the sensor.
    pub fn set_exp_time(&mut self, t: u16) -> (r: Result<()>)
        requires
            old(self).wf(),
        ensures
            final(self).wf(),
            final(self)@ == old(self)@.with_issued(Command::SetIntegrationTime(t), r),
    {
        self.send_package(Command::SetIntegrationTime(t))
    }

    /// Asks the sensor for its exposure time. Any other response than an
    /// exposure time is consumed and reported as unexpected.
    pub fn get_exp_time(&mut self) -> (r: Result<u16>)
        requires
            old(self).wf(),
        ensures
            final(self).wf(),
            old(self)@.precedes(final(self)@),
            old(self)@.asked(final(self)@, Command::GetExposureTime),
            final(self)@.crc_enforced == old(self)@.crc_enforced,
            final(self)@.issued.last().outcome matches Err(e) ==> r is Err && r->Err_0 == e
                && final(self)@ == old(self)@.with_issued(Command::GetExposureTime, Err(e)),
            r matches Ok(t) ==> old(self)@.answered_by(
                final(self)@,
                ResponseView::ExposureTime(t),
            ),
            r matches Err(e) ==> old(self)@.failed_with(
                final(self)@,
                ResponseKind::ExposureTime,
                e,
            ),
            r matches Ok(t) ==> old(self)@.requested(final(self)@, ResponseKind::ExposureTime)
                == Some(
                Ok::<ResponseView, Error>(ResponseView::ExposureTime(t)),
            ),
            r matches Err(e) ==> old(self)@.requested(final(self)@, ResponseKind::ExposureTime)
                == Some(
                Err::<ResponseView, Error>(e),
            ),
    {
        match self.request(Command::GetExposureTime) {
            Ok(response) => response.into_exposure_time(),
            Err(e) => Err(e),
        }
    }

    /// Sets how the sensor is triggered.
    pub fn set_trigger_mode(&mut self, mode: TriggerMode) -> (r: Result<()>)
        requires
            old(self).wf(),
        ensures
            final(self).wf(),
            final(self)@ == old(self)@.with_issued(Command::SetTriggerMode(mode), r),
    {
        self.send_package(Command::SetTriggerMode(mode))
    }

    /// Sets baud rate on UART pins (does not affect USB ACM).
    pub fn set_baudrate(&mut self, baud: BaudRate) -> (r: Result<()>)
        requires
            old(self).wf(),
        ensures
            final(self).wf(),
            final(self)@ == old(self)@.with_issued(Command::SetSerialBaudRate(baud), r),
    {
        self.send_package(Command::SetSerialBaudRate(baud))
    }

    /// Gets current baud rate on UART pins. Any other response than a
    /// baud rate is consumed and reported as unexpected.
    pub fn get_baudrate(&mut self) -> (r: Result<BaudRate>)
        requires
            old(self).wf(),
        ensures
            final(self).wf(),
            old(self)@.precedes(final(self)@),
            old(self)@.asked(final(self)@, Command::GetSerialBaudRate),
            final(self)@.crc_enforced == old(self)@.crc_enforced,
            final(self)@.issued.last().outcome matches Err(e) ==> r is Err && r->Err_0 == e
                && final(self)@ == old(self)@.with_issued(Command::GetSerialBaudRate, Err(e)),
            r matches Ok(b) ==> old(self)@.answered_by(
                final(self)@,
                ResponseView::SerialBaudRate(b),
            ),
            r matches Err(e) ==> old(self)@.failed_with(
                final(self)@,
                ResponseKind::SerialBaudRate,
                e,
            ),
            r matches Ok(b) ==> old(self)@.requested(final(self)@, ResponseKind::SerialBaudRate)
                == Some(
                Ok::<ResponseView, Error>(ResponseView::SerialBaudRate(b)),
            ),
            r matches Err(e) ==> old(self)@.requested(final(self)@, ResponseKind::SerialBaudRate)
                == Some(
                Err::<ResponseView, Error>(e),
            ),
    {
        match self.request(Command::GetSerialBaudRate) {
            Ok(response) => response.into_baud_rate(),
            Err(e) => Err(e),
        }
    }

    /// Gets CCD version details. Any other response than a version report
    /// is consumed and reported as unexpected.
    pub fn get_version(&mut self) -> (r: Result<VersionDetails>)
        requires
            old(self).wf(),
        ensures
            final(self).wf(),
            old(self)@.precedes(final(self)@),
            old(self)@.asked(final(self)@, Command::GetVersion),
            final(self)@.crc_enforced == old(self)@.crc_enforced,
            final(self)@.issued.last().outcome matches Err(e) ==> r is Err && r->Err_0 == e
                && final(self)@ == old(self)@.with_issued(Command::GetVersion, Err(e)),
            r matches Ok(d) ==> old(self)@.answered_by(
                final(self)@,
                ResponseView::VersionInfo(d@),
            ),
            r matches Err(e) ==> old(self)@.failed_with(
                final(self)@,
                ResponseKind::VersionInfo,
                e,
            ),
            r matches Ok(d) ==> old(self)@.requested(final(self)@, ResponseKind::VersionInfo)
                == Some(
                Ok::<ResponseView, Error>(ResponseView::VersionInfo(d@)),
            ),
            r matches Err(e) ==> old(self)@.requested(final(self)@, ResponseKind::VersionInfo)
                == Some(
                Err::<ResponseView, Error>(e),
            ),
    {
        match self.request(Command::GetVersion) {
            Ok(response) => response.into_version(),
            Err(e) => Err(e),
        }
    }

    /// Takes a single frame from CCD. Any other response than a frame is
    /// consumed and reported as unexpected.
    pub fn get_frame(&mut self) -> (r: Result<Frame>)
        requires
            old(self).wf(),
        ensures
            final(self).wf(),
            old(self)@.precedes(final(self)@),
            old(self)@.asked(final(self)@, Command::SingleRead),
            final(self)@.crc_enforced == old(self)@.crc_enforced,
            final(self)@.issued.last().outcome matches Err(e) ==> r is Err && r->Err_0 == e
                && final(self)@ == old(self)@.with_issued(Command::SingleRead, Err(e)),
            r matches Ok(f) ==> old(self)@.answered_by(
                final(self)@,
                ResponseView::SingleReading(f@),
            ),
            r matches Err(e) ==> old(self)@.failed_with(
                final(self)@,
                ResponseKind::SingleReading,
                e,
            ),
            r matches Ok(f) ==> old(self)@.requested(final(self)@, ResponseKind::SingleReading)
                == Some(
                Ok::<ResponseView, Error>(ResponseView::SingleReading(f@)),
            ),
            r matches Err(e) ==> old(self)@.requested(final(self)@, ResponseKind::SingleReading)
                == Some(
                Err::<ResponseView, Error>(e),
            ),
    {
        match self.request(Command::SingleRead) {
            Ok(response) => response.into_frame(),
            Err(e) => Err(e),
        }
    }

    /// Waits for `count` frames and pushes each behind `buf` as it comes.
    /// Stops at the first failure, which a response of another kind than
    /// a frame is too.
    ///
    /// What is pushed are frames that were taken out of the stream, each
    /// by a wait of its own, in the order in which they came: no frame is
    /// pushed that the stream did not hold, on success and on failure
    /// alike. Success is to have pushed `count` frames. For a count of
    /// zero nothing is read and nothing changes.
    pub fn collect_frames(&mut self, buf: &mut Vec<Frame>, count: usize) -> (r: Result<()>)
        requires
            old(self).wf(),
        ensures
            final(self).wf(),
            old(self)@.precedes(final(self)@),
            final(self)@.issued == old(self)@.issued,
            final(self)@.crc_enforced == old(self)@.crc_enforced,
            old(buf)@.len() <= final(buf)@.len() <= old(buf)@.len() + count,
            final(buf)@.subrange(0, old(buf)@.len() as int) == old(buf)@,
            old(self)@.collected(final(self)@, final(buf)@, old(buf)@.len() as int, r),
            r is Ok <==> final(buf)@.len() == old(buf)@.len() + count,
            r is Ok ==> old(self)@.received_frames(
                final(self)@,
                final(buf)@,
                old(buf)@.len() as int,
            ),
            count == 0 ==> final(self)@ == old(self)@ && final(buf)@ == old(buf)@,
    {
        let mut taken: usize = 0;
        let ghost from = buf@.len() as int;
        let ghost mut trail: Seq<SessionView> = seq![self@];
        proof {
            lemma_precedes_itself(self@);
            assert(buf@.subrange(0, buf@.len() as int) =~= buf@);
        }
        while taken < count
            invariant
                self.wf(),
                old(self)@.precedes(self@),
                self@.issued == old(self)@.issued,
                self@.crc_enforced == old(self)@.crc_enforced,
                taken <= count,
                from == old(buf)@.len(),
                buf@.len() == from + taken,
                buf@.subrange(0, from) == old(buf)@,
                old(self)@.received_frames(self@, buf@, from),
                SessionView::frames_in_turn(trail, buf@, from),
                trail[0] == old(self)@,
                trail.last() == self@,
                taken == 0 ==> self@ == old(self)@ && buf@ == old(buf)@,
            decreases count - taken,
        {
            let ghost frames_before = buf@;
            let ghost before = self@;
            let outcome = self.receive_package();
            proof {
                lemma_precedes_chain(old(self)@, before, self@);
            }
            let frame = match outcome {
                Ok(response) => match response.into_frame() {
                    Ok(frame) => frame,
                    Err(e) => {
                        proof {
                            assert(before.received_until(self@)[0] == response@);
                            assert(old(self)@.collected_along(trail, self@, buf@, from, Err(e)));
                        }
                        return Err(e);
                    },
                },
                Err(e) => {
                    proof {
                        assert(before.received_until(self@).len() == 0);
                        assert(old(self)@.collected_along(trail, self@, buf@, from, Err(e)));
                    }
                    return Err(e);
                },
            };
            buf.push(frame);
            taken += 1;
            proof {
                let longer = trail.push(self@);
                assert(buf@.subrange(0, from) =~= frames_before.subrange(0, from));
                let all = old(self)@.received_until(self@);
                let earlier = old(self)@.received_until(before);
                assert(before.received_until(self@) == seq![ResponseView::SingleReading(frame@)]);
                assert forall|i: int| from <= i < buf@.len() implies all[i - from]
                    == ResponseView::SingleReading((#[trigger] buf@[i])@) by {
                    if i < frames_before.len() {
                        assert(all[i - from] == earlier[i - from]);
                        assert(buf@[i] == frames_before[i]);
                    }
                }
                assert forall|i: int| 0 <= i < buf@.len() - from implies (#[trigger] longer[i])
                    .answered_by(
                    longer[i + 1],
                    ResponseView::SingleReading(buf@[from + i]@),
                ) && longer[i].frame_awaited(longer[i + 1]) == Some(
                    Ok::<ResponseView, Error>(ResponseView::SingleReading(buf@[from + i]@)),
                ) by {
                    if i < frames_before.len() - from {
                        assert(longer[i] == trail[i]);
                        assert(longer[i + 1] == trail[i + 1]);
                        assert(buf@[from + i] == frames_before[from + i]);
                    } else {
                        assert(longer[i] == before);
                        assert(longer[i + 1] == self@);
                        assert(buf@[from + i] == frame);
                    }
                }
                trail = longer;
            }
        }
        proof {
            assert(old(self)@.collected_along(trail, self@, buf@, from, Ok(())));
        }
        Ok(())
    }

    /// Takes `count` frames from CCD and pushes them into `buf`: issues
    /// `ContinuousRead`, collects the frames, and issues `PauseRead`,
    /// whether or not all frames came.
    ///
    /// Exactly these two commands are issued, in this order, whatever
    /// fails. Where the transport refuses the first, no frame is waited
    /// for and nothing is read. What is pushed are frames that were taken
    /// out of the stream between the two commands, each by a wait of its
    /// own and in the order in which they came, on success and on failure
    /// alike. Success is that both commands were taken and `count` frames
    /// were pushed. A refused pause is reported with the transport's own
    /// error even where all frames came, for it leaves the sensor
    /// streaming; else the error is that of the refused first command, or
    /// that of the wait that failed.
    pub fn get_frames(&mut self, buf: &mut Vec<Frame>, count: usize) -> (r: Result<()>)
        requires
            old(self).wf(),
        ensures
            final(self).wf(),
            old(self)@.precedes(final(self)@),
            old(self)@.streamed(final(self)@),
            final(self)@.crc_enforced == old(self)@.crc_enforced,
            old(buf)@.len() <= final(buf)@.len() <= old(buf)@.len() + count,
            final(buf)@.subrange(0, old(buf)@.len() as int) == old(buf)@,
            !old(self)@.stream_started(final(self)@) ==> final(buf)@ == old(buf)@
                && final(self)@.before_last_issue() == old(self)@.stream_begun(final(self)@)
                && r == close_stream_spec(
                old(self)@.issued_until(final(self)@)[0].outcome,
                old(self)@.issued_until(final(self)@)[1].outcome,
            ),
            old(self)@.stream_started(final(self)@) ==> exists|streamed: Result<()>|
                #[trigger] old(self)@.stream_begun(final(self)@).collected(
                    final(self)@.before_last_issue(),
                    final(buf)@,
                    old(buf)@.len() as int,
                    streamed,
                ) && r == close_stream_spec(
                    streamed,
                    old(self)@.issued_until(final(self)@)[1].outcome,
                ),
            r is Ok <==> old(self)@.stream_started(final(self)@) && old(self)@.stream_paused(
                final(self)@,
            ) && final(buf)@.len() == old(buf)@.len() + count,
            r is Ok ==> old(self)@.received_frames(
                final(self)@,
                final(buf)@,
                old(buf)@.len() as int,
            ),
            count == 0 ==> final(buf)@ == old(buf)@ && final(self)@.reads == old(self)@.reads
                && final(self)@.delivered == old(self)@.delivered
                && final(self)@.received == old(self)@.received
                && final(self)@.pending == old(self)@.pending,
    {
        let started = self.send_package(Command::ContinuousRead);
        let ghost begun = self@;
        proof {
            lemma_precedes_itself(begun);
            assert(buf@.subrange(0, buf@.len() as int) =~= buf@);
        }
        let streamed = match started {
            Ok(()) => self.collect_frames(buf, count),
            Err(e) => Err(e),
        };
        let ghost collected = self@;
        let paused = self.send_package(Command::PauseRead);
        proof {
            let issued = old(self)@.issued_until(self@);
            assert(issued =~= seq![
                Issued { command: Command::ContinuousRead, outcome: started },
                Issued { command: Command::PauseRead, outcome: paused },
            ]);
            assert(self@.issued.subrange(0, old(self)@.issued.len() as int) =~= old(self)@.issued);
            assert(issued[0].outcome == started);
            assert(issued[1].outcome == paused);
            assert(self@.issued.drop_last() =~= collected.issued);
            assert(self@.before_last_issue() == collected);
            assert(begun == old(self)@.with_issued(Command::ContinuousRead, started));
            if started is Ok {
                assert(begun.collected(collected, buf@, old(buf)@.len() as int, streamed));
            }
            assert(old(self)@.received_until(self@) =~= begun.received_until(collected));
            assert(self@.delivered.subrange(0, old(self)@.delivered.len() as int)
                =~= collected.delivered.subrange(0, old(self)@.delivered.len() as int));
            assert(self@.received.subrange(0, old(self)@.received.len() as int)
                =~= collected.received.subrange(0, old(self)@.received.len() as int));
        }
        let r = close_stream(streamed, paused);
        proof {
            assert(old(self)@.stream_begun(self@) == begun);
            if started is Ok {
                assert(begun.collected(
                    self@.before_last_issue(),
                    buf@,
                    old(buf)@.len() as int,
                    streamed,
                ));
            }
        }
        r
    }
}

} // verus!
