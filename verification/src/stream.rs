//! What to make of the bytes that wait in a receive buffer: the one
//! decision that a session and a codec share.

use crate::parser::{
    align_response, align_spec, lemma_align_idempotent, lemma_align_offset,
    lemma_align_survives_growth, lemma_invalid_stays_invalid, lemma_parse_tail,
    lemma_start_survives_growth, parse_response, parse_spec, starts_response, Parsed,
    ParsedView,
};
use crate::error::Error;
use crate::response::{Response, ResponseView};
use vstd::prelude::*;

verus! {

/// What one look at the buffer gives, as a mathematical value.
pub enum PollView {
    /// A response was read; `rest` is what waits behind it.
    Ready { response: ResponseView, checksum_ok: bool, rest: Seq<u8>, aligned: bool },
    /// More bytes are needed; `pending` is what waits for them.
    Pending { pending: Seq<u8>, aligned: bool },
    /// The bytes begin no response, and a resync did not help.
    Failed { pending: Seq<u8> },
}

/// One look at a buffer that holds `pending`. A complete response is
/// taken off the front. An incomplete one waits. Bytes that begin no
/// response fail the look where a resync was tried since the last read;
/// else they are resynced, once: where no response can begin anywhere,
/// they wait for more; where one can, the bytes in front of it are
/// dropped and the rest is parsed a second and last time.
#[verifier::opaque]
pub open spec fn poll_spec(pending: Seq<u8>, aligned: bool) -> PollView {
    match parse_spec(pending) {
        ParsedView::Complete { tail, response, checksum_ok } => PollView::Ready {
            response,
            checksum_ok,
            rest: tail,
            aligned,
        },
        ParsedView::Incomplete(_) => PollView::Pending { pending, aligned },
        ParsedView::Invalid => if aligned {
            PollView::Failed { pending }
        } else {
            match align_spec(pending) {
                None => PollView::Pending { pending, aligned: false },
                Some(suffix) => match parse_spec(suffix) {
                    ParsedView::Complete { tail, response, checksum_ok } => PollView::Ready {
                        response,
                        checksum_ok,
                        rest: tail,
                        aligned: true,
                    },
                    ParsedView::Incomplete(_) => PollView::Pending {
                        pending: suffix,
                        aligned: true,
                    },
                    ParsedView::Invalid => PollView::Failed { pending: suffix },
                },
            }
        },
    }
}

/// What one look at the buffer gives.
#[derive(PartialEq, Eq, Debug)]
pub enum Poll {
    /// A response was read and taken out of the buffer.
    Ready { response: Response, checksum_ok: bool },
    /// More bytes are needed.
    Pending,
    /// The bytes begin no response, and a resync did not help.
    Failed,
}

/// What a wait for a response does after a read and a look at the
/// buffer, as a mathematical value.
pub enum WaitStepView {
    /// The response is handed out.
    Deliver(ResponseView),
    /// The wait ends with this error.
    Fail(Error),
    /// The wait goes on with another read.
    ReadMore,
}

/// How a wait for a response goes on, from what the look at the buffer
/// gave, from whether the read before it brought any byte, and from
/// whether checksums are enforced.
pub open spec fn wait_step_spec(outcome: PollView, grew: bool, crc_enforced: bool) -> WaitStepView {
    match outcome {
        PollView::Ready { response, checksum_ok, .. } => if checksum_ok || !crc_enforced {
            WaitStepView::Deliver(response)
        } else {
            WaitStepView::Fail(Error::InvalidData)
        },
        PollView::Pending { .. } => if grew {
            WaitStepView::ReadMore
        } else {
            WaitStepView::Fail(Error::UnexpectedEop)
        },
        PollView::Failed { .. } => WaitStepView::Fail(Error::InvalidData),
    }
}

/// What a wait for a response comes to, from the bytes `waiting` that
/// the session had to look at when the wait began and from what the
/// reads of the wait came to, one after the other.
///
/// A read that fails ends the wait with its failure. A read that
/// succeeds is followed by a look at everything that waited and came,
/// and the wait goes on as `wait_step_spec` says. `None` marks reads
/// that are not those of one whole wait: they end before the wait does,
/// or go on behind its end.
pub open spec fn wait_spec(
    waiting: Seq<u8>,
    crc_enforced: bool,
    reads: Seq<Result<Seq<u8>, Error>>,
) -> Option<Result<ResponseView, Error>>
    decreases reads.len(),
{
    if reads.len() == 0 {
        None
    } else {
        let rest = reads.drop_first();
        match reads[0] {
            Err(e) => if rest.len() == 0 {
                Some(Err(e))
            } else {
                None
            },
            Ok(came) => match wait_step_spec(
                poll_spec(waiting + came, false),
                came.len() > 0,
                crc_enforced,
            ) {
                WaitStepView::Deliver(response) => if rest.len() == 0 {
                    Some(Ok(response))
                } else {
                    None
                },
                WaitStepView::Fail(e) => if rest.len() == 0 {
                    Some(Err(e))
                } else {
                    None
                },
                WaitStepView::ReadMore => wait_spec(waiting + came, crc_enforced, rest),
            },
        }
    }
}

/// Whether a wait that began with `waiting` is still going on after
/// `reads`, with `stream` to look at: every read brought bytes, and
/// every look said to read more.
pub open spec fn still_waiting(
    waiting: Seq<u8>,
    crc_enforced: bool,
    reads: Seq<Result<Seq<u8>, Error>>,
    stream: Seq<u8>,
) -> bool
    decreases reads.len(),
{
    if reads.len() == 0 {
        stream == waiting
    } else {
        match reads[0] {
            Err(_) => false,
            Ok(came) => wait_step_spec(
                poll_spec(waiting + came, false),
                came.len() > 0,
                crc_enforced,
            ) is ReadMore && still_waiting(
                waiting + came,
                crc_enforced,
                reads.drop_first(),
                stream,
            ),
        }
    }
}

/// A wait that is still going on comes, with one more read, to what a
/// wait of that one read comes to that begins with everything the
/// session has to look at by now; and where the look behind that read
/// says to read more, the wait is still going on.
pub proof fn lemma_wait_goes_on(
    waiting: Seq<u8>,
    crc_enforced: bool,
    reads: Seq<Result<Seq<u8>, Error>>,
    stream: Seq<u8>,
    next: Result<Seq<u8>, Error>,
)
    requires
        still_waiting(waiting, crc_enforced, reads, stream),
    ensures
        wait_spec(waiting, crc_enforced, reads.push(next)) == wait_spec(
            stream,
            crc_enforced,
            seq![next],
        ),
        next is Ok && wait_step_spec(
            poll_spec(stream + next->Ok_0, false),
            next->Ok_0.len() > 0,
            crc_enforced,
        ) is ReadMore ==> still_waiting(
            waiting,
            crc_enforced,
            reads.push(next),
            stream + next->Ok_0,
        ),
    decreases reads.len(),
{
    reveal_with_fuel(wait_spec, 2);
    reveal_with_fuel(still_waiting, 2);
    if reads.len() == 0 {
        assert(reads.push(next) =~= seq![next]);
        assert(seq![next].drop_first() =~= Seq::<Result<Seq<u8>, Error>>::empty());
    } else {
        let came = reads[0]->Ok_0;
        assert(reads.push(next).drop_first() =~= reads.drop_first().push(next));
        assert(reads.push(next)[0] == reads[0]);
        lemma_wait_goes_on(waiting + came, crc_enforced, reads.drop_first(), stream, next);
    }
}

/// What a wait of one read comes to.
pub proof fn lemma_wait_of_one_read(
    waiting: Seq<u8>,
    crc_enforced: bool,
    read: Result<Seq<u8>, Error>,
)
    ensures
        wait_spec(waiting, crc_enforced, seq![read]) == match read {
            Err(e) => Some(Err::<ResponseView, Error>(e)),
            Ok(came) => match wait_step_spec(
                poll_spec(waiting + came, false),
                came.len() > 0,
                crc_enforced,
            ) {
                WaitStepView::Deliver(response) => Some(Ok(response)),
                WaitStepView::Fail(e) => Some(Err(e)),
                WaitStepView::ReadMore => None,
            },
        },
{
    reveal_with_fuel(wait_spec, 2);
    assert(seq![read].drop_first() =~= Seq::<Result<Seq<u8>, Error>>::empty());
}

/// What a wait for a response does after a read and a look at the
/// buffer.
#[derive(Debug)]
pub enum WaitStep {
    /// The response is handed out.
    Deliver(Response),
    /// The wait ends with this error.
    Fail(Error),
    /// The wait goes on with another read.
    ReadMore,
}

/// Decides how a wait for a response goes on, from what the look at the
/// buffer gave, from whether the read before it brought any byte, and
/// from whether checksums are enforced.
///
/// A response is handed out, but a frame with a wrong checksum is
/// refused as `InvalidData` where checksums are enforced. Bytes that
/// begin no response, a resync notwithstanding, are `InvalidData`. A
/// buffer that needs more bytes is read into again, but a read that
/// brought none ends the wait with `UnexpectedEop`.
pub fn wait_step(outcome: Poll, grew: bool, crc_enforced: bool) -> (v: WaitStep)
    ensures
        match outcome {
            Poll::Ready { response, checksum_ok } => if checksum_ok || !crc_enforced {
                v == WaitStep::Deliver(response)
            } else {
                v == WaitStep::Fail(Error::InvalidData)
            },
            Poll::Pending => if grew {
                v is ReadMore
            } else {
                v == WaitStep::Fail(Error::UnexpectedEop)
            },
            Poll::Failed => v == WaitStep::Fail(Error::InvalidData),
        },
{
    match outcome {
        Poll::Ready { response, checksum_ok } => {
            if checksum_ok || !crc_enforced {
                WaitStep::Deliver(response)
            } else {
                WaitStep::Fail(Error::InvalidData)
            }
        },
        Poll::Pending => {
            if grew {
                WaitStep::ReadMore
            } else {
                WaitStep::Fail(Error::UnexpectedEop)
            }
        },
        Poll::Failed => WaitStep::Fail(Error::InvalidData),
    }
}

/// What a read is taken for, from what the transport reported and from
/// the space that it was offered: its failure is passed on, and a count
/// above the space is refused as `InvalidData`.
pub fn checked_read(reported: Result<usize, Error>, space: usize) -> (r: Result<usize, Error>)
    ensures
        match reported {
            Ok(count) => if count <= space {
                r == Ok::<usize, Error>(count)
            } else {
                r == Err::<usize, Error>(Error::InvalidData)
            },
            Err(e) => r == Err::<usize, Error>(e),
        },
{
    match reported {
        Ok(count) => {
            if count <= space {
                Ok(count)
            } else {
                Err(Error::InvalidData)
            }
        },
        Err(e) => Err(e),
    }
}

/// Whether `pending` is what a buffer holds of the bytes `stream` that
/// came to it, after no resync or after the one resync that the stream
/// calls for: all of the stream, or, where the stream begins no response,
/// the stream from the first place at which one can begin.
pub open spec fn tracks(stream: Seq<u8>, pending: Seq<u8>) -> bool {
    pending == stream || (parse_spec(stream) is Invalid && align_spec(stream) == Some(pending))
}

/// A buffer that tracks a stream tracks it still when more bytes come
/// to both.
pub proof fn lemma_tracks_growth(stream: Seq<u8>, pending: Seq<u8>, fresh: Seq<u8>)
    requires
        tracks(stream, pending),
    ensures
        tracks(stream + fresh, pending + fresh),
{
    if pending != stream {
        lemma_invalid_stays_invalid(stream, fresh);
        lemma_align_survives_growth(stream, fresh);
    }
}

/// A look at a buffer that tracks a stream gives what a look at the
/// whole stream gives: the same response with the same rest, or the
/// same failure; and where the look waits for more bytes, what it leaves
/// in the buffer tracks the stream still.
pub proof fn lemma_tracks_poll(stream: Seq<u8>, pending: Seq<u8>)
    requires
        tracks(stream, pending),
    ensures
        match poll_spec(pending, false) {
            PollView::Ready { response, checksum_ok, rest, .. } => poll_spec(
                stream,
                false,
            ) matches PollView::Ready { response: found, checksum_ok: ok, rest: left, .. }
                && found == response && ok == checksum_ok && left == rest,
            PollView::Pending { pending: waiting, .. } => tracks(stream, waiting) && poll_spec(
                stream,
                false,
            ) is Pending,
            PollView::Failed { pending: refused } => poll_spec(
                stream,
                false,
            ) matches PollView::Failed { pending: left } && left == refused,
        },
{
    reveal(poll_spec);
    if pending != stream {
        lemma_align_idempotent(stream);
    }
}

/// A look that waits for more bytes has brought the wait forward, where
/// bytes came since the look before: the buffer now begins with a
/// response start and did not before, or it begins as it did and holds
/// more bytes.
pub proof fn lemma_waiting_moves_on(before: Seq<u8>, fresh: Seq<u8>)
    requires
        fresh.len() > 0,
    ensures
        poll_spec(before + fresh, false) matches PollView::Pending { pending: after, .. } ==> {
            ||| !starts_response(before, 0) && starts_response(after, 0)
            ||| starts_response(before, 0) == starts_response(after, 0) && after.len()
                > before.len()
        },
{
    reveal(poll_spec);
    let filled = before + fresh;
    assert(filled.subrange(0, before.len() as int) =~= before);
    if starts_response(before, 0) {
        lemma_start_survives_growth(before, filled);
    }
    lemma_align_idempotent(filled);
}

/// One look at a buffer, and what it asks of the buffer.
pub struct Step {
    /// How many bytes are to be dropped from the front of the buffer.
    pub consumed: usize,
    /// Whether a resync has been tried since the bytes were read.
    pub aligned: bool,
    /// What the look gave.
    pub outcome: Poll,
}

/// What the head of a buffer holds.
enum Head {
    Complete { consumed: usize, response: Response, checksum_ok: bool },
    Incomplete,
    Invalid,
}

/// Parses the head of `bytes`, and counts what a complete response takes.
fn head(bytes: &[u8]) -> (h: Head)
    ensures
        match parse_spec(bytes@) {
            ParsedView::Complete { tail, response, checksum_ok } => h matches Head::Complete {
                consumed,
                response: found,
                checksum_ok: ok,
            } && found@ == response && ok == checksum_ok && consumed <= bytes@.len() && tail
                == bytes@.subrange(consumed as int, bytes@.len() as int),
            ParsedView::Incomplete(_) => h is Incomplete,
            ParsedView::Invalid => h is Invalid,
        },
{
    proof {
        lemma_parse_tail(bytes@);
    }
    match parse_response(bytes) {
        Parsed::Complete { tail, response, checksum_ok } => Head::Complete {
            consumed: bytes.len() - tail.len(),
            response,
            checksum_ok,
        },
        Parsed::Incomplete(_) => Head::Incomplete,
        Parsed::Invalid => Head::Invalid,
    }
}

/// Looks once at the bytes that wait in a buffer, as `poll_spec` says,
/// and tells how many of them the buffer is to drop from its front.
pub fn poll_bytes(bytes: &[u8], aligned: bool) -> (step: Step)
    ensures
        step.consumed <= bytes@.len(),
        match poll_spec(bytes@, aligned) {
            PollView::Ready {
                response,
                checksum_ok,
                rest,
                aligned: after,
            } => step.outcome matches Poll::Ready { response: found, checksum_ok: ok }
                && found@ == response && ok == checksum_ok && rest == bytes@.subrange(
                step.consumed as int,
                bytes@.len() as int,
            ) && step.aligned == after,
            PollView::Pending { pending, aligned: after } => step.outcome is Pending && pending
                == bytes@.subrange(step.consumed as int, bytes@.len() as int) && step.aligned
                == after,
            PollView::Failed { pending } => step.outcome is Failed && pending == bytes@.subrange(
                step.consumed as int,
                bytes@.len() as int,
            ) && step.aligned,
        },
{
    reveal(poll_spec);
    assert(bytes@.subrange(0, bytes@.len() as int) =~= bytes@);
    match head(bytes) {
        Head::Complete { consumed, response, checksum_ok } => {
            return Step { consumed, aligned, outcome: Poll::Ready { response, checksum_ok } };
        },
        Head::Incomplete => {
            return Step { consumed: 0, aligned, outcome: Poll::Pending };
        },
        Head::Invalid => {},
    }
    if aligned {
        return Step { consumed: 0, aligned: true, outcome: Poll::Failed };
    }
    let suffix = match align_response(bytes) {
        Some(suffix) => suffix,
        None => {
            return Step { consumed: 0, aligned: false, outcome: Poll::Pending };
        },
    };
    proof {
        lemma_align_offset(bytes@, 0);
    }
    let skipped = bytes.len() - suffix.len();
    match head(suffix) {
        Head::Complete { consumed, response, checksum_ok } => {
            assert(suffix@.subrange(consumed as int, suffix@.len() as int) =~= bytes@.subrange(
                skipped + consumed,
                bytes@.len() as int,
            ));
            Step {
                consumed: skipped + consumed,
                aligned: true,
                outcome: Poll::Ready { response, checksum_ok },
            }
        },
        Head::Incomplete => Step { consumed: skipped, aligned: true, outcome: Poll::Pending },
        Head::Invalid => Step { consumed: skipped, aligned: true, outcome: Poll::Failed },
    }
}

} // verus!
