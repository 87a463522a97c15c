//! The transport of a session together with the record of what went
//! over it. The record grows in this module alone, and only where the
//! transport is called: a command is noted by the function that writes
//! it, and bytes are noted by the function that reads them.

use crate::command::Command;
use crate::error::{Error, Result};
use crate::io_adapter::IoAdapter;
use crate::stream::checked_read;
use vstd::prelude::*;

verus! {

/// A command that was handed to the transport, and what the transport
/// made of it: the result of the write, as it came back.
pub struct Issued {
    pub command: Command,
    pub outcome: Result<()>,
}

impl Issued {
    /// Whether the transport took the command.
    pub open spec fn accepted(self) -> bool {
        self.outcome is Ok
    }
}

/// What went over a transport.
pub struct LinkView {
    /// The commands handed to the transport so far, oldest first.
    pub issued: Seq<Issued>,
    /// What each read made so far came to, oldest first: the bytes it
    /// delivered, or its failure.
    pub reads: Seq<Result<Seq<u8>>>,
    /// The bytes that the transport delivered so far, oldest first.
    pub delivered: Seq<u8>,
}

/// A transport, and the record of what went over it.
pub struct Link<IO: IoAdapter> {
    io: IO,
    issued: Ghost<Seq<Issued>>,
    reads: Ghost<Seq<Result<Seq<u8>>>>,
    delivered: Ghost<Seq<u8>>,
}

impl<IO: IoAdapter> View for Link<IO> {
    type V = LinkView;

    closed spec fn view(&self) -> LinkView {
        LinkView { issued: self.issued@, reads: self.reads@, delivered: self.delivered@ }
    }
}

impl<IO: IoAdapter> Link<IO> {
    /// A link over `io`, over which nothing went yet.
    pub fn new(io: IO) -> (link: Self)
        ensures
            link@ == (LinkView {
                issued: Seq::empty(),
                reads: Seq::empty(),
                delivered: Seq::empty(),
            }),
    {
        Link {
            io,
            issued: Ghost(Seq::empty()),
            reads: Ghost(Seq::empty()),
            delivered: Ghost(Seq::empty()),
        }
    }

    /// Hands the five bytes of `cmd` to the transport, notes the command
    /// with the result of the write, and hands that result back as it
    /// came.
    pub fn send(&mut self, cmd: Command) -> (r: Result<()>)
        ensures
            final(self)@ == (LinkView {
                issued: old(self)@.issued.push(Issued { command: cmd, outcome: r }),
                ..old(self)@
            }),
    {
        let bytes = cmd.encode();
        let r = self.io.write_all(bytes.as_slice());
        proof {
            self.issued@ = self.issued@.push(Issued { command: cmd, outcome: r });
        }
        r
    }

    /// Reads once from the transport into the head of `buf`, and notes
    /// what the read came to: the bytes that came, which are noted
    /// behind those delivered before as well, or the failure. A failed
    /// read delivers nothing; a count above the length of `buf` is a
    /// failed read, refused as `InvalidData`.
    pub fn read(&mut self, buf: &mut [u8]) -> (r: Result<usize>)
        ensures
            final(self)@.issued == old(self)@.issued,
            match r {
                Ok(count) => count <= old(buf)@.len()
                    && final(self)@.reads == old(self)@.reads.push(
                    Ok(final(buf)@.subrange(0, count as int)),
                )
                    && final(self)@.delivered == old(self)@.delivered + final(buf)@.subrange(
                    0,
                    count as int,
                ),
                Err(e) => final(self)@.reads == old(self)@.reads.push(Err(e))
                    && final(self)@.delivered == old(self)@.delivered,
            },
    {
        let space = buf.len();
        let reported = self.io.read(buf);
        let r = checked_read(reported, space);
        proof {
            if r is Ok {
                let came = buf@.subrange(0, r->Ok_0 as int);
                self.reads@ = self.reads@.push(Ok(came));
                self.delivered@ = self.delivered@ + came;
            } else {
                self.reads@ = self.reads@.push(Err(r->Err_0));
            }
        }
        r
    }
}

} // verus!
