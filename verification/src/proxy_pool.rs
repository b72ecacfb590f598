//! The transfer logic of the local forwarding proxy: how a peer's stream is
//! accumulated chunk by chunk and when a session ends. The sockets live
//! outside; each read's outcome is handed in as a plain event, and the
//! loop around the socket acts on the state these transitions leave.

use vstd::prelude::*;

verus! {

/// What one socket read yielded: some bytes, an orderly close, or an error.
pub enum ReadOutcome {
    Chunk(Vec<u8>),
    Failed,
}

/// One direction of a proxied session: the bytes gathered so far and
/// whether the transfer has ended, orderly or not.
pub struct Transfer {
    pub buffer: Vec<u8>,
    pub finished: bool,
    pub failed: bool,
}

impl Transfer {
    /// A transfer that has seen nothing yet.
    pub fn new() -> (r: Self)
        ensures
            r.buffer@ == Seq::<u8>::empty(),
            !r.finished,
            !r.failed,
    {
        Transfer { buffer: Vec::new(), finished: false, failed: false }
    }

    /// Feed the upstream read loop one outcome: bytes extend the buffer, an
    /// empty read is the end of the response, and an error abandons the
    /// transfer with what was gathered.
    pub fn feed_upstream(&mut self, outcome: ReadOutcome)
        requires
            !old(self).finished,
            !old(self).failed,
        ensures
            match outcome {
                ReadOutcome::Chunk(b) => if b@.len() == 0 {
                    final(self).buffer@ == old(self).buffer@ && final(self).finished
                        && !final(self).failed
                } else {
                    final(self).buffer@ == old(self).buffer@ + b@ && !final(self).finished
                        && !final(self).failed
                },
                ReadOutcome::Failed => final(self).buffer@ == old(self).buffer@
                    && final(self).finished && final(self).failed,
            },
    {
        match outcome {
            ReadOutcome::Chunk(b) => {
                if b.len() == 0 {
                    self.finished = true;
                } else {
                    let mut incoming = b;
                    self.buffer.append(&mut incoming);
                }
            },
            ReadOutcome::Failed => {
                self.finished = true;
                self.failed = true;
            },
        }
    }

    /// Feed the client-side read loop one outcome: bytes extend the
    /// request; any other outcome, an error or the read timeout included,
    /// means the request has been gathered whole.
    pub fn feed_client(&mut self, outcome: ReadOutcome)
        requires
            !old(self).finished,
            !old(self).failed,
        ensures
            match outcome {
                ReadOutcome::Chunk(b) => final(self).buffer@ == old(self).buffer@ + b@
                    && !final(self).finished && !final(self).failed,
                ReadOutcome::Failed => final(self).buffer@ == old(self).buffer@
                    && final(self).finished && !final(self).failed,
            },
    {
        match outcome {
            ReadOutcome::Chunk(b) => {
                let mut incoming = b;
                self.buffer.append(&mut incoming);
            },
            ReadOutcome::Failed => {
                self.finished = true;
            },
        }
    }
}

} // verus!
