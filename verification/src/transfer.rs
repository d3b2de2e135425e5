//! The single-transfer executor's state machine: one HTTP GET, one
//! output file, one progress count. The runner that owns the socket and
//! the file drives the machine with events (response arrived, chunk
//! written, stream broke, stream ended); the machine decides the
//! transfer's phase, its clamped byte count, and its terminal outcome.

use vstd::prelude::*;

use crate::bytes_util::{ascii_bytes, ascii_seq, dec_digits, u32_digits};
use crate::outcome::{FailureReason, TransferOutcome};

verus! {

/// The host and path under which an archive is fetched by identifier.
pub open spec fn source_prefix() -> Seq<u8> {
    ascii_seq("https://txy1.sayobot.cn/beatmaps/download/mini/"@)
}

/// The query that asks the remote service to pick a mirror.
pub open spec fn source_suffix() -> Seq<u8> {
    ascii_seq("?server=auto"@)
}

/// The download URL for an identifier: the source template with the
/// identifier's decimal digits substituted.
pub open spec fn download_url(id: u32) -> Seq<u8> {
    source_prefix() + dec_digits(id as nat) + source_suffix()
}

/// Build the download URL for `id`.
pub fn build_download_url(id: u32) -> (r: Vec<u8>)
    ensures
        r@ == download_url(id),
{
    proof {
        reveal_strlit("https://txy1.sayobot.cn/beatmaps/download/mini/");
        reveal_strlit("?server=auto");
    }
    let mut r = ascii_bytes("https://txy1.sayobot.cn/beatmaps/download/mini/");
    let mut digits = u32_digits(id);
    let mut suffix = ascii_bytes("?server=auto");
    r.append(&mut digits);
    r.append(&mut suffix);
    proof {
        assert(r@ =~= download_url(id));
    }
    r
}

/// One transfer to perform: an identifier and the URL derived from it.
/// Immutable once created.
pub struct TransferRequest {
    pub id: u32,
    pub url: Vec<u8>,
}

impl TransferRequest {
    pub fn new(id: u32) -> (r: Self)
        ensures
            r.id == id,
            r.url@ == download_url(id),
    {
        TransferRequest { id, url: build_download_url(id) }
    }
}

/// Where a transfer stands: waiting for response headers, streaming the
/// body, or terminal.
#[derive(Clone, Copy, Debug, PartialEq, Eq, Structural)]
pub enum TransferPhase {
    Requesting,
    Streaming,
    Finished,
}

/// The byte count after one chunk: advanced by the chunk's length but
/// clamped to the declared total, guarding against a server that
/// declared a length shorter than the body it sends.
pub open spec fn advance_clamped(downloaded: u64, chunk_len: u64, total: u64) -> u64 {
    if downloaded + chunk_len > total {
        total
    } else {
        (downloaded + chunk_len) as u64
    }
}

/// The state of one transfer. Its invariant: while streaming, the byte
/// count never exceeds the declared total; an outcome exists exactly in
/// the terminal phase, carries this transfer's identifier, and is
/// produced once, since no event leaves the terminal phase.
pub struct TransferTask {
    id: u32,
    phase: TransferPhase,
    total: u64,
    downloaded: u64,
    outcome: Option<TransferOutcome>,
}

impl TransferTask {
    pub closed spec fn spec_id(self) -> u32 {
        self.id
    }

    pub closed spec fn phase(self) -> TransferPhase {
        self.phase
    }

    pub closed spec fn total(self) -> u64 {
        self.total
    }

    pub closed spec fn downloaded(self) -> u64 {
        self.downloaded
    }

    pub closed spec fn spec_outcome(self) -> Option<TransferOutcome> {
        self.outcome
    }

    /// Every reachable task state satisfies this invariant.
    pub closed spec fn wf(self) -> bool {
        &&& self.downloaded <= self.total
        &&& (self.phase is Finished <==> self.outcome is Some)
        &&& (self.outcome matches Some(o) ==> o.spec_id() == self.id)
    }

    /// Begin a transfer for `id`: no response yet, nothing downloaded.
    pub fn start(id: u32) -> (t: Self)
        ensures
            t.wf(),
            t.spec_id() == id,
            t.phase() is Requesting,
            t.downloaded() == 0,
    {
        TransferTask {
            id,
            phase: TransferPhase::Requesting,
            total: 0,
            downloaded: 0,
            outcome: None,
        }
    }

    /// The request could not be sent or answered: the transfer fails
    /// with a transport error.
    pub fn on_request_error(&mut self)
        requires
            old(self).wf(),
            old(self).phase() is Requesting,
        ensures
            final(self).wf(),
            final(self).spec_id() == old(self).spec_id(),
            final(self).phase() is Finished,
            final(self).spec_outcome() == Some(
                TransferOutcome::Failure(old(self).spec_id(), FailureReason::Transport),
            ),
    {
        self.phase = TransferPhase::Finished;
        self.outcome = Some(TransferOutcome::Failure(self.id, FailureReason::Transport));
    }

    /// Response headers arrived carrying `content_length`. A missing
    /// length fails the transfer with `MissingLength`; a declared length
    /// of exactly zero fails it with `EmptyContent`; any other length
    /// starts the streaming phase with that total. The result says
    /// whether streaming began.
    pub fn on_response(&mut self, content_length: Option<u64>) -> (accepted: bool)
        requires
            old(self).wf(),
            old(self).phase() is Requesting,
        ensures
            final(self).wf(),
            final(self).spec_id() == old(self).spec_id(),
            content_length is None ==> final(self).phase() is Finished
                && final(self).spec_outcome() == Some(
                TransferOutcome::Failure(old(self).spec_id(), FailureReason::MissingLength),
            ),
            content_length == Some(0u64) ==> final(self).phase() is Finished
                && final(self).spec_outcome() == Some(
                TransferOutcome::Failure(old(self).spec_id(), FailureReason::EmptyContent),
            ),
            (content_length matches Some(n) && n > 0) ==> final(self).phase() is Streaming
                && final(self).total() == content_length->0 && final(self).downloaded() == 0,
            accepted == (content_length matches Some(n) && n > 0),
    {
        match content_length {
            None => {
                self.phase = TransferPhase::Finished;
                self.outcome = Some(
                    TransferOutcome::Failure(self.id, FailureReason::MissingLength),
                );
                false
            },
            Some(n) => {
                if n == 0 {
                    self.phase = TransferPhase::Finished;
                    self.outcome = Some(
                        TransferOutcome::Failure(self.id, FailureReason::EmptyContent),
                    );
                    false
                } else {
                    self.phase = TransferPhase::Streaming;
                    self.total = n;
                    self.downloaded = 0;
                    true
                }
            },
        }
    }

    /// A chunk of `chunk_len` bytes arrived and was written (or not).
    /// A failed write fails the transfer with an I/O error; otherwise
    /// the byte count advances monotonically, clamped to the declared
    /// total. The result is the byte count after the event, for the
    /// progress display.
    pub fn on_chunk(&mut self, chunk_len: u64, write_ok: bool) -> (position: u64)
        requires
            old(self).wf(),
            old(self).phase() is Streaming,
        ensures
            final(self).wf(),
            final(self).spec_id() == old(self).spec_id(),
            final(self).total() == old(self).total(),
            !write_ok ==> final(self).phase() is Finished && final(self).spec_outcome() == Some(
                TransferOutcome::Failure(old(self).spec_id(), FailureReason::Io),
            ),
            write_ok ==> final(self).phase() is Streaming && final(self).downloaded()
                == advance_clamped(old(self).downloaded(), chunk_len, old(self).total()),
            write_ok ==> old(self).downloaded() <= final(self).downloaded()
                <= final(self).total(),
            position == final(self).downloaded(),
    {
        if !write_ok {
            self.phase = TransferPhase::Finished;
            self.outcome = Some(TransferOutcome::Failure(self.id, FailureReason::Io));
            return self.downloaded;
        }
        if chunk_len > self.total - self.downloaded {
            self.downloaded = self.total;
        } else {
            self.downloaded = self.downloaded + chunk_len;
        }
        self.downloaded
    }

    /// The body stream broke before it was exhausted: the transfer fails
    /// with a transport error. The partial file stays on disk; cleaning
    /// it up is out of scope.
    pub fn on_body_error(&mut self)
        requires
            old(self).wf(),
            old(self).phase() is Streaming,
        ensures
            final(self).wf(),
            final(self).spec_id() == old(self).spec_id(),
            final(self).phase() is Finished,
            final(self).spec_outcome() == Some(
                TransferOutcome::Failure(old(self).spec_id(), FailureReason::Transport),
            ),
    {
        self.phase = TransferPhase::Finished;
        self.outcome = Some(TransferOutcome::Failure(self.id, FailureReason::Transport));
    }

    /// The body stream ended: the transfer succeeded.
    pub fn on_body_end(&mut self)
        requires
            old(self).wf(),
            old(self).phase() is Streaming,
        ensures
            final(self).wf(),
            final(self).spec_id() == old(self).spec_id(),
            final(self).phase() is Finished,
            final(self).spec_outcome() == Some(TransferOutcome::Success(old(self).spec_id())),
    {
        self.phase = TransferPhase::Finished;
        self.outcome = Some(TransferOutcome::Success(self.id));
    }

    /// The transfer's terminal outcome, once it is finished.
    pub fn outcome(&self) -> (r: TransferOutcome)
        requires
            self.wf(),
            self.phase() is Finished,
        ensures
            Some(r) == self.spec_outcome(),
            r.spec_id() == self.spec_id(),
    {
        match &self.outcome {
            Some(o) => *o,
            None => {
                proof {
                    assert(false);
                }
                TransferOutcome::Success(0)
            },
        }
    }

    pub fn id(&self) -> (r: u32)
        ensures
            r == self.spec_id(),
    {
        self.id
    }

    pub fn current_phase(&self) -> (r: TransferPhase)
        ensures
            r == self.phase(),
    {
        self.phase
    }

    pub fn position(&self) -> (r: u64)
        ensures
            r == self.downloaded(),
    {
        self.downloaded
    }

    pub fn declared_total(&self) -> (r: u64)
        ensures
            r == self.total(),
    {
        self.total
    }
}

} // verus!
