//! The logging bridge of one connection.
//!
//! A connection-scoped sink duplicates every emitted entry to the process-wide
//! base log and, additionally, onto the connection's diagnostic logical stream
//! — but only entries whose severity reaches the configured threshold and that
//! carry the remote-visibility tag. The diagnostic side is a bounded,
//! best-effort queue: when the remote peer is gone or the queue is full the
//! entry is dropped there, while the local side is never blocked or skipped.

use vstd::prelude::*;

verus! {

/// Severity of a log entry, from least to most severe.
#[derive(Clone, Copy, PartialEq, Eq, Structural, Debug)]
pub enum Severity {
    Trace,
    Debug,
    Info,
    Warning,
    Error,
    Critical,
}

/// Rank of a severity; a larger rank means more severe.
pub open spec fn severity_rank(s: Severity) -> int {
    match s {
        Severity::Trace => 0,
        Severity::Debug => 1,
        Severity::Info => 2,
        Severity::Warning => 3,
        Severity::Error => 4,
        Severity::Critical => 5,
    }
}

/// True when `a` is at least as severe as `b`.
pub fn severity_at_least(a: Severity, b: Severity) -> (r: bool)
    ensures
        r == (severity_rank(a) >= severity_rank(b)),
{
    let ra: u8 = match a {
        Severity::Trace => 0,
        Severity::Debug => 1,
        Severity::Info => 2,
        Severity::Warning => 3,
        Severity::Error => 4,
        Severity::Critical => 5,
    };
    let rb: u8 = match b {
        Severity::Trace => 0,
        Severity::Debug => 1,
        Severity::Info => 2,
        Severity::Warning => 3,
        Severity::Error => 4,
        Severity::Critical => 5,
    };
    ra >= rb
}

/// One log entry: severity, message, and whether it is tagged for the remote
/// client's diagnostic stream.
pub struct LogEntry {
    pub severity: Severity,
    pub message: String,
    pub remote: bool,
}

/// Mathematical model of a log entry.
pub struct EntryModel {
    pub severity: Severity,
    pub message: Seq<char>,
    pub remote: bool,
}

impl View for LogEntry {
    type V = EntryModel;

    open spec fn view(&self) -> EntryModel {
        EntryModel { severity: self.severity, message: self.message@, remote: self.remote }
    }
}

/// Model of a sequence of entries.
pub open spec fn entries_model(s: Seq<LogEntry>) -> Seq<EntryModel> {
    Seq::new(s.len(), |i: int| s[i]@)
}

/// An entry reaches the diagnostic stream only when it is at least as severe
/// as the threshold and carries the remote-visibility tag.
pub open spec fn remote_visible(e: EntryModel, threshold: Severity) -> bool {
    severity_rank(e.severity) >= severity_rank(threshold) && e.remote
}

/// Mathematical model of a connection-scoped sink.
pub struct SinkModel {
    pub repo: Seq<char>,
    pub peer: Seq<char>,
    pub threshold: Severity,
    pub capacity: nat,
    pub peer_attached: bool,
    pub base: Seq<EntryModel>,
    pub diag: Seq<EntryModel>,
}

/// What one emission does to the sink: the base log always grows by the entry;
/// the diagnostic stream grows only for a remote-visible entry, and only while
/// the peer is attached and the bounded queue has room.
pub open spec fn sink_emit(m: SinkModel, e: EntryModel) -> SinkModel {
    SinkModel {
        base: m.base.push(e),
        diag: if remote_visible(e, m.threshold) && m.peer_attached && m.diag.len() < m.capacity {
            m.diag.push(e)
        } else {
            m.diag
        },
        ..m
    }
}

/// The sink's invariant: the diagnostic stream holds only remote-visible
/// entries and never more than its capacity.
pub open spec fn sink_wf(m: SinkModel) -> bool {
    &&& m.diag.len() <= m.capacity
    &&& forall|i: int| 0 <= i < m.diag.len() ==> remote_visible(#[trigger] m.diag[i], m.threshold)
}

/// A log sink scoped to one connection, tagged with the repository name and
/// the peer address. `base` models what reached the process-wide log and
/// `diag` what reached the connection's diagnostic logical stream.
pub struct ConnSink {
    pub repo: String,
    pub peer: String,
    pub threshold: Severity,
    pub capacity: usize,
    pub peer_attached: bool,
    pub base: Vec<LogEntry>,
    pub diag: Vec<LogEntry>,
}

impl View for ConnSink {
    type V = SinkModel;

    open spec fn view(&self) -> SinkModel {
        SinkModel {
            repo: self.repo@,
            peer: self.peer@,
            threshold: self.threshold,
            capacity: self.capacity as nat,
            peer_attached: self.peer_attached,
            base: entries_model(self.base@),
            diag: entries_model(self.diag@),
        }
    }
}

impl ConnSink {
    /// A fresh sink for one connection, with the default threshold: only
    /// critical entries may reach the remote diagnostic stream.
    pub fn new(repo: String, peer: String, capacity: usize) -> (s: ConnSink)
        ensures
            s@.repo == repo@,
            s@.peer == peer@,
            s@.threshold == Severity::Critical,
            s@.capacity == capacity as nat,
            s@.peer_attached,
            s@.base == Seq::<EntryModel>::empty(),
            s@.diag == Seq::<EntryModel>::empty(),
            sink_wf(s@),
    {
        let s = ConnSink {
            repo,
            peer,
            threshold: Severity::Critical,
            capacity,
            peer_attached: true,
            base: Vec::new(),
            diag: Vec::new(),
        };
        proof {
            assert(entries_model(s.base@) =~= Seq::<EntryModel>::empty());
            assert(entries_model(s.diag@) =~= Seq::<EntryModel>::empty());
        }
        s
    }

    /// A fresh sink with an explicit severity threshold for the remote side.
    pub fn with_threshold(repo: String, peer: String, capacity: usize, threshold: Severity) -> (s:
        ConnSink)
        ensures
            s@.repo == repo@,
            s@.peer == peer@,
            s@.threshold == threshold,
            s@.capacity == capacity as nat,
            s@.peer_attached,
            s@.base == Seq::<EntryModel>::empty(),
            s@.diag == Seq::<EntryModel>::empty(),
            sink_wf(s@),
    {
        let s = ConnSink {
            repo,
            peer,
            threshold,
            capacity,
            peer_attached: true,
            base: Vec::new(),
            diag: Vec::new(),
        };
        proof {
            assert(entries_model(s.base@) =~= Seq::<EntryModel>::empty());
            assert(entries_model(s.diag@) =~= Seq::<EntryModel>::empty());
        }
        s
    }

    /// Record that the remote peer is gone; later entries stay local-only.
    pub fn detach_peer(&mut self)
        ensures
            final(self)@ == (SinkModel { peer_attached: false, ..old(self)@ }),
    {
        self.peer_attached = false;
    }

    /// Emit one entry through the bridge: it always reaches the base log, and
    /// reaches the diagnostic stream exactly when `sink_emit` says so.
    pub fn emit(&mut self, entry: LogEntry)
        ensures
            final(self)@ == sink_emit(old(self)@, entry@),
    {
        let ghost e = entry@;
        let to_diag = severity_at_least(entry.severity, self.threshold) && entry.remote
            && self.peer_attached && self.diag.len() < self.capacity;
        if to_diag {
            let copy = LogEntry {
                severity: entry.severity,
                message: String::from_str(entry.message.as_str()),
                remote: entry.remote,
            };
            assert(copy@ == e);
            self.diag.push(copy);
        }
        self.base.push(entry);
        proof {
            assert(entries_model(self.base@) =~= entries_model(old(self).base@).push(e));
            if to_diag {
                assert(entries_model(self.diag@) =~= entries_model(old(self).diag@).push(e));
            } else {
                assert(entries_model(self.diag@) =~= entries_model(old(self).diag@));
            }
        }
    }
}

/// Emitting never removes from either side, and the base log always receives
/// the entry, whatever its severity or tag: local logging is never skipped.
pub proof fn lemma_base_always_receives(m: SinkModel, e: EntryModel)
    ensures
        sink_emit(m, e).base == m.base.push(e),
        m.diag.len() <= sink_emit(m, e).diag.len(),
{
}

/// An entry below the threshold, or one missing the remote-visibility tag,
/// never appears on the diagnostic stream, while it always appears in the
/// process-wide log.
pub proof fn lemma_below_threshold_stays_local(m: SinkModel, e: EntryModel)
    requires
        !remote_visible(e, m.threshold),
    ensures
        sink_emit(m, e).diag == m.diag,
        sink_emit(m, e).base == m.base.push(e),
{
}

/// The sink invariant is preserved by every emission: the diagnostic stream
/// only ever holds remote-visible entries, within its capacity.
pub proof fn lemma_emit_preserves_wf(m: SinkModel, e: EntryModel)
    requires
        sink_wf(m),
    ensures
        sink_wf(sink_emit(m, e)),
{
    let m2 = sink_emit(m, e);
    assert forall|i: int| 0 <= i < m2.diag.len() implies remote_visible(
        #[trigger] m2.diag[i],
        m2.threshold,
    ) by {
        if i < m.diag.len() {
            assert(remote_visible(m.diag[i], m.threshold));
        }
    }
}

/// Error reported by the diagnostic byte stream.
#[derive(Clone, Copy, PartialEq, Eq, Structural, Debug)]
pub enum DiagWriteError {
    /// The consumer side of the stream is gone.
    PeerGone,
    /// The bounded queue is at capacity; the caller may retry later.
    QueueFull,
}

/// Model of the bounded diagnostic byte queue.
pub struct DiagStreamModel {
    pub open_: bool,
    pub capacity: nat,
    pub chunks: Seq<Seq<u8>>,
}

/// The write-side adapter over the bounded queue that carries rendered
/// diagnostic bytes back to the peer. A full queue or a departed peer is
/// reported to the caller instead of blocking local logging.
pub struct DiagStream {
    pub open_: bool,
    pub capacity: usize,
    pub chunks: Vec<Vec<u8>>,
}

/// Model of a sequence of byte chunks.
pub open spec fn chunks_model(s: Seq<Vec<u8>>) -> Seq<Seq<u8>> {
    Seq::new(s.len(), |i: int| s[i]@)
}

impl View for DiagStream {
    type V = DiagStreamModel;

    open spec fn view(&self) -> DiagStreamModel {
        DiagStreamModel {
            open_: self.open_,
            capacity: self.capacity as nat,
            chunks: chunks_model(self.chunks@),
        }
    }
}

impl DiagStream {
    /// A fresh, open stream of the given bound.
    pub fn new(capacity: usize) -> (s: DiagStream)
        ensures
            s@.open_,
            s@.capacity == capacity as nat,
            s@.chunks == Seq::<Seq<u8>>::empty(),
    {
        let s = DiagStream { open_: true, capacity, chunks: Vec::new() };
        proof {
            assert(chunks_model(s.chunks@) =~= Seq::<Seq<u8>>::empty());
        }
        s
    }

    /// The consumer side has gone away.
    pub fn close(&mut self)
        ensures
            final(self)@ == (DiagStreamModel { open_: false, ..old(self)@ }),
    {
        self.open_ = false;
    }

    /// Enqueue one chunk of bytes. On success the whole chunk is accepted and
    /// its length returned; a departed peer or a full queue is reported
    /// without changing the queue.
    pub fn write_chunk(&mut self, buf: Vec<u8>) -> (r: Result<usize, DiagWriteError>)
        ensures
            !old(self)@.open_ ==> r == Err::<usize, DiagWriteError>(DiagWriteError::PeerGone)
                && final(self)@ == old(self)@,
            old(self)@.open_ && old(self)@.chunks.len() >= old(self)@.capacity ==> r == Err::<
                usize,
                DiagWriteError,
            >(DiagWriteError::QueueFull) && final(self)@ == old(self)@,
            old(self)@.open_ && old(self)@.chunks.len() < old(self)@.capacity ==> r == Ok::<
                usize,
                DiagWriteError,
            >(buf.len()) && final(self)@ == (DiagStreamModel {
                chunks: old(self)@.chunks.push(buf@),
                ..old(self)@
            }),
    {
        if !self.open_ {
            Err(DiagWriteError::PeerGone)
        } else if self.chunks.len() >= self.capacity {
            Err(DiagWriteError::QueueFull)
        } else {
            let n = buf.len();
            let ghost b = buf@;
            self.chunks.push(buf);
            proof {
                assert(chunks_model(self.chunks@) =~= chunks_model(old(self).chunks@).push(b));
            }
            Ok(n)
        }
    }

    /// Flush the queue towards the peer: succeeds exactly while the consumer
    /// side is still there.
    pub fn flush(&self) -> (r: Result<(), DiagWriteError>)
        ensures
            self@.open_ ==> r == Ok::<(), DiagWriteError>(()),
            !self@.open_ ==> r == Err::<(), DiagWriteError>(DiagWriteError::PeerGone),
    {
        if self.open_ {
            Ok(())
        } else {
            Err(DiagWriteError::PeerGone)
        }
    }
}

} // verus!
