use muxserve::logging::ConnSink;
use muxserve::logging::DiagStream;
use muxserve::logging::DiagWriteError;
use muxserve::logging::LogEntry;
use muxserve::logging::Severity;

fn entry(severity: Severity, message: &str, remote: bool) -> LogEntry {
    LogEntry { severity, message: String::from(message), remote }
}

fn sink() -> ConnSink {
    ConnSink::new(String::from("repoA"), String::from("client-1"), 8)
}

#[test]
fn below_threshold_stays_local() {
    let mut s = sink();
    s.emit(entry(Severity::Info, "tagged but mild", true));
    assert_eq!(s.base.len(), 1);
    assert_eq!(s.base[0].message, "tagged but mild");
    assert!(s.diag.is_empty());
}

#[test]
fn untagged_critical_stays_local() {
    let mut s = sink();
    s.emit(entry(Severity::Critical, "severe but untagged", false));
    assert_eq!(s.base.len(), 1);
    assert!(s.diag.is_empty());
}

#[test]
fn tagged_critical_reaches_the_peer() {
    let mut s = sink();
    s.emit(entry(Severity::Critical, "command failed", true));
    assert_eq!(s.base.len(), 1);
    assert_eq!(s.diag.len(), 1);
    assert_eq!(s.diag[0].message, "command failed");
}

#[test]
fn full_queue_drops_only_the_remote_copy() {
    let mut s = ConnSink::new(String::from("repoA"), String::from("client-1"), 1);
    s.emit(entry(Severity::Critical, "first", true));
    s.emit(entry(Severity::Critical, "second", true));
    assert_eq!(s.base.len(), 2);
    assert_eq!(s.diag.len(), 1);
    assert_eq!(s.diag[0].message, "first");
}

#[test]
fn departed_peer_drops_only_the_remote_copy() {
    let mut s = sink();
    s.detach_peer();
    s.emit(entry(Severity::Critical, "too late", true));
    assert_eq!(s.base.len(), 1);
    assert!(s.diag.is_empty());
}

#[test]
fn lowered_threshold_admits_lower_severities() {
    let mut s = ConnSink::with_threshold(
        String::from("repoA"),
        String::from("client-1"),
        8,
        Severity::Info,
    );
    s.emit(entry(Severity::Info, "routine", true));
    s.emit(entry(Severity::Debug, "chatter", true));
    assert_eq!(s.base.len(), 2);
    assert_eq!(s.diag.len(), 1);
    assert_eq!(s.diag[0].message, "routine");
}

#[test]
fn diag_stream_accepts_whole_chunks() {
    let mut d = DiagStream::new(2);
    assert_eq!(d.write_chunk(b"log line\n".to_vec()), Ok(9));
    assert_eq!(d.chunks.len(), 1);
    assert_eq!(d.chunks[0], b"log line\n".to_vec());
    assert_eq!(d.flush(), Ok(()));
}

#[test]
fn diag_stream_reports_a_full_queue() {
    let mut d = DiagStream::new(1);
    assert_eq!(d.write_chunk(b"one".to_vec()), Ok(3));
    assert_eq!(d.write_chunk(b"two".to_vec()), Err(DiagWriteError::QueueFull));
    assert_eq!(d.chunks.len(), 1);
}

#[test]
fn diag_stream_reports_a_departed_peer() {
    let mut d = DiagStream::new(4);
    d.close();
    assert_eq!(d.write_chunk(b"gone".to_vec()), Err(DiagWriteError::PeerGone));
    assert!(d.chunks.is_empty());
    assert_eq!(d.flush(), Err(DiagWriteError::PeerGone));
}
