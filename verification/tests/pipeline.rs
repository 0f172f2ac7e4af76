use muxserve::pipeline::Action;
use muxserve::pipeline::Conn;
use muxserve::pipeline::Engine;
use muxserve::pipeline::Event;
use muxserve::pipeline::Phase;
use muxserve::pipeline::Request;
use muxserve::pipeline::Response;

fn req(bytes: &[u8]) -> Event {
    Event::ReqDecoded(Request { payload: bytes.to_vec() })
}

fn resp(bytes: &[u8]) -> Event {
    Event::Responded(Response { payload: bytes.to_vec() })
}

fn emitted_payloads(conn: &Conn) -> Vec<Vec<u8>> {
    conn.emitted.iter().map(|r| r.payload.clone()).collect()
}

#[test]
fn two_requests_two_responses_in_order() {
    let mut conn = Conn::new();
    assert_eq!(conn.phase, Phase::Reading);

    match conn.handle(req(b"heads")) {
        Action::Dispatch(r) => assert_eq!(r.payload, b"heads".to_vec()),
        _ => panic!("expected a dispatch"),
    }
    match conn.handle(resp(b"abc123")) {
        Action::Write(r) => assert_eq!(r.payload, b"abc123".to_vec()),
        _ => panic!("expected a write"),
    }
    assert!(matches!(conn.handle(Event::WriteDone), Action::ReadNext));

    match conn.handle(req(b"branches")) {
        Action::Dispatch(r) => assert_eq!(r.payload, b"branches".to_vec()),
        _ => panic!("expected a dispatch"),
    }
    match conn.handle(resp(b"default")) {
        Action::Write(r) => assert_eq!(r.payload, b"default".to_vec()),
        _ => panic!("expected a write"),
    }
    assert!(matches!(conn.handle(Event::WriteDone), Action::ReadNext));

    assert!(matches!(conn.handle(Event::InputClosed), Action::CloseClean));
    assert_eq!(conn.phase, Phase::ClosedNormal);
    assert_eq!(emitted_payloads(&conn), vec![b"abc123".to_vec(), b"default".to_vec()]);
}

#[test]
fn dispatch_failure_closes_with_cause() {
    let mut conn = Conn::new();
    assert!(matches!(conn.handle(req(b"pull")), Action::Dispatch(_)));
    match conn.handle(Event::DispatchFailed(String::from("no such revision"))) {
        Action::LogAndClose(cause) => assert_eq!(cause, "no such revision"),
        _ => panic!("expected the connection to close with the cause"),
    }
    assert_eq!(conn.phase, Phase::ClosedErrored);
    assert!(conn.emitted.is_empty());
}

#[test]
fn write_failure_closes_with_cause() {
    let mut conn = Conn::new();
    assert!(matches!(conn.handle(req(b"pull")), Action::Dispatch(_)));
    assert!(matches!(conn.handle(resp(b"data")), Action::Write(_)));
    match conn.handle(Event::WriteFailed(String::from("peer went away"))) {
        Action::LogAndClose(cause) => assert_eq!(cause, "peer went away"),
        _ => panic!("expected the connection to close with the cause"),
    }
    assert_eq!(conn.phase, Phase::ClosedErrored);
}

#[test]
fn unexpected_completion_closes_errored() {
    let mut conn = Conn::new();
    assert!(matches!(conn.handle(Event::WriteDone), Action::LogAndClose(_)));
    assert_eq!(conn.phase, Phase::ClosedErrored);
}

#[test]
fn closed_connection_ignores_events() {
    let mut conn = Conn::new();
    assert!(matches!(conn.handle(Event::InputClosed), Action::CloseClean));
    assert!(matches!(conn.handle(req(b"late")), Action::Ignore));
    assert_eq!(conn.phase, Phase::ClosedNormal);
    assert!(conn.emitted.is_empty());
}

#[test]
fn interleaved_connections_stay_in_order() {
    let mut engine = Engine::new();
    let a = engine.accept();
    let b = engine.accept();
    assert_eq!(engine.conn_count(), 2);

    let trace = vec![
        (a, req(b"a1")),
        (b, req(b"b1")),
        (a, resp(b"ra1")),
        (b, resp(b"rb1")),
        (b, Event::WriteDone),
        (a, Event::WriteDone),
        (b, req(b"b2")),
        (a, Event::InputClosed),
        (b, resp(b"rb2")),
        (b, Event::WriteDone),
        (b, Event::InputClosed),
    ];
    engine.run_events(trace);

    assert_eq!(engine.conns[a].phase, Phase::ClosedNormal);
    assert_eq!(emitted_payloads(&engine.conns[a]), vec![b"ra1".to_vec()]);
    assert_eq!(engine.conns[b].phase, Phase::ClosedNormal);
    assert_eq!(emitted_payloads(&engine.conns[b]), vec![b"rb1".to_vec(), b"rb2".to_vec()]);
}

#[test]
fn decode_error_terminates_only_its_connection() {
    let mut engine = Engine::new();
    let a = engine.accept();
    let b = engine.accept();

    // B answers one request before A fails, and one after.
    engine.step(b, req(b"b1"));
    engine.step(b, resp(b"rb1"));
    engine.step(a, req(b"a1"));
    engine.step(a, resp(b"ra1"));
    engine.step(a, Event::WriteDone);
    engine.step(b, Event::WriteDone);
    let act = engine.step(a, Event::DecodeFailed(String::from("malformed command")));
    match act {
        Action::LogAndClose(cause) => assert_eq!(cause, "malformed command"),
        _ => panic!("expected A to close with the cause"),
    }
    engine.step(b, req(b"b2"));
    engine.step(b, resp(b"rb2"));
    engine.step(b, Event::WriteDone);
    engine.step(b, Event::InputClosed);

    assert_eq!(engine.conns[a].phase, Phase::ClosedErrored);
    assert_eq!(emitted_payloads(&engine.conns[a]), vec![b"ra1".to_vec()]);
    assert_eq!(engine.conns[b].phase, Phase::ClosedNormal);
    assert_eq!(emitted_payloads(&engine.conns[b]), vec![b"rb1".to_vec(), b"rb2".to_vec()]);
}
