use muxserve::listener::AcceptDecision;
use muxserve::listener::AcceptEvent;
use muxserve::logging::ConnSink;
use muxserve::logging::LogEntry;
use muxserve::logging::Severity;
use muxserve::pipeline::Action;
use muxserve::pipeline::Event;
use muxserve::pipeline::Phase;
use muxserve::pipeline::Request;
use muxserve::pipeline::Response;
use muxserve::supervisor::ErrorChain;
use muxserve::supervisor::InitOutcome;
use muxserve::supervisor::RepoPhase;
use muxserve::supervisor::Supervisor;
use muxserve::supervisor::collect_outcomes;
use muxserve::supervisor::exit_code;

#[test]
fn one_bad_repo_one_good_repo() {
    // repoA is valid; repoB's endpoint directory is unwritable.
    let mut chain = ErrorChain::new(String::from("failed to bind endpoint"));
    chain.push_cause(String::from("endpoint directory unwritable"));
    let outcomes = vec![
        InitOutcome { name: String::from("repoA"), result: Ok(()) },
        InitOutcome { name: String::from("repoB"), result: Err(chain) },
    ];
    let report = collect_outcomes(outcomes);

    // The startup log names repoB with its non-empty cause chain.
    let mut root_log: Vec<LogEntry> = Vec::new();
    for failure in &report.failures {
        root_log.push(LogEntry {
            severity: Severity::Error,
            message: failure.chain.head.clone(),
            remote: false,
        });
        for cause in &failure.chain.causes {
            root_log.push(LogEntry {
                severity: Severity::Error,
                message: cause.clone(),
                remote: false,
            });
        }
    }
    assert_eq!(report.failures.len(), 1);
    assert_eq!(report.failures[0].name, "repoB");
    assert!(report.failures[0].chain.len() >= 1);
    assert_eq!(root_log.len(), 2);
    assert_eq!(root_log[1].message, "endpoint directory unwritable");

    // repoA still reaches a serving state and announces it.
    assert_eq!(report.serving, vec![String::from("repoA")]);
    let mut sup = Supervisor::new();
    let mut repo_a = None;
    for name in report.serving {
        root_log.push(LogEntry {
            severity: Severity::Info,
            message: String::from("Listening for connections"),
            remote: false,
        });
        repo_a = Some(sup.launch(name));
    }
    let repo_a = repo_a.unwrap();
    assert_eq!(sup.repos[repo_a].phase, RepoPhase::Serving);
    assert!(root_log.iter().any(|e| e.message == "Listening for connections"));

    // A client connects to repoA.
    let decision = AcceptDecision::on_accept(AcceptEvent::Connected(Ok(String::from("client-1"))));
    assert!(decision.spawn);
    assert!(decision.keep_listening);
    let mut sink = ConnSink::new(String::from("repoA"), String::from("client-1"), 8);
    sink.emit(decision.entry);
    let conn = sup.repo_accept(repo_a);

    // Two requests, two responses, in order.
    for (request, response) in [(b"heads".to_vec(), b"abc123".to_vec()), (
        b"branches".to_vec(),
        b"default".to_vec(),
    )] {
        match sup.repo_step(repo_a, conn, Event::ReqDecoded(Request { payload: request.clone() })) {
            Action::Dispatch(r) => assert_eq!(r.payload, request),
            _ => panic!("expected a dispatch"),
        }
        match sup.repo_step(repo_a, conn, Event::Responded(Response { payload: response.clone() }))
        {
            Action::Write(r) => assert_eq!(r.payload, response),
            _ => panic!("expected a write"),
        }
        assert!(matches!(sup.repo_step(repo_a, conn, Event::WriteDone), Action::ReadNext));
    }

    // The client disconnects cleanly; no further log activity from it.
    let logged_before = sink.base.len();
    assert!(matches!(sup.repo_step(repo_a, conn, Event::InputClosed), Action::CloseClean));
    let done = &sup.repos[repo_a].engine.conns[conn];
    assert_eq!(done.phase, Phase::ClosedNormal);
    let emitted: Vec<Vec<u8>> = done.emitted.iter().map(|r| r.payload.clone()).collect();
    assert_eq!(emitted, vec![b"abc123".to_vec(), b"default".to_vec()]);
    assert_eq!(sink.base.len(), logged_before);
    assert!(sink.diag.is_empty());

    // The server keeps running: startup alone decides the exit status.
    assert_eq!(exit_code(&Ok(())), 0);
}
