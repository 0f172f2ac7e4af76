use muxserve::logging::Severity;
use muxserve::pipeline::Action;
use muxserve::pipeline::Event;
use muxserve::pipeline::Phase;
use muxserve::pipeline::Request;
use muxserve::pipeline::Response;
use muxserve::supervisor::ErrorChain;
use muxserve::supervisor::InitOutcome;
use muxserve::supervisor::RepoPhase;
use muxserve::supervisor::Supervisor;
use muxserve::supervisor::collect_outcomes;
use muxserve::supervisor::exit_code;
use muxserve::supervisor::join_entry;

#[test]
fn error_chain_keeps_every_cause() {
    let mut chain = ErrorChain::new(String::from("failed to bind endpoint"));
    chain.push_cause(String::from("permission denied"));
    assert_eq!(chain.len(), 2);
    assert_eq!(chain.head, "failed to bind endpoint");
    assert_eq!(chain.causes, vec![String::from("permission denied")]);
}

#[test]
fn startup_report_names_the_failed_repo() {
    let mut chain = ErrorChain::new(String::from("failed to bind endpoint"));
    chain.push_cause(String::from("permission denied"));
    let outcomes = vec![
        InitOutcome { name: String::from("repoA"), result: Ok(()) },
        InitOutcome { name: String::from("repoB"), result: Err(chain) },
        InitOutcome { name: String::from("repoC"), result: Ok(()) },
    ];
    let report = collect_outcomes(outcomes);
    assert_eq!(report.serving, vec![String::from("repoA"), String::from("repoC")]);
    assert_eq!(report.failures.len(), 1);
    assert_eq!(report.failures[0].name, "repoB");
    assert!(report.failures[0].chain.len() >= 1);
    assert_eq!(report.failures[0].chain.head, "failed to bind endpoint");
    assert_eq!(report.failures[0].chain.causes, vec![String::from("permission denied")]);
}

#[test]
fn a_fault_never_reaches_a_sibling() {
    let mut sup = Supervisor::new();
    let a = sup.launch(String::from("repoA"));
    let b = sup.launch(String::from("repoB"));

    // repoA is serving a connection.
    let conn = sup.repo_accept(a);
    assert!(matches!(
        sup.repo_step(a, conn, Event::ReqDecoded(Request { payload: b"heads".to_vec() })),
        Action::Dispatch(_)
    ));

    // repoB's context faults; the call returns normally with a critical entry.
    let entry = sup.intercept_fault(b, String::from("listener thread fault"));
    assert_eq!(entry.severity, Severity::Critical);
    assert!(!entry.remote);
    assert_eq!(sup.repos[b].phase, RepoPhase::Faulted);

    // repoA keeps serving exactly as before.
    assert_eq!(sup.repos[a].phase, RepoPhase::Serving);
    assert!(matches!(
        sup.repo_step(a, conn, Event::Responded(Response { payload: b"abc123".to_vec() })),
        Action::Write(_)
    ));
    sup.repo_step(a, conn, Event::WriteDone);
    sup.repo_step(a, conn, Event::InputClosed);
    assert_eq!(sup.repos[a].engine.conns[conn].phase, Phase::ClosedNormal);
    assert_eq!(sup.repos[a].engine.conns[conn].emitted.len(), 1);

    // And the process stays up: only the startup phase decides the exit.
    assert_eq!(exit_code(&Ok(())), 0);
}

#[test]
fn exit_code_follows_startup_alone() {
    assert_eq!(exit_code(&Ok(())), 0);
    assert_eq!(exit_code(&Err(ErrorChain::new(String::from("config source unreachable")))), 1);
}

#[test]
fn joining_reports_only_failures() {
    assert!(join_entry(&Ok(())).is_none());
    let entry = join_entry(&Err(ErrorChain::new(String::from("listener failure")))).unwrap();
    assert_eq!(entry.severity, Severity::Error);
    assert_eq!(entry.message, "listener failure");
    assert!(!entry.remote);
}
