//! Per-repository startup outcomes, fault interception and the aggregated
//! startup report.
//!
//! Each configured repository is initialized independently: a failure to bind
//! its endpoint or build its service becomes one entry of the startup report,
//! with its full cause chain, and never touches a sibling repository. Each
//! successfully initialized repository then runs its listener inside one
//! isolated execution context; an unexpected fault there is intercepted at
//! the context boundary, logged as critical for that repository only, and
//! turned into a terminal, non-propagating outcome. Only a failure of the
//! initial, pre-serving startup phase makes the process exit nonzero.

use vstd::prelude::*;
use crate::logging::LogEntry;
use crate::logging::Severity;
use crate::pipeline::Action;
use crate::pipeline::ConnModel;
use crate::pipeline::Engine;
use crate::pipeline::Event;
use crate::pipeline::conn_step;
use crate::pipeline::engine_step_m;
use crate::pipeline::init_conn;

verus! {

/// How a repository is stored.
#[derive(Clone, Copy, PartialEq, Eq, Structural, Debug)]
pub enum RepoKind {
    /// The classical on-disk layout.
    Revlog,
    /// The blob-backed layout.
    Blob,
}

/// One managed repository, resolved at startup and immutable thereafter.
pub struct RepoConfig {
    /// The repository's name.
    pub name: String,
    /// How the repository is stored.
    pub kind: RepoKind,
    /// Its resolved local path.
    pub path: String,
    /// The endpoint its listener binds, derived outside from the path.
    pub endpoint: String,
}

/// A cause chain: the failure itself, then each underlying cause in order.
/// It is never empty.
pub struct ErrorChain {
    /// The failure itself.
    pub head: String,
    /// The underlying causes, outermost first.
    pub causes: Vec<String>,
}

/// Model of a sequence of strings.
pub open spec fn strings_model(s: Seq<String>) -> Seq<Seq<char>> {
    Seq::new(s.len(), |i: int| s[i]@)
}

impl View for ErrorChain {
    type V = Seq<Seq<char>>;

    open spec fn view(&self) -> Seq<Seq<char>> {
        seq![self.head@] + strings_model(self.causes@)
    }
}

impl ErrorChain {
    /// A chain of just the failure itself.
    pub fn new(head: String) -> (c: ErrorChain)
        ensures
            c@ == seq![head@],
    {
        let c = ErrorChain { head, causes: Vec::new() };
        proof {
            assert(strings_model(c.causes@) =~= Seq::<Seq<char>>::empty());
            assert(c@ =~= seq![c.head@]);
        }
        c
    }

    /// Add the next underlying cause.
    pub fn push_cause(&mut self, cause: String)
        ensures
            final(self)@ == old(self)@.push(cause@),
    {
        let ghost pre = self@;
        self.causes.push(cause);
        proof {
            assert(strings_model(self.causes@) =~= strings_model(old(self).causes@).push(
                self.causes@.last()@,
            ));
            assert(self@ =~= pre.push(self.causes@.last()@));
        }
    }

    /// How many links the chain has; at least the failure itself.
    pub fn len(&self) -> (n: usize)
        requires
            self.causes@.len() < usize::MAX,
        ensures
            n == self@.len(),
            n >= 1,
    {
        1 + self.causes.len()
    }
}

/// A cause chain is never empty.
pub proof fn lemma_chain_nonempty(c: &ErrorChain)
    ensures
        c@.len() >= 1,
{
}

/// The result of one repository's initialization.
pub struct InitOutcome {
    /// The repository's name.
    pub name: String,
    /// Success, or the failure's cause chain.
    pub result: Result<(), ErrorChain>,
}

/// Model of one initialization outcome.
#[verifier::ext_equal]
pub struct OutcomeModel {
    pub name: Seq<char>,
    pub failure: Option<Seq<Seq<char>>>,
}

impl View for InitOutcome {
    type V = OutcomeModel;

    open spec fn view(&self) -> OutcomeModel {
        OutcomeModel {
            name: self.name@,
            failure: match self.result {
                Ok(_) => None,
                Err(ref c) => Some(c@),
            },
        }
    }
}

/// Model of a sequence of outcomes.
pub open spec fn outcomes_model(s: Seq<InitOutcome>) -> Seq<OutcomeModel> {
    Seq::new(s.len(), |i: int| s[i]@)
}

/// The repositories that reached a serving state, in configuration order.
pub open spec fn serving_names(s: Seq<OutcomeModel>) -> Seq<Seq<char>>
    decreases s.len(),
{
    if s.len() == 0 {
        Seq::empty()
    } else if s[0].failure is None {
        seq![s[0].name] + serving_names(s.drop_first())
    } else {
        serving_names(s.drop_first())
    }
}

/// One entry of the startup report: a repository that failed to initialize,
/// with its cause chain.
#[verifier::ext_equal]
pub struct FailureModel {
    pub name: Seq<char>,
    pub chain: Seq<Seq<char>>,
}

/// The failed repositories with their cause chains, in configuration order.
pub open spec fn failure_report(s: Seq<OutcomeModel>) -> Seq<FailureModel>
    decreases s.len(),
{
    if s.len() == 0 {
        Seq::empty()
    } else if s[0].failure is Some {
        seq![FailureModel { name: s[0].name, chain: s[0].failure.unwrap() }] + failure_report(
            s.drop_first(),
        )
    } else {
        failure_report(s.drop_first())
    }
}

/// A repository that failed to initialize, with its cause chain.
pub struct RepoFailure {
    pub name: String,
    pub chain: ErrorChain,
}

impl View for RepoFailure {
    type V = FailureModel;

    open spec fn view(&self) -> FailureModel {
        FailureModel { name: self.name@, chain: self.chain@ }
    }
}

/// Model of a sequence of failures.
pub open spec fn failures_model(s: Seq<RepoFailure>) -> Seq<FailureModel> {
    Seq::new(s.len(), |i: int| s[i]@)
}

/// The aggregated result of starting all configured repositories.
pub struct StartupReport {
    /// The repositories that reached a serving state, in order.
    pub serving: Vec<String>,
    /// The repositories that failed to initialize, each with its full cause
    /// chain, in order.
    pub failures: Vec<RepoFailure>,
}

/// Aggregate the per-repository initialization outcomes: every failed
/// repository appears in the report by name with its cause chain, every
/// other repository reaches the serving list, both in configuration order.
pub fn collect_outcomes(outcomes: Vec<InitOutcome>) -> (r: StartupReport)
    ensures
        strings_model(r.serving@) == serving_names(outcomes_model(outcomes@)),
        failures_model(r.failures@) == failure_report(outcomes_model(outcomes@)),
{
    let mut serving: Vec<String> = Vec::new();
    let mut failures: Vec<RepoFailure> = Vec::new();
    let mut rest = outcomes;
    proof {
        assert(strings_model(serving@) =~= Seq::<Seq<char>>::empty());
        assert(failures_model(failures@) =~= Seq::<FailureModel>::empty());
        assert(Seq::<Seq<char>>::empty() + serving_names(outcomes_model(rest@)) =~= serving_names(
            outcomes_model(rest@),
        ));
        assert(Seq::<FailureModel>::empty() + failure_report(outcomes_model(rest@))
            =~= failure_report(outcomes_model(rest@)));
    }
    while !rest.is_empty()
        invariant
            serving_names(outcomes_model(outcomes@)) == strings_model(serving@) + serving_names(
                outcomes_model(rest@),
            ),
            failure_report(outcomes_model(outcomes@)) == failures_model(failures@)
                + failure_report(outcomes_model(rest@)),
        decreases rest@.len(),
    {
        let ghost rest0 = outcomes_model(rest@);
        let o = rest.remove(0);
        proof {
            assert(rest0[0] == o@);
            assert(outcomes_model(rest@) =~= rest0.drop_first());
        }
        match o.result {
            Ok(_) => {
                let ghost pre = strings_model(serving@);
                serving.push(o.name);
                proof {
                    assert(strings_model(serving@) =~= pre.push(o@.name));
                    assert(pre.push(o@.name) + serving_names(rest0.drop_first()) =~= pre + (
                    seq![o@.name] + serving_names(rest0.drop_first())));
                }
            },
            Err(chain) => {
                let ghost pre = failures_model(failures@);
                let ghost fm = FailureModel { name: o.name@, chain: chain@ };
                failures.push(RepoFailure { name: o.name, chain });
                proof {
                    assert(failures_model(failures@) =~= pre.push(fm));
                    assert(pre.push(fm) + failure_report(rest0.drop_first()) =~= pre + (seq![fm]
                        + failure_report(rest0.drop_first())));
                }
            },
        }
    }
    proof {
        assert(outcomes_model(rest@) =~= Seq::<OutcomeModel>::empty());
        assert(strings_model(serving@) + serving_names(Seq::<OutcomeModel>::empty())
            =~= strings_model(serving@));
        assert(failures_model(failures@) + failure_report(Seq::<OutcomeModel>::empty())
            =~= failures_model(failures@));
    }
    StartupReport { serving, failures }
}

/// Initialization failures are isolated: a failed repository is named in the
/// report together with its cause chain, and every correctly configured
/// repository still reaches the serving list.
pub proof fn lemma_startup_isolation(s: Seq<OutcomeModel>, i: int)
    requires
        0 <= i < s.len(),
    ensures
        s[i].failure matches Some(chain) ==> failure_report(s).contains(
            FailureModel { name: s[i].name, chain },
        ),
        s[i].failure is None ==> serving_names(s).contains(s[i].name),
    decreases s.len(),
{
    if i == 0 {
        match s[0].failure {
            Some(chain) => {
                assert(failure_report(s)[0] == (FailureModel { name: s[0].name, chain }));
            },
            None => {
                assert(serving_names(s)[0] == s[0].name);
            },
        }
    } else {
        lemma_startup_isolation(s.drop_first(), i - 1);
        assert(s.drop_first()[i - 1] == s[i]);
        match s[i].failure {
            Some(chain) => {
                let f = FailureModel { name: s[i].name, chain };
                let j = choose|j: int| 0 <= j < failure_report(s.drop_first()).len()
                    && failure_report(s.drop_first())[j] == f;
                if s[0].failure is Some {
                    assert(failure_report(s)[j + 1] == f);
                } else {
                    assert(failure_report(s)[j] == f);
                }
            },
            None => {
                let n = s[i].name;
                let j = choose|j: int| 0 <= j < serving_names(s.drop_first()).len()
                    && serving_names(s.drop_first())[j] == n;
                if s[0].failure is None {
                    assert(serving_names(s)[j + 1] == n);
                } else {
                    assert(serving_names(s)[j] == n);
                }
            },
        }
    }
}

/// Which phase a repository's execution context is in.
#[derive(Clone, Copy, PartialEq, Eq, Structural, Debug)]
pub enum RepoPhase {
    /// The listener is accepting and serving connections.
    Serving,
    /// An unexpected fault was intercepted at the context boundary; the
    /// repository serves no more, and nothing else is affected.
    Faulted,
}

/// Model of one running repository.
#[verifier::ext_equal]
pub struct RepoModel {
    pub name: Seq<char>,
    pub phase: RepoPhase,
    pub conns: Seq<ConnModel>,
}

/// One repository's isolated execution context: its listener's connections
/// and whether it is still serving.
pub struct RepoRun {
    pub name: String,
    pub phase: RepoPhase,
    pub engine: Engine,
}

impl View for RepoRun {
    type V = RepoModel;

    open spec fn view(&self) -> RepoModel {
        RepoModel { name: self.name@, phase: self.phase, conns: self.engine@ }
    }
}

/// Model of a sequence of running repositories.
pub open spec fn repos_model(s: Seq<RepoRun>) -> Seq<RepoModel> {
    Seq::new(s.len(), |i: int| s[i]@)
}

/// Intercepting a fault at repository `r`'s context boundary: only `r`'s
/// phase changes.
pub open spec fn sup_fault(s: Seq<RepoModel>, r: int) -> Seq<RepoModel> {
    s.update(r, RepoModel { phase: RepoPhase::Faulted, ..s[r] })
}

/// The supervisor: one isolated execution context per serving repository.
/// No two repositories share any mutable state.
pub struct Supervisor {
    pub repos: Vec<RepoRun>,
}

impl View for Supervisor {
    type V = Seq<RepoModel>;

    open spec fn view(&self) -> Seq<RepoModel> {
        repos_model(self.repos@)
    }
}

impl Supervisor {
    /// A supervisor with no repositories launched yet.
    pub fn new() -> (s: Supervisor)
        ensures
            s@ == Seq::<RepoModel>::empty(),
    {
        let s = Supervisor { repos: Vec::new() };
        proof {
            assert(repos_model(s.repos@) =~= Seq::<RepoModel>::empty());
        }
        s
    }

    /// Launch one successfully initialized repository's execution context.
    pub fn launch(&mut self, name: String) -> (r: usize)
        ensures
            final(self)@ == old(self)@.push(
                RepoModel { name: name@, phase: RepoPhase::Serving, conns: Seq::empty() },
            ),
            r == old(self)@.len(),
    {
        let r = self.repos.len();
        self.repos.push(RepoRun { name, phase: RepoPhase::Serving, engine: Engine::new() });
        proof {
            assert(repos_model(self.repos@) =~= repos_model(old(self).repos@).push(
                self.repos@.last()@,
            ));
        }
        r
    }

    /// Accept one connection on repository `r`; every other repository is
    /// untouched.
    pub fn repo_accept(&mut self, r: usize) -> (id: usize)
        requires
            r < old(self)@.len(),
            old(self)@[r as int].phase == RepoPhase::Serving,
        ensures
            final(self)@ == old(self)@.update(
                r as int,
                RepoModel {
                    conns: old(self)@[r as int].conns.push(init_conn()),
                    ..old(self)@[r as int]
                },
            ),
            id == old(self)@[r as int].conns.len(),
    {
        let mut run = self.repos.remove(r);
        let id = run.engine.accept();
        self.repos.insert(r, run);
        proof {
            assert(self.repos@ =~= old(self).repos@.update(r as int, self.repos@[r as int]));
            assert(repos_model(self.repos@) =~= repos_model(old(self).repos@).update(
                r as int,
                self.repos@[r as int]@,
            ));
        }
        id
    }

    /// Deliver one connection event on repository `r`; every other
    /// repository is untouched.
    pub fn repo_step(&mut self, r: usize, id: usize, ev: Event) -> (a: Action)
        requires
            r < old(self)@.len(),
            old(self)@[r as int].phase == RepoPhase::Serving,
            id < old(self)@[r as int].conns.len(),
        ensures
            final(self)@ == old(self)@.update(
                r as int,
                RepoModel {
                    conns: engine_step_m(old(self)@[r as int].conns, id as int, ev@),
                    ..old(self)@[r as int]
                },
            ),
            a@ == conn_step(old(self)@[r as int].conns[id as int], ev@).1,
    {
        let mut run = self.repos.remove(r);
        let a = run.engine.step(id, ev);
        self.repos.insert(r, run);
        proof {
            assert(self.repos@ =~= old(self).repos@.update(r as int, self.repos@[r as int]));
            assert(repos_model(self.repos@) =~= repos_model(old(self).repos@).update(
                r as int,
                self.repos@[r as int]@,
            ));
        }
        a
    }

    /// Intercept an unexpected fault at repository `r`'s context boundary:
    /// the fault is converted into a terminal outcome for `r` alone, and a
    /// critical, local-only entry to log for it is handed back. The call
    /// returns normally — the fault propagates to no sibling and not to the
    /// process.
    pub fn intercept_fault(&mut self, r: usize, cause: String) -> (entry: LogEntry)
        requires
            r < old(self)@.len(),
        ensures
            final(self)@ == sup_fault(old(self)@, r as int),
            entry@.severity == Severity::Critical,
            !entry@.remote,
            entry@.message == cause@,
    {
        let mut run = self.repos.remove(r);
        run.phase = RepoPhase::Faulted;
        self.repos.insert(r, run);
        proof {
            assert(self.repos@ =~= old(self).repos@.update(r as int, self.repos@[r as int]));
            assert(repos_model(self.repos@) =~= repos_model(old(self).repos@).update(
                r as int,
                self.repos@[r as int]@,
            ));
            assert(self.repos@[r as int]@ =~= (RepoModel {
                phase: RepoPhase::Faulted,
                ..old(self)@[r as int]
            }));
        }
        LogEntry { severity: Severity::Critical, message: cause, remote: false }
    }
}

/// Fault isolation: intercepting a fault in one repository's context leaves
/// every sibling repository — its phase, its connections — exactly as it
/// was, and only marks the faulted repository terminal, keeping even its
/// connection history.
pub proof fn lemma_fault_isolation(s: Seq<RepoModel>, r: int, q: int)
    requires
        0 <= r < s.len(),
        0 <= q < s.len(),
        q != r,
    ensures
        sup_fault(s, r).len() == s.len(),
        sup_fault(s, r)[q] == s[q],
        sup_fault(s, r)[r].phase == RepoPhase::Faulted,
        sup_fault(s, r)[r].name == s[r].name,
        sup_fault(s, r)[r].conns == s[r].conns,
{
}

/// The log entry owed when a repository's execution context is joined:
/// nothing for a clean end, one error naming the failure for a failed one.
pub fn join_entry(end: &Result<(), ErrorChain>) -> (r: Option<LogEntry>)
    ensures
        end is Ok ==> r is None,
        end matches Err(chain) ==> r matches Some(entry) && entry@.severity == Severity::Error
            && entry@.message == chain.head@ && !entry@.remote,
{
    match end {
        Ok(_) => None,
        Err(chain) => Some(
            LogEntry {
                severity: Severity::Error,
                message: String::from_str(chain.head.as_str()),
                remote: false,
            },
        ),
    }
}

/// The process's exit status is decided by the pre-serving startup phase
/// alone: zero exactly when the configuration was read and resolved. Faults
/// and failures after the server has started never alter it — they are
/// intercepted per repository.
pub fn exit_code(startup: &Result<(), ErrorChain>) -> (c: u8)
    ensures
        c == 0 <==> startup is Ok,
        startup is Err ==> c == 1,
{
    match startup {
        Ok(_) => 0,
        Err(_) => 1,
    }
}

} // verus!
