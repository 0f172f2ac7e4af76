//! The per-connection command pipeline and the engine that interleaves many
//! connections.
//!
//! One connection runs the loop decode → dispatch → encode: the next request
//! is decoded from the input logical stream, dispatched to the repository
//! service, and the response is encoded back onto the output logical stream
//! before the next request is taken up — so requests and responses correspond
//! strictly in order, with at most one response being written at a time. The
//! codec, the service and the streams are external: they hand the pipeline an
//! [`Event`], and the pipeline answers with the next [`Action`]. End of the
//! input stream closes the connection normally; any decode, dispatch or write
//! failure closes only this connection, with its cause to be logged through
//! the connection's logging bridge.
//!
//! [`Engine`] holds the connections of one repository; an event is always
//! addressed to one connection and leaves every other connection untouched,
//! which is proved once and for all in [`lemma_interleaving`].

use vstd::prelude::*;

verus! {

/// A decoded command, owned by the pipeline until dispatched.
pub struct Request {
    pub payload: Vec<u8>,
}

/// A value produced by the repository service for one request, owned by the
/// pipeline until encoded onto the output logical stream.
pub struct Response {
    pub payload: Vec<u8>,
}

/// Where a connection stands. A freshly accepted connection starts in
/// `Reading`; `Reading`, `Dispatching` and `Writing` are the stations of the
/// streaming loop; the two closed states are terminal.
#[derive(Clone, Copy, PartialEq, Eq, Structural, Debug)]
pub enum Phase {
    /// Waiting for the codec to decode the next request.
    Reading,
    /// A request is with the repository service.
    Dispatching,
    /// A response is being encoded onto the output stream.
    Writing,
    /// The input stream ended; the connection closed cleanly.
    ClosedNormal,
    /// A failure terminated this connection.
    ClosedErrored,
}

/// A completion handed to the pipeline by the codec, the service or the
/// output stream.
pub enum Event {
    /// The codec decoded the next request.
    ReqDecoded(Request),
    /// The input logical stream ended.
    InputClosed,
    /// The codec failed on the input stream; the cause is carried along.
    DecodeFailed(String),
    /// The repository service produced the response for the pending request.
    Responded(Response),
    /// The repository service failed; the cause is carried along.
    DispatchFailed(String),
    /// The pending response was fully written to the output stream.
    WriteDone,
    /// Writing the pending response failed; the cause is carried along.
    WriteFailed(String),
}

/// What the driver must do next for this connection.
pub enum Action {
    /// Ask the codec for the next request.
    ReadNext,
    /// Hand the request to the repository service.
    Dispatch(Request),
    /// Encode the response onto the output logical stream.
    Write(Response),
    /// Log the cause through the connection's bridge, tagged remote-visible,
    /// and tear the connection down; its siblings are not involved.
    LogAndClose(String),
    /// Tear the connection down cleanly.
    CloseClean,
    /// Nothing: the connection is already closed.
    Ignore,
}

/// Model of an event, over plain sequences.
pub enum EventModel {
    ReqDecoded(Seq<u8>),
    InputClosed,
    DecodeFailed(Seq<char>),
    Responded(Seq<u8>),
    DispatchFailed(Seq<char>),
    WriteDone,
    WriteFailed(Seq<char>),
}

/// Model of an action, over plain sequences.
pub enum ActionModel {
    ReadNext,
    Dispatch(Seq<u8>),
    Write(Seq<u8>),
    LogAndClose(Seq<char>),
    CloseClean,
    Ignore,
}

impl View for Event {
    type V = EventModel;

    open spec fn view(&self) -> EventModel {
        match self {
            Event::ReqDecoded(r) => EventModel::ReqDecoded(r.payload@),
            Event::InputClosed => EventModel::InputClosed,
            Event::DecodeFailed(e) => EventModel::DecodeFailed(e@),
            Event::Responded(r) => EventModel::Responded(r.payload@),
            Event::DispatchFailed(e) => EventModel::DispatchFailed(e@),
            Event::WriteDone => EventModel::WriteDone,
            Event::WriteFailed(e) => EventModel::WriteFailed(e@),
        }
    }
}

impl View for Action {
    type V = ActionModel;

    open spec fn view(&self) -> ActionModel {
        match self {
            Action::ReadNext => ActionModel::ReadNext,
            Action::Dispatch(r) => ActionModel::Dispatch(r.payload@),
            Action::Write(r) => ActionModel::Write(r.payload@),
            Action::LogAndClose(e) => ActionModel::LogAndClose(e@),
            Action::CloseClean => ActionModel::CloseClean,
            Action::Ignore => ActionModel::Ignore,
        }
    }
}

/// Model of one connection: its phase and the payloads of the responses
/// handed to the output stream, in order.
#[verifier::ext_equal]
pub struct ConnModel {
    pub phase: Phase,
    pub emitted: Seq<Seq<u8>>,
}

/// The model of a freshly accepted connection.
pub open spec fn init_conn() -> ConnModel {
    ConnModel { phase: Phase::Reading, emitted: Seq::empty() }
}

/// The cause logged when a completion arrives that the connection's phase
/// never asked for.
pub open spec fn protocol_fault_cause() -> Seq<char> {
    "unexpected completion for this connection"@
}

/// The transition relation of one connection: from a phase and an event to
/// the next phase, the output-stream history, and the action owed.
pub open spec fn conn_step(m: ConnModel, ev: EventModel) -> (ConnModel, ActionModel) {
    match m.phase {
        Phase::Reading => match ev {
            EventModel::ReqDecoded(p) => (
                ConnModel { phase: Phase::Dispatching, ..m },
                ActionModel::Dispatch(p),
            ),
            EventModel::InputClosed => (
                ConnModel { phase: Phase::ClosedNormal, ..m },
                ActionModel::CloseClean,
            ),
            EventModel::DecodeFailed(e) => (
                ConnModel { phase: Phase::ClosedErrored, ..m },
                ActionModel::LogAndClose(e),
            ),
            _ => (
                ConnModel { phase: Phase::ClosedErrored, ..m },
                ActionModel::LogAndClose(protocol_fault_cause()),
            ),
        },
        Phase::Dispatching => match ev {
            EventModel::Responded(p) => (
                ConnModel { phase: Phase::Writing, emitted: m.emitted.push(p) },
                ActionModel::Write(p),
            ),
            EventModel::DispatchFailed(e) => (
                ConnModel { phase: Phase::ClosedErrored, ..m },
                ActionModel::LogAndClose(e),
            ),
            _ => (
                ConnModel { phase: Phase::ClosedErrored, ..m },
                ActionModel::LogAndClose(protocol_fault_cause()),
            ),
        },
        Phase::Writing => match ev {
            EventModel::WriteDone => (ConnModel { phase: Phase::Reading, ..m }, ActionModel::ReadNext),
            EventModel::WriteFailed(e) => (
                ConnModel { phase: Phase::ClosedErrored, ..m },
                ActionModel::LogAndClose(e),
            ),
            _ => (
                ConnModel { phase: Phase::ClosedErrored, ..m },
                ActionModel::LogAndClose(protocol_fault_cause()),
            ),
        },
        Phase::ClosedNormal => (m, ActionModel::Ignore),
        Phase::ClosedErrored => (m, ActionModel::Ignore),
    }
}

/// Model of a sequence of responses by their payloads.
pub open spec fn responses_model(rs: Seq<Response>) -> Seq<Seq<u8>> {
    Seq::new(rs.len(), |i: int| rs[i].payload@)
}

/// One live connection: its phase and the responses already handed to the
/// output stream.
pub struct Conn {
    pub phase: Phase,
    pub emitted: Vec<Response>,
}

impl View for Conn {
    type V = ConnModel;

    open spec fn view(&self) -> ConnModel {
        ConnModel { phase: self.phase, emitted: responses_model(self.emitted@) }
    }
}

/// Copy a byte buffer.
fn copy_bytes(v: &Vec<u8>) -> (r: Vec<u8>)
    ensures
        r@ == v@,
{
    let mut r: Vec<u8> = Vec::new();
    let mut i: usize = 0;
    while i < v.len()
        invariant
            i <= v.len(),
            r@ == v@.take(i as int),
        decreases v.len() - i,
    {
        r.push(v[i]);
        proof {
            assert(v@.take(i + 1 as int) =~= v@.take(i as int).push(v@[i as int]));
        }
        i = i + 1;
    }
    proof {
        assert(v@.take(v@.len() as int) =~= v@);
    }
    r
}

impl Conn {
    /// A freshly accepted connection, about to read its first request.
    pub fn new() -> (c: Conn)
        ensures
            c@ == init_conn(),
    {
        let c = Conn { phase: Phase::Reading, emitted: Vec::new() };
        proof {
            assert(responses_model(c.emitted@) =~= Seq::<Seq<u8>>::empty());
        }
        c
    }

    /// Take one step of the pipeline: exactly the transition `conn_step`.
    pub fn handle(&mut self, ev: Event) -> (a: Action)
        ensures
            final(self)@ == conn_step(old(self)@, ev@).0,
            a@ == conn_step(old(self)@, ev@).1,
    {
        match self.phase {
            Phase::Reading => match ev {
                Event::ReqDecoded(r) => {
                    self.phase = Phase::Dispatching;
                    Action::Dispatch(r)
                },
                Event::InputClosed => {
                    self.phase = Phase::ClosedNormal;
                    Action::CloseClean
                },
                Event::DecodeFailed(e) => {
                    self.phase = Phase::ClosedErrored;
                    Action::LogAndClose(e)
                },
                _ => {
                    self.phase = Phase::ClosedErrored;
                    Action::LogAndClose(String::from_str("unexpected completion for this connection"))
                },
            },
            Phase::Dispatching => match ev {
                Event::Responded(r) => {
                    let copy = Response { payload: copy_bytes(&r.payload) };
                    let ghost p = r.payload@;
                    self.phase = Phase::Writing;
                    self.emitted.push(copy);
                    proof {
                        assert(responses_model(self.emitted@) =~= responses_model(
                            old(self).emitted@,
                        ).push(p));
                    }
                    Action::Write(r)
                },
                Event::DispatchFailed(e) => {
                    self.phase = Phase::ClosedErrored;
                    Action::LogAndClose(e)
                },
                _ => {
                    self.phase = Phase::ClosedErrored;
                    Action::LogAndClose(String::from_str("unexpected completion for this connection"))
                },
            },
            Phase::Writing => match ev {
                Event::WriteDone => {
                    self.phase = Phase::Reading;
                    Action::ReadNext
                },
                Event::WriteFailed(e) => {
                    self.phase = Phase::ClosedErrored;
                    Action::LogAndClose(e)
                },
                _ => {
                    self.phase = Phase::ClosedErrored;
                    Action::LogAndClose(String::from_str("unexpected completion for this connection"))
                },
            },
            Phase::ClosedNormal => Action::Ignore,
            Phase::ClosedErrored => Action::Ignore,
        }
    }
}

/// Run one connection's pipeline from `m` over a sequence of events.
pub open spec fn conn_run_from(m: ConnModel, evs: Seq<EventModel>) -> ConnModel
    decreases evs.len(),
{
    if evs.len() == 0 {
        m
    } else {
        conn_run_from(conn_step(m, evs[0]).0, evs.drop_first())
    }
}

/// Run a fresh connection's pipeline over a sequence of events.
pub open spec fn conn_run(evs: Seq<EventModel>) -> ConnModel {
    conn_run_from(init_conn(), evs)
}

/// Running over `a + b` is running over `a`, then over `b`.
pub proof fn lemma_conn_run_from_concat(m: ConnModel, a: Seq<EventModel>, b: Seq<EventModel>)
    ensures
        conn_run_from(m, a + b) == conn_run_from(conn_run_from(m, a), b),
    decreases a.len(),
{
    if a.len() == 0 {
        assert(a + b =~= b);
    } else {
        assert((a + b)[0] == a[0]);
        assert((a + b).drop_first() =~= a.drop_first() + b);
        lemma_conn_run_from_concat(conn_step(m, a[0]).0, a.drop_first(), b);
    }
}

/// One engine step at the model level: the event is delivered to connection
/// `id` alone; an out-of-range address changes nothing.
pub open spec fn engine_step_m(s: Seq<ConnModel>, id: int, ev: EventModel) -> Seq<ConnModel> {
    if 0 <= id < s.len() {
        s.update(id, conn_step(s[id], ev).0)
    } else {
        s
    }
}

/// Run the engine over a trace of addressed events.
pub open spec fn engine_run_from(s: Seq<ConnModel>, tr: Seq<(int, EventModel)>) -> Seq<ConnModel>
    decreases tr.len(),
{
    if tr.len() == 0 {
        s
    } else {
        engine_run_from(engine_step_m(s, tr[0].0, tr[0].1), tr.drop_first())
    }
}

/// The events of a trace addressed to connection `id`, in trace order.
pub open spec fn project(tr: Seq<(int, EventModel)>, id: int) -> Seq<EventModel>
    decreases tr.len(),
{
    if tr.len() == 0 {
        Seq::empty()
    } else if tr[0].0 == id {
        seq![tr[0].1] + project(tr.drop_first(), id)
    } else {
        project(tr.drop_first(), id)
    }
}

/// Connections do not interfere: under any interleaved trace, each connection
/// ends exactly as if it had run alone over its own events, in their order.
pub proof fn lemma_interleaving(s: Seq<ConnModel>, tr: Seq<(int, EventModel)>, id: int)
    requires
        0 <= id < s.len(),
    ensures
        engine_run_from(s, tr).len() == s.len(),
        engine_run_from(s, tr)[id] == conn_run_from(s[id], project(tr, id)),
    decreases tr.len(),
{
    if tr.len() == 0 {
    } else {
        let i0 = tr[0].0;
        let e0 = tr[0].1;
        let s2 = engine_step_m(s, i0, e0);
        lemma_interleaving(s2, tr.drop_first(), id);
        let p = project(tr, id);
        if i0 == id {
            assert(p[0] == e0);
            assert(p.drop_first() =~= project(tr.drop_first(), id));
            assert(s2[id] == conn_step(s[id], e0).0);
        } else {
            assert(s2[id] == s[id]);
        }
    }
}

/// Model of a sequence of connections.
pub open spec fn conns_model(cs: Seq<Conn>) -> Seq<ConnModel> {
    Seq::new(cs.len(), |i: int| cs[i]@)
}

/// The connections of one repository, interleaved by I/O readiness. Events
/// are addressed to one connection; the engine guarantees that delivering one
/// never touches any other connection.
pub struct Engine {
    pub conns: Vec<Conn>,
}

impl View for Engine {
    type V = Seq<ConnModel>;

    open spec fn view(&self) -> Seq<ConnModel> {
        conns_model(self.conns@)
    }
}

impl Engine {
    /// An engine with no connections yet.
    pub fn new() -> (e: Engine)
        ensures
            e@ == Seq::<ConnModel>::empty(),
    {
        let e = Engine { conns: Vec::new() };
        proof {
            assert(conns_model(e.conns@) =~= Seq::<ConnModel>::empty());
        }
        e
    }

    /// How many connections the engine holds.
    pub fn conn_count(&self) -> (n: usize)
        ensures
            n == self@.len(),
    {
        self.conns.len()
    }

    /// Take up one accepted connection; its identifier is its index.
    pub fn accept(&mut self) -> (id: usize)
        ensures
            final(self)@ == old(self)@.push(init_conn()),
            id == old(self)@.len(),
    {
        let id = self.conns.len();
        self.conns.push(Conn::new());
        proof {
            assert(conns_model(self.conns@) =~= conns_model(old(self).conns@).push(init_conn()));
        }
        id
    }

    /// Deliver one event to connection `id`: exactly `engine_step_m`; every
    /// other connection is left untouched.
    pub fn step(&mut self, id: usize, ev: Event) -> (a: Action)
        requires
            id < old(self)@.len(),
        ensures
            final(self)@ == engine_step_m(old(self)@, id as int, ev@),
            a@ == conn_step(old(self)@[id as int], ev@).1,
    {
        let mut c = self.conns.remove(id);
        let a = c.handle(ev);
        self.conns.insert(id, c);
        proof {
            assert(self.conns@ =~= old(self).conns@.update(
                id as int,
                self.conns@[id as int],
            ));
            assert(conns_model(self.conns@) =~= conns_model(old(self).conns@).update(
                id as int,
                self.conns@[id as int]@,
            ));
        }
        a
    }
}

/// Model of an addressed trace.
pub open spec fn trace_model(tr: Seq<(usize, Event)>) -> Seq<(int, EventModel)> {
    Seq::new(tr.len(), |i: int| (tr[i].0 as int, tr[i].1@))
}

impl Engine {
    /// Deliver a whole trace of addressed events in order, dropping the
    /// actions; events addressed outside the engine change nothing.
    pub fn run_events(&mut self, trace: Vec<(usize, Event)>)
        ensures
            final(self)@ == engine_run_from(old(self)@, trace_model(trace@)),
    {
        let mut rest = trace;
        while !rest.is_empty()
            invariant
                engine_run_from(old(self)@, trace_model(trace@)) == engine_run_from(
                    self@,
                    trace_model(rest@),
                ),
            decreases rest@.len(),
        {
            let ghost pre = self@;
            let ghost rest0 = rest@;
            let (id, ev) = rest.remove(0);
            proof {
                assert(rest@ =~= rest0.drop_first());
                assert(trace_model(rest@) =~= trace_model(rest0).drop_first());
                assert(trace_model(rest0)[0] == (id as int, ev@));
            }
            if id < self.conns.len() {
                let ghost n = self.conns@.len();
                assert(self@.len() == n);
                self.step(id, ev);
            } else {
                assert(self@.len() <= id);
                assert(engine_step_m(pre, id as int, ev@) == pre);
            }
        }
        proof {
            assert(trace_model(rest@) =~= Seq::<(int, EventModel)>::empty());
            assert(engine_run_from(self@, trace_model(rest@)) == self@);
        }
    }
}

/// The event sequence of a connection whose `n` requests all decode, dispatch
/// and write successfully: for each request in turn, a decode, the service's
/// response, and the completed write.
pub open spec fn ok_steps(reqs: Seq<Seq<u8>>, resps: Seq<Seq<u8>>) -> Seq<EventModel>
    decreases reqs.len(),
{
    if reqs.len() == 0 || resps.len() == 0 {
        Seq::empty()
    } else {
        seq![
            EventModel::ReqDecoded(reqs[0]),
            EventModel::Responded(resps[0]),
            EventModel::WriteDone,
        ] + ok_steps(reqs.drop_first(), resps.drop_first())
    }
}

/// A whole well-formed connection: `ok_steps`, then the end of the input.
pub open spec fn ok_trace(reqs: Seq<Seq<u8>>, resps: Seq<Seq<u8>>) -> Seq<EventModel> {
    ok_steps(reqs, resps) + seq![EventModel::InputClosed]
}

/// Running `ok_steps` from a reading connection leaves it reading again, with
/// exactly the given responses appended to its output, in order.
pub proof fn lemma_ok_steps(m: ConnModel, reqs: Seq<Seq<u8>>, resps: Seq<Seq<u8>>)
    requires
        m.phase == Phase::Reading,
        reqs.len() == resps.len(),
    ensures
        conn_run_from(m, ok_steps(reqs, resps)) == (ConnModel {
            phase: Phase::Reading,
            emitted: m.emitted + resps,
        }),
    decreases reqs.len(),
{
    if reqs.len() == 0 {
        assert(m.emitted + resps =~= m.emitted);
        assert(m =~= (ConnModel { phase: Phase::Reading, emitted: m.emitted + resps }));
    } else {
        let t = ok_steps(reqs, resps);
        let m1 = conn_step(m, EventModel::ReqDecoded(reqs[0])).0;
        let m2 = conn_step(m1, EventModel::Responded(resps[0])).0;
        let m3 = conn_step(m2, EventModel::WriteDone).0;
        let rest = ok_steps(reqs.drop_first(), resps.drop_first());
        assert(t.len() == 3 + rest.len());
        assert(t[0] == EventModel::ReqDecoded(reqs[0]));
        assert(t.drop_first()[0] == EventModel::Responded(resps[0]));
        assert(t.drop_first().drop_first()[0] == EventModel::WriteDone);
        assert(t.drop_first().drop_first().drop_first() =~= rest);
        assert(conn_run_from(m, t) == conn_run_from(m1, t.drop_first()));
        assert(conn_run_from(m1, t.drop_first()) == conn_run_from(m2, t.drop_first().drop_first()));
        assert(conn_run_from(m2, t.drop_first().drop_first()) == conn_run_from(
            m3,
            t.drop_first().drop_first().drop_first(),
        ));
        assert(conn_run_from(m, t) == conn_run_from(m3, rest));
        lemma_ok_steps(m3, reqs.drop_first(), resps.drop_first());
        assert(m3.emitted =~= m.emitted.push(resps[0]));
        assert(m.emitted.push(resps[0]) + resps.drop_first() =~= m.emitted + resps);
    }
}

/// A connection that decodes `n` well-formed requests emits exactly `n`
/// responses, in request order, and closes cleanly at the end of its input.
pub proof fn lemma_pipeline_in_order(reqs: Seq<Seq<u8>>, resps: Seq<Seq<u8>>)
    requires
        reqs.len() == resps.len(),
    ensures
        conn_run(ok_trace(reqs, resps)).phase == Phase::ClosedNormal,
        conn_run(ok_trace(reqs, resps)).emitted == resps,
{
    lemma_ok_steps(init_conn(), reqs, resps);
    lemma_conn_run_from_concat(init_conn(), ok_steps(reqs, resps), seq![EventModel::InputClosed]);
    let mid = conn_run_from(init_conn(), ok_steps(reqs, resps));
    let tail = seq![EventModel::InputClosed];
    assert(tail.len() == 1);
    assert(tail[0] == EventModel::InputClosed);
    assert(tail.drop_first() =~= Seq::<EventModel>::empty());
    assert(conn_run_from(mid, tail) == conn_run_from(
        conn_step(mid, EventModel::InputClosed).0,
        tail.drop_first(),
    ));
    assert(conn_run_from(mid, tail) == conn_step(mid, EventModel::InputClosed).0);
    assert(Seq::<Seq<u8>>::empty() + resps =~= resps);
}

/// The in-order guarantee holds under any interleaving with other concurrent
/// connections: if the events addressed to `id` form a well-formed connection
/// of `n` requests, connection `id` emits exactly the `n` responses in
/// request order, whatever else the trace interleaves around them.
pub proof fn lemma_in_order_under_interleaving(
    s: Seq<ConnModel>,
    tr: Seq<(int, EventModel)>,
    id: int,
    reqs: Seq<Seq<u8>>,
    resps: Seq<Seq<u8>>,
)
    requires
        0 <= id < s.len(),
        s[id] == init_conn(),
        reqs.len() == resps.len(),
        project(tr, id) == ok_trace(reqs, resps),
    ensures
        engine_run_from(s, tr)[id].phase == Phase::ClosedNormal,
        engine_run_from(s, tr)[id].emitted == resps,
{
    lemma_interleaving(s, tr, id);
    lemma_pipeline_in_order(reqs, resps);
}

/// A decode error terminates only its own connection: `ca` ends errored with
/// the responses it had already been given, while `cb`, interleaved on the
/// same repository before and after the failure, still closes cleanly with
/// all of its responses, in order.
pub proof fn lemma_decode_error_isolated(
    s: Seq<ConnModel>,
    tr: Seq<(int, EventModel)>,
    ca: int,
    cb: int,
    reqs_a: Seq<Seq<u8>>,
    resps_a: Seq<Seq<u8>>,
    cause: Seq<char>,
    reqs_b: Seq<Seq<u8>>,
    resps_b: Seq<Seq<u8>>,
)
    requires
        ca != cb,
        0 <= ca < s.len(),
        0 <= cb < s.len(),
        s[ca] == init_conn(),
        s[cb] == init_conn(),
        reqs_a.len() == resps_a.len(),
        reqs_b.len() == resps_b.len(),
        project(tr, ca) == ok_steps(reqs_a, resps_a) + seq![EventModel::DecodeFailed(cause)],
        project(tr, cb) == ok_trace(reqs_b, resps_b),
    ensures
        engine_run_from(s, tr)[ca].phase == Phase::ClosedErrored,
        engine_run_from(s, tr)[ca].emitted == resps_a,
        engine_run_from(s, tr)[cb].phase == Phase::ClosedNormal,
        engine_run_from(s, tr)[cb].emitted == resps_b,
{
    lemma_interleaving(s, tr, ca);
    lemma_interleaving(s, tr, cb);
    lemma_ok_steps(init_conn(), reqs_a, resps_a);
    lemma_conn_run_from_concat(
        init_conn(),
        ok_steps(reqs_a, resps_a),
        seq![EventModel::DecodeFailed(cause)],
    );
    let mid = conn_run_from(init_conn(), ok_steps(reqs_a, resps_a));
    let tail = seq![EventModel::DecodeFailed(cause)];
    assert(tail.len() == 1);
    assert(tail[0] == EventModel::DecodeFailed(cause));
    assert(tail.drop_first() =~= Seq::<EventModel>::empty());
    assert(conn_run_from(mid, tail) == conn_run_from(
        conn_step(mid, EventModel::DecodeFailed(cause)).0,
        tail.drop_first(),
    ));
    assert(conn_run_from(mid, tail) == conn_step(mid, EventModel::DecodeFailed(cause)).0);
    assert(Seq::<Seq<u8>>::empty() + resps_a =~= resps_a);
    lemma_pipeline_in_order(reqs_b, resps_b);
}

} // verus!
