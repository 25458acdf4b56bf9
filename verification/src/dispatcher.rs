//! The dispatcher: the single state machine behind the control channel.
//!
//! The dispatcher owns the job-id counter, the artifact registry, the set of
//! outstanding jobs, and the queue of pending statistics requests. It never
//! performs I/O itself: each message produces a list of actions — socket
//! writes, handler invocations, push requests — that the caller carries out.
//! The caller alone reads the broker socket and feeds the messages in; the
//! only socket writes are the `SendJobRequest` and `SendStatsRequest`
//! actions produced here, so the control socket has a single writer.
use vstd::prelude::*;

use crate::job::JobOutcomeResult;

verus! {

/// How many jobs the broker holds in each state.
#[derive(Clone, Copy, Debug, PartialEq, Eq, Structural)]
pub struct JobStateCounts {
    pub waiting_for_artifacts: u64,
    pub pending: u64,
    pub running: u64,
    pub complete: u64,
}

/// How an artifact's bytes are to be interpreted.
#[derive(Clone, Copy, Debug, PartialEq, Eq, Structural)]
pub enum ArtifactType {
    Tar,
    Manifest,
}

/// One layer of a job: an artifact digest and its kind.
#[derive(Clone, Debug, PartialEq, Eq)]
pub struct LayerRef {
    pub digest: String,
    pub kind: ArtifactType,
}

/// Ghost model of a layer reference.
#[verifier::ext_equal]
pub ghost struct LayerRefV {
    pub digest: Seq<char>,
    pub kind: ArtifactType,
}

impl View for LayerRef {
    type V = LayerRefV;

    open spec fn view(&self) -> LayerRefV {
        LayerRefV { digest: self.digest@, kind: self.kind }
    }
}

impl DeepView for LayerRef {
    type V = LayerRefV;

    open spec fn deep_view(&self) -> LayerRefV {
        self.view()
    }
}

/// What to run and on which layers.
#[derive(Clone, Debug, PartialEq, Eq)]
pub struct JobSpec {
    pub program: String,
    pub arguments: Vec<String>,
    pub layers: Vec<LayerRef>,
}

/// Ghost model of a job specification.
#[verifier::ext_equal]
pub ghost struct JobSpecV {
    pub program: Seq<char>,
    pub arguments: Seq<Seq<char>>,
    pub layers: Seq<LayerRefV>,
}

impl View for JobSpec {
    type V = JobSpecV;

    open spec fn view(&self) -> JobSpecV {
        JobSpecV {
            program: self.program@,
            arguments: self.arguments.deep_view(),
            layers: self.layers.deep_view(),
        }
    }
}

/// A message from the broker on the control socket.
pub enum BrokerToClient {
    JobResponse(u32, JobOutcomeResult),
    TransferArtifact(String),
    JobStateCountsResponse(JobStateCounts),
}

/// One message on the dispatcher's queue.
pub enum DispatcherMessage {
    Broker(BrokerToClient),
    AddArtifact(String, String),
    AddJob(JobSpec),
    GetJobStateCounts(u64),
    Stop,
}

/// Ghost model of a message; payloads that the state does not read are
/// dropped.
pub ghost enum MsgV {
    JobResponse(u32),
    TransferArtifact(Seq<char>),
    StatsResponse(JobStateCounts),
    AddArtifact { path: Seq<char>, digest: Seq<char> },
    AddJob,
    GetStats(u64),
    Stop,
}

impl View for DispatcherMessage {
    type V = MsgV;

    open spec fn view(&self) -> MsgV {
        match self {
            DispatcherMessage::Broker(BrokerToClient::JobResponse(c, _)) => MsgV::JobResponse(*c),
            DispatcherMessage::Broker(BrokerToClient::TransferArtifact(d)) => {
                MsgV::TransferArtifact(d@)
            },
            DispatcherMessage::Broker(BrokerToClient::JobStateCountsResponse(counts)) => {
                MsgV::StatsResponse(*counts)
            },
            DispatcherMessage::AddArtifact(path, digest) => MsgV::AddArtifact {
                path: path@,
                digest: digest@,
            },
            DispatcherMessage::AddJob(_) => MsgV::AddJob,
            DispatcherMessage::GetJobStateCounts(t) => MsgV::GetStats(*t),
            DispatcherMessage::Stop => MsgV::Stop,
        }
    }
}

/// What the caller must do after a message is handled.
pub enum DispatcherAction {
    InvokeHandler(u32, JobOutcomeResult),
    PushArtifact { path: String, digest: String },
    SendJobRequest(u32, JobSpec),
    SendStatsRequest,
    DeliverStats(u64, JobStateCounts),
}

/// Ghost model of an action.
pub ghost enum ActionV {
    Invoke(u32),
    Push { path: Seq<char>, digest: Seq<char> },
    SendJob(u32),
    SendStats,
    Deliver(u64, JobStateCounts),
}

impl View for DispatcherAction {
    type V = ActionV;

    open spec fn view(&self) -> ActionV {
        match self {
            DispatcherAction::InvokeHandler(c, _) => ActionV::Invoke(*c),
            DispatcherAction::PushArtifact { path, digest } => ActionV::Push {
                path: path@,
                digest: digest@,
            },
            DispatcherAction::SendJobRequest(c, _) => ActionV::SendJob(*c),
            DispatcherAction::SendStatsRequest => ActionV::SendStats,
            DispatcherAction::DeliverStats(t, counts) => ActionV::Deliver(*t, *counts),
        }
    }
}

impl DeepView for DispatcherAction {
    type V = ActionV;

    open spec fn deep_view(&self) -> ActionV {
        self.view()
    }
}

/// One registered artifact.
pub struct ArtifactEntry {
    pub digest: String,
    pub path: String,
}

/// Ghost model of the dispatcher state.
#[verifier::ext_equal]
pub ghost struct DispatcherV {
    pub next: u32,
    pub artifacts: Map<Seq<char>, Seq<char>>,
    pub handlers: Set<u32>,
    pub stats: Seq<u64>,
    pub draining: bool,
}

/// The registry as a map; a later entry for the same digest wins.
pub open spec fn map_of(entries: Seq<ArtifactEntry>) -> Map<Seq<char>, Seq<char>>
    decreases entries.len(),
{
    if entries.len() == 0 {
        Map::empty()
    } else {
        map_of(entries.drop_last()).insert(
            entries.last().digest@,
            entries.last().path@,
        )
    }
}

/// The dispatcher's owned state.
pub struct Dispatcher {
    pub next_client_job_id: u32,
    pub artifacts: Vec<ArtifactEntry>,
    pub handlers: Vec<u32>,
    pub stats_reqs: Vec<u64>,
    pub stop_when_all_completed: bool,
}

impl View for Dispatcher {
    type V = DispatcherV;

    open spec fn view(&self) -> DispatcherV {
        DispatcherV {
            next: self.next_client_job_id,
            artifacts: map_of(self.artifacts@),
            handlers: self.handlers@.to_set(),
            stats: self.stats_reqs@,
            draining: self.stop_when_all_completed,
        }
    }
}

/// The state before any message: id counter at zero, nothing registered,
/// nothing outstanding.
pub open spec fn init_dispatcher() -> DispatcherV {
    DispatcherV {
        next: 0,
        artifacts: Map::empty(),
        handlers: Set::empty(),
        stats: Seq::empty(),
        draining: false,
    }
}

/// The conditions under which a message may be handled. A violation is a
/// broker protocol error: a response for a job that is not outstanding, a
/// transfer request for an unregistered digest, a statistics response with
/// no pending request, or an exhausted id counter.
pub open spec fn step_ok(s: DispatcherV, m: MsgV) -> bool {
    match m {
        MsgV::JobResponse(c) => s.handlers.contains(c),
        MsgV::TransferArtifact(d) => s.artifacts.dom().contains(d),
        MsgV::StatsResponse(_) => s.stats.len() > 0,
        MsgV::AddJob => s.next < u32::MAX,
        _ => true,
    }
}

/// The state after a message.
pub open spec fn step_state(s: DispatcherV, m: MsgV) -> DispatcherV {
    match m {
        MsgV::JobResponse(c) => DispatcherV { handlers: s.handlers.remove(c), ..s },
        MsgV::TransferArtifact(_) => s,
        MsgV::StatsResponse(_) => DispatcherV { stats: s.stats.skip(1), ..s },
        MsgV::AddArtifact { path, digest } => DispatcherV {
            artifacts: s.artifacts.insert(digest, path),
            ..s
        },
        MsgV::AddJob => DispatcherV {
            next: (s.next + 1) as u32,
            handlers: s.handlers.insert(s.next),
            ..s
        },
        MsgV::GetStats(t) => DispatcherV { stats: s.stats.push(t), ..s },
        MsgV::Stop => if s.handlers.is_empty() {
            s
        } else {
            DispatcherV { draining: true, ..s }
        },
    }
}

/// The actions a message produces. A `TransferArtifact` always produces
/// exactly one push, also when an earlier push of the same digest may still
/// be in flight: duplicate requests are each serviced, never coalesced, and
/// one request never produces two pushes.
pub open spec fn step_actions(s: DispatcherV, m: MsgV) -> Seq<ActionV> {
    match m {
        MsgV::JobResponse(c) => seq![ActionV::Invoke(c)],
        MsgV::TransferArtifact(d) => seq![
            ActionV::Push { path: s.artifacts[d], digest: d },
        ],
        MsgV::StatsResponse(counts) => seq![ActionV::Deliver(s.stats[0], counts)],
        MsgV::AddArtifact { .. } => Seq::empty(),
        MsgV::AddJob => seq![ActionV::SendJob(s.next)],
        MsgV::GetStats(_) => seq![ActionV::SendStats],
        MsgV::Stop => Seq::empty(),
    }
}

/// Whether the dispatcher terminates after this message: a `Stop` with
/// nothing outstanding, or the last outstanding job completing while
/// draining.
pub open spec fn step_halt(s: DispatcherV, m: MsgV) -> bool {
    match m {
        MsgV::JobResponse(c) => s.draining && s.handlers.remove(c).is_empty(),
        MsgV::Stop => s.handlers.is_empty(),
        _ => false,
    }
}

impl Dispatcher {
    /// Every outstanding job id was assigned: it is below the counter; and
    /// no id is recorded twice.
    pub open spec fn wf(&self) -> bool {
        &&& forall|i: int|
            0 <= i < self.handlers@.len() ==> #[trigger] self.handlers@[i]
                < self.next_client_job_id
        &&& forall|i: int, j: int|
            0 <= i < j < self.handlers@.len() ==> self.handlers@[i] != self.handlers@[j]
    }

    /// A dispatcher that has seen nothing.
    pub fn new() -> (r: Dispatcher)
        ensures
            r@ == init_dispatcher(),
            r.wf(),
    {
        let r = Dispatcher {
            next_client_job_id: 0,
            artifacts: Vec::new(),
            handlers: Vec::new(),
            stats_reqs: Vec::new(),
            stop_when_all_completed: false,
        };
        proof {
            assert(r@.artifacts =~= Map::<Seq<char>, Seq<char>>::empty());
            assert(r@.handlers =~= Set::<u32>::empty());
            assert(r@ =~= init_dispatcher());
        }
        r
    }

    /// Look up the path of a registered digest; the latest registration
    /// wins.
    fn lookup_artifact(&self, digest: &String) -> (r: Option<String>)
        ensures
            match r {
                Some(p) => self@.artifacts.dom().contains(digest@) && p@
                    == self@.artifacts[digest@],
                None => !self@.artifacts.dom().contains(digest@),
            },
    {
        let mut i: usize = self.artifacts.len();
        proof {
            assert(self.artifacts@.take(self.artifacts@.len() as int) =~= self.artifacts@);
        }
        while i > 0
            invariant
                i <= self.artifacts@.len(),
                forall|j: int|
                    i <= j < self.artifacts@.len() ==> #[trigger] self.artifacts@[j].digest@
                        != digest@,
                map_of(self.artifacts@).dom().contains(digest@) == map_of(
                    self.artifacts@.take(i as int),
                ).dom().contains(digest@),
                map_of(self.artifacts@).dom().contains(digest@) ==> map_of(
                    self.artifacts@.take(i as int),
                )[digest@] == map_of(self.artifacts@)[digest@],
            decreases i,
        {
            proof {
                assert(self.artifacts@.take(i as int).drop_last() =~= self.artifacts@.take(
                    i - 1,
                ));
                assert(self.artifacts@.take(i as int).last() == self.artifacts@[i - 1]);
            }
            let e = &self.artifacts[i - 1];
            if e.digest == *digest {
                return Some(e.path.clone());
            }
            i = i - 1;
        }
        proof {
            assert(self.artifacts@.take(0) =~= Seq::<ArtifactEntry>::empty());
        }
        None
    }

    /// Handle one message: update the state and say what to do. The second
    /// component of the result is true when the dispatcher is to terminate.
    pub fn handle_message(&mut self, msg: DispatcherMessage) -> (r: (
        Vec<DispatcherAction>,
        bool,
    ))
        requires
            old(self).wf(),
            step_ok(old(self)@, msg@),
        ensures
            final(self).wf(),
            final(self)@ == step_state(old(self)@, msg@),
            r.0.deep_view() == step_actions(old(self)@, msg@),
            r.1 == step_halt(old(self)@, msg@),
            msg matches DispatcherMessage::Broker(BrokerToClient::JobResponse(c, res))
                ==> r.0@.len() == 1 && r.0@[0] == DispatcherAction::InvokeHandler(c, res),
            msg matches DispatcherMessage::AddJob(spec) ==> r.0@.len() == 1 && r.0@[0]
                == DispatcherAction::SendJobRequest(old(self).next_client_job_id, spec),
    {
        let mut actions: Vec<DispatcherAction> = Vec::new();
        let mut halt = false;
        match msg {
            DispatcherMessage::Broker(BrokerToClient::JobResponse(cjid, result)) => {
                let mut i: usize = 0;
                let n = self.handlers.len();
                while i < n && self.handlers[i] != cjid
                    invariant
                        i <= self.handlers@.len(),
                        n == self.handlers@.len(),
                        forall|j: int| 0 <= j < i ==> self.handlers@[j] != cjid,
                    decreases n - i,
                {
                    i = i + 1;
                }
                proof {
                    assert(self.handlers@.to_set().contains(cjid));
                    assert(self.handlers@.contains(cjid));
                    if i >= self.handlers@.len() {
                        let w = choose|w: int|
                            0 <= w < self.handlers@.len() && self.handlers@[w] == cjid;
                        assert(false);
                    }
                    assert(self.handlers@[i as int] == cjid);
                }
                let ghost pre = self.handlers@;
                self.handlers.remove(i);
                proof {
                    pre.remove_ensures(i as int);
                    assert forall|x: u32| self.handlers@.to_set().contains(x) <==> pre.to_set()
                        .remove(cjid).contains(x) by {
                        if self.handlers@.contains(x) {
                            let w = choose|w: int|
                                0 <= w < self.handlers@.len() && self.handlers@[w] == x;
                            if w < i {
                                assert(pre[w] == x);
                            } else {
                                assert(pre[w + 1] == x);
                            }
                            assert(x != cjid);
                        }
                        if pre.contains(x) && x != cjid {
                            let w = choose|w: int| 0 <= w < pre.len() && pre[w] == x;
                            assert(pre[i as int] == cjid);
                            if w < i {
                                assert(self.handlers@[w] == x);
                            } else {
                                assert(w != i);
                                assert(self.handlers@[w - 1] == x);
                            }
                        }
                    }
                    assert(self.handlers@.to_set() =~= pre.to_set().remove(cjid));
                }
                halt = self.stop_when_all_completed && self.handlers.len() == 0;
                proof {
                    if self.handlers@.len() == 0 {
                        assert(self.handlers@.to_set() =~= Set::<u32>::empty());
                    } else {
                        assert(self.handlers@.to_set().contains(self.handlers@[0]));
                    }
                }
                actions.push(DispatcherAction::InvokeHandler(cjid, result));
            },
            DispatcherMessage::Broker(BrokerToClient::TransferArtifact(digest)) => {
                let path = match self.lookup_artifact(&digest) {
                    Some(p) => p,
                    None => {
                        proof {
                            assert(false);
                        }
                        String::new()
                    },
                };
                actions.push(DispatcherAction::PushArtifact { path, digest });
            },
            DispatcherMessage::Broker(BrokerToClient::JobStateCountsResponse(counts)) => {
                let ticket = self.stats_reqs.remove(0);
                proof {
                    assert(self.stats_reqs@ =~= old(self).stats_reqs@.skip(1));
                }
                actions.push(DispatcherAction::DeliverStats(ticket, counts));
            },
            DispatcherMessage::AddArtifact(path, digest) => {
                let ghost pre = self.artifacts@;
                self.artifacts.push(ArtifactEntry { digest, path });
                proof {
                    assert(self.artifacts@.drop_last() =~= pre);
                }
            },
            DispatcherMessage::AddJob(spec) => {
                let cjid = self.next_client_job_id;
                let ghost pre = self.handlers@;
                self.handlers.push(cjid);
                self.next_client_job_id = self.next_client_job_id + 1;
                proof {
                    assert forall|x: u32| self.handlers@.to_set().contains(x) <==> pre.to_set()
                        .insert(cjid).contains(x) by {
                        if self.handlers@.contains(x) {
                            let w = choose|w: int|
                                0 <= w < self.handlers@.len() && self.handlers@[w] == x;
                            if w < pre.len() {
                                assert(pre[w] == x);
                            }
                        }
                        if pre.contains(x) {
                            let w = choose|w: int| 0 <= w < pre.len() && pre[w] == x;
                            assert(self.handlers@[w] == x);
                        }
                        if x == cjid {
                            assert(self.handlers@[pre.len() as int] == cjid);
                        }
                    }
                    assert(self.handlers@.to_set() =~= pre.to_set().insert(cjid));
                }
                actions.push(DispatcherAction::SendJobRequest(cjid, spec));
            },
            DispatcherMessage::GetJobStateCounts(ticket) => {
                actions.push(DispatcherAction::SendStatsRequest);
                self.stats_reqs.push(ticket);
            },
            DispatcherMessage::Stop => {
                proof {
                    if self.handlers@.len() == 0 {
                        assert(self.handlers@.to_set() =~= Set::<u32>::empty());
                    } else {
                        assert(self.handlers@.to_set().contains(self.handlers@[0]));
                    }
                }
                if self.handlers.len() == 0 {
                    halt = true;
                } else {
                    self.stop_when_all_completed = true;
                }
            },
        }
        proof {
            assert(actions.deep_view() =~= step_actions(old(self)@, msg@));
            assert(final(self)@ =~= step_state(old(self)@, msg@));
        }
        (actions, halt)
    }
}

/// A whole run: the state after a message sequence and all actions it
/// produced, in order.
pub open spec fn run_steps(s: DispatcherV, ms: Seq<MsgV>) -> (DispatcherV, Seq<ActionV>)
    decreases ms.len(),
{
    if ms.len() == 0 {
        (s, Seq::empty())
    } else {
        let rest = run_steps(step_state(s, ms[0]), ms.skip(1));
        (rest.0, step_actions(s, ms[0]) + rest.1)
    }
}

/// Every message of the sequence meets its precondition when its turn
/// comes.
pub open spec fn run_ok(s: DispatcherV, ms: Seq<MsgV>) -> bool
    decreases ms.len(),
{
    ms.len() == 0 || (step_ok(s, ms[0]) && run_ok(step_state(s, ms[0]), ms.skip(1)))
}

/// How many handler invocations for job `c` a list of actions holds.
pub open spec fn count_invokes(actions: Seq<ActionV>, c: u32) -> nat
    decreases actions.len(),
{
    if actions.len() == 0 {
        0
    } else {
        (if actions[0] == ActionV::Invoke(c) {
            1nat
        } else {
            0nat
        }) + count_invokes(actions.skip(1), c)
    }
}

/// Every outstanding job id was assigned.
pub open spec fn handlers_assigned(s: DispatcherV) -> bool {
    forall|h: u32| s.handlers.contains(h) ==> h < s.next
}

proof fn lemma_count_invokes_app(a: Seq<ActionV>, b: Seq<ActionV>, c: u32)
    ensures
        count_invokes(a + b, c) == count_invokes(a, c) + count_invokes(b, c),
    decreases a.len(),
{
    if a.len() == 0 {
        assert(a + b =~= b);
    } else {
        assert((a + b)[0] == a[0]);
        assert((a + b).skip(1) =~= a.skip(1) + b);
        lemma_count_invokes_app(a.skip(1), b, c);
    }
}

/// The bookkeeping behind the exactly-once law: along any legal run, the
/// invocations already performed for a job and its presence in the
/// outstanding set account exactly for whether the job was assigned.
proof fn lemma_run_invoke_count(s: DispatcherV, ms: Seq<MsgV>, c: u32)
    requires
        run_ok(s, ms),
        handlers_assigned(s),
    ensures
        handlers_assigned(run_steps(s, ms).0),
        run_steps(s, ms).0.next >= s.next,
        count_invokes(run_steps(s, ms).1, c) + (if run_steps(s, ms).0.handlers.contains(c) {
            1int
        } else {
            0int
        }) == (if s.handlers.contains(c) {
            1int
        } else {
            0int
        }) + (if s.next <= c < run_steps(s, ms).0.next {
            1int
        } else {
            0int
        }),
    decreases ms.len(),
{
    if ms.len() == 0 {
    } else {
        let s2 = step_state(s, ms[0]);
        assert(handlers_assigned(s2)) by {
            match ms[0] {
                MsgV::AddJob => {
                    assert(forall|h: u32|
                        s2.handlers.contains(h) ==> s.handlers.contains(h) || h == s.next);
                },
                _ => {},
            }
        }
        lemma_run_invoke_count(s2, ms.skip(1), c);
        lemma_count_invokes_app(step_actions(s, ms[0]), run_steps(s2, ms.skip(1)).1, c);
        assert(count_invokes(step_actions(s, ms[0]), c) == (if step_actions(s, ms[0]).contains(
            ActionV::Invoke(c),
        ) {
            1int
        } else {
            0int
        })) by {
            let acts = step_actions(s, ms[0]);
            if acts.len() > 0 {
                assert(acts.skip(1) =~= Seq::<ActionV>::empty());
                assert(count_invokes(acts.skip(1), c) == 0);
                if acts[0] == ActionV::Invoke(c) {
                    assert(acts.contains(acts[0]));
                } else if acts.contains(ActionV::Invoke(c)) {
                    let k = choose|k: int| 0 <= k < acts.len() && acts[k] == ActionV::Invoke(c);
                    assert(k == 0);
                    assert(false);
                }
            }
        }
        match ms[0] {
            MsgV::JobResponse(c0) => {
                if c0 == c {
                    assert(step_actions(s, ms[0])[0] == ActionV::Invoke(c));
                    assert(step_actions(s, ms[0]).contains(ActionV::Invoke(c)));
                } else {
                    assert(forall|a: ActionV|
                        step_actions(s, ms[0]).contains(a) ==> a == ActionV::Invoke(c0));
                }
            },
            MsgV::AddJob => {
                assert(forall|a: ActionV|
                    step_actions(s, ms[0]).contains(a) ==> a == ActionV::SendJob(s.next));
            },
            _ => {
                assert(forall|a: ActionV|
                    step_actions(s, ms[0]).contains(a) ==> a != ActionV::Invoke(c));
            },
        }
    }
}

/// The exactly-once law: starting from the initial state, after any legal
/// message sequence whose end state has no outstanding jobs — which is what
/// a successful drain means — the run performed exactly one handler
/// invocation for every assigned job id, and none for any other id.
pub proof fn lemma_each_job_handled_once(ms: Seq<MsgV>, c: u32)
    requires
        run_ok(init_dispatcher(), ms),
        run_steps(init_dispatcher(), ms).0.handlers.is_empty(),
    ensures
        count_invokes(run_steps(init_dispatcher(), ms).1, c) == if c < run_steps(
            init_dispatcher(),
            ms,
        ).0.next {
            1nat
        } else {
            0nat
        },
{
    lemma_run_invoke_count(init_dispatcher(), ms, c);
    assert(!run_steps(init_dispatcher(), ms).0.handlers.contains(c));
}

/// How many pushes of digest `d` a list of actions holds.
pub open spec fn count_pushes(actions: Seq<ActionV>, d: Seq<char>) -> nat
    decreases actions.len(),
{
    if actions.len() == 0 {
        0
    } else {
        (if actions[0] matches ActionV::Push { digest, .. } && digest == d {
            1nat
        } else {
            0nat
        }) + count_pushes(actions.skip(1), d)
    }
}

/// How many transfer requests for digest `d` a message sequence holds.
pub open spec fn count_transfers(ms: Seq<MsgV>, d: Seq<char>) -> nat
    decreases ms.len(),
{
    if ms.len() == 0 {
        0
    } else {
        (if ms[0] == MsgV::TransferArtifact(d) {
            1nat
        } else {
            0nat
        }) + count_transfers(ms.skip(1), d)
    }
}

proof fn lemma_count_pushes_app(a: Seq<ActionV>, b: Seq<ActionV>, d: Seq<char>)
    ensures
        count_pushes(a + b, d) == count_pushes(a, d) + count_pushes(b, d),
    decreases a.len(),
{
    if a.len() == 0 {
        assert(a + b =~= b);
    } else {
        assert((a + b)[0] == a[0]);
        assert((a + b).skip(1) =~= a.skip(1) + b);
        lemma_count_pushes_app(a.skip(1), b, d);
    }
}

/// Transfer requests are each serviced exactly once and never coalesced:
/// along any legal run, the pushes of a digest match the broker's transfer
/// requests for it, one for one — also when a second request arrives while
/// an earlier push may still be in flight.
pub proof fn lemma_each_transfer_pushed_once(s: DispatcherV, ms: Seq<MsgV>, d: Seq<char>)
    requires
        run_ok(s, ms),
    ensures
        count_pushes(run_steps(s, ms).1, d) == count_transfers(ms, d),
    decreases ms.len(),
{
    if ms.len() > 0 {
        let s2 = step_state(s, ms[0]);
        lemma_each_transfer_pushed_once(s2, ms.skip(1), d);
        lemma_count_pushes_app(step_actions(s, ms[0]), run_steps(s2, ms.skip(1)).1, d);
        let acts = step_actions(s, ms[0]);
        assert(count_pushes(acts, d) == (if ms[0] == MsgV::TransferArtifact(d) {
            1nat
        } else {
            0nat
        })) by {
            if acts.len() > 0 {
                assert(acts.skip(1) =~= Seq::<ActionV>::empty());
                assert(count_pushes(acts.skip(1), d) == 0);
            }
            match ms[0] {
                MsgV::TransferArtifact(d0) => {
                    assert(acts[0] == (ActionV::Push { path: s.artifacts[d0], digest: d0 }));
                },
                _ => {},
            }
        }
    }
}

/// The dispatcher is the control socket's single writer, and only on
/// request: a step emits a job request exactly for an `AddJob`, a
/// statistics request exactly for a `GetStats`, and no action of any step
/// reads a socket — reading is not among the actions at all.
pub proof fn lemma_control_writes_only_on_request(s: DispatcherV, m: MsgV)
    ensures
        (exists|k: int|
            0 <= k < step_actions(s, m).len() && #[trigger] step_actions(s, m)[k] is SendJob)
            <==> m is AddJob,
        (exists|k: int|
            0 <= k < step_actions(s, m).len() && #[trigger] step_actions(s, m)[k] is SendStats)
            <==> m is GetStats,
{
    let acts = step_actions(s, m);
    match m {
        MsgV::AddJob => {
            assert(acts[0] is SendJob);
        },
        MsgV::GetStats(_) => {
            assert(acts[0] is SendStats);
        },
        _ => {
            assert forall|k: int| 0 <= k < acts.len() implies !(#[trigger] acts[k] is SendJob)
                && !(acts[k] is SendStats) by {}
        },
    }
}

} // verus!
