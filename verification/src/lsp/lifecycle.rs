//! The LSP server lifecycle: its status, the restart policy after crashes,
//! and the documents to replay after a restart. The process itself is driven
//! by the caller, which asks `plan_start` what to do and reports back.
use vstd::prelude::*;
use crate::fcpcore::tokenizer::string_views;
use crate::text_map::{TextMap, text_values};

verus! {

#[derive(Debug, Clone, Copy, PartialEq, Eq, Structural)]
pub enum ServerStatus {
    NotStarted,
    Starting,
    Ready,
    Indexing,
    Crashed,
    Stopped,
}

/// What ensuring a running client calls for.
#[derive(Debug, Clone, Copy, PartialEq, Eq, Structural)]
pub enum StartPlan {
    /// A client is running and ready: use it.
    UseRunning,
    /// The server crashed too often: refuse ("max restarts exceeded").
    Refuse,
    /// Start (or restart) the server.
    Start,
}

/// The lifecycle state of an LSP server: how to launch it, its status, how
/// often it was restarted, and the open documents to replay on restart.
pub struct LifecycleManager {
    command: String,
    args: Vec<String>,
    root_uri: String,
    status: ServerStatus,
    restart_count: u32,
    max_restarts: u32,
    tracked_documents: TextMap<String>,
}

/// The lifecycle state as seen by contracts.
pub struct LifecycleModel {
    pub command: Seq<char>,
    pub args: Seq<Seq<char>>,
    pub root_uri: Seq<char>,
    pub status: ServerStatus,
    pub restart_count: nat,
    pub max_restarts: nat,
    pub documents: Map<Seq<char>, Seq<char>>,
}

impl View for LifecycleManager {
    type V = LifecycleModel;

    closed spec fn view(&self) -> LifecycleModel {
        LifecycleModel {
            command: self.command@,
            args: string_views(self.args@),
            root_uri: self.root_uri@,
            status: self.status,
            restart_count: self.restart_count as nat,
            max_restarts: self.max_restarts as nat,
            documents: text_values(self.tracked_documents@),
        }
    }
}

/// What ensuring a client calls for: use a running client when the server is
/// ready; refuse once the server has crashed `max_restarts` times; otherwise
/// start it.
pub open spec fn start_plan(m: LifecycleModel, client_running: bool) -> StartPlan {
    if client_running && m.status == ServerStatus::Ready {
        StartPlan::UseRunning
    } else if m.status == ServerStatus::Crashed && m.restart_count >= m.max_restarts {
        StartPlan::Refuse
    } else {
        StartPlan::Start
    }
}

/// The state after a start attempt: ready on success; crashed, with one more
/// restart counted, on failure.
pub open spec fn after_start(m: LifecycleModel, started: bool) -> LifecycleModel {
    if started {
        LifecycleModel { status: ServerStatus::Ready, ..m }
    } else {
        LifecycleModel { status: ServerStatus::Crashed, restart_count: m.restart_count + 1, ..m }
    }
}

impl LifecycleManager {
    /// A manager for the server launched by `command args`, for the workspace
    /// at `root_uri`; not started, with up to three restarts after crashes.
    pub fn new(command: String, args: Vec<String>, root_uri: String) -> (mgr: Self)
        ensures
            mgr@.command == command@,
            mgr@.args == string_views(args@),
            mgr@.root_uri == root_uri@,
            mgr@.status == ServerStatus::NotStarted,
            mgr@.restart_count == 0,
            mgr@.max_restarts == 3,
            mgr@.documents == Map::<Seq<char>, Seq<char>>::empty(),
    {
        let mgr = LifecycleManager {
            command,
            args,
            root_uri,
            status: ServerStatus::NotStarted,
            restart_count: 0,
            max_restarts: 3,
            tracked_documents: TextMap::new(),
        };
        assert(text_values(mgr.tracked_documents@) =~= Map::<Seq<char>, Seq<char>>::empty());
        mgr
    }

    /// What ensuring a client calls for, given whether a client is running.
    pub fn plan_start(&self, client_running: bool) -> (p: StartPlan)
        ensures
            p == start_plan(self@, client_running),
    {
        if client_running && self.status == ServerStatus::Ready {
            StartPlan::UseRunning
        } else if self.status == ServerStatus::Crashed && self.restart_count >= self.max_restarts {
            StartPlan::Refuse
        } else {
            StartPlan::Start
        }
    }

    /// Records that a start is under way.
    pub fn begin_start(&mut self)
        ensures
            final(self)@ == (LifecycleModel { status: ServerStatus::Starting, ..old(self)@ }),
    {
        self.status = ServerStatus::Starting;
    }

    /// Records the outcome of a start attempt.
    pub fn finish_start(&mut self, started: bool)
        requires
            started || old(self)@.restart_count < u32::MAX,
        ensures
            final(self)@ == after_start(old(self)@, started),
    {
        if started {
            self.status = ServerStatus::Ready;
        } else {
            self.status = ServerStatus::Crashed;
            self.restart_count = self.restart_count + 1;
        }
    }

    /// Records that the server was shut down.
    pub fn mark_stopped(&mut self)
        ensures
            final(self)@ == (LifecycleModel { status: ServerStatus::Stopped, ..old(self)@ }),
    {
        self.status = ServerStatus::Stopped;
    }

    /// Tracks a document for replay on restart (replacing its earlier text).
    pub fn track_document(&mut self, uri: String, text: String)
        ensures
            final(self)@ == (LifecycleModel { documents: old(self)@.documents.insert(uri@, text@), ..old(self)@ }),
    {
        let ghost before = text_values(self.tracked_documents@);
        self.tracked_documents.insert(uri, text);
        assert(text_values(self.tracked_documents@) =~= before.insert(uri@, text@));
    }

    /// Stops tracking a document.
    pub fn untrack_document(&mut self, uri: &str)
        ensures
            final(self)@ == (LifecycleModel { documents: old(self)@.documents.remove(uri@), ..old(self)@ }),
    {
        let ghost before = text_values(self.tracked_documents@);
        self.tracked_documents.remove(uri);
        assert(text_values(self.tracked_documents@) =~= before.remove(uri@));
    }

    /// The current server status.
    pub fn status(&self) -> (s: &ServerStatus)
        ensures
            *s == self@.status,
    {
        &self.status
    }

    /// How many start attempts have failed.
    pub fn restart_count(&self) -> (n: u32)
        ensures
            n == self@.restart_count,
    {
        self.restart_count
    }

    /// The tracked documents, by URI.
    pub fn tracked_documents(&self) -> (d: &TextMap<String>)
        ensures
            text_values(d@) == self@.documents,
    {
        &self.tracked_documents
    }

    /// The command that launches the server.
    pub fn command(&self) -> (c: &str)
        ensures
            c@ == self@.command,
    {
        self.command.as_str()
    }

    /// The arguments of the command.
    pub fn args(&self) -> (a: &Vec<String>)
        ensures
            string_views(a@) == self@.args,
    {
        &self.args
    }

    /// The workspace root URI.
    pub fn root_uri(&self) -> (u: &str)
        ensures
            u@ == self@.root_uri,
    {
        self.root_uri.as_str()
    }
}

/// A failed start that brings the restart count up to the maximum ends the
/// retries: from then on, ensuring a client is refused.
pub proof fn law_failed_starts_end_in_refusal(m: LifecycleModel, client_running: bool)
    requires
        m.restart_count + 1 >= m.max_restarts,
    ensures
        start_plan(after_start(m, false), client_running) == StartPlan::Refuse,
{
}

/// A server that is ready with a running client is used as it is, and a
/// successful start makes it so.
pub proof fn law_started_server_is_used(m: LifecycleModel)
    ensures
        start_plan(after_start(m, true), true) == StartPlan::UseRunning,
{
}

/// Tracking a document and then untracking it leaves the tracked documents as
/// untracking alone would.
pub proof fn law_untrack_undoes_track(m: LifecycleModel, uri: Seq<char>, text: Seq<char>)
    ensures
        m.documents.insert(uri, text).remove(uri) == m.documents.remove(uri),
{
    assert(m.documents.insert(uri, text).remove(uri) =~= m.documents.remove(uri));
}

/// The state after a series of start attempts with these outcomes, in order.
pub open spec fn after_starts(m: LifecycleModel, outcomes: Seq<bool>) -> LifecycleModel
    decreases outcomes.len(),
{
    if outcomes.len() == 0 {
        m
    } else {
        after_start(after_starts(m, outcomes.drop_last()), outcomes.last())
    }
}

/// How many of the outcomes are failures.
pub open spec fn failures(outcomes: Seq<bool>) -> nat
    decreases outcomes.len(),
{
    if outcomes.len() == 0 {
        0
    } else {
        failures(outcomes.drop_last()) + if outcomes.last() {
            0nat
        } else {
            1nat
        }
    }
}

/// The restart count counts failed starts and nothing else: a successful
/// start leaves it as it was, a failed one adds one, so after any series of
/// attempts it has grown by exactly the number of failures (it never goes
/// back). Once it has reached the maximum through a failure, the next start is
/// refused, whatever successes came in between.
pub proof fn law_restart_count_counts_failures(m: LifecycleModel, outcomes: Seq<bool>, running: bool)
    ensures
        after_start(m, true).restart_count == m.restart_count,
        after_start(m, false).restart_count == m.restart_count + 1,
        after_starts(m, outcomes).restart_count == m.restart_count + failures(outcomes),
        after_starts(m, outcomes).restart_count >= m.restart_count,
        after_starts(m, outcomes).max_restarts == m.max_restarts,
        outcomes.len() > 0 && !outcomes.last() && m.restart_count + failures(outcomes) >= m.max_restarts
            ==> start_plan(after_starts(m, outcomes), running) == StartPlan::Refuse,
    decreases outcomes.len(),
{
    if outcomes.len() > 0 {
        law_restart_count_counts_failures(m, outcomes.drop_last(), running);
    }
}

} // verus!
