//! Session, tool and permission records shared by the daemon and the
//! dashboard, with their mathematical models.
use vstd::prelude::*;
use crate::json::{Json, JsonV};
use crate::status::SessionStatus;

verus! {

pub open spec fn ostr(o: Option<String>) -> Option<Seq<char>> {
    match o {
        Some(s) => Some(s@),
        None => None,
    }
}

pub open spec fn ojson(o: Option<Json>) -> Option<JsonV> {
    match o {
        Some(j) => Some(j@),
        None => None,
    }
}

/// A copy of an optional string.
pub fn copy_ostr(o: &Option<String>) -> (r: Option<String>)
    ensures
        ostr(r) == ostr(*o),
{
    match o {
        Some(s) => Some(s.clone()),
        None => None,
    }
}

/// A copy of an optional JSON value.
pub fn copy_ojson(o: &Option<Json>) -> (r: Option<Json>)
    ensures
        ojson(r) == ojson(*o),
{
    match o {
        Some(j) => Some(j.duplicate()),
        None => None,
    }
}

/// One tool call of a session, from its start to its result.
pub struct ToolHistoryEntry {
    pub tool_name: String,
    pub tool_input: Json,
    pub tool_output: Option<String>,
    pub success: Option<bool>,
    pub tool_use_id: Option<String>,
    pub started_at: i64,
    pub ended_at: Option<i64>,
}

pub struct ToolHistoryEntryView {
    pub tool_name: Seq<char>,
    pub tool_input: JsonV,
    pub tool_output: Option<Seq<char>>,
    pub success: Option<bool>,
    pub tool_use_id: Option<Seq<char>>,
    pub started_at: i64,
    pub ended_at: Option<i64>,
}

impl View for ToolHistoryEntry {
    type V = ToolHistoryEntryView;

    open spec fn view(&self) -> ToolHistoryEntryView {
        ToolHistoryEntryView {
            tool_name: self.tool_name@,
            tool_input: self.tool_input@,
            tool_output: ostr(self.tool_output),
            success: self.success,
            tool_use_id: ostr(self.tool_use_id),
            started_at: self.started_at,
            ended_at: self.ended_at,
        }
    }
}

/// A sub-agent that a session started.
pub struct AgentNode {
    pub agent_id: String,
    pub status: String,
    pub started_at: i64,
    pub stopped_at: Option<i64>,
}

pub struct AgentNodeView {
    pub agent_id: Seq<char>,
    pub status: Seq<char>,
    pub started_at: i64,
    pub stopped_at: Option<i64>,
}

impl View for AgentNode {
    type V = AgentNodeView;

    open spec fn view(&self) -> AgentNodeView {
        AgentNodeView {
            agent_id: self.agent_id@,
            status: self.status@,
            started_at: self.started_at,
            stopped_at: self.stopped_at,
        }
    }
}

/// Everything known of one agent session.
pub struct SessionState {
    pub session_id: String,
    pub status: SessionStatus,
    pub cwd: String,
    pub transcript_path: String,
    pub pid: i64,
    pub started_at: i64,
    pub last_event_at: i64,
    pub current_tool: Option<String>,
    pub current_tool_input: Option<Json>,
    pub current_tool_use_id: Option<String>,
    pub tool_history: Vec<ToolHistoryEntry>,
    pub agents: Vec<AgentNode>,
    pub last_notification: Option<String>,
}

pub struct SessionStateView {
    pub session_id: Seq<char>,
    pub status: SessionStatus,
    pub cwd: Seq<char>,
    pub transcript_path: Seq<char>,
    pub pid: i64,
    pub started_at: i64,
    pub last_event_at: i64,
    pub current_tool: Option<Seq<char>>,
    pub current_tool_input: Option<JsonV>,
    pub current_tool_use_id: Option<Seq<char>>,
    pub tool_history: Seq<ToolHistoryEntryView>,
    pub agents: Seq<AgentNodeView>,
    pub last_notification: Option<Seq<char>>,
}

pub open spec fn history_view(v: Seq<ToolHistoryEntry>) -> Seq<ToolHistoryEntryView> {
    v.map_values(|e: ToolHistoryEntry| e@)
}

pub open spec fn agents_view(v: Seq<AgentNode>) -> Seq<AgentNodeView> {
    v.map_values(|a: AgentNode| a@)
}

impl View for SessionState {
    type V = SessionStateView;

    open spec fn view(&self) -> SessionStateView {
        SessionStateView {
            session_id: self.session_id@,
            status: self.status,
            cwd: self.cwd@,
            transcript_path: self.transcript_path@,
            pid: self.pid,
            started_at: self.started_at,
            last_event_at: self.last_event_at,
            current_tool: ostr(self.current_tool),
            current_tool_input: ojson(self.current_tool_input),
            current_tool_use_id: ostr(self.current_tool_use_id),
            tool_history: history_view(self.tool_history@),
            agents: agents_view(self.agents@),
            last_notification: ostr(self.last_notification),
        }
    }
}

/// A tool call that waits for the user's approval.
pub struct PendingPermission {
    pub connection_id: String,
    pub session_id: String,
    pub tool_name: String,
    pub tool_input: Json,
    pub tool_use_id: Option<String>,
    pub cwd: String,
    pub requested_at: i64,
}

pub struct PendingPermissionView {
    pub connection_id: Seq<char>,
    pub session_id: Seq<char>,
    pub tool_name: Seq<char>,
    pub tool_input: JsonV,
    pub tool_use_id: Option<Seq<char>>,
    pub cwd: Seq<char>,
    pub requested_at: i64,
}

impl View for PendingPermission {
    type V = PendingPermissionView;

    open spec fn view(&self) -> PendingPermissionView {
        PendingPermissionView {
            connection_id: self.connection_id@,
            session_id: self.session_id@,
            tool_name: self.tool_name@,
            tool_input: self.tool_input@,
            tool_use_id: ostr(self.tool_use_id),
            cwd: self.cwd@,
            requested_at: self.requested_at,
        }
    }
}

pub open spec fn sessions_view(v: Seq<SessionState>) -> Seq<SessionStateView> {
    v.map_values(|s: SessionState| s@)
}

pub open spec fn pending_view(v: Seq<PendingPermission>) -> Seq<PendingPermissionView> {
    v.map_values(|p: PendingPermission| p@)
}

/// What the daemon sends the dashboard: all sessions and pending requests.
pub enum DaemonMessage {
    StateSnapshot { sessions: Vec<SessionState>, pending_permissions: Vec<PendingPermission> },
    StateDelta { sessions: Vec<SessionState>, pending_permissions: Vec<PendingPermission> },
}

/// The dashboard's answer to a permission request.
pub struct TuiDecision {
    pub msg_type: &'static str,
    pub connection_id: String,
    pub decision: String,
}


impl ToolHistoryEntry {
    /// A deep copy.
    pub fn duplicate(&self) -> (r: ToolHistoryEntry)
        ensures
            r@ == self@,
    {
        ToolHistoryEntry {
            tool_name: self.tool_name.clone(),
            tool_input: self.tool_input.duplicate(),
            tool_output: copy_ostr(&self.tool_output),
            success: self.success,
            tool_use_id: copy_ostr(&self.tool_use_id),
            started_at: self.started_at,
            ended_at: self.ended_at,
        }
    }
}

impl AgentNode {
    /// A deep copy.
    pub fn duplicate(&self) -> (r: AgentNode)
        ensures
            r@ == self@,
    {
        AgentNode {
            agent_id: self.agent_id.clone(),
            status: self.status.clone(),
            started_at: self.started_at,
            stopped_at: self.stopped_at,
        }
    }
}

impl PendingPermission {
    /// A deep copy.
    pub fn duplicate(&self) -> (r: PendingPermission)
        ensures
            r@ == self@,
    {
        PendingPermission {
            connection_id: self.connection_id.clone(),
            session_id: self.session_id.clone(),
            tool_name: self.tool_name.clone(),
            tool_input: self.tool_input.duplicate(),
            tool_use_id: copy_ostr(&self.tool_use_id),
            cwd: self.cwd.clone(),
            requested_at: self.requested_at,
        }
    }
}

impl SessionState {
    /// A deep copy.
    pub fn duplicate(&self) -> (r: SessionState)
        ensures
            r@ == self@,
    {
        let mut history: Vec<ToolHistoryEntry> = Vec::new();
        let mut i: usize = 0;
        while i < self.tool_history.len()
            invariant
                i <= self.tool_history.len(),
                history_view(history@) == history_view(self.tool_history@.take(i as int)),
            decreases self.tool_history.len() - i,
        {
            let e = self.tool_history[i].duplicate();
            let ghost hb = history@;
            history.push(e);
            proof {
                assert(history_view(history@) =~= history_view(hb).push(e@));
                assert(history_view(self.tool_history@.take(i as int).push(self.tool_history@[i as int])) =~= history_view(self.tool_history@.take(i as int)).push(self.tool_history@[i as int]@));
                assert(self.tool_history@.take(i + 1) == self.tool_history@.take(i as int).push(
                    self.tool_history@[i as int],
                ));
                assert(history_view(history@) =~= history_view(self.tool_history@.take(i + 1)));
            }
            i = i + 1;
        }
        assert(self.tool_history@.take(i as int) == self.tool_history@);
        let mut agents: Vec<AgentNode> = Vec::new();
        let mut j: usize = 0;
        while j < self.agents.len()
            invariant
                j <= self.agents.len(),
                agents_view(agents@) == agents_view(self.agents@.take(j as int)),
            decreases self.agents.len() - j,
        {
            let a = self.agents[j].duplicate();
            let ghost ab = agents@;
            agents.push(a);
            proof {
                assert(agents_view(agents@) =~= agents_view(ab).push(a@));
                assert(agents_view(self.agents@.take(j as int).push(self.agents@[j as int])) =~= agents_view(self.agents@.take(j as int)).push(self.agents@[j as int]@));
                assert(self.agents@.take(j + 1) == self.agents@.take(j as int).push(
                    self.agents@[j as int],
                ));
                assert(agents_view(agents@) =~= agents_view(self.agents@.take(j + 1)));
            }
            j = j + 1;
        }
        assert(self.agents@.take(j as int) == self.agents@);
        SessionState {
            session_id: self.session_id.clone(),
            status: self.status,
            cwd: self.cwd.clone(),
            transcript_path: self.transcript_path.clone(),
            pid: self.pid,
            started_at: self.started_at,
            last_event_at: self.last_event_at,
            current_tool: copy_ostr(&self.current_tool),
            current_tool_input: copy_ojson(&self.current_tool_input),
            current_tool_use_id: copy_ostr(&self.current_tool_use_id),
            tool_history: history,
            agents,
            last_notification: copy_ostr(&self.last_notification),
        }
    }
}

} // verus!
