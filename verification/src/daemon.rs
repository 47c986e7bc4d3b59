//! The daemon's session tracker: a state machine from hook events to the
//! sessions and pending permission requests that the dashboard shows.
use vstd::prelude::*;
use crate::json::{Json, JsonV};
use crate::status::SessionStatus;
use crate::text::{owned, str_eq};
use crate::types::{
    agents_view, copy_ojson, copy_ostr, history_view, ojson, ostr, pending_view, sessions_view,
    AgentNode, AgentNodeView, PendingPermission, PendingPermissionView, SessionState,
    SessionStateView, ToolHistoryEntry, ToolHistoryEntryView,
};

verus! {

/// One event that a hook process reports, as the daemon reads it. Absent
/// text fields are empty and absent numbers are zero.
pub struct HookEventRaw {
    pub session_id: String,
    pub transcript_path: String,
    pub cwd: String,
    pub permission_mode: String,
    pub hook_event_name: String,
    pub tool_name: Option<String>,
    pub tool_input: Option<Json>,
    pub tool_output: Option<String>,
    pub tool_use_id: Option<String>,
    pub success: Option<bool>,
    pub notification_type: Option<String>,
    pub message: Option<String>,
    pub pid: i64,
    pub ts: i64,
    /// Assigned by the daemon to a permission request's connection.
    pub connection_id: Option<String>,
}

pub struct HookEventView {
    pub session_id: Seq<char>,
    pub transcript_path: Seq<char>,
    pub cwd: Seq<char>,
    pub hook_event_name: Seq<char>,
    pub tool_name: Option<Seq<char>>,
    pub tool_input: Option<JsonV>,
    pub tool_output: Option<Seq<char>>,
    pub tool_use_id: Option<Seq<char>>,
    pub success: Option<bool>,
    pub notification_type: Option<Seq<char>>,
    pub message: Option<Seq<char>>,
    pub pid: i64,
    pub ts: i64,
    pub connection_id: Option<Seq<char>>,
}

impl View for HookEventRaw {
    type V = HookEventView;

    open spec fn view(&self) -> HookEventView {
        HookEventView {
            session_id: self.session_id@,
            transcript_path: self.transcript_path@,
            cwd: self.cwd@,
            hook_event_name: self.hook_event_name@,
            tool_name: ostr(self.tool_name),
            tool_input: ojson(self.tool_input),
            tool_output: ostr(self.tool_output),
            tool_use_id: ostr(self.tool_use_id),
            success: self.success,
            notification_type: ostr(self.notification_type),
            message: ostr(self.message),
            pid: self.pid,
            ts: self.ts,
            connection_id: ostr(self.connection_id),
        }
    }
}

/// No two sessions share an id.
pub open spec fn unique_ids(ss: Seq<SessionStateView>) -> bool {
    forall|i: int, j: int|
        0 <= i < j < ss.len() ==> #[trigger] ss[i].session_id != #[trigger] ss[j].session_id
}

/// All sessions the daemon has heard of, by id, and the permission
/// requests still waiting for an answer.
pub struct DaemonState {
    sessions: Vec<SessionState>,
    pending_permissions: Vec<PendingPermission>,
}

pub struct DaemonStateView {
    pub sessions: Seq<SessionStateView>,
    pub pending_permissions: Seq<PendingPermissionView>,
}

impl View for DaemonState {
    type V = DaemonStateView;

    closed spec fn view(&self) -> DaemonStateView {
        DaemonStateView {
            sessions: sessions_view(self.sessions@),
            pending_permissions: pending_view(self.pending_permissions@),
        }
    }
}

impl DaemonState {
    #[verifier::type_invariant]
    spec fn inv(self) -> bool {
        unique_ids(sessions_view(self.sessions@))
    }

    pub fn new() -> (r: DaemonState)
        ensures
            r@.sessions == Seq::<SessionStateView>::empty(),
            r@.pending_permissions == Seq::<PendingPermissionView>::empty(),
    {
        let r = DaemonState { sessions: Vec::new(), pending_permissions: Vec::new() };
        assert(sessions_view(r.sessions@) =~= Seq::<SessionStateView>::empty());
        assert(pending_view(r.pending_permissions@) =~= Seq::<PendingPermissionView>::empty());
        r
    }

    /// The tracked sessions, in the order in which they were first seen.
    pub fn sessions(&self) -> (r: &Vec<SessionState>)
        ensures
            sessions_view(r@) == self@.sessions,
    {
        &self.sessions
    }

    /// The permission requests that wait for an answer, oldest first.
    pub fn pending_permissions(&self) -> (r: &Vec<PendingPermission>)
        ensures
            pending_view(r@) == self@.pending_permissions,
    {
        &self.pending_permissions
    }
}

// ── the model ───────────────────────────────────────────────────────────────

/// Index of the session with id `id`, if any.
pub open spec fn session_index(ss: Seq<SessionStateView>, id: Seq<char>) -> Option<nat>
    decreases ss.len(),
{
    if ss.len() == 0 {
        None
    } else if ss[0].session_id == id {
        Some(0)
    } else {
        match session_index(ss.drop_first(), id) {
            Some(i) => Some(i + 1),
            None => None,
        }
    }
}

/// The session that an event about an unknown session creates.
pub open spec fn fresh_session(e: HookEventView) -> SessionStateView {
    SessionStateView {
        session_id: e.session_id,
        status: SessionStatus::WaitingForInput,
        cwd: e.cwd,
        transcript_path: e.transcript_path,
        pid: e.pid,
        started_at: e.ts,
        last_event_at: e.ts,
        current_tool: None,
        current_tool_input: None,
        current_tool_use_id: None,
        tool_history: Seq::empty(),
        agents: Seq::empty(),
        last_notification: None,
    }
}

/// The event's session as it stands, or a fresh one.
pub open spec fn existing_or_fresh(ss: Seq<SessionStateView>, e: HookEventView) -> SessionStateView {
    match session_index(ss, e.session_id) {
        Some(i) => ss[i as int],
        None => fresh_session(e),
    }
}

/// Replace the session with the same id, or add it at the end.
pub open spec fn upsert_spec(ss: Seq<SessionStateView>, s: SessionStateView) -> Seq<SessionStateView> {
    match session_index(ss, s.session_id) {
        Some(i) => ss.update(i as int, s),
        None => ss.push(s),
    }
}

/// The timestamp an event is recorded with: its own, or `now` when it has none.
pub open spec fn event_ts(e: HookEventView, now: i64) -> i64 {
    if e.ts == 0 {
        now
    } else {
        e.ts
    }
}

pub open spec fn text_or_empty(o: Option<Seq<char>>) -> Seq<char> {
    match o {
        Some(s) => s,
        None => Seq::empty(),
    }
}

pub open spec fn json_or_null(o: Option<JsonV>) -> JsonV {
    match o {
        Some(j) => j,
        None => JsonV::Null,
    }
}

/// The history entry that a `PreToolUse` event opens.
pub open spec fn opened_entry(e: HookEventView, ts: i64) -> ToolHistoryEntryView {
    ToolHistoryEntryView {
        tool_name: text_or_empty(e.tool_name),
        tool_input: json_or_null(e.tool_input),
        tool_output: None,
        success: None,
        tool_use_id: e.tool_use_id,
        started_at: ts,
        ended_at: None,
    }
}

/// A history entry after a `PostToolUse` event: closed when its tool-use id matches.
pub open spec fn closed_entry(h: ToolHistoryEntryView, e: HookEventView, ts: i64) -> ToolHistoryEntryView {
    if e.tool_use_id is Some && h.tool_use_id == e.tool_use_id {
        ToolHistoryEntryView { tool_output: e.tool_output, success: e.success, ended_at: Some(ts), ..h }
    } else {
        h
    }
}

/// Index of the agent with id `aid`, if any.
pub open spec fn agent_index(agents: Seq<AgentNodeView>, aid: Seq<char>) -> Option<nat>
    decreases agents.len(),
{
    if agents.len() == 0 {
        None
    } else if agents[0].agent_id == aid {
        Some(0)
    } else {
        match agent_index(agents.drop_first(), aid) {
            Some(i) => Some(i + 1),
            None => None,
        }
    }
}

/// The agents after sub-agent `aid` stops at `ts`.
pub open spec fn stop_agent(agents: Seq<AgentNodeView>, aid: Seq<char>, ts: i64) -> Seq<AgentNodeView> {
    match agent_index(agents, aid) {
        Some(j) => agents.update(
            j as int,
            AgentNodeView { status: "stopped"@, stopped_at: Some(ts), ..agents[j as int] },
        ),
        None => agents.push(
            AgentNodeView { agent_id: aid, status: "stopped"@, started_at: ts, stopped_at: Some(ts) },
        ),
    }
}

/// The session as an event about it leaves it, for every event but
/// `SubagentStop` (which only touches known sessions).
pub open spec fn updated_session(b: SessionStateView, e: HookEventView, ts: i64) -> SessionStateView {
    let n = e.hook_event_name;
    if n == "SessionStart"@ {
        SessionStateView {
            cwd: e.cwd,
            transcript_path: e.transcript_path,
            pid: e.pid,
            status: SessionStatus::WaitingForInput,
            last_event_at: ts,
            ..b
        }
    } else if n == "SessionEnd"@ {
        SessionStateView { status: SessionStatus::Ended, last_event_at: ts, ..b }
    } else if n == "UserPromptSubmit"@ {
        SessionStateView { status: SessionStatus::Processing, last_event_at: ts, ..b }
    } else if n == "PreToolUse"@ {
        SessionStateView {
            status: SessionStatus::RunningTool,
            current_tool: e.tool_name,
            current_tool_input: e.tool_input,
            current_tool_use_id: e.tool_use_id,
            last_event_at: ts,
            tool_history: b.tool_history.push(opened_entry(e, ts)),
            ..b
        }
    } else if n == "PostToolUse"@ {
        SessionStateView {
            tool_history: b.tool_history.map_values(|h: ToolHistoryEntryView| closed_entry(h, e, ts)),
            status: SessionStatus::Processing,
            current_tool: None,
            current_tool_input: None,
            current_tool_use_id: None,
            last_event_at: ts,
            ..b
        }
    } else if n == "PermissionRequest"@ {
        SessionStateView { status: SessionStatus::WaitingForApproval, last_event_at: ts, ..b }
    } else if n == "Stop"@ {
        SessionStateView {
            status: SessionStatus::WaitingForInput,
            current_tool: None,
            current_tool_input: None,
            current_tool_use_id: None,
            last_event_at: ts,
            ..b
        }
    } else if n == "Notification"@ {
        SessionStateView {
            status: if e.notification_type == Some("idle_prompt"@) {
                SessionStatus::WaitingForInput
            } else {
                SessionStatus::Processing
            },
            last_event_at: ts,
            last_notification: e.message,
            ..b
        }
    } else if n == "PreCompact"@ {
        SessionStateView { status: SessionStatus::Compacting, last_event_at: ts, ..b }
    } else {
        SessionStateView { last_event_at: ts, ..b }
    }
}

/// The pending request that a `PermissionRequest` event with a connection adds.
pub open spec fn requested_permission(e: HookEventView, c: Seq<char>, ts: i64) -> PendingPermissionView {
    PendingPermissionView {
        connection_id: c,
        session_id: e.session_id,
        tool_name: text_or_empty(e.tool_name),
        tool_input: json_or_null(e.tool_input),
        tool_use_id: e.tool_use_id,
        cwd: e.cwd,
        requested_at: ts,
    }
}

/// What one hook event does to the daemon's state.
pub open spec fn apply_event_spec(st: DaemonStateView, e: HookEventView, now: i64) -> DaemonStateView {
    let ts = event_ts(e, now);
    if e.hook_event_name == "SubagentStop"@ {
        match session_index(st.sessions, e.session_id) {
            Some(i) => {
                let s = st.sessions[i as int];
                let aid = match e.tool_use_id {
                    Some(t) => t,
                    None => e.session_id,
                };
                DaemonStateView {
                    sessions: st.sessions.update(
                        i as int,
                        SessionStateView {
                            agents: stop_agent(s.agents, aid, ts),
                            last_event_at: ts,
                            ..s
                        },
                    ),
                    ..st
                }
            },
            None => st,
        }
    } else {
        let s = updated_session(existing_or_fresh(st.sessions, e), e, ts);
        DaemonStateView {
            sessions: upsert_spec(st.sessions, s),
            pending_permissions: if e.hook_event_name == "PermissionRequest"@ {
                match e.connection_id {
                    Some(c) => st.pending_permissions.push(requested_permission(e, c, ts)),
                    None => st.pending_permissions,
                }
            } else {
                st.pending_permissions
            },
        }
    }
}

/// The pending requests once the one on connection `c` is answered or timed out.
pub open spec fn without_connection(ps: Seq<PendingPermissionView>, c: Seq<char>) -> Seq<
    PendingPermissionView,
> {
    ps.filter(|p: PendingPermissionView| p.connection_id != c)
}

// ── lemmas on the model ─────────────────────────────────────────────────────

pub proof fn lemma_session_index(ss: Seq<SessionStateView>, id: Seq<char>)
    ensures
        session_index(ss, id) matches Some(i) ==> i < ss.len() && ss[i as int].session_id == id
            && forall|k: int| 0 <= k < i ==> ss[k].session_id != id,
        session_index(ss, id) is None ==> forall|k: int|
            0 <= k < ss.len() ==> ss[k].session_id != id,
    decreases ss.len(),
{
    if ss.len() > 0 && ss[0].session_id != id {
        lemma_session_index(ss.drop_first(), id);
        assert forall|k: int| 1 <= k < ss.len() implies ss[k] == ss.drop_first()[k - 1] by {}
    }
}

pub proof fn lemma_session_index_at(ss: Seq<SessionStateView>, id: Seq<char>, i: int)
    requires
        0 <= i <= ss.len(),
        forall|k: int| 0 <= k < i ==> ss[k].session_id != id,
    ensures
        i < ss.len() && ss[i].session_id == id ==> session_index(ss, id) == Some(i as nat),
        i == ss.len() ==> session_index(ss, id) is None,
    decreases i,
{
    if i > 0 {
        lemma_session_index_at(ss.drop_first(), id, i - 1);
    }
}

pub proof fn lemma_agent_index(agents: Seq<AgentNodeView>, aid: Seq<char>, i: int)
    requires
        0 <= i <= agents.len(),
        forall|k: int| 0 <= k < i ==> agents[k].agent_id != aid,
    ensures
        i < agents.len() && agents[i].agent_id == aid ==> agent_index(agents, aid) == Some(
            i as nat,
        ),
        i == agents.len() ==> agent_index(agents, aid) is None,
    decreases i,
{
    if i > 0 {
        lemma_agent_index(agents.drop_first(), aid, i - 1);
    }
}

/// Replacing or adding a session keeps the ids unique.
pub proof fn lemma_upsert_unique(ss: Seq<SessionStateView>, s: SessionStateView)
    requires
        unique_ids(ss),
    ensures
        unique_ids(upsert_spec(ss, s)),
        upsert_spec(ss, s).contains(s),
{
    lemma_session_index(ss, s.session_id);
    let r = upsert_spec(ss, s);
    match session_index(ss, s.session_id) {
        Some(i) => {
            assert(r[i as int] == s);
        },
        None => {
            assert(r[ss.len() as int] == s);
        },
    }
}

// ── the implementation ──────────────────────────────────────────────────────

/// Index of the session with id `id`.
fn find_session(ss: &Vec<SessionState>, id: &str) -> (r: Option<usize>)
    ensures
        r matches Some(i) ==> session_index(sessions_view(ss@), id@) == Some(i as nat) && i
            < ss.len() && ss@[i as int].session_id@ == id@,
        r is None ==> session_index(sessions_view(ss@), id@) is None,
{
    let ghost v = sessions_view(ss@);
    let mut i: usize = 0;
    while i < ss.len()
        invariant
            v == sessions_view(ss@),
            i <= ss.len(),
            forall|k: int| 0 <= k < i ==> v[k].session_id != id@,
        decreases ss.len() - i,
    {
        if str_eq(ss[i].session_id.as_str(), id) {
            proof {
                lemma_session_index_at(v, id@, i as int);
            }
            return Some(i);
        }
        i = i + 1;
    }
    proof {
        lemma_session_index_at(v, id@, i as int);
    }
    None
}

/// A copy of the event's session, or a fresh session for an unknown id.
pub fn get_or_create(state: &DaemonState, event: &HookEventRaw) -> (r: SessionState)
    ensures
        r@ == existing_or_fresh(state@.sessions, event@),
{
    match find_session(&state.sessions, event.session_id.as_str()) {
        Some(i) => state.sessions[i].duplicate(),
        None => {
            let r = SessionState {
                session_id: event.session_id.clone(),
                status: SessionStatus::WaitingForInput,
                cwd: event.cwd.clone(),
                transcript_path: event.transcript_path.clone(),
                pid: event.pid,
                started_at: event.ts,
                last_event_at: event.ts,
                current_tool: None,
                current_tool_input: None,
                current_tool_use_id: None,
                tool_history: Vec::new(),
                agents: Vec::new(),
                last_notification: None,
            };
            assert(history_view(r.tool_history@) =~= Seq::<ToolHistoryEntryView>::empty());
            assert(agents_view(r.agents@) =~= Seq::<AgentNodeView>::empty());
            r
        },
    }
}

/// Stores `session` under its id, replacing the session with that id.
pub fn upsert(state: &mut DaemonState, session: SessionState)
    ensures
        final(state)@.sessions == upsert_spec(old(state)@.sessions, session@),
        final(state)@.pending_permissions == old(state)@.pending_permissions,
        unique_ids(final(state)@.sessions),
{
    proof {
        use_type_invariant(&*state);
        lemma_upsert_unique(sessions_view(state.sessions@), session@);
    }
    let ghost v = sessions_view(state.sessions@);
    let mut sessions: Vec<SessionState> = Vec::new();
    std::mem::swap(&mut sessions, &mut state.sessions);
    match find_session(&sessions, session.session_id.as_str()) {
        Some(i) => {
            sessions.set(i, session);
        },
        None => {
            sessions.push(session);
        },
    }
    assert(sessions_view(sessions@) =~= upsert_spec(v, session@));
    state.sessions = sessions;
}

fn text_or_default(o: &Option<String>) -> (r: String)
    ensures
        r@ == text_or_empty(ostr(*o)),
{
    match o {
        Some(s) => s.clone(),
        None => String::new(),
    }
}

fn json_or_default(o: &Option<Json>) -> (r: Json)
    ensures
        r@ == json_or_null(ojson(*o)),
{
    match o {
        Some(j) => j.duplicate(),
        None => Json::Null,
    }
}

/// Closes the history entries of tool call `id` with the event's result.
fn close_history(s: &mut SessionState, event: &HookEventRaw, ts: i64)
    ensures
        final(s)@ == (SessionStateView {
            tool_history: old(s)@.tool_history.map_values(
                |h: ToolHistoryEntryView| closed_entry(h, event@, ts),
            ),
            ..old(s)@
        }),
{
    let ghost h0 = history_view(s.tool_history@);
    if let Some(id) = &event.tool_use_id {
        let mut k: usize = 0;
        while k < s.tool_history.len()
            invariant
                event.tool_use_id == Some(*id),
                s.tool_history.len() == h0.len(),
                k <= s.tool_history.len(),
                forall|j: int|
                    0 <= j < k ==> #[trigger] history_view(s.tool_history@)[j] == closed_entry(
                        h0[j],
                        event@,
                        ts,
                    ),
                forall|j: int|
                    k <= j < h0.len() ==> #[trigger] history_view(s.tool_history@)[j] == h0[j],
                s.session_id == old(s).session_id,
                s.status == old(s).status,
                s.cwd == old(s).cwd,
                s.transcript_path == old(s).transcript_path,
                s.pid == old(s).pid,
                s.started_at == old(s).started_at,
                s.last_event_at == old(s).last_event_at,
                s.current_tool == old(s).current_tool,
                s.current_tool_input == old(s).current_tool_input,
                s.current_tool_use_id == old(s).current_tool_use_id,
                s.agents == old(s).agents,
                s.last_notification == old(s).last_notification,
                h0 == history_view(old(s).tool_history@),
            decreases h0.len() - k,
        {
            let hit = match &s.tool_history[k].tool_use_id {
                Some(x) => str_eq(x.as_str(), id.as_str()),
                None => false,
            };
            let ghost before = history_view(s.tool_history@);
            assert(before[k as int] == h0[k as int]);
            if hit {
                let out = copy_ostr(&event.tool_output);
                s.tool_history[k].tool_output = out;
                s.tool_history[k].success = event.success;
                s.tool_history[k].ended_at = Some(ts);
            }
            proof {
                assert forall|j: int| 0 <= j < h0.len() && j != k implies #[trigger] history_view(
                    s.tool_history@,
                )[j] == before[j] by {}
            }
            k = k + 1;
        }
        assert(history_view(s.tool_history@) =~= h0.map_values(
            |h: ToolHistoryEntryView| closed_entry(h, event@, ts),
        ));
    } else {
        assert(h0 =~= h0.map_values(|h: ToolHistoryEntryView| closed_entry(h, event@, ts)));
    }
}

/// Marks sub-agent `aid` as stopped at `ts`, adding it when it is new.
fn stop_agent_exec(agents: &mut Vec<AgentNode>, aid: String, ts: i64)
    ensures
        agents_view(final(agents)@) == stop_agent(agents_view(old(agents)@), aid@, ts),
{
    let ghost a0 = agents_view(agents@);
    let mut j: usize = 0;
    while j < agents.len()
        invariant
            a0 == agents_view(agents@),
            a0 == agents_view(old(agents)@),
            j <= agents.len(),
            forall|k: int| 0 <= k < j ==> a0[k].agent_id != aid@,
        decreases agents.len() - j,
    {
        if str_eq(agents[j].agent_id.as_str(), aid.as_str()) {
            proof {
                lemma_agent_index(a0, aid@, j as int);
            }
            agents[j].status = owned("stopped");
            agents[j].stopped_at = Some(ts);
            assert(agents_view(agents@) =~= a0.update(
                j as int,
                AgentNodeView { status: "stopped"@, stopped_at: Some(ts), ..a0[j as int] },
            ));
            return ;
        }
        j = j + 1;
    }
    proof {
        lemma_agent_index(a0, aid@, j as int);
    }
    agents.push(
        AgentNode { agent_id: aid, status: owned("stopped"), started_at: ts, stopped_at: Some(ts) },
    );
    assert(agents_view(agents@) =~= stop_agent(a0, aid@, ts));
}

/// Applies one hook event; `now` stands in for an event without a timestamp.
pub fn apply_event(state: &mut DaemonState, event: &HookEventRaw, now: i64)
    ensures
        final(state)@ == apply_event_spec(old(state)@, event@, now),
        unique_ids(final(state)@.sessions),
{
    let ts = if event.ts == 0 {
        now
    } else {
        event.ts
    };
    let name = event.hook_event_name.as_str();
    proof {
        use_type_invariant(&*state);
    }
    if str_eq(name, "SubagentStop") {
        if let Some(i) = find_session(&state.sessions, event.session_id.as_str()) {
            let mut s = state.sessions[i].duplicate();
            let aid = match &event.tool_use_id {
                Some(t) => t.clone(),
                None => event.session_id.clone(),
            };
            stop_agent_exec(&mut s.agents, aid, ts);
            s.last_event_at = ts;
            proof {
                lemma_session_index(state@.sessions, event@.session_id);
            }
            upsert(state, s);
        }
        return ;
    }
    let mut s = get_or_create(state, event);
    if str_eq(name, "SessionStart") {
        s.cwd = event.cwd.clone();
        s.transcript_path = event.transcript_path.clone();
        s.pid = event.pid;
        s.status = SessionStatus::WaitingForInput;
        s.last_event_at = ts;
    } else if str_eq(name, "SessionEnd") {
        s.status = SessionStatus::Ended;
        s.last_event_at = ts;
    } else if str_eq(name, "UserPromptSubmit") {
        s.status = SessionStatus::Processing;
        s.last_event_at = ts;
    } else if str_eq(name, "PreToolUse") {
        let entry = ToolHistoryEntry {
            tool_name: text_or_default(&event.tool_name),
            tool_input: json_or_default(&event.tool_input),
            tool_output: None,
            success: None,
            tool_use_id: copy_ostr(&event.tool_use_id),
            started_at: ts,
            ended_at: None,
        };
        s.status = SessionStatus::RunningTool;
        s.current_tool = copy_ostr(&event.tool_name);
        s.current_tool_input = copy_ojson(&event.tool_input);
        s.current_tool_use_id = copy_ostr(&event.tool_use_id);
        s.last_event_at = ts;
        let ghost hb = s.tool_history@;
        s.tool_history.push(entry);
        assert(history_view(s.tool_history@) =~= history_view(hb).push(entry@));
    } else if str_eq(name, "PostToolUse") {
        close_history(&mut s, event, ts);
        s.status = SessionStatus::Processing;
        s.current_tool = None;
        s.current_tool_input = None;
        s.current_tool_use_id = None;
        s.last_event_at = ts;
    } else if str_eq(name, "PermissionRequest") {
        s.status = SessionStatus::WaitingForApproval;
        s.last_event_at = ts;
    } else if str_eq(name, "Stop") {
        s.status = SessionStatus::WaitingForInput;
        s.current_tool = None;
        s.current_tool_input = None;
        s.current_tool_use_id = None;
        s.last_event_at = ts;
    } else if str_eq(name, "Notification") {
        let idle = match &event.notification_type {
            Some(t) => str_eq(t.as_str(), "idle_prompt"),
            None => false,
        };
        s.status = if idle {
            SessionStatus::WaitingForInput
        } else {
            SessionStatus::Processing
        };
        s.last_event_at = ts;
        s.last_notification = copy_ostr(&event.message);
    } else if str_eq(name, "PreCompact") {
        s.status = SessionStatus::Compacting;
        s.last_event_at = ts;
    } else {
        s.last_event_at = ts;
    }
    upsert(state, s);
    if str_eq(name, "PermissionRequest") {
        if let Some(connection_id) = &event.connection_id {
            let p = PendingPermission {
                connection_id: connection_id.clone(),
                session_id: event.session_id.clone(),
                tool_name: text_or_default(&event.tool_name),
                tool_input: json_or_default(&event.tool_input),
                tool_use_id: copy_ostr(&event.tool_use_id),
                cwd: event.cwd.clone(),
                requested_at: ts,
            };
            let mut pending: Vec<PendingPermission> = Vec::new();
            std::mem::swap(&mut pending, &mut state.pending_permissions);
            let ghost pb = pending@;
            pending.push(p);
            assert(pending_view(pending@) =~= pending_view(pb).push(p@));
            state.pending_permissions = pending;
        }
    }
}

/// Drops the pending request on connection `connection_id`, once it is
/// answered or has timed out.
pub fn resolve_permission(state: &mut DaemonState, connection_id: &str)
    ensures
        final(state)@.sessions == old(state)@.sessions,
        final(state)@.pending_permissions == without_connection(
            old(state)@.pending_permissions,
            connection_id@,
        ),
{
    proof {
        use_type_invariant(&*state);
    }
    let ghost p0 = pending_view(state.pending_permissions@);
    let mut kept: Vec<PendingPermission> = Vec::new();
    let mut i: usize = 0;
    while i < state.pending_permissions.len()
        invariant
            p0 == pending_view(state.pending_permissions@),
            i <= state.pending_permissions.len(),
            pending_view(kept@) == without_connection(p0.take(i as int), connection_id@),
        decreases state.pending_permissions.len() - i,
    {
        let ghost kb = kept@;
        assert(p0.take(i + 1).drop_last() =~= p0.take(i as int));
        if !str_eq(state.pending_permissions[i].connection_id.as_str(), connection_id) {
            let p = state.pending_permissions[i].duplicate();
            kept.push(p);
            assert(pending_view(kept@) =~= pending_view(kb).push(p@));
        }
        proof {
            let f = |p: PendingPermissionView| p.connection_id != connection_id@;
            assert(p0.take(i + 1) =~= p0.take(i as int).push(p0[i as int]));
            p0.take(i as int).lemma_filter_push(p0[i as int], f);
        }
        i = i + 1;
    }
    assert(p0.take(i as int) =~= p0);
    state.pending_permissions = kept;
}


// ── answering requests ──────────────────────────────────────────────────────

/// The line sent back to a hook that asked for a permission: the
/// decision the dashboard made, or `ask` when none came in time.
pub open spec fn reply_text(decision: Option<Seq<char>>) -> Seq<char> {
    "{\"decision\":\""@ + match decision {
        Some(d) => d,
        None => "ask"@,
    } + "\"}\n"@
}

/// The reply to a hook's permission request.
pub fn decision_reply(decision: Option<String>) -> (r: String)
    ensures
        r@ == reply_text(crate::types::ostr(decision)),
{
    let mut r = owned("{\"decision\":\"");
    match decision {
        Some(d) => crate::text::push_text(&mut r, d.as_str()),
        None => crate::text::push_text(&mut r, "ask"),
    }
    crate::text::push_text(&mut r, "\"}\n");
    r
}

/// A message from the dashboard answers a request when its type is
/// `PermissionDecision`: it names the request's connection and the
/// decision.
pub fn answer_of(msg_type: &str, connection_id: String, decision: String) -> (r: Option<
    (String, String),
>)
    ensures
        msg_type@ == "PermissionDecision"@ ==> (r matches Some((c, d)) && c@ == connection_id@ && d@
            == decision@),
        msg_type@ != "PermissionDecision"@ ==> r is None,
{
    if str_eq(msg_type, "PermissionDecision") {
        Some((connection_id, decision))
    } else {
        None
    }
}

// ── laws ────────────────────────────────────────────────────────────────────

/// Any event but `SubagentStop` leaves its session tracked, exactly once,
/// in the state that event puts it in: updated in place when it was known,
/// added at the end when it was new.
pub proof fn event_session_is_tracked(st: DaemonStateView, e: HookEventView, now: i64)
    requires
        unique_ids(st.sessions),
        e.hook_event_name != "SubagentStop"@,
    ensures
        ({
            let post = apply_event_spec(st, e, now);
            let s = updated_session(existing_or_fresh(st.sessions, e), e, event_ts(e, now));
            &&& s.session_id == e.session_id
            &&& session_index(post.sessions, e.session_id) matches Some(i) && post.sessions[i as int]
                == s
            &&& unique_ids(post.sessions)
            &&& session_index(st.sessions, e.session_id) matches Some(i) ==> post.sessions.len()
                == st.sessions.len() && session_index(post.sessions, e.session_id) == Some(i)
            &&& session_index(st.sessions, e.session_id) is None ==> post.sessions.len()
                == st.sessions.len() + 1 && session_index(post.sessions, e.session_id) == Some(
                st.sessions.len(),
            )
        }),
{
    let ts = event_ts(e, now);
    let b = existing_or_fresh(st.sessions, e);
    let s = updated_session(b, e, ts);
    lemma_session_index(st.sessions, e.session_id);
    assert(b.session_id == e.session_id);
    assert(s.session_id == e.session_id);
    lemma_upsert_unique(st.sessions, s);
    let post = upsert_spec(st.sessions, s);
    match session_index(st.sessions, e.session_id) {
        Some(i) => {
            assert forall|k: int| 0 <= k < i implies post[k].session_id != e.session_id by {
                assert(post[k] == st.sessions[k]);
            }
            lemma_session_index_at(post, e.session_id, i as int);
        },
        None => {
            assert forall|k: int| 0 <= k < st.sessions.len() implies post[k].session_id
                != e.session_id by {
                assert(post[k] == st.sessions[k]);
            }
            lemma_session_index_at(post, e.session_id, st.sessions.len() as int);
        },
    }
}

/// A `PostToolUse` event closes exactly the calls of its session that
/// carry its tool-use id: each of them gets the event's output, success
/// and time as its end, and keeps its tool, input, id and start; every
/// other call of the history is left as it was, and none is added or
/// removed. An event without a tool-use id closes nothing.
pub proof fn post_tool_use_closes_only_its_call(st: DaemonStateView, e: HookEventView, now: i64)
    requires
        e.hook_event_name == "PostToolUse"@,
        session_index(st.sessions, e.session_id) is Some,
    ensures
        ({
            let i = session_index(st.sessions, e.session_id)->0 as int;
            let before = st.sessions[i].tool_history;
            let post = apply_event_spec(st, e, now);
            let after = post.sessions[i].tool_history;
            &&& post.sessions.len() == st.sessions.len()
            &&& after.len() == before.len()
            &&& forall|k: int|
                0 <= k < before.len() ==> if e.tool_use_id is Some && before[k].tool_use_id
                    == e.tool_use_id {
                    &&& (#[trigger] after[k]).tool_output == e.tool_output
                    &&& after[k].success == e.success
                    &&& after[k].ended_at == Some(event_ts(e, now))
                    &&& after[k].tool_name == before[k].tool_name
                    &&& after[k].tool_input == before[k].tool_input
                    &&& after[k].tool_use_id == before[k].tool_use_id
                    &&& after[k].started_at == before[k].started_at
                } else {
                    after[k] == before[k]
                }
        }),
{
    reveal_strlit("PostToolUse");
    reveal_strlit("SubagentStop");
    reveal_strlit("SessionStart");
    reveal_strlit("SessionEnd");
    reveal_strlit("UserPromptSubmit");
    reveal_strlit("PreToolUse");
    assert("PostToolUse"@.len() == 11 && "SubagentStop"@.len() == 12 && "SessionStart"@.len()
        == 12 && "SessionEnd"@.len() == 10 && "UserPromptSubmit"@.len() == 16
        && "PreToolUse"@.len() == 10);
    assert(e.hook_event_name != "SubagentStop"@);
    assert(e.hook_event_name != "SessionStart"@);
    assert(e.hook_event_name != "SessionEnd"@);
    assert(e.hook_event_name != "UserPromptSubmit"@);
    assert(e.hook_event_name != "PreToolUse"@);
    lemma_session_index(st.sessions, e.session_id);
    let i = session_index(st.sessions, e.session_id)->0 as int;
    let b = existing_or_fresh(st.sessions, e);
    assert(b == st.sessions[i]);
    let ts = event_ts(e, now);
    let s = updated_session(b, e, ts);
    assert(s.session_id == e.session_id);
    assert(s.tool_history == b.tool_history.map_values(
        |h: ToolHistoryEntryView| closed_entry(h, e, ts),
    ));
    let post = apply_event_spec(st, e, now);
    assert(post.sessions == upsert_spec(st.sessions, s));
    assert(post.sessions[i] == s);
}

/// No event makes the daemon forget a session: every session it tracked
/// is still tracked afterwards.
pub proof fn sessions_are_never_dropped(
    st: DaemonStateView,
    e: HookEventView,
    now: i64,
    id: Seq<char>,
)
    requires
        unique_ids(st.sessions),
        session_index(st.sessions, id) is Some,
    ensures
        session_index(apply_event_spec(st, e, now).sessions, id) is Some,
{
    let post = apply_event_spec(st, e, now).sessions;
    lemma_session_index(st.sessions, id);
    let i = session_index(st.sessions, id)->0 as int;
    if e.hook_event_name == "SubagentStop"@ {
        lemma_session_index(st.sessions, e.session_id);
    } else {
        event_session_is_tracked(st, e, now);
        lemma_session_index(st.sessions, e.session_id);
    }
    lemma_session_index(post, id);
    assert(post.len() >= st.sessions.len());
    assert(post[i].session_id == id);
}

/// A permission request that arrives on a connection waits for its answer:
/// it is added after the requests already waiting, and its session shows
/// as waiting for approval.
pub proof fn permission_request_waits(st: DaemonStateView, e: HookEventView, now: i64)
    requires
        unique_ids(st.sessions),
        e.hook_event_name == "PermissionRequest"@,
        e.connection_id is Some,
    ensures
        ({
            let post = apply_event_spec(st, e, now);
            &&& post.pending_permissions == st.pending_permissions.push(
                requested_permission(e, e.connection_id->0, event_ts(e, now)),
            )
            &&& session_index(post.sessions, e.session_id) matches Some(i)
                && post.sessions[i as int].status == SessionStatus::WaitingForApproval
        }),
{
    reveal_strlit("PermissionRequest");
    reveal_strlit("SubagentStop");
    reveal_strlit("SessionStart");
    reveal_strlit("SessionEnd");
    reveal_strlit("UserPromptSubmit");
    reveal_strlit("PreToolUse");
    reveal_strlit("PostToolUse");
    assert("PermissionRequest"@.len() == 17);
    assert("SubagentStop"@.len() == 12 && "SessionStart"@.len() == 12 && "SessionEnd"@.len() == 10);
    assert("UserPromptSubmit"@.len() == 16 && "PreToolUse"@.len() == 10 && "PostToolUse"@.len()
        == 11);
    event_session_is_tracked(st, e, now);
}

/// Only a permission request adds to the waiting requests; every other
/// event leaves them as they are.
pub proof fn other_events_keep_requests(st: DaemonStateView, e: HookEventView, now: i64)
    requires
        e.hook_event_name != "PermissionRequest"@,
    ensures
        apply_event_spec(st, e, now).pending_permissions == st.pending_permissions,
{
}

/// Once a request is answered (or has timed out), no request on its
/// connection waits any more, and every other request still waits, in
/// the same order.
pub proof fn answered_request_leaves(ps: Seq<PendingPermissionView>, c: Seq<char>)
    ensures
        forall|k: int|
            0 <= k < without_connection(ps, c).len() ==> (#[trigger] without_connection(ps, c)[k]).connection_id
                != c,
        forall|k: int|
            0 <= k < ps.len() && ps[k].connection_id != c ==> without_connection(ps, c).contains(
                #[trigger] ps[k],
            ),
        without_connection(ps, c).len() <= ps.len(),
{
    let f = |p: PendingPermissionView| p.connection_id != c;
    assert forall|k: int| 0 <= k < without_connection(ps, c).len() implies (#[trigger] without_connection(
        ps,
        c,
    )[k]).connection_id != c by {
        ps.lemma_filter_pred(f, k);
    }
    assert forall|k: int| 0 <= k < ps.len() && ps[k].connection_id != c implies without_connection(
        ps,
        c,
    ).contains(#[trigger] ps[k]) by {
        ps.lemma_filter_contains(f, k);
    }
    ps.lemma_filter_len(f);
}

} // verus!
