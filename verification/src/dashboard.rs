//! The dashboard's state machine: what daemon messages, usage updates and
//! key presses do to the session list, its selection and the dialogs, and
//! which outside actions (`Command`s) they ask for.
use vstd::prelude::*;

use crate::sort::{filter_by, sort_by, stable_sort};
use crate::status::{spec_is_active, spec_sort_priority, SessionStatus};
use crate::tables::{NameTable, ToolGrants};
use crate::text::{
    chars_of, find_char, lex_le, owned, pop_char, push_char, string_of, string_of_range,
    str_eq, text_le, trim, trim_bounds, parse_int, parse_int_in, trimmed,
};
use crate::types::{ostr, DaemonMessage, PendingPermission, SessionState};

verus! {

/// Order in which the session list is shown within each status group.
#[derive(Clone, Copy, Debug, PartialEq, Eq, Structural)]
pub enum SortMode {
    Recent,
    Alphabetical,
}

impl SortMode {
    pub fn label(self) -> (r: &'static str)
        ensures
            r@ == (match self {
                SortMode::Recent => "recent"@,
                SortMode::Alphabetical => "a-z"@,
            }),
    {
        match self {
            SortMode::Recent => "recent",
            SortMode::Alphabetical => "a-z",
        }
    }

    pub fn next(self) -> (r: SortMode)
        ensures
            r == spec_next_mode(self),
    {
        match self {
            SortMode::Recent => SortMode::Alphabetical,
            SortMode::Alphabetical => SortMode::Recent,
        }
    }
}

pub open spec fn spec_next_mode(m: SortMode) -> SortMode {
    match m {
        SortMode::Recent => SortMode::Alphabetical,
        SortMode::Alphabetical => SortMode::Recent,
    }
}

/// A key press, as far as the dashboard tells keys apart.
#[derive(Clone, Copy, Debug, PartialEq, Eq, Structural)]
pub enum Key {
    Char(char),
    Up,
    Down,
    Left,
    Right,
    Enter,
    Esc,
    Backspace,
    Delete,
    Tab,
    PageUp,
    PageDown,
    Other,
}

/// An action the dashboard asks its surroundings to carry out.
pub enum Command {
    /// Answer a permission request (`"allow"` or `"deny"`).
    SendDecision { connection_id: String, decision: String },
    /// Fetch usage figures again.
    RefreshUsage,
    /// Stop the daemon whose pid file exists.
    KillDaemon,
    /// Open a new agent session in directory `dir`; report back with `launch_finished`.
    LaunchSession { dir: String },
    /// Write the usage figures to the cache file.
    SaveUsageCache,
    /// Send a line of input to a session.
    SendMessage { session_id: String, text: String },
    /// Follow the transcript at this path (or none).
    WatchTranscript(Option<String>),
}

pub enum CommandView {
    SendDecision { connection_id: Seq<char>, decision: Seq<char> },
    RefreshUsage,
    KillDaemon,
    LaunchSession { dir: Seq<char> },
    SaveUsageCache,
    SendMessage { session_id: Seq<char>, text: Seq<char> },
    WatchTranscript(Option<Seq<char>>),
}

impl View for Command {
    type V = CommandView;

    open spec fn view(&self) -> CommandView {
        match self {
            Command::SendDecision { connection_id, decision } => CommandView::SendDecision {
                connection_id: connection_id@,
                decision: decision@,
            },
            Command::RefreshUsage => CommandView::RefreshUsage,
            Command::KillDaemon => CommandView::KillDaemon,
            Command::LaunchSession { dir } => CommandView::LaunchSession { dir: dir@ },
            Command::SaveUsageCache => CommandView::SaveUsageCache,
            Command::SendMessage { session_id, text } => CommandView::SendMessage {
                session_id: session_id@,
                text: text@,
            },
            Command::WatchTranscript(p) => CommandView::WatchTranscript(ostr(*p)),
        }
    }
}

pub open spec fn commands_view(v: Seq<Command>) -> Seq<CommandView> {
    v.map_values(|c: Command| c@)
}

/// Usage figures: `S` is what one fetch of the usage report gives (kept as
/// the dashboard received it), `L` the rate limits.
pub struct UsageData<S, L> {
    pub snapshot: S,
    pub limits: Option<L>,
    pub loading: bool,
    pub limits_loading: bool,
    pub error: Option<String>,
}

/// Something that happened outside the dashboard.
pub enum AppEvent<S, L> {
    DaemonConnected,
    DaemonDisconnected,
    DaemonMessage(DaemonMessage),
    UsageLoading,
    UsageLoaded(S),
    RateLimitsLoaded(L),
}

/// The dashboard's state.
pub struct App<S, L> {
    pub sessions: Vec<SessionState>,
    pub pending_permissions: Vec<PendingPermission>,
    pub connected: bool,
    pub selected_index: usize,
    pub list_offset: usize,
    pub usage: UsageData<S, L>,
    pub show_new_session: bool,
    pub new_session_input: String,
    pub new_session_launched: bool,
    pub new_session_error: Option<String>,
    pub tick_count: u64,
    pub session_allowed_tools: ToolGrants,
    pub session_names: NameTable,
    pub show_rename: bool,
    pub rename_input: String,
    pub sort_mode: SortMode,
    home: Option<String>,
    outbox: Vec<Command>,
}

pub struct AppView<S, L> {
    pub sessions: Seq<SessionState>,
    pub pending_permissions: Seq<PendingPermission>,
    pub connected: bool,
    pub selected_index: usize,
    pub list_offset: usize,
    pub snapshot: S,
    pub limits: Option<L>,
    pub loading: bool,
    pub limits_loading: bool,
    pub usage_error: Option<Seq<char>>,
    pub show_new_session: bool,
    pub new_session_input: Seq<char>,
    pub new_session_launched: bool,
    pub new_session_error: Option<Seq<char>>,
    pub tick_count: u64,
    pub allowed_tools: Map<Seq<char>, Set<Seq<char>>>,
    pub session_names: Map<Seq<char>, Seq<char>>,
    pub show_rename: bool,
    pub rename_input: Seq<char>,
    pub sort_mode: SortMode,
    pub home: Option<Seq<char>>,
    pub outbox: Seq<CommandView>,
}

impl<S, L> View for App<S, L> {
    type V = AppView<S, L>;

    closed spec fn view(&self) -> AppView<S, L> {
        AppView {
            sessions: self.sessions@,
            pending_permissions: self.pending_permissions@,
            connected: self.connected,
            selected_index: self.selected_index,
            list_offset: self.list_offset,
            snapshot: self.usage.snapshot,
            limits: self.usage.limits,
            loading: self.usage.loading,
            limits_loading: self.usage.limits_loading,
            usage_error: ostr(self.usage.error),
            show_new_session: self.show_new_session,
            new_session_input: self.new_session_input@,
            new_session_launched: self.new_session_launched,
            new_session_error: ostr(self.new_session_error),
            tick_count: self.tick_count,
            allowed_tools: self.session_allowed_tools@,
            session_names: self.session_names@,
            show_rename: self.show_rename,
            rename_input: self.rename_input@,
            sort_mode: self.sort_mode,
            home: ostr(self.home),
            outbox: commands_view(self.outbox@),
        }
    }
}

// ── the model ───────────────────────────────────────────────────────────────

/// The selection, kept inside the list.
pub open spec fn clamp_index(i: usize, len: nat) -> usize {
    if len == 0 {
        0
    } else if i < len {
        i
    } else {
        (len - 1) as usize
    }
}

pub open spec fn selected_of(sessions: Seq<SessionState>, i: usize) -> Option<SessionState> {
    if sessions.len() == 0 {
        None
    } else {
        Some(sessions[clamp_index(i, sessions.len()) as int])
    }
}

/// Index of the first pending request of session `id`.
pub open spec fn first_pending(ps: Seq<PendingPermission>, id: Seq<char>) -> Option<nat>
    decreases ps.len(),
{
    if ps.len() == 0 {
        None
    } else if ps[0].session_id@ == id {
        Some(0)
    } else {
        match first_pending(ps.drop_first(), id) {
            Some(i) => Some(i + 1),
            None => None,
        }
    }
}

/// The pending request of the selected session, if it has one.
pub open spec fn selected_pending_of(a: AppView<impl Sized, impl Sized>) -> Option<PendingPermission> {
    match selected_of(a.sessions, a.selected_index) {
        Some(s) => match first_pending(a.pending_permissions, s.session_id@) {
            Some(i) => Some(a.pending_permissions[i as int]),
            None => None,
        },
        None => None,
    }
}

/// The order of the session list: status group first, then the sort mode.
pub open spec fn session_le(mode: SortMode) -> spec_fn(SessionState, SessionState) -> bool {
    |a: SessionState, b: SessionState|
        {
            let pa = spec_sort_priority(a.status);
            let pb = spec_sort_priority(b.status);
            pa < pb || (pa == pb && match mode {
                SortMode::Recent => a.last_event_at >= b.last_event_at,
                SortMode::Alphabetical => lex_le(a.cwd@, b.cwd@),
            })
        }
}

pub open spec fn has_request_for(ps: Seq<PendingPermission>, s: SessionState) -> bool {
    exists|k: int| 0 <= k < ps.len() && #[trigger] ps[k].session_id@ == s.session_id@
}

/// Sessions with a pending request are waiting for approval.
pub open spec fn mark_waiting(ss: Seq<SessionState>, ps: Seq<PendingPermission>) -> Seq<SessionState> {
    ss.map_values(
        |s: SessionState|
            if has_request_for(ps, s) {
                SessionState { status: SessionStatus::WaitingForApproval, ..s }
            } else {
                s
            },
    )
}

pub open spec fn is_active_session() -> spec_fn(SessionState) -> bool {
    |s: SessionState| spec_is_active(s.status)
}

pub open spec fn auto_pred(tools: Map<Seq<char>, Set<Seq<char>>>) -> spec_fn(PendingPermission) -> bool {
    |p: PendingPermission| auto_allowed(tools, p)
}

pub open spec fn waiting_pred(tools: Map<Seq<char>, Set<Seq<char>>>) -> spec_fn(PendingPermission) -> bool {
    |p: PendingPermission| !auto_allowed(tools, p)
}

/// Whether a request's tool is approved for the rest of its session.
pub open spec fn auto_allowed(tools: Map<Seq<char>, Set<Seq<char>>>, p: PendingPermission) -> bool {
    tools.contains_key(p.session_id@) && tools[p.session_id@].contains(p.tool_name@)
}

pub open spec fn decision(p: PendingPermission, d: Seq<char>) -> CommandView {
    CommandView::SendDecision { connection_id: p.connection_id@, decision: d }
}

pub open spec fn message_parts(msg: DaemonMessage) -> (Seq<SessionState>, Seq<PendingPermission>) {
    match msg {
        DaemonMessage::StateSnapshot { sessions, pending_permissions } => (
            sessions@,
            pending_permissions@,
        ),
        DaemonMessage::StateDelta { sessions, pending_permissions } => (
            sessions@,
            pending_permissions@,
        ),
    }
}

/// What a daemon message does: the sessions it lists replace the list, marked
/// and sorted; requests for approved tools are answered at once; the others
/// wait.
pub open spec fn apply_message_spec<S, L>(a: AppView<S, L>, msg: DaemonMessage) -> AppView<S, L> {
    let (ss, ps) = message_parts(msg);
    let marked = mark_waiting(ss, ps);
    let auto = ps.filter(auto_pred(a.allowed_tools));
    let rest = ps.filter(waiting_pred(a.allowed_tools));
    let sorted = stable_sort(mark_waiting(marked, rest), session_le(a.sort_mode));
    AppView {
        sessions: sorted,
        pending_permissions: rest,
        selected_index: clamp_index(a.selected_index, sorted.len()),
        outbox: a.outbox + auto.map_values(|p: PendingPermission| decision(p, "allow"@)),
        ..a
    }
}

/// What an outside event does.
pub open spec fn event_spec<S, L>(a: AppView<S, L>, e: AppEvent<S, L>) -> AppView<S, L> {
    match e {
        AppEvent::DaemonConnected => AppView { connected: true, ..a },
        AppEvent::DaemonDisconnected => AppView { connected: false, ..a },
        AppEvent::DaemonMessage(msg) => apply_message_spec(a, msg),
        AppEvent::UsageLoading => AppView { loading: true, usage_error: None, ..a },
        AppEvent::UsageLoaded(s) => AppView {
            loading: false,
            snapshot: s,
            usage_error: None,
            outbox: a.outbox.push(CommandView::SaveUsageCache),
            ..a
        },
        AppEvent::RateLimitsLoaded(l) => AppView { limits: Some(l), limits_loading: false, ..a },
    }
}



pub open spec fn emit_spec<S, L>(a: AppView<S, L>, c: CommandView) -> AppView<S, L> {
    AppView { outbox: a.outbox.push(c), ..a }
}

/// After the selection moved to `i`, the list scrolls up to show it.
pub open spec fn select_spec<S, L>(a: AppView<S, L>, i: usize) -> AppView<S, L> {
    AppView {
        selected_index: i,
        list_offset: if i < a.list_offset {
            i
        } else {
            a.list_offset
        },
        ..a
    }
}

pub open spec fn select_prev_spec<S, L>(a: AppView<S, L>) -> AppView<S, L> {
    if a.selected_index > 0 {
        select_spec(a, (a.selected_index - 1) as usize)
    } else {
        a
    }
}

pub open spec fn select_next_spec<S, L>(a: AppView<S, L>) -> AppView<S, L> {
    if a.sessions.len() > 0 && a.selected_index < a.sessions.len() - 1 {
        select_spec(a, (a.selected_index + 1) as usize)
    } else {
        a
    }
}

pub open spec fn drop_last_char(s: Seq<char>) -> Seq<char> {
    if s.len() > 0 {
        s.drop_last()
    } else {
        s
    }
}

/// `dir.replacen("~", home, 1)` when the home directory is known.
pub open spec fn expand_home(dir: Seq<char>, home: Option<Seq<char>>) -> Seq<char> {
    match home {
        Some(h) => match find_char(dir, '~') {
            Some(i) => dir.take(i as int) + h + dir.skip((i + 1) as int),
            None => dir,
        },
        None => dir,
    }
}

/// A key press while the new-session dialog is open.
pub open spec fn new_session_key_spec<S, L>(a: AppView<S, L>, key: Key) -> AppView<S, L> {
    match key {
        Key::Esc => AppView { show_new_session: false, ..a },
        Key::Enter => {
            let dir = expand_home(trim(a.new_session_input), a.home);
            if dir.len() > 0 {
                emit_spec(a, CommandView::LaunchSession { dir })
            } else {
                a
            }
        },
        Key::Backspace => AppView { new_session_input: drop_last_char(a.new_session_input), ..a },
        Key::Char(c) => AppView { new_session_input: a.new_session_input.push(c), ..a },
        _ => a,
    }
}

/// A key press while the rename dialog is open.
pub open spec fn rename_key_spec<S, L>(a: AppView<S, L>, key: Key) -> AppView<S, L> {
    match key {
        Key::Esc => AppView { show_rename: false, ..a },
        Key::Enter => {
            let names = match selected_of(a.sessions, a.selected_index) {
                Some(s) => {
                    let name = trim(a.rename_input);
                    if name.len() == 0 {
                        a.session_names.remove(s.session_id@)
                    } else {
                        a.session_names.insert(s.session_id@, name)
                    }
                },
                None => a.session_names,
            };
            AppView { session_names: names, show_rename: false, ..a }
        },
        Key::Backspace => AppView { rename_input: drop_last_char(a.rename_input), ..a },
        Key::Char(c) => AppView { rename_input: a.rename_input.push(c), ..a },
        _ => a,
    }
}

/// Index of the first session with id `id`.
pub open spec fn session_pos(ss: Seq<SessionState>, id: Seq<char>) -> Option<nat>
    decreases ss.len(),
{
    if ss.len() == 0 {
        None
    } else if ss[0].session_id@ == id {
        Some(0)
    } else {
        match session_pos(ss.drop_first(), id) {
            Some(i) => Some(i + 1),
            None => None,
        }
    }
}

pub open spec fn not_ended() -> spec_fn(SessionState) -> bool {
    |s: SessionState| s.status != SessionStatus::Ended
}

pub open spec fn other_session(id: Seq<char>) -> spec_fn(SessionState) -> bool {
    |s: SessionState| s.session_id@ != id
}

/// `x`: drop ended sessions and keep the selected session selected.
pub open spec fn clear_ended_spec<S, L>(a: AppView<S, L>) -> AppView<S, L> {
    let kept = a.sessions.filter(not_ended());
    let idx = match selected_of(a.sessions, a.selected_index) {
        Some(s) => match session_pos(kept, s.session_id@) {
            Some(p) => p as usize,
            None => clamp_index(a.selected_index, kept.len()),
        },
        None => a.selected_index,
    };
    AppView { sessions: kept, selected_index: idx, ..a }
}

/// Delete: drop the selected session from the list.
pub open spec fn remove_selected_spec<S, L>(a: AppView<S, L>) -> AppView<S, L> {
    match selected_of(a.sessions, a.selected_index) {
        Some(s) => {
            let kept = a.sessions.filter(other_session(s.session_id@));
            AppView { sessions: kept, selected_index: clamp_index(a.selected_index, kept.len()), ..a }
        },
        None => a,
    }
}

pub open spec fn granted(
    tools: Map<Seq<char>, Set<Seq<char>>>,
    session: Seq<char>,
    tool: Seq<char>,
) -> Map<Seq<char>, Set<Seq<char>>> {
    tools.insert(
        session,
        (if tools.contains_key(session) {
            tools[session]
        } else {
            Set::empty()
        }).insert(tool),
    )
}

/// A key press; the flag says whether the dashboard quits.
pub open spec fn key_spec<S, L>(a: AppView<S, L>, key: Key, ctrl: bool) -> (AppView<S, L>, bool) {
    if a.show_new_session {
        (new_session_key_spec(a, key), false)
    } else if a.show_rename {
        (rename_key_spec(a, key), false)
    } else if key == Key::Char('q') {
        (a, true)
    } else if key == Key::Char('Q') {
        (emit_spec(a, CommandView::KillDaemon), true)
    } else if key == Key::Char('c') && ctrl {
        (a, true)
    } else if key == Key::Up || key == Key::Char('k') {
        (select_prev_spec(a), false)
    } else if key == Key::Down || key == Key::Char('j') {
        (select_next_spec(a), false)
    } else if key == Key::Char('a') {
        (match selected_pending_of(a) {
            Some(p) => emit_spec(a, decision(p, "allow"@)),
            None => a,
        }, false)
    } else if key == Key::Char('s') {
        (match selected_pending_of(a) {
            Some(p) => emit_spec(
                AppView {
                    allowed_tools: granted(a.allowed_tools, p.session_id@, p.tool_name@),
                    ..a
                },
                decision(p, "allow"@),
            ),
            None => a,
        }, false)
    } else if key == Key::Char('d') {
        (match selected_pending_of(a) {
            Some(p) => emit_spec(a, decision(p, "deny"@)),
            None => a,
        }, false)
    } else if key == Key::Char('e') {
        (match selected_of(a.sessions, a.selected_index) {
            Some(s) => AppView {
                rename_input: if a.session_names.contains_key(s.session_id@) {
                    a.session_names[s.session_id@]
                } else {
                    Seq::empty()
                },
                show_rename: true,
                ..a
            },
            None => a,
        }, false)
    } else if key == Key::Char('n') {
        (AppView {
            show_new_session: true,
            new_session_input: Seq::empty(),
            new_session_launched: false,
            new_session_error: None,
            ..a
        }, false)
    } else if key == Key::Char('o') {
        let m = spec_next_mode(a.sort_mode);
        (AppView { sort_mode: m, sessions: stable_sort(a.sessions, session_le(m)), ..a }, false)
    } else if key == Key::Char('r') {
        (emit_spec(a, CommandView::RefreshUsage), false)
    } else if key == Key::Char('x') {
        (clear_ended_spec(a), false)
    } else if key == Key::Delete || key == Key::Backspace {
        (remove_selected_spec(a), false)
    } else {
        (a, false)
    }
}

// ── helpers ─────────────────────────────────────────────────────────────────

/// Whether some request in `ps` belongs to session `s`.
fn has_request(ps: &Vec<PendingPermission>, s: &SessionState) -> (r: bool)
    ensures
        r == has_request_for(ps@, *s),
{
    let mut k: usize = 0;
    while k < ps.len()
        invariant
            k <= ps.len(),
            forall|j: int| 0 <= j < k ==> ps@[j].session_id@ != s.session_id@,
        decreases ps.len() - k,
    {
        if str_eq(ps[k].session_id.as_str(), s.session_id.as_str()) {
            return true;
        }
        k = k + 1;
    }
    false
}

/// Marks every session with a request in `ps` as waiting for approval.
pub fn mark_sessions(sessions: &mut Vec<SessionState>, ps: &Vec<PendingPermission>)
    ensures
        final(sessions)@ == mark_waiting(old(sessions)@, ps@),
{
    let ghost orig = sessions@;
    let mut i: usize = 0;
    while i < sessions.len()
        invariant
            sessions.len() == orig.len(),
            i <= sessions.len(),
            forall|k: int| 0 <= k < i ==> #[trigger] sessions@[k] == mark_waiting(orig, ps@)[k],
            forall|k: int| i <= k < orig.len() ==> #[trigger] sessions@[k] == orig[k],
        decreases sessions.len() - i,
    {
        if has_request(ps, &sessions[i]) {
            sessions[i].status = SessionStatus::WaitingForApproval;
        }
        i = i + 1;
    }
    assert(sessions@ =~= mark_waiting(orig, ps@));
}

fn priority_le(a: &SessionState, b: &SessionState, mode: SortMode) -> (r: bool)
    ensures
        r == session_le(mode)(*a, *b),
{
    let pa = a.status.sort_priority();
    let pb = b.status.sort_priority();
    if pa < pb {
        true
    } else if pa > pb {
        false
    } else {
        match mode {
            SortMode::Recent => a.last_event_at >= b.last_event_at,
            SortMode::Alphabetical => text_le(a.cwd.as_str(), b.cwd.as_str()),
        }
    }
}

/// Sorts sessions stably by status group, then by `mode`.
pub fn sorted_sessions(sessions: Vec<SessionState>, mode: SortMode) -> (r: Vec<SessionState>)
    ensures
        r@ == stable_sort(sessions@, session_le(mode)),
{
    let le = |a: &SessionState, b: &SessionState| -> (r: bool)
        ensures
            r == session_le(mode)(*a, *b),
        { priority_le(a, b, mode) };
    sort_by(sessions, &le, Ghost(session_le(mode)))
}

impl<S, L> App<S, L> {
    /// A dashboard with no sessions yet, showing the cached usage `snapshot`;
    /// `home` is the user's home directory, if known.
    pub fn new(snapshot: S, home: Option<String>) -> (r: App<S, L>)
        ensures
            r@.sessions == Seq::<SessionState>::empty(),
            r@.pending_permissions == Seq::<PendingPermission>::empty(),
            !r@.connected,
            r@.selected_index == 0,
            r@.list_offset == 0,
            r@.snapshot == snapshot,
            r@.limits is None,
            !r@.loading,
            !r@.limits_loading,
            r@.usage_error is None,
            !r@.show_new_session,
            r@.new_session_input == Seq::<char>::empty(),
            !r@.new_session_launched,
            r@.new_session_error is None,
            r@.tick_count == 0,
            r@.allowed_tools == Map::<Seq<char>, Set<Seq<char>>>::empty(),
            r@.session_names == Map::<Seq<char>, Seq<char>>::empty(),
            !r@.show_rename,
            r@.rename_input == Seq::<char>::empty(),
            r@.sort_mode == SortMode::Recent,
            r@.home == ostr(home),
            r@.outbox == Seq::<CommandView>::empty(),
    {
        let r = App {
            sessions: Vec::new(),
            pending_permissions: Vec::new(),
            connected: false,
            selected_index: 0,
            list_offset: 0,
            usage: UsageData {
                snapshot,
                limits: None,
                loading: false,
                limits_loading: false,
                error: None,
            },
            show_new_session: false,
            new_session_input: String::new(),
            new_session_launched: false,
            new_session_error: None,
            tick_count: 0,
            session_allowed_tools: ToolGrants::new(),
            session_names: NameTable::new(),
            show_rename: false,
            rename_input: String::new(),
            sort_mode: SortMode::Recent,
            home,
            outbox: Vec::new(),
        };
        assert(commands_view(r.outbox@) =~= Seq::<CommandView>::empty());
        r
    }

    /// Hands over the actions asked for so far, oldest first.
    pub fn take_commands(&mut self) -> (r: Vec<Command>)
        ensures
            commands_view(r@) == old(self)@.outbox,
            final(self)@ == (AppView { outbox: Seq::empty(), ..old(self)@ }),
    {
        let mut r: Vec<Command> = Vec::new();
        std::mem::swap(&mut r, &mut self.outbox);
        assert(commands_view(self.outbox@) =~= Seq::<CommandView>::empty());
        r
    }

    fn emit(&mut self, c: Command)
        ensures
            final(self)@ == (AppView { outbox: old(self)@.outbox.push(c@), ..old(self)@ }),
    {
        let ghost before = self.outbox@;
        self.outbox.push(c);
        assert(commands_view(self.outbox@) =~= commands_view(before).push(c@));
    }

    /// Asks for a permission request to be answered.
    fn send_decision(&mut self, connection_id: &str, decision: &str)
        ensures
            final(self)@ == (AppView {
                outbox: old(self)@.outbox.push(
                    CommandView::SendDecision { connection_id: connection_id@, decision: decision@ },
                ),
                ..old(self)@
            }),
    {
        self.emit(
            Command::SendDecision { connection_id: owned(connection_id), decision: owned(decision) },
        );
    }

    /// The selection, kept inside the list (0 when it is empty).
    pub fn clamped_index(&self) -> (r: usize)
        ensures
            r == clamp_index(self@.selected_index, self@.sessions.len()),
    {
        if self.sessions.len() == 0 {
            0
        } else if self.selected_index < self.sessions.len() {
            self.selected_index
        } else {
            self.sessions.len() - 1
        }
    }

    /// The selected session, if the list is not empty.
    pub fn selected_session(&self) -> (r: Option<&SessionState>)
        ensures
            r matches Some(s) ==> selected_of(self@.sessions, self@.selected_index) == Some(*s),
            r is None ==> selected_of(self@.sessions, self@.selected_index) is None,
    {
        if self.sessions.len() == 0 {
            None
        } else {
            let i = self.clamped_index();
            Some(&self.sessions[i])
        }
    }

    /// The first pending request of the selected session, if any.
    pub fn selected_pending_permission(&self) -> (r: Option<&PendingPermission>)
        ensures
            r matches Some(p) ==> selected_pending_of(self@) == Some(*p),
            r is None ==> selected_pending_of(self@) is None,
    {
        let s = match self.selected_session() {
            Some(s) => s,
            None => return None,
        };
        let ghost ps = self.pending_permissions@;
        let mut k: usize = 0;
        assert(ps.skip(0) =~= ps);
        while k < self.pending_permissions.len()
            invariant
                selected_of(self@.sessions, self@.selected_index) == Some(*s),
                ps == self.pending_permissions@,
                k <= ps.len(),
                first_pending(ps, s.session_id@) == match first_pending(ps.skip(k as int), s.session_id@) {
                    Some(j) => Some((j + k) as nat),
                    None => None,
                },
            decreases ps.len() - k,
        {
            assert(ps.skip(k as int)[0] == ps[k as int]);
            assert(ps.skip(k as int).drop_first() =~= ps.skip(k + 1));
            if str_eq(self.pending_permissions[k].session_id.as_str(), s.session_id.as_str()) {
                return Some(&self.pending_permissions[k]);
            }
            k = k + 1;
        }
        None
    }

    /// How many sessions are busy or waiting for approval.
    pub fn active_count(&self) -> (r: usize)
        ensures
            r == self@.sessions.filter(is_active_session()).len(),
    {
        let ghost f = is_active_session();
        let ghost ss = self.sessions@;
        let mut n: usize = 0;
        let mut i: usize = 0;
        while i < self.sessions.len()
            invariant
                ss == self.sessions@,
                f == is_active_session(),
                i <= ss.len(),
                n == ss.take(i as int).filter(f).len(),
                n <= i,
            decreases ss.len() - i,
        {
            proof {
                assert(ss.take(i + 1) =~= ss.take(i as int).push(ss[i as int]));
                ss.take(i as int).lemma_filter_push(ss[i as int], f);
            }
            let act = self.sessions[i].status.is_active();
            assert(act == f(ss[i as int]));
            if act {
                n = n + 1;
            }
            assert(n == ss.take(i + 1).filter(f).len());
            i = i + 1;
        }
        assert(ss.take(i as int) =~= ss);
        n
    }

    /// Applies an outside event.
    pub fn handle_event(&mut self, event: AppEvent<S, L>)
        ensures
            final(self)@ == event_spec(old(self)@, event),
    {
        match event {
            AppEvent::DaemonConnected => {
                self.connected = true;
            },
            AppEvent::DaemonDisconnected => {
                self.connected = false;
            },
            AppEvent::DaemonMessage(msg) => {
                self.apply_daemon_message(msg);
            },
            AppEvent::UsageLoading => {
                self.usage.loading = true;
                self.usage.error = None;
            },
            AppEvent::UsageLoaded(snapshot) => {
                self.usage.loading = false;
                self.usage.snapshot = snapshot;
                self.usage.error = None;
                self.emit(Command::SaveUsageCache);
            },
            AppEvent::RateLimitsLoaded(limits) => {
                self.usage.limits = Some(limits);
                self.usage.limits_loading = false;
            },
        }
    }

    fn apply_daemon_message(&mut self, msg: DaemonMessage)
        ensures
            final(self)@ == apply_message_spec(old(self)@, msg),
    {
        let ghost a0 = self@;
        let ghost parts = message_parts(msg);
        let (mut sessions, perms) = match msg {
            DaemonMessage::StateSnapshot { sessions, pending_permissions } => (
                sessions,
                pending_permissions,
            ),
            DaemonMessage::StateDelta { sessions, pending_permissions } => (
                sessions,
                pending_permissions,
            ),
        };
        mark_sessions(&mut sessions, &perms);
        let ghost ps = perms@;
        let ghost fa = auto_pred(a0.allowed_tools);
        let ghost fr = waiting_pred(a0.allowed_tools);
        let mut src = perms;
        let mut auto: Vec<PendingPermission> = Vec::new();
        let mut rest: Vec<PendingPermission> = Vec::new();
        let ghost mut done: int = 0;
        assert(ps.skip(0) =~= ps);
        assert(ps.take(0) =~= Seq::<PendingPermission>::empty());
        while src.len() > 0
            invariant
                0 <= done <= ps.len(),
                src@ == ps.skip(done),
                auto@ == ps.take(done).filter(fa),
                rest@ == ps.take(done).filter(fr),
                fa == auto_pred(a0.allowed_tools),
                fr == waiting_pred(a0.allowed_tools),
                self@ == a0,
            decreases src.len(),
        {
            let p = src.remove(0);
            proof {
                assert(ps[done] == p);
                assert(ps.take(done + 1) =~= ps.take(done).push(p));
                ps.take(done).lemma_filter_push(p, fa);
                ps.take(done).lemma_filter_push(p, fr);
            }
            if self.session_allowed_tools.allows(p.session_id.as_str(), p.tool_name.as_str()) {
                auto.push(p);
            } else {
                rest.push(p);
            }
            proof {
                done = done + 1;
                assert(src@ =~= ps.skip(done));
            }
        }
        assert(ps.take(done) =~= ps);
        let mut k: usize = 0;
        while k < auto.len()
            invariant
                k <= auto.len(),
                self@ == (AppView {
                    outbox: a0.outbox + auto@.take(k as int).map_values(
                        |p: PendingPermission| decision(p, "allow"@),
                    ),
                    ..a0
                }),
            decreases auto.len() - k,
        {
            let ghost ob = self@.outbox;
            self.send_decision(auto[k].connection_id.as_str(), "allow");
            assert(a0.outbox + auto@.take(k + 1).map_values(
                |p: PendingPermission| decision(p, "allow"@),
            ) =~= ob.push(decision(auto@[k as int], "allow"@)));
            k = k + 1;
        }
        assert(auto@.take(k as int) =~= auto@);
        mark_sessions(&mut sessions, &rest);
        let sorted = sorted_sessions(sessions, self.sort_mode);
        self.sessions = sorted;
        self.pending_permissions = rest;
        self.selected_index = self.clamped_index();
    }

    /// Applies a key press; returns whether the dashboard should quit.
    /// `ctrl` tells whether the Control modifier was held.
    pub fn handle_key(&mut self, code: Key, ctrl: bool) -> (quit: bool)
        ensures
            (final(self)@, quit) == key_spec(old(self)@, code, ctrl),
    {
        if self.show_new_session {
            return self.handle_key_new_session(code);
        }
        if self.show_rename {
            return self.handle_key_rename(code);
        }
        match code {
            Key::Char('q') => {
                return true;
            },
            Key::Char('Q') => {
                self.quit_and_kill();
                return true;
            },
            Key::Char('c') if ctrl => {
                return true;
            },
            Key::Up | Key::Char('k') => self.select_prev(),
            Key::Down | Key::Char('j') => self.select_next(),
            Key::Char('a') => {
                let cid = match self.selected_pending_permission() {
                    Some(p) => Some(p.connection_id.clone()),
                    None => None,
                };
                if let Some(cid) = cid {
                    self.send_decision(cid.as_str(), "allow");
                }
            },
            Key::Char('s') => {
                let found = match self.selected_pending_permission() {
                    Some(p) => Some(
                        (p.connection_id.clone(), p.session_id.clone(), p.tool_name.clone()),
                    ),
                    None => None,
                };
                if let Some((cid, sid, tool)) = found {
                    self.session_allowed_tools.grant(sid, tool);
                    self.send_decision(cid.as_str(), "allow");
                }
            },
            Key::Char('d') => {
                let cid = match self.selected_pending_permission() {
                    Some(p) => Some(p.connection_id.clone()),
                    None => None,
                };
                if let Some(cid) = cid {
                    self.send_decision(cid.as_str(), "deny");
                }
            },
            Key::Char('e') => {
                let id = match self.selected_session() {
                    Some(s) => Some(s.session_id.clone()),
                    None => None,
                };
                if let Some(id) = id {
                    let name = match self.session_names.get(id.as_str()) {
                        Some(n) => n.clone(),
                        None => String::new(),
                    };
                    self.rename_input = name;
                    self.show_rename = true;
                }
            },
            Key::Char('n') => {
                self.show_new_session = true;
                self.new_session_input = String::new();
                self.new_session_launched = false;
                self.new_session_error = None;
            },
            Key::Char('o') => {
                self.sort_mode = self.sort_mode.next();
                let mut sessions: Vec<SessionState> = Vec::new();
                std::mem::swap(&mut sessions, &mut self.sessions);
                self.sessions = sorted_sessions(sessions, self.sort_mode);
            },
            Key::Char('r') => {
                self.emit(Command::RefreshUsage);
            },
            Key::Char('x') => {
                self.clear_ended();
            },
            Key::Delete | Key::Backspace => {
                self.remove_selected();
            },
            _ => {},
        }
        false
    }

    fn quit_and_kill(&mut self)
        ensures
            final(self)@ == emit_spec(old(self)@, CommandView::KillDaemon),
    {
        self.emit(Command::KillDaemon);
    }

    fn clear_ended(&mut self)
        ensures
            final(self)@ == clear_ended_spec(old(self)@),
    {
        let ghost a0 = self@;
        let selected_id = match self.selected_session() {
            Some(s) => Some(s.session_id.clone()),
            None => None,
        };
        let mut sessions: Vec<SessionState> = Vec::new();
        std::mem::swap(&mut sessions, &mut self.sessions);
        let keep = |s: &SessionState| -> (r: bool)
            ensures
                r == not_ended()(*s),
            { s.status != SessionStatus::Ended };
        self.sessions = filter_by(sessions, &keep, Ghost(not_ended()));
        if let Some(id) = selected_id {
            match session_position(&self.sessions, id.as_str()) {
                Some(i) => {
                    self.selected_index = i;
                },
                None => {
                    self.selected_index = self.clamped_index();
                },
            }
        }
    }

    fn remove_selected(&mut self)
        ensures
            final(self)@ == remove_selected_spec(old(self)@),
    {
        let id = match self.selected_session() {
            Some(s) => s.session_id.clone(),
            None => return ,
        };
        let mut sessions: Vec<SessionState> = Vec::new();
        std::mem::swap(&mut sessions, &mut self.sessions);
        let keep = |s: &SessionState| -> (r: bool)
            ensures
                r == other_session(id@)(*s),
            { !str_eq(s.session_id.as_str(), id.as_str()) };
        self.sessions = filter_by(sessions, &keep, Ghost(other_session(id@)));
        self.selected_index = self.clamped_index();
    }

    fn handle_key_new_session(&mut self, code: Key) -> (quit: bool)
        requires
            old(self)@.show_new_session,
        ensures
            final(self)@ == new_session_key_spec(old(self)@, code),
            !quit,
    {
        match code {
            Key::Esc => {
                self.show_new_session = false;
            },
            Key::Enter => {
                let dir = expand_home_exec(self.new_session_input.as_str(), &self.home);
                if dir.len() > 0 {
                    self.emit(Command::LaunchSession { dir: string_of(&dir) });
                }
            },
            Key::Backspace => {
                pop_char(&mut self.new_session_input);
            },
            Key::Char(c) => {
                push_char(&mut self.new_session_input, c);
            },
            _ => {},
        }
        false
    }

    fn handle_key_rename(&mut self, code: Key) -> (quit: bool)
        ensures
            final(self)@ == rename_key_spec(old(self)@, code),
            !quit,
    {
        match code {
            Key::Esc => {
                self.show_rename = false;
            },
            Key::Enter => {
                let id = match self.selected_session() {
                    Some(s) => Some(s.session_id.clone()),
                    None => None,
                };
                if let Some(id) = id {
                    let cs = chars_of(self.rename_input.as_str());
                    let (lo, hi) = trim_bounds(&cs, 0, cs.len());
                    assert(cs@.subrange(0, cs@.len() as int) =~= cs@);
                    if lo == hi {
                        self.session_names.remove(id.as_str());
                    } else {
                        let name = string_of_range(&cs, lo, hi);
                        self.session_names.insert(id, name);
                    }
                }
                self.show_rename = false;
            },
            Key::Backspace => {
                pop_char(&mut self.rename_input);
            },
            Key::Char(c) => {
                push_char(&mut self.rename_input, c);
            },
            _ => {},
        }
        false
    }

    /// Reports how the launch asked for by `Command::LaunchSession` went.
    pub fn launch_finished(&mut self, result: Result<(), String>)
        ensures
            final(self)@ == (match result {
                Ok(_) => AppView { new_session_launched: true, ..old(self)@ },
                Err(e) => AppView { new_session_error: Some(e@), ..old(self)@ },
            }),
    {
        match result {
            Ok(_) => {
                self.new_session_launched = true;
            },
            Err(e) => {
                self.new_session_error = Some(e);
            },
        }
    }

    /// One animation tick: counts, and closes the new-session dialog once its
    /// launch went through.
    pub fn tick(&mut self)
        ensures
            final(self)@ == (AppView {
                tick_count: if old(self)@.tick_count == u64::MAX {
                    0
                } else {
                    (old(self)@.tick_count + 1) as u64
                },
                show_new_session: if old(self)@.new_session_launched {
                    false
                } else {
                    old(self)@.show_new_session
                },
                new_session_launched: false,
                ..old(self)@
            }),
    {
        self.tick_count = if self.tick_count == u64::MAX {
            0
        } else {
            self.tick_count + 1
        };
        if self.new_session_launched {
            self.show_new_session = false;
            self.new_session_launched = false;
        }
    }

    /// Selects the previous session (mouse wheel up).
    pub fn select_prev_pub(&mut self)
        ensures
            final(self)@ == select_prev_spec(old(self)@),
    {
        self.select_prev();
    }

    /// Selects the next session (mouse wheel down).
    pub fn select_next_pub(&mut self)
        ensures
            final(self)@ == select_next_spec(old(self)@),
    {
        self.select_next();
    }

    fn select_prev(&mut self)
        ensures
            final(self)@ == select_prev_spec(old(self)@),
    {
        if self.selected_index > 0 {
            self.selected_index = self.selected_index - 1;
            self.scroll_list_to_selected();
        }
    }

    fn select_next(&mut self)
        ensures
            final(self)@ == select_next_spec(old(self)@),
    {
        if self.sessions.len() > 0 && self.selected_index < self.sessions.len() - 1 {
            self.selected_index = self.selected_index + 1;
            self.scroll_list_to_selected();
        }
    }

    fn scroll_list_to_selected(&mut self)
        ensures
            final(self)@ == select_spec(old(self)@, old(self)@.selected_index),
    {
        if self.selected_index < self.list_offset {
            self.list_offset = self.selected_index;
        }
    }
}

/// The process id in the daemon's pid file, as `KillDaemon` signals it:
/// the file's text, trimmed, read as an `i32` by `str::parse` (`None`
/// when it is not one, and then nothing is signalled).
pub fn daemon_pid(text: &str) -> (r: Option<i32>)
    ensures
        r matches Some(p) ==> parse_int(trim(text@), i32::MIN as int, i32::MAX as int) == Some(
            p as int,
        ),
        r is None ==> parse_int(trim(text@), i32::MIN as int, i32::MAX as int) is None,
{
    let t = trimmed(text);
    let cs = chars_of(t.as_str());
    match parse_int_in(&cs, -2147483648, 2147483647) {
        Some(v) => Some(v as i32),
        None => None,
    }
}

/// Index of the first session with id `id`.
pub fn session_position(ss: &Vec<SessionState>, id: &str) -> (r: Option<usize>)
    ensures
        r matches Some(i) ==> session_pos(ss@, id@) == Some(i as nat),
        r is None ==> session_pos(ss@, id@) is None,
{
    let ghost v = ss@;
    let mut i: usize = 0;
    assert(v.skip(0) =~= v);
    while i < ss.len()
        invariant
            v == ss@,
            i <= v.len(),
            session_pos(v, id@) == match session_pos(v.skip(i as int), id@) {
                Some(j) => Some((j + i) as nat),
                None => None,
            },
        decreases v.len() - i,
    {
        assert(v.skip(i as int)[0] == v[i as int]);
        assert(v.skip(i as int).drop_first() =~= v.skip(i + 1));
        if str_eq(ss[i].session_id.as_str(), id) {
            return Some(i);
        }
        i = i + 1;
    }
    assert(v.skip(i as int) =~= Seq::<SessionState>::empty());
    None
}

/// The new session's directory: the input trimmed, with its first `~`
/// replaced by the home directory when that is known.
pub fn expand_home_exec(input: &str, home: &Option<String>) -> (r: Vec<char>)
    ensures
        r@ == expand_home(trim(input@), ostr(*home)),
{
    let cs = chars_of(input);
    let (lo, hi) = trim_bounds(&cs, 0, cs.len());
    assert(cs@.subrange(0, cs@.len() as int) =~= cs@);
    let mut dir: Vec<char> = Vec::new();
    let mut k = lo;
    while k < hi
        invariant
            lo <= k <= hi <= cs.len(),
            dir@ == cs@.subrange(lo as int, k as int),
        decreases hi - k,
    {
        dir.push(cs[k]);
        k = k + 1;
    }
    match home {
        Some(h) => {
            let mut i: usize = 0;
            while i < dir.len() && dir[i] != '~'
                invariant
                    i <= dir.len(),
                    forall|j: int| 0 <= j < i ==> dir@[j] != '~',
                decreases dir.len() - i,
            {
                i = i + 1;
            }
            proof {
                crate::text::lemma_find_char(dir@, '~', i as int);
            }
            if i == dir.len() {
                return dir;
            }
            let hs = chars_of(h.as_str());
            let mut out: Vec<char> = Vec::new();
            let mut j: usize = 0;
            while j < i
                invariant
                    i < dir.len(),
                    j <= i,
                    out@ == dir@.take(j as int),
                decreases i - j,
            {
                out.push(dir[j]);
                assert(dir@.take(j + 1) =~= dir@.take(j as int).push(dir@[j as int]));
                j = j + 1;
            }
            let ghost prefix = out@;
            let mut m: usize = 0;
            while m < hs.len()
                invariant
                    m <= hs.len(),
                    out@ == prefix + hs@.take(m as int),
                decreases hs.len() - m,
            {
                out.push(hs[m]);
                assert(hs@.take(m + 1) =~= hs@.take(m as int).push(hs@[m as int]));
                m = m + 1;
            }
            assert(hs@.take(m as int) =~= hs@);
            let ghost mid = out@;
            let mut t = i + 1;
            while t < dir.len()
                invariant
                    i + 1 <= t <= dir.len(),
                    out@ == mid + dir@.subrange(i + 1, t as int),
                decreases dir.len() - t,
            {
                out.push(dir[t]);
                assert(dir@.subrange(i + 1, t + 1) =~= dir@.subrange(i + 1, t as int).push(
                    dir@[t as int],
                ));
                t = t + 1;
            }
            assert(dir@.subrange(i + 1, dir@.len() as int) =~= dir@.skip(i + 1));
            out
        },
        None => dir,
    }
}


// ── names and recent directories ────────────────────────────────────────────

/// The name shown for session `id`: the name given to it, else its id cut
/// to 8 bytes. `cut` is the model of that cut (the id's first 8 bytes,
/// read back as text).
pub open spec fn display_name_ok(
    names: Map<Seq<char>, Seq<char>>,
    id: Seq<char>,
    shown: Seq<char>,
) -> bool {
    if names.contains_key(id) {
        shown == names[id]
    } else {
        vstd::utf8::encode_utf8(shown) == vstd::utf8::encode_utf8(id).take(
            if vstd::utf8::encode_utf8(id).len() > 8 {
                8
            } else {
                vstd::utf8::encode_utf8(id).len() as int
            },
        )
    }
}

/// Cutting an id to 8 bytes falls between two characters.
pub open spec fn id_cut_ok(id: Seq<char>) -> bool {
    vstd::utf8::encode_utf8(id).len() > 8 ==> vstd::utf8::is_char_boundary(
        vstd::utf8::encode_utf8(id),
        8,
    )
}

/// Newest activity first, on (last activity, position) pairs: `a` may come
/// before `b` when it is at least as recent.
pub open spec fn more_recent() -> spec_fn((i64, usize), (i64, usize)) -> bool {
    |a: (i64, usize), b: (i64, usize)| a.0 >= b.0
}

/// Each session's last activity with its position in the list.
pub open spec fn activity_keys(ss: Seq<SessionState>) -> Seq<(i64, usize)> {
    Seq::new(ss.len(), |i: int| (ss[i].last_event_at, i as usize))
}

/// The distinct texts of `s`, each where it first occurs.
pub open spec fn first_occurrences(s: Seq<Seq<char>>) -> Seq<Seq<char>>
    decreases s.len(),
{
    if s.len() == 0 {
        s
    } else {
        let d = first_occurrences(s.drop_last());
        if d.contains(s.last()) {
            d
        } else {
            d.push(s.last())
        }
    }
}

/// The working directories of the sessions, most recently active first,
/// each once.
pub open spec fn recent_dirs(ss: Seq<SessionState>) -> Seq<Seq<char>> {
    first_occurrences(
        stable_sort(activity_keys(ss), more_recent()).map_values(
            |p: (i64, usize)| ss[p.1 as int].cwd@,
        ),
    )
}

proof fn lemma_first_occurrences(s: Seq<Seq<char>>)
    ensures
        forall|i: int, j: int|
            0 <= i < j < first_occurrences(s).len() ==> #[trigger] first_occurrences(s)[i]
                != #[trigger] first_occurrences(s)[j],
        forall|x: Seq<char>| #[trigger] first_occurrences(s).contains(x) <==> s.contains(x),
    decreases s.len(),
{
    if s.len() > 0 {
        let init = s.drop_last();
        lemma_first_occurrences(init);
        let d = first_occurrences(init);
        assert forall|x: Seq<char>| s.contains(x) <==> init.contains(x) || x == s.last() by {
            if s.contains(x) {
                let k = choose|k: int| 0 <= k < s.len() && s[k] == x;
                if k < s.len() - 1 {
                    assert(init[k] == x);
                }
            }
            if init.contains(x) {
                let k = choose|k: int| 0 <= k < init.len() && init[k] == x;
                assert(s[k] == x);
            }
        }
        if !d.contains(s.last()) {
            let r = d.push(s.last());
            assert forall|x: Seq<char>| #[trigger] r.contains(x) <==> d.contains(x) || x == s.last() by {
                if r.contains(x) {
                    let k = choose|k: int| 0 <= k < r.len() && r[k] == x;
                    if k < d.len() {
                        assert(d[k] == x);
                    }
                }
                if d.contains(x) {
                    let k = choose|k: int| 0 <= k < d.len() && d[k] == x;
                    assert(r[k] == x);
                }
                if x == s.last() {
                    assert(r[d.len() as int] == x);
                }
            }
        }
    }
}

/// The directories offered when a new session is opened are the working
/// directories of the listed sessions, each exactly once.
pub proof fn recent_dirs_are_distinct_and_complete(ss: Seq<SessionState>)
    requires
        ss.len() <= usize::MAX,
    ensures
        forall|i: int, j: int|
            0 <= i < j < recent_dirs(ss).len() ==> #[trigger] recent_dirs(ss)[i]
                != #[trigger] recent_dirs(ss)[j],
        forall|k: int| 0 <= k < ss.len() ==> recent_dirs(ss).contains(#[trigger] ss[k].cwd@),
        forall|x: Seq<char>|
            #[trigger] recent_dirs(ss).contains(x) ==> exists|k: int|
                0 <= k < ss.len() && ss[k].cwd@ == x,
{
    broadcast use vstd::seq_lib::group_to_multiset_ensures;

    let keys = activity_keys(ss);
    let sorted = stable_sort(keys, more_recent());
    let cwds = sorted.map_values(|p: (i64, usize)| ss[p.1 as int].cwd@);
    crate::sort::lemma_sort_permutes(keys, more_recent());
    lemma_first_occurrences(cwds);
    assert forall|k: int| 0 <= k < ss.len() implies recent_dirs(ss).contains(#[trigger] ss[k].cwd@) by {
        assert(keys[k] == (ss[k].last_event_at, k as usize));
        assert((k as usize) as int == k);
        assert(keys.contains(keys[k]));
        assert(sorted.to_multiset().count(keys[k]) > 0);
        assert(sorted.contains(keys[k]));
        let t = choose|t: int| 0 <= t < sorted.len() && sorted[t] == keys[k];
        assert(cwds[t] == ss[k].cwd@);
        assert(cwds.contains(ss[k].cwd@));
    }
    assert forall|x: Seq<char>| #[trigger] recent_dirs(ss).contains(x) implies exists|k: int|
        0 <= k < ss.len() && ss[k].cwd@ == x by {
        assert(cwds.contains(x));
        let t = choose|t: int| 0 <= t < cwds.len() && cwds[t] == x;
        assert(sorted.contains(sorted[t]));
        assert(keys.to_multiset().count(sorted[t]) > 0);
        assert(keys.contains(sorted[t]));
        let k = choose|k: int| 0 <= k < keys.len() && keys[k] == sorted[t];
        assert((k as usize) as int == k);
        assert(sorted[t].1 as int == k);
        assert(ss[k].cwd@ == x);
    }
}

/// The name a session is shown under: the name given to it, else its id
/// cut to 8 bytes.
pub fn display_name_of(names: &NameTable, session_id: &str) -> (r: String)
    requires
        !names@.contains_key(session_id@) ==> id_cut_ok(session_id@),
    ensures
        display_name_ok(names@, session_id@, r@),
{
    match names.get(session_id) {
        Some(n) => n.clone(),
        None => crate::text::byte_prefix(session_id, 8),
    }
}

/// Each count with its position in the list.
pub open spec fn count_keys(counts: Seq<i64>) -> Seq<(i64, usize)> {
    Seq::new(counts.len(), |i: int| (counts[i], i as usize))
}

/// The positions of `counts`, largest count first, equal counts in their
/// order: how the usage view orders the model breakdown by total tokens
/// (a stable sort, descending).
pub open spec fn largest_first(counts: Seq<i64>) -> Seq<usize> {
    stable_sort(count_keys(counts), more_recent()).map_values(|k: (i64, usize)| k.1)
}

/// The order in which the model breakdown lists its models, given their
/// total tokens: positions into `counts`, largest first, ties in order.
pub fn order_by_tokens(counts: &Vec<i64>) -> (r: Vec<usize>)
    ensures
        r@ == largest_first(counts@),
        forall|t: int| 0 <= t < r.len() ==> #[trigger] r@[t] < counts.len(),
{
    let mut keys: Vec<(i64, usize)> = Vec::new();
    let mut i: usize = 0;
    while i < counts.len()
        invariant
            i <= counts.len(),
            keys@ == count_keys(counts@).take(i as int),
        decreases counts.len() - i,
    {
        keys.push((counts[i], i));
        assert(keys@ =~= count_keys(counts@).take(i + 1));
        i = i + 1;
    }
    assert(count_keys(counts@).take(i as int) =~= count_keys(counts@));
    let larger_first = |a: &(i64, usize), b: &(i64, usize)| -> (r: bool)
        ensures
            r == more_recent()(*a, *b),
        { a.0 >= b.0 };
    let sorted = sort_by(keys, &larger_first, Ghost(more_recent()));
    proof {
        crate::sort::lemma_sort_permutes(count_keys(counts@), more_recent());
        assert forall|t: int| 0 <= t < sorted.len() implies (#[trigger] sorted@[t]).1
            < counts.len() by {
            broadcast use vstd::seq_lib::group_to_multiset_ensures;

            let x = sorted@[t];
            assert(sorted@.contains(x));
            assert(sorted@.to_multiset().count(x) > 0);
            assert(count_keys(counts@).to_multiset().count(x) > 0);
            assert(count_keys(counts@).contains(x));
        }
    }
    let mut r: Vec<usize> = Vec::new();
    let mut k: usize = 0;
    while k < sorted.len()
        invariant
            k <= sorted.len(),
            forall|t: int| 0 <= t < sorted.len() ==> (#[trigger] sorted@[t]).1 < counts.len(),
            r@ == sorted@.take(k as int).map_values(|p: (i64, usize)| p.1),
        decreases sorted.len() - k,
    {
        r.push(sorted[k].1);
        assert(r@ =~= sorted@.take(k + 1).map_values(|p: (i64, usize)| p.1));
        k = k + 1;
    }
    assert(sorted@.take(k as int) =~= sorted@);
    r
}

/// The working directories of the sessions, newest activity first,
/// without repeats: the choices offered when a new session is opened.
pub fn recent_cwds_of(sessions: &Vec<SessionState>) -> (r: Vec<String>)
    ensures
        r@.map_values(|s: String| s@) == recent_dirs(sessions@),
{
    let mut keys: Vec<(i64, usize)> = Vec::new();
    let mut i: usize = 0;
    while i < sessions.len()
        invariant
            i <= sessions.len(),
            keys@ == activity_keys(sessions@).take(i as int),
        decreases sessions.len() - i,
    {
        keys.push((sessions[i].last_event_at, i));
        assert(keys@ =~= activity_keys(sessions@).take(i + 1));
        i = i + 1;
    }
    assert(activity_keys(sessions@).take(i as int) =~= activity_keys(sessions@));
    let newest_first = |a: &(i64, usize), b: &(i64, usize)| -> (r: bool)
        ensures
            r == more_recent()(*a, *b),
        { a.0 >= b.0 };
    let sorted = sort_by(keys, &newest_first, Ghost(more_recent()));
    proof {
        crate::sort::lemma_sort_permutes(activity_keys(sessions@), more_recent());
        assert forall|t: int| 0 <= t < sorted.len() implies (#[trigger] sorted@[t]).1
            < sessions.len() by {
            broadcast use vstd::seq_lib::group_to_multiset_ensures;

            let x = sorted@[t];
            assert(sorted@.contains(x));
            assert(sorted@.to_multiset().count(x) > 0);
            assert(activity_keys(sessions@).to_multiset().count(x) > 0);
            assert(activity_keys(sessions@).contains(x));
        }
    }
    let ghost cwds = sorted@.map_values(|p: (i64, usize)| sessions@[p.1 as int].cwd@);
    let mut r: Vec<String> = Vec::new();
    let mut k: usize = 0;
    while k < sorted.len()
        invariant
            cwds == sorted@.map_values(|p: (i64, usize)| sessions@[p.1 as int].cwd@),
            forall|t: int| 0 <= t < sorted.len() ==> (#[trigger] sorted@[t]).1 < sessions.len(),
            k <= sorted.len(),
            r@.map_values(|s: String| s@) == first_occurrences(cwds.take(k as int)),
        decreases sorted.len() - k,
    {
        let ghost before = r@.map_values(|s: String| s@);
        assert(cwds.take(k + 1).drop_last() =~= cwds.take(k as int));
        let idx = sorted[k].1;
        let mut seen = false;
        let mut j: usize = 0;
        while j < r.len()
            invariant
                j <= r.len(),
                before == r@.map_values(|s: String| s@),
                k < sorted.len(),
                idx == sorted@[k as int].1,
                idx < sessions.len(),
                seen ==> before.contains(sessions@[idx as int].cwd@),
                !seen ==> forall|t: int| 0 <= t < j ==> before[t] != sessions@[idx as int].cwd@,
            decreases r.len() - j,
        {
            if str_eq(r[j].as_str(), sessions[idx].cwd.as_str()) {
                assert(before[j as int] == r@[j as int]@);
                seen = true;
            }
            j = j + 1;
        }
        if !seen {
            r.push(sessions[idx].cwd.clone());
            assert(r@.map_values(|s: String| s@) =~= before.push(sessions@[idx as int].cwd@));
        }
        assert(cwds.take(k + 1).last() == sessions@[idx as int].cwd@);
        k = k + 1;
    }
    assert(cwds.take(k as int) =~= cwds);
    r
}

impl<S, L> App<S, L> {
    /// The name a session is shown under.
    pub fn session_display_name(&self, session_id: &str) -> (r: String)
        requires
            !self@.session_names.contains_key(session_id@) ==> id_cut_ok(session_id@),
        ensures
            display_name_ok(self@.session_names, session_id@, r@),
    {
        display_name_of(&self.session_names, session_id)
    }

    /// The working directories of the sessions, newest activity first,
    /// without repeats.
    pub fn recent_cwds(&self) -> (r: Vec<String>)
        ensures
            r@.map_values(|s: String| s@) == recent_dirs(self@.sessions),
    {
        recent_cwds_of(&self.sessions)
    }
}

// ── laws ────────────────────────────────────────────────────────────────────

/// The list order is a total preorder in either sort mode.
pub proof fn lemma_session_le_preorder(mode: SortMode)
    ensures
        crate::sort::total_preorder(session_le(mode)),
{
    let le = session_le(mode);
    assert forall|a: SessionState, b: SessionState| #[trigger] le(a, b) || #[trigger] le(b, a) by {
        crate::text::lemma_lex_total(a.cwd@, b.cwd@);
    }
    assert forall|a: SessionState, b: SessionState, c: SessionState|
        #[trigger] le(a, b) && #[trigger] le(b, c) implies le(a, c) by {
        if mode == SortMode::Alphabetical && lex_le(a.cwd@, b.cwd@) && lex_le(b.cwd@, c.cwd@) {
            crate::text::lemma_lex_trans(a.cwd@, b.cwd@, c.cwd@);
        }
    }
}

/// The selection points at a session whenever the list has one, and is
/// zero when it has none.
pub open spec fn selection_ok<S, L>(a: AppView<S, L>) -> bool {
    (a.sessions.len() == 0 && a.selected_index == 0) || a.selected_index < a.sessions.len()
}

proof fn lemma_session_pos(ss: Seq<SessionState>, id: Seq<char>)
    ensures
        session_pos(ss, id) matches Some(i) ==> i < ss.len(),
    decreases ss.len(),
{
    if ss.len() > 0 {
        lemma_session_pos(ss.drop_first(), id);
    }
}

/// Marking again with a subset of the requests changes nothing.
proof fn lemma_mark_twice(ss: Seq<SessionState>, ps: Seq<PendingPermission>, rest: Seq<PendingPermission>)
    requires
        forall|k: int| 0 <= k < rest.len() ==> ps.contains(#[trigger] rest[k]),
    ensures
        mark_waiting(mark_waiting(ss, ps), rest) == mark_waiting(ss, ps),
{
    let m = mark_waiting(ss, ps);
    assert forall|i: int| 0 <= i < ss.len() implies #[trigger] mark_waiting(m, rest)[i] == m[i] by {
        if has_request_for(rest, m[i]) {
            let k = choose|k: int| 0 <= k < rest.len() && #[trigger] rest[k].session_id@ == m[i].session_id@;
            assert(ps.contains(rest[k]));
            let j = choose|j: int| 0 <= j < ps.len() && ps[j] == rest[k];
            assert(ps[j].session_id@ == ss[i].session_id@);
            assert(has_request_for(ps, ss[i]));
        }
    }
    assert(mark_waiting(m, rest) =~= m);
}

/// What a message from the daemon leaves behind: the sessions it lists,
/// each marked as waiting for approval when a request of its own came
/// with it, in the list order of the sort mode (status group first);
/// every request for a tool already approved for its session is answered
/// `allow` at once and does not wait; every other request waits, in the
/// order it came; the selection stays inside the list.
pub proof fn daemon_message_law<S, L>(a: AppView<S, L>, msg: DaemonMessage)
    requires
        selection_ok(a),
    ensures
        ({
            let b = apply_message_spec(a, msg);
            let (ss, ps) = message_parts(msg);
            &&& crate::sort::sorted_by(b.sessions, session_le(a.sort_mode))
            &&& b.sessions.to_multiset() == mark_waiting(ss, ps).to_multiset()
            &&& forall|k: int|
                0 <= k < b.pending_permissions.len() ==> !auto_allowed(
                    a.allowed_tools,
                    #[trigger] b.pending_permissions[k],
                ) && ps.contains(b.pending_permissions[k])
            &&& forall|k: int|
                0 <= k < ps.len() && !auto_allowed(a.allowed_tools, #[trigger] ps[k])
                    ==> b.pending_permissions.contains(ps[k])
            &&& forall|k: int|
                0 <= k < ps.len() && auto_allowed(a.allowed_tools, #[trigger] ps[k])
                    ==> b.outbox.contains(decision(ps[k], "allow"@))
            &&& b.outbox.take(a.outbox.len() as int) == a.outbox
            &&& selection_ok(b)
        }),
{
    let (ss, ps) = message_parts(msg);
    let auto = ps.filter(auto_pred(a.allowed_tools));
    let rest = ps.filter(waiting_pred(a.allowed_tools));
    let marked = mark_waiting(ss, ps);
    let b = apply_message_spec(a, msg);
    assert forall|k: int| 0 <= k < rest.len() implies ps.contains(#[trigger] rest[k]) by {
        assert(rest.contains(rest[k]));
        ps.lemma_filter_contains_rev(waiting_pred(a.allowed_tools), rest[k]);
    }
    lemma_mark_twice(ss, ps, rest);
    lemma_session_le_preorder(a.sort_mode);
    crate::sort::lemma_sort_sorted(marked, session_le(a.sort_mode));
    crate::sort::lemma_sort_permutes(marked, session_le(a.sort_mode));
    assert forall|k: int| 0 <= k < b.pending_permissions.len() implies !auto_allowed(
        a.allowed_tools,
        #[trigger] b.pending_permissions[k],
    ) && ps.contains(b.pending_permissions[k]) by {
        ps.lemma_filter_pred(waiting_pred(a.allowed_tools), k);
        assert(rest.contains(rest[k]));
        ps.lemma_filter_contains_rev(waiting_pred(a.allowed_tools), rest[k]);
    }
    assert forall|k: int| 0 <= k < ps.len() && !auto_allowed(a.allowed_tools, #[trigger] ps[k])
        implies b.pending_permissions.contains(ps[k]) by {
        ps.lemma_filter_contains(waiting_pred(a.allowed_tools), k);
    }
    let answers = auto.map_values(|p: PendingPermission| decision(p, "allow"@));
    assert forall|k: int| 0 <= k < ps.len() && auto_allowed(a.allowed_tools, #[trigger] ps[k])
        implies b.outbox.contains(decision(ps[k], "allow"@)) by {
        ps.lemma_filter_contains(auto_pred(a.allowed_tools), k);
        let j = choose|j: int| 0 <= j < auto.len() && auto[j] == ps[k];
        assert(answers[j] == decision(ps[k], "allow"@));
        assert(b.outbox[a.outbox.len() + j] == answers[j]);
    }
    assert(b.outbox.take(a.outbox.len() as int) =~= a.outbox);
}

/// A session list sorted in the mode's order and regrouped by a key that
/// switches the mode stays a reordering of the same sessions.
proof fn lemma_resort_keeps_len(ss: Seq<SessionState>, m: SortMode)
    ensures
        stable_sort(ss, session_le(m)).len() == ss.len(),
{
    crate::sort::lemma_sort_permutes(ss, session_le(m));
}

/// No two sessions of the list share an id.
pub open spec fn distinct_ids(ss: Seq<SessionState>) -> bool {
    forall|i: int, j: int|
        0 <= i < j < ss.len() ==> #[trigger] ss[i].session_id@ != #[trigger] ss[j].session_id@
}

/// Looking up a listed session's id finds an index holding that id.
proof fn lemma_session_pos_found(ss: Seq<SessionState>, k: int)
    requires
        0 <= k < ss.len(),
    ensures
        session_pos(ss, ss[k].session_id@) matches Some(q) && q < ss.len() && ss[q as int].session_id@
            == ss[k].session_id@,
    decreases ss.len(),
{
    if ss[0].session_id@ != ss[k].session_id@ {
        assert(ss.drop_first()[k - 1] == ss[k]);
        lemma_session_pos_found(ss.drop_first(), k - 1);
    }
}

/// `x` drops exactly the ended sessions and keeps the others in their
/// order; when no two sessions share an id, a selected session that has
/// not ended stays selected.
pub proof fn clearing_ended_keeps_selection<S, L>(a: AppView<S, L>)
    requires
        !a.show_new_session,
        !a.show_rename,
        a.sessions.len() <= usize::MAX,
        distinct_ids(a.sessions),
    ensures
        ({
            let (b, quit) = key_spec(a, Key::Char('x'), false);
            &&& !quit
            &&& b.sessions == a.sessions.filter(not_ended())
            &&& forall|k: int|
                0 <= k < b.sessions.len() ==> (#[trigger] b.sessions[k]).status
                    != SessionStatus::Ended
            &&& (selected_of(a.sessions, a.selected_index) matches Some(s) ==> (s.status
                != SessionStatus::Ended ==> selected_of(b.sessions, b.selected_index) == Some(s)))
        }),
{
    broadcast use vstd::seq_lib::group_filter_ensures;

    let b = key_spec(a, Key::Char('x'), false).0;
    assert(b == clear_ended_spec(a));
    let kept = a.sessions.filter(not_ended());
    assert forall|k: int| 0 <= k < b.sessions.len() implies (#[trigger] b.sessions[k]).status
        != SessionStatus::Ended by {
        assert(not_ended()(kept[k]));
    }
    match selected_of(a.sessions, a.selected_index) {
        Some(s) => {
            if s.status != SessionStatus::Ended {
                let c = clamp_index(a.selected_index, a.sessions.len()) as int;
                assert(a.sessions[c] == s);
                assert(kept.contains(s)) by {
                    a.sessions.lemma_filter_contains(not_ended(), c);
                }
                let k = choose|k: int| 0 <= k < kept.len() && kept[k] == s;
                lemma_session_pos_found(kept, k);
                let q = session_pos(kept, s.session_id@)->0 as int;
                assert(a.sessions.contains(kept[q])) by {
                    assert(kept.contains(kept[q]));
                    a.sessions.lemma_filter_contains_rev(not_ended(), kept[q]);
                }
                let j = choose|j: int| 0 <= j < a.sessions.len() && a.sessions[j] == kept[q];
                if j != c {
                    if j < c {
                        assert(a.sessions[j].session_id@ != a.sessions[c].session_id@);
                    } else {
                        assert(a.sessions[c].session_id@ != a.sessions[j].session_id@);
                    }
                }
                assert(kept[q] == s);
                assert(kept.len() <= a.sessions.len());
                assert(b.selected_index == q as usize);
            }
        },
        None => {},
    }
}

/// Enter in the rename dialog closes it and renames the selected
/// session: the trimmed input becomes its name, or, when that is empty,
/// its name is removed so that it shows by its id again; no other
/// session's name changes, and the list and selection stay as they were.
pub proof fn rename_names_selected_session<S, L>(a: AppView<S, L>)
    requires
        a.show_rename,
        !a.show_new_session,
    ensures
        ({
            let (b, quit) = key_spec(a, Key::Enter, false);
            &&& !quit
            &&& !b.show_rename
            &&& b.sessions == a.sessions
            &&& b.selected_index == a.selected_index
            &&& (selected_of(a.sessions, a.selected_index) matches Some(s) ==> ({
                let id = s.session_id@;
                let name = trim(a.rename_input);
                &&& (name.len() == 0 ==> !b.session_names.contains_key(id))
                &&& (name.len() > 0 ==> b.session_names.contains_key(id) && b.session_names[id]
                    == name)
                &&& forall|k: Seq<char>|
                    k != id ==> (#[trigger] b.session_names.contains_key(k)
                        == a.session_names.contains_key(k) && (a.session_names.contains_key(k)
                        ==> b.session_names[k] == a.session_names[k]))
            }))
            &&& (selected_of(a.sessions, a.selected_index) is None ==> b.session_names
                == a.session_names)
        }),
{
}

/// Allowing a waiting request's tool for its session (`s`) answers that
/// request `allow`, and every request of that session for that tool in
/// the next message from the daemon is answered `allow` at once instead
/// of waiting.
pub proof fn session_grant_auto_allows<S, L>(a: AppView<S, L>, msg: DaemonMessage)
    requires
        !a.show_new_session,
        !a.show_rename,
        selected_pending_of(a) is Some,
    ensures
        ({
            let p = selected_pending_of(a)->0;
            let b = key_spec(a, Key::Char('s'), false).0;
            let c = event_spec(b, AppEvent::<S, L>::DaemonMessage(msg));
            let ps = message_parts(msg).1;
            &&& b.outbox == a.outbox.push(decision(p, "allow"@))
            &&& b.allowed_tools.contains_key(p.session_id@)
            &&& b.allowed_tools[p.session_id@].contains(p.tool_name@)
            &&& forall|k: int|
                0 <= k < ps.len() && (#[trigger] ps[k]).session_id@ == p.session_id@
                    && ps[k].tool_name@ == p.tool_name@ ==> !c.pending_permissions.contains(ps[k])
                    && c.outbox.contains(decision(ps[k], "allow"@))
        }),
{
    broadcast use vstd::seq_lib::group_filter_ensures;

    let p = selected_pending_of(a)->0;
    let b = key_spec(a, Key::Char('s'), false).0;
    let c = apply_message_spec(b, msg);
    let ps = message_parts(msg).1;
    let auto = ps.filter(auto_pred(b.allowed_tools));
    let rest = ps.filter(waiting_pred(b.allowed_tools));
    assert forall|k: int|
        0 <= k < ps.len() && (#[trigger] ps[k]).session_id@ == p.session_id@ && ps[k].tool_name@
            == p.tool_name@ implies !c.pending_permissions.contains(ps[k]) && c.outbox.contains(
        decision(ps[k], "allow"@),
    ) by {
        assert(auto_allowed(b.allowed_tools, ps[k]));
        if rest.contains(ps[k]) {
            let j = choose|j: int| 0 <= j < rest.len() && rest[j] == ps[k];
            assert(waiting_pred(b.allowed_tools)(rest[j]));
        }
        ps.lemma_filter_contains(auto_pred(b.allowed_tools), k);
        let j = choose|j: int| 0 <= j < auto.len() && auto[j] == ps[k];
        let sent = auto.map_values(|q: PendingPermission| decision(q, "allow"@));
        assert(c.outbox[b.outbox.len() + j] == sent[j]);
    }
}

/// The session list holds the sessions it was given, ordered by status
/// group (waiting for approval, then active, idle, ended), and within a
/// group by the sort mode: newest activity first for `Recent`, working
/// directory in text order for `Alphabetical`.
pub proof fn session_list_order(ss: Seq<SessionState>, mode: SortMode)
    ensures
        ({
            let r = stable_sort(ss, session_le(mode));
            &&& r.to_multiset() == ss.to_multiset()
            &&& r.len() == ss.len()
            &&& forall|i: int, j: int|
                0 <= i < j < r.len() ==> {
                    let pi = spec_sort_priority((#[trigger] r[i]).status);
                    let pj = spec_sort_priority((#[trigger] r[j]).status);
                    ||| pi < pj
                    ||| pi == pj && mode == SortMode::Recent && r[i].last_event_at
                        >= r[j].last_event_at
                    ||| pi == pj && mode == SortMode::Alphabetical && lex_le(r[i].cwd@, r[j].cwd@)
                }
        }),
{
    lemma_session_le_preorder(mode);
    crate::sort::lemma_sort_sorted(ss, session_le(mode));
    crate::sort::lemma_sort_permutes(ss, session_le(mode));
    let r = stable_sort(ss, session_le(mode));
    assert forall|i: int, j: int| 0 <= i < j < r.len() implies {
        let pi = spec_sort_priority((#[trigger] r[i]).status);
        let pj = spec_sort_priority((#[trigger] r[j]).status);
        ||| pi < pj
        ||| pi == pj && mode == SortMode::Recent && r[i].last_event_at >= r[j].last_event_at
        ||| pi == pj && mode == SortMode::Alphabetical && lex_le(r[i].cwd@, r[j].cwd@)
    } by {
        assert(session_le(mode)(r[i], r[j]));
    }
}

/// `a` answers the selected request `allow` and approves nothing beyond
/// it: the tools approved for sessions stay as they were, so a later
/// request of the same session for the same tool, not approved before,
/// still waits for an answer when the daemon reports it.
pub proof fn allow_once_grants_nothing<S, L>(a: AppView<S, L>, msg: DaemonMessage)
    requires
        !a.show_new_session,
        !a.show_rename,
        selected_pending_of(a) is Some,
    ensures
        ({
            let p = selected_pending_of(a)->0;
            let (b, quit) = key_spec(a, Key::Char('a'), false);
            let c = event_spec(b, AppEvent::<S, L>::DaemonMessage(msg));
            let ps = message_parts(msg).1;
            &&& !quit
            &&& b.outbox == a.outbox.push(decision(p, "allow"@))
            &&& b.allowed_tools == a.allowed_tools
            &&& b.pending_permissions == a.pending_permissions
            &&& forall|k: int|
                0 <= k < ps.len() && (#[trigger] ps[k]).session_id@ == p.session_id@
                    && ps[k].tool_name@ == p.tool_name@ && !(a.allowed_tools.contains_key(
                    p.session_id@,
                ) && a.allowed_tools[p.session_id@].contains(p.tool_name@))
                    ==> c.pending_permissions.contains(ps[k])
        }),
{
    broadcast use vstd::seq_lib::group_filter_ensures;

    let p = selected_pending_of(a)->0;
    let b = key_spec(a, Key::Char('a'), false).0;
    let ps = message_parts(msg).1;
    assert forall|k: int|
        0 <= k < ps.len() && (#[trigger] ps[k]).session_id@ == p.session_id@ && ps[k].tool_name@
            == p.tool_name@ && !(a.allowed_tools.contains_key(p.session_id@)
            && a.allowed_tools[p.session_id@].contains(p.tool_name@)) implies apply_message_spec(
        b,
        msg,
    ).pending_permissions.contains(ps[k]) by {
        assert(waiting_pred(b.allowed_tools)(ps[k]));
        ps.lemma_filter_contains(waiting_pred(b.allowed_tools), k);
    }
}

/// A tool allowed for a session stays allowed: no key and no outside
/// event takes an approval back, so the request of every later message is
/// answered at once (`daemon_message_law`).
pub proof fn grants_are_kept<S, L>(
    a: AppView<S, L>,
    key: Key,
    ctrl: bool,
    e: AppEvent<S, L>,
    session: Seq<char>,
    tool: Seq<char>,
)
    requires
        a.allowed_tools.contains_key(session),
        a.allowed_tools[session].contains(tool),
    ensures
        key_spec(a, key, ctrl).0.allowed_tools.contains_key(session),
        key_spec(a, key, ctrl).0.allowed_tools[session].contains(tool),
        event_spec(a, e).allowed_tools.contains_key(session),
        event_spec(a, e).allowed_tools[session].contains(tool),
{
}

/// Whatever key is pressed, and whatever happens outside, the selection
/// keeps pointing at a session of the list when there is one.
pub proof fn selection_stays_in_list<S, L>(a: AppView<S, L>, key: Key, ctrl: bool, e: AppEvent<S, L>)
    requires
        selection_ok(a),
    ensures
        selection_ok(key_spec(a, key, ctrl).0),
        selection_ok(event_spec(a, e)),
{
    lemma_resort_keeps_len(a.sessions, spec_next_mode(a.sort_mode));
    let kept = a.sessions.filter(not_ended());
    match selected_of(a.sessions, a.selected_index) {
        Some(s) => lemma_session_pos(kept, s.session_id@),
        None => {},
    }
    if let AppEvent::DaemonMessage(msg) = e {
        daemon_message_law(a, msg);
    }
}

} // verus!
