//! The dashboard with a detail pane: besides the session list it follows
//! the selected session's transcript, scrolls through it, and sends typed
//! input to the session. Its list is ordered by status group alone.
use vstd::prelude::*;
use crate::dashboard::{
    auto_pred, clamp_index, decision, drop_last_char, expand_home, expand_home_exec,
    first_pending, granted, mark_sessions, mark_waiting, message_parts, selected_of, waiting_pred,
    Command, CommandView, Key, commands_view, is_active_session,
};
use crate::sort::{sort_by, stable_sort};
use crate::status::{spec_sort_priority, SessionStatus};
use crate::tables::{NameTable, ToolGrants};
use crate::text::{
    chars_of, owned, pop_char, push_char, string_of, string_of_range, str_eq, trim, trim_bounds,
};
use crate::transcript::{messages_view, TranscriptMessage, TranscriptMessageView};
use crate::types::{ostr, DaemonMessage, PendingPermission, SessionState};

verus! {

/// Something that happened outside the dashboard.
pub enum AppEvent<S, L> {
    DaemonConnected,
    DaemonDisconnected,
    DaemonMessage(DaemonMessage),
    UsageLoading,
    UsageLoaded(S),
    RateLimitsLoaded(L),
    TranscriptLoaded(Vec<TranscriptMessage>),
}

/// Usage figures: `S` is one fetch of the usage report, `L` the rate limits.
pub struct UsageData<S, L> {
    pub snapshot: S,
    pub limits: Option<L>,
    pub loading: bool,
    pub limits_loading: bool,
    pub error: Option<String>,
}

/// The state of the dashboard with a detail pane.
pub struct App<S, L> {
    pub sessions: Vec<SessionState>,
    pub pending_permissions: Vec<PendingPermission>,
    pub connected: bool,
    pub selected_index: usize,
    pub list_offset: usize,
    pub detail_scroll: usize,
    pub usage: UsageData<S, L>,
    pub transcript: Vec<TranscriptMessage>,
    pub show_new_session: bool,
    pub new_session_input: String,
    pub new_session_launched: bool,
    pub new_session_error: Option<String>,
    pub show_input: bool,
    pub input_text: String,
    pub tick_count: u64,
    pub session_allowed_tools: ToolGrants,
    pub session_names: NameTable,
    pub show_rename: bool,
    pub rename_input: String,
    home: Option<String>,
    outbox: Vec<Command>,
    last_transcript_session: Option<String>,
}

pub struct AppView<S, L> {
    pub sessions: Seq<SessionState>,
    pub pending_permissions: Seq<PendingPermission>,
    pub connected: bool,
    pub selected_index: usize,
    pub list_offset: usize,
    pub detail_scroll: usize,
    pub snapshot: S,
    pub limits: Option<L>,
    pub loading: bool,
    pub limits_loading: bool,
    pub usage_error: Option<Seq<char>>,
    pub transcript: Seq<TranscriptMessageView>,
    pub show_new_session: bool,
    pub new_session_input: Seq<char>,
    pub new_session_launched: bool,
    pub new_session_error: Option<Seq<char>>,
    pub show_input: bool,
    pub input_text: Seq<char>,
    pub tick_count: u64,
    pub allowed_tools: Map<Seq<char>, Set<Seq<char>>>,
    pub session_names: Map<Seq<char>, Seq<char>>,
    pub show_rename: bool,
    pub rename_input: Seq<char>,
    pub home: Option<Seq<char>>,
    pub outbox: Seq<CommandView>,
    pub last_transcript_session: Option<Seq<char>>,
}

impl<S, L> View for App<S, L> {
    type V = AppView<S, L>;

    closed spec fn view(&self) -> AppView<S, L> {
        AppView {
            sessions: self.sessions@,
            pending_permissions: self.pending_permissions@,
            connected: self.connected,
            selected_index: self.selected_index,
            list_offset: self.list_offset,
            detail_scroll: self.detail_scroll,
            snapshot: self.usage.snapshot,
            limits: self.usage.limits,
            loading: self.usage.loading,
            limits_loading: self.usage.limits_loading,
            usage_error: ostr(self.usage.error),
            transcript: messages_view(self.transcript@),
            show_new_session: self.show_new_session,
            new_session_input: self.new_session_input@,
            new_session_launched: self.new_session_launched,
            new_session_error: ostr(self.new_session_error),
            show_input: self.show_input,
            input_text: self.input_text@,
            tick_count: self.tick_count,
            allowed_tools: self.session_allowed_tools@,
            session_names: self.session_names@,
            show_rename: self.show_rename,
            rename_input: self.rename_input@,
            home: ostr(self.home),
            outbox: commands_view(self.outbox@),
            last_transcript_session: ostr(self.last_transcript_session),
        }
    }
}

// ── the model ───────────────────────────────────────────────────────────────

/// The list order of this dashboard: by status group only, ties kept in
/// the order the daemon sent them.
pub open spec fn group_le() -> spec_fn(SessionState, SessionState) -> bool {
    |a: SessionState, b: SessionState| spec_sort_priority(a.status) <= spec_sort_priority(b.status)
}

pub open spec fn selected_pending<S, L>(a: AppView<S, L>) -> Option<PendingPermission> {
    match selected_of(a.sessions, a.selected_index) {
        Some(s) => match first_pending(a.pending_permissions, s.session_id@) {
            Some(i) => Some(a.pending_permissions[i as int]),
            None => None,
        },
        None => None,
    }
}

pub open spec fn emit_spec<S, L>(a: AppView<S, L>, c: CommandView) -> AppView<S, L> {
    AppView { outbox: a.outbox.push(c), ..a }
}

/// When the selected session changed, the transcript shown is dropped,
/// the pane scrolls back, and the new session's transcript is followed.
pub open spec fn sync_spec<S, L>(a: AppView<S, L>) -> AppView<S, L> {
    let sel = selected_of(a.sessions, a.selected_index);
    let id = match sel {
        Some(s) => Some(s.session_id@),
        None => None,
    };
    let path = match sel {
        Some(s) => Some(s.transcript_path@),
        None => None,
    };
    if id != a.last_transcript_session {
        AppView {
            last_transcript_session: id,
            transcript: Seq::empty(),
            detail_scroll: 0,
            outbox: a.outbox.push(CommandView::WatchTranscript(path)),
            ..a
        }
    } else {
        a
    }
}

/// What a daemon message does: the sessions it lists replace the list,
/// marked and grouped; requests for approved tools are answered at once;
/// the others wait; the transcript follows the selection.
pub open spec fn apply_message_spec<S, L>(a: AppView<S, L>, msg: DaemonMessage) -> AppView<S, L> {
    let (ss, ps) = message_parts(msg);
    let marked = mark_waiting(ss, ps);
    let auto = ps.filter(auto_pred(a.allowed_tools));
    let rest = ps.filter(waiting_pred(a.allowed_tools));
    let sorted = stable_sort(mark_waiting(marked, rest), group_le());
    sync_spec(
        AppView {
            sessions: sorted,
            pending_permissions: rest,
            selected_index: clamp_index(a.selected_index, sorted.len()),
            outbox: a.outbox + auto.map_values(|p: PendingPermission| decision(p, "allow"@)),
            ..a
        },
    )
}

/// What an outside event does.
pub open spec fn event_spec<S, L>(a: AppView<S, L>, e: AppEvent<S, L>) -> AppView<S, L> {
    match e {
        AppEvent::DaemonConnected => AppView { connected: true, ..a },
        AppEvent::DaemonDisconnected => AppView { connected: false, ..a },
        AppEvent::DaemonMessage(msg) => apply_message_spec(a, msg),
        AppEvent::UsageLoading => AppView { loading: true, usage_error: None, ..a },
        AppEvent::UsageLoaded(s) => AppView { loading: false, snapshot: s, usage_error: None, ..a },
        AppEvent::RateLimitsLoaded(l) => AppView { limits: Some(l), limits_loading: false, ..a },
        AppEvent::TranscriptLoaded(m) => AppView { transcript: messages_view(m@), ..a },
    }
}

/// Moving the selection to `i`: the pane scrolls back, the transcript
/// follows, and the list scrolls up to show the selection.
pub open spec fn select_spec<S, L>(a: AppView<S, L>, i: usize) -> AppView<S, L> {
    let b = sync_spec(AppView { selected_index: i, detail_scroll: 0, ..a });
    AppView {
        list_offset: if b.selected_index < b.list_offset {
            b.selected_index
        } else {
            b.list_offset
        },
        ..b
    }
}

pub open spec fn select_prev_spec<S, L>(a: AppView<S, L>) -> AppView<S, L> {
    if a.selected_index > 0 {
        select_spec(a, (a.selected_index - 1) as usize)
    } else {
        a
    }
}

pub open spec fn select_next_spec<S, L>(a: AppView<S, L>) -> AppView<S, L> {
    if a.sessions.len() > 0 && a.selected_index < a.sessions.len() - 1 {
        select_spec(a, (a.selected_index + 1) as usize)
    } else {
        a
    }
}

/// A key press while the new-session dialog is open.
pub open spec fn new_session_key_spec<S, L>(a: AppView<S, L>, key: Key) -> AppView<S, L> {
    match key {
        Key::Esc => AppView { show_new_session: false, ..a },
        Key::Enter => {
            let dir = expand_home(trim(a.new_session_input), a.home);
            if dir.len() > 0 {
                emit_spec(a, CommandView::LaunchSession { dir })
            } else {
                a
            }
        },
        Key::Backspace => AppView { new_session_input: drop_last_char(a.new_session_input), ..a },
        Key::Char(c) => AppView { new_session_input: a.new_session_input.push(c), ..a },
        _ => a,
    }
}

/// A key press while text for the session is typed: Enter sends it
/// (trimmed, unless empty) to the selected session.
pub open spec fn input_key_spec<S, L>(a: AppView<S, L>, key: Key) -> AppView<S, L> {
    match key {
        Key::Esc => AppView { show_input: false, ..a },
        Key::Enter => {
            let text = trim(a.input_text);
            let b = match selected_of(a.sessions, a.selected_index) {
                Some(s) => if text.len() > 0 {
                    emit_spec(a, CommandView::SendMessage { session_id: s.session_id@, text })
                } else {
                    a
                },
                None => a,
            };
            AppView { show_input: false, ..b }
        },
        Key::Backspace => AppView { input_text: drop_last_char(a.input_text), ..a },
        Key::Char(c) => AppView { input_text: a.input_text.push(c), ..a },
        _ => a,
    }
}

/// A key press while the rename dialog is open.
pub open spec fn rename_key_spec<S, L>(a: AppView<S, L>, key: Key) -> AppView<S, L> {
    match key {
        Key::Esc => AppView { show_rename: false, ..a },
        Key::Enter => {
            let names = match selected_of(a.sessions, a.selected_index) {
                Some(s) => {
                    let name = trim(a.rename_input);
                    if name.len() == 0 {
                        a.session_names.remove(s.session_id@)
                    } else {
                        a.session_names.insert(s.session_id@, name)
                    }
                },
                None => a.session_names,
            };
            AppView { session_names: names, show_rename: false, ..a }
        },
        Key::Backspace => AppView { rename_input: drop_last_char(a.rename_input), ..a },
        Key::Char(c) => AppView { rename_input: a.rename_input.push(c), ..a },
        _ => a,
    }
}

/// A key press; the flag says whether the dashboard quits.
pub open spec fn key_spec<S, L>(a: AppView<S, L>, key: Key, ctrl: bool) -> (AppView<S, L>, bool) {
    if a.show_new_session {
        (new_session_key_spec(a, key), false)
    } else if a.show_input {
        (input_key_spec(a, key), false)
    } else if a.show_rename {
        (rename_key_spec(a, key), false)
    } else if key == Key::Char('q') {
        (a, true)
    } else if key == Key::Char('Q') {
        (emit_spec(a, CommandView::KillDaemon), true)
    } else if key == Key::Char('c') && ctrl {
        (a, true)
    } else if key == Key::Up || key == Key::Char('k') {
        (select_prev_spec(a), false)
    } else if key == Key::Down || key == Key::Char('j') {
        (select_next_spec(a), false)
    } else if key == Key::Char('a') {
        (match selected_pending(a) {
            Some(p) => emit_spec(a, decision(p, "allow"@)),
            None => a,
        }, false)
    } else if key == Key::Char('s') {
        (match selected_pending(a) {
            Some(p) => emit_spec(
                AppView {
                    allowed_tools: granted(a.allowed_tools, p.session_id@, p.tool_name@),
                    ..a
                },
                decision(p, "allow"@),
            ),
            None => a,
        }, false)
    } else if key == Key::Char('d') {
        (match selected_pending(a) {
            Some(p) => emit_spec(a, decision(p, "deny"@)),
            None => a,
        }, false)
    } else if key == Key::Char('e') {
        (match selected_of(a.sessions, a.selected_index) {
            Some(s) => AppView {
                rename_input: if a.session_names.contains_key(s.session_id@) {
                    a.session_names[s.session_id@]
                } else {
                    Seq::empty()
                },
                show_rename: true,
                ..a
            },
            None => a,
        }, false)
    } else if key == Key::Char('i') {
        (match selected_of(a.sessions, a.selected_index) {
            Some(_) => AppView { show_input: true, input_text: Seq::empty(), ..a },
            None => a,
        }, false)
    } else if key == Key::Enter {
        (match selected_of(a.sessions, a.selected_index) {
            Some(s) => if s.status == SessionStatus::WaitingForInput {
                AppView { show_input: true, input_text: Seq::empty(), ..a }
            } else {
                a
            },
            None => a,
        }, false)
    } else if key == Key::Char('n') {
        (AppView {
            show_new_session: true,
            new_session_input: Seq::empty(),
            new_session_launched: false,
            new_session_error: None,
            ..a
        }, false)
    } else if key == Key::Char('r') {
        (emit_spec(a, CommandView::RefreshUsage), false)
    } else if key == Key::PageUp {
        (AppView {
            detail_scroll: if a.detail_scroll + 20 > usize::MAX {
                usize::MAX
            } else {
                (a.detail_scroll + 20) as usize
            },
            ..a
        }, false)
    } else if key == Key::PageDown {
        (AppView {
            detail_scroll: if a.detail_scroll < 20 {
                0
            } else {
                (a.detail_scroll - 20) as usize
            },
            ..a
        }, false)
    } else {
        (a, false)
    }
}

// ── laws ────────────────────────────────────────────────────────────────────

/// The transcript followed is the selected session's, and the selection
/// points into the list.
pub open spec fn follows_selection<S, L>(a: AppView<S, L>) -> bool {
    &&& a.last_transcript_session == match selected_of(a.sessions, a.selected_index) {
        Some(s) => Some(s.session_id@),
        None => None,
    }
    &&& ((a.sessions.len() == 0 && a.selected_index == 0) || a.selected_index < a.sessions.len())
}

/// Whatever key is pressed and whatever happens outside, the pane keeps
/// following the transcript of the selected session, and the selection
/// keeps pointing at a session when there is one.
pub proof fn transcript_follows_selection<S, L>(
    a: AppView<S, L>,
    key: Key,
    ctrl: bool,
    e: AppEvent<S, L>,
)
    requires
        follows_selection(a),
    ensures
        follows_selection(key_spec(a, key, ctrl).0),
        follows_selection(event_spec(a, e)),
{
    if let AppEvent::DaemonMessage(msg) = e {
        let (ss, ps) = message_parts(msg);
        let rest = ps.filter(waiting_pred(a.allowed_tools));
        crate::sort::lemma_sort_permutes(mark_waiting(mark_waiting(ss, ps), rest), group_le());
    }
}

// ── the implementation ──────────────────────────────────────────────────────

fn same_id(a: &Option<String>, b: &Option<String>) -> (r: bool)
    ensures
        r == (ostr(*a) == ostr(*b)),
{
    match (a, b) {
        (Some(x), Some(y)) => str_eq(x.as_str(), y.as_str()),
        (None, None) => true,
        _ => false,
    }
}

fn group_sorted(sessions: Vec<SessionState>) -> (r: Vec<SessionState>)
    ensures
        r@ == stable_sort(sessions@, group_le()),
{
    let le = |a: &SessionState, b: &SessionState| -> (r: bool)
        ensures
            r == group_le()(*a, *b),
        { a.status.sort_priority() <= b.status.sort_priority() };
    sort_by(sessions, &le, Ghost(group_le()))
}

impl<S, L> App<S, L> {
    /// A dashboard with no sessions yet, showing the usage `snapshot`;
    /// `home` is the user's home directory, if known.
    pub fn new(snapshot: S, home: Option<String>) -> (r: App<S, L>)
        ensures
            r@.sessions == Seq::<SessionState>::empty(),
            r@.pending_permissions == Seq::<PendingPermission>::empty(),
            !r@.connected,
            r@.selected_index == 0,
            r@.list_offset == 0,
            r@.detail_scroll == 0,
            r@.snapshot == snapshot,
            r@.limits is None,
            !r@.loading,
            !r@.limits_loading,
            r@.usage_error is None,
            r@.transcript == Seq::<TranscriptMessageView>::empty(),
            !r@.show_new_session,
            r@.new_session_input == Seq::<char>::empty(),
            !r@.new_session_launched,
            r@.new_session_error is None,
            !r@.show_input,
            r@.input_text == Seq::<char>::empty(),
            r@.tick_count == 0,
            r@.allowed_tools == Map::<Seq<char>, Set<Seq<char>>>::empty(),
            r@.session_names == Map::<Seq<char>, Seq<char>>::empty(),
            !r@.show_rename,
            r@.rename_input == Seq::<char>::empty(),
            r@.home == ostr(home),
            r@.outbox == Seq::<CommandView>::empty(),
            r@.last_transcript_session is None,
    {
        let r = App {
            sessions: Vec::new(),
            pending_permissions: Vec::new(),
            connected: false,
            selected_index: 0,
            list_offset: 0,
            detail_scroll: 0,
            usage: UsageData {
                snapshot,
                limits: None,
                loading: false,
                limits_loading: false,
                error: None,
            },
            transcript: Vec::new(),
            show_new_session: false,
            new_session_input: String::new(),
            new_session_launched: false,
            new_session_error: None,
            show_input: false,
            input_text: String::new(),
            tick_count: 0,
            session_allowed_tools: ToolGrants::new(),
            session_names: NameTable::new(),
            show_rename: false,
            rename_input: String::new(),
            home,
            outbox: Vec::new(),
            last_transcript_session: None,
        };
        assert(commands_view(r.outbox@) =~= Seq::<CommandView>::empty());
        assert(messages_view(r.transcript@) =~= Seq::<TranscriptMessageView>::empty());
        r
    }

    /// Hands over the actions asked for so far, oldest first.
    pub fn take_commands(&mut self) -> (r: Vec<Command>)
        ensures
            commands_view(r@) == old(self)@.outbox,
            final(self)@ == (AppView { outbox: Seq::empty(), ..old(self)@ }),
    {
        let mut r: Vec<Command> = Vec::new();
        std::mem::swap(&mut r, &mut self.outbox);
        assert(commands_view(self.outbox@) =~= Seq::<CommandView>::empty());
        r
    }

    fn emit(&mut self, c: Command)
        ensures
            final(self)@ == emit_spec(old(self)@, c@),
    {
        let ghost before = self.outbox@;
        self.outbox.push(c);
        assert(commands_view(self.outbox@) =~= commands_view(before).push(c@));
    }

    fn send_decision(&mut self, connection_id: &str, decision: &str)
        ensures
            final(self)@ == emit_spec(
                old(self)@,
                CommandView::SendDecision { connection_id: connection_id@, decision: decision@ },
            ),
    {
        self.emit(
            Command::SendDecision { connection_id: owned(connection_id), decision: owned(decision) },
        );
    }

    /// The selection, kept inside the list (0 when it is empty).
    pub fn clamped_index(&self) -> (r: usize)
        ensures
            r == clamp_index(self@.selected_index, self@.sessions.len()),
    {
        if self.sessions.len() == 0 {
            0
        } else if self.selected_index < self.sessions.len() {
            self.selected_index
        } else {
            self.sessions.len() - 1
        }
    }

    /// The selected session, if the list is not empty.
    pub fn selected_session(&self) -> (r: Option<&SessionState>)
        ensures
            r matches Some(s) ==> selected_of(self@.sessions, self@.selected_index) == Some(*s),
            r is None ==> selected_of(self@.sessions, self@.selected_index) is None,
    {
        if self.sessions.len() == 0 {
            None
        } else {
            let i = self.clamped_index();
            Some(&self.sessions[i])
        }
    }

    /// The name a session is shown under.
    pub fn session_display_name(&self, session_id: &str) -> (r: String)
        requires
            !self@.session_names.contains_key(session_id@) ==> crate::dashboard::id_cut_ok(
                session_id@,
            ),
        ensures
            crate::dashboard::display_name_ok(self@.session_names, session_id@, r@),
    {
        crate::dashboard::display_name_of(&self.session_names, session_id)
    }

    /// The first pending request of the selected session, if any.
    pub fn selected_pending_permission(&self) -> (r: Option<&PendingPermission>)
        ensures
            r matches Some(p) ==> selected_pending(self@) == Some(*p),
            r is None ==> selected_pending(self@) is None,
    {
        let s = match self.selected_session() {
            Some(s) => s,
            None => return None,
        };
        let ghost ps = self.pending_permissions@;
        let mut k: usize = 0;
        assert(ps.skip(0) =~= ps);
        while k < self.pending_permissions.len()
            invariant
                selected_of(self@.sessions, self@.selected_index) == Some(*s),
                ps == self.pending_permissions@,
                k <= ps.len(),
                first_pending(ps, s.session_id@) == match first_pending(ps.skip(k as int), s.session_id@) {
                    Some(j) => Some((j + k) as nat),
                    None => None,
                },
            decreases ps.len() - k,
        {
            assert(ps.skip(k as int)[0] == ps[k as int]);
            assert(ps.skip(k as int).drop_first() =~= ps.skip(k + 1));
            if str_eq(self.pending_permissions[k].session_id.as_str(), s.session_id.as_str()) {
                return Some(&self.pending_permissions[k]);
            }
            k = k + 1;
        }
        None
    }

    /// How many sessions are busy or waiting for approval.
    pub fn active_count(&self) -> (r: usize)
        ensures
            r == self@.sessions.filter(is_active_session()).len(),
    {
        let ghost f = is_active_session();
        let ghost ss = self.sessions@;
        let mut n: usize = 0;
        let mut i: usize = 0;
        while i < self.sessions.len()
            invariant
                ss == self.sessions@,
                f == is_active_session(),
                i <= ss.len(),
                n == ss.take(i as int).filter(f).len(),
                n <= i,
            decreases ss.len() - i,
        {
            proof {
                assert(ss.take(i + 1) =~= ss.take(i as int).push(ss[i as int]));
                ss.take(i as int).lemma_filter_push(ss[i as int], f);
            }
            let act = self.sessions[i].status.is_active();
            assert(act == f(ss[i as int]));
            if act {
                n = n + 1;
            }
            assert(n == ss.take(i + 1).filter(f).len());
            i = i + 1;
        }
        assert(ss.take(i as int) =~= ss);
        n
    }

    /// The working directories of the sessions, newest activity first,
    /// without repeats.
    pub fn recent_cwds(&self) -> (r: Vec<String>)
        ensures
            r@.map_values(|s: String| s@) == crate::dashboard::recent_dirs(self@.sessions),
    {
        crate::dashboard::recent_cwds_of(&self.sessions)
    }

    /// Applies an outside event.
    pub fn handle_event(&mut self, event: AppEvent<S, L>)
        ensures
            final(self)@ == event_spec(old(self)@, event),
    {
        match event {
            AppEvent::DaemonConnected => {
                self.connected = true;
            },
            AppEvent::DaemonDisconnected => {
                self.connected = false;
            },
            AppEvent::DaemonMessage(msg) => {
                self.apply_daemon_message(msg);
            },
            AppEvent::UsageLoading => {
                self.usage.loading = true;
                self.usage.error = None;
            },
            AppEvent::UsageLoaded(snapshot) => {
                self.usage.loading = false;
                self.usage.snapshot = snapshot;
                self.usage.error = None;
            },
            AppEvent::RateLimitsLoaded(limits) => {
                self.usage.limits = Some(limits);
                self.usage.limits_loading = false;
            },
            AppEvent::TranscriptLoaded(messages) => {
                self.transcript = messages;
            },
        }
    }

    fn sync_transcript_path(&mut self)
        ensures
            final(self)@ == sync_spec(old(self)@),
    {
        let (path, id) = match self.selected_session() {
            Some(s) => (Some(s.transcript_path.clone()), Some(s.session_id.clone())),
            None => (None, None),
        };
        if !same_id(&id, &self.last_transcript_session) {
            self.last_transcript_session = id;
            self.transcript = Vec::new();
            self.detail_scroll = 0;
            self.emit(Command::WatchTranscript(path));
            assert(messages_view(self.transcript@) =~= Seq::<TranscriptMessageView>::empty());
        }
    }

    fn apply_daemon_message(&mut self, msg: DaemonMessage)
        ensures
            final(self)@ == apply_message_spec(old(self)@, msg),
    {
        let ghost a0 = self@;
        let (mut sessions, perms) = match msg {
            DaemonMessage::StateSnapshot { sessions, pending_permissions } => (
                sessions,
                pending_permissions,
            ),
            DaemonMessage::StateDelta { sessions, pending_permissions } => (
                sessions,
                pending_permissions,
            ),
        };
        mark_sessions(&mut sessions, &perms);
        let ghost ps = perms@;
        let ghost fa = auto_pred(a0.allowed_tools);
        let ghost fr = waiting_pred(a0.allowed_tools);
        let mut src = perms;
        let mut auto: Vec<PendingPermission> = Vec::new();
        let mut rest: Vec<PendingPermission> = Vec::new();
        let ghost mut done: int = 0;
        assert(ps.skip(0) =~= ps);
        assert(ps.take(0) =~= Seq::<PendingPermission>::empty());
        while src.len() > 0
            invariant
                0 <= done <= ps.len(),
                src@ == ps.skip(done),
                auto@ == ps.take(done).filter(fa),
                rest@ == ps.take(done).filter(fr),
                fa == auto_pred(a0.allowed_tools),
                fr == waiting_pred(a0.allowed_tools),
                self@ == a0,
            decreases src.len(),
        {
            let p = src.remove(0);
            proof {
                assert(ps[done] == p);
                assert(ps.take(done + 1) =~= ps.take(done).push(p));
                ps.take(done).lemma_filter_push(p, fa);
                ps.take(done).lemma_filter_push(p, fr);
            }
            if self.session_allowed_tools.allows(p.session_id.as_str(), p.tool_name.as_str()) {
                auto.push(p);
            } else {
                rest.push(p);
            }
            proof {
                done = done + 1;
                assert(src@ =~= ps.skip(done));
            }
        }
        assert(ps.take(done) =~= ps);
        let mut k: usize = 0;
        while k < auto.len()
            invariant
                k <= auto.len(),
                self@ == (AppView {
                    outbox: a0.outbox + auto@.take(k as int).map_values(
                        |p: PendingPermission| decision(p, "allow"@),
                    ),
                    ..a0
                }),
            decreases auto.len() - k,
        {
            let ghost ob = self@.outbox;
            self.send_decision(auto[k].connection_id.as_str(), "allow");
            assert(a0.outbox + auto@.take(k + 1).map_values(
                |p: PendingPermission| decision(p, "allow"@),
            ) =~= ob.push(decision(auto@[k as int], "allow"@)));
            k = k + 1;
        }
        assert(auto@.take(k as int) =~= auto@);
        mark_sessions(&mut sessions, &rest);
        let sorted = group_sorted(sessions);
        self.sessions = sorted;
        self.pending_permissions = rest;
        self.selected_index = self.clamped_index();
        self.sync_transcript_path();
    }

    /// Applies a key press; returns whether the dashboard should quit.
    /// `ctrl` tells whether the Control modifier was held.
    pub fn handle_key(&mut self, code: Key, ctrl: bool) -> (quit: bool)
        ensures
            (final(self)@, quit) == key_spec(old(self)@, code, ctrl),
    {
        if self.show_new_session {
            return self.handle_key_new_session(code);
        }
        if self.show_input {
            return self.handle_key_input(code);
        }
        if self.show_rename {
            return self.handle_key_rename(code);
        }
        match code {
            Key::Char('q') => {
                return true;
            },
            Key::Char('Q') => {
                self.emit(Command::KillDaemon);
                return true;
            },
            Key::Char('c') if ctrl => {
                return true;
            },
            Key::Up | Key::Char('k') => self.select_prev(),
            Key::Down | Key::Char('j') => self.select_next(),
            Key::Char('a') => {
                let cid = match self.selected_pending_permission() {
                    Some(p) => Some(p.connection_id.clone()),
                    None => None,
                };
                if let Some(cid) = cid {
                    self.send_decision(cid.as_str(), "allow");
                }
            },
            Key::Char('s') => {
                let found = match self.selected_pending_permission() {
                    Some(p) => Some(
                        (p.connection_id.clone(), p.session_id.clone(), p.tool_name.clone()),
                    ),
                    None => None,
                };
                if let Some((cid, sid, tool)) = found {
                    self.session_allowed_tools.grant(sid, tool);
                    self.send_decision(cid.as_str(), "allow");
                }
            },
            Key::Char('d') => {
                let cid = match self.selected_pending_permission() {
                    Some(p) => Some(p.connection_id.clone()),
                    None => None,
                };
                if let Some(cid) = cid {
                    self.send_decision(cid.as_str(), "deny");
                }
            },
            Key::Char('e') => {
                let id = match self.selected_session() {
                    Some(s) => Some(s.session_id.clone()),
                    None => None,
                };
                if let Some(id) = id {
                    let name = match self.session_names.get(id.as_str()) {
                        Some(n) => n.clone(),
                        None => String::new(),
                    };
                    self.rename_input = name;
                    self.show_rename = true;
                }
            },
            Key::Char('i') => {
                if self.selected_session().is_some() {
                    self.show_input = true;
                    self.input_text = String::new();
                }
            },
            Key::Enter => {
                let waiting = match self.selected_session() {
                    Some(s) => s.status == SessionStatus::WaitingForInput,
                    None => false,
                };
                if waiting {
                    self.show_input = true;
                    self.input_text = String::new();
                }
            },
            Key::Char('n') => {
                self.show_new_session = true;
                self.new_session_input = String::new();
                self.new_session_launched = false;
                self.new_session_error = None;
            },
            Key::Char('r') => {
                self.emit(Command::RefreshUsage);
            },
            Key::PageUp => {
                self.detail_scroll = self.detail_scroll.saturating_add(20);
            },
            Key::PageDown => {
                self.detail_scroll = self.detail_scroll.saturating_sub(20);
            },
            _ => {},
        }
        false
    }

    fn handle_key_new_session(&mut self, code: Key) -> (quit: bool)
        ensures
            final(self)@ == new_session_key_spec(old(self)@, code),
            !quit,
    {
        match code {
            Key::Esc => {
                self.show_new_session = false;
            },
            Key::Enter => {
                let dir = expand_home_exec(self.new_session_input.as_str(), &self.home);
                if dir.len() > 0 {
                    self.emit(Command::LaunchSession { dir: string_of(&dir) });
                }
            },
            Key::Backspace => {
                pop_char(&mut self.new_session_input);
            },
            Key::Char(c) => {
                push_char(&mut self.new_session_input, c);
            },
            _ => {},
        }
        false
    }

    fn handle_key_input(&mut self, code: Key) -> (quit: bool)
        ensures
            final(self)@ == input_key_spec(old(self)@, code),
            !quit,
    {
        match code {
            Key::Esc => {
                self.show_input = false;
            },
            Key::Enter => {
                let cs = chars_of(self.input_text.as_str());
                let (lo, hi) = trim_bounds(&cs, 0, cs.len());
                assert(cs@.subrange(0, cs@.len() as int) =~= cs@);
                if lo < hi {
                    let id = match self.selected_session() {
                        Some(s) => Some(s.session_id.clone()),
                        None => None,
                    };
                    if let Some(session_id) = id {
                        let text = string_of_range(&cs, lo, hi);
                        self.emit(Command::SendMessage { session_id, text });
                    }
                }
                self.show_input = false;
            },
            Key::Backspace => {
                pop_char(&mut self.input_text);
            },
            Key::Char(c) => {
                push_char(&mut self.input_text, c);
            },
            _ => {},
        }
        false
    }

    fn handle_key_rename(&mut self, code: Key) -> (quit: bool)
        ensures
            final(self)@ == rename_key_spec(old(self)@, code),
            !quit,
    {
        match code {
            Key::Esc => {
                self.show_rename = false;
            },
            Key::Enter => {
                let id = match self.selected_session() {
                    Some(s) => Some(s.session_id.clone()),
                    None => None,
                };
                if let Some(id) = id {
                    let cs = chars_of(self.rename_input.as_str());
                    let (lo, hi) = trim_bounds(&cs, 0, cs.len());
                    assert(cs@.subrange(0, cs@.len() as int) =~= cs@);
                    if lo == hi {
                        self.session_names.remove(id.as_str());
                    } else {
                        let name = string_of_range(&cs, lo, hi);
                        self.session_names.insert(id, name);
                    }
                }
                self.show_rename = false;
            },
            Key::Backspace => {
                pop_char(&mut self.rename_input);
            },
            Key::Char(c) => {
                push_char(&mut self.rename_input, c);
            },
            _ => {},
        }
        false
    }

    /// Reports how the launch asked for by `Command::LaunchSession` went.
    pub fn launch_finished(&mut self, result: Result<(), String>)
        ensures
            final(self)@ == (match result {
                Ok(_) => AppView { new_session_launched: true, ..old(self)@ },
                Err(e) => AppView { new_session_error: Some(e@), ..old(self)@ },
            }),
    {
        match result {
            Ok(_) => {
                self.new_session_launched = true;
            },
            Err(e) => {
                self.new_session_error = Some(e);
            },
        }
    }

    /// One animation tick: counts, and closes the new-session dialog once
    /// its launch went through.
    pub fn tick(&mut self)
        ensures
            final(self)@ == (AppView {
                tick_count: if old(self)@.tick_count == u64::MAX {
                    0
                } else {
                    (old(self)@.tick_count + 1) as u64
                },
                show_new_session: if old(self)@.new_session_launched {
                    false
                } else {
                    old(self)@.show_new_session
                },
                new_session_launched: false,
                ..old(self)@
            }),
    {
        self.tick_count = if self.tick_count == u64::MAX {
            0
        } else {
            self.tick_count + 1
        };
        if self.new_session_launched {
            self.show_new_session = false;
            self.new_session_launched = false;
        }
    }

    /// Selects the previous session (mouse wheel up).
    pub fn select_prev_pub(&mut self)
        ensures
            final(self)@ == select_prev_spec(old(self)@),
    {
        self.select_prev();
    }

    /// Selects the next session (mouse wheel down).
    pub fn select_next_pub(&mut self)
        ensures
            final(self)@ == select_next_spec(old(self)@),
    {
        self.select_next();
    }

    fn select_prev(&mut self)
        ensures
            final(self)@ == select_prev_spec(old(self)@),
    {
        if self.selected_index > 0 {
            self.selected_index = self.selected_index - 1;
            self.detail_scroll = 0;
            self.sync_transcript_path();
            self.scroll_list_to_selected();
        }
    }

    fn select_next(&mut self)
        ensures
            final(self)@ == select_next_spec(old(self)@),
    {
        if self.sessions.len() > 0 && self.selected_index < self.sessions.len() - 1 {
            self.selected_index = self.selected_index + 1;
            self.detail_scroll = 0;
            self.sync_transcript_path();
            self.scroll_list_to_selected();
        }
    }

    fn scroll_list_to_selected(&mut self)
        ensures
            final(self)@ == (AppView {
                list_offset: if old(self)@.selected_index < old(self)@.list_offset {
                    old(self)@.selected_index
                } else {
                    old(self)@.list_offset
                },
                ..old(self)@
            }),
    {
        if self.selected_index < self.list_offset {
            self.list_offset = self.selected_index;
        }
    }
}

} // verus!
