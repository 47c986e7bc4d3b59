//! The hook process: what it reports to the daemon for each event the
//! agent raises, and how it answers a permission request.
use vstd::prelude::*;
use crate::json::Json;
use crate::format::{split_at_char, split_of};
use crate::text::{chars_of, owned, str_eq, string_of, views};
use crate::types::{ostr, ojson};

verus! {

/// What the agent hands a hook on standard input. Absent text fields
/// are empty.
pub struct HookInput {
    pub session_id: Option<String>,
    pub transcript_path: String,
    pub cwd: String,
    pub permission_mode: String,
    pub hook_event_name: Option<String>,
    pub tool_name: Option<String>,
    pub tool_input: Option<Json>,
    pub tool_output: Option<String>,
    pub tool_use_id: Option<String>,
    pub success: Option<bool>,
    pub notification_type: Option<String>,
    pub message: Option<String>,
}

/// What the hook sends to the daemon.
pub struct HookEvent {
    pub session_id: String,
    pub transcript_path: String,
    pub cwd: String,
    pub permission_mode: String,
    pub hook_event_name: String,
    pub pid: u32,
    pub ts: i64,
    pub iterm_session_id: Option<String>,
    pub tool_name: Option<String>,
    pub tool_input: Option<Json>,
    pub tool_output: Option<String>,
    pub tool_use_id: Option<String>,
    pub success: Option<bool>,
    pub notification_type: Option<String>,
    pub message: Option<String>,
}

/// The terminal session id in `ITERM_SESSION_ID`: what follows the first
/// `:`, up to the next one.
pub open spec fn iterm_id(env: Option<Seq<char>>) -> Option<Seq<char>> {
    match env {
        Some(v) => {
            let parts = split_at_char(v, ':');
            if parts.len() >= 2 {
                Some(parts[1])
            } else {
                None
            }
        },
        None => None,
    }
}

/// The second `:`-separated part of the terminal's session variable.
pub fn iterm_session_id(env: Option<&str>) -> (r: Option<String>)
    ensures
        ostr(r) == iterm_id(
            match env {
                Some(v) => Some(v@),
                None => None,
            },
        ),
{
    match env {
        Some(v) => {
            let cs = chars_of(v);
            let parts = split_of(&cs, ':');
            if parts.len() >= 2 {
                assert(views(parts@)[1] == parts@[1]@);
                Some(string_of(&parts[1]))
            } else {
                None
            }
        },
        None => None,
    }
}

/// The event a hook reports, or `None` when the input names no session
/// or no event. An empty working directory is replaced by the hook's own
/// (`current_dir`, empty when unknown).
pub fn build_hook_event(
    input: HookInput,
    pid: u32,
    ts: i64,
    iterm_env: Option<&str>,
    current_dir: Option<String>,
) -> (r: Option<HookEvent>)
    ensures
        (input.session_id is None || input.hook_event_name is None) <==> r is None,
        r matches Some(e) ==> {
            &&& e.session_id@ == input.session_id->0@
            &&& e.hook_event_name@ == input.hook_event_name->0@
            &&& e.transcript_path@ == input.transcript_path@
            &&& e.permission_mode@ == input.permission_mode@
            &&& e.cwd@ == if input.cwd@.len() == 0 {
                match current_dir {
                    Some(d) => d@,
                    None => Seq::empty(),
                }
            } else {
                input.cwd@
            }
            &&& e.pid == pid
            &&& e.ts == ts
            &&& ostr(e.iterm_session_id) == iterm_id(
                match iterm_env {
                    Some(v) => Some(v@),
                    None => None,
                },
            )
            &&& ostr(e.tool_name) == ostr(input.tool_name)
            &&& ojson(e.tool_input) == ojson(input.tool_input)
            &&& ostr(e.tool_output) == ostr(input.tool_output)
            &&& ostr(e.tool_use_id) == ostr(input.tool_use_id)
            &&& e.success == input.success
            &&& ostr(e.notification_type) == ostr(input.notification_type)
            &&& ostr(e.message) == ostr(input.message)
        },
{
    let HookInput {
        session_id,
        transcript_path,
        cwd,
        permission_mode,
        hook_event_name,
        tool_name,
        tool_input,
        tool_output,
        tool_use_id,
        success,
        notification_type,
        message,
    } = input;
    let session_id = match session_id {
        Some(s) => s,
        None => return None,
    };
    let hook_event_name = match hook_event_name {
        Some(s) => s,
        None => return None,
    };
    let iterm = iterm_session_id(iterm_env);
    let cwd = if cwd.as_str().is_empty() {
        match current_dir {
            Some(d) => d,
            None => String::new(),
        }
    } else {
        cwd
    };
    Some(
        HookEvent {
            session_id,
            transcript_path,
            cwd,
            permission_mode,
            hook_event_name,
            pid,
            ts,
            iterm_session_id: iterm,
            tool_name,
            tool_input,
            tool_output,
            tool_use_id,
            success,
            notification_type,
            message,
        },
    )
}

/// Whether the hook waits for the dashboard's decision on this event
/// before the agent goes on.
pub fn awaits_decision(hook_event_name: &str) -> (r: bool)
    ensures
        r == (hook_event_name@ == "PermissionRequest"@),
{
    str_eq(hook_event_name, "PermissionRequest")
}

/// The behaviour the hook reports for the daemon's decision: `allow` and
/// `deny` are passed on; anything else (no daemon, a timeout, `ask`)
/// leaves the question to the agent, and nothing is reported.
pub fn permission_behavior(decision: &str) -> (r: Option<String>)
    ensures
        ostr(r) == if decision@ == "allow"@ {
            Some("allow"@)
        } else if decision@ == "deny"@ {
            Some("deny"@)
        } else {
            None::<Seq<char>>
        },
{
    if str_eq(decision, "allow") {
        Some(owned("allow"))
    } else if str_eq(decision, "deny") {
        Some(owned("deny"))
    } else {
        None
    }
}

} // verus!
