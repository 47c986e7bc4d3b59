//! How a new agent session is opened: a tmux window when running inside
//! tmux, else a new terminal tab through AppleScript.
use vstd::prelude::*;
use crate::format::{split_at_char, split_of, lemma_split_len};
use crate::text::{chars_of, owned, push_text, str_eq, string_of, views};
use vstd::string::StringSliceAdditionalSpecFns;
use vstd::utf8::{encode_utf8, is_char_boundary};

verus! {

/// What to run to open the session.
pub enum LaunchPlan {
    /// `tmux new-window -n <name> -c <dir> <command>`.
    TmuxWindow { name: String, dir: String, command: String },
    /// `osascript -e <script>`.
    AppleScript { script: String },
}

/// The last `/`-separated part of a directory.
pub open spec fn last_part(dir: Seq<char>) -> Seq<char> {
    let parts = split_at_char(dir, '/');
    parts[parts.len() - 1]
}

/// Cutting the window name to 20 bytes falls between two characters.
pub open spec fn window_name_cut_ok(dir: Seq<char>) -> bool {
    let b = encode_utf8(last_part(dir));
    b.len() > 20 ==> is_char_boundary(b, 20)
}

/// The AppleScript that opens an iTerm tab running the agent's command
/// `agent` in `dir` through a login `shell`.
pub open spec fn iterm_script(shell: Seq<char>, dir: Seq<char>, agent: Seq<char>) -> Seq<char> {
    "tell application \"iTerm\"\n  tell current window\n    create tab with default profile command \""@
        + shell + " -l -c 'cd "@ + dir + " && exec "@ + agent + "'\"\n  end tell\nend tell"@
}

/// The AppleScript that runs the agent's command in `dir` in a Terminal
/// window.
pub open spec fn terminal_script(dir: Seq<char>, agent: Seq<char>) -> Seq<char> {
    "tell application \"Terminal\" to do script \"cd "@ + dir + " && "@ + agent + "\""@
}

/// Whether the terminal is iTerm: `TERM_PROGRAM` is `iTerm.app`, or an
/// iTerm session id is set.
pub open spec fn in_iterm(term_program: Option<Seq<char>>, iterm_session: bool) -> bool {
    term_program == Some("iTerm.app"@) || iterm_session
}

pub open spec fn ostr_ref(o: Option<&str>) -> Option<Seq<char>> {
    match o {
        Some(s) => Some(s@),
        None => None,
    }
}

/// How to open a session of the agent whose command is `agent` in `dir`.
/// `in_tmux` tells whether `TMUX` is set,
/// `term_program` and `shell` are `TERM_PROGRAM` and `SHELL` (the shell
/// defaults to `/bin/zsh`), `iterm_session` whether `ITERM_SESSION_ID` is
/// set. In tmux the window is named after the directory's last part, cut
/// to its first 20 bytes.
pub fn launch_plan(
    dir: &str,
    agent: &str,
    in_tmux: bool,
    term_program: Option<&str>,
    iterm_session: bool,
    shell: Option<&str>,
) -> (r: LaunchPlan)
    requires
        in_tmux ==> window_name_cut_ok(dir@),
    ensures
        in_tmux ==> (r matches LaunchPlan::TmuxWindow { name, dir: d, command } && d@ == dir@
            && command@ == agent@
            && encode_utf8(name@) == encode_utf8(last_part(dir@)).take(
            if encode_utf8(last_part(dir@)).len() > 20 {
                20
            } else {
                encode_utf8(last_part(dir@)).len() as int
            },
        )),
        !in_tmux ==> (r matches LaunchPlan::AppleScript { script } && script@ == if in_iterm(
            ostr_ref(term_program),
            iterm_session,
        ) {
            iterm_script(
                match shell {
                    Some(s) => s@,
                    None => "/bin/zsh"@,
                },
                dir@,
                agent@,
            )
        } else {
            terminal_script(dir@, agent@)
        }),
{
    if in_tmux {
        let cs = chars_of(dir);
        let parts = split_of(&cs, '/');
        proof {
            lemma_split_len(cs@, '/');
        }
        let n = parts.len();
        assert(views(parts@)[n - 1] == parts@[n - 1]@);
        let piece = string_of(&parts[n - 1]);
        let name = crate::text::byte_prefix(piece.as_str(), 20);
        LaunchPlan::TmuxWindow { name, dir: owned(dir), command: owned(agent) }
    } else {
        let iterm = match term_program {
            Some(t) => str_eq(t, "iTerm.app"),
            None => false,
        } || iterm_session;
        let mut script = String::new();
        if iterm {
            push_text(
                &mut script,
                "tell application \"iTerm\"\n  tell current window\n    create tab with default profile command \"",
            );
            match shell {
                Some(s) => push_text(&mut script, s),
                None => push_text(&mut script, "/bin/zsh"),
            }
            push_text(&mut script, " -l -c 'cd ");
            push_text(&mut script, dir);
            push_text(&mut script, " && exec ");
            push_text(&mut script, agent);
            push_text(&mut script, "'\"\n  end tell\nend tell");
        } else {
            push_text(&mut script, "tell application \"Terminal\" to do script \"cd ");
            push_text(&mut script, dir);
            push_text(&mut script, " && ");
            push_text(&mut script, agent);
            push_text(&mut script, "\"");
        }
        proof {
            assert(Seq::<char>::empty() + "tell application \"Terminal\" to do script \"cd "@
                =~= "tell application \"Terminal\" to do script \"cd "@);
        }
        LaunchPlan::AppleScript { script }
    }
}

} // verus!
