# session-dash

A terminal dashboard for coding-agent sessions. The agent runs a hook
command on each of its events; the hook reports the event to a background
daemon, which keeps the state of every session and holds permission
requests until the dashboard allows or denies them. The dashboard lists the
sessions by status, shows usage figures, opens new sessions, and (in the
`detail` view) follows the selected session's transcript.

## Layout

- `src/` is the verified library (Verus). It holds the daemon's state
  machine (`daemon`), both dashboards' key and event handling
  (`dashboard`, `detail`), everything the views show (`screen`,
  `overlays`, `detail_view`, `format`, `dates`), the hook's decisions
  (`hook`), the settings installer (`hooks`), the transcript reader
  (`transcript`), the release helper's decisions (`release`), and the
  JSON model they share (`json`). Calls into serde_json and toml_edit sit
  behind small trusted wrappers whose contracts name their results.
- `app/` is the program around it: command-line handling, sockets, files,
  the terminal, the usage fetcher, and the floating-point usage panel.
- `tests/` exercises the library.

## Configuration

The agent's command is read from `SESSION_DASH_AGENT` (for example the name
of the agent's CLI). It names the program launched for a new session, the
settings file the hooks are installed into (`~/.<agent>/settings.json`),
and the keychain entry and `<AGENT>_API_KEY` variable the usage fetcher
tries. Hook commands are recognised by the program's own file name in
them, the way `install` writes them.

## Commands

    session-dash            the dashboard
    session-dash detail     the dashboard with the transcript pane
    session-dash install    register the hooks
    session-dash hook       handle one hook event (run by the agent)
    session-dash daemon     the background daemon (started by the dashboard)
    session-dash release    bump, commit, tag, publish and push
