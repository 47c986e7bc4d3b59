use session_dash::clock::now_ms;
use session_dash::json::Json;
use session_dash::launch::{launch_plan, LaunchPlan};
use session_dash::status::{SessionStatus, Tint};

#[test]
fn clock_reads_milliseconds() {
    let t = now_ms();
    // Some time after 2020-01-01 and before 2200-01-01.
    assert!(t > 1_577_836_800_000);
    assert!(t < 7_258_118_400_000);
    assert!(now_ms() >= t);
}

#[test]
fn tmux_window_names_are_cut_to_twenty_bytes() {
    match launch_plan("/home/ann/a-very-long-project-directory-name", "agent", true, None, false, None) {
        LaunchPlan::TmuxWindow { name, dir, command } => {
            assert_eq!(name, "a-very-long-project-");
            assert_eq!(dir, "/home/ann/a-very-long-project-directory-name");
            assert_eq!(command, "agent");
        }
        _ => panic!("expected a tmux window"),
    }
    match launch_plan("/srv/app", "agent", true, None, false, None) {
        LaunchPlan::TmuxWindow { name, .. } => assert_eq!(name, "app"),
        _ => panic!("expected a tmux window"),
    }
}

#[test]
fn terminal_scripts() {
    match launch_plan("/srv/app", "agent", false, Some("iTerm.app"), false, Some("/bin/bash")) {
        LaunchPlan::AppleScript { script } => assert_eq!(
            script,
            "tell application \"iTerm\"\n  tell current window\n    create tab with default profile command \"/bin/bash -l -c 'cd /srv/app && exec agent'\"\n  end tell\nend tell"
        ),
        _ => panic!("expected a script"),
    }
    match launch_plan("/srv/app", "agent", false, None, true, None) {
        LaunchPlan::AppleScript { script } => assert!(script.contains("\"/bin/zsh -l -c 'cd /srv/app")),
        _ => panic!("expected a script"),
    }
    match launch_plan("/srv/app", "agent", false, Some("Apple_Terminal"), false, None) {
        LaunchPlan::AppleScript { script } => {
            assert_eq!(script, "tell application \"Terminal\" to do script \"cd /srv/app && agent\"")
        }
        _ => panic!("expected a script"),
    }
}

#[test]
fn statuses() {
    assert_eq!(SessionStatus::Processing.icon(), "●");
    assert_eq!(SessionStatus::WaitingForApproval.label(), "approval");
    assert_eq!(SessionStatus::Compacting.color(), Tint::Blue);
    assert!(SessionStatus::WaitingForApproval.is_active());
    assert!(!SessionStatus::WaitingForInput.is_active());
    assert_eq!(SessionStatus::WaitingForApproval.sort_priority(), 0);
    assert_eq!(SessionStatus::RunningTool.sort_priority(), 1);
    assert_eq!(SessionStatus::WaitingForInput.sort_priority(), 2);
    assert_eq!(SessionStatus::Ended.sort_priority(), 3);
}

#[test]
fn json_access() {
    let j = Json::Object(vec![
        ("b".to_string(), Json::Bool(true)),
        ("a".to_string(), Json::Array(vec![Json::Null])),
        ("b".to_string(), Json::Bool(false)),
    ]);
    assert_eq!(j.get("b").and_then(|v| v.as_bool()), Some(true));
    assert_eq!(j.get("a").and_then(|v| v.as_array()).map(|a| a.len()), Some(1));
    assert!(j.get("z").is_none());
    assert!(j.first_value().and_then(|v| v.as_bool()).unwrap());
    assert!(j.str_at("b").is_none());
    let copy = j.duplicate();
    assert_eq!(copy.get("b").and_then(|v| v.as_bool()), Some(true));
}

#[test]
fn clock_readings_become_milliseconds() {
    assert_eq!(session_dash::clock::millis_or_zero(None), 0);
    assert_eq!(session_dash::clock::millis_or_zero(Some(1_705_314_600_000)), 1_705_314_600_000);
    assert_eq!(session_dash::clock::millis_or_zero(Some(u128::from(u64::MAX) + 5)), 4);
    assert!(session_dash::clock::now_ms() > 1_600_000_000_000);
}

#[test]
fn pid_file_text_read_as_pid() {
    assert_eq!(session_dash::dashboard::daemon_pid("4242\n"), Some(4242));
    assert_eq!(session_dash::dashboard::daemon_pid("  +17 "), Some(17));
    assert_eq!(session_dash::dashboard::daemon_pid("-3"), Some(-3));
    assert_eq!(session_dash::dashboard::daemon_pid("2147483648"), None);
    assert_eq!(session_dash::dashboard::daemon_pid("12a"), None);
    assert_eq!(session_dash::dashboard::daemon_pid(""), None);
}
