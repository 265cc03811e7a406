//! Tests of the session state, the check-cycle decisions, the visual
//! state machine, the tooltip, and the animation steps.

use yay_sys_tray::checker::{parse_update_output, CheckResult, RebootInfo};
use yay_sys_tray::tailscale::{classify_probe, HostResult, ProbeOutcome};
use yay_sys_tray::tray::{
    any_remote_restart, bounce_step, build_tooltip, count_total, pulse_plan, reboot_needed,
    select_status, should_notify, should_run_fleet, spin_next_frame, split_tags,
    run_cycle_success, BounceAction, BounceEvent, TimeOfDay, TrayState, TrayStatus,
};

fn local_result(listing: &str, reboot: Option<bool>) -> CheckResult {
    let updates = parse_update_output(listing);
    let (needs_restart, restart_packages) =
        yay_sys_tray::checker::compute_restart(&updates);
    CheckResult {
        updates,
        needs_restart,
        restart_packages,
        reboot_info: reboot.map(|needed| RebootInfo {
            needed,
            running_kernel: "6.6.8-arch1-1".to_string(),
            installed_kernel: "6.6.9.arch1-1".to_string(),
        }),
    }
}

fn remote_host(name: &str, listing: &str) -> HostResult {
    classify_probe(
        name,
        ProbeOutcome::Exited { code: Some(0), stdout: listing.to_string(), stderr: String::new() },
    )
}

#[test]
fn tag_splitting_trims_and_drops_empties() {
    assert_eq!(split_tags("server, arch"), vec!["server".to_string(), "arch".to_string()]);
    assert_eq!(split_tags(" a ,, b ,"), vec!["a".to_string(), "b".to_string()]);
    assert!(split_tags("").is_empty());
    assert!(split_tags(" , ").is_empty());
}

#[test]
fn fleet_runs_only_when_enabled_with_tags() {
    assert!(should_run_fleet(true, "server"));
    assert!(!should_run_fleet(true, ""));
    assert!(!should_run_fleet(false, "server"));
}

#[test]
fn notification_edge_detection() {
    assert!(!should_notify("new_only", 3, 3));
    assert!(should_notify("new_only", 5, 3));
    assert!(!should_notify("new_only", 2, 3));
    assert!(!should_notify("always", 0, 7));
    assert!(should_notify("always", 1, 7));
    assert!(!should_notify("never", 9, 0));
    assert!(!should_notify("", 9, 0));
}

#[test]
fn status_precedence() {
    assert_eq!(select_status(0, false, true), TrayStatus::RebootOnly);
    assert_eq!(select_status(0, true, true), TrayStatus::RebootOnly);
    assert_eq!(select_status(0, false, false), TrayStatus::UpToDate);
    assert_eq!(select_status(4, true, false), TrayStatus::RestartRequired);
    assert_eq!(select_status(4, true, true), TrayStatus::RestartRequired);
    assert_eq!(select_status(4, false, false), TrayStatus::HasUpdates);
}

#[test]
fn pulse_plans_per_status() {
    assert_eq!(pulse_plan(TrayStatus::RebootOnly), Some((1000, 16)));
    assert_eq!(pulse_plan(TrayStatus::RestartRequired), Some((500, 0)));
    assert_eq!(pulse_plan(TrayStatus::HasUpdates), Some((500, 0)));
    assert_eq!(pulse_plan(TrayStatus::UpToDate), None);
    assert_eq!(pulse_plan(TrayStatus::Checking), None);
    assert_eq!(pulse_plan(TrayStatus::CheckFailed), None);
}

#[test]
fn spinner_frames_cycle() {
    assert_eq!(spin_next_frame(0, 12), 1);
    assert_eq!(spin_next_frame(11, 12), 0);
}

#[test]
fn bounce_budget_ends_on_full_frame() {
    assert_eq!(bounce_step(16, true, 16, BounceEvent::Tick), BounceAction::Stop { force_full: true });
    assert_eq!(
        bounce_step(3, false, 16, BounceEvent::Tick),
        BounceAction::Render { small: true, next_tick: 4 }
    );
}

#[test]
fn bounce_cancellation_rests_only_finite_loops() {
    assert_eq!(
        bounce_step(3, true, 16, BounceEvent::Cancelled),
        BounceAction::Stop { force_full: true }
    );
    assert_eq!(
        bounce_step(3, true, 0, BounceEvent::Cancelled),
        BounceAction::Stop { force_full: false }
    );
}

#[test]
fn scenario_local_and_remote_restart() {
    let local = local_result("firefox 1-1 -> 2-1\nvlc 1-1 -> 1-2\n", Some(false));
    let host = remote_host("web1", "linux 6.1-1 -> 6.2-1\n");
    let remote = vec![host];
    let total = count_total(&local, &remote);
    assert_eq!(total, 3);
    let any_restart = local.needs_restart || any_remote_restart(&remote);
    assert!(any_restart);
    let status = select_status(total, any_restart, reboot_needed(&local));
    assert_eq!(status, TrayStatus::RestartRequired);
    let tooltip = build_tooltip(&local, &remote, None);
    assert_eq!(tooltip, "Local: 2 update(s)\nweb1: 1 update(s) (restart)");
}

#[test]
fn tooltip_single_machine_variants() {
    let none: Vec<HostResult> = Vec::new();
    let local = local_result("", Some(false));
    assert_eq!(build_tooltip(&local, &none, None), "System up to date");
    let local = local_result("", Some(true));
    assert_eq!(build_tooltip(&local, &none, None), "Reboot required");
    let local = local_result("linux 1-1 -> 1-2\nsystemd 1-1 -> 1-2\n", Some(false));
    assert_eq!(
        build_tooltip(&local, &none, None),
        "2 update(s) available\nRestart: linux, systemd"
    );
}

#[test]
fn tooltip_appends_last_check_time() {
    let none: Vec<HostResult> = Vec::new();
    let local = local_result("", Some(false));
    let t = TimeOfDay { hour: 9, minute: 5 };
    assert_eq!(build_tooltip(&local, &none, Some(t)), "System up to date\nLast check: 09:05");
    let t = TimeOfDay { hour: 23, minute: 59 };
    assert_eq!(build_tooltip(&local, &none, Some(t)), "System up to date\nLast check: 23:59");
}

#[test]
fn tooltip_shows_host_errors_and_up_to_date() {
    let local = local_result("", Some(false));
    let ok_host = classify_probe(
        "calm",
        ProbeOutcome::Exited { code: Some(2), stdout: String::new(), stderr: String::new() },
    );
    let bad_host = classify_probe("gone", ProbeOutcome::TimedOut);
    let remote = vec![ok_host, bad_host];
    assert_eq!(
        build_tooltip(&local, &remote, None),
        "Local: 0 update(s)\ncalm: up to date\ngone: Connection timed out"
    );
}

#[test]
fn cycle_replaces_session_state_and_detects_edges() {
    let mut state = TrayState::new();
    assert!(state.get_check_result().is_none());

    let local = local_result("firefox 1-1 -> 2-1\n", Some(false));
    let remote: Vec<HostResult> = Vec::new();
    let now = TimeOfDay { hour: 12, minute: 0 };
    let (total, fire, enabled) = run_cycle_success(&mut state, "new_only", local, remote, now);
    assert_eq!(total, 1);
    assert!(fire);
    assert!(enabled);
    assert_eq!(state.previous_count, 1);
    assert_eq!(state.last_check, Some(now));

    let full = state.get_check_result().expect("a check has completed");
    assert_eq!(full.local.unwrap().updates.len(), 1);
    assert!(full.remote.is_empty());

    let local = local_result("firefox 1-1 -> 2-1\n", Some(false));
    let (total, fire, enabled) = run_cycle_success(&mut state, "new_only", local, Vec::new(), now);
    assert_eq!(total, 1);
    assert!(!fire, "an unchanged total must not notify in new_only mode");
    assert!(enabled);

    let local = local_result("", Some(false));
    let (total, fire, enabled) = run_cycle_success(&mut state, "always", local, Vec::new(), now);
    assert_eq!(total, 0);
    assert!(!fire);
    assert!(!enabled);
}

#[test]
fn cancellation_signals_are_independent() {
    let mut state = TrayState::new();
    assert!(!state.spin_receiver());
    assert!(!state.bounce_receiver());
    state.cancel_spin();
    assert!(state.spin_receiver());
    assert!(!state.bounce_receiver());
    state.cancel_bounce();
    state.reset_spin();
    assert!(!state.spin_receiver());
    assert!(state.bounce_receiver());
    state.reset_bounce();
    assert!(!state.bounce_receiver());
}

#[test]
fn wall_clock_reading_is_in_range() {
    let t = yay_sys_tray::tray::current_time_of_day();
    assert!(t.hour < 24);
    assert!(t.minute < 60);
}

#[test]
fn self_update_triggers_service_restart() {
    let mut state = TrayState::new();
    assert!(!state.should_restart_service());
    let local = local_result("yay-sys-tray-git 1-1 -> 1-2\n", None);
    let now = TimeOfDay { hour: 0, minute: 0 };
    run_cycle_success(&mut state, "never", local, Vec::new(), now);
    assert!(state.should_restart_service());
    let local = local_result("firefox 1-1 -> 2-1\n", None);
    run_cycle_success(&mut state, "never", local, Vec::new(), now);
    assert!(!state.should_restart_service());
}
