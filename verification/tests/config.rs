//! Tests of configuration defaults and post-load normalisation.

use yay_sys_tray::config::{
    default_interval, default_notify, default_recheck, default_tags, default_timeout, default_true,
    AppConfig,
};

fn base_config() -> AppConfig {
    AppConfig {
        check_interval_minutes: 60,
        notify: "new_only".to_string(),
        terminal: "kitty".to_string(),
        noconfirm: false,
        autostart: false,
        animations: true,
        recheck_interval_minutes: 5,
        passwordless_updates: false,
        tailscale_enabled: false,
        tailscale_tags: "server,arch".to_string(),
        tailscale_timeout: 10,
    }
}

#[test]
fn default_values() {
    assert_eq!(default_interval(), 60);
    assert_eq!(default_notify(), "new_only");
    assert!(default_true());
    assert_eq!(default_recheck(), 5);
    assert_eq!(default_tags(), "server,arch");
    assert_eq!(default_timeout(), 10);
}

#[test]
fn default_config_matches_documented_defaults() {
    let c = AppConfig::default();
    assert_eq!(c.check_interval_minutes, 60);
    assert_eq!(c.notify, "new_only");
    assert!(!c.noconfirm);
    assert!(!c.autostart);
    assert!(c.animations);
    assert_eq!(c.recheck_interval_minutes, 5);
    assert!(!c.passwordless_updates);
    assert!(!c.tailscale_enabled);
    assert_eq!(c.tailscale_tags, "server,arch");
    assert_eq!(c.tailscale_timeout, 10);
}

#[test]
fn post_load_migrates_decorated_tags() {
    let mut c = base_config();
    c.tailscale_tags = "tag:server,tag:arch".to_string();
    c.post_load();
    assert_eq!(c.tailscale_tags, "server,arch");
}

#[test]
fn post_load_trims_and_strips_mixed_entries() {
    let mut c = base_config();
    c.tailscale_tags = " server , tag:arch ".to_string();
    c.post_load();
    assert_eq!(c.tailscale_tags, "server,arch");
}

#[test]
fn post_load_leaves_plain_tags_alone() {
    let mut c = base_config();
    c.tailscale_tags = " server , arch ".to_string();
    c.post_load();
    assert_eq!(c.tailscale_tags, " server , arch ");
}

#[test]
fn detected_terminal_is_known_or_absent() {
    let t = yay_sys_tray::config::detect_terminal();
    let known = ["kitty", "alacritty", "konsole", "foot", "xterm"];
    assert!(t.is_empty() || known.contains(&t.as_str()));
}

#[test]
fn system_probes_answer() {
    // The answers depend on the machine; the calls must simply work.
    let _ = yay_sys_tray::system::is_arch_linux();
    let _ = yay_sys_tray::system::kernel_modules_present("not-a-real-release");
}

#[test]
fn post_load_keeps_configured_terminal() {
    let mut c = base_config();
    c.terminal = "kitty".to_string();
    c.post_load();
    assert_eq!(c.terminal, "kitty");
}
