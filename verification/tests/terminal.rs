//! Tests of terminal launch command construction.

use yay_sys_tray::terminal::{
    build_local_update_cmd, build_remote_update_cmd, build_remove_cmd, get_terminal_prefix,
    terminal_cmds,
};

fn strs(v: &[&str]) -> Vec<String> {
    v.iter().map(|s| s.to_string()).collect()
}

#[test]
fn known_terminal_prefixes() {
    assert_eq!(get_terminal_prefix("kitty"), strs(&["kitty", "--hold"]));
    assert_eq!(get_terminal_prefix("konsole"), strs(&["konsole", "--hold", "-e"]));
    assert_eq!(get_terminal_prefix("alacritty"), strs(&["alacritty", "--hold", "-e"]));
    assert_eq!(get_terminal_prefix("foot"), strs(&["foot", "--hold"]));
    assert_eq!(get_terminal_prefix("xterm"), strs(&["xterm", "-hold", "-e"]));
}

#[test]
fn unknown_terminal_gets_dash_e() {
    assert_eq!(get_terminal_prefix("wezterm"), strs(&["wezterm", "-e"]));
}

#[test]
fn command_table_has_five_known_terminals() {
    let t = terminal_cmds();
    assert_eq!(t.len(), 5);
    for (name, prefix) in &t {
        assert_eq!(prefix, &get_terminal_prefix(name));
    }
}

#[test]
fn local_update_plain() {
    assert_eq!(
        build_local_update_cmd("kitty", false, false),
        strs(&["kitty", "--hold", "yay", "-Syu"])
    );
}

#[test]
fn local_update_noconfirm() {
    assert_eq!(
        build_local_update_cmd("kitty", true, false),
        strs(&["kitty", "--hold", "yay", "-Syu", "--noconfirm"])
    );
}

#[test]
fn local_update_with_restart_runs_under_shell() {
    assert_eq!(
        build_local_update_cmd("foot", true, true),
        strs(&["foot", "--hold", "bash", "-c", "yay -Syu --noconfirm && sudo reboot"])
    );
    assert_eq!(
        build_local_update_cmd("foot", false, true),
        strs(&["foot", "--hold", "bash", "-c", "yay -Syu && sudo reboot"])
    );
}

#[test]
fn remote_update_command() {
    assert_eq!(
        build_remote_update_cmd("kitty", "web1", false, false),
        strs(&["kitty", "--hold", "ssh", "web1", "sudo pacman -Syu"])
    );
    assert_eq!(
        build_remote_update_cmd("kitty", "web1", true, true),
        strs(&["kitty", "--hold", "ssh", "web1", "sudo pacman -Syu --noconfirm && sudo reboot"])
    );
}

#[test]
fn remove_command() {
    assert_eq!(
        build_remove_cmd("kitty", "firefox", "Rns", false),
        strs(&["kitty", "--hold", "yay", "-Rns", "firefox"])
    );
    assert_eq!(
        build_remove_cmd("kitty", "firefox", "R", true),
        strs(&["kitty", "--hold", "yay", "-R", "firefox", "--noconfirm"])
    );
}
