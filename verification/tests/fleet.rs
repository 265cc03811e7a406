//! Tests of peer discovery, probe classification and the deterministic
//! fleet ordering.

use yay_sys_tray::tailscale::{
    assemble_remote_result, build_ssh_args, classify_probe, collect_tag_names, discover_peers,
    strip_tag_prefix, Peer, ProbeOutcome,
};

fn peer(online: bool, tags: &[&str], hostname: &str) -> Peer {
    Peer {
        online,
        tags: tags.iter().map(|t| t.to_string()).collect(),
        hostname: hostname.to_string(),
    }
}

#[test]
fn tag_prefix_stripped() {
    assert_eq!(strip_tag_prefix("tag:server"), "server");
    assert_eq!(strip_tag_prefix("server"), "server");
    assert_eq!(strip_tag_prefix("tag:"), "");
}

#[test]
fn all_tags_collected_sorted_and_unique() {
    let peers = vec![
        peer(true, &["tag:server", "tag:arch"], "a"),
        peer(false, &["tag:server", "tag:media"], "b"),
    ];
    let tags = collect_tag_names(&peers);
    assert_eq!(tags, vec!["arch".to_string(), "media".to_string(), "server".to_string()]);
}

#[test]
fn discovery_filters_and_sorts() {
    let peers = vec![
        peer(true, &["tag:server", "tag:arch"], "zeta"),
        peer(true, &["tag:server", "tag:arch"], "alpha"),
        peer(true, &["tag:server"], "partial-tags"),
        peer(false, &["tag:server", "tag:arch"], "offline"),
        peer(true, &["tag:server", "tag:arch"], ""),
    ];
    let tags = vec!["server".to_string(), "arch".to_string()];
    let hosts = discover_peers(&peers, &tags);
    assert_eq!(hosts, vec!["alpha".to_string(), "zeta".to_string()]);
}

#[test]
fn discovery_with_empty_filter_takes_online_named_peers() {
    let peers = vec![peer(true, &[], "only"), peer(false, &[], "off")];
    let hosts = discover_peers(&peers, &Vec::new());
    assert_eq!(hosts, vec!["only".to_string()]);
}

#[test]
fn ssh_args_carry_timeout_and_options() {
    let args = build_ssh_args("host1", 10);
    assert_eq!(
        args,
        vec![
            "-o".to_string(),
            "ConnectTimeout=10".to_string(),
            "-o".to_string(),
            "ServerAliveInterval=5".to_string(),
            "-o".to_string(),
            "ServerAliveCountMax=2".to_string(),
            "-o".to_string(),
            "BatchMode=yes".to_string(),
            "-o".to_string(),
            "StrictHostKeyChecking=no".to_string(),
            "host1".to_string(),
            "checkupdates".to_string(),
        ]
    );
}

#[test]
fn probe_exit_zero_parses_and_assesses_restart() {
    let outcome = ProbeOutcome::Exited {
        code: Some(0),
        stdout: "linux 6.1-1 -> 6.2-1\nfirefox 1-1 -> 2-1\n".to_string(),
        stderr: String::new(),
    };
    let h = classify_probe("web1", outcome);
    assert_eq!(h.hostname, "web1");
    assert_eq!(h.updates.len(), 2);
    assert!(h.needs_restart);
    assert_eq!(h.restart_packages, vec!["linux".to_string()]);
    assert!(h.error.is_none());
}

#[test]
fn probe_exit_two_is_empty_success() {
    let outcome = ProbeOutcome::Exited { code: Some(2), stdout: String::new(), stderr: String::new() };
    let h = classify_probe("web1", outcome);
    assert!(h.updates.is_empty());
    assert!(!h.needs_restart);
    assert!(h.error.is_none());
}

#[test]
fn probe_other_exit_is_error() {
    let outcome = ProbeOutcome::Exited {
        code: Some(255),
        stdout: String::new(),
        stderr: " connection refused \n".to_string(),
    };
    let h = classify_probe("web1", outcome);
    assert!(h.updates.is_empty());
    assert_eq!(h.error.as_deref(), Some("SSH error: connection refused"));
}

#[test]
fn probe_launch_failure_is_error() {
    let outcome = ProbeOutcome::LaunchFailed { message: "No such file".to_string() };
    let h = classify_probe("web1", outcome);
    assert_eq!(h.error.as_deref(), Some("SSH error: No such file"));
}

#[test]
fn probe_timeout_has_distinct_message() {
    let h = classify_probe("web1", ProbeOutcome::TimedOut);
    assert_eq!(h.error.as_deref(), Some("Connection timed out"));
    assert!(h.updates.is_empty());
}

#[test]
fn fleet_keeps_one_entry_per_candidate_with_timeout_isolated() {
    let probes = vec![
        (
            "gamma".to_string(),
            ProbeOutcome::Exited {
                code: Some(0),
                stdout: "glibc 1-1 -> 1-2\n".to_string(),
                stderr: String::new(),
            },
        ),
        ("beta".to_string(), ProbeOutcome::TimedOut),
        (
            "alpha".to_string(),
            ProbeOutcome::Exited { code: Some(2), stdout: String::new(), stderr: String::new() },
        ),
    ];
    let r = assemble_remote_result(probes);
    assert_eq!(r.hosts.len(), 3);
    assert_eq!(r.hosts[0].hostname, "alpha");
    assert_eq!(r.hosts[1].hostname, "beta");
    assert_eq!(r.hosts[2].hostname, "gamma");
    let timeouts: Vec<_> = r
        .hosts
        .iter()
        .filter(|h| h.error.as_deref() == Some("Connection timed out"))
        .collect();
    assert_eq!(timeouts.len(), 1);
    assert_eq!(timeouts[0].hostname, "beta");
    assert!(r.hosts[0].error.is_none());
    assert!(r.hosts[2].error.is_none());
    assert_eq!(r.hosts[2].updates.len(), 1);
}

#[test]
fn fleet_result_independent_of_completion_order() {
    let make = |order: &[usize]| {
        let all = [
            (
                "beta".to_string(),
                ProbeOutcome::Exited {
                    code: Some(0),
                    stdout: "linux 1-1 -> 1-2\n".to_string(),
                    stderr: String::new(),
                },
            ),
            (
                "alpha".to_string(),
                ProbeOutcome::Exited { code: Some(2), stdout: String::new(), stderr: String::new() },
            ),
            ("delta".to_string(), ProbeOutcome::TimedOut),
        ];
        let probes: Vec<_> = order.iter().map(|&i| all[i].clone()).collect();
        assemble_remote_result(probes)
    };
    let first = make(&[0, 1, 2]);
    let second = make(&[2, 0, 1]);
    let third = make(&[1, 2, 0]);
    assert_eq!(first, second);
    assert_eq!(second, third);
    assert_eq!(first.hosts[0].hostname, "alpha");
    assert_eq!(first.hosts[1].hostname, "beta");
    assert_eq!(first.hosts[2].hostname, "delta");
}
