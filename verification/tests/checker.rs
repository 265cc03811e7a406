//! Tests of the local checker's classification, enrichment and restart
//! assessment.

use yay_sys_tray::checker::{
    assemble_check_result, classify_aur_listing, classify_repo_listing, compute_restart,
    infer_kernel_package, make_reboot_info, parse_descriptions, parse_installed_version,
    parse_repositories, parse_update_output, restart_package, restart_packages_list,
};

#[test]
fn repo_listing_exit_zero_parses() {
    let r = classify_repo_listing(Some(0), "linux 6.1-1 -> 6.2-1\n", "");
    let v = r.unwrap();
    assert_eq!(v.len(), 1);
    assert_eq!(v[0].package, "linux");
}

#[test]
fn repo_listing_exit_two_is_empty_success() {
    let r = classify_repo_listing(Some(2), "", "");
    assert_eq!(r.unwrap().len(), 0);
}

#[test]
fn repo_listing_other_exit_is_error_with_diagnostic() {
    let r = classify_repo_listing(Some(1), "", "  database lock held  \n");
    assert_eq!(r.unwrap_err(), "checkupdates error: database lock held");
}

#[test]
fn repo_listing_signal_exit_is_error() {
    let r = classify_repo_listing(None, "", "killed");
    assert!(r.is_err());
}

#[test]
fn aur_listing_success_tags_records() {
    let v = classify_aur_listing(true, "yay-sys-tray-git 1.0-1 -> 1.1-1\n");
    assert_eq!(v.len(), 1);
    assert_eq!(v[0].repository, "aur");
    assert_eq!(v[0].url, "https://aur.archlinux.org/packages/yay-sys-tray-git");
}

#[test]
fn aur_listing_failure_is_empty() {
    assert_eq!(classify_aur_listing(false, "pkg 1 -> 2\n").len(), 0);
    assert_eq!(classify_aur_listing(true, "   \n").len(), 0);
}

#[test]
fn descriptions_parsed_from_package_info() {
    let out = "Name            : firefox\nVersion         : 121.0-1\nDescription     : Web browser\n\nName            : glibc\nDescription     : GNU C Library\n";
    let d = parse_descriptions(out);
    assert_eq!(d.len(), 2);
    assert_eq!(d[0].0, "firefox");
    assert_eq!(d[0].1, "Web browser");
    assert_eq!(d[1].0, "glibc");
    assert_eq!(d[1].1, "GNU C Library");
}

#[test]
fn repositories_parsed_from_sync_info() {
    let out = "Repository      : core\nName            : glibc\nVersion         : 2.38-2\nArchitecture    : x86_64\n";
    let r = parse_repositories(out);
    assert_eq!(r.len(), 1);
    assert_eq!(r[0].0, "glibc");
    assert_eq!(r[0].1 .0, "core");
    assert_eq!(r[0].1 .1, "x86_64");
}

#[test]
fn assembled_result_synthesises_repo_urls() {
    let repo = parse_update_output("glibc 2.38-1 -> 2.38-2\n");
    let aur = classify_aur_listing(true, "paru 1.0-1 -> 1.1-1\n");
    let descs = parse_descriptions("Name : glibc\nDescription : GNU C Library\n");
    let repos = parse_repositories("Repository : core\nName : glibc\nArchitecture : x86_64\n");
    let result = assemble_check_result(repo, aur, &descs, &repos, None);
    assert_eq!(result.updates.len(), 2);
    assert_eq!(result.updates[0].package, "glibc");
    assert_eq!(result.updates[0].description, "GNU C Library");
    assert_eq!(result.updates[0].repository, "core");
    assert_eq!(
        result.updates[0].url,
        "https://archlinux.org/packages/core/x86_64/glibc/"
    );
    assert_eq!(result.updates[1].package, "paru");
    assert_eq!(result.updates[1].repository, "aur");
    assert!(result.needs_restart);
    assert_eq!(result.restart_packages, vec!["glibc".to_string()]);
}

#[test]
fn restart_flag_iff_triggering_set_nonempty() {
    let updates = parse_update_output("firefox 1 -> 2\nlinux 1 -> 2\nsystemd 1 -> 2\n");
    let (needs, pkgs) = compute_restart(&updates);
    assert!(needs);
    assert_eq!(pkgs, vec!["linux".to_string(), "systemd".to_string()]);

    let updates = parse_update_output("firefox 1 -> 2\n");
    let (needs, pkgs) = compute_restart(&updates);
    assert!(!needs);
    assert!(pkgs.is_empty());
}

#[test]
fn denylist_membership() {
    for name in ["linux", "linux-lts", "linux-zen", "linux-hardened", "systemd", "glibc", "nvidia", "nvidia-lts"] {
        assert!(restart_package(name));
    }
    assert!(!restart_package("firefox"));
    assert!(!restart_package("linux-firmware"));
    assert_eq!(restart_packages_list().len(), 8);
}

#[test]
fn kernel_package_inference_precedence() {
    assert_eq!(infer_kernel_package("6.6.8-zen1-1-zen"), "linux-zen");
    assert_eq!(infer_kernel_package("6.6.8-hardened1-1-hardened"), "linux-hardened");
    assert_eq!(infer_kernel_package("6.1.69-1-lts"), "linux-lts");
    assert_eq!(infer_kernel_package("6.6.8-arch1-1"), "linux");
}

#[test]
fn installed_version_is_second_token() {
    assert_eq!(parse_installed_version("linux 6.6.8.arch1-1"), "6.6.8.arch1-1");
    assert_eq!(parse_installed_version("linux"), "");
    assert_eq!(parse_installed_version(""), "");
}

#[test]
fn reboot_needed_iff_modules_absent() {
    let ri = make_reboot_info("6.6.8-arch1-1".to_string(), false, "6.6.9.arch1-1".to_string());
    assert!(ri.needed);
    assert_eq!(ri.running_kernel, "6.6.8-arch1-1");
    assert_eq!(ri.installed_kernel, "6.6.9.arch1-1");
    let ri = make_reboot_info("6.6.8-arch1-1".to_string(), true, "6.6.8.arch1-1".to_string());
    assert!(!ri.needed);
}
