//! Tests of the update-line parser.

use yay_sys_tray::checker::parse_update_output;

#[test]
fn single_well_formed_line() {
    let v = parse_update_output("pkgA 1.0 -> 2.0");
    assert_eq!(v.len(), 1);
    assert_eq!(v[0].package, "pkgA");
    assert_eq!(v[0].old_version, "1.0");
    assert_eq!(v[0].new_version, "2.0");
    assert_eq!(v[0].description, "");
    assert_eq!(v[0].repository, "");
    assert_eq!(v[0].url, "");
}

#[test]
fn line_without_arrow_dropped() {
    let v = parse_update_output("pkgA 1.0 2.0 3.0");
    assert_eq!(v.len(), 0);
}

#[test]
fn line_with_too_few_tokens_dropped() {
    let v = parse_update_output("pkgA -> 2.0");
    assert_eq!(v.len(), 0);
}

#[test]
fn blank_lines_dropped() {
    let v = parse_update_output("\n   \n\t\n");
    assert_eq!(v.len(), 0);
}

#[test]
fn empty_input_gives_no_records() {
    let v = parse_update_output("");
    assert_eq!(v.len(), 0);
}

#[test]
fn leading_and_trailing_whitespace_tolerated() {
    let v = parse_update_output("   linux 6.6.1-1 -> 6.6.2-1   ");
    assert_eq!(v.len(), 1);
    assert_eq!(v[0].package, "linux");
    assert_eq!(v[0].old_version, "6.6.1-1");
    assert_eq!(v[0].new_version, "6.6.2-1");
}

#[test]
fn banner_text_between_lines_skipped() {
    let out = ":: Checking for updates...\nfirefox 120.0-1 -> 121.0-1\nwarning: something\nglibc 2.38-1 -> 2.38-2\n";
    let v = parse_update_output(out);
    assert_eq!(v.len(), 2);
    assert_eq!(v[0].package, "firefox");
    assert_eq!(v[1].package, "glibc");
}

#[test]
fn order_of_lines_kept() {
    let v = parse_update_output("b 1 -> 2\na 3 -> 4\n");
    assert_eq!(v.len(), 2);
    assert_eq!(v[0].package, "b");
    assert_eq!(v[1].package, "a");
}

#[test]
fn epoch_versions_parsed_by_position() {
    let v = parse_update_output("vlc 1:3.0.20-1 -> 1:3.0.20-2");
    assert_eq!(v.len(), 1);
    assert_eq!(v[0].old_version, "1:3.0.20-1");
    assert_eq!(v[0].new_version, "1:3.0.20-2");
}

#[test]
fn arrow_must_be_second_to_last_token() {
    let v = parse_update_output("a -> b c");
    assert_eq!(v.len(), 0);
}
