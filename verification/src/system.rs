//! Probes of the local system that the checker's callers rely on.

use vstd::prelude::*;

verus! {

/// Relies on `std::path::Path::exists`: the answer reflects what is on
/// disk at the moment of the call, so nothing is promised of it.  An
/// Arch-based system is recognised by its release marker file.
#[verifier::external_body]
pub fn is_arch_linux() -> bool {
    std::path::Path::new("/etc/arch-release").exists()
}

/// Relies on `std::path::Path::is_dir`: the answer reflects what is on
/// disk at the moment of the call, so nothing is promised of it.  The
/// reboot assessment asks whether the running kernel release still has
/// its module directory installed.
#[verifier::external_body]
pub fn kernel_modules_present(release: &str) -> bool {
    std::path::Path::new(&format!("/lib/modules/{release}")).is_dir()
}

/// The rule installed for passwordless updates: it grants the given
/// user the package manager, and nothing else, without a password.
pub open spec fn sudoers_rule_spec(username: Seq<char>) -> Seq<char> {
    username + " ALL=(ALL) NOPASSWD: /usr/bin/pacman\n"@
}

/// Compose the passwordless-update rule for a user.
pub fn sudoers_rule(username: &str) -> (r: String)
    ensures
        r@ == sudoers_rule_spec(username@),
{
    let mut r = username.to_owned();
    r.append(" ALL=(ALL) NOPASSWD: /usr/bin/pacman\n");
    r
}

} // verus!
