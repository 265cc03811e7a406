//! Building the command lines that launch update and removal
//! operations in a terminal emulator, for the user to observe.

use vstd::prelude::*;

use crate::text::{str_eq, str_views};

verus! {

/// The launch prefix for a terminal emulator: known emulators get their
/// hold-open flags, an unknown one is invoked with `-e`.
pub open spec fn terminal_prefix_spec(name: Seq<char>) -> Seq<Seq<char>> {
    if name == "kitty"@ {
        seq!["kitty"@, "--hold"@]
    } else if name == "konsole"@ {
        seq!["konsole"@, "--hold"@, "-e"@]
    } else if name == "alacritty"@ {
        seq!["alacritty"@, "--hold"@, "-e"@]
    } else if name == "foot"@ {
        seq!["foot"@, "--hold"@]
    } else if name == "xterm"@ {
        seq!["xterm"@, "-hold"@, "-e"@]
    } else {
        seq![name, "-e"@]
    }
}

/// The table of launch prefixes for the known terminal emulators.
pub fn terminal_cmds() -> (r: Vec<(String, Vec<String>)>)
    ensures
        r@.len() == 5,
        forall|k: int|
            0 <= k < r@.len() ==> str_views((#[trigger] r@[k]).1@) == terminal_prefix_spec(
                r@[k].0@,
            ),
{
    let mut r: Vec<(String, Vec<String>)> = Vec::new();
    let mut kitty: Vec<String> = Vec::new();
    kitty.push("kitty".to_owned());
    kitty.push("--hold".to_owned());
    proof {
        assert(str_views(kitty@) =~= terminal_prefix_spec("kitty"@));
    }
    r.push(("kitty".to_owned(), kitty));
    let mut konsole: Vec<String> = Vec::new();
    konsole.push("konsole".to_owned());
    konsole.push("--hold".to_owned());
    konsole.push("-e".to_owned());
    proof {
        reveal_strlit("konsole");
        reveal_strlit("kitty");
        assert("konsole"@.len() == 7);
        assert("kitty"@.len() == 5);
        assert("konsole"@ != "kitty"@);
        assert(str_views(konsole@) =~= terminal_prefix_spec("konsole"@));
    }
    r.push(("konsole".to_owned(), konsole));
    let mut alacritty: Vec<String> = Vec::new();
    alacritty.push("alacritty".to_owned());
    alacritty.push("--hold".to_owned());
    alacritty.push("-e".to_owned());
    proof {
        reveal_strlit("alacritty");
        assert("alacritty"@ != "kitty"@ && "alacritty"@ != "konsole"@);
        assert(str_views(alacritty@) =~= terminal_prefix_spec("alacritty"@));
    }
    r.push(("alacritty".to_owned(), alacritty));
    let mut foot: Vec<String> = Vec::new();
    foot.push("foot".to_owned());
    foot.push("--hold".to_owned());
    proof {
        reveal_strlit("foot");
        assert("foot"@.len() == 4);
        assert("foot"@ != "kitty"@ && "foot"@ != "konsole"@ && "foot"@ != "alacritty"@);
        assert(str_views(foot@) =~= terminal_prefix_spec("foot"@));
    }
    r.push(("foot".to_owned(), foot));
    let mut xterm: Vec<String> = Vec::new();
    xterm.push("xterm".to_owned());
    xterm.push("-hold".to_owned());
    xterm.push("-e".to_owned());
    proof {
        reveal_strlit("xterm");
        assert("xterm"@.len() == 5);
        assert("xterm"@[0] == 'x');
        assert("kitty"@[0] == 'k');
        assert("xterm"@ != "kitty"@ && "xterm"@ != "konsole"@ && "xterm"@ != "alacritty"@
            && "xterm"@ != "foot"@);
        assert(str_views(xterm@) =~= terminal_prefix_spec("xterm"@));
    }
    r.push(("xterm".to_owned(), xterm));
    r
}

/// The launch prefix for the configured terminal emulator.
pub fn get_terminal_prefix(terminal: &str) -> (r: Vec<String>)
    ensures
        str_views(r@) == terminal_prefix_spec(terminal@),
{
    let mut r: Vec<String> = Vec::new();
    if str_eq(terminal, "kitty") {
        r.push("kitty".to_owned());
        r.push("--hold".to_owned());
    } else if str_eq(terminal, "konsole") {
        r.push("konsole".to_owned());
        r.push("--hold".to_owned());
        r.push("-e".to_owned());
    } else if str_eq(terminal, "alacritty") {
        r.push("alacritty".to_owned());
        r.push("--hold".to_owned());
        r.push("-e".to_owned());
    } else if str_eq(terminal, "foot") {
        r.push("foot".to_owned());
        r.push("--hold".to_owned());
    } else if str_eq(terminal, "xterm") {
        r.push("xterm".to_owned());
        r.push("-hold".to_owned());
        r.push("-e".to_owned());
    } else {
        r.push(terminal.to_owned());
        r.push("-e".to_owned());
    }
    proof {
        assert(str_views(r@) =~= terminal_prefix_spec(terminal@));
    }
    r
}

/// The shell command that performs a local system update, with the
/// optional non-interactive flag and the optional reboot chained on.
pub open spec fn local_update_shell_spec(noconfirm: bool, restart: bool) -> Seq<char> {
    "yay -Syu"@ + (if noconfirm {
        " --noconfirm"@
    } else {
        Seq::empty()
    }) + (if restart {
        " && sudo reboot"@
    } else {
        Seq::empty()
    })
}

/// The full command line that launches a local system update in the
/// configured terminal: with a reboot chained on, the update runs under
/// a shell; otherwise the updater is invoked directly.
pub open spec fn local_update_cmd_spec(
    terminal: Seq<char>,
    noconfirm: bool,
    restart: bool,
) -> Seq<Seq<char>> {
    terminal_prefix_spec(terminal) + (if restart {
        seq!["bash"@, "-c"@, local_update_shell_spec(noconfirm, true)]
    } else if noconfirm {
        seq!["yay"@, "-Syu"@, "--noconfirm"@]
    } else {
        seq!["yay"@, "-Syu"@]
    })
}

/// Build the command line that launches a local system update.
pub fn build_local_update_cmd(terminal: &str, noconfirm: bool, restart: bool) -> (r: Vec<String>)
    ensures
        str_views(r@) == local_update_cmd_spec(terminal@, noconfirm, restart),
{
    let mut r = get_terminal_prefix(terminal);
    let ghost prefix = str_views(r@);
    if restart {
        let mut cmd = "yay -Syu".to_owned();
        if noconfirm {
            cmd.append(" --noconfirm");
        }
        cmd.append(" && sudo reboot");
        proof {
            assert(cmd@ =~= local_update_shell_spec(noconfirm, true));
        }
        r.push("bash".to_owned());
        r.push("-c".to_owned());
        r.push(cmd);
    } else {
        r.push("yay".to_owned());
        r.push("-Syu".to_owned());
        if noconfirm {
            r.push("--noconfirm".to_owned());
        }
    }
    proof {
        assert(str_views(r@) =~= local_update_cmd_spec(terminal@, noconfirm, restart));
    }
    r
}

/// The shell command run on a remote host to update it, with the
/// optional non-interactive flag and the optional reboot chained on.
pub open spec fn remote_update_shell_spec(noconfirm: bool, restart: bool) -> Seq<char> {
    "sudo pacman -Syu"@ + (if noconfirm {
        " --noconfirm"@
    } else {
        Seq::empty()
    }) + (if restart {
        " && sudo reboot"@
    } else {
        Seq::empty()
    })
}

/// The full command line that launches a remote system update in the
/// configured terminal, over a remote shell.
pub open spec fn remote_update_cmd_spec(
    terminal: Seq<char>,
    hostname: Seq<char>,
    noconfirm: bool,
    restart: bool,
) -> Seq<Seq<char>> {
    terminal_prefix_spec(terminal) + seq![
        "ssh"@,
        hostname,
        remote_update_shell_spec(noconfirm, restart),
    ]
}

/// Build the command line that launches a remote system update.
pub fn build_remote_update_cmd(
    terminal: &str,
    hostname: &str,
    noconfirm: bool,
    restart: bool,
) -> (r: Vec<String>)
    ensures
        str_views(r@) == remote_update_cmd_spec(terminal@, hostname@, noconfirm, restart),
{
    let mut r = get_terminal_prefix(terminal);
    let mut cmd = "sudo pacman -Syu".to_owned();
    if noconfirm {
        cmd.append(" --noconfirm");
    }
    if restart {
        cmd.append(" && sudo reboot");
    }
    proof {
        assert(cmd@ =~= remote_update_shell_spec(noconfirm, restart));
    }
    r.push("ssh".to_owned());
    r.push(hostname.to_owned());
    r.push(cmd);
    proof {
        assert(str_views(r@) =~= remote_update_cmd_spec(terminal@, hostname@, noconfirm, restart));
    }
    r
}

/// The full command line that launches a package removal in the
/// configured terminal, with the given removal flags.
pub open spec fn remove_cmd_spec(
    terminal: Seq<char>,
    package: Seq<char>,
    flags: Seq<char>,
    noconfirm: bool,
) -> Seq<Seq<char>> {
    terminal_prefix_spec(terminal) + seq!["yay"@, "-"@ + flags, package] + (if noconfirm {
        seq!["--noconfirm"@]
    } else {
        Seq::empty()
    })
}

/// Build the command line that launches a package removal.
pub fn build_remove_cmd(terminal: &str, package: &str, flags: &str, noconfirm: bool) -> (r: Vec<
    String,
>)
    ensures
        str_views(r@) == remove_cmd_spec(terminal@, package@, flags@, noconfirm),
{
    let mut r = get_terminal_prefix(terminal);
    let mut flagarg = "-".to_owned();
    flagarg.append(flags);
    r.push("yay".to_owned());
    r.push(flagarg);
    r.push(package.to_owned());
    if noconfirm {
        r.push("--noconfirm".to_owned());
    }
    proof {
        assert(str_views(r@) =~= remove_cmd_spec(terminal@, package@, flags@, noconfirm));
    }
    r
}

} // verus!
