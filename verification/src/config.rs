//! The configuration model: default values, the normalisation applied
//! after loading a stored configuration, and terminal detection.

use vstd::prelude::*;

use crate::tailscale::strip_tag;
use crate::text::{
    chars_of, contains_chars, contains_sub, join_all, join_with, split_char, split_char_chars,
    str_views, string_of, trim_chars, trim_spec,
};

verus! {

/// The mathematical content of the configuration.
#[verifier::ext_equal]
pub ghost struct ConfigRec {
    pub check_interval_minutes: u32,
    pub notify: Seq<char>,
    pub terminal: Seq<char>,
    pub noconfirm: bool,
    pub autostart: bool,
    pub animations: bool,
    pub recheck_interval_minutes: u32,
    pub passwordless_updates: bool,
    pub tailscale_enabled: bool,
    pub tailscale_tags: Seq<char>,
    pub tailscale_timeout: u32,
}

/// The user-visible configuration: check cadence, notification mode,
/// terminal emulator, animation and fleet-checking switches.
#[derive(Debug, Clone, PartialEq)]
pub struct AppConfig {
    pub check_interval_minutes: u32,
    pub notify: String,
    pub terminal: String,
    pub noconfirm: bool,
    pub autostart: bool,
    pub animations: bool,
    pub recheck_interval_minutes: u32,
    pub passwordless_updates: bool,
    pub tailscale_enabled: bool,
    pub tailscale_tags: String,
    pub tailscale_timeout: u32,
}

impl View for AppConfig {
    type V = ConfigRec;

    open spec fn view(&self) -> ConfigRec {
        ConfigRec {
            check_interval_minutes: self.check_interval_minutes,
            notify: self.notify@,
            terminal: self.terminal@,
            noconfirm: self.noconfirm,
            autostart: self.autostart,
            animations: self.animations,
            recheck_interval_minutes: self.recheck_interval_minutes,
            passwordless_updates: self.passwordless_updates,
            tailscale_enabled: self.tailscale_enabled,
            tailscale_tags: self.tailscale_tags@,
            tailscale_timeout: self.tailscale_timeout,
        }
    }
}

/// The default check interval, in minutes.
pub fn default_interval() -> (r: u32)
    ensures
        r == 60,
{
    60
}

/// The default notification mode.
pub fn default_notify() -> (r: String)
    ensures
        r@ == "new_only"@,
{
    "new_only".to_owned()
}

/// The default for switches that start out enabled.
pub fn default_true() -> (r: bool)
    ensures
        r,
{
    true
}

/// The default re-check interval, in minutes.
pub fn default_recheck() -> (r: u32)
    ensures
        r == 5,
{
    5
}

/// The default fleet tag filter.
pub fn default_tags() -> (r: String)
    ensures
        r@ == "server,arch"@,
{
    "server,arch".to_owned()
}

/// The default fleet connect timeout, in seconds.
pub fn default_timeout() -> (r: u32)
    ensures
        r == 10,
{
    10
}

/// Relies on `which::which`: it returns `Ok` exactly when an executable
/// with the given name is found on the search path.  The search depends
/// on the environment, so nothing is promised of the result.
#[verifier::external_body]
fn binary_on_path(name: &str) -> bool {
    which::which(name).is_ok()
}

/// The terminal emulators probed for, in order of preference.
pub open spec fn terminal_candidates() -> Seq<Seq<char>> {
    seq!["kitty"@, "alacritty"@, "konsole"@, "foot"@, "xterm"@]
}

/// Probe the search path for a known terminal emulator, in order of
/// preference; an empty result means none was found.
pub fn detect_terminal() -> (r: String)
    ensures
        r@.len() == 0 || terminal_candidates().contains(r@),
{
    if binary_on_path("kitty") {
        proof {
            assert(terminal_candidates()[0] == "kitty"@);
        }
        return "kitty".to_owned();
    }
    if binary_on_path("alacritty") {
        proof {
            assert(terminal_candidates()[1] == "alacritty"@);
        }
        return "alacritty".to_owned();
    }
    if binary_on_path("konsole") {
        proof {
            assert(terminal_candidates()[2] == "konsole"@);
        }
        return "konsole".to_owned();
    }
    if binary_on_path("foot") {
        proof {
            assert(terminal_candidates()[3] == "foot"@);
        }
        return "foot".to_owned();
    }
    if binary_on_path("xterm") {
        proof {
            assert(terminal_candidates()[4] == "xterm"@);
        }
        return "xterm".to_owned();
    }
    let r = String::new();
    r
}

/// The comma-separated parts of a tag list, each trimmed and with any
/// `tag:` decoration removed, in order.
pub open spec fn migrated_parts(ps: Seq<Seq<char>>) -> Seq<Seq<char>>
    decreases ps.len(),
{
    if ps.len() == 0 {
        Seq::empty()
    } else {
        migrated_parts(ps.drop_last()).push(strip_tag(trim_spec(ps.last())))
    }
}

/// A stored tag list normalised from the older decorated form: when any
/// `tag:` decoration occurs, every comma-separated entry is trimmed and
/// stripped and the list re-joined; otherwise the list is unchanged.
pub open spec fn migrate_tags(s: Seq<char>) -> Seq<char> {
    if contains_sub(s, "tag:"@) {
        join_with(migrated_parts(split_char(s, ',')), ","@)
    } else {
        s
    }
}

/// Normalise a stored tag list.
fn migrate_tag_list(tags: &str) -> (r: String)
    ensures
        r@ == migrate_tags(tags@),
{
    let tc = chars_of(tags);
    let pat: Vec<char> = vec!['t', 'a', 'g', ':'];
    proof {
        reveal_strlit("tag:");
        assert(pat@ =~= "tag:"@);
    }
    if contains_chars(&tc, &pat) {
        let parts = split_char_chars(&tc, ',');
        let ghost ps = crate::text::seqs_of(parts@);
        let mut cleaned: Vec<String> = Vec::new();
        let mut i: usize = 0;
        proof {
            assert(ps.take(0) =~= Seq::<Seq<char>>::empty());
            assert(str_views(cleaned@) =~= migrated_parts(ps.take(0)));
        }
        while i < parts.len()
            invariant
                i <= parts@.len(),
                ps == crate::text::seqs_of(parts@),
                ps.len() == parts@.len(),
                forall|k: int| 0 <= k < parts@.len() ==> ps[k] == parts@[k]@,
                str_views(cleaned@) == migrated_parts(ps.take(i as int)),
            decreases parts.len() - i,
        {
            let ghost prev = cleaned@;
            let t = trim_chars(&parts[i]);
            let ts = string_of(&t);
            let stripped = crate::tailscale::strip_tag_prefix(ts.as_str());
            cleaned.push(stripped);
            proof {
                assert(ps.take(i + 1).drop_last() =~= ps.take(i as int));
                assert(ps.take(i + 1).last() == ps[i as int]);
                assert(str_views(cleaned@) =~= str_views(prev).push(strip_tag(trim_spec(
                    ps[i as int],
                ))));
            }
            i = i + 1;
        }
        proof {
            assert(ps.take(parts@.len() as int) =~= ps);
        }
        join_all(&cleaned, ",")
    } else {
        tags.to_owned()
    }
}

impl AppConfig {
    /// Normalisation applied to a configuration after loading it from
    /// storage: the tag list loses its older `tag:` decoration, and an
    /// unset terminal is filled in by probing the search path.
    pub fn post_load(&mut self)
        ensures
            final(self)@.tailscale_tags == migrate_tags(old(self)@.tailscale_tags),
            old(self)@.terminal.len() != 0 ==> final(self)@.terminal == old(self)@.terminal,
            old(self)@.terminal.len() == 0 ==> (final(self)@.terminal.len() == 0
                || terminal_candidates().contains(final(self)@.terminal)),
            final(self)@ == (ConfigRec {
                tailscale_tags: final(self)@.tailscale_tags,
                terminal: final(self)@.terminal,
                ..old(self)@
            }),
    {
        let migrated = migrate_tag_list(self.tailscale_tags.as_str());
        self.tailscale_tags = migrated;
        if self.terminal.as_str().is_empty() {
            self.terminal = detect_terminal();
        }
    }
}

impl Default for AppConfig {
    /// The configuration before anything is stored: hourly checks,
    /// notifications for newly appeared updates only, animations on,
    /// fleet checking off, and a terminal probed from the search path.
    fn default() -> (r: AppConfig)
        ensures
            r@.check_interval_minutes == 60,
            r@.notify == "new_only"@,
            r@.terminal.len() == 0 || terminal_candidates().contains(r@.terminal),
            !r@.noconfirm,
            !r@.autostart,
            r@.animations,
            r@.recheck_interval_minutes == 5,
            !r@.passwordless_updates,
            !r@.tailscale_enabled,
            r@.tailscale_tags == "server,arch"@,
            r@.tailscale_timeout == 10,
    {
        AppConfig {
            check_interval_minutes: 60,
            notify: "new_only".to_owned(),
            terminal: detect_terminal(),
            noconfirm: false,
            autostart: false,
            animations: true,
            recheck_interval_minutes: 5,
            passwordless_updates: false,
            tailscale_enabled: false,
            tailscale_tags: "server,arch".to_owned(),
            tailscale_timeout: 10,
        }
    }
}

} // verus!
