//! The update-record model and the local update check: parsing the
//! update-listing output, merging the repository and community sources,
//! metadata enrichment, the restart denylist, and the reboot assessment.

use vstd::prelude::*;

use crate::text::{
    chars_of, contains_chars, contains_sub, split_nl, split_nl_chars, split_ws, split_ws_chars,
    str_eq, str_views, string_of, trim_chars, trim_spec,
};

verus! {

/// The mathematical content of one pending package update.
#[verifier::ext_equal]
pub ghost struct UpdateRec {
    pub package: Seq<char>,
    pub old_version: Seq<char>,
    pub new_version: Seq<char>,
    pub description: Seq<char>,
    pub repository: Seq<char>,
    pub url: Seq<char>,
}

/// One pending package update: name, versions and best-effort metadata.
#[derive(Debug, Clone, PartialEq)]
pub struct UpdateInfo {
    pub package: String,
    pub old_version: String,
    pub new_version: String,
    pub description: String,
    pub repository: String,
    pub url: String,
}

impl View for UpdateInfo {
    type V = UpdateRec;

    open spec fn view(&self) -> UpdateRec {
        UpdateRec {
            package: self.package@,
            old_version: self.old_version@,
            new_version: self.new_version@,
            description: self.description@,
            repository: self.repository@,
            url: self.url@,
        }
    }
}

/// The views of a sequence of update records.
pub open spec fn recs_of(us: Seq<UpdateInfo>) -> Seq<UpdateRec> {
    us.map_values(|u: UpdateInfo| u@)
}

/// An exact copy of an update record.
pub fn copy_update(u: &UpdateInfo) -> (r: UpdateInfo)
    ensures
        r@ == u@,
{
    UpdateInfo {
        package: u.package.clone(),
        old_version: u.old_version.clone(),
        new_version: u.new_version.clone(),
        description: u.description.clone(),
        repository: u.repository.clone(),
        url: u.url.clone(),
    }
}

/// The four-character separator that marks an update line.
pub open spec fn arrow_pad() -> Seq<char> {
    seq![' ', '-', '>', ' ']
}

/// The bare arrow token between the old and the new version.
pub open spec fn arrow_tok() -> Seq<char> {
    seq!['-', '>']
}

/// A line of update-listing output that denotes one pending update:
/// after trimming it is non-empty, contains the padded arrow, splits into
/// at least four whitespace-separated tokens, and its second-to-last
/// token is exactly the arrow.
pub open spec fn is_update_line(line: Seq<char>) -> bool {
    let t = trim_spec(line);
    let toks = split_ws(t);
    t.len() > 0 && contains_sub(t, arrow_pad()) && toks.len() >= 4 && toks[toks.len() - 2]
        == arrow_tok()
}

/// The update record denoted by a well-formed update line: the first
/// token names the package, the second is the old version, the last is
/// the new version; the metadata fields start out blank.
pub open spec fn line_update_rec(line: Seq<char>) -> UpdateRec {
    let toks = split_ws(trim_spec(line));
    UpdateRec {
        package: toks[0],
        old_version: toks[1],
        new_version: toks[toks.len() - 1],
        description: Seq::empty(),
        repository: Seq::empty(),
        url: Seq::empty(),
    }
}

/// What one line of update-listing output contributes: an update record
/// for a well-formed line, nothing for any other line.
pub open spec fn line_parse(line: Seq<char>) -> Option<UpdateRec> {
    if is_update_line(line) {
        Some(line_update_rec(line))
    } else {
        None
    }
}

/// The update records denoted by a sequence of lines: one per well-formed
/// line, in order of appearance; all other lines are skipped.
pub open spec fn parse_lines(lines: Seq<Seq<char>>) -> Seq<UpdateRec>
    decreases lines.len(),
{
    if lines.len() == 0 {
        Seq::empty()
    } else {
        match line_parse(lines.last()) {
            Some(r) => parse_lines(lines.drop_last()).push(r),
            None => parse_lines(lines.drop_last()),
        }
    }
}

/// The update records denoted by a whole update-listing output.
pub open spec fn parse_updates(s: Seq<char>) -> Seq<UpdateRec> {
    parse_lines(split_nl(s))
}

/// Parse `package old_version -> new_version` lines into a list of
/// update records, silently skipping lines of any other shape.
pub fn parse_update_output(output: &str) -> (v: Vec<UpdateInfo>)
    ensures
        recs_of(v@) == parse_updates(output@),
{
    let chars = chars_of(output);
    let lines = split_nl_chars(&chars);
    let ghost ls = crate::text::seqs_of(lines@);
    let mut v: Vec<UpdateInfo> = Vec::new();
    let mut i: usize = 0;
    proof {
        assert(ls.take(0) =~= Seq::<Seq<char>>::empty());
        assert(recs_of(v@) =~= parse_lines(ls.take(0)));
    }
    while i < lines.len()
        invariant
            i <= lines.len(),
            ls == crate::text::seqs_of(lines@),
            ls.len() == lines@.len(),
            forall|k: int| 0 <= k < lines@.len() ==> ls[k] == lines@[k]@,
            ls == split_nl(output@),
            recs_of(v@) == parse_lines(ls.take(i as int)),
        decreases lines.len() - i,
    {
        let ghost prev = v@;
        let line = &lines[i];
        let t = trim_chars(line);
        let arrow_pat: Vec<char> = vec![' ', '-', '>', ' '];
        proof {
            assert(arrow_pat@ =~= arrow_pad());
        }
        if t.len() > 0 && contains_chars(&t, &arrow_pat) {
            let toks = split_ws_chars(&t);
            let ghost tks = split_ws(t@);
            proof {
                assert(tks.len() == toks@.len());
                assert(forall|k: int|
                    0 <= k < toks@.len() ==> tks[k] == #[trigger] toks@[k]@);
            }
            let nt = toks.len();
            let mut well_formed = false;
            if nt >= 4 {
                let a = &toks[nt - 2];
                if a.len() == 2 {
                    if a[0] == '-' && a[1] == '>' {
                        well_formed = true;
                        proof {
                            assert(tks[nt - 2] =~= arrow_tok());
                        }
                    }
                }
            }
            if well_formed {
                let u = UpdateInfo {
                    package: string_of(&toks[0]),
                    old_version: string_of(&toks[1]),
                    new_version: string_of(&toks[nt - 1]),
                    description: String::new(),
                    repository: String::new(),
                    url: String::new(),
                };
                let ghost gu = u@;
                proof {
                    assert(is_update_line(ls[i as int]));
                    assert(gu =~= line_update_rec(ls[i as int]));
                }
                v.push(u);
                proof {
                    assert(recs_of(v@) =~= recs_of(prev).push(gu));
                    assert(ls.take(i + 1).drop_last() =~= ls.take(i as int));
                    assert(ls.take(i + 1).last() == ls[i as int]);
                    assert(line_parse(ls[i as int]) == Some(gu));
                    assert(parse_lines(ls.take(i + 1)) == parse_lines(ls.take(i as int)).push(
                        gu,
                    ));
                }
            } else {
                proof {
                    if is_update_line(ls[i as int]) {
                        assert(tks.len() >= 4);
                        assert(tks[tks.len() - 2] == toks@[tks.len() - 2]@);
                        assert(false);
                    }
                    assert(line_parse(ls[i as int]) is None);
                    assert(ls.take(i + 1).drop_last() =~= ls.take(i as int));
                    assert(ls.take(i + 1).last() == ls[i as int]);
                    assert(parse_lines(ls.take(i + 1)) == parse_lines(ls.take(i as int)));
                }
            }
        } else {
            proof {
                assert(!is_update_line(ls[i as int]));
                assert(line_parse(ls[i as int]) is None);
                assert(ls.take(i + 1).drop_last() =~= ls.take(i as int));
                assert(ls.take(i + 1).last() == ls[i as int]);
                assert(parse_lines(ls.take(i + 1)) == parse_lines(ls.take(i as int)));
            }
        }
        i = i + 1;
    }
    proof {
        assert(ls.take(lines@.len() as int) =~= ls);
    }
    v
}

/// The static denylist of packages whose update requires a restart or a
/// reboot: kernels, the init system, the C runtime and GPU drivers.
pub open spec fn is_restart_package(name: Seq<char>) -> bool {
    ||| name == "linux"@
    ||| name == "linux-lts"@
    ||| name == "linux-zen"@
    ||| name == "linux-hardened"@
    ||| name == "systemd"@
    ||| name == "glibc"@
    ||| name == "nvidia"@
    ||| name == "nvidia-lts"@
}

/// Executable test against the restart denylist.
pub fn restart_package(name: &str) -> (r: bool)
    ensures
        r == is_restart_package(name@),
{
    str_eq(name, "linux") || str_eq(name, "linux-lts") || str_eq(name, "linux-zen") || str_eq(
        name,
        "linux-hardened",
    ) || str_eq(name, "systemd") || str_eq(name, "glibc") || str_eq(name, "nvidia") || str_eq(
        name,
        "nvidia-lts",
    )
}

/// The denylist itself, as a list of package names.
pub fn restart_packages_list() -> (r: Vec<String>)
    ensures
        r@.len() == 8,
        forall|k: int| 0 <= k < r@.len() ==> is_restart_package(#[trigger] r@[k]@),
{
    let mut r: Vec<String> = Vec::new();
    r.push("linux".to_owned());
    r.push("linux-lts".to_owned());
    r.push("linux-zen".to_owned());
    r.push("linux-hardened".to_owned());
    r.push("systemd".to_owned());
    r.push("glibc".to_owned());
    r.push("nvidia".to_owned());
    r.push("nvidia-lts".to_owned());
    r
}

/// The package names of a sequence of update records, in order.
pub open spec fn package_names(us: Seq<UpdateRec>) -> Seq<Seq<char>>
    decreases us.len(),
{
    if us.len() == 0 {
        Seq::empty()
    } else {
        package_names(us.drop_last()).push(us.last().package)
    }
}

/// [`package_names`] lists each record's package name in place.
pub proof fn lemma_package_names_index(us: Seq<UpdateRec>)
    ensures
        package_names(us).len() == us.len(),
        forall|i: int| 0 <= i < us.len() ==> package_names(us)[i] == (#[trigger] us[i]).package,
    decreases us.len(),
{
    if us.len() != 0 {
        lemma_package_names_index(us.drop_last());
        assert forall|i: int| 0 <= i < us.len() implies package_names(us)[i] == (
        #[trigger] us[i]).package by {
            if i < us.len() - 1 {
                assert(us.drop_last()[i] == us[i]);
                assert(package_names(us)[i] == package_names(us.drop_last())[i]);
            } else {
                assert(us.last() == us[i]);
            }
        }
    }
}

/// The names from a sequence of update records that stand on the restart
/// denylist, in order, with repetitions kept.
pub open spec fn restart_names(us: Seq<UpdateRec>) -> Seq<Seq<char>>
    decreases us.len(),
{
    if us.len() == 0 {
        Seq::empty()
    } else {
        let rest = restart_names(us.drop_last());
        if is_restart_package(us.last().package) {
            rest.push(us.last().package)
        } else {
            rest
        }
    }
}

/// The restart-flag invariant: the flag holds exactly when the triggering
/// set is non-empty, and every triggering name is a denylisted package
/// name occurring in the update list.
pub open spec fn restart_invariant(
    us: Seq<UpdateRec>,
    needs_restart: bool,
    triggering: Seq<Seq<char>>,
) -> bool {
    &&& needs_restart == (triggering.len() != 0)
    &&& forall|k: int|
        0 <= k < triggering.len() ==> is_restart_package(#[trigger] triggering[k])
            && package_names(us).contains(triggering[k])
}

/// Every name selected by the denylist is a denylisted name from the
/// update list: the restart-flag invariant holds of what
/// [`restart_names`] selects.
pub proof fn lemma_restart_flag_invariant(us: Seq<UpdateRec>)
    ensures
        restart_invariant(us, restart_names(us).len() != 0, restart_names(us)),
    decreases us.len(),
{
    if us.len() != 0 {
        lemma_restart_flag_invariant(us.drop_last());
        let rest = us.drop_last();
        assert(package_names(us) == package_names(rest).push(us.last().package));
        assert(forall|k: int|
            0 <= k < package_names(rest).len() ==> package_names(us)[k] == #[trigger] package_names(
                rest,
            )[k]);
        assert(forall|n: Seq<char>|
            package_names(rest).contains(n) ==> package_names(us).contains(n));
        if is_restart_package(us.last().package) {
            assert(package_names(us).last() == us.last().package);
            assert(package_names(us).contains(us.last().package));
        }
    }
}

/// Compute the restart flag and the triggering package names of an
/// update list against the static denylist.
pub fn compute_restart(updates: &Vec<UpdateInfo>) -> (r: (bool, Vec<String>))
    ensures
        str_views(r.1@) == restart_names(recs_of(updates@)),
        r.0 == (restart_names(recs_of(updates@)).len() != 0),
        restart_invariant(recs_of(updates@), r.0, str_views(r.1@)),
{
    let ghost us = recs_of(updates@);
    let mut names: Vec<String> = Vec::new();
    let mut i: usize = 0;
    proof {
        assert(us.take(0) =~= Seq::<UpdateRec>::empty());
        assert(str_views(names@) =~= restart_names(us.take(0)));
    }
    while i < updates.len()
        invariant
            i <= updates.len(),
            us == recs_of(updates@),
            us.len() == updates@.len(),
            forall|k: int| 0 <= k < updates@.len() ==> us[k] == updates@[k]@,
            str_views(names@) == restart_names(us.take(i as int)),
        decreases updates.len() - i,
    {
        let ghost prev = names@;
        proof {
            assert(us.take(i + 1).drop_last() =~= us.take(i as int));
            assert(us.take(i + 1).last() == us[i as int]);
        }
        if restart_package(updates[i].package.as_str()) {
            names.push(updates[i].package.clone());
            proof {
                assert(str_views(names@) =~= str_views(prev).push(us[i as int].package));
            }
        }
        i = i + 1;
    }
    proof {
        assert(us.take(updates@.len() as int) =~= us);
        lemma_restart_flag_invariant(us);
    }
    let needs = names.len() > 0;
    (needs, names)
}

/// The reference URL synthesised for a community-sourced package.
pub open spec fn aur_url(name: Seq<char>) -> Seq<char> {
    "https://aur.archlinux.org/packages/"@ + name
}

/// The community source label.
pub open spec fn aur_label() -> Seq<char> {
    "aur"@
}

/// A record as re-labelled for the community source: the repository is
/// forced to the community label and the URL is synthesised from the
/// package name.
pub open spec fn aur_tagged(u: UpdateRec) -> UpdateRec {
    UpdateRec { repository: aur_label(), url: aur_url(u.package), ..u }
}

/// All records re-labelled for the community source.
pub open spec fn aur_tag_all(us: Seq<UpdateRec>) -> Seq<UpdateRec>
    decreases us.len(),
{
    if us.len() == 0 {
        Seq::empty()
    } else {
        aur_tag_all(us.drop_last()).push(aur_tagged(us.last()))
    }
}

/// Force the community source label and URL onto every record.
pub fn tag_aur(updates: &Vec<UpdateInfo>) -> (r: Vec<UpdateInfo>)
    ensures
        recs_of(r@) == aur_tag_all(recs_of(updates@)),
{
    let ghost us = recs_of(updates@);
    let mut r: Vec<UpdateInfo> = Vec::new();
    let mut i: usize = 0;
    proof {
        assert(us.take(0) =~= Seq::<UpdateRec>::empty());
        assert(recs_of(r@) =~= aur_tag_all(us.take(0)));
    }
    while i < updates.len()
        invariant
            i <= updates.len(),
            us == recs_of(updates@),
            us.len() == updates@.len(),
            forall|k: int| 0 <= k < updates@.len() ==> us[k] == updates@[k]@,
            recs_of(r@) == aur_tag_all(us.take(i as int)),
        decreases updates.len() - i,
    {
        let ghost prev = r@;
        let u = &updates[i];
        let mut url = "https://aur.archlinux.org/packages/".to_owned();
        url.append(u.package.as_str());
        let t = UpdateInfo {
            package: u.package.clone(),
            old_version: u.old_version.clone(),
            new_version: u.new_version.clone(),
            description: u.description.clone(),
            repository: "aur".to_owned(),
            url,
        };
        proof {
            assert(t@ =~= aur_tagged(us[i as int]));
        }
        r.push(t);
        proof {
            assert(us.take(i + 1).drop_last() =~= us.take(i as int));
            assert(us.take(i + 1).last() == us[i as int]);
            assert(recs_of(r@) =~= recs_of(prev).push(aur_tagged(us[i as int])));
        }
        i = i + 1;
    }
    proof {
        assert(us.take(updates@.len() as int) =~= us);
    }
    r
}

/// The views of an association list from package names to values.
pub open spec fn pair_views(ps: Seq<(String, String)>) -> Seq<(Seq<char>, Seq<char>)> {
    ps.map_values(|p: (String, String)| (p.0@, p.1@))
}

/// The views of an association list from package names to value pairs.
pub open spec fn triple_views(ps: Seq<(String, (String, String))>) -> Seq<
    (Seq<char>, (Seq<char>, Seq<char>)),
> {
    ps.map_values(|p: (String, (String, String))| (p.0@, (p.1.0@, p.1.1@)))
}

/// The value bound to `key`, the last binding winning as with repeated
/// map insertion.
pub open spec fn assoc_find<V>(ps: Seq<(Seq<char>, V)>, key: Seq<char>) -> Option<V>
    decreases ps.len(),
{
    if ps.len() == 0 {
        None
    } else if ps.last().0 == key {
        Some(ps.last().1)
    } else {
        assoc_find(ps.drop_last(), key)
    }
}

/// The view of an optional string.
pub open spec fn opt_str_view(o: Option<String>) -> Option<Seq<char>> {
    match o {
        Some(s) => Some(s@),
        None => None,
    }
}

/// The view of an optional string pair.
pub open spec fn opt_pair_view(o: Option<(String, String)>) -> Option<(Seq<char>, Seq<char>)> {
    match o {
        Some(p) => Some((p.0@, p.1@)),
        None => None,
    }
}

/// Look up a package description in an association list.
pub fn lookup_value(ps: &Vec<(String, String)>, key: &str) -> (r: Option<String>)
    ensures
        opt_str_view(r) == assoc_find(pair_views(ps@), key@),
{
    let ghost pv = pair_views(ps@);
    let mut i: usize = ps.len();
    proof {
        assert(pv.take(ps@.len() as int) =~= pv);
    }
    while i > 0
        invariant
            i <= ps@.len(),
            pv == pair_views(ps@),
            pv.len() == ps@.len(),
            forall|k: int| 0 <= k < ps@.len() ==> pv[k] == (#[trigger] ps@[k].0@, ps@[k].1@),
            assoc_find(pv, key@) == assoc_find(pv.take(i as int), key@),
        decreases i,
    {
        proof {
            assert(pv.take(i as int).drop_last() =~= pv.take(i - 1));
            assert(pv.take(i as int).last() == pv[i - 1]);
        }
        if str_eq(ps[i - 1].0.as_str(), key) {
            return Some(ps[i - 1].1.clone());
        }
        i = i - 1;
    }
    proof {
        assert(pv.take(0) =~= Seq::<(Seq<char>, Seq<char>)>::empty());
    }
    None
}

/// Look up a package's repository and architecture in an association
/// list.
pub fn lookup_value_pair(ps: &Vec<(String, (String, String))>, key: &str) -> (r: Option<
    (String, String),
>)
    ensures
        opt_pair_view(r) == assoc_find(triple_views(ps@), key@),
{
    let ghost pv = triple_views(ps@);
    let mut i: usize = ps.len();
    proof {
        assert(pv.take(ps@.len() as int) =~= pv);
    }
    while i > 0
        invariant
            i <= ps@.len(),
            pv == triple_views(ps@),
            pv.len() == ps@.len(),
            forall|k: int|
                0 <= k < ps@.len() ==> pv[k] == (#[trigger] ps@[k].0@, (ps@[k].1.0@, ps@[k].1.1@)),
            assoc_find(pv, key@) == assoc_find(pv.take(i as int), key@),
        decreases i,
    {
        proof {
            assert(pv.take(i as int).drop_last() =~= pv.take(i - 1));
            assert(pv.take(i as int).last() == pv[i - 1]);
        }
        if str_eq(ps[i - 1].0.as_str(), key) {
            return Some((ps[i - 1].1.0.clone(), ps[i - 1].1.1.clone()));
        }
        i = i - 1;
    }
    proof {
        assert(pv.take(0) =~= Seq::<(Seq<char>, (Seq<char>, Seq<char>))>::empty());
    }
    None
}

/// The value of a `field : value` line, given the length of the field
/// prefix: the text after the first colon at or beyond the prefix,
/// trimmed; nothing if the line has no colon there.
pub open spec fn colon_value(l: Seq<char>, plen: int) -> Option<Seq<char>> {
    let k = plen + crate::text::find_from(l, plen, ':');
    if k < l.len() {
        Some(trim_spec(l.subrange(k + 1, l.len() as int)))
    } else {
        None
    }
}

/// The name/description pairs of package-info output: a `Name` line
/// selects the current package, a `Description` line under a selected
/// package yields one pair.
pub open spec fn qi_pairs_from(lines: Seq<Seq<char>>, cur: Seq<char>) -> Seq<
    (Seq<char>, Seq<char>),
>
    decreases lines.len(),
{
    if lines.len() == 0 {
        Seq::empty()
    } else {
        let l = lines.first();
        let rest = lines.drop_first();
        if crate::text::starts_with(l, "Name"@) {
            match colon_value(l, 4) {
                Some(v) => qi_pairs_from(rest, v),
                None => qi_pairs_from(rest, cur),
            }
        } else if crate::text::starts_with(l, "Description"@) && cur.len() != 0 {
            match colon_value(l, 11) {
                Some(v) => seq![(cur, v)] + qi_pairs_from(rest, cur),
                None => qi_pairs_from(rest, cur),
            }
        } else {
            qi_pairs_from(rest, cur)
        }
    }
}

/// The name/description pairs denoted by a whole package-info output.
pub open spec fn parse_desc_pairs(s: Seq<char>) -> Seq<(Seq<char>, Seq<char>)> {
    qi_pairs_from(split_nl(s), Seq::empty())
}

/// The name/(repository, architecture) triples of sync-database output:
/// `Repository` and `Name` lines select the current values, an
/// `Architecture` line under a selected name yields one triple and
/// clears the name.
pub open spec fn si_triples_from(lines: Seq<Seq<char>>, repo: Seq<char>, name: Seq<char>) -> Seq<
    (Seq<char>, (Seq<char>, Seq<char>)),
>
    decreases lines.len(),
{
    if lines.len() == 0 {
        Seq::empty()
    } else {
        let l = lines.first();
        let rest = lines.drop_first();
        if crate::text::starts_with(l, "Repository"@) {
            match colon_value(l, 10) {
                Some(v) => si_triples_from(rest, v, name),
                None => si_triples_from(rest, repo, name),
            }
        } else if crate::text::starts_with(l, "Name"@) {
            match colon_value(l, 4) {
                Some(v) => si_triples_from(rest, repo, v),
                None => si_triples_from(rest, repo, name),
            }
        } else if crate::text::starts_with(l, "Architecture"@) && name.len() != 0 {
            match colon_value(l, 12) {
                Some(a) => seq![(name, (repo, a))] + si_triples_from(rest, repo, Seq::empty()),
                None => si_triples_from(rest, repo, name),
            }
        } else {
            si_triples_from(rest, repo, name)
        }
    }
}

/// The name/(repository, architecture) triples denoted by a whole
/// sync-database output.
pub open spec fn parse_repo_triples(s: Seq<char>) -> Seq<(Seq<char>, (Seq<char>, Seq<char>))> {
    si_triples_from(split_nl(s), Seq::empty(), Seq::empty())
}

/// The trimmed text after the first colon at or beyond position `plen`,
/// if the line has one.
fn colon_value_chars(l: &Vec<char>, plen: usize) -> (r: Option<String>)
    requires
        plen <= l@.len(),
    ensures
        opt_str_view(r) == colon_value(l@, plen as int),
{
    let k = crate::text::find_char(l, plen, ':');
    if k < l.len() {
        let tail = crate::text::sub_chars(l, k + 1, l.len());
        let val = trim_chars(&tail);
        Some(string_of(&val))
    } else {
        None
    }
}

/// Parse package-info output into name/description pairs, later entries
/// overriding earlier ones on lookup.
pub fn parse_descriptions(output: &str) -> (r: Vec<(String, String)>)
    ensures
        pair_views(r@) == parse_desc_pairs(output@),
{
    let chars = chars_of(output);
    let lines = split_nl_chars(&chars);
    let ghost ls = crate::text::seqs_of(lines@);
    let mut r: Vec<(String, String)> = Vec::new();
    let mut cur: String = String::new();
    let name_pat: Vec<char> = vec!['N', 'a', 'm', 'e'];
    let desc_pat: Vec<char> = vec!['D', 'e', 's', 'c', 'r', 'i', 'p', 't', 'i', 'o', 'n'];
    proof {
        reveal_strlit("Name");
        reveal_strlit("Description");
        assert(name_pat@ =~= "Name"@);
        assert(desc_pat@ =~= "Description"@);
    }
    let mut i: usize = 0;
    proof {
        assert(ls.skip(0) =~= ls);
        assert(pair_views(r@) + qi_pairs_from(ls.skip(0), cur@) =~= qi_pairs_from(ls, Seq::empty()));
    }
    while i < lines.len()
        invariant
            i <= lines.len(),
            ls == crate::text::seqs_of(lines@),
            ls.len() == lines@.len(),
            forall|k: int| 0 <= k < lines@.len() ==> ls[k] == lines@[k]@,
            ls == split_nl(output@),
            name_pat@ == "Name"@,
            desc_pat@ == "Description"@,
            name_pat@.len() == 4,
            desc_pat@.len() == 11,
            parse_desc_pairs(output@) == pair_views(r@) + qi_pairs_from(ls.skip(i as int), cur@),
        decreases lines.len() - i,
    {
        let line = &lines[i];
        let ghost prev = r@;
        proof {
            assert(ls.skip(i as int).first() == ls[i as int]);
            assert(ls.skip(i as int).drop_first() =~= ls.skip(i + 1));
        }
        if crate::text::starts_with_chars(line, &name_pat) {
            proof {
                assert(line@.len() >= name_pat@.len());
            }
            match colon_value_chars(line, 4) {
                Some(v) => {
                    cur = v;
                },
                None => {},
            }
        } else if crate::text::starts_with_chars(line, &desc_pat) && !cur.as_str().is_empty() {
            proof {
                assert(line@.len() >= desc_pat@.len());
            }
            match colon_value_chars(line, 11) {
                Some(v) => {
                    r.push((cur.clone(), v));
                    proof {
                        assert(pair_views(r@) =~= pair_views(prev).push((cur@, r@[r@.len() - 1].1@)));
                        assert(pair_views(prev) + (seq![(cur@, r@[r@.len() - 1].1@)] + qi_pairs_from(
                            ls.skip(i + 1),
                            cur@,
                        )) =~= pair_views(r@) + qi_pairs_from(ls.skip(i + 1), cur@));
                    }
                },
                None => {},
            }
        }
        i = i + 1;
    }
    proof {
        assert(ls.skip(ls.len() as int) =~= Seq::<Seq<char>>::empty());
        assert(pair_views(r@) + Seq::<(Seq<char>, Seq<char>)>::empty() =~= pair_views(r@));
    }
    r
}

/// Parse sync-database output into name/(repository, architecture)
/// triples, later entries overriding earlier ones on lookup.
pub fn parse_repositories(output: &str) -> (r: Vec<(String, (String, String))>)
    ensures
        triple_views(r@) == parse_repo_triples(output@),
{
    let chars = chars_of(output);
    let lines = split_nl_chars(&chars);
    let ghost ls = crate::text::seqs_of(lines@);
    let mut r: Vec<(String, (String, String))> = Vec::new();
    let mut repo: String = String::new();
    let mut name: String = String::new();
    let repo_pat: Vec<char> = vec!['R', 'e', 'p', 'o', 's', 'i', 't', 'o', 'r', 'y'];
    let name_pat: Vec<char> = vec!['N', 'a', 'm', 'e'];
    let arch_pat: Vec<char> = vec!['A', 'r', 'c', 'h', 'i', 't', 'e', 'c', 't', 'u', 'r', 'e'];
    proof {
        reveal_strlit("Repository");
        reveal_strlit("Name");
        reveal_strlit("Architecture");
        assert(repo_pat@ =~= "Repository"@);
        assert(name_pat@ =~= "Name"@);
        assert(arch_pat@ =~= "Architecture"@);
    }
    let mut i: usize = 0;
    proof {
        assert(ls.skip(0) =~= ls);
        assert(triple_views(r@) + si_triples_from(ls.skip(0), repo@, name@) =~= si_triples_from(
            ls,
            Seq::empty(),
            Seq::empty(),
        ));
    }
    while i < lines.len()
        invariant
            i <= lines.len(),
            ls == crate::text::seqs_of(lines@),
            ls.len() == lines@.len(),
            forall|k: int| 0 <= k < lines@.len() ==> ls[k] == lines@[k]@,
            ls == split_nl(output@),
            repo_pat@ == "Repository"@,
            name_pat@ == "Name"@,
            arch_pat@ == "Architecture"@,
            repo_pat@.len() == 10,
            name_pat@.len() == 4,
            arch_pat@.len() == 12,
            parse_repo_triples(output@) == triple_views(r@) + si_triples_from(
                ls.skip(i as int),
                repo@,
                name@,
            ),
        decreases lines.len() - i,
    {
        let line = &lines[i];
        let ghost prev = r@;
        proof {
            assert(ls.skip(i as int).first() == ls[i as int]);
            assert(ls.skip(i as int).drop_first() =~= ls.skip(i + 1));
        }
        if crate::text::starts_with_chars(line, &repo_pat) {
            proof {
                assert(line@.len() >= repo_pat@.len());
            }
            match colon_value_chars(line, 10) {
                Some(v) => {
                    repo = v;
                },
                None => {},
            }
        } else if crate::text::starts_with_chars(line, &name_pat) {
            proof {
                assert(line@.len() >= name_pat@.len());
            }
            match colon_value_chars(line, 4) {
                Some(v) => {
                    name = v;
                },
                None => {},
            }
        } else if crate::text::starts_with_chars(line, &arch_pat) && !name.as_str().is_empty() {
            proof {
                assert(line@.len() >= arch_pat@.len());
            }
            match colon_value_chars(line, 12) {
                Some(a) => {
                    let ghost ga = a@;
                    r.push((name.clone(), (repo.clone(), a)));
                    name = String::new();
                    proof {
                        assert(triple_views(r@) =~= triple_views(prev).push(
                            (r@[r@.len() - 1].0@, (repo@, ga)),
                        ));
                        assert(triple_views(prev) + (seq![(r@[r@.len() - 1].0@, (repo@, ga))]
                            + si_triples_from(ls.skip(i + 1), repo@, name@)) =~= triple_views(r@)
                            + si_triples_from(ls.skip(i + 1), repo@, name@));
                    }
                },
                None => {},
            }
        }
        i = i + 1;
    }
    proof {
        assert(ls.skip(ls.len() as int) =~= Seq::<Seq<char>>::empty());
        assert(triple_views(r@) + Seq::<(Seq<char>, (Seq<char>, Seq<char>))>::empty()
            =~= triple_views(r@));
    }
    r
}

/// The canonical reference URL of a repository package.
pub open spec fn repo_url(repo: Seq<char>, arch: Seq<char>, pkg: Seq<char>) -> Seq<char> {
    "https://archlinux.org/packages/"@ + repo + "/"@ + arch + "/"@ + pkg + "/"@
}

/// A record with the description looked up for its package applied,
/// left unchanged when the metadata has none.
pub open spec fn with_desc(d: Seq<(Seq<char>, Seq<char>)>, u: UpdateRec) -> UpdateRec {
    match assoc_find(d, u.package) {
        Some(x) => UpdateRec { description: x, ..u },
        None => u,
    }
}

/// A record with the repository and synthesised URL for its package
/// applied, left unchanged when the metadata has none.
pub open spec fn with_repo(r: Seq<(Seq<char>, (Seq<char>, Seq<char>))>, u: UpdateRec) -> UpdateRec {
    match assoc_find(r, u.package) {
        Some(p) => UpdateRec { repository: p.0, url: repo_url(p.0, p.1, u.package), ..u },
        None => u,
    }
}

/// A record enriched with both metadata lookups.
pub open spec fn enrich_rec(
    d: Seq<(Seq<char>, Seq<char>)>,
    r: Seq<(Seq<char>, (Seq<char>, Seq<char>))>,
    u: UpdateRec,
) -> UpdateRec {
    with_repo(r, with_desc(d, u))
}

/// All records enriched with both metadata lookups.
pub open spec fn enrich_all(
    d: Seq<(Seq<char>, Seq<char>)>,
    r: Seq<(Seq<char>, (Seq<char>, Seq<char>))>,
    us: Seq<UpdateRec>,
) -> Seq<UpdateRec>
    decreases us.len(),
{
    if us.len() == 0 {
        Seq::empty()
    } else {
        enrich_all(d, r, us.drop_last()).push(enrich_rec(d, r, us.last()))
    }
}

/// Enrich every update with its description and, where the sync
/// database knows the package, its repository and canonical URL.
pub fn enrich_updates(
    updates: &Vec<UpdateInfo>,
    descs: &Vec<(String, String)>,
    repos: &Vec<(String, (String, String))>,
) -> (r: Vec<UpdateInfo>)
    ensures
        recs_of(r@) == enrich_all(pair_views(descs@), triple_views(repos@), recs_of(updates@)),
{
    let ghost us = recs_of(updates@);
    let ghost dv = pair_views(descs@);
    let ghost rv = triple_views(repos@);
    let mut r: Vec<UpdateInfo> = Vec::new();
    let mut i: usize = 0;
    proof {
        assert(us.take(0) =~= Seq::<UpdateRec>::empty());
        assert(recs_of(r@) =~= enrich_all(dv, rv, us.take(0)));
    }
    while i < updates.len()
        invariant
            i <= updates.len(),
            us == recs_of(updates@),
            dv == pair_views(descs@),
            rv == triple_views(repos@),
            us.len() == updates@.len(),
            forall|k: int| 0 <= k < updates@.len() ==> us[k] == updates@[k]@,
            recs_of(r@) == enrich_all(dv, rv, us.take(i as int)),
        decreases updates.len() - i,
    {
        let ghost prev = r@;
        let u = &updates[i];
        let description = match lookup_value(descs, u.package.as_str()) {
            Some(x) => x,
            None => u.description.clone(),
        };
        let (repository, url) = match lookup_value_pair(repos, u.package.as_str()) {
            Some((rep, arch)) => {
                let mut url = "https://archlinux.org/packages/".to_owned();
                url.append(rep.as_str());
                url.append("/");
                url.append(arch.as_str());
                url.append("/");
                url.append(u.package.as_str());
                url.append("/");
                proof {
                    assert(url@ =~= repo_url(rep@, arch@, u.package@));
                }
                (rep, url)
            },
            None => (u.repository.clone(), u.url.clone()),
        };
        let t = UpdateInfo {
            package: u.package.clone(),
            old_version: u.old_version.clone(),
            new_version: u.new_version.clone(),
            description,
            repository,
            url,
        };
        proof {
            assert(t@ =~= enrich_rec(dv, rv, us[i as int]));
        }
        r.push(t);
        proof {
            assert(us.take(i + 1).drop_last() =~= us.take(i as int));
            assert(us.take(i + 1).last() == us[i as int]);
            assert(recs_of(r@) =~= recs_of(prev).push(enrich_rec(dv, rv, us[i as int])));
        }
        i = i + 1;
    }
    proof {
        assert(us.take(updates@.len() as int) =~= us);
    }
    r
}

/// The mathematical content of a reboot assessment.
#[verifier::ext_equal]
pub ghost struct RebootRec {
    pub needed: bool,
    pub running_kernel: Seq<char>,
    pub installed_kernel: Seq<char>,
}

/// The reboot assessment: whether a reboot is needed, the running kernel
/// release and the installed kernel package version.
#[derive(Debug, Clone, PartialEq)]
pub struct RebootInfo {
    pub needed: bool,
    pub running_kernel: String,
    pub installed_kernel: String,
}

impl View for RebootInfo {
    type V = RebootRec;

    open spec fn view(&self) -> RebootRec {
        RebootRec {
            needed: self.needed,
            running_kernel: self.running_kernel@,
            installed_kernel: self.installed_kernel@,
        }
    }
}

/// The kernel package corresponding to a running kernel release string,
/// by substring markers checked in this precedence: zen, hardened, lts,
/// else the base kernel.
pub open spec fn kernel_variant(running: Seq<char>) -> Seq<char> {
    if contains_sub(running, "-zen"@) {
        "linux-zen"@
    } else if contains_sub(running, "-hardened"@) {
        "linux-hardened"@
    } else if contains_sub(running, "-lts"@) {
        "linux-lts"@
    } else {
        "linux"@
    }
}

/// Infer the installed kernel package name from the running kernel
/// release string.
pub fn infer_kernel_package(running: &str) -> (r: String)
    ensures
        r@ == kernel_variant(running@),
{
    let rc = chars_of(running);
    if contains_chars(&rc, &chars_of("-zen")) {
        "linux-zen".to_owned()
    } else if contains_chars(&rc, &chars_of("-hardened")) {
        "linux-hardened".to_owned()
    } else if contains_chars(&rc, &chars_of("-lts")) {
        "linux-lts".to_owned()
    } else {
        "linux".to_owned()
    }
}

/// The second whitespace-separated token of `s`, or nothing: the version
/// column of an installed-package query line.
pub open spec fn second_token(s: Seq<char>) -> Seq<char> {
    if split_ws(s).len() >= 2 {
        split_ws(s)[1]
    } else {
        Seq::empty()
    }
}

/// Extract the version from an installed-package query line of the form
/// `package version`.
pub fn parse_installed_version(s: &str) -> (r: String)
    ensures
        r@ == second_token(s@),
{
    let chars = chars_of(s);
    let toks = split_ws_chars(&chars);
    if toks.len() >= 2 {
        proof {
            assert(crate::text::seqs_of(toks@)[1] == toks@[1]@);
        }
        string_of(&toks[1])
    } else {
        String::new()
    }
}

/// Build the reboot assessment: a reboot is needed exactly when no
/// module directory exists on disk for the running release.
pub fn make_reboot_info(running: String, modules_exist: bool, installed: String) -> (r: RebootInfo)
    ensures
        r@.needed == !modules_exist,
        r@.running_kernel == running@,
        r@.installed_kernel == installed@,
{
    RebootInfo { needed: !modules_exist, running_kernel: running, installed_kernel: installed }
}

/// The view of a repository-listing classification.
pub open spec fn listing_view(r: Result<Vec<UpdateInfo>, String>) -> Result<
    Seq<UpdateRec>,
    Seq<char>,
> {
    match r {
        Ok(v) => Ok(recs_of(v@)),
        Err(e) => Err(e@),
    }
}

/// What the repository listing denotes, by its tri-valued exit status:
/// exit 0 parses the output, exit 2 is an empty result, anything else is
/// a hard error carrying the trimmed diagnostic output.
pub open spec fn repo_listing_spec(
    exit_code: Option<i32>,
    stdout: Seq<char>,
    stderr: Seq<char>,
) -> Result<Seq<UpdateRec>, Seq<char>> {
    if exit_code == Some(0i32) {
        Ok(parse_updates(stdout))
    } else if exit_code == Some(2i32) {
        Ok(Seq::empty())
    } else {
        Err("checkupdates error: "@ + trim_spec(stderr))
    }
}

/// Classify one run of the repository update listing: exit 0 means
/// updates (parse the output), exit 2 means none, and any other exit is
/// a hard failure of the whole local check.
pub fn classify_repo_listing(exit_code: Option<i32>, stdout: &str, stderr: &str) -> (r: Result<
    Vec<UpdateInfo>,
    String,
>)
    ensures
        listing_view(r) == repo_listing_spec(exit_code, stdout@, stderr@),
{
    match exit_code {
        Some(0i32) => Ok(parse_update_output(stdout)),
        Some(2i32) => {
            let v: Vec<UpdateInfo> = Vec::new();
            proof {
                assert(recs_of(v@) =~= Seq::<UpdateRec>::empty());
            }
            Ok(v)
        },
        _ => {
            let sc = chars_of(stderr);
            let t = trim_chars(&sc);
            let ts = string_of(&t);
            let mut msg = "checkupdates error: ".to_owned();
            msg.append(ts.as_str());
            Err(msg)
        },
    }
}

/// What the community listing denotes: updates only on a successful exit
/// with non-blank output, with the community label and URL forced onto
/// every record; anything else means no community updates.
pub open spec fn aur_listing_spec(success: bool, stdout: Seq<char>) -> Seq<UpdateRec> {
    if success && trim_spec(stdout).len() != 0 {
        aur_tag_all(parse_updates(stdout))
    } else {
        Seq::empty()
    }
}

/// Classify one run of the community update listing; a failure here is
/// tolerated and yields no updates.
pub fn classify_aur_listing(success: bool, stdout: &str) -> (r: Vec<UpdateInfo>)
    ensures
        recs_of(r@) == aur_listing_spec(success, stdout@),
{
    if success {
        let sc = chars_of(stdout);
        let t = trim_chars(&sc);
        if t.len() > 0 {
            let parsed = parse_update_output(stdout);
            return tag_aur(&parsed);
        }
    }
    let v: Vec<UpdateInfo> = Vec::new();
    proof {
        assert(recs_of(v@) =~= Seq::<UpdateRec>::empty());
    }
    v
}

/// The mathematical content of one local check outcome.
#[verifier::ext_equal]
pub ghost struct CheckRec {
    pub updates: Seq<UpdateRec>,
    pub needs_restart: bool,
    pub restart_packages: Seq<Seq<char>>,
    pub reboot_info: Option<RebootRec>,
}

/// One local check outcome: the merged update list, the restart flag
/// with its triggering package names, and the reboot assessment.
#[derive(Debug, Clone, PartialEq)]
pub struct CheckResult {
    pub updates: Vec<UpdateInfo>,
    pub needs_restart: bool,
    pub restart_packages: Vec<String>,
    pub reboot_info: Option<RebootInfo>,
}

/// The view of an optional reboot assessment.
pub open spec fn opt_reboot_view(o: Option<RebootInfo>) -> Option<RebootRec> {
    match o {
        Some(x) => Some(x@),
        None => None,
    }
}

impl View for CheckResult {
    type V = CheckRec;

    open spec fn view(&self) -> CheckRec {
        CheckRec {
            updates: recs_of(self.updates@),
            needs_restart: self.needs_restart,
            restart_packages: str_views(self.restart_packages@),
            reboot_info: opt_reboot_view(self.reboot_info),
        }
    }
}

/// The restart-flag invariant, stated of a whole check outcome.
pub open spec fn check_result_wf(c: CheckRec) -> bool {
    restart_invariant(c.updates, c.needs_restart, c.restart_packages)
}

/// Merge the repository and community update lists, apply the metadata
/// enrichment, and compute the restart flag against the denylist.
pub fn assemble_check_result(
    repo_updates: Vec<UpdateInfo>,
    aur_updates: Vec<UpdateInfo>,
    descs: &Vec<(String, String)>,
    repos: &Vec<(String, (String, String))>,
    reboot_info: Option<RebootInfo>,
) -> (r: CheckResult)
    ensures
        r@.updates == enrich_all(
            pair_views(descs@),
            triple_views(repos@),
            recs_of(repo_updates@) + recs_of(aur_updates@),
        ),
        r@.restart_packages == restart_names(r@.updates),
        r@.needs_restart == (restart_names(r@.updates).len() != 0),
        check_result_wf(r@),
        r@.reboot_info == opt_reboot_view(reboot_info),
{
    let ghost grepo = repo_updates@;
    let ghost gaur = aur_updates@;
    let mut all = repo_updates;
    let mut aur = aur_updates;
    all.append(&mut aur);
    proof {
        assert(recs_of(all@) =~= recs_of(grepo) + recs_of(gaur));
    }
    let enriched = enrich_updates(&all, descs, repos);
    let (needs_restart, restart_packages) = compute_restart(&enriched);
    CheckResult { updates: enriched, needs_restart, restart_packages, reboot_info }
}

} // verus!
