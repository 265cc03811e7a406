//! Fleet probing over the mesh network: discovering eligible peers by
//! tag filter, classifying per-host probe outcomes, and ordering the
//! aggregated result deterministically by hostname.

use vstd::prelude::*;

use crate::checker::{recs_of, UpdateInfo};
use vstd::multiset::Multiset;
use crate::text::{
    chars_of, seq_sorted, sort_strings, starts_with, starts_with_chars, str_views, string_of,
    strings_contain, sub_chars,
};

verus! {

/// The mathematical content of one mesh peer.
#[verifier::ext_equal]
pub ghost struct PeerRec {
    pub online: bool,
    pub tags: Seq<Seq<char>>,
    pub hostname: Seq<char>,
}

/// One peer from the mesh membership view: its online flag, its tag set
/// and its hostname.
#[derive(Debug, Clone, PartialEq)]
pub struct Peer {
    pub online: bool,
    pub tags: Vec<String>,
    pub hostname: String,
}

impl View for Peer {
    type V = PeerRec;

    open spec fn view(&self) -> PeerRec {
        PeerRec { online: self.online, tags: str_views(self.tags@), hostname: self.hostname@ }
    }
}

/// The views of a sequence of peers.
pub open spec fn peer_views(ps: Seq<Peer>) -> Seq<PeerRec> {
    ps.map_values(|p: Peer| p@)
}

/// A tag name with any `tag:` prefix decoration removed.
pub open spec fn strip_tag(t: Seq<char>) -> Seq<char> {
    if starts_with(t, "tag:"@) {
        t.skip(4)
    } else {
        t
    }
}

/// Remove the `tag:` prefix decoration from a tag, if present.
pub fn strip_tag_prefix(t: &str) -> (r: String)
    ensures
        r@ == strip_tag(t@),
{
    let tc = chars_of(t);
    let pat: Vec<char> = vec!['t', 'a', 'g', ':'];
    proof {
        reveal_strlit("tag:");
        assert(pat@ =~= "tag:"@);
    }
    if starts_with_chars(&tc, &pat) {
        let rest = sub_chars(&tc, 4, tc.len());
        proof {
            assert(tc@.subrange(4, tc@.len() as int) =~= t@.skip(4));
        }
        string_of(&rest)
    } else {
        t.to_owned()
    }
}

/// Some peer carries a tag whose stripped name is `x`.
pub open spec fn has_tag_name(peers: Seq<PeerRec>, x: Seq<char>) -> bool {
    exists|i: int, j: int|
        0 <= i < peers.len() && 0 <= j < peers[i].tags.len() && strip_tag(
            #[trigger] peers[i].tags[j],
        ) == x
}

/// Collect the distinct stripped tag names carried by any peer, in
/// ascending lexicographic order.
pub fn collect_tag_names(peers: &Vec<Peer>) -> (r: Vec<String>)
    ensures
        seq_sorted(str_views(r@)),
        str_views(r@).no_duplicates(),
        forall|x: Seq<char>|
            #[trigger] str_views(r@).contains(x) <==> has_tag_name(peer_views(peers@), x),
{
    let ghost pv = peer_views(peers@);
    let mut acc: Vec<String> = Vec::new();
    let mut i: usize = 0;
    while i < peers.len()
        invariant
            i <= peers@.len(),
            pv == peer_views(peers@),
            pv.len() == peers@.len(),
            forall|k: int| 0 <= k < peers@.len() ==> pv[k] == peers@[k]@,
            str_views(acc@).no_duplicates(),
            forall|x: Seq<char>|
                #[trigger] str_views(acc@).contains(x) <==> (exists|a: int, b: int|
                    0 <= a < i && 0 <= b < pv[a].tags.len() && strip_tag(#[trigger] pv[a].tags[b])
                        == x),
        decreases peers.len() - i,
    {
        let peer = &peers[i];
        let mut j: usize = 0;
        while j < peer.tags.len()
            invariant
                i < peers@.len(),
                j <= peer.tags@.len(),
                peer == &peers@[i as int],
                pv == peer_views(peers@),
                pv.len() == peers@.len(),
                forall|k: int| 0 <= k < peers@.len() ==> pv[k] == peers@[k]@,
                pv[i as int].tags.len() == peer.tags@.len(),
                forall|k: int|
                    0 <= k < peer.tags@.len() ==> pv[i as int].tags[k] == #[trigger] peer.tags@[k]@,
                str_views(acc@).no_duplicates(),
                forall|x: Seq<char>|
                    #[trigger] str_views(acc@).contains(x) <==> ((exists|a: int, b: int|
                        0 <= a < i && 0 <= b < pv[a].tags.len() && strip_tag(
                            #[trigger] pv[a].tags[b],
                        ) == x) || (exists|b: int|
                        0 <= b < j && strip_tag(#[trigger] pv[i as int].tags[b]) == x)),
            decreases peer.tags@.len() - j,
        {
            let name = strip_tag_prefix(peer.tags[j].as_str());
            let ghost gname = name@;
            let ghost prevacc = acc@;
            if !strings_contain(&acc, name.as_str()) {
                acc.push(name);
                proof {
                    assert(str_views(acc@) =~= str_views(prevacc).push(gname));
                    assert forall|x: Seq<char>| #[trigger] str_views(acc@).contains(x) <==> (
                    str_views(prevacc).contains(x) || x == gname) by {
                        vstd::seq_lib::lemma_seq_contains_after_push(
                            str_views(prevacc),
                            gname,
                            x,
                        );
                    }
                }
            }
            proof {
                assert(strip_tag(pv[i as int].tags[j as int]) == gname);
            }
            j = j + 1;
        }
        i = i + 1;
    }
    let r = sort_strings(&acc);
    proof {
        assert forall|x: Seq<char>|
            #[trigger] str_views(r@).contains(x) <==> str_views(acc@).contains(x) by {
            str_views(r@).to_multiset_ensures();
            str_views(acc@).to_multiset_ensures();
            assert(str_views(r@).to_multiset().count(x) == str_views(acc@).to_multiset().count(x));
        }
        str_views(acc@).lemma_multiset_has_no_duplicates();
        str_views(r@).lemma_multiset_has_no_duplicates_conv();
    }
    r
}

/// The configured tags, each decorated with the `tag:` prefix the mesh
/// uses.
pub open spec fn prefixed_tags(tags: Seq<Seq<char>>) -> Seq<Seq<char>> {
    tags.map_values(|t: Seq<char>| "tag:"@ + t)
}

/// A peer eligible for probing: online, with a hostname, and carrying
/// every required tag.
pub open spec fn peer_eligible(p: PeerRec, req: Seq<Seq<char>>) -> bool {
    p.online && p.hostname.len() != 0 && forall|k: int|
        0 <= k < req.len() ==> p.tags.contains(#[trigger] req[k])
}

/// The hostnames of the eligible peers, in membership order.
pub open spec fn eligible_hostnames(peers: Seq<PeerRec>, req: Seq<Seq<char>>) -> Seq<Seq<char>>
    decreases peers.len(),
{
    if peers.len() == 0 {
        Seq::empty()
    } else {
        let rest = eligible_hostnames(peers.drop_last(), req);
        if peer_eligible(peers.last(), req) {
            rest.push(peers.last().hostname)
        } else {
            rest
        }
    }
}

/// Does the peer carry every required tag?
fn all_tags_present(peer: &Peer, required: &Vec<String>) -> (r: bool)
    ensures
        r == (forall|k: int|
            0 <= k < str_views(required@).len() ==> peer@.tags.contains(
                #[trigger] str_views(required@)[k],
            )),
{
    let mut k: usize = 0;
    while k < required.len()
        invariant
            k <= required@.len(),
            forall|q: int| 0 <= q < k ==> peer@.tags.contains(#[trigger] str_views(required@)[q]),
        decreases required.len() - k,
    {
        if !strings_contain(&peer.tags, required[k].as_str()) {
            proof {
                assert(!peer@.tags.contains(str_views(required@)[k as int]));
            }
            return false;
        }
        k = k + 1;
    }
    true
}

/// Discover the probe candidates: the hostnames of all online peers
/// whose tag set includes every required tag (after `tag:` decoration),
/// in ascending order.
pub fn discover_peers(peers: &Vec<Peer>, tags: &Vec<String>) -> (r: Vec<String>)
    ensures
        seq_sorted(str_views(r@)),
        str_views(r@).to_multiset() == eligible_hostnames(
            peer_views(peers@),
            prefixed_tags(str_views(tags@)),
        ).to_multiset(),
{
    let mut required: Vec<String> = Vec::new();
    let mut i: usize = 0;
    while i < tags.len()
        invariant
            i <= tags@.len(),
            str_views(required@).len() == i as int,
            forall|k: int|
                0 <= k < i ==> str_views(required@)[k] == "tag:"@ + #[trigger] str_views(tags@)[k],
        decreases tags.len() - i,
    {
        let ghost prevreq = required@;
        let mut s = "tag:".to_owned();
        s.append(tags[i].as_str());
        required.push(s);
        proof {
            assert(str_views(required@) =~= str_views(prevreq).push("tag:"@ + tags@[i as int]@));
        }
        i = i + 1;
    }
    let ghost req = prefixed_tags(str_views(tags@));
    proof {
        assert(req.len() == str_views(required@).len());
        assert(forall|k: int| 0 <= k < req.len() ==> req[k] == #[trigger] str_views(required@)[k]);
        assert(req =~= str_views(required@));
    }
    let ghost pv = peer_views(peers@);
    let mut hostnames: Vec<String> = Vec::new();
    let mut p: usize = 0;
    proof {
        assert(pv.take(0) =~= Seq::<PeerRec>::empty());
        assert(str_views(hostnames@) =~= eligible_hostnames(pv.take(0), req));
    }
    while p < peers.len()
        invariant
            p <= peers@.len(),
            pv == peer_views(peers@),
            pv.len() == peers@.len(),
            forall|k: int| 0 <= k < peers@.len() ==> pv[k] == peers@[k]@,
            req == str_views(required@),
            req == prefixed_tags(str_views(tags@)),
            str_views(hostnames@) == eligible_hostnames(pv.take(p as int), req),
        decreases peers.len() - p,
    {
        let peer = &peers[p];
        let ghost prevh = hostnames@;
        proof {
            assert(pv.take(p + 1).drop_last() =~= pv.take(p as int));
            assert(pv.take(p + 1).last() == pv[p as int]);
        }
        if peer.online && !peer.hostname.as_str().is_empty() && all_tags_present(peer, &required) {
            hostnames.push(peer.hostname.clone());
            proof {
                assert(peer_eligible(pv[p as int], req));
                assert(str_views(hostnames@) =~= str_views(prevh).push(pv[p as int].hostname));
            }
        } else {
            proof {
                assert(!peer_eligible(pv[p as int], req));
            }
        }
        p = p + 1;
    }
    proof {
        assert(pv.take(peers@.len() as int) =~= pv);
    }
    sort_strings(&hostnames)
}

/// The mathematical content of one host probe outcome.
#[verifier::ext_equal]
pub ghost struct HostRec {
    pub hostname: Seq<char>,
    pub updates: Seq<crate::checker::UpdateRec>,
    pub needs_restart: bool,
    pub restart_packages: Seq<Seq<char>>,
    pub error: Option<Seq<char>>,
}

/// The outcome of probing one host: either an update list with its
/// restart assessment, or an error message; a host with no updates is a
/// successful empty outcome, distinct from a failed probe.
#[derive(Debug, Clone, PartialEq)]
pub struct HostResult {
    pub hostname: String,
    pub updates: Vec<UpdateInfo>,
    pub needs_restart: bool,
    pub restart_packages: Vec<String>,
    pub error: Option<String>,
}

impl View for HostResult {
    type V = HostRec;

    open spec fn view(&self) -> HostRec {
        HostRec {
            hostname: self.hostname@,
            updates: recs_of(self.updates@),
            needs_restart: self.needs_restart,
            restart_packages: str_views(self.restart_packages@),
            error: crate::checker::opt_str_view(self.error),
        }
    }
}

/// The views of a sequence of host outcomes.
pub open spec fn host_views(hs: Seq<HostResult>) -> Seq<HostRec> {
    hs.map_values(|h: HostResult| h@)
}

/// A well-formed host outcome: the restart-flag invariant holds, and a
/// failed probe carries no update list and no restart assessment.
pub open spec fn host_wf(h: HostRec) -> bool {
    &&& crate::checker::restart_invariant(h.updates, h.needs_restart, h.restart_packages)
    &&& (h.error is Some ==> h.updates.len() == 0 && h.restart_packages.len() == 0
        && !h.needs_restart)
}

/// The aggregated fleet result: one outcome per probed host.
#[derive(Debug, Clone, PartialEq)]
pub struct RemoteCheckResult {
    pub hosts: Vec<HostResult>,
}

/// The command line for one remote probe: the connect timeout, the
/// fixed liveness and non-interactive options, the target and the
/// remote listing command.
pub open spec fn ssh_args_spec(hostname: Seq<char>, timeout: u32) -> Seq<Seq<char>> {
    seq![
        "-o"@,
        "ConnectTimeout="@ + crate::text::dec_str(timeout as int),
        "-o"@,
        "ServerAliveInterval=5"@,
        "-o"@,
        "ServerAliveCountMax=2"@,
        "-o"@,
        "BatchMode=yes"@,
        "-o"@,
        "StrictHostKeyChecking=no"@,
        hostname,
        "checkupdates"@,
    ]
}

/// Build the remote probe command line.
pub fn build_ssh_args(hostname: &str, timeout: u32) -> (r: Vec<String>)
    ensures
        str_views(r@) == ssh_args_spec(hostname@, timeout),
{
    let mut r: Vec<String> = Vec::new();
    r.push("-o".to_owned());
    let mut ct = "ConnectTimeout=".to_owned();
    let ts = crate::text::u32_str(timeout);
    ct.append(ts.as_str());
    r.push(ct);
    r.push("-o".to_owned());
    r.push("ServerAliveInterval=5".to_owned());
    r.push("-o".to_owned());
    r.push("ServerAliveCountMax=2".to_owned());
    r.push("-o".to_owned());
    r.push("BatchMode=yes".to_owned());
    r.push("-o".to_owned());
    r.push("StrictHostKeyChecking=no".to_owned());
    r.push(hostname.to_owned());
    r.push("checkupdates".to_owned());
    proof {
        assert(str_views(r@) =~= ssh_args_spec(hostname@, timeout));
    }
    r
}

/// The mathematical content of one probe attempt's raw outcome.
#[verifier::ext_equal]
pub ghost enum ProbeRec {
    Exited { code: Option<i32>, stdout: Seq<char>, stderr: Seq<char> },
    LaunchFailed { message: Seq<char> },
    TimedOut,
}

/// The raw outcome of one probe attempt: the remote command completed
/// with an exit status, the channel could not be opened, or the
/// per-host deadline elapsed.
#[derive(Debug, Clone, PartialEq)]
pub enum ProbeOutcome {
    Exited { code: Option<i32>, stdout: String, stderr: String },
    LaunchFailed { message: String },
    TimedOut,
}

impl View for ProbeOutcome {
    type V = ProbeRec;

    open spec fn view(&self) -> ProbeRec {
        match self {
            ProbeOutcome::Exited { code, stdout, stderr } => ProbeRec::Exited {
                code: *code,
                stdout: stdout@,
                stderr: stderr@,
            },
            ProbeOutcome::LaunchFailed { message } => ProbeRec::LaunchFailed { message: message@ },
            ProbeOutcome::TimedOut => ProbeRec::TimedOut,
        }
    }
}

/// The error message of a probe whose deadline elapsed.
pub open spec fn timeout_message() -> Seq<char> {
    "Connection timed out"@
}

/// The error message of a failed channel or remote command.
pub open spec fn channel_error_message(detail: Seq<char>) -> Seq<char> {
    "SSH error: "@ + detail
}

/// A timeout is reported distinctly from a channel failure.
pub proof fn lemma_timeout_message_distinct(detail: Seq<char>)
    ensures
        timeout_message() != channel_error_message(detail),
{
    reveal_strlit("Connection timed out");
    reveal_strlit("SSH error: ");
    assert(channel_error_message(detail)[0] == 'S');
    assert(timeout_message()[0] == 'C');
}

/// An empty, successful host outcome.
pub open spec fn empty_host_rec(hostname: Seq<char>) -> HostRec {
    HostRec {
        hostname,
        updates: Seq::empty(),
        needs_restart: false,
        restart_packages: Seq::empty(),
        error: None,
    }
}

/// What one probe outcome denotes for its host: exit 0 parses the
/// output and assesses restarts, exit 2 is a successful empty outcome,
/// and any other outcome is an error carrying only a message.
pub open spec fn probe_spec(hostname: Seq<char>, o: ProbeRec) -> HostRec {
    match o {
        ProbeRec::Exited { code, stdout, stderr } => {
            if code == Some(0i32) {
                let us = crate::checker::parse_updates(stdout);
                HostRec {
                    hostname,
                    updates: us,
                    needs_restart: crate::checker::restart_names(us).len() != 0,
                    restart_packages: crate::checker::restart_names(us),
                    error: None,
                }
            } else if code == Some(2i32) {
                empty_host_rec(hostname)
            } else {
                HostRec {
                    error: Some(channel_error_message(crate::text::trim_spec(stderr))),
                    ..empty_host_rec(hostname)
                }
            }
        },
        ProbeRec::LaunchFailed { message } => HostRec {
            error: Some(channel_error_message(message)),
            ..empty_host_rec(hostname)
        },
        ProbeRec::TimedOut => HostRec {
            error: Some(timeout_message()),
            ..empty_host_rec(hostname)
        },
    }
}

/// Classify one probe attempt into its host outcome.
pub fn classify_probe(hostname: &str, outcome: ProbeOutcome) -> (r: HostResult)
    ensures
        r@ == probe_spec(hostname@, outcome@),
        host_wf(r@),
{
    match outcome {
        ProbeOutcome::Exited { code, stdout, stderr } => {
            match code {
                Some(0i32) => {
                    let updates = crate::checker::parse_update_output(stdout.as_str());
                    let (needs_restart, restart_packages) = crate::checker::compute_restart(
                        &updates,
                    );
                    let r = HostResult {
                        hostname: hostname.to_owned(),
                        updates,
                        needs_restart,
                        restart_packages,
                        error: None,
                    };
                    proof {
                        assert(r@ =~= probe_spec(hostname@, outcome@));
                    }
                    r
                },
                Some(2i32) => {
                    let r = HostResult {
                        hostname: hostname.to_owned(),
                        updates: Vec::new(),
                        needs_restart: false,
                        restart_packages: Vec::new(),
                        error: None,
                    };
                    proof {
                        assert(r@ =~= probe_spec(hostname@, outcome@));
                    }
                    r
                },
                _ => {
                    let sc = chars_of(stderr.as_str());
                    let t = crate::text::trim_chars(&sc);
                    let ts = string_of(&t);
                    let mut msg = "SSH error: ".to_owned();
                    msg.append(ts.as_str());
                    let r = HostResult {
                        hostname: hostname.to_owned(),
                        updates: Vec::new(),
                        needs_restart: false,
                        restart_packages: Vec::new(),
                        error: Some(msg),
                    };
                    proof {
                        assert(r@ =~= probe_spec(hostname@, outcome@));
                    }
                    r
                },
            }
        },
        ProbeOutcome::LaunchFailed { message } => {
            let mut msg = "SSH error: ".to_owned();
            msg.append(message.as_str());
            let r = HostResult {
                hostname: hostname.to_owned(),
                updates: Vec::new(),
                needs_restart: false,
                restart_packages: Vec::new(),
                error: Some(msg),
            };
            proof {
                assert(r@ =~= probe_spec(hostname@, outcome@));
            }
            r
        },
        ProbeOutcome::TimedOut => {
            let r = HostResult {
                hostname: hostname.to_owned(),
                updates: Vec::new(),
                needs_restart: false,
                restart_packages: Vec::new(),
                error: Some("Connection timed out".to_owned()),
            };
            proof {
                assert(r@ =~= probe_spec(hostname@, outcome@));
            }
            r
        },
    }
}

/// A sequence of host outcomes in ascending hostname order.
pub open spec fn hosts_sorted(hs: Seq<HostRec>) -> bool {
    forall|i: int, j: int|
        0 <= i < j < hs.len() ==> crate::text::lex_le(hs[i].hostname, hs[j].hostname)
}

/// A sequence of host outcomes with pairwise distinct hostnames.
pub open spec fn hosts_distinct(hs: Seq<HostRec>) -> bool {
    forall|i: int, j: int| 0 <= i < j < hs.len() ==> hs[i].hostname != hs[j].hostname
}

/// Insert a host outcome into a hostname-sorted vector, keeping it
/// sorted.
fn insert_host_sorted(r: &mut Vec<HostResult>, h: HostResult)
    requires
        hosts_sorted(host_views(old(r)@)),
    ensures
        hosts_sorted(host_views(final(r)@)),
        host_views(final(r)@).to_multiset() == host_views(old(r)@).to_multiset().insert(h@),
        final(r)@.len() == old(r)@.len() + 1,
{
    let ghost ov = host_views(r@);
    let ghost gh = h@;
    let mut p: usize = 0;
    while p < r.len() && crate::text::str_lex_le(r[p].hostname.as_str(), h.hostname.as_str())
        invariant
            p <= r@.len(),
            gh == h@,
            ov == host_views(r@),
            hosts_sorted(ov),
            ov.len() == r@.len(),
            forall|k: int| 0 <= k < r@.len() ==> ov[k] == r@[k]@,
            forall|k: int| 0 <= k < p ==> crate::text::lex_le((#[trigger] ov[k]).hostname, gh.hostname),
        decreases r@.len() - p,
    {
        p = p + 1;
    }
    let ghost gp = p as int;
    let ghost prev = r@;
    r.insert(p, h);
    proof {
        let nv = host_views(r@);
        assert(r@[gp]@ == gh);
        assert(forall|k: int| 0 <= k < gp ==> r@[k] == prev[k]);
        assert(forall|k: int| gp < k < r@.len() ==> r@[k] == prev[k - 1]);
        assert(nv =~= ov.insert(gp, gh));
        if gp < ov.len() {
            crate::text::lemma_lex_total(ov[gp].hostname, gh.hostname);
        }
        assert forall|i: int, j: int| 0 <= i < j < nv.len() implies crate::text::lex_le(
            nv[i].hostname,
            nv[j].hostname,
        ) by {
            if i == gp && j > gp {
                if j > gp + 1 {
                    crate::text::lemma_lex_trans(gh.hostname, ov[gp].hostname, ov[j - 1].hostname);
                }
            }
        }
        nv.to_multiset_ensures();
        assert(nv.remove(gp) =~= ov);
        assert(nv.to_multiset().remove(gh) =~= ov.to_multiset());
        assert(nv.contains(gh));
        assert(nv.to_multiset().count(gh) > 0);
        assert(nv.to_multiset() =~= ov.to_multiset().insert(gh));
    }
}

/// Sort host outcomes into ascending hostname order; the outcomes are
/// kept, as a multiset.
pub fn sort_hosts(hosts: Vec<HostResult>) -> (r: Vec<HostResult>)
    ensures
        hosts_sorted(host_views(r@)),
        host_views(r@).to_multiset() == host_views(hosts@).to_multiset(),
        r@.len() == hosts@.len(),
{
    broadcast use vstd::multiset::group_multiset_axioms;

    let ghost orig = host_views(hosts@);
    let mut rem = hosts;
    let mut r: Vec<HostResult> = Vec::new();
    proof {
        assert(host_views(r@) =~= Seq::<HostRec>::empty());
        host_views(r@).to_multiset_ensures();
        vstd::multiset::lemma_multiset_empty_len(host_views(r@).to_multiset());
        assert(host_views(r@).to_multiset() =~= Multiset::<HostRec>::empty());
        assert(host_views(r@).to_multiset().add(host_views(rem@).to_multiset())
            =~= orig.to_multiset());
    }
    loop
        invariant
            orig == host_views(hosts@),
            orig.len() == hosts@.len(),
            hosts_sorted(host_views(r@)),
            host_views(r@).to_multiset().add(host_views(rem@).to_multiset())
                == orig.to_multiset(),
            r@.len() + rem@.len() == orig.len(),
        decreases rem@.len(),
    {
        let ghost remv = host_views(rem@);
        match rem.pop() {
            Some(h) => {
                proof {
                    assert(remv =~= host_views(rem@).push(h@));
                    vstd::seq_lib::to_multiset_build(host_views(rem@), h@);
                }
                insert_host_sorted(&mut r, h);
                proof {
                    assert(host_views(r@).to_multiset().add(host_views(rem@).to_multiset())
                        =~= orig.to_multiset());
                }
            },
            None => {
                proof {
                    assert(host_views(rem@) =~= Seq::<HostRec>::empty());
                    host_views(rem@).to_multiset_ensures();
                    vstd::multiset::lemma_multiset_empty_len(host_views(rem@).to_multiset());
                    assert(host_views(rem@).to_multiset() =~= Multiset::<HostRec>::empty());
                    assert(host_views(r@).to_multiset().add(Multiset::<HostRec>::empty())
                        =~= host_views(r@).to_multiset());
                }
                return r;
            },
        }
    }
}

/// Two hostname-sorted outcome sequences with pairwise distinct
/// hostnames and the same contents are identical: the fleet ordering is
/// deterministic, whatever the completion order was.
pub proof fn lemma_fleet_order_deterministic(a: Seq<HostRec>, b: Seq<HostRec>)
    requires
        a.to_multiset() == b.to_multiset(),
        hosts_sorted(a),
        hosts_sorted(b),
        hosts_distinct(a),
        hosts_distinct(b),
    ensures
        a == b,
    decreases a.len(),
{
    a.to_multiset_ensures();
    b.to_multiset_ensures();
    if a.len() == 0 {
        assert(b.len() == 0);
        assert(a =~= b);
    } else {
        assert(b.len() == a.len());
        assert(a.contains(a[0])) by {
            assert(a[0] == a[0]);
        }
        assert(b.to_multiset().count(a[0]) > 0);
        assert(b.contains(a[0]));
        let k = choose|k: int| 0 <= k < b.len() && b[k] == a[0];
        assert(a.to_multiset().count(b[0]) > 0);
        assert(a.contains(b[0]));
        let m = choose|m: int| 0 <= m < a.len() && a[m] == b[0];
        if k > 0 {
            assert(crate::text::lex_le(b[0].hostname, b[k].hostname));
        }
        if m > 0 {
            assert(crate::text::lex_le(a[0].hostname, a[m].hostname));
        }
        crate::text::lemma_lex_total(a[0].hostname, b[0].hostname);
        crate::text::lemma_lex_antisym(a[0].hostname, b[0].hostname);
        assert(a[0].hostname == b[0].hostname);
        if k != 0 {
            assert(b[0].hostname != b[k].hostname);
            assert(false);
        }
        assert(a[0] == b[0]);
        let at = a.drop_first();
        let bt = b.drop_first();
        assert(a.remove(0) =~= at);
        assert(b.remove(0) =~= bt);
        assert(at.to_multiset() =~= a.to_multiset().remove(a[0]));
        assert(bt.to_multiset() =~= b.to_multiset().remove(b[0]));
        assert(at.to_multiset() == bt.to_multiset());
        assert(forall|i: int| 0 <= i < at.len() ==> at[i] == a[i + 1]);
        assert(forall|i: int| 0 <= i < bt.len() ==> bt[i] == b[i + 1]);
        assert(hosts_sorted(at));
        assert(hosts_sorted(bt));
        assert(hosts_distinct(at));
        assert(hosts_distinct(bt));
        lemma_fleet_order_deterministic(at, bt);
        assert forall|i: int| 0 <= i < a.len() implies a[i] == b[i] by {
            if i > 0 {
                assert(a[i] == at[i - 1]);
                assert(b[i] == bt[i - 1]);
            }
        }
        assert(a =~= b);
    }
}

/// The views of a sequence of named probe outcomes.
pub open spec fn probe_views(ps: Seq<(String, ProbeOutcome)>) -> Seq<(Seq<char>, ProbeRec)> {
    ps.map_values(|p: (String, ProbeOutcome)| (p.0@, p.1@))
}

/// The host outcomes denoted by a sequence of named probe outcomes, in
/// the order given.
pub open spec fn probe_results(ps: Seq<(Seq<char>, ProbeRec)>) -> Seq<HostRec>
    decreases ps.len(),
{
    if ps.len() == 0 {
        Seq::empty()
    } else {
        probe_results(ps.drop_last()).push(probe_spec(ps.last().0, ps.last().1))
    }
}

/// [`probe_results`] classifies each probe outcome in place.
pub proof fn lemma_probe_results_index(ps: Seq<(Seq<char>, ProbeRec)>)
    ensures
        probe_results(ps).len() == ps.len(),
        forall|i: int|
            0 <= i < ps.len() ==> probe_results(ps)[i] == probe_spec(
                (#[trigger] ps[i]).0,
                ps[i].1,
            ),
    decreases ps.len(),
{
    if ps.len() != 0 {
        lemma_probe_results_index(ps.drop_last());
        assert forall|i: int| 0 <= i < ps.len() implies probe_results(ps)[i] == probe_spec(
            (ps[i]).0,
            ps[i].1,
        ) by {
            if i < ps.len() - 1 {
                assert(ps.drop_last()[i] == ps[i]);
                assert(probe_results(ps)[i] == probe_results(ps.drop_last())[i]);
            } else {
                assert(ps.last() == ps[i]);
            }
        }
    }
}

/// Classification commutes with reordering: probe outcome sequences that
/// are equal up to ordering denote host outcomes that are equal up to
/// ordering.
pub proof fn lemma_probe_results_permutation(
    a: Seq<(Seq<char>, ProbeRec)>,
    b: Seq<(Seq<char>, ProbeRec)>,
)
    requires
        a.to_multiset() == b.to_multiset(),
    ensures
        probe_results(a).to_multiset() == probe_results(b).to_multiset(),
    decreases a.len(),
{
    broadcast use vstd::multiset::group_multiset_axioms;

    a.to_multiset_ensures();
    b.to_multiset_ensures();
    if a.len() == 0 {
        vstd::multiset::lemma_multiset_empty_len(a.to_multiset());
        assert(b.len() == 0);
        assert(a =~= b);
    } else {
        let x = a.last();
        assert(a.contains(x));
        assert(b.to_multiset().count(x) > 0);
        assert(b.contains(x));
        let j = choose|j: int| 0 <= j < b.len() && b[j] == x;
        let a1 = a.drop_last();
        let b1 = b.remove(j);
        b.remove_ensures(j);
        assert(a.remove(a.len() - 1) =~= a1);
        assert(a1.to_multiset() =~= a.to_multiset().remove(x));
        assert(b1.to_multiset() =~= b.to_multiset().remove(x));
        assert(a1.to_multiset() == b1.to_multiset());
        lemma_probe_results_permutation(a1, b1);
        lemma_probe_results_index(a);
        lemma_probe_results_index(b);
        lemma_probe_results_index(a1);
        lemma_probe_results_index(b1);
        let ra = probe_results(a);
        let rb = probe_results(b);
        ra.to_multiset_ensures();
        rb.to_multiset_ensures();
        rb.remove_ensures(j);
        assert(ra.drop_last() =~= probe_results(a1));
        assert(ra.remove(ra.len() - 1) =~= ra.drop_last());
        assert(probe_results(a1).to_multiset() =~= ra.to_multiset().remove(ra.last()));
        assert(ra.last() == probe_spec(x.0, x.1));
        assert(rb.remove(j) =~= probe_results(b1)) by {
            assert(b1.len() == b.len() - 1);
            assert(rb.remove(j).len() == rb.len() - 1);
            assert(probe_results(b1).len() == b1.len());
            assert forall|i: int| 0 <= i < rb.len() - 1 implies rb.remove(j)[i] == probe_results(
                b1,
            )[i] by {
                if i < j {
                    assert(rb.remove(j)[i] == rb[i]);
                    assert(b1[i] == b[i]);
                } else {
                    assert(rb.remove(j)[i] == rb[i + 1]);
                    assert(b1[i] == b[i + 1]);
                }
            }
        }
        assert(probe_results(b1).to_multiset() =~= rb.to_multiset().remove(rb[j]));
        assert(rb[j] == probe_spec(x.0, x.1));
        let s = probe_spec(x.0, x.1);
        assert(ra.contains(ra.last()));
        assert(ra.to_multiset().count(s) > 0);
        assert(rb.contains(rb[j]));
        assert(rb.to_multiset().count(s) > 0);
        assert(ra.to_multiset().remove(s) =~= rb.to_multiset().remove(s));
        assert forall|y: HostRec| ra.to_multiset().count(y) == rb.to_multiset().count(
            y,
        ) by {
            assert(ra.to_multiset().remove(s).count(y) == rb.to_multiset().remove(s).count(y));
        }
        assert(ra.to_multiset() =~= rb.to_multiset());
    }
}

/// The final sort makes the fleet outcome independent of probe
/// completion order: two probe runs whose outcome sets are equal up to
/// ordering denote, once sorted by (pairwise distinct) hostname,
/// identical fleet results.
pub proof fn lemma_fleet_idempotent(
    a: Seq<(Seq<char>, ProbeRec)>,
    b: Seq<(Seq<char>, ProbeRec)>,
    x: Seq<HostRec>,
    y: Seq<HostRec>,
)
    requires
        a.to_multiset() == b.to_multiset(),
        hosts_sorted(x),
        x.to_multiset() == probe_results(a).to_multiset(),
        hosts_sorted(y),
        y.to_multiset() == probe_results(b).to_multiset(),
        hosts_distinct(x),
        hosts_distinct(y),
    ensures
        probe_results(a).to_multiset() == probe_results(b).to_multiset(),
        x == y,
{
    lemma_probe_results_permutation(a, b);
    lemma_fleet_order_deterministic(x, y);
}

/// Aggregate the probe outcomes of one fleet check: classify each host's
/// outcome and order the results by hostname.  The result has exactly
/// one entry per probed host, whatever each probe's outcome was.
pub fn assemble_remote_result(probes: Vec<(String, ProbeOutcome)>) -> (r: RemoteCheckResult)
    ensures
        hosts_sorted(host_views(r.hosts@)),
        host_views(r.hosts@).to_multiset() == probe_results(probe_views(probes@)).to_multiset(),
        r.hosts@.len() == probes@.len(),
        forall|k: int| 0 <= k < r.hosts@.len() ==> host_wf(#[trigger] host_views(r.hosts@)[k]),
{
    broadcast use vstd::multiset::group_multiset_axioms;

    let ghost orig = probe_views(probes@);
    let mut rem = probes;
    let mut acc: Vec<HostResult> = Vec::new();
    proof {
        assert(host_views(acc@) =~= Seq::<HostRec>::empty());
        host_views(acc@).to_multiset_ensures();
        vstd::multiset::lemma_multiset_empty_len(host_views(acc@).to_multiset());
        assert(host_views(acc@).to_multiset().add(probe_results(probe_views(rem@)).to_multiset())
            =~= probe_results(orig).to_multiset());
    }
    loop
        invariant
            orig == probe_views(probes@),
            orig.len() == probes@.len(),
            host_views(acc@).to_multiset().add(probe_results(probe_views(rem@)).to_multiset())
                == probe_results(orig).to_multiset(),
            acc@.len() + rem@.len() == probes@.len(),
            forall|k: int| 0 <= k < acc@.len() ==> host_wf(#[trigger] host_views(acc@)[k]),
        decreases rem@.len(),
    {
        let ghost remv = probe_views(rem@);
        match rem.pop() {
            Some((name, outcome)) => {
                let ghost go = outcome@;
                let ghost gn = name@;
                proof {
                    assert(remv =~= probe_views(rem@).push((gn, go)));
                    assert(remv.len() == probe_views(rem@).len() + 1);
                    assert(remv.drop_last() =~= probe_views(rem@));
                    assert(remv.last() == (gn, go));
                    assert(probe_results(remv) == probe_results(probe_views(rem@)).push(
                        probe_spec(gn, go),
                    ));
                    vstd::seq_lib::to_multiset_build(
                        probe_results(probe_views(rem@)),
                        probe_spec(gn, go),
                    );
                }
                let h = classify_probe(name.as_str(), outcome);
                let ghost accv = host_views(acc@);
                acc.push(h);
                proof {
                    assert(host_views(acc@) =~= accv.push(probe_spec(gn, go)));
                    vstd::seq_lib::to_multiset_build(accv, probe_spec(gn, go));
                    assert(host_views(acc@).to_multiset().add(
                        probe_results(probe_views(rem@)).to_multiset(),
                    ) =~= probe_results(orig).to_multiset());
                    assert(forall|k: int|
                        0 <= k < accv.len() ==> host_views(acc@)[k] == #[trigger] accv[k]);
                }
            },
            None => {
                proof {
                    assert(probe_views(rem@) =~= Seq::<(Seq<char>, ProbeRec)>::empty());
                    assert(probe_results(probe_views(rem@)) =~= Seq::<HostRec>::empty());
                    probe_results(probe_views(rem@)).to_multiset_ensures();
                    vstd::multiset::lemma_multiset_empty_len(
                        probe_results(probe_views(rem@)).to_multiset(),
                    );
                    assert(host_views(acc@).to_multiset() =~= probe_results(orig).to_multiset());
                }
                let sorted = sort_hosts(acc);
                proof {
                    assert forall|k: int| 0 <= k < sorted@.len() implies host_wf(
                        #[trigger] host_views(sorted@)[k],
                    ) by {
                        let sv = host_views(sorted@);
                        sv.to_multiset_ensures();
                        assert(sv.contains(sv[k]));
                        assert(sv.to_multiset().count(sv[k]) > 0);
                        let av = host_views(acc@);
                        av.to_multiset_ensures();
                        assert(av.to_multiset().count(sv[k]) > 0);
                        assert(av.contains(sv[k]));
                    }
                }
                return RemoteCheckResult { hosts: sorted };
            },
        }
    }
}

} // verus!
