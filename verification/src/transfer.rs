//! `send` and `receive`: what is offered to whom, who is paired with whom, and
//! what is said on the way.

use vstd::prelude::*;
use crate::attach::ServerReply;
use crate::chrome::format_size;
use crate::config;
use crate::config::ConfigFile;
use crate::forward;
use crate::kill;
use crate::naming;
use crate::naming::display_session_name;
use crate::outside;
use crate::paths;
use crate::protocol::{
    SessionEntry,
    PROTOCOL_VERSION,
    TRANSFER_GO_BUSY,
    TRANSFER_GO_PAIRED,
    TRANSFER_GO_SUPERSEDED,
};
use crate::sessions;
use crate::sessions::session_wire_name;
use crate::target;
use crate::target::{resolve_ctl_path, split_target};
use crate::text;
use crate::text::{
    cat2,
    cat3,
    cat4,
    cat5,
    cat7,
    copy,
    count_text,
    decimal_text,
    join_texts,
    pad_right,
    repeat_char,
    same,
    split_on,
};
use crate::wire_names;
use crate::wire_names::{uniquify_wire_names, SendEntry};

verus! {

pub open spec fn unpaired(peer: Seq<char>, reasons: Seq<Seq<char>>) -> Seq<char> {
    if reasons.len() == 0 {
        "no "@ + peer
            + " paired: every offered session closed the offer (a newer `gritty send` in the same session replaces an earlier one; a session mid-transfer takes no new offers)"@
    } else {
        "no "@ + peer + " paired: "@ + text::join(reasons, "; "@)
    }
}

/// What is said when every session closed the offer: why, as far as anybody
/// said.
pub fn unpaired_message(peer: &str, reasons: &Vec<String>) -> (r: String)
    ensures
        r@ == unpaired(peer@, text::views(reasons@)),
{
    assert(text::views(reasons@).len() == reasons@.len());
    if reasons.len() == 0 {
        return cat3(
            "no ",
            peer,
            " paired: every offered session closed the offer (a newer `gritty send` in the same session replaces an earlier one; a session mid-transfer takes no new offers)",
        );
    }
    let list = join_texts(reasons, "; ");
    cat4("no ", peer, " paired: ", list.as_str())
}

/// What is said when nobody came in time.
pub fn timeout_message(peer: &str, secs: u64) -> (r: String)
    ensures
        r@ == "no "@ + peer@ + " paired within "@ + text::decimal(secs as nat)
            + "s (raise --timeout, or --no-timeout to wait indefinitely)"@,
{
    let n = decimal_text(secs);
    cat5(
        "no ",
        peer,
        " paired within ",
        n.as_str(),
        "s (raise --timeout, or --no-timeout to wait indefinitely)",
    )
}

/// What became of an offer in one session.
#[derive(Debug, PartialEq, Eq)]
pub enum GoOutcome {
    Paired,
    /// The session is out of the race, for this reason.
    Skipped(String),
    /// The server said something that makes no sense.
    Protocol(String),
}

/// What became of an offer, as a value.
pub enum Go {
    Paired,
    Skipped(Seq<char>),
    Protocol(Seq<char>),
}

impl View for GoOutcome {
    type V = Go;

    open spec fn view(&self) -> Go {
        match self {
            GoOutcome::Paired => Go::Paired,
            GoOutcome::Skipped(s) => Go::Skipped(s@),
            GoOutcome::Protocol(s) => Go::Protocol(s@),
        }
    }
}

/// What a byte from the server, or the end of its stream, means for an offer.
pub open spec fn go_of(read: Result<u8, ()>, label: Option<Seq<char>>) -> Go {
    let at = match label {
        Some(l) => l + ": "@,
        None => ""@,
    };
    match read {
        Ok(b) => if b == TRANSFER_GO_PAIRED {
            Go::Paired
        } else if b == TRANSFER_GO_SUPERSEDED {
            Go::Skipped(
                at + "replaced by a newer gritty send in "@ + (if label is Some {
                    "that session"@
                } else {
                    "this session"@
                }),
            )
        } else if b == TRANSFER_GO_BUSY {
            Go::Skipped(at + "busy with another transfer"@)
        } else {
            Go::Protocol(at + "unexpected signal from server: 0x"@ + forward::hex_byte(b))
        },
        Err(_) => Go::Skipped(at + "closed before pairing"@),
    }
}

/// What a byte from the server, or the end of its stream, means for an offer.
/// Inside a session there is no label: naming it would only be noise.
pub fn classify_go(read: Result<u8, ()>, label: Option<&str>) -> (r: GoOutcome)
    ensures
        r@ == go_of(read, text::str_view(label)),
{
    let at = match label {
        Some(l) => cat2(l, ": "),
        None => copy(""),
    };
    let here = if label.is_some() {
        "that session"
    } else {
        "this session"
    };
    match read {
        Ok(b) => if b == TRANSFER_GO_PAIRED {
            GoOutcome::Paired
        } else if b == TRANSFER_GO_SUPERSEDED {
            GoOutcome::Skipped(cat3(at.as_str(), "replaced by a newer gritty send in ", here))
        } else if b == TRANSFER_GO_BUSY {
            GoOutcome::Skipped(cat2(at.as_str(), "busy with another transfer"))
        } else {
            let hex = forward::hex_text(b);
            GoOutcome::Protocol(
                cat3(at.as_str(), "unexpected signal from server: 0x", hex.as_str()),
            )
        },
        Err(_) => GoOutcome::Skipped(cat2(at.as_str(), "closed before pairing")),
    }
}

/// Several sessions that an offer is open in: the first that answers gets the
/// transfer.
pub struct Race {
    /// How many are still in it.
    pub left: usize,
    /// Why the others are out.
    pub reasons: Vec<String>,
}

/// What follows when one of them was heard.
pub enum RaceStep {
    /// It gets the transfer.
    Won,
    /// Go on waiting for the others.
    Wait,
    /// Nobody is left.
    Lost(String),
    /// Something is badly wrong.
    Abort(String),
}

/// One of the sessions said something.
pub open spec fn heard_effect(
    left: nat,
    reasons: Seq<Seq<char>>,
    peer: Seq<char>,
    outcome: Go,
    left_after: nat,
    reasons_after: Seq<Seq<char>>,
    step: RaceStep,
) -> bool {
    match outcome {
        Go::Paired => step is Won && left_after == left && reasons_after == reasons,
        Go::Protocol(m) => {
            &&& step is Abort && step->Abort_0@ == m
            &&& left_after == left
            &&& reasons_after == reasons
        },
        Go::Skipped(why) => {
            &&& left_after == left - 1
            &&& reasons_after == reasons.push(why)
            &&& if left_after > 0 {
                step is Wait
            } else {
                step is Lost && step->Lost_0@ == unpaired(peer, reasons.push(why))
            }
        },
    }
}

/// One of the sessions closed without a word.
pub open spec fn closed_effect(
    left: nat,
    reasons: Seq<Seq<char>>,
    peer: Seq<char>,
    left_after: nat,
    reasons_after: Seq<Seq<char>>,
    step: RaceStep,
) -> bool {
    &&& left_after == left - 1
    &&& reasons_after == reasons
    &&& if left_after > 0 {
        step is Wait
    } else {
        step is Lost && step->Lost_0@ == unpaired(peer, reasons)
    }
}

impl Race {
    pub fn new(candidates: usize) -> (r: Race)
        ensures
            r.left == candidates,
            text::views(r.reasons@) == Seq::<Seq<char>>::empty(),
    {
        let reasons: Vec<String> = Vec::new();
        assert(text::views(reasons@) =~= Seq::<Seq<char>>::empty());
        Race { left: candidates, reasons }
    }

    /// Take in what one of the sessions said.
    pub fn heard(&mut self, peer: &str, outcome: GoOutcome) -> (step: RaceStep)
        requires
            old(self).left > 0,
        ensures
            heard_effect(
                old(self).left as nat,
                text::views(old(self).reasons@),
                peer@,
                outcome@,
                final(self).left as nat,
                text::views(final(self).reasons@),
                step,
            ),
    {
        match outcome {
            GoOutcome::Paired => RaceStep::Won,
            GoOutcome::Protocol(m) => RaceStep::Abort(m),
            GoOutcome::Skipped(why) => {
                proof {
                    text::lemma_views_push(self.reasons@, why);
                }
                self.reasons.push(why);
                self.left = self.left - 1;
                if self.left > 0 {
                    RaceStep::Wait
                } else {
                    RaceStep::Lost(unpaired_message(peer, &self.reasons))
                }
            },
        }
    }

    /// Take in that one of the sessions closed without a word, where nothing
    /// but data was expected.
    pub fn closed(&mut self, peer: &str) -> (step: RaceStep)
        requires
            old(self).left > 0,
        ensures
            closed_effect(
                old(self).left as nat,
                text::views(old(self).reasons@),
                peer@,
                final(self).left as nat,
                text::views(final(self).reasons@),
                step,
            ),
    {
        self.left = self.left - 1;
        if self.left > 0 {
            RaceStep::Wait
        } else {
            RaceStep::Lost(unpaired_message(peer, &self.reasons))
        }
    }
}

/// What one of the sessions in a race did: it said something, or closed
/// without a word.
pub struct Lap {
    pub left: nat,
    pub reasons: Seq<Seq<char>>,
    pub said: Option<Go>,
    pub left_after: nat,
    pub reasons_after: Seq<Seq<char>>,
    pub step: RaceStep,
}

/// Whether a race among some sessions went like this; it goes on only while
/// there is something to wait for.
pub open spec fn is_race(candidates: nat, peer: Seq<char>, run: Seq<Lap>) -> bool
    decreases run.len(),
{
    run.len() == 0 || {
        let before = run.drop_last();
        let l = run.last();
        &&& is_race(candidates, peer, before)
        &&& match l.said {
            Some(g) => heard_effect(
                l.left,
                l.reasons,
                peer,
                g,
                l.left_after,
                l.reasons_after,
                l.step,
            ),
            None => closed_effect(l.left, l.reasons, peer, l.left_after, l.reasons_after, l.step),
        }
        &&& if before.len() == 0 {
            l.left == candidates && l.reasons.len() == 0
        } else {
            &&& before.last().step is Wait
            &&& l.left == before.last().left_after
            &&& l.reasons == before.last().reasons_after
        }
    }
}

/// Why sessions are out of the race, of those that said so.
pub open spec fn excuses(run: Seq<Lap>) -> Seq<Seq<char>>
    decreases run.len(),
{
    if run.len() == 0 {
        seq![]
    } else {
        match run.last().said {
            Some(Go::Skipped(why)) => excuses(run.drop_last()).push(why),
            _ => excuses(run.drop_last()),
        }
    }
}

/// A transfer goes to the first session that pairs. One that is out only
/// leaves the others to wait for; once every one of them is out, the race is
/// lost, and all the reasons are told.
pub proof fn law_the_first_to_pair_wins(candidates: nat, peer: Seq<char>, run: Seq<Lap>)
    requires
        is_race(candidates, peer, run),
        0 < run.len() <= candidates,
    ensures
        ({
            let step = run.last().step;
            match run.last().said {
                Some(Go::Paired) => step is Won,
                Some(Go::Protocol(m)) => step is Abort && step->Abort_0@ == m,
                _ => {
                    &&& run.len() < candidates ==> step is Wait
                    &&& run.len() == candidates ==> step is Lost && step->Lost_0@ == unpaired(
                        peer,
                        excuses(run),
                    )
                },
            }
        }),
        !(run.last().said == Some(Go::Paired)) && !(run.last().said matches Some(Go::Protocol(_)))
            ==> run.last().left_after == candidates - run.len() && run.last().reasons_after
            == excuses(run),
    decreases run.len(),
{
    reveal_with_fuel(excuses, 2);
    if run.len() > 1 {
        law_the_first_to_pair_wins(candidates, peer, run.drop_last());
    } else {
        assert(run.last().reasons =~= excuses(run.drop_last()));
    }
}

/// A session that closed the offer never ends the race for the others.
pub proof fn law_closed_offers_do_not_end_the_race(read: Result<u8, ()>, label: Option<Seq<char>>)
    ensures
        read is Err ==> go_of(read, label) is Skipped,
        read == Ok::<u8, ()>(TRANSFER_GO_SUPERSEDED) ==> go_of(read, label) is Skipped,
        read == Ok::<u8, ()>(TRANSFER_GO_BUSY) ==> go_of(read, label) is Skipped,
        go_of(read, label) is Paired ==> read == Ok::<u8, ()>(TRANSFER_GO_PAIRED),
{
}

/// The last part of a path, where that can be the name of a file.
pub open spec fn plain_name(path: Seq<char>) -> Option<Seq<char>> {
    let base = paths::final_component(path);
    if base.len() == 0 || base == ".."@ {
        None
    } else {
        Some(base)
    }
}

/// The name of a file that is sent by its path: the last part of the path,
/// which must not be `..` or empty.
pub fn sanitize_basename(name: &str) -> (r: Result<String, String>)
    ensures
        match plain_name(name@) {
            Some(base) => r is Ok && r->Ok_0@ == base,
            None => r is Err && r->Err_0@ == "invalid filename: "@ + name@,
        },
{
    let base = paths::final_of(name);
    if base.as_str().unicode_len() == 0 || same(base.as_str(), "..") {
        return Err(cat2("invalid filename: ", name));
    }
    Ok(base)
}

/// A session that an offer can go to.
pub struct DiscoveredSession {
    pub wire_name: String,
    pub ctl_path: String,
}

/// A session that an offer can go to, as a value.
pub struct Reachable {
    pub wire_name: Seq<char>,
    pub ctl_path: Seq<char>,
}

impl View for DiscoveredSession {
    type V = Reachable;

    open spec fn view(&self) -> Reachable {
        Reachable { wire_name: self.wire_name@, ctl_path: self.ctl_path@ }
    }
}

/// What a server said when it was asked for its sessions.
pub enum ProbeOutcome {
    Sessions { server_id: u64, sessions: Vec<DiscoveredSession> },
    VersionMismatch,
    Unavailable,
}

pub open spec fn reachable(v: Seq<DiscoveredSession>) -> Seq<Reachable> {
    v.map_values(|s: DiscoveredSession| s@)
}

/// The sessions that a server lists, with the socket it was reached by.
pub fn discovered(v: &Vec<SessionEntry>, ctl_path: &str) -> (r: Vec<DiscoveredSession>)
    ensures
        reachable(r@) == v@.map_values(
            |s: SessionEntry| Reachable { wire_name: sessions::wire_name(s), ctl_path: ctl_path@ },
        ),
{
    let ghost want = v@.map_values(
        |s: SessionEntry| Reachable { wire_name: sessions::wire_name(s), ctl_path: ctl_path@ },
    );
    let mut r: Vec<DiscoveredSession> = Vec::new();
    let mut i: usize = 0;
    assert(reachable(r@) =~= want.take(0));
    while i < v.len()
        invariant
            i <= v@.len(),
            want == v@.map_values(
                |s: SessionEntry|
                    Reachable { wire_name: sessions::wire_name(s), ctl_path: ctl_path@ },
            ),
            reachable(r@) == want.take(i as int),
        decreases v@.len() - i,
    {
        let d = DiscoveredSession { wire_name: session_wire_name(&v[i]), ctl_path: copy(ctl_path) };
        let ghost before = r@;
        let ghost dv = d@;
        r.push(d);
        assert(reachable(r@) =~= reachable(before).push(dv));
        assert(reachable(r@) =~= want.take(i + 1));
        i = i + 1;
    }
    assert(want.take(i as int) =~= want);
    r
}

pub open spec fn entries_of(v: Option<&Vec<SessionEntry>>) -> Option<Seq<SessionEntry>> {
    match v {
        Some(v) => Some(v@),
        None => None,
    }
}

/// Whether this came of asking a server for its sessions.
pub open spec fn is_found(
    version: u16,
    server_id: u64,
    listed: Option<Seq<SessionEntry>>,
    ctl_path: Seq<char>,
    r: ProbeOutcome,
) -> bool {
    if version != PROTOCOL_VERSION {
        r is VersionMismatch
    } else {
        match listed {
            None => r is Unavailable,
            Some(v) => r matches ProbeOutcome::Sessions { server_id: id, sessions } && id
                == server_id && reachable(sessions@) == v.map_values(
                |s: SessionEntry|
                    Reachable { wire_name: sessions::wire_name(s), ctl_path },
            ),
        }
    }
}

/// Every session that a server lists can be reached, by its own name and
/// through that server's socket, unless the server speaks another protocol.
pub proof fn law_listed_sessions_can_be_reached(
    version: u16,
    server_id: u64,
    v: Seq<SessionEntry>,
    ctl_path: Seq<char>,
    r: ProbeOutcome,
    i: int,
)
    requires
        is_found(version, server_id, Some(v), ctl_path, r),
        0 <= i < v.len(),
    ensures
        version != PROTOCOL_VERSION <==> r is VersionMismatch,
        version == PROTOCOL_VERSION ==> (r matches ProbeOutcome::Sessions { server_id: id, sessions }
            && id == server_id && sessions@.len() == v.len() && sessions@[i].wire_name@
            == sessions::wire_name(v[i]) && sessions@[i].ctl_path@ == ctl_path),
{
    if let ProbeOutcome::Sessions { server_id: id, sessions } = r {
        let all = reachable(sessions@);
        let want = v.map_values(
            |s: SessionEntry| Reachable { wire_name: sessions::wire_name(s), ctl_path },
        );
        assert(all.len() == sessions@.len());
        assert(want.len() == v.len());
        if version == PROTOCOL_VERSION {
            assert(all[i] == sessions@[i]@);
            assert(want[i].wire_name == sessions::wire_name(v[i]));
        }
    }
}

/// What came of asking a server for its sessions: it is left alone where it
/// speaks another version of the protocol.
pub fn probe_outcome(
    version: u16,
    server_id: u64,
    listed: Option<&Vec<SessionEntry>>,
    ctl_path: &str,
) -> (r: ProbeOutcome)
    ensures
        is_found(version, server_id, entries_of(listed), ctl_path@, r),
{
    if version != PROTOCOL_VERSION {
        return ProbeOutcome::VersionMismatch;
    }
    match listed {
        Some(v) => ProbeOutcome::Sessions { server_id, sessions: discovered(v, ctl_path) },
        None => ProbeOutcome::Unavailable,
    }
}

/// A server that answered: who it is, and its sessions.
pub struct Answer {
    pub server_id: u64,
    pub sessions: Vec<DiscoveredSession>,
}

/// Whether an earlier answer came from the same server.
pub open spec fn known_before(v: Seq<Answer>, i: int) -> bool {
    exists|k: int| 0 <= k < i && (#[trigger] v[k]).server_id == v[i].server_id
}

/// The sessions of the first `n` answers, each server once.
pub open spec fn first_routes(v: Seq<Answer>, n: int) -> Seq<Reachable>
    decreases n,
{
    if n <= 0 {
        seq![]
    } else if known_before(v, n - 1) {
        first_routes(v, n - 1)
    } else {
        first_routes(v, n - 1) + reachable(v[n - 1].sessions@)
    }
}

/// The sessions of all servers, each server by the first route to it: an offer
/// that goes to the same session twice would disturb its own transfer.
pub fn dedupe_by_server_id(results: Vec<Answer>) -> (r: Vec<DiscoveredSession>)
    ensures
        reachable(r@) == first_routes(results@, results@.len() as int),
{
    let mut out: Vec<DiscoveredSession> = Vec::new();
    let mut i: usize = 0;
    assert(reachable(out@) =~= Seq::<Reachable>::empty());
    while i < results.len()
        invariant
            i <= results@.len(),
            reachable(out@) == first_routes(results@, i as int),
        decreases results@.len() - i,
    {
        if !answered_before(&results, i) {
            let ghost before = reachable(out@);
            let ghost more = reachable(results@[i as int].sessions@);
            let mut k: usize = 0;
            assert(before + more.take(0) =~= before);
            while k < results[i].sessions.len()
                invariant
                    i < results@.len(),
                    k <= results@[i as int].sessions@.len(),
                    more == reachable(results@[i as int].sessions@),
                    reachable(out@) == before + more.take(k as int),
                decreases results@[i as int].sessions@.len() - k,
            {
                let d = DiscoveredSession {
                    wire_name: copy(results[i].sessions[k].wire_name.as_str()),
                    ctl_path: copy(results[i].sessions[k].ctl_path.as_str()),
                };
                let ghost was = out@;
                let ghost dv = d@;
                out.push(d);
                proof {
                    assert(reachable(out@) =~= reachable(was).push(dv));
                    assert(more[k as int] == dv);
                    assert(before + more.take(k + 1) =~= (before + more.take(k as int)).push(dv));
                }
                k = k + 1;
            }
            assert(more.take(k as int) =~= more);
        }
        i = i + 1;
    }
    out
}

fn answered_before(v: &Vec<Answer>, i: usize) -> (r: bool)
    requires
        i < v@.len(),
    ensures
        r == known_before(v@, i as int),
{
    let mut k: usize = 0;
    while k < i
        invariant
            k <= i < v@.len(),
            forall|j: int| 0 <= j < k ==> (#[trigger] v@[j]).server_id != v@[i as int].server_id,
        decreases i - k,
    {
        if v[k].server_id == v[i].server_id {
            return true;
        }
        k = k + 1;
    }
    false
}

/// Whether this was found when every server was asked.
pub open spec fn is_discovery(
    asked: usize,
    answers: Seq<Answer>,
    saw_version_mismatch: bool,
    r: Result<Vec<DiscoveredSession>, String>,
) -> bool {
    let found = first_routes(answers, answers.len() as int);
    if asked == 0 {
        r is Err && r->Err_0@
            == "no sessions to offer the transfer to: neither a local server nor any tunnel is running (`gritty connect [host]` starts one)"@
    } else if found.len() > 0 {
        r is Ok && reachable(r->Ok_0@) == found
    } else if saw_version_mismatch {
        r is Err && r->Err_0@
            == "no active sessions (a daemon has a protocol version mismatch -- run `gritty refresh`)"@
    } else {
        r is Err && r->Err_0@ == "no active sessions"@
    }
}

/// A transfer can be offered exactly where somebody was asked and some session
/// was found; then it is offered in what was found, and nowhere else.
pub proof fn law_found_sessions_are_offered(
    asked: usize,
    answers: Seq<Answer>,
    saw_version_mismatch: bool,
    r: Result<Vec<DiscoveredSession>, String>,
    i: int,
    k: int,
)
    requires
        is_discovery(asked, answers, saw_version_mismatch, r),
        asked > 0,
        0 <= i < answers.len() && !known_before(answers, i),
        0 <= k < answers[i].sessions@.len(),
    ensures
        r is Ok,
        reachable(r->Ok_0@).contains(answers[i].sessions@[k]@),
{
    law_every_server_is_offered(answers, answers.len() as int);
    assert(first_routes(answers, answers.len() as int).contains(answers[i].sessions@[k]@));
}

/// What was found when every server was asked: the sessions, or why there are
/// none to offer the transfer to.
pub fn discovery_result(
    asked: usize,
    answers: Vec<Answer>,
    saw_version_mismatch: bool,
) -> (r: Result<Vec<DiscoveredSession>, String>)
    ensures
        is_discovery(asked, answers@, saw_version_mismatch, r),
{
    if asked == 0 {
        return Err(
            copy(
                "no sessions to offer the transfer to: neither a local server nor any tunnel is running (`gritty connect [host]` starts one)",
            ),
        );
    }
    let found = dedupe_by_server_id(answers);
    assert(reachable(found@).len() == found@.len());
    if found.len() > 0 {
        return Ok(found);
    }
    if saw_version_mismatch {
        return Err(
            copy(
                "no active sessions (a daemon has a protocol version mismatch -- run `gritty refresh`)",
            ),
        );
    }
    Err(copy("no active sessions"))
}

/// Split what the servers said into the answers and whether one of them speaks
/// another protocol.
pub fn sort_outcomes(outcomes: Vec<ProbeOutcome>) -> (r: (Vec<Answer>, bool))
    ensures
        r.1 == exists|i: int|
            0 <= i < outcomes@.len() && #[trigger] outcomes@[i] is VersionMismatch,
        answers_of(outcomes@, outcomes@.len() as int).len() == r.0@.len(),
        forall|i: int|
            0 <= i < r.0@.len() ==> ({
                let o = answers_of(outcomes@, outcomes@.len() as int)[i];
                (#[trigger] r.0@[i]).server_id == o->server_id && r.0@[i].sessions == o->sessions
            }),
{
    let ghost all = outcomes@;
    let mut left = outcomes;
    let mut back: Vec<ProbeOutcome> = Vec::new();
    while left.len() > 0
        invariant
            left@ == all.take(left@.len() as int),
            left@.len() + back@.len() == all.len(),
            forall|k: int| 0 <= k < back@.len() ==> #[trigger] back@[k] == all[all.len() - 1 - k],
        decreases left@.len(),
    {
        let ghost n = left@.len();
        if let Some(o) = left.pop() {
            assert(o == all[n - 1]);
            back.push(o);
            assert(left@ =~= all.take(n - 1));
        }
    }
    let mut answers: Vec<Answer> = Vec::new();
    let mut mismatch = false;
    let ghost mut done: int = 0;
    while back.len() > 0
        invariant
            0 <= done <= all.len(),
            back@.len() == all.len() - done,
            forall|k: int| 0 <= k < back@.len() ==> #[trigger] back@[k] == all[all.len() - 1 - k],
            mismatch == exists|i: int| 0 <= i < done && #[trigger] all[i] is VersionMismatch,
            answers_of(all, done).len() == answers@.len(),
            forall|i: int|
                0 <= i < answers@.len() ==> ({
                    let o = answers_of(all, done)[i];
                    (#[trigger] answers@[i]).server_id == o->server_id && answers@[i].sessions
                        == o->sessions
                }),
        decreases back@.len(),
    {
        let ghost pre = back@;
        let ghost was = answers@;
        if let Some(o) = back.pop() {
            assert(pre[pre.len() - 1] == all[done]);
            assert(o == all[done]);
            match o {
                ProbeOutcome::Sessions { server_id, sessions } => {
                    answers.push(Answer { server_id, sessions });
                    proof {
                        let now = answers_of(all, done + 1);
                        assert forall|i: int| 0 <= i < answers@.len() implies ({
                            let o = now[i];
                            (#[trigger] answers@[i]).server_id == o->server_id
                                && answers@[i].sessions == o->sessions
                        }) by {
                            if i < was.len() {
                                assert(answers@[i] == was[i]);
                            }
                        }
                    }
                },
                ProbeOutcome::VersionMismatch => {
                    mismatch = true;
                    assert(all[done] is VersionMismatch);
                },
                ProbeOutcome::Unavailable => {},
            }
            proof {
                done = done + 1;
            }
        }
    }
    (answers, mismatch)
}

/// The outcomes that are answers, among the first `n`.
pub open spec fn answers_of(v: Seq<ProbeOutcome>, n: int) -> Seq<ProbeOutcome>
    decreases n,
{
    if n <= 0 {
        seq![]
    } else if v[n - 1] is Sessions {
        answers_of(v, n - 1).push(v[n - 1])
    } else {
        answers_of(v, n - 1)
    }
}

/// No server's sessions are offered the transfer twice.
pub proof fn law_one_route_per_server(v: Seq<Answer>, i: int, j: int)
    requires
        0 <= i < j < v.len(),
        v[i].server_id == v[j].server_id,
    ensures
        known_before(v, j),
        first_routes(v, j + 1) == first_routes(v, j),
{
    assert(v[i].server_id == v[j].server_id);
}

/// Every server that answered is offered the transfer, in each of its
/// sessions, by the way that was found first; nothing else is.
pub proof fn law_every_server_is_offered(v: Seq<Answer>, n: int)
    requires
        0 <= n <= v.len(),
    ensures
        forall|i: int, k: int|
            0 <= i < n && !known_before(v, i) && 0 <= k < v[i].sessions@.len()
                ==> first_routes(v, n).contains(#[trigger] v[i].sessions@[k]@),
        forall|r: Reachable|
            first_routes(v, n).contains(r) ==> exists|i: int, k: int|
                0 <= i < n && !known_before(v, i) && 0 <= k < v[i].sessions@.len()
                    && #[trigger] v[i].sessions@[k]@ == r,
    decreases n,
{
    if n > 0 {
        law_every_server_is_offered(v, n - 1);
        let before = first_routes(v, n - 1);
        let more = reachable(v[n - 1].sessions@);
        let all = first_routes(v, n);
        assert forall|i: int, k: int|
            0 <= i < n && !known_before(v, i) && 0 <= k < v[i].sessions@.len() implies all.contains(
            #[trigger] v[i].sessions@[k]@,
        ) by {
            let r = v[i].sessions@[k]@;
            if i == n - 1 {
                assert(more[k] == r);
                assert(all[before.len() + k] == r);
            } else {
                assert(before.contains(r));
                let j = choose|j: int| 0 <= j < before.len() && before[j] == r;
                assert(all[j] == r);
            }
        }
        assert forall|r: Reachable| all.contains(r) implies exists|i: int, k: int|
            0 <= i < n && !known_before(v, i) && 0 <= k < v[i].sessions@.len()
                && #[trigger] v[i].sessions@[k]@ == r by {
            let j = choose|j: int| 0 <= j < all.len() && all[j] == r;
            if j < before.len() {
                assert(before[j] == r);
                assert(before.contains(r));
            } else {
                assert(more[j - before.len()] == r);
                assert(v[n - 1].sessions@[j - before.len()]@ == r);
            }
        }
    }
}

/// Whether `f` is the first answer of the server that answered at `i`.
pub open spec fn first_answer(v: Seq<Answer>, i: int, f: int) -> bool {
    0 <= f <= i && v[f].server_id == v[i].server_id && !known_before(v, f)
}

/// Every server that answered has a first answer, by which it is reached.
pub proof fn law_every_server_has_a_route(v: Seq<Answer>, i: int)
    requires
        0 <= i < v.len(),
    ensures
        exists|f: int| first_answer(v, i, f),
    decreases i,
{
    if known_before(v, i) {
        let e = choose|e: int| 0 <= e < i && (#[trigger] v[e]).server_id == v[i].server_id;
        law_every_server_has_a_route(v, e);
        let f = choose|f: int| first_answer(v, e, f);
        assert(first_answer(v, i, f));
    } else {
        assert(first_answer(v, i, i));
    }
}

/// A session as it is listed and typed: without the client's own prefix.
pub open spec fn label_of(
    c: ConfigFile,
    own: Seq<char>,
    host: Seq<char>,
    wire_name: Seq<char>,
) -> Seq<char> {
    host + ":"@ + naming::shown_name(wire_name, kill::client_on(c, host, own))
}

/// A session as it is listed and typed, on a machine with the client name
/// `own`.
pub fn session_label_for(
    config: &ConfigFile,
    own: &str,
    host: &str,
    wire_name: &str,
) -> (r: String)
    ensures
        r@ == label_of(*config, own@, host@, wire_name@),
{
    let (settings, _) = config.resolve_session_for(Some(host), own);
    let name = display_session_name(wire_name, settings.client_name.as_str());
    cat3(host, ":", name.as_str())
}

/// A session as it is listed and typed.
pub fn session_label(config: &ConfigFile, host: &str, wire_name: &str) -> (r: String)
    ensures
        exists|own: Seq<char>|
            naming::client_name_ok(own) && r@ == #[trigger] label_of(
                *config,
                own,
                host@,
                wire_name@,
            ),
{
    let own = config::default_client_name();
    let r = session_label_for(config, own.as_str(), host, wire_name);
    assert(r@ == label_of(*config, own@, host@, wire_name@));
    r
}

/// Where an offer went and what to run at the other end.
pub open spec fn waiting(peer: Seq<char>, command: Seq<char>, labels: Seq<Seq<char>>) -> Seq<char> {
    if labels.len() == 0 {
        "waiting for "@ + peer + " -- run `"@ + command + "` on the client side"@
    } else if labels.len() == 1 {
        "waiting for "@ + peer + " in "@ + labels[0] + " -- run `"@ + command + "` there"@
    } else {
        "waiting for "@ + peer + " in "@ + text::decimal(labels.len()) + " sessions ("@ + text::join(
            labels,
            ", "@,
        ) + (") -- run `"@ + command + "` in one of them"@)
    }
}

/// Where an offer went and what to run at the other end.
pub fn waiting_line(peer: &str, peer_command: &str, labels: &Vec<String>) -> (r: String)
    ensures
        r@ == waiting(peer@, peer_command@, text::views(labels@)),
{
    assert(text::views(labels@).len() == labels@.len());
    if labels.len() == 0 {
        cat5("waiting for ", peer, " -- run `", peer_command, "` on the client side")
    } else if labels.len() == 1 {
        assert(text::views(labels@)[0] == labels@[0]@);
        cat7(
            "waiting for ",
            peer,
            " in ",
            labels[0].as_str(),
            " -- run `",
            peer_command,
            "` there",
        )
    } else {
        let n = decimal_text(labels.len() as u64);
        let list = join_texts(labels, ", ");
        let end = cat3(") -- run `", peer_command, "` in one of them");
        cat7(
            "waiting for ",
            peer,
            " in ",
            n.as_str(),
            " sessions (",
            list.as_str(),
            end.as_str(),
        )
    }
}

/// Where a transfer goes.
pub enum TransferVia {
    /// Through the session that this command runs in.
    Inside { socket: String },
    /// Through one session of a server.
    One { ctl_path: String, session: String, label: String },
    /// Through whichever session of this server answers first.
    Server { ctl_path: String },
    /// Through whichever session of any server answers first.
    Any,
}

/// Whether a transfer goes there.
pub open spec fn is_route(
    c: ConfigFile,
    own: Seq<char>,
    socket_dir: Seq<char>,
    inside: Option<Seq<char>>,
    ctl_socket: Option<Seq<char>>,
    session_flag: Option<Seq<char>>,
    r: Result<TransferVia, String>,
) -> bool {
    match (inside, session_flag) {
        (Some(_), Some(_)) => r is Err && r->Err_0@ == "cannot specify --session inside a session"@,
        (Some(s), None) => r is Ok && r->Ok_0 is Inside && r->Ok_0->socket@ == s,
        (None, Some(t)) => match target::target_parts(t).1 {
            None => r is Err && r->Err_0@ == "--session requires host:session (e.g. local:0)"@,
            Some(session) => {
                let host = target::target_parts(t).0;
                &&& r is Ok && r->Ok_0 is One
                &&& Some(r->Ok_0->One_ctl_path@) == target::ctl_path_of(
                    socket_dir,
                    ctl_socket,
                    Some(host),
                )
                &&& r->Ok_0->session@ == session
                &&& r->Ok_0->label@ == label_of(c, own, host, session)
            },
        },
        (None, None) => match ctl_socket {
            Some(p) => r is Ok && r->Ok_0 is Server && r->Ok_0->Server_ctl_path@ == p,
            None => r is Ok && r->Ok_0 is Any,
        },
    }
}

/// Inside a session a transfer goes through that session and no other can be
/// named; elsewhere it goes through the very session that is named, or is
/// offered everywhere, or on the one server whose socket is given.
pub proof fn law_transfers_go_where_they_are_sent(
    c: ConfigFile,
    own: Seq<char>,
    socket_dir: Seq<char>,
    inside: Option<Seq<char>>,
    ctl_socket: Option<Seq<char>>,
    host: Seq<char>,
    session: Seq<char>,
    named: bool,
    r: Result<TransferVia, String>,
)
    requires
        !host.contains(':'),
        session.len() > 0,
        is_route(
            c,
            own,
            socket_dir,
            inside,
            ctl_socket,
            if named {
                Some(host + ":"@ + session)
            } else {
                None
            },
            r,
        ),
    ensures
        inside is Some && named ==> r is Err,
        inside is Some && !named ==> (r matches Ok(TransferVia::Inside { socket }) && Some(socket@)
            == inside),
        inside is None && named ==> (r matches Ok(TransferVia::One { ctl_path, session: s, .. })
            && s@ == session && Some(ctl_path@) == target::ctl_path_of(
            socket_dir,
            ctl_socket,
            Some(host),
        )),
        inside is None && !named ==> if ctl_socket is Some {
            r matches Ok(TransferVia::Server { ctl_path }) && Some(ctl_path@) == ctl_socket
        } else {
            r matches Ok(TransferVia::Any)
        },
{
    target::law_targets_read_back(host, session);
}

/// Decide where a transfer goes: inside a session only through that one,
/// otherwise through the session that was named, or through all, of the server
/// that was named if one was.
pub fn plan_transfer(
    config: &ConfigFile,
    own: &str,
    socket_dir: &str,
    inside: Option<String>,
    ctl_socket: Option<String>,
    session_flag: Option<String>,
) -> (r: Result<TransferVia, String>)
    ensures
        is_route(
            *config,
            own@,
            socket_dir@,
            text::owned_view(inside),
            text::owned_view(ctl_socket),
            text::owned_view(session_flag),
            r,
        ),
{
    match inside {
        Some(socket) => {
            if session_flag.is_some() {
                return Err(copy("cannot specify --session inside a session"));
            }
            Ok(TransferVia::Inside { socket })
        },
        None => match session_flag {
            Some(t) => {
                let (host, session) = split_target(t.as_str());
                match session {
                    None => Err(copy("--session requires host:session (e.g. local:0)")),
                    Some(session) => {
                        let ctl_path = match resolve_ctl_path(
                            socket_dir,
                            ctl_socket,
                            Some(host.as_str()),
                        ) {
                            Ok(p) => p,
                            Err(e) => {
                                return Err(e);
                            },
                        };
                        let label = session_label_for(
                            config,
                            own,
                            host.as_str(),
                            session.as_str(),
                        );
                        Ok(TransferVia::One { ctl_path, session, label })
                    },
                }
            },
            None => match ctl_socket {
                Some(ctl_path) => Ok(TransferVia::Server { ctl_path }),
                None => Ok(TransferVia::Any),
            },
        },
    }
}

/// How much of a file is through, in percent.
pub open spec fn percent(transferred: u64, total: u64) -> nat {
    if total == 0 {
        100
    } else {
        let p = (transferred * 100) as nat / total as nat;
        if p > 100 {
            100
        } else {
            p
        }
    }
}

/// How many of the twenty cells of the bar are filled.
pub open spec fn filled_cells(pct: nat) -> nat {
    pct * 20 / 100
}

/// The bar of a file, with its name in a column of the given width.
pub open spec fn progress_text(
    name: Seq<char>,
    name_width: nat,
    transferred: u64,
    total: u64,
    colored: bool,
) -> Seq<char> {
    let pct = percent(transferred, total);
    let n = filled_cells(pct);
    "  "@ + text::padded(name, name_width) + "  "@ + (if colored {
        "\x1b[32m"@
    } else {
        ""@
    }) + text::repeated('=', n) + (if colored {
        "\x1b[2m"@
    } else {
        ""@
    }) + text::repeated('-', (20 - n) as nat) + (if colored {
        "\x1b[0m"@
    } else {
        ""@
    }) + "  "@ + text::decimal(pct) + "%  "@ + outside::human_size(transferred) + "/"@
        + outside::human_size(total)
}

/// The bar of a file, with its name in a column of the given width.
pub fn progress_line(
    name: &str,
    name_width: usize,
    transferred: u64,
    total: u64,
    colored: bool,
) -> (r: String)
    requires
        transferred * 100 <= u64::MAX,
    ensures
        r@ == progress_text(name@, name_width as nat, transferred, total, colored),
{
    let pct: u64 = if total == 0 {
        100
    } else {
        let p: u64 = transferred * 100 / total;
        if p > 100 {
            100
        } else {
            p
        }
    };
    let full: usize = (pct * 20 / 100) as usize;
    assert(full <= 20);
    let cell = pad_right(name, name_width);
    let bar = repeat_char('=', full);
    let rest = repeat_char('-', 20 - full);
    let (green, dim, reset) = if colored {
        ("\x1b[32m", "\x1b[2m", "\x1b[0m")
    } else {
        ("", "", "")
    };
    let mut r = cat7("  ", cell.as_str(), "  ", green, bar.as_str(), dim, rest.as_str());
    r.append(reset);
    r.append("  ");
    r.append(decimal_text(pct).as_str());
    r.append("%  ");
    r.append(format_size(transferred).as_str());
    r.append("/");
    r.append(format_size(total).as_str());
    r
}

/// Whether the progress is due to be shown again.
pub open spec fn is_due(
    interactive: bool,
    transferred: u64,
    total: u64,
    since_last_ms: u64,
) -> bool {
    interactive && (transferred >= total || since_last_ms >= 50)
}

/// The end of a transfer is always shown, anything before it at most twenty
/// times a second, and nothing where nobody looks.
pub proof fn law_progress_is_shown_to_the_end(transferred: u64, total: u64, since_last_ms: u64)
    ensures
        !is_due(false, transferred, total, since_last_ms),
        transferred == total ==> is_due(true, transferred, total, since_last_ms),
        transferred < total ==> (is_due(true, transferred, total, since_last_ms) <==> since_last_ms
            * 20 >= 1000),
{
}

/// Whether the bar is drawn again: always at the end, otherwise not more often
/// than the eye can follow, and only on a terminal.
pub fn redraws(interactive: bool, transferred: u64, total: u64, since_last_ms: u64) -> (r: bool)
    ensures
        r == is_due(interactive, transferred, total, since_last_ms),
{
    interactive && (transferred >= total || since_last_ms >= 50)
}

/// The bar never overflows its twenty cells, and is full exactly when all is
/// through.
pub proof fn law_bar_fits(transferred: u64, total: u64)
    ensures
        filled_cells(percent(transferred, total)) <= 20,
        percent(transferred, total) <= 100,
        transferred >= total ==> filled_cells(percent(transferred, total)) == 20,
        transferred < total ==> percent(transferred, total) < 100,
{
    if total > 0 {
        let p = (transferred * 100) as nat / total as nat;
        if transferred >= total {
            assert(p >= 100) by (nonlinear_arith)
                requires
                    p == (transferred * 100) as nat / total as nat,
                    transferred >= total,
                    total > 0,
            ;
        } else {
            assert(p < 100) by (nonlinear_arith)
                requires
                    p == (transferred * 100) as nat / total as nat,
                    transferred < total,
                    total > 0,
            ;
        }
    }
}

/// The components of a path: the root where it is absolute, a dot only at the
/// very start, and otherwise every part that is neither empty nor a dot.
pub open spec fn components(pieces: Seq<Seq<char>>) -> Seq<Seq<char>>
    decreases pieces.len(),
{
    if pieces.len() == 0 {
        seq![]
    } else {
        let rest = components(pieces.drop_last());
        let p = pieces.last();
        if pieces.len() == 1 && (p.len() == 0 || p == "."@) {
            seq![p]
        } else if p.len() == 0 || p == "."@ {
            rest
        } else {
            rest.push(p)
        }
    }
}

/// The plain names among components.
pub open spec fn plain_names(v: Seq<Seq<char>>) -> Seq<Seq<char>>
    decreases v.len(),
{
    if v.len() == 0 {
        seq![]
    } else {
        let p = v.last();
        if p.len() == 0 || p == "."@ || p == ".."@ {
            plain_names(v.drop_last())
        } else {
            plain_names(v.drop_last()).push(p)
        }
    }
}

/// The components of a path, with an empty path having none.
pub open spec fn path_components(path: Seq<char>) -> Seq<Seq<char>> {
    if path.len() == 0 {
        seq![]
    } else {
        components(text::split(path, '/'))
    }
}

/// The name that a file below a directory travels under: its path from `base`
/// on, plain names only.
pub open spec fn walked(path: Seq<char>, base: Seq<char>) -> Seq<char> {
    let p = path_components(path);
    let b = path_components(base);
    text::join(
        plain_names(
            if b.is_prefix_of(p) {
                p.skip(b.len() as int)
            } else {
                p
            },
        ),
        "/"@,
    )
}

fn components_of(path: &str) -> (r: Vec<String>)
    ensures
        text::views(r@) == path_components(path@),
{
    let mut r: Vec<String> = Vec::new();
    assert(text::views(r@) =~= Seq::<Seq<char>>::empty());
    if path.unicode_len() == 0 {
        return r;
    }
    let pieces = split_on(path, '/');
    let ghost all = text::views(pieces@);
    let mut i: usize = 0;
    assert(all.take(0) == Seq::<Seq<char>>::empty());
    while i < pieces.len()
        invariant
            i <= pieces@.len(),
            all == text::views(pieces@),
            text::views(r@) == components(all.take(i as int)),
        decreases pieces@.len() - i,
    {
        assert(all.take(i + 1).drop_last() == all.take(i as int));
        assert(all.take(i + 1).last() == pieces@[i as int]@);
        let blank = pieces[i].as_str().unicode_len() == 0 || same(pieces[i].as_str(), ".");
        if i == 0 || !blank {
            let s = copy(pieces[i].as_str());
            proof {
                text::lemma_views_push(r@, s);
                if i == 0 {
                    assert(all.take(0) =~= Seq::<Seq<char>>::empty());
                    assert(components(all.take(0)) =~= Seq::<Seq<char>>::empty());
                    assert(Seq::<Seq<char>>::empty().push(s@) =~= seq![s@]);
                }
            }
            r.push(s);
        }
        i = i + 1;
    }
    assert(all.take(i as int) == all);
    r
}

/// The name that a file below a directory travels under.
pub fn walked_name(path: &str, base: &str) -> (r: String)
    ensures
        r@ == walked(path@, base@),
{
    let p = components_of(path);
    let b = components_of(base);
    let ghost pv = text::views(p@);
    let ghost bv = text::views(b@);
    let mut below = b.len() <= p.len();
    let mut i: usize = 0;
    while below && i < b.len()
        invariant
            i <= b@.len(),
            pv == text::views(p@),
            bv == text::views(b@),
            below ==> b@.len() <= p@.len(),
            below ==> forall|k: int| 0 <= k < i ==> bv[k] == pv[k],
            !below ==> !bv.is_prefix_of(pv),
        decreases b@.len() - i,
    {
        assert(bv[i as int] == b@[i as int]@);
        assert(pv[i as int] == p@[i as int]@);
        if !same(b[i].as_str(), p[i].as_str()) {
            below = false;
            assert(!bv.is_prefix_of(pv)) by {
                if bv.is_prefix_of(pv) {
                    assert(pv.subrange(0, bv.len() as int)[i as int] == pv[i as int]);
                }
            }
        }
        i = i + 1;
    }
    assert(below == bv.is_prefix_of(pv)) by {
        if below {
            assert(pv.subrange(0, bv.len() as int) =~= bv);
        }
    }
    let from: usize = if below {
        b.len()
    } else {
        0
    };
    let ghost rel = if bv.is_prefix_of(pv) {
        pv.skip(bv.len() as int)
    } else {
        pv
    };
    assert(rel =~= pv.skip(from as int));
    let mut names: Vec<String> = Vec::new();
    let mut k: usize = from;
    assert(text::views(names@) =~= Seq::<Seq<char>>::empty());
    assert(rel.take(0) =~= Seq::<Seq<char>>::empty());
    while k < p.len()
        invariant
            from <= k <= p@.len(),
            pv == text::views(p@),
            rel == pv.skip(from as int),
            text::views(names@) == plain_names(rel.take(k - from)),
        decreases p@.len() - k,
    {
        proof {
            let t = rel.take(k - from + 1);
            assert(t.drop_last() =~= rel.take(k - from));
            assert(t.last() == p@[k as int]@);
        }
        let c = p[k].as_str();
        if !(c.unicode_len() == 0 || same(c, ".") || same(c, "..")) {
            let s = copy(c);
            proof {
                text::lemma_views_push(names@, s);
            }
            names.push(s);
        }
        k = k + 1;
    }
    assert(rel.take(k - from) =~= rel);
    join_texts(&names, "/")
}

/// A file below a directory that is sent.
pub struct WalkedFile {
    pub path: String,
    pub size: u64,
    pub mode: u32,
    pub canonical: Option<String>,
}

/// What a path on the command line leads to.
pub enum PathKind {
    /// Nothing that can be looked at.
    Missing(String),
    File { size: u64, mode: u32, canonical: Option<String> },
    /// A directory, with the regular files below it.
    Directory { files: Vec<WalkedFile> },
    Special,
}

/// A path on the command line, and what it leads to.
pub struct SendPath {
    pub path: String,
    pub kind: PathKind,
}

/// A file to send, as a value.
pub struct Queued {
    pub name: Seq<char>,
    pub size: u64,
    pub mode: u32,
    pub path: Seq<char>,
    pub canonical: Option<Seq<char>>,
}

pub open spec fn queued_view(e: SendEntry) -> Queued {
    Queued {
        name: e.name@,
        size: e.size,
        mode: e.mode,
        path: e.path@,
        canonical: text::owned_view(e.canonical),
    }
}

pub open spec fn queue_views(v: Seq<SendEntry>) -> Seq<Queued> {
    v.map_values(|e: SendEntry| queued_view(e))
}

/// The files below a directory as they are sent.
pub open spec fn walked_files(v: Seq<WalkedFile>, base: Seq<char>) -> Seq<Queued> {
    v.map_values(
        |f: WalkedFile|
            Queued {
                name: walked(f.path@, base),
                size: f.size,
                mode: f.mode,
                path: f.path@,
                canonical: text::owned_view(f.canonical),
            },
    )
}

/// The directory that the names of the files below a path start from.
pub open spec fn walk_base(path: Seq<char>) -> Seq<char> {
    match paths::parent(path) {
        Some(b) => b,
        None => ""@,
    }
}

/// What a path on the command line adds, or why it cannot be sent.
pub open spec fn adds(p: SendPath, recursive: bool) -> Result<Seq<Queued>, Seq<char>> {
    let path = p.path@;
    match p.kind {
        PathKind::Missing(e) => Err(path + ": "@ + e@),
        PathKind::Special => Err(path + ": not a regular file"@),
        PathKind::Directory { files } => if !recursive {
            Err(
                path
                    + ": is a directory (use -r to send recursively, or tar: tar czf - dir | gritty send -)"@,
            )
        } else {
            Ok(walked_files(files@, walk_base(path)))
        },
        PathKind::File { size, mode, canonical } => {
            let base = paths::final_component(path);
            if base.len() == 0 || base == ".."@ {
                Err("invalid filename: "@ + path)
            } else {
                Ok(
                    seq![
                        Queued {
                            name: base,
                            size,
                            mode,
                            path,
                            canonical: text::owned_view(canonical),
                        },
                    ],
                )
            }
        },
    }
}

/// What the paths on the command line add up to; the first that cannot be sent
/// ends it.
pub open spec fn gathered(v: Seq<SendPath>, recursive: bool) -> Result<Seq<Queued>, Seq<char>>
    decreases v.len(),
{
    if v.len() == 0 {
        Ok(seq![])
    } else {
        match gathered(v.drop_last(), recursive) {
            Err(e) => Err(e),
            Ok(q) => match adds(v.last(), recursive) {
                Err(e) => Err(e),
                Ok(more) => Ok(q + more),
            },
        }
    }
}

fn push_entry(entries: &mut Vec<SendEntry>, e: SendEntry)
    ensures
        queue_views(final(entries)@) == queue_views(old(entries)@).push(queued_view(e)),
{
    let ghost before = entries@;
    let ghost q = queued_view(e);
    entries.push(e);
    assert(queue_views(entries@) =~= queue_views(before).push(q));
}

fn copy_option(s: &Option<String>) -> (r: Option<String>)
    ensures
        text::owned_view(r) == text::owned_view(*s),
{
    match s {
        Some(t) => Some(copy(t.as_str())),
        None => None,
    }
}

/// Add what a path on the command line leads to.
fn add_path(entries: &mut Vec<SendEntry>, p: &SendPath, recursive: bool) -> (r: Result<(), String>)
    ensures
        match adds(*p, recursive) {
            Ok(more) => r is Ok && queue_views(final(entries)@) == queue_views(old(entries)@) + more,
            Err(e) => r is Err && r->Err_0@ == e,
        },
{
    let path = p.path.as_str();
    let ghost before = queue_views(entries@);
    match &p.kind {
        PathKind::Missing(e) => Err(cat3(path, ": ", e.as_str())),
        PathKind::Special => Err(cat2(path, ": not a regular file")),
        PathKind::Directory { files } => {
            if !recursive {
                return Err(
                    cat2(
                        path,
                        ": is a directory (use -r to send recursively, or tar: tar czf - dir | gritty send -)",
                    ),
                );
            }
            let base = match paths::parent_of(path) {
                Some(b) => b,
                None => copy(""),
            };
            let ghost want = walked_files(files@, base@);
            let mut i: usize = 0;
            assert(before + want.take(0) =~= before);
            while i < files.len()
                invariant
                    i <= files@.len(),
                    want == walked_files(files@, base@),
                    queue_views(entries@) == before + want.take(i as int),
                decreases files@.len() - i,
            {
                let e = SendEntry {
                    name: walked_name(files[i].path.as_str(), base.as_str()),
                    size: files[i].size,
                    mode: files[i].mode,
                    path: copy(files[i].path.as_str()),
                    canonical: copy_option(&files[i].canonical),
                };
                let ghost q = queued_view(e);
                push_entry(entries, e);
                assert(want[i as int] == q);
                assert(before + want.take(i + 1) =~= (before + want.take(i as int)).push(q));
                i = i + 1;
            }
            assert(want.take(i as int) =~= want);
            Ok(())
        },
        PathKind::File { size, mode, canonical } => match sanitize_basename(path) {
            Err(e) => Err(e),
            Ok(name) => {
                let e = SendEntry {
                    name,
                    size: *size,
                    mode: *mode,
                    path: copy(path),
                    canonical: copy_option(canonical),
                };
                let ghost q = queued_view(e);
                push_entry(entries, e);
                assert(before.push(q) =~= before + seq![q]);
                Ok(())
            },
        },
    }
}

/// What the paths on the command line add up to.
pub fn gather(v: &Vec<SendPath>, recursive: bool) -> (r: Result<Vec<SendEntry>, String>)
    ensures
        match gathered(v@, recursive) {
            Ok(q) => r is Ok && queue_views(r->Ok_0@) == q,
            Err(e) => r is Err && r->Err_0@ == e,
        },
{
    let mut entries: Vec<SendEntry> = Vec::new();
    let mut i: usize = 0;
    assert(v@.take(0) == Seq::<SendPath>::empty());
    assert(queue_views(entries@) =~= Seq::<Queued>::empty());
    while i < v.len()
        invariant
            i <= v@.len(),
            gathered(v@.take(i as int), recursive) == Ok::<Seq<Queued>, Seq<char>>(
                queue_views(entries@),
            ),
        decreases v@.len() - i,
    {
        proof {
            assert(v@.take(i + 1).drop_last() == v@.take(i as int));
            assert(v@.take(i + 1).last() == v@[i as int]);
        }
        match add_path(&mut entries, &v[i], recursive) {
            Ok(_) => {},
            Err(e) => {
                proof {
                    lemma_gather_fails(v@, i + 1, recursive);
                }
                return Err(e);
            },
        }
        i = i + 1;
    }
    assert(v@.take(i as int) == v@);
    Ok(entries)
}

proof fn lemma_gather_fails(v: Seq<SendPath>, n: int, recursive: bool)
    requires
        0 <= n <= v.len(),
        gathered(v.take(n), recursive) is Err,
    ensures
        gathered(v, recursive) == gathered(v.take(n), recursive),
    decreases v.len() - n,
{
    if n < v.len() {
        assert(v.take(n + 1).drop_last() == v.take(n));
        lemma_gather_fails(v, n + 1, recursive);
    } else {
        assert(v.take(n) == v);
    }
}

/// A name that can stand between slashes and means itself.
pub open spec fn is_plain(name: Seq<char>) -> bool {
    name.len() > 0 && !name.contains('/') && name != "."@ && name != ".."@
}

pub open spec fn all_plain(v: Seq<Seq<char>>) -> bool {
    forall|i: int| 0 <= i < v.len() ==> is_plain(#[trigger] v[i])
}

/// What stands before the last name of a path: nothing, or directories up to a
/// slash.
pub open spec fn is_lead(lead: Seq<char>) -> bool {
    lead.len() > 0 ==> lead.last() == '/'
}

proof fn lemma_split_lead(lead: Seq<char>, x: Seq<char>)
    requires
        is_lead(lead),
    ensures
        text::split(lead, '/').len() > 0,
        text::split(lead, '/').last() == Seq::<char>::empty(),
        text::split(lead + x, '/') == text::split(lead, '/').drop_last() + text::split(x, '/'),
    decreases x.len(),
{
    let s = text::split(lead, '/');
    let none = Seq::<char>::empty();
    assert(text::split(none, '/') =~= seq![none]);
    if lead.len() > 0 {
        let l = lead.drop_last();
        paths::lemma_split_push(l, '/');
        assert(l.push('/') =~= lead);
    } else {
        assert(lead =~= none);
    }
    if x.len() == 0 {
        assert(lead + x =~= lead);
        assert(x =~= none);
        assert(s.drop_last() + seq![none] =~= s);
    } else {
        let y = x.drop_last();
        let c = x.last();
        lemma_split_lead(lead, y);
        paths::lemma_split_push(lead + y, c);
        paths::lemma_split_push(y, c);
        assert((lead + y).push(c) =~= lead + x);
        assert(y.push(c) =~= x);
        let a = s.drop_last();
        let b = text::split(y, '/');
        if c == '/' {
            assert((a + b).push(none) =~= a + b.push(none));
        } else {
            assert((a + b).drop_last() =~= a + b.drop_last());
            assert((a + b).last() == b.last());
            assert((a + b.drop_last()).push(b.last().push(c)) =~= a + b.drop_last().push(
                b.last().push(c),
            ));
        }
    }
}

proof fn lemma_split_plain(name: Seq<char>)
    requires
        !name.contains('/'),
    ensures
        text::split(name, '/') == seq![name],
{
    text::lemma_first_index(name, '/');
}

proof fn lemma_split_join(parts: Seq<Seq<char>>)
    requires
        parts.len() > 0,
        forall|i: int| 0 <= i < parts.len() ==> !(#[trigger] parts[i]).contains('/'),
    ensures
        text::split(text::join(parts, "/"@), '/') == parts,
    decreases parts.len(),
{
    reveal_strlit("/");
    if parts.len() == 1 {
        lemma_split_plain(parts[0]);
        assert(seq![parts[0]] =~= parts);
    } else {
        let init = parts.drop_last();
        assert forall|i: int| 0 <= i < init.len() implies !(#[trigger] init[i]).contains('/') by {
            assert(init[i] == parts[i]);
        }
        lemma_split_join(init);
        let head = text::join(init, "/"@);
        let lead = head + "/"@;
        assert(lead =~= head.push('/'));
        paths::lemma_split_push(head, '/');
        lemma_split_lead(lead, parts.last());
        assert(parts.last() == parts[parts.len() - 1]);
        lemma_split_plain(parts.last());
        assert(text::split(lead, '/').drop_last() =~= init);
        assert(init + seq![parts.last()] =~= parts);
    }
}

proof fn lemma_join_front(d: Seq<char>, parts: Seq<Seq<char>>)
    requires
        parts.len() > 0,
    ensures
        text::join(seq![d] + parts, "/"@) == d + "/"@ + text::join(parts, "/"@),
    decreases parts.len(),
{
    let all = seq![d] + parts;
    assert(all.drop_last() =~= seq![d] + parts.drop_last());
    assert(all.last() == parts.last());
    if parts.len() == 1 {
        assert(all.drop_last() =~= seq![d]);
        assert(text::join(seq![d], "/"@) == d);
        assert(text::join(parts, "/"@) == parts.last());
    } else {
        lemma_join_front(d, parts.drop_last());
        let j = text::join(parts.drop_last(), "/"@);
        assert(d + "/"@ + j + "/"@ + parts.last() =~= d + "/"@ + (j + "/"@ + parts.last()));
    }
}

proof fn lemma_components_plain(pieces: Seq<Seq<char>>, plain: Seq<Seq<char>>)
    requires
        all_plain(plain),
    ensures
        components(pieces + plain) == components(pieces) + plain,
        plain_names(plain) == plain,
    decreases plain.len(),
{
    let all = pieces + plain;
    if plain.len() == 0 {
        assert(all =~= pieces);
        assert(components(pieces) + plain =~= components(pieces));
    } else {
        let init = plain.drop_last();
        assert forall|i: int| 0 <= i < init.len() implies is_plain(#[trigger] init[i]) by {
            assert(init[i] == plain[i]);
        }
        lemma_components_plain(pieces, init);
        assert(is_plain(plain[plain.len() - 1]));
        assert(all.drop_last() =~= pieces + init);
        assert(all.last() == plain.last());
        assert((components(pieces) + init).push(plain.last()) =~= components(pieces) + plain);
        assert(init.push(plain.last()) =~= plain);
    }
}

proof fn lemma_trimmed_components(path: Seq<char>)
    ensures
        path_components(paths::trimmed(path)) == path_components(path),
    decreases path.len(),
{
    if path.len() > 1 && (path.last() == '/' || (path.last() == '.' && path[path.len() - 2]
        == '/')) {
        let q = path.drop_last();
        lemma_trimmed_components(q);
        assert(q.push(path.last()) =~= path);
        paths::lemma_split_push(q, path.last());
        let v = text::split(q, '/');
        reveal_strlit(".");
        if path.last() == '/' {
            assert(v.push(seq![]).drop_last() =~= v);
        } else {
            let r = q.drop_last();
            assert(r.push('/') =~= q);
            paths::lemma_split_push(r, '/');
            let w = text::split(r, '/');
            assert(v.drop_last() =~= w);
            assert(v.last().push('.') =~= "."@);
            assert(text::split(path, '/').drop_last() =~= w);
        }
    }
}

/// The names of the files below a directory start with the directory itself, so
/// that its structure arrives: for a directory `d`, wherever it lies, a file
/// `d/rest` travels as `d/rest`, with its size, its mode and its contents.
pub proof fn law_directories_keep_their_structure(
    p: SendPath,
    files: Vec<WalkedFile>,
    i: int,
    lead: Seq<char>,
    d: Seq<char>,
    slash: bool,
    rest: Seq<Seq<char>>,
)
    requires
        p.kind == (PathKind::Directory { files }),
        0 <= i < files@.len(),
        is_lead(lead),
        is_plain(d),
        rest.len() > 0,
        all_plain(rest),
        p.path@ == (if slash {
            lead + d + "/"@
        } else {
            lead + d
        }),
        files@[i].path@ == lead + d + "/"@ + text::join(rest, "/"@),
    ensures
        adds(p, true) is Ok,
        ({
            let q = adds(p, true)->Ok_0;
            let f = files@[i];
            &&& q.len() == files@.len()
            &&& q[i].name == d + "/"@ + text::join(rest, "/"@)
            &&& q[i].size == f.size
            &&& q[i].mode == f.mode
            &&& q[i].path == f.path@
            &&& q[i].canonical == text::owned_view(f.canonical)
        }),
{
    lemma_walk_base(lead, d, slash);
    lemma_walked(lead, d, rest);
    assert(walked_files(files@, walk_base(p.path@))[i].name == walked(
        files@[i].path@,
        walk_base(p.path@),
    ));
}

proof fn lemma_walk_base(lead: Seq<char>, d: Seq<char>, slash: bool)
    requires
        is_lead(lead),
        is_plain(d),
    ensures
        walk_base(
            if slash {
                lead + d + "/"@
            } else {
                lead + d
            },
        ) == paths::trimmed(lead),
{
    let whole = lead + d;
    reveal_strlit("/");
    paths::law_join_then_take_apart(lead, d);
    assert(d.contains(d[0]));
    assert(paths::joined(lead, d) == whole);
    assert(whole.last() == d.last());
    if slash {
        assert((whole + "/"@).drop_last() =~= whole);
        assert(paths::trimmed(whole + "/"@) == paths::trimmed(whole));
    }
}

proof fn lemma_walked(lead: Seq<char>, d: Seq<char>, rest: Seq<Seq<char>>)
    requires
        is_lead(lead),
        is_plain(d),
        rest.len() > 0,
        all_plain(rest),
    ensures
        walked(lead + d + "/"@ + text::join(rest, "/"@), paths::trimmed(lead)) == d + "/"@
            + text::join(rest, "/"@),
{
    let all = seq![d] + rest;
    lemma_trimmed_components(lead);
    lemma_join_front(d, rest);
    assert forall|k: int| 0 <= k < all.len() implies is_plain(#[trigger] all[k]) by {
        if k > 0 {
            assert(all[k] == rest[k - 1]);
        }
    }
    assert forall|k: int| 0 <= k < all.len() implies !(#[trigger] all[k]).contains('/') by {
        assert(is_plain(all[k]));
    }
    let tail = text::join(all, "/"@);
    let file = lead + d + "/"@ + text::join(rest, "/"@);
    assert(file =~= lead + tail);
    lemma_split_lead(lead, tail);
    lemma_split_join(all);
    let dirs = text::split(lead, '/').drop_last();
    lemma_components_plain(dirs, all);
    lemma_lead_components(lead);
    let b = path_components(lead);
    let c = path_components(file);
    assert(c == b + all);
    assert(c.subrange(0, b.len() as int) =~= b);
    assert(c.skip(b.len() as int) =~= all);
}

proof fn lemma_lead_components(lead: Seq<char>)
    requires
        is_lead(lead),
    ensures
        path_components(lead) == components(text::split(lead, '/').drop_last()),
{
    let dirs = text::split(lead, '/').drop_last();
    if lead.len() > 0 {
        let l = lead.drop_last();
        paths::lemma_split_push(l, '/');
        assert(l.push('/') =~= lead);
        assert(dirs.len() > 0);
    } else {
        lemma_split_plain(lead);
        assert(dirs.len() == 0);
    }
}

/// A single file travels under its own name, wherever it lies.
pub proof fn law_files_keep_their_names(p: SendPath, lead: Seq<char>, name: Seq<char>)
    requires
        p.kind is File,
        is_lead(lead),
        is_plain(name),
        p.path@ == lead + name,
    ensures
        p.kind matches PathKind::File { size, mode, canonical } ==> forall|recursive: bool|
            (#[trigger] adds(p, recursive)) == Ok::<Seq<Queued>, Seq<char>>(
                seq![
                    Queued {
                        name,
                        size,
                        mode,
                        path: p.path@,
                        canonical: text::owned_view(canonical),
                    },
                ],
            ),
{
    paths::law_join_then_take_apart(lead, name);
    assert(name.contains(name[0]));
    assert(paths::joined(lead, name) == lead + name);
}

/// Everything on the command line is sent, in its order: what two lists of paths
/// come to together is what they come to one after the other, and what cannot
/// be sent is not passed over.
pub proof fn law_everything_named_is_sent(a: Seq<SendPath>, b: Seq<SendPath>, recursive: bool)
    ensures
        gathered(a + b, recursive) == match gathered(a, recursive) {
            Err(e) => Err::<Seq<Queued>, Seq<char>>(e),
            Ok(p) => match gathered(b, recursive) {
                Err(e) => Err::<Seq<Queued>, Seq<char>>(e),
                Ok(q) => Ok::<Seq<Queued>, Seq<char>>(p + q),
            },
        },
        a.len() == 1 ==> gathered(a, recursive) == adds(a[0], recursive),
        a.len() == 1 && (a[0].kind is Missing || a[0].kind is Special) ==> gathered(a, recursive)
            is Err,
    decreases b.len(),
{
    if a.len() == 1 {
        assert(a.drop_last() =~= Seq::<SendPath>::empty());
        assert(gathered(a.drop_last(), recursive) == Ok::<Seq<Queued>, Seq<char>>(seq![]));
        if let Ok(more) = adds(a[0], recursive) {
            assert(Seq::<Queued>::empty() + more =~= more);
        }
    }
    if b.len() == 0 {
        assert(a + b =~= a);
        if let Ok(p) = gathered(a, recursive) {
            assert(p + Seq::<Queued>::empty() =~= p);
        }
    } else {
        law_everything_named_is_sent(a, b.drop_last(), recursive);
        assert((a + b).drop_last() =~= a + b.drop_last());
        assert((a + b).last() == b.last());
        if let Ok(p) = gathered(a, recursive) {
            if let Ok(q) = gathered(b.drop_last(), recursive) {
                if let Ok(more) = adds(b.last(), recursive) {
                    assert(p + q + more =~= p + (q + more));
                }
            }
        }
    }
}

/// What is wrong with the arguments of `send`, if anything is.
pub fn send_args_error(use_stdin: bool, files: usize) -> (r: Option<String>)
    ensures
        text::owned_view(r) == if use_stdin && files > 0 {
            Some("cannot send stdin (`-`) together with file arguments"@)
        } else if !use_stdin && files == 0 {
            Some("provide files to send (use - for stdin)"@)
        } else {
            None
        },
{
    if use_stdin && files > 0 {
        Some(copy("cannot send stdin (`-`) together with file arguments"))
    } else if !use_stdin && files == 0 {
        Some(copy("provide files to send (use - for stdin)"))
    } else {
        None
    }
}

/// A transfer that is ready to be offered: what is announced, and what to say
/// before.
pub struct SendPlan {
    pub manifest: Vec<SendEntry>,
    pub notes: Vec<String>,
}

/// The name that standard input travels under.
pub const STDIN_WIRE_NAME: &'static str = "stdin";

/// What is said of files that were given twice.
pub open spec fn dropped_notes(v: Seq<(Seq<char>, Seq<char>)>) -> Seq<Seq<char>> {
    v.map_values(
        |p: (Seq<char>, Seq<char>)| "skipping "@ + p.0 + ": same file as "@ + p.1,
    )
}

pub open spec fn renamed_parts(v: Seq<(Seq<char>, Seq<char>)>) -> Seq<Seq<char>> {
    v.map_values(|p: (Seq<char>, Seq<char>)| p.0 + " as "@ + p.1)
}

/// What is said of files that travel under longer names.
pub open spec fn renamed_notes(v: Seq<(Seq<char>, Seq<char>)>) -> Seq<Seq<char>> {
    if v.len() == 0 {
        seq![]
    } else {
        seq![
            "duplicate names disambiguated: sending "@ + text::join(renamed_parts(v), ", "@),
        ]
    }
}

/// Prepare standard input of a known size for sending.
pub fn plan_stdin(size: u64) -> (r: SendPlan)
    ensures
        queue_views(r.manifest@) == seq![
            Queued {
                name: STDIN_WIRE_NAME@,
                size,
                mode: 420,
                path: Seq::empty(),
                canonical: None,
            },
        ],
        text::views(r.notes@) == seq![
            "stdin will arrive as a file named `stdin` (a `gritty receive -` streams it to stdout instead)"@,
        ],
{
    let e = SendEntry {
        name: copy(STDIN_WIRE_NAME),
        size,
        mode: 420,
        path: String::new(),
        canonical: None,
    };
    let manifest = vec![e];
    let notes = vec![
        copy(
            "stdin will arrive as a file named `stdin` (a `gritty receive -` streams it to stdout instead)",
        ),
    ];
    assert(queue_views(manifest@) =~= seq![
        Queued { name: STDIN_WIRE_NAME@, size, mode: 420, path: Seq::empty(), canonical: None },
    ]);
    assert(text::views(notes@) =~= seq![
        "stdin will arrive as a file named `stdin` (a `gritty receive -` streams it to stdout instead)"@,
    ]);
    SendPlan { manifest, notes }
}

/// Prepare files for sending: gather them, resolve their names, and say what
/// was changed.
pub fn plan_files(v: &Vec<SendPath>, recursive: bool) -> (r: Result<SendPlan, String>)
    ensures
        match gathered(v@, recursive) {
            Err(e) => r is Err && r->Err_0@ == e,
            Ok(q) => if q.len() == 0 {
                r is Err && r->Err_0@ == "no files to send"@
            } else {
                exists|start: Seq<SendEntry>|
                    {
                        &&& queue_views(start) == q
                        &&& match #[trigger] wire_names::resolved(
                            wire_names::items_of(start),
                            seq![],
                        ) {
                            Err(t) => r is Err && r->Err_0@ == wire_names::trouble_text(t),
                            Ok(done) => {
                                &&& r is Ok
                                &&& wire_names::entries_are(r->Ok_0.manifest@, done.0)
                                &&& text::views(r->Ok_0.notes@) == dropped_notes(done.1)
                                    + renamed_notes(wire_names::renamed(done.0))
                            },
                        }
                    }
            },
        },
{
    let entries = match gather(v, recursive) {
        Ok(e) => e,
        Err(e) => {
            return Err(e);
        },
    };
    assert(queue_views(entries@).len() == entries@.len());
    if entries.len() == 0 {
        return Err(copy("no files to send"));
    }
    let ghost start = entries@;
    let ghost out = wire_names::resolved(wire_names::items_of(start), seq![]);
    match uniquify_wire_names(entries) {
        Err(c) => Err(c.message()),
        Ok(u) => {
            let ghost drops = wire_names::pair_views(u.dropped@);
            let ghost want = dropped_notes(drops);
            let mut notes: Vec<String> = Vec::new();
            let mut i: usize = 0;
            assert(text::views(notes@) =~= want.take(0));
            while i < u.dropped.len()
                invariant
                    i <= u.dropped@.len(),
                    drops == wire_names::pair_views(u.dropped@),
                    want == dropped_notes(drops),
                    text::views(notes@) == want.take(i as int),
                decreases u.dropped@.len() - i,
            {
                let s = cat4(
                    "skipping ",
                    u.dropped[i].0.as_str(),
                    ": same file as ",
                    u.dropped[i].1.as_str(),
                );
                proof {
                    text::lemma_views_push(notes@, s);
                    assert(want[i as int] == s@);
                    assert(want.take(i + 1) =~= want.take(i as int).push(s@));
                }
                notes.push(s);
                i = i + 1;
            }
            assert(want.take(i as int) =~= want);
            let ghost names = wire_names::pair_views(u.renames@);
            assert(names.len() == u.renames@.len());
            if u.renames.len() > 0 {
                let ghost parts = renamed_parts(names);
                let mut list: Vec<String> = Vec::new();
                let mut k: usize = 0;
                assert(text::views(list@) =~= parts.take(0));
                while k < u.renames.len()
                    invariant
                        k <= u.renames@.len(),
                        names == wire_names::pair_views(u.renames@),
                        parts == renamed_parts(names),
                        text::views(list@) == parts.take(k as int),
                    decreases u.renames@.len() - k,
                {
                    let s = cat3(u.renames[k].0.as_str(), " as ", u.renames[k].1.as_str());
                    proof {
                        text::lemma_views_push(list@, s);
                        assert(parts[k as int] == s@);
                        assert(parts.take(k + 1) =~= parts.take(k as int).push(s@));
                    }
                    list.push(s);
                    k = k + 1;
                }
                assert(parts.take(k as int) =~= parts);
                let all = join_texts(&list, ", ");
                let line = cat2("duplicate names disambiguated: sending ", all.as_str());
                proof {
                    text::lemma_views_push(notes@, line);
                    assert(want.push(line@) =~= want + renamed_notes(names));
                }
                notes.push(line);
            } else {
                assert(want + renamed_notes(names) =~= want);
            }
            assert(text::views(notes@) == dropped_notes(drops) + renamed_notes(names));
            Ok(SendPlan { manifest: u.entries, notes })
        },
    }
}

/// The bytes of all files together.
pub open spec fn total_of(v: Seq<SendEntry>) -> nat
    decreases v.len(),
{
    if v.len() == 0 {
        0
    } else {
        total_of(v.drop_last()) + v.last().size as nat
    }
}

proof fn lemma_total_grows(v: Seq<SendEntry>, k: int)
    requires
        0 <= k <= v.len(),
    ensures
        total_of(v.take(k)) <= total_of(v),
    decreases v.len() - k,
{
    if k < v.len() {
        lemma_total_grows(v, k + 1);
        assert(v.take(k + 1).drop_last() == v.take(k));
    } else {
        assert(v.take(k) == v);
    }
}

/// What is said when the sending begins.
pub fn sending_line(v: &Vec<SendEntry>) -> (r: String)
    requires
        total_of(v@) <= u64::MAX,
    ensures
        r@ == "sending "@ + text::counted(v@.len(), "file"@) + " ("@ + outside::human_size(
            total_of(v@) as u64,
        ) + ")"@,
{
    let mut total: u64 = 0;
    let mut i: usize = 0;
    assert(v@.take(0) == Seq::<SendEntry>::empty());
    while i < v.len()
        invariant
            i <= v@.len(),
            total_of(v@) <= u64::MAX,
            total == total_of(v@.take(i as int)),
        decreases v@.len() - i,
    {
        assert(v@.take(i + 1).drop_last() == v@.take(i as int));
        assert(v@.take(i + 1).last() == v@[i as int]);
        proof {
            lemma_total_grows(v@, i + 1);
        }
        total = total + v[i].size;
        i = i + 1;
    }
    assert(v@.take(i as int) == v@);
    let count = count_text(v.len(), "file");
    let size = format_size(total);
    cat5("sending ", count.as_str(), " (", size.as_str(), ")")
}

/// The most characters that any of the names has.
pub open spec fn widest_name(v: Seq<SendEntry>) -> nat
    decreases v.len(),
{
    if v.len() == 0 {
        0
    } else {
        let rest = widest_name(v.drop_last());
        if v.last().name@.len() > rest {
            v.last().name@.len()
        } else {
            rest
        }
    }
}

/// The width of the column of names.
pub fn name_width(v: &Vec<SendEntry>) -> (r: usize)
    ensures
        r == widest_name(v@),
{
    let mut w: usize = 0;
    let mut i: usize = 0;
    assert(v@.take(0) == Seq::<SendEntry>::empty());
    while i < v.len()
        invariant
            i <= v@.len(),
            w == widest_name(v@.take(i as int)),
        decreases v@.len() - i,
    {
        assert(v@.take(i + 1).drop_last() == v@.take(i as int));
        assert(v@.take(i + 1).last() == v@[i as int]);
        let n: usize = v[i].name.as_str().unicode_len();
        if n > w {
            w = n;
        }
        i = i + 1;
    }
    assert(v@.take(i as int) == v@);
    w
}

/// How much is read next of what remains.
pub open spec fn chunk_of(remaining: u64, buffer: usize) -> usize {
    if remaining < buffer {
        remaining as usize
    } else {
        buffer
    }
}

/// What remains after a read, unless it brought nothing.
pub open spec fn rest_of(remaining: u64, read: usize) -> Option<u64> {
    if read == 0 {
        None
    } else {
        Some((remaining - read) as u64)
    }
}

/// What remains of a file after some reads, each into what was left of the
/// buffer; nothing where one of them brought nothing.
pub open spec fn rest_after(size: u64, reads: Seq<usize>) -> Option<u64>
    decreases reads.len(),
{
    if reads.len() == 0 {
        Some(size)
    } else {
        match rest_after(size, reads.drop_last()) {
            Some(r) => rest_of(r, reads.last()),
            None => None,
        }
    }
}

/// Whether each of some reads fits what it was given room for.
pub open spec fn reads_fit(size: u64, buffer: usize, reads: Seq<usize>) -> bool
    decreases reads.len(),
{
    reads.len() == 0 || {
        &&& reads_fit(size, buffer, reads.drop_last())
        &&& rest_after(size, reads.drop_last()) matches Some(r) ==> reads.last() <= chunk_of(
            r,
            buffer,
        )
    }
}

/// All of some reads together.
pub open spec fn sum_of(reads: Seq<usize>) -> int
    decreases reads.len(),
{
    if reads.len() == 0 {
        0
    } else {
        sum_of(reads.drop_last()) + reads.last()
    }
}

/// A file is read to its end and no further: what was read and what remains
/// are always the whole, as long as something remains there is room for more,
/// and only a read that brings nothing stops it early.
pub proof fn law_files_are_read_to_the_end(size: u64, buffer: usize, reads: Seq<usize>)
    requires
        reads_fit(size, buffer, reads),
        buffer > 0,
    ensures
        rest_after(size, reads) is None <==> reads.contains(0usize),
        rest_after(size, reads) matches Some(r) ==> {
            &&& r + sum_of(reads) == size
            &&& chunk_of(r, buffer) <= r && chunk_of(r, buffer) <= buffer
            &&& chunk_of(r, buffer) == 0 <==> r == 0
            &&& chunk_of(r, buffer) == r || chunk_of(r, buffer) == buffer
        },
    decreases reads.len(),
{
    if reads.len() > 0 {
        let init = reads.drop_last();
        law_files_are_read_to_the_end(size, buffer, init);
        assert(reads == init.push(reads.last()));
        if init.contains(0usize) {
            let i = choose|i: int| 0 <= i < init.len() && init[i] == 0usize;
            assert(reads[i] == 0usize);
        }
        if reads.contains(0usize) && !init.contains(0usize) {
            let i = choose|i: int| 0 <= i < reads.len() && reads[i] == 0usize;
            if i < init.len() {
                assert(init[i] == 0usize);
            }
        }
        if reads.last() == 0usize {
            assert(reads[reads.len() - 1] == 0usize);
        }
    }
}

/// How much is read next of what remains, with a buffer of a given size.
pub fn next_chunk(remaining: u64, buffer: usize) -> (r: usize)
    ensures
        r == chunk_of(remaining, buffer),
        r <= buffer,
        r <= remaining,
{
    if remaining < buffer as u64 {
        remaining as usize
    } else {
        buffer
    }
}

/// What remains of a file after some of it was read; a file that ends before
/// its time cannot be sent.
pub fn remaining_after(name: &str, remaining: u64, read: usize) -> (r: Result<u64, String>)
    requires
        read <= remaining,
    ensures
        match rest_of(remaining, read) {
            None => r is Err && r->Err_0@ == "unexpected EOF reading "@ + name@,
            Some(rest) => r is Ok && r->Ok_0 == rest,
        },
{
    if read == 0 {
        return Err(cat2("unexpected EOF reading ", name));
    }
    Ok(remaining - read as u64)
}

/// What is said when standard input is sent.
pub fn sending_stdin_line(size: u64) -> (r: String)
    ensures
        r@ == "sending stdin ("@ + outside::human_size(size) + ")"@,
{
    let s = format_size(size);
    cat3("sending stdin (", s.as_str(), ")")
}

/// What is said when a session answered.
pub fn paired_line(label: &str) -> (r: String)
    ensures
        r@ == "paired with session "@ + label@,
{
    cat2("paired with session ", label)
}

/// Whether a server lets a transfer into one of its sessions.
pub fn transfer_reply(reply: ServerReply, shown: &str) -> (r: Result<(), String>)
    ensures
        match reply {
            ServerReply::Granted => r is Ok,
            ServerReply::Failed { message, .. } => r is Err && r->Err_0@ == message@,
            _ => r is Err && r->Err_0@ == "unexpected response: "@ + shown@,
        },
{
    match reply {
        ServerReply::Granted => Ok(()),
        ServerReply::Failed { message, .. } => Err(message),
        _ => Err(cat2("unexpected response: ", shown)),
    }
}

/// What is said of a session that an offer could not be written to.
pub fn skipped_session_line(label: Option<&str>, error: &str) -> (r: String)
    ensures
        r@ == "skipping session "@ + (match label {
            Some(l) => l@,
            None => "?"@,
        }) + ": "@ + error@,
{
    match label {
        Some(l) => cat4("skipping session ", l, ": ", error),
        None => cat4("skipping session ", "?", ": ", error),
    }
}

/// Whether any session took the offer.
pub fn offer_result(taken: usize, peer: &str) -> (r: Result<(), String>)
    ensures
        r is Ok <==> taken > 0,
        r matches Err(e) ==> e@ == "no reachable "@ + peer@ + " sessions"@,
{
    if taken == 0 {
        return Err(cat3("no reachable ", peer, " sessions"));
    }
    Ok(())
}

} // verus!
