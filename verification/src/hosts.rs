//! The overview of every host: who answers, which names lead to the same
//! server, and how the sections are headed.

use vstd::prelude::*;
use crate::config::holds;
use crate::protocol;
use crate::protocol::{require_matched_version, SessionEntry, PROTOCOL_VERSION};
use crate::text;
use crate::text::{cat3, copy, join_texts, same};

verus! {

/// A host that was asked: the tunnel to it, if there is one, with where it
/// leads and how it is; and the server's identity and sessions, or what went
/// wrong.
pub struct ProbedHost {
    pub host: String,
    pub tunnel: Option<(String, String)>,
    pub outcome: Result<(u64, Vec<SessionEntry>), String>,
}

/// A name that leads to a server, and the tunnel behind it.
pub struct Member {
    pub host: String,
    pub tunnel: Option<(String, String)>,
}

/// The names that lead to one server, and what it said.
pub struct HostGroup {
    pub members: Vec<Member>,
    pub result: Result<Vec<SessionEntry>, String>,
}

/// A name that leads to a server, as a value.
pub struct MemberModel {
    pub host: Seq<char>,
    pub tunnel: Option<(Seq<char>, Seq<char>)>,
}

/// The names that lead to one server, as a value. Only a server that answered
/// has an identity.
pub struct GroupModel {
    pub id: Option<u64>,
    pub members: Seq<MemberModel>,
    pub result: Result<Seq<SessionEntry>, Seq<char>>,
}

pub open spec fn tunnel_view(t: Option<(String, String)>) -> Option<(Seq<char>, Seq<char>)> {
    match t {
        Some((d, s)) => Some((d@, s@)),
        None => None,
    }
}

impl View for Member {
    type V = MemberModel;

    open spec fn view(&self) -> MemberModel {
        MemberModel { host: self.host@, tunnel: tunnel_view(self.tunnel) }
    }
}

pub open spec fn members_of(v: Seq<Member>) -> Seq<MemberModel> {
    v.map_values(|m: Member| m@)
}

pub open spec fn result_view(r: Result<Vec<SessionEntry>, String>) -> Result<
    Seq<SessionEntry>,
    Seq<char>,
> {
    match r {
        Ok(v) => Ok(v@),
        Err(e) => Err(e@),
    }
}

/// Whether a host belongs in the overview. A socket that nobody answers on,
/// without a tunnel, is a leftover; the local server and tunnels always show.
pub open spec fn listable(p: ProbedHost) -> bool {
    p.host@ == "local"@ || p.tunnel is Some || p.outcome is Ok
}

/// Whether a host belongs in the overview.
pub fn is_listable(p: &ProbedHost) -> (r: bool)
    ensures
        r == listable(*p),
{
    same(p.host.as_str(), "local") || p.tunnel.is_some() || p.outcome.is_ok()
}

/// The hosts that belong in the overview, in their order.
pub open spec fn listed(v: Seq<ProbedHost>) -> Seq<ProbedHost>
    decreases v.len(),
{
    if v.len() == 0 {
        seq![]
    } else if listable(v.last()) {
        listed(v.drop_last()).push(v.last())
    } else {
        listed(v.drop_last())
    }
}

/// The hosts that belong in the overview, in their order. It is an error if
/// there are none: nothing runs and nothing leads anywhere.
pub fn listable_hosts(probed: Vec<ProbedHost>) -> (r: Result<Vec<ProbedHost>, String>)
    ensures
        if listed(probed@).len() == 0 {
            r is Err && r->Err_0@ == "no server running and no tunnels found"@
        } else {
            r is Ok && r->Ok_0@ == listed(probed@)
        },
{
    let ghost all = probed@;
    let mut left = probed;
    let mut back: Vec<ProbedHost> = Vec::new();
    while left.len() > 0
        invariant
            left@ == all.take(left@.len() as int),
            left@.len() + back@.len() == all.len(),
            forall|k: int| 0 <= k < back@.len() ==> #[trigger] back@[k] == all[all.len() - 1 - k],
        decreases left@.len(),
    {
        let ghost n = left@.len();
        if let Some(p) = left.pop() {
            assert(p == all[n - 1]);
            back.push(p);
            assert(left@ =~= all.take(n - 1));
        }
    }
    let mut kept: Vec<ProbedHost> = Vec::new();
    let ghost mut done: int = 0;
    assert(all.take(0) =~= seq![]);
    while back.len() > 0
        invariant
            0 <= done <= all.len(),
            back@.len() == all.len() - done,
            forall|k: int| 0 <= k < back@.len() ==> #[trigger] back@[k] == all[all.len() - 1 - k],
            kept@ == listed(all.take(done)),
        decreases back@.len(),
    {
        if let Some(p) = back.pop() {
            proof {
                assert(p == all[done]);
                assert(all.take(done + 1).drop_last() =~= all.take(done));
                done = done + 1;
            }
            if is_listable(&p) {
                kept.push(p);
            }
        }
    }
    assert(all.take(done) =~= all);
    if kept.len() == 0 {
        Err(copy("no server running and no tunnels found"))
    } else {
        Ok(kept)
    }
}

/// Whether this came of asking a server for its sessions.
pub open spec fn is_answer(
    version: u16,
    server_id: u64,
    listed: Result<Vec<SessionEntry>, String>,
    r: Result<(u64, Vec<SessionEntry>), String>,
) -> bool {
    if version != PROTOCOL_VERSION {
        r is Err && r->Err_0@ == protocol::mismatch_text(version)
    } else {
        match listed {
            Ok(v) => r == Ok::<(u64, Vec<SessionEntry>), String>((server_id, v)),
            Err(e) => r == Err::<(u64, Vec<SessionEntry>), String>(e),
        }
    }
}

/// Sessions come only from a server that speaks this protocol, as it lists
/// them and under its own number; a server that does speak it is never
/// accused of another version.
pub proof fn law_only_matching_servers_are_listed(
    version: u16,
    server_id: u64,
    listed: Result<Vec<SessionEntry>, String>,
    r: Result<(u64, Vec<SessionEntry>), String>,
)
    requires
        is_answer(version, server_id, listed, r),
    ensures
        r is Ok <==> version == PROTOCOL_VERSION && listed is Ok,
        r matches Ok(p) ==> p.0 == server_id && Ok::<Vec<SessionEntry>, String>(p.1) == listed,
        version == PROTOCOL_VERSION && listed is Err ==> r->Err_0 == listed->Err_0,
{
}

/// What came of asking a server for its sessions: one that speaks another
/// version of the protocol is not talked to.
pub fn probe_result(
    version: u16,
    server_id: u64,
    listed: Result<Vec<SessionEntry>, String>,
) -> (r: Result<(u64, Vec<SessionEntry>), String>)
    ensures
        is_answer(version, server_id, listed, r),
{
    if let Err(e) = require_matched_version(version) {
        return Err(e);
    }
    match listed {
        Ok(v) => Ok((server_id, v)),
        Err(e) => Err(e),
    }
}

/// The place of the group of a server; the number of groups if it has none.
pub open spec fn group_place(groups: Seq<GroupModel>, id: u64) -> int
    decreases groups.len(),
{
    if groups.len() == 0 || groups[0].id == Some(id) {
        0
    } else {
        1 + group_place(groups.skip(1), id)
    }
}

/// The groups with one more host.
pub open spec fn joined_by(groups: Seq<GroupModel>, p: ProbedHost) -> Seq<GroupModel> {
    let member = MemberModel { host: p.host@, tunnel: tunnel_view(p.tunnel) };
    match p.outcome {
        Ok((id, v)) => {
            let k = group_place(groups, id);
            if k < groups.len() {
                groups.update(
                    k,
                    GroupModel { members: groups[k].members.push(member), ..groups[k] },
                )
            } else {
                groups.push(GroupModel { id: Some(id), members: seq![member], result: Ok(v@) })
            }
        },
        Err(e) => groups.push(GroupModel { id: None, members: seq![member], result: Err(e@) }),
    }
}

/// The hosts by the server that they lead to, in the order in which the
/// servers first appear. A host that failed stands alone: without an answer
/// there is nothing to tell who it is.
pub open spec fn grouped(probed: Seq<ProbedHost>) -> Seq<GroupModel>
    decreases probed.len(),
{
    if probed.len() == 0 {
        seq![]
    } else {
        joined_by(grouped(probed.drop_last()), probed.last())
    }
}

pub proof fn lemma_group_place(groups: Seq<GroupModel>, id: u64)
    ensures
        0 <= group_place(groups, id) <= groups.len(),
        group_place(groups, id) < groups.len() ==> groups[group_place(groups, id)].id == Some(id),
        forall|i: int| 0 <= i < group_place(groups, id) ==> (#[trigger] groups[i]).id != Some(id),
    decreases groups.len(),
{
    if groups.len() > 0 && groups[0].id != Some(id) {
        let rest = groups.skip(1);
        lemma_group_place(rest, id);
        assert forall|i: int| 0 <= i < group_place(groups, id) implies (#[trigger] groups[i]).id
            != Some(id) by {
            if i > 0 {
                assert(groups[i] == rest[i - 1]);
            }
        }
    }
}

/// Whether the groups stand for these values.
pub open spec fn groups_are(groups: Seq<HostGroup>, ids: Seq<Option<u64>>, m: Seq<GroupModel>) -> bool {
    &&& groups.len() == m.len()
    &&& ids.len() == m.len()
    &&& forall|i: int|
        0 <= i < m.len() ==> {
            &&& (#[trigger] m[i]).id == ids[i]
            &&& members_of(groups[i].members@) == m[i].members
            &&& result_view(groups[i].result) == m[i].result
        }
}

/// Group the hosts by the server that they lead to.
pub fn group_by_daemon(probed: Vec<ProbedHost>) -> (r: Vec<HostGroup>)
    ensures
        r@.len() == grouped(probed@).len(),
        forall|i: int|
            0 <= i < r@.len() ==> members_of((#[trigger] r@[i]).members@) == grouped(
                probed@,
            )[i].members && result_view(r@[i].result) == grouped(probed@)[i].result,
{
    let ghost all = probed@;
    let mut groups: Vec<HostGroup> = Vec::new();
    let mut ids: Vec<Option<u64>> = Vec::new();
    let mut rest: Vec<ProbedHost> = reversed(probed);
    let ghost mut done: int = 0;
    assert(all.take(0) == Seq::<ProbedHost>::empty());
    while rest.len() > 0
        invariant
            0 <= done <= all.len(),
            rest@.len() == all.len() - done,
            forall|i: int| 0 <= i < rest@.len() ==> rest@[i] == all[all.len() - 1 - i],
            groups_are(groups@, ids@, grouped(all.take(done))),
        decreases rest@.len(),
    {
        let ghost before = grouped(all.take(done));
        let ghost pre_rest = rest@;
        let p = match rest.pop() {
            Some(p) => p,
            None => {
                return groups;
            },
        };
        proof {
            assert(pre_rest[pre_rest.len() - 1] == all[done]);
            assert(p == all[done]);
            assert(all.take(done + 1).drop_last() == all.take(done));
            assert(all.take(done + 1).last() == p);
        }
        let ghost pv = p;
        let member = Member { host: p.host, tunnel: p.tunnel };
        let ghost mv = member@;
        match p.outcome {
            Ok((id, v)) => {
                let k: usize = place_of(&ids, id);
                proof {
                    lemma_group_place(before, id);
                    let g = group_place(before, id);
                    if k < ids@.len() {
                        assert(before[k as int].id == ids@[k as int]);
                    }
                    if g < before.len() {
                        assert(before[g].id == ids@[g]);
                    }
                    if k < g {
                        assert(before[k as int].id != Some(id));
                    }
                    assert(k == g);
                }
                if k < groups.len() {
                    let ghost was = groups@;
                    groups[k].members.push(member);
                    proof {
                        let now = grouped(all.take(done + 1));
                        assert(members_of(groups@[k as int].members@) =~= members_of(
                            was[k as int].members@,
                        ).push(mv));
                        assert forall|i: int| 0 <= i < now.len() implies {
                            &&& (#[trigger] now[i]).id == ids@[i]
                            &&& members_of(groups@[i].members@) == now[i].members
                            &&& result_view(groups@[i].result) == now[i].result
                        } by {
                            assert(before[i].id == ids@[i]);
                        }
                    }
                } else {
                    let group = HostGroup { members: vec![member], result: Ok(v) };
                    assert(members_of(group.members@) =~= seq![mv]);
                    let ghost was = groups@;
                    let ghost was_ids = ids@;
                    groups.push(group);
                    ids.push(Some(id));
                    proof {
                        let now = grouped(all.take(done + 1));
                        assert forall|i: int| 0 <= i < now.len() implies {
                            &&& (#[trigger] now[i]).id == ids@[i]
                            &&& members_of(groups@[i].members@) == now[i].members
                            &&& result_view(groups@[i].result) == now[i].result
                        } by {
                            if i < before.len() {
                                assert(before[i].id == was_ids[i]);
                                assert(groups@[i] == was[i]);
                            }
                        }
                    }
                }
            },
            Err(e) => {
                let group = HostGroup { members: vec![member], result: Err(e) };
                assert(members_of(group.members@) =~= seq![mv]);
                let ghost was = groups@;
                let ghost was_ids = ids@;
                groups.push(group);
                ids.push(None);
                proof {
                    let now = grouped(all.take(done + 1));
                    assert forall|i: int| 0 <= i < now.len() implies {
                        &&& (#[trigger] now[i]).id == ids@[i]
                        &&& members_of(groups@[i].members@) == now[i].members
                        &&& result_view(groups@[i].result) == now[i].result
                    } by {
                        if i < before.len() {
                            assert(before[i].id == was_ids[i]);
                            assert(groups@[i] == was[i]);
                        }
                    }
                }
            },
        }
        proof {
            done = done + 1;
        }
    }
    assert(all.take(done) == all);
    proof {
        let m = grouped(all);
        assert forall|i: int| 0 <= i < groups@.len() implies members_of(
            (#[trigger] groups@[i]).members@,
        ) == m[i].members && result_view(groups@[i].result) == m[i].result by {
            assert(m[i].id == ids@[i]);
        }
    }
    groups
}

fn place_of(ids: &Vec<Option<u64>>, id: u64) -> (k: usize)
    ensures
        k <= ids@.len(),
        k < ids@.len() ==> ids@[k as int] == Some(id),
        forall|i: int| 0 <= i < k ==> #[trigger] ids@[i] != Some(id),
{
    let mut k: usize = 0;
    while k < ids.len()
        invariant
            k <= ids@.len(),
            forall|i: int| 0 <= i < k ==> #[trigger] ids@[i] != Some(id),
        decreases ids@.len() - k,
    {
        match ids[k] {
            Some(x) => {
                if x == id {
                    return k;
                }
            },
            None => {},
        }
        k = k + 1;
    }
    k
}

/// The things in the opposite order.
fn reversed<T>(v: Vec<T>) -> (r: Vec<T>)
    ensures
        r@.len() == v@.len(),
        forall|i: int| 0 <= i < r@.len() ==> r@[i] == v@[v@.len() - 1 - i],
{
    let ghost all = v@;
    let mut left = v;
    let mut r: Vec<T> = Vec::new();
    while left.len() > 0
        invariant
            left@.len() + r@.len() == all.len(),
            forall|i: int| 0 <= i < left@.len() ==> left@[i] == all[i],
            forall|i: int| 0 <= i < r@.len() ==> r@[i] == all[all.len() - 1 - i],
        decreases left@.len(),
    {
        let ghost pre = left@;
        if let Some(x) = left.pop() {
            assert(x == pre[pre.len() - 1]);
            assert(x == all[pre.len() - 1]);
            r.push(x);
        }
    }
    r
}

/// How many names stand in the groups.
pub open spec fn member_count(groups: Seq<GroupModel>) -> nat
    decreases groups.len(),
{
    if groups.len() == 0 {
        0
    } else {
        member_count(groups.drop_last()) + groups.last().members.len()
    }
}

proof fn lemma_count_update(groups: Seq<GroupModel>, k: int, g: GroupModel)
    requires
        0 <= k < groups.len(),
    ensures
        member_count(groups.update(k, g)) == member_count(groups) - groups[k].members.len()
            + g.members.len(),
    decreases groups.len(),
{
    let u = groups.update(k, g);
    if k == groups.len() - 1 {
        assert(u.drop_last() == groups.drop_last());
    } else {
        assert(u.drop_last() == groups.drop_last().update(k, g));
        lemma_count_update(groups.drop_last(), k, g);
    }
}

/// Each server has one group, and each failure its own.
pub proof fn law_one_group_per_server(probed: Seq<ProbedHost>)
    ensures
        forall|i: int, j: int|
            0 <= i < j < grouped(probed).len() ==> ((#[trigger] grouped(probed)[i]).id is None || (
            #[trigger] grouped(probed)[j]).id != grouped(probed)[i].id),
        forall|i: int|
            0 <= i < grouped(probed).len() ==> {
                &&& (#[trigger] grouped(probed)[i]).id is None <==> grouped(probed)[i].result is Err
                &&& grouped(probed)[i].id is None ==> grouped(probed)[i].members.len() == 1
                &&& grouped(probed)[i].members.len() >= 1
            },
    decreases probed.len(),
{
    if probed.len() > 0 {
        let init = probed.drop_last();
        law_one_group_per_server(init);
        let before = grouped(init);
        let now = grouped(probed);
        if let Ok((id, v)) = probed.last().outcome {
            lemma_group_place(before, id);
            assert forall|i: int, j: int| 0 <= i < j < now.len() implies ((#[trigger] now[i]).id
                is None || (#[trigger] now[j]).id != now[i].id) by {
                if i < before.len() && j < before.len() {
                    assert(before[i].id is None || before[j].id != before[i].id);
                } else {
                    assert(before[i].id != Some(id));
                }
            }
            assert forall|i: int| 0 <= i < now.len() implies {
                &&& (#[trigger] now[i]).id is None <==> now[i].result is Err
                &&& now[i].id is None ==> now[i].members.len() == 1
                &&& now[i].members.len() >= 1
            } by {
                if i < before.len() {
                    assert(before[i].members.len() >= 1);
                }
            }
        } else {
            assert forall|i: int, j: int| 0 <= i < j < now.len() implies ((#[trigger] now[i]).id
                is None || (#[trigger] now[j]).id != now[i].id) by {
                if j < before.len() {
                    assert(before[i].id is None || before[j].id != before[i].id);
                }
            }
            assert forall|i: int| 0 <= i < now.len() implies {
                &&& (#[trigger] now[i]).id is None <==> now[i].result is Err
                &&& now[i].id is None ==> now[i].members.len() == 1
                &&& now[i].members.len() >= 1
            } by {
                if i < before.len() {
                    assert(before[i].members.len() >= 1);
                }
            }
        }
    }
}

/// Every host that was asked stands in the groups, and none twice.
pub proof fn law_groups_keep_every_host(probed: Seq<ProbedHost>)
    ensures
        member_count(grouped(probed)) == probed.len(),
        probed.len() > 0 ==> grouped(probed).len() > 0 && grouped(probed)[0].members.len() > 0
            && grouped(probed)[0].members[0] == (MemberModel {
            host: probed[0].host@,
            tunnel: tunnel_view(probed[0].tunnel),
        }),
    decreases probed.len(),
{
    if probed.len() > 0 {
        let init = probed.drop_last();
        law_groups_keep_every_host(init);
        let before = grouped(init);
        let now = grouped(probed);
        let p = probed.last();
        let member = MemberModel { host: p.host@, tunnel: tunnel_view(p.tunnel) };
        if probed.len() == 1 {
            assert(before == Seq::<GroupModel>::empty());
        }
        match p.outcome {
            Ok((id, v)) => {
                lemma_group_place(before, id);
                let k = group_place(before, id);
                if k < before.len() {
                    let g = GroupModel { members: before[k].members.push(member), ..before[k] };
                    lemma_count_update(before, k, g);
                } else {
                    assert(now.drop_last() == before);
                }
            },
            Err(e) => {
                assert(now.drop_last() == before);
            },
        }
    }
}

/// The names of a group's members.
pub open spec fn group_names(members: Seq<MemberModel>) -> Seq<Seq<char>> {
    members.map_values(|m: MemberModel| m.host)
}

/// Where the tunnels of a group lead, as far as that says more than the names.
pub open spec fn telling(members: Seq<MemberModel>, names: Seq<Seq<char>>) -> Seq<Seq<char>>
    decreases members.len(),
{
    if members.len() == 0 {
        seq![]
    } else {
        let rest = telling(members.drop_last(), names);
        match members.last().tunnel {
            Some((dest, _)) => if !names.contains(dest) && !rest.contains(dest) {
                rest.push(dest)
            } else {
                rest
            },
            None => rest,
        }
    }
}

/// How the tunnels of a group are: the first that is not healthy decides.
pub open spec fn group_status(members: Seq<MemberModel>) -> Option<Seq<char>>
    decreases members.len(),
{
    if members.len() == 0 {
        None
    } else {
        let rest = group_status(members.drop_last());
        match members.last().tunnel {
            Some((_, s)) => match rest {
                Some(w) => if w == "healthy"@ {
                    Some(s)
                } else {
                    rest
                },
                None => Some(s),
            },
            None => rest,
        }
    }
}

/// What is told of a group beside its names.
pub open spec fn group_parts(members: Seq<MemberModel>) -> Seq<Seq<char>> {
    telling(members, group_names(members)) + (if members.len() > 1 {
        seq!["same daemon"@]
    } else {
        seq![]
    }) + (match group_status(members) {
        Some(s) => seq![s],
        None => seq![],
    })
}

/// The head of a group: its names, and what is told beside them.
pub fn group_header(group: &HostGroup) -> (r: (String, Option<String>))
    ensures
        ({
            let members = members_of(group.members@);
            let parts = group_parts(members);
            &&& r.0@ == text::join(group_names(members), ", "@)
            &&& text::owned_view(r.1) == if parts.len() == 0 {
                None
            } else {
                Some(text::join(parts, ", "@))
            }
        }),
{
    let ghost members = members_of(group.members@);
    let mut names: Vec<String> = Vec::new();
    let mut i: usize = 0;
    assert(group_names(members).take(0) == Seq::<Seq<char>>::empty());
    assert(text::views(names@) == Seq::<Seq<char>>::empty());
    while i < group.members.len()
        invariant
            i <= group.members@.len(),
            members == members_of(group.members@),
            text::views(names@) == group_names(members).take(i as int),
        decreases group.members@.len() - i,
    {
        let name = copy(group.members[i].host.as_str());
        proof {
            text::lemma_views_push(names@, name);
            assert(group_names(members)[i as int] == name@);
            assert(group_names(members).take(i + 1) == group_names(members).take(i as int).push(
                name@,
            ));
        }
        names.push(name);
        i = i + 1;
    }
    assert(group_names(members).take(i as int) == group_names(members));
    let mut parts: Vec<String> = Vec::new();
    let mut status: Option<String> = None;
    let mut k: usize = 0;
    assert(members.take(0) == Seq::<MemberModel>::empty());
    assert(text::views(parts@) == Seq::<Seq<char>>::empty());
    while k < group.members.len()
        invariant
            k <= group.members@.len(),
            members == members_of(group.members@),
            text::views(names@) == group_names(members),
            text::views(parts@) == telling(members.take(k as int), group_names(members)),
            text::owned_view(status) == group_status(members.take(k as int)),
        decreases group.members@.len() - k,
    {
        proof {
            assert(members.take(k + 1).drop_last() == members.take(k as int));
            assert(members.take(k + 1).last() == group.members@[k as int]@);
        }
        match &group.members[k].tunnel {
            Some((dest, word)) => {
                if !holds(&names, dest.as_str()) && !holds(&parts, dest.as_str()) {
                    let d = copy(dest.as_str());
                    proof {
                        text::lemma_views_push(parts@, d);
                    }
                    parts.push(d);
                }
                let take = match &status {
                    Some(w) => same(w.as_str(), "healthy"),
                    None => true,
                };
                if take {
                    status = Some(copy(word.as_str()));
                }
            },
            None => {},
        }
        k = k + 1;
    }
    assert(members.take(k as int) == members);
    let ghost dests = text::views(parts@);
    assert(members.len() == group.members@.len());
    if group.members.len() > 1 {
        let d = copy("same daemon");
        proof {
            text::lemma_views_push(parts@, d);
        }
        parts.push(d);
    }
    match status {
        Some(w) => {
            proof {
                text::lemma_views_push(parts@, w);
            }
            parts.push(w);
        },
        None => {},
    }
    assert(text::views(parts@) =~= group_parts(members));
    assert(text::views(parts@).len() == parts@.len());
    let told = if parts.len() == 0 {
        None
    } else {
        Some(join_texts(&parts, ", "))
    };
    (join_texts(&names, ", "), told)
}

/// The first line of a group's section.
pub fn header_line(names: &str, told: Option<String>) -> (r: String)
    ensures
        r@ == match told {
            Some(t) => names@ + "  \x1b[2m("@ + t@ + ")\x1b[0m"@,
            None => names@,
        },
{
    match told {
        Some(t) => text::cat4(names, "  \x1b[2m(", t.as_str(), ")\x1b[0m"),
        None => copy(names),
    }
}

/// What stands in place of a group's sessions where there are none to list.
pub fn empty_section(group: &HostGroup) -> (r: Option<String>)
    ensures
        text::owned_view(r) == match group.result {
            Ok(v) => if v@.len() == 0 {
                Some("  \x1b[2m(no sessions)\x1b[0m"@)
            } else {
                None
            },
            Err(e) => Some("  \x1b[2;33m\u{26a0} "@ + e@ + "\x1b[0m"@),
        },
{
    match &group.result {
        Ok(v) => if v.len() == 0 {
            Some(copy("  \x1b[2m(no sessions)\x1b[0m"))
        } else {
            None
        },
        Err(e) => Some(cat3("  \x1b[2;33m\u{26a0} ", e.as_str(), "\x1b[0m")),
    }
}

/// One tunnel that is in trouble is enough for its group to show it.
pub proof fn law_trouble_wins(members: Seq<MemberModel>, i: int)
    requires
        0 <= i < members.len(),
        members[i].tunnel is Some,
        (members[i].tunnel->0).1 != "healthy"@,
    ensures
        group_status(members) is Some,
        group_status(members)->0 != "healthy"@,
    decreases members.len(),
{
    if i < members.len() - 1 {
        law_trouble_wins(members.drop_last(), i);
    }
}

/// Only leftovers are hidden: a host is shown unless it is another than the
/// local one, has no tunnel, and did not answer.
pub proof fn law_only_leftovers_are_hidden(v: Seq<ProbedHost>, i: int)
    requires
        0 <= i < v.len(),
    ensures
        v[i].host@ == "local"@ || v[i].tunnel is Some || v[i].outcome is Ok ==> listed(v).contains(
            v[i],
        ),
        forall|k: int| 0 <= k < listed(v).len() ==> v.contains(#[trigger] listed(v)[k]),
        forall|k: int|
            0 <= k < listed(v).len() ==> (#[trigger] listed(v)[k]).host@ == "local"@ || listed(
                v,
            )[k].tunnel is Some || listed(v)[k].outcome is Ok,
    decreases v.len(),
{
    let init = v.drop_last();
    let before = listed(init);
    let all = listed(v);
    if init.len() > 0 {
        law_only_leftovers_are_hidden(
            init,
            if i < init.len() {
                i
            } else {
                0
            },
        );
    } else {
        assert(before =~= Seq::<ProbedHost>::empty());
    }
    assert(v[v.len() - 1] == v.last());
    if i < init.len() && before.contains(v[i]) {
        assert(init[i] == v[i]);
        let k = choose|k: int| 0 <= k < before.len() && before[k] == v[i];
        assert(all[k] == v[i]);
    }
    if i == v.len() - 1 && all.len() > before.len() {
        assert(all[all.len() - 1] == v[i]);
    }
    assert forall|k: int| 0 <= k < all.len() implies v.contains(#[trigger] all[k]) by {
        if k < before.len() {
            assert(init.contains(before[k]));
            let j = choose|j: int| 0 <= j < init.len() && init[j] == before[k];
            assert(v[j] == all[k]);
        } else {
            assert(v[v.len() - 1] == all[k]);
        }
    }
    assert forall|k: int| 0 <= k < all.len() implies (#[trigger] all[k]).host@ == "local"@
        || all[k].tunnel is Some || all[k].outcome is Ok by {
        if k < before.len() {
            assert(before[k] == all[k]);
        }
    }
}

/// Whether a host stands in a group that is right for it: among the names of
/// the server that answered, or alone with what went wrong.
pub open spec fn stands_in(g: GroupModel, p: ProbedHost) -> bool {
    let member = MemberModel { host: p.host@, tunnel: tunnel_view(p.tunnel) };
    &&& g.members.contains(member)
    &&& match p.outcome {
        Ok((id, _)) => g.id == Some(id) && g.result is Ok,
        Err(e) => g.id is None && g.members.len() == 1 && g.result == Err::<
            Seq<SessionEntry>,
            Seq<char>,
        >(e@),
    }
}

/// Whether the sessions of a group are what its server told.
pub open spec fn told_by(g: GroupModel, p: ProbedHost) -> bool {
    match p.outcome {
        Ok((id, v)) => g.id == Some(id) && g.result == Ok::<Seq<SessionEntry>, Seq<char>>(v@),
        Err(e) => g.id is None && g.result == Err::<Seq<SessionEntry>, Seq<char>>(e@),
    }
}

/// Every host stands with the server that it leads to, or alone where nobody
/// answered: the result says in which group.
pub proof fn law_hosts_stand_with_their_server(probed: Seq<ProbedHost>, i: int) -> (g: int)
    requires
        0 <= i < probed.len(),
    ensures
        0 <= g < grouped(probed).len(),
        stands_in(grouped(probed)[g], probed[i]),
    decreases probed.len(),
{
    let init = probed.drop_last();
    let before = grouped(init);
    let now = grouped(probed);
    let p = probed.last();
    if let Ok((id, v)) = p.outcome {
        lemma_group_place(before, id);
    }
    if i < init.len() {
        assert(init[i] == probed[i]);
        let g = law_hosts_stand_with_their_server(init, i);
        let m = MemberModel { host: probed[i].host@, tunnel: tunnel_view(probed[i].tunnel) };
        let k = choose|k: int| 0 <= k < before[g].members.len() && before[g].members[k] == m;
        assert(now[g].members[k] == m);
        g
    } else {
        law_one_group_per_server(init);
        let place: int = match p.outcome {
            Ok((id, _)) => group_place(before, id),
            Err(_) => before.len() as int,
        };
        let n = now[place].members.len();
        assert(now[place].members[n - 1] == (MemberModel {
            host: p.host@,
            tunnel: tunnel_view(p.tunnel),
        }));
        place
    }
}

/// Every group shows what one of the hosts that were asked told: the result
/// says which.
pub proof fn law_groups_show_what_was_told(probed: Seq<ProbedHost>, g: int) -> (i: int)
    requires
        0 <= g < grouped(probed).len(),
    ensures
        0 <= i < probed.len(),
        told_by(grouped(probed)[g], probed[i]),
    decreases probed.len(),
{
    let init = probed.drop_last();
    let before = grouped(init);
    if let Ok((id, v)) = probed.last().outcome {
        lemma_group_place(before, id);
    }
    if g < before.len() {
        let i = law_groups_show_what_was_told(init, g);
        assert(init[i] == probed[i]);
        i
    } else {
        probed.len() - 1
    }
}

} // verus!
