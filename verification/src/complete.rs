//! Completing host names and targets while they are typed.

use vstd::prelude::*;
use crate::config;
use crate::config::ConfigFile;
use crate::naming;
use crate::naming::display_session_name;
use crate::order;
use crate::order::sorted_set;
use crate::protocol::SessionEntry;
use crate::text;
use crate::text::{cat3, copy, cut_at, has_char, same, starts_with};

verus! {

/// The items that start with `prefix`, in their order.
pub open spec fn matches_of(items: Seq<Seq<char>>, prefix: Seq<char>) -> Seq<Seq<char>>
    decreases items.len(),
{
    if items.len() == 0 {
        seq![]
    } else {
        let rest = matches_of(items.drop_last(), prefix);
        if prefix.is_prefix_of(items.last()) {
            rest.push(items.last())
        } else {
            rest
        }
    }
}

/// The items that start with `prefix`.
pub fn matching(items: &Vec<String>, prefix: &str) -> (r: Vec<String>)
    ensures
        text::views(r@) == matches_of(text::views(items@), prefix@),
{
    let ghost all = text::views(items@);
    let mut r: Vec<String> = Vec::new();
    let mut i: usize = 0;
    assert(all.take(0) == Seq::<Seq<char>>::empty());
    assert(text::views(r@) =~= Seq::<Seq<char>>::empty());
    while i < items.len()
        invariant
            i <= items@.len(),
            all == text::views(items@),
            text::views(r@) == matches_of(all.take(i as int), prefix@),
        decreases items@.len() - i,
    {
        assert(all.take(i + 1).drop_last() == all.take(i as int));
        assert(all.take(i + 1).last() == items@[i as int]@);
        if starts_with(items[i].as_str(), prefix) {
            let s = copy(items[i].as_str());
            proof {
                text::lemma_views_push(r@, s);
            }
            r.push(s);
        }
        i = i + 1;
    }
    assert(all.take(i as int) == all);
    r
}

/// The host whose sessions are needed to complete what is typed: none until
/// there is a colon, and the local one where nothing stands before it.
pub open spec fn asked_host(current: Seq<char>) -> Option<Seq<char>> {
    if current.contains(':') {
        let typed = current.take(text::first_index(current, ':'));
        Some(
            if typed.len() == 0 {
                "local"@
            } else {
                typed
            },
        )
    } else {
        None
    }
}

/// The host whose sessions are needed to complete what is typed: no server is
/// asked before a colon is typed.
pub fn host_to_ask(current: &str) -> (r: Option<String>)
    ensures
        text::owned_view(r) == asked_host(current@),
{
    proof {
        text::lemma_first_index(current@, ':');
    }
    match cut_at(current, ':') {
        None => None,
        Some((typed, _)) => if typed.as_str().unicode_len() == 0 {
            Some(copy("local"))
        } else {
            Some(typed)
        },
    }
}

/// What a target completes to. The host stays as it was typed.
pub open spec fn completions(
    current: Seq<char>,
    hosts: Seq<Seq<char>>,
    sessions: Seq<Seq<char>>,
) -> Seq<Seq<char>> {
    if current.contains(':') {
        let k = text::first_index(current, ':');
        let typed = current.take(k);
        matches_of(sessions, current.skip(k + 1)).map_values(|s: Seq<char>| typed + ":"@ + s)
    } else {
        matches_of(hosts, current)
    }
}

/// What a target completes to: hosts until a colon is typed, then the sessions
/// of the host that is asked.
pub fn complete_target(
    current: &str,
    hosts: &Vec<String>,
    sessions: &Vec<String>,
) -> (r: Vec<String>)
    ensures
        text::views(r@) == completions(current@, text::views(hosts@), text::views(sessions@)),
{
    match cut_at(current, ':') {
        None => matching(hosts, current),
        Some((typed, partial)) => {
            let found = matching(sessions, partial.as_str());
            let ghost all = text::views(found@);
            let ghost want = all.map_values(|s: Seq<char>| typed@ + ":"@ + s);
            let mut r: Vec<String> = Vec::new();
            let mut i: usize = 0;
            assert(text::views(r@) =~= want.take(0));
            while i < found.len()
                invariant
                    i <= found@.len(),
                    all == text::views(found@),
                    want == all.map_values(|s: Seq<char>| typed@ + ":"@ + s),
                    text::views(r@) == want.take(i as int),
                decreases found@.len() - i,
            {
                let s = cat3(typed.as_str(), ":", found[i].as_str());
                proof {
                    text::lemma_views_push(r@, s);
                    assert(want[i as int] == s@);
                    assert(want.take(i + 1) =~= want.take(i as int).push(s@));
                }
                r.push(s);
                i = i + 1;
            }
            assert(want.take(i as int) =~= want);
            r
        },
    }
}

/// What an argument of `kill-session` completes to.
pub open spec fn kill_completions(
    current: Seq<char>,
    hosts: Seq<Seq<char>>,
    sessions: Seq<Seq<char>>,
) -> Seq<Seq<char>> {
    if current.contains(':') {
        completions(current, hosts, sessions)
    } else {
        matches_of(sessions + hosts, current)
    }
}

/// What an argument of `kill-session` completes to: before a colon also the
/// sessions of the local host.
pub fn complete_kill_target(
    current: &str,
    hosts: &Vec<String>,
    sessions: &Vec<String>,
) -> (r: Vec<String>)
    ensures
        text::views(r@) == kill_completions(
            current@,
            text::views(hosts@),
            text::views(sessions@),
        ),
{
    if has_char(current, ':') {
        return complete_target(current, hosts, sessions);
    }
    let mut bare = text::copy_all(sessions);
    text::append_all(&mut bare, hosts);
    matching(&bare, current)
}

/// Whether `r` lists the known hosts: the local one first, then each tunnel
/// and each host of the config once, in alphabetical order.
pub open spec fn are_known_hosts(
    r: Seq<Seq<char>>,
    tunnels: Seq<Seq<char>>,
    configured: Seq<Seq<char>>,
) -> bool {
    &&& r.len() > 0
    &&& r[0] == "local"@
    &&& order::ascending(r.skip(1))
    &&& forall|h: Seq<char>|
        #[trigger] r.skip(1).contains(h) <==> h != "local"@ && (tunnels.contains(h)
            || configured.contains(h))
}

/// The names of the hosts that have a section.
pub open spec fn configured_hosts(hosts: Seq<(String, config::Defaults)>) -> Seq<Seq<char>> {
    hosts.map_values(|h: (String, config::Defaults)| h.0@)
}

/// The known hosts: the local one, every tunnel, and every host of the config
/// if there is a valid one, whether or not its tunnel is up.
pub fn known_hosts(tunnels: &Vec<String>, config: Option<&ConfigFile>) -> (r: Vec<String>)
    ensures
        are_known_hosts(
            text::views(r@),
            text::views(tunnels@),
            match config {
                Some(c) => configured_hosts(c.host@),
                None => seq![],
            },
        ),
{
    let ghost named = match config {
        Some(c) => configured_hosts(c.host@),
        None => seq![],
    };
    let mut rest: Vec<String> = Vec::new();
    let ghost ts = text::views(tunnels@);
    assert(text::views(rest@) =~= Seq::<Seq<char>>::empty());
    let mut i: usize = 0;
    while i < tunnels.len()
        invariant
            i <= tunnels@.len(),
            ts == text::views(tunnels@),
            forall|h: Seq<char>|
                #[trigger] text::views(rest@).contains(h) <==> h != "local"@ && ts.take(
                    i as int,
                ).contains(h),
        decreases tunnels@.len() - i,
    {
        let ghost before = text::views(rest@);
        let ghost x = ts[i as int];
        assert(x == tunnels@[i as int]@);
        assert(ts.take(i + 1) =~= ts.take(i as int).push(x));
        if !same(tunnels[i].as_str(), "local") {
            let s = copy(tunnels[i].as_str());
            proof {
                text::lemma_views_push(rest@, s);
            }
            rest.push(s);
        }
        proof {
            assert forall|h: Seq<char>| #[trigger]
                text::views(rest@).contains(h) <==> h != "local"@ && ts.take(i + 1).contains(h) by {
                order::lemma_push_contains(before, x, h);
                order::lemma_push_contains(ts.take(i as int), x, h);
                assert(before.contains(h) <==> h != "local"@ && ts.take(i as int).contains(h));
            }
        }
        i = i + 1;
    }
    assert(ts.take(i as int) =~= ts);
    match config {
        None => {
            assert(named =~= Seq::<Seq<char>>::empty());
        },
        Some(c) => {
            let mut k: usize = 0;
            while k < c.host.len()
                invariant
                    k <= c.host@.len(),
                    named == configured_hosts(c.host@),
                    forall|h: Seq<char>|
                        #[trigger] text::views(rest@).contains(h) <==> h != "local"@ && (
                        ts.contains(h) || named.take(k as int).contains(h)),
                decreases c.host@.len() - k,
            {
                let ghost before = text::views(rest@);
                let ghost x = named[k as int];
                assert(x == c.host@[k as int].0@);
                assert(named.take(k + 1) =~= named.take(k as int).push(x));
                if !same(c.host[k].0.as_str(), "local") {
                    let s = copy(c.host[k].0.as_str());
                    proof {
                        text::lemma_views_push(rest@, s);
                    }
                    rest.push(s);
                }
                proof {
                    assert forall|h: Seq<char>| #[trigger]
                        text::views(rest@).contains(h) <==> h != "local"@ && (ts.contains(h)
                        || named.take(k + 1).contains(h)) by {
                        order::lemma_push_contains(before, x, h);
                        order::lemma_push_contains(named.take(k as int), x, h);
                        assert(before.contains(h) <==> h != "local"@ && (ts.contains(h)
                            || named.take(k as int).contains(h)));
                    }
                }
                k = k + 1;
            }
            assert(named.take(k as int) =~= named);
        },
    }
    let mut r = sorted_set(&rest);
    let ghost set = text::views(r@);
    r.insert(0, copy("local"));
    proof {
        assert(text::views(r@) =~= seq!["local"@] + set);
        assert(text::views(r@).skip(1) =~= set);
    }
    r
}

/// The session names that a server lists, as the client types them.
pub open spec fn typed_names(v: Seq<SessionEntry>, client: Seq<char>) -> Seq<Seq<char>>
    decreases v.len(),
{
    if v.len() == 0 {
        seq![]
    } else {
        let rest = typed_names(v.drop_last(), client);
        if v.last().name@.len() > 0 {
            rest.push(naming::shown_name(v.last().name@, client))
        } else {
            rest
        }
    }
}

/// The session names that a server lists, as the client types them. Those
/// without a name cannot be completed.
pub fn session_names(v: &Vec<SessionEntry>, client_name: &str) -> (r: Vec<String>)
    ensures
        text::views(r@) == typed_names(v@, client_name@),
{
    let mut r: Vec<String> = Vec::new();
    let mut i: usize = 0;
    assert(v@.take(0) == Seq::<SessionEntry>::empty());
    assert(text::views(r@) =~= Seq::<Seq<char>>::empty());
    while i < v.len()
        invariant
            i <= v@.len(),
            text::views(r@) == typed_names(v@.take(i as int), client_name@),
        decreases v@.len() - i,
    {
        assert(v@.take(i + 1).drop_last() == v@.take(i as int));
        assert(v@.take(i + 1).last() == v@[i as int]);
        if v[i].name.as_str().unicode_len() > 0 {
            let s = display_session_name(v[i].name.as_str(), client_name);
            proof {
                text::lemma_views_push(r@, s);
            }
            r.push(s);
        }
        i = i + 1;
    }
    assert(v@.take(i as int) == v@);
    r
}

proof fn lemma_matches(items: Seq<Seq<char>>, prefix: Seq<char>, i: int)
    requires
        0 <= i < matches_of(items, prefix).len(),
    ensures
        prefix.is_prefix_of(matches_of(items, prefix)[i]),
        items.contains(matches_of(items, prefix)[i]),
    decreases items.len(),
{
    let init = items.drop_last();
    let rest = matches_of(init, prefix);
    if i < rest.len() {
        lemma_matches(init, prefix, i);
        let k = choose|k: int| 0 <= k < init.len() && init[k] == rest[i];
        assert(items[k] == rest[i]);
    } else {
        assert(items[items.len() - 1] == items.last());
    }
}

/// What is typed is never changed, only extended.
pub proof fn law_completion_extends(
    current: Seq<char>,
    hosts: Seq<Seq<char>>,
    sessions: Seq<Seq<char>>,
    i: int,
)
    requires
        0 <= i < completions(current, hosts, sessions).len(),
    ensures
        current.is_prefix_of(completions(current, hosts, sessions)[i]),
{
    reveal_strlit(":");
    let c = completions(current, hosts, sessions)[i];
    if current.contains(':') {
        text::lemma_first_index(current, ':');
        let k = text::first_index(current, ':');
        let partial = current.skip(k + 1);
        lemma_matches(sessions, partial, i);
        let s = matches_of(sessions, partial)[i];
        assert(s.subrange(0, partial.len() as int) == partial);
        assert(c == current.take(k) + ":"@ + s);
        assert(c.subrange(0, current.len() as int) =~= current) by {
            assert forall|j: int| 0 <= j < current.len() implies c[j] == current[j] by {
                if j > k {
                    assert(c[j] == s[j - k - 1]);
                    assert(s[j - k - 1] == partial[j - k - 1]);
                }
            }
        }
    } else {
        lemma_matches(hosts, current, i);
    }
}

/// Everything that starts with what was typed is offered, and nothing else is.
pub proof fn law_all_that_match_are_offered(items: Seq<Seq<char>>, prefix: Seq<char>, item: Seq<char>)
    ensures
        matches_of(items, prefix).contains(item) <==> items.contains(item) && prefix.is_prefix_of(
            item,
        ),
    decreases items.len(),
{
    let all = matches_of(items, prefix);
    if all.contains(item) {
        let i = choose|i: int| 0 <= i < all.len() && all[i] == item;
        lemma_matches(items, prefix, i);
    }
    if items.contains(item) && prefix.is_prefix_of(item) {
        let init = items.drop_last();
        let rest = matches_of(init, prefix);
        law_all_that_match_are_offered(init, prefix, item);
        let i = choose|i: int| 0 <= i < items.len() && items[i] == item;
        if i < init.len() {
            assert(init[i] == item);
            let k = choose|k: int| 0 <= k < rest.len() && rest[k] == item;
            assert(all[k] == item);
        } else {
            assert(all[all.len() - 1] == item);
        }
    }
}

/// Before a colon the hosts are offered, after it the sessions of the host that
/// was typed, each behind that host.
pub proof fn law_hosts_come_before_sessions(
    typed: Seq<char>,
    partial: Seq<char>,
    hosts: Seq<Seq<char>>,
    sessions: Seq<Seq<char>>,
    host: Seq<char>,
    session: Seq<char>,
)
    requires
        !typed.contains(':'),
    ensures
        completions(typed, hosts, sessions).contains(host) <==> hosts.contains(host)
            && typed.is_prefix_of(host),
        asked_host(typed) is None,
        asked_host(typed + ":"@ + partial) == Some(
            if typed.len() == 0 {
                "local"@
            } else {
                typed
            },
        ),
        sessions.contains(session) && partial.is_prefix_of(session) ==> completions(
            typed + ":"@ + partial,
            hosts,
            sessions,
        ).contains(typed + ":"@ + session),
{
    law_all_that_match_are_offered(hosts, typed, host);
    law_all_that_match_are_offered(sessions, partial, session);
    reveal_strlit(":");
    let s = typed + ":"@ + partial;
    let k = typed.len() as int;
    assert(s[k] == ':');
    assert(s.contains(':'));
    assert forall|i: int| 0 <= i < k implies #[trigger] s[i] != ':' by {
        assert(s[i] == typed[i]);
        assert(typed.contains(typed[i]));
    }
    text::lemma_first_index_is(s, ':', k);
    assert(s.take(k) =~= typed);
    assert(s.skip(k + 1) =~= partial);
    if sessions.contains(session) && partial.is_prefix_of(session) {
        let m = matches_of(sessions, partial);
        let i = choose|i: int| 0 <= i < m.len() && m[i] == session;
        assert(completions(s, hosts, sessions)[i] == typed + ":"@ + session);
    }
}

/// Every session with a name is offered, as the client types it.
pub proof fn law_every_named_session_is_offered(v: Seq<SessionEntry>, client: Seq<char>, i: int)
    requires
        0 <= i < v.len(),
        v[i].name@.len() > 0,
    ensures
        typed_names(v, client).contains(naming::shown_name(v[i].name@, client)),
    decreases v.len(),
{
    let all = typed_names(v, client);
    let rest = typed_names(v.drop_last(), client);
    let n = naming::shown_name(v[i].name@, client);
    if i < v.len() - 1 {
        assert(v.drop_last()[i] == v[i]);
        law_every_named_session_is_offered(v.drop_last(), client, i);
        let k = choose|k: int| 0 <= k < rest.len() && rest[k] == n;
        assert(all[k] == n);
    } else {
        assert(all[all.len() - 1] == n);
    }
}

/// Before a colon both the local sessions and the hosts that match are offered
/// for killing; after it only the sessions of that host.
pub proof fn law_kill_offers_sessions_and_hosts(
    current: Seq<char>,
    hosts: Seq<Seq<char>>,
    sessions: Seq<Seq<char>>,
    item: Seq<char>,
)
    ensures
        !current.contains(':') ==> (kill_completions(current, hosts, sessions).contains(item) <==> (
        hosts.contains(item) || sessions.contains(item)) && current.is_prefix_of(item)),
        current.contains(':') ==> kill_completions(current, hosts, sessions) == completions(
            current,
            hosts,
            sessions,
        ),
{
    let both = sessions + hosts;
    law_all_that_match_are_offered(both, current, item);
    if sessions.contains(item) {
        let i = choose|i: int| 0 <= i < sessions.len() && sessions[i] == item;
        assert(both[i] == item);
    }
    if hosts.contains(item) {
        let i = choose|i: int| 0 <= i < hosts.len() && hosts[i] == item;
        assert(both[sessions.len() + i] == item);
    }
    if both.contains(item) {
        let i = choose|i: int| 0 <= i < both.len() && both[i] == item;
        if i < sessions.len() {
            assert(sessions[i] == item);
        } else {
            assert(hosts[i - sessions.len()] == item);
        }
    }
}

} // verus!
