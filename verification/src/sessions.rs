//! Sessions as they are listed: their names and columns, the one to attach to
//! when none is named, and the lists that the commands print.

use vstd::prelude::*;
use crate::durations;
use crate::durations::{format_age, format_duration, format_idle};
use crate::naming;
use crate::naming::{display_session_name, own_session, resolve_session_name};
use crate::order;
use crate::order::{sort_by_keys, SortKey};
use crate::outside;
use crate::paths;
use crate::paths::file_stem_of;
use crate::protocol::SessionEntry;
use crate::text;
use crate::text::{
    after_prefix,
    cat2,
    cat3,
    cat4,
    cat5,
    cat6,
    cat7,
    copy,
    cut_at,
    decimal_text,
    join_texts,
    pad_right,
    same,
    starts_with,
};

verus! {

/// The columns of a list of sessions.
pub fn session_table_headers() -> (r: Vec<String>)
    ensures
        text::views(r@) == seq![
            "ID"@,
            "Name"@,
            "Cmd"@,
            "CWD"@,
            "Client"@,
            "PTY"@,
            "PID"@,
            "Created"@,
            "Idle"@,
            "Status"@,
        ],
{
    let r = vec![
        copy("ID"),
        copy("Name"),
        copy("Cmd"),
        copy("CWD"),
        copy("Client"),
        copy("PTY"),
        copy("PID"),
        copy("Created"),
        copy("Idle"),
        copy("Status"),
    ];
    assert(text::views(r@) =~= seq![
        "ID"@,
        "Name"@,
        "Cmd"@,
        "CWD"@,
        "Client"@,
        "PTY"@,
        "PID"@,
        "Created"@,
        "Idle"@,
        "Status"@,
    ]);
    r
}

/// The host that a control socket belongs to, as it is shown: the tunnel's, or
/// the local one.
pub open spec fn shown_host(ctl_path: Seq<char>) -> Seq<char> {
    match paths::file_stem(ctl_path) {
        Some(stem) => if "connect-"@.is_prefix_of(stem) {
            stem.skip("connect-"@.len() as int)
        } else {
            "local"@
        },
        None => "local"@,
    }
}

/// The host that a control socket belongs to, as it is shown.
pub fn host_from_ctl_path(ctl_path: &str) -> (r: String)
    ensures
        r@ == shown_host(ctl_path@),
{
    match file_stem_of(ctl_path) {
        Some(stem) => match after_prefix(stem.as_str(), "connect-") {
            Some(host) => host,
            None => copy("local"),
        },
        None => copy("local"),
    }
}

/// The name that the server knows a session by: its number where it has no
/// name.
pub open spec fn wire_name(s: SessionEntry) -> Seq<char> {
    if s.name@.len() == 0 {
        text::decimal(s.id as nat)
    } else {
        s.name@
    }
}

/// The name that the server knows a session by.
pub fn session_wire_name(s: &SessionEntry) -> (r: String)
    ensures
        r@ == wire_name(*s),
{
    if s.name.as_str().unicode_len() == 0 {
        decimal_text(s.id as u64)
    } else {
        copy(s.name.as_str())
    }
}

/// Whether a name stands under a client's prefix.
pub open spec fn under(name: Seq<char>, client: Seq<char>) -> bool {
    naming::own_prefix(client).is_prefix_of(name)
}

/// The sessions of a client, in their order.
pub open spec fn mine(v: Seq<SessionEntry>, client: Seq<char>) -> Seq<SessionEntry>
    decreases v.len(),
{
    if v.len() == 0 {
        seq![]
    } else if under(v.last().name@, client) {
        mine(v.drop_last(), client).push(v.last())
    } else {
        mine(v.drop_last(), client)
    }
}

/// The sessions of others, in their order.
pub open spec fn others(v: Seq<SessionEntry>, client: Seq<char>) -> Seq<SessionEntry>
    decreases v.len(),
{
    if v.len() == 0 {
        seq![]
    } else if under(v.last().name@, client) {
        others(v.drop_last(), client)
    } else {
        others(v.drop_last(), client).push(v.last())
    }
}

/// The sessions that nobody is attached to, in their order.
pub open spec fn detached(v: Seq<SessionEntry>) -> Seq<SessionEntry>
    decreases v.len(),
{
    if v.len() == 0 {
        seq![]
    } else if v.last().attached {
        detached(v.drop_last())
    } else {
        detached(v.drop_last()).push(v.last())
    }
}

/// The slot with a number among a client's sessions.
pub open spec fn slot(n: nat, client: Seq<char>) -> Seq<char> {
    naming::full_name(text::decimal(n), client)
}

/// The session to attach to when none is named: a client without sessions
/// gets its first slot, a client with one that is detached gets that one, and
/// otherwise the user must choose. What belongs to others never counts.
pub open spec fn attach_choice(v: Seq<SessionEntry>, client: Seq<char>) -> Option<Seq<char>> {
    let own = mine(v, client);
    let free = detached(own);
    if own.len() == 0 {
        Some(naming::full_name("0"@, client))
    } else if free.len() == 1 {
        Some(wire_name(free[0]))
    } else {
        None
    }
}

/// The session to attach to when none is named.
pub fn auto_attach_target(sessions: &Vec<SessionEntry>, client_name: &str) -> (r: Option<String>)
    ensures
        text::owned_view(r) == attach_choice(sessions@, client_name@),
{
    let prefix = cat2(client_name, "/");
    let mut count: usize = 0;
    let mut free: usize = 0;
    let mut first: usize = 0;
    let mut i: usize = 0;
    assert(sessions@.take(0) == Seq::<SessionEntry>::empty());
    while i < sessions.len()
        invariant
            i <= sessions@.len(),
            prefix@ == naming::own_prefix(client_name@),
            count == mine(sessions@.take(i as int), client_name@).len(),
            free == detached(mine(sessions@.take(i as int), client_name@)).len(),
            count <= i,
            free <= i,
            free > 0 ==> first < sessions@.len() && sessions@[first as int] == detached(
                mine(sessions@.take(i as int), client_name@),
            )[0],
        decreases sessions@.len() - i,
    {
        proof {
            let t = sessions@.take(i + 1);
            assert(t.drop_last() == sessions@.take(i as int));
            assert(t.last() == sessions@[i as int]);
            if under(t.last().name@, client_name@) {
                let m = mine(t, client_name@);
                assert(m.drop_last() == mine(t.drop_last(), client_name@));
                assert(m.last() == t.last());
            }
        }
        if starts_with(sessions[i].name.as_str(), prefix.as_str()) {
            count = count + 1;
            if !sessions[i].attached {
                if free == 0 {
                    first = i;
                }
                free = free + 1;
            }
        }
        i = i + 1;
    }
    assert(sessions@.take(i as int) == sessions@);
    if count == 0 {
        return Some(resolve_session_name("0", client_name));
    }
    if free == 1 {
        return Some(session_wire_name(&sessions[first]));
    }
    None
}

/// One line of the list to pick from.
pub struct Row {
    pub name: String,
    pub attached: bool,
    pub age: String,
    pub cmd: String,
    pub cwd: String,
    pub client: String,
    /// The digit that picks the row, for the first nine.
    pub hotkey: Option<char>,
}

/// One line of the list to pick from, as a value.
pub struct RowModel {
    pub name: Seq<char>,
    pub attached: bool,
    pub age: Seq<char>,
    pub cmd: Seq<char>,
    pub cwd: Seq<char>,
    pub client: Seq<char>,
    pub hotkey: Option<char>,
}

impl View for Row {
    type V = RowModel;

    open spec fn view(&self) -> RowModel {
        RowModel {
            name: self.name@,
            attached: self.attached,
            age: self.age@,
            cmd: self.cmd@,
            cwd: self.cwd@,
            client: self.client@,
            hotkey: self.hotkey,
        }
    }
}

pub open spec fn row_views(v: Seq<Row>) -> Seq<RowModel> {
    v.map_values(|r: Row| r@)
}

/// A path with the home directory written as a tilde.
pub open spec fn homely(path: Seq<char>, home: Seq<char>) -> Seq<char> {
    let rest = path.skip(home.len() as int);
    if home.len() > 0 && home.is_prefix_of(path) && (rest.len() == 0 || rest[0] == '/') {
        "~"@ + rest
    } else {
        path
    }
}

/// A path with the home directory written as a tilde.
pub fn shorten_home(path: &str, home: &str) -> (r: String)
    ensures
        r@ == homely(path@, home@),
{
    if home.unicode_len() > 0 {
        if let Some(rest) = after_prefix(path, home) {
            if rest.as_str().unicode_len() == 0 || rest.as_str().get_char(0) == '/' {
                return cat2("~", rest.as_str());
            }
        }
    }
    copy(path)
}

pub open spec fn hotkey_of(i: int) -> Option<char> {
    if 0 <= i < 9 {
        Some((0x31 + i) as char)
    } else {
        None
    }
}

/// The row of a session at a place in the list.
pub open spec fn row_of(s: SessionEntry, i: int, now: u64, home: Seq<char>) -> RowModel {
    RowModel {
        name: wire_name(s),
        attached: s.attached,
        age: durations::duration_text(durations::since(now, s.created_at)) + " ago"@,
        cmd: s.foreground_cmd@,
        cwd: homely(s.cwd@, home),
        client: s.client_name@,
        hotkey: hotkey_of(i),
    }
}

/// The sessions in the order of the list to pick from: the client's own first.
pub open spec fn own_first(v: Seq<SessionEntry>, client: Seq<char>) -> Seq<SessionEntry> {
    mine(v, client) + others(v, client)
}

/// The rows of the list to pick from.
pub open spec fn rows_of(
    v: Seq<SessionEntry>,
    client: Seq<char>,
    now: u64,
    home: Seq<char>,
) -> Seq<RowModel> {
    Seq::new(
        own_first(v, client).len(),
        |i: int| row_of(own_first(v, client)[i], i, now, home),
    )
}

fn make_row(s: &SessionEntry, i: usize, now: u64, home: &str) -> (r: Row)
    ensures
        r@ == row_of(*s, i as int, now, home@),
{
    let hotkey = if i < 9 {
        Some((0x31u8 + i as u8) as char)
    } else {
        None
    };
    Row {
        name: session_wire_name(s),
        attached: s.attached,
        age: format_age(now, s.created_at),
        cmd: copy(s.foreground_cmd.as_str()),
        cwd: shorten_home(s.cwd.as_str(), home),
        client: copy(s.client_name.as_str()),
        hotkey,
    }
}

/// Append the rows of the sessions that are the client's own, or of the
/// others.
fn push_rows(
    rows: &mut Vec<Row>,
    sessions: &Vec<SessionEntry>,
    client_name: &str,
    own: bool,
    now: u64,
    home: &str,
)
    ensures
        ({
            let part = if own {
                mine(sessions@, client_name@)
            } else {
                others(sessions@, client_name@)
            };
            let start = row_views(old(rows)@);
            row_views(final(rows)@) == start + Seq::new(
                part.len(),
                |k: int| row_of(part[k], start.len() + k, now, home@),
            )
        }),
{
    let prefix = cat2(client_name, "/");
    let ghost start = row_views(rows@);
    let ghost n = start.len() as int;
    let mut i: usize = 0;
    assert(sessions@.take(0) == Seq::<SessionEntry>::empty());
    let ghost mut part = Seq::<SessionEntry>::empty();
    assert(row_views(rows@) =~= start + Seq::new(
        part.len(),
        |k: int| row_of(part[k], n + k, now, home@),
    ));
    while i < sessions.len()
        invariant
            i <= sessions@.len(),
            prefix@ == naming::own_prefix(client_name@),
            n == start.len(),
            part == if own {
                mine(sessions@.take(i as int), client_name@)
            } else {
                others(sessions@.take(i as int), client_name@)
            },
            row_views(rows@) == start + Seq::new(
                part.len(),
                |k: int| row_of(part[k], n + k, now, home@),
            ),
        decreases sessions@.len() - i,
    {
        proof {
            assert(sessions@.take(i + 1).drop_last() == sessions@.take(i as int));
            assert(sessions@.take(i + 1).last() == sessions@[i as int]);
        }
        if starts_with(sessions[i].name.as_str(), prefix.as_str()) == own {
            let ghost before = rows@;
            assert(row_views(rows@).len() == n + part.len());
            let row = make_row(&sessions[i], rows.len(), now, home);
            let ghost rv = row@;
            rows.push(row);
            proof {
                let old_part = part;
                part = part.push(sessions@[i as int]);
                assert(row_views(rows@) =~= row_views(before).push(rv));
                assert(row_views(rows@) =~= start + Seq::new(
                    part.len(),
                    |k: int| row_of(part[k], n + k, now, home@),
                ));
            }
        }
        i = i + 1;
    }
    assert(sessions@.take(i as int) == sessions@);
}

/// The rows of the list to pick from: the client's own sessions first, so that
/// the digits reach them, each group in the server's order.
pub fn build_rows(
    sessions: &Vec<SessionEntry>,
    client_name: &str,
    now: u64,
    home: &str,
) -> (r: Vec<Row>)
    ensures
        row_views(r@) == rows_of(sessions@, client_name@, now, home@),
{
    let mut rows: Vec<Row> = Vec::new();
    push_rows(&mut rows, sessions, client_name, true, now, home);
    push_rows(&mut rows, sessions, client_name, false, now, home);
    assert(row_views(rows@) =~= rows_of(sessions@, client_name@, now, home@));
    rows
}

/// Nothing gets lost or doubled between the client's own sessions and those of
/// others.
pub proof fn law_own_first_keeps_all(v: Seq<SessionEntry>, client: Seq<char>)
    ensures
        own_first(v, client).len() == v.len(),
        own_first(v, client).to_multiset() == v.to_multiset(),
        forall|i: int|
            0 <= i < own_first(v, client).len() ==> (under(
                (#[trigger] own_first(v, client)[i]).name@,
                client,
            ) <==> i < mine(v, client).len()),
    decreases v.len(),
{
    broadcast use vstd::seq_lib::group_to_multiset_ensures;

    if v.len() > 0 {
        let init = v.drop_last();
        let x = v.last();
        law_own_first_keeps_all(init, client);
        let m = mine(init, client);
        let o = others(init, client);
        assert(init.push(x) == v);
        vstd::seq_lib::lemma_multiset_commutative(m, o);
        if under(x.name@, client) {
            vstd::seq_lib::lemma_multiset_commutative(m.push(x), o);
        } else {
            vstd::seq_lib::lemma_multiset_commutative(m, o.push(x));
        }
        assert forall|i: int| 0 <= i < own_first(v, client).len() implies (under(
            (#[trigger] own_first(v, client)[i]).name@,
            client,
        ) <==> i < mine(v, client).len()) by {
            let all = own_first(init, client);
            if under(x.name@, client) {
                if i < m.len() {
                    assert(own_first(v, client)[i] == all[i]);
                } else if i > m.len() {
                    assert(own_first(v, client)[i] == all[i - 1]);
                }
            } else {
                if i < all.len() {
                    assert(own_first(v, client)[i] == all[i]);
                }
            }
        }
    } else {
        assert(own_first(v, client) =~= v);
    }
}

/// Whether a name stands in the rows.
pub open spec fn taken(rows: Seq<RowModel>, name: Seq<char>) -> bool {
    exists|i: int| 0 <= i < rows.len() && (#[trigger] rows[i]).name == name
}

/// Whether `n` is the lowest free slot.
pub open spec fn lowest_free(rows: Seq<RowModel>, client: Seq<char>, n: nat) -> bool {
    &&& !taken(rows, slot(n, client))
    &&& forall|k: nat| k < n ==> #[trigger] taken(rows, slot(k, client))
}

pub proof fn lemma_slots_differ(a: nat, b: nat, client: Seq<char>)
    requires
        a != b,
    ensures
        slot(a, client) != slot(b, client),
{
    lemma_slot(a, client);
    lemma_slot(b, client);
    text::law_decimal_round_trip(a);
    text::law_decimal_round_trip(b);
    let p = naming::own_prefix(client);
    assert((p + text::decimal(a)).skip(p.len() as int) == text::decimal(a));
    assert((p + text::decimal(b)).skip(p.len() as int) == text::decimal(b));
}

/// A slot is the number under the client's prefix.
pub proof fn lemma_slot(n: nat, client: Seq<char>)
    ensures
        slot(n, client) == naming::own_prefix(client) + text::decimal(n),
{
    reveal_strlit("-");
    text::law_decimal_round_trip(n);
    let d = text::decimal(n);
    assert(text::is_digit_char(d[0]));
    if d.contains('/') {
        let i = choose|i: int| 0 <= i < d.len() && d[i] == '/';
        assert(text::is_digit_char(d[i]));
    }
    assert(d != "-"@);
}

/// As many slots as are taken in a row, so many rows there are.
proof fn lemma_taken_slots(rows: Seq<RowModel>, client: Seq<char>, n: nat)
    requires
        forall|k: nat| k < n ==> #[trigger] taken(rows, slot(k, client)),
    ensures
        n <= rows.len(),
{
    let at = |k: int| choose|i: int| 0 <= i < rows.len() && (#[trigger] rows[i]).name == slot(k as nat, client);
    let places = Seq::new(n, |k: int| at(k));
    assert forall|k: int| 0 <= k < n implies 0 <= #[trigger] places[k] < rows.len()
        && rows[places[k]].name == slot(k as nat, client) by {
        assert(taken(rows, slot(k as nat, client)));
    }
    assert forall|k: int, l: int| 0 <= k < l < places.len() implies places[k] != places[l] by {
        lemma_slots_differ(k as nat, l as nat, client);
    }
    assert(places.no_duplicates());
    let all = vstd::set_lib::set_int_range(0, rows.len() as int);
    vstd::set_lib::lemma_int_range(0, rows.len() as int);
    places.unique_seq_to_set();
    vstd::seq_lib::seq_to_set_is_finite(places);
    assert(places.to_set().subset_of(all));
    vstd::set_lib::lemma_len_subset(places.to_set(), all);
}

/// There is at most one lowest free slot.
pub proof fn law_lowest_free_is_unique(rows: Seq<RowModel>, client: Seq<char>, a: nat, b: nat)
    requires
        lowest_free(rows, client, a),
        lowest_free(rows, client, b),
    ensures
        a == b,
{
    if a < b {
        assert(taken(rows, slot(a, client)));
    }
    if b < a {
        assert(taken(rows, slot(b, client)));
    }
}

/// The lowest free slot.
pub open spec fn free_slot(rows: Seq<RowModel>, client: Seq<char>) -> nat {
    choose|n: nat| lowest_free(rows, client, n)
}

/// The name that is suggested for a new session.
pub open spec fn suggestion(rows: Seq<RowModel>, client: Seq<char>) -> Seq<char> {
    slot(free_slot(rows, client), client)
}

proof fn lemma_some_slot_is_free(rows: Seq<RowModel>, client: Seq<char>, n: nat)
    requires
        forall|k: nat| k < n ==> #[trigger] taken(rows, slot(k, client)),
    ensures
        exists|m: nat| lowest_free(rows, client, m),
    decreases rows.len() + 1 - n,
{
    lemma_taken_slots(rows, client, n);
    if taken(rows, slot(n, client)) {
        assert forall|k: nat| k < n + 1 implies #[trigger] taken(rows, slot(k, client)) by {
            if k == n {
            }
        }
        lemma_taken_slots(rows, client, n + 1);
        lemma_some_slot_is_free(rows, client, n + 1);
    } else {
        assert(lowest_free(rows, client, n));
    }
}

/// The name that is suggested for a new session is a number under the
/// client's own prefix that no session has, and the lowest such number.
pub proof fn law_suggested_name_is_free(rows: Seq<RowModel>, client: Seq<char>)
    ensures
        forall|i: int|
            0 <= i < rows.len() ==> (#[trigger] rows[i]).name != suggestion(rows, client),
        exists|n: nat|
            {
                &&& n <= rows.len()
                &&& suggestion(rows, client) == naming::own_prefix(client) + #[trigger] text::decimal(
                    n,
                )
                &&& forall|k: nat|
                    k < n ==> taken(rows, naming::own_prefix(client) + #[trigger] text::decimal(k))
            },
{
    lemma_some_slot_is_free(rows, client, 0);
    let n = free_slot(rows, client);
    assert(lowest_free(rows, client, n));
    lemma_taken_slots(rows, client, n);
    lemma_slot(n, client);
    assert(suggestion(rows, client) == naming::own_prefix(client) + text::decimal(n));
    assert forall|k: nat| k < n implies taken(
        rows,
        naming::own_prefix(client) + #[trigger] text::decimal(k),
    ) by {
        assert(taken(rows, slot(k, client)));
        lemma_slot(k, client);
    }
}

/// The name that is suggested given a list of sessions belongs to none of
/// them.
pub proof fn law_suggestion_is_no_listed_session(
    v: Seq<SessionEntry>,
    client: Seq<char>,
    now: u64,
    home: Seq<char>,
    i: int,
)
    requires
        0 <= i < v.len(),
    ensures
        wire_name(v[i]) != suggestion(rows_of(v, client, now, home), client),
{
    broadcast use vstd::seq_lib::group_to_multiset_ensures;

    let rows = rows_of(v, client, now, home);
    law_suggested_name_is_free(rows, client);
    law_own_first_keeps_all(v, client);
    assert(v.contains(v[i]));
    assert(own_first(v, client).to_multiset().count(v[i]) > 0);
    assert(own_first(v, client).contains(v[i]));
    let j = choose|j: int| 0 <= j < own_first(v, client).len() && own_first(v, client)[j] == v[i];
    assert(rows[j].name == wire_name(v[i]));
}

fn row_taken(rows: &Vec<Row>, name: &str) -> (r: bool)
    ensures
        r == taken(row_views(rows@), name@),
{
    let mut i: usize = 0;
    while i < rows.len()
        invariant
            i <= rows@.len(),
            forall|k: int| 0 <= k < i ==> (#[trigger] row_views(rows@)[k]).name != name@,
        decreases rows@.len() - i,
    {
        assert(row_views(rows@)[i as int].name == rows@[i as int].name@);
        if same(rows[i].name.as_str(), name) {
            return true;
        }
        i = i + 1;
    }
    false
}

/// A name for a new session: the lowest slot that is free. Names that are no
/// numbers take up no slot.
pub fn suggest_name(rows: &Vec<Row>, client_name: &str) -> (r: String)
    ensures
        r@ == suggestion(row_views(rows@), client_name@),
        lowest_free(row_views(rows@), client_name@, free_slot(row_views(rows@), client_name@)),
{
    let total: usize = rows.len();
    let mut n: u64 = 0;
    loop
        invariant
            n <= total == rows@.len(),
            forall|k: nat| k < n ==> #[trigger] taken(row_views(rows@), slot(k, client_name@)),
        decreases total - n,
    {
        let number = decimal_text(n);
        let candidate = resolve_session_name(number.as_str(), client_name);
        if !row_taken(rows, candidate.as_str()) {
            proof {
                let all = row_views(rows@);
                assert(lowest_free(all, client_name@, n as nat));
                law_lowest_free_is_unique(
                    all,
                    client_name@,
                    n as nat,
                    free_slot(all, client_name@),
                );
            }
            return candidate;
        }
        proof {
            assert forall|k: nat| k < n + 1 implies #[trigger] taken(
                row_views(rows@),
                slot(k, client_name@),
            ) by {
                if k == n {
                    assert(candidate@ == slot(k, client_name@));
                }
            }
            lemma_taken_slots(row_views(rows@), client_name@, (n + 1) as nat);
        }
        n = n + 1;
    }
}

/// The name for a new session whose name the user left out, given what the
/// server lists: the first slot where it cannot be asked.
pub fn auto_new_session_name(sessions: Option<&Vec<SessionEntry>>, client_name: &str) -> (r: String)
    ensures
        sessions is None ==> r@ == naming::full_name("0"@, client_name@),
        sessions matches Some(v) ==> r@ == suggestion(
            rows_of(v@, client_name@, 0, seq![]),
            client_name@,
        ),
{
    match sessions {
        None => resolve_session_name("0", client_name),
        Some(v) => {
            proof {
                reveal_strlit("");
                assert(""@ == Seq::<char>::empty());
            }
            let rows = build_rows(v, client_name, 0, "");
            suggest_name(&rows, client_name)
        },
    }
}

/// What is listed of sessions when one must be named.
pub open spec fn choice_lines(host: Seq<char>, v: Seq<SessionEntry>) -> Seq<char>
    decreases v.len(),
{
    if v.len() == 0 {
        seq![]
    } else {
        choice_lines(host, v.drop_last()) + ("  gritty connect "@ + host + ":"@ + wire_name(v.last())
            + (if v.last().attached {
            "     (attached)"@
        } else {
            ""@
        }) + "\n"@)
    }
}

/// The sessions of a host as commands to type, where nothing can be picked.
pub fn session_list_text(host: &str, sessions: &Vec<SessionEntry>) -> (r: String)
    ensures
        r@ == (if sessions@.len() == 1 {
            "error: session on "@ + host@ + " is already attached:\n"@
        } else {
            "error: multiple sessions on "@ + host@ + " -- specify one:\n"@
        }) + choice_lines(host@, sessions@),
{
    let mut r = if sessions.len() == 1 {
        cat3("error: session on ", host, " is already attached:\n")
    } else {
        cat3("error: multiple sessions on ", host, " -- specify one:\n")
    };
    let ghost head = r@;
    let mut i: usize = 0;
    assert(sessions@.take(0) == Seq::<SessionEntry>::empty());
    assert(head + Seq::<char>::empty() == head);
    while i < sessions.len()
        invariant
            i <= sessions@.len(),
            r@ == head + choice_lines(host@, sessions@.take(i as int)),
        decreases sessions@.len() - i,
    {
        proof {
            assert(sessions@.take(i + 1).drop_last() == sessions@.take(i as int));
            assert(sessions@.take(i + 1).last() == sessions@[i as int]);
        }
        let wire = session_wire_name(&sessions[i]);
        let suffix = if sessions[i].attached {
            "     (attached)"
        } else {
            ""
        };
        let line = cat6("  gritty connect ", host, ":", wire.as_str(), suffix, "\n");
        let ghost done = choice_lines(host@, sessions@.take(i as int));
        assert(head + done + line@ == head + (done + line@));
        r.append(line.as_str());
        i = i + 1;
    }
    assert(sessions@.take(i as int) == sessions@);
    r
}

/// The detached sessions other than `current`, as a client sees their names.
pub open spec fn forgotten(
    v: Seq<SessionEntry>,
    current: Seq<char>,
    client: Seq<char>,
) -> Seq<Seq<char>>
    decreases v.len(),
{
    if v.len() == 0 {
        seq![]
    } else {
        let rest = forgotten(v.drop_last(), current, client);
        let s = v.last();
        if !s.attached && wire_name(s) != current {
            rest.push(naming::shown_name(wire_name(s), client))
        } else {
            rest
        }
    }
}

/// What is said after a new session was made about others that are detached.
pub fn detached_alert(
    current_name: &str,
    sessions: &Vec<SessionEntry>,
    client_name: &str,
) -> (r: Option<String>)
    ensures
        ({
            let names = forgotten(sessions@, current_name@, client_name@);
            text::owned_view(r) == if names.len() == 0 {
                None
            } else {
                Some(
                    "\x1b[2;33m\u{25b8} detached sessions: "@ + text::join(names, ", "@)
                        + "\x1b[0m"@,
                )
            }
        }),
{
    let mut names: Vec<String> = Vec::new();
    let mut i: usize = 0;
    assert(sessions@.take(0) == Seq::<SessionEntry>::empty());
    assert(text::views(names@) == Seq::<Seq<char>>::empty());
    while i < sessions.len()
        invariant
            i <= sessions@.len(),
            text::views(names@) == forgotten(
                sessions@.take(i as int),
                current_name@,
                client_name@,
            ),
        decreases sessions@.len() - i,
    {
        proof {
            assert(sessions@.take(i + 1).drop_last() == sessions@.take(i as int));
            assert(sessions@.take(i + 1).last() == sessions@[i as int]);
        }
        let wire = session_wire_name(&sessions[i]);
        if !sessions[i].attached && !same(wire.as_str(), current_name) {
            let name = display_session_name(wire.as_str(), client_name);
            proof {
                text::lemma_views_push(names@, name);
            }
            names.push(name);
        }
        i = i + 1;
    }
    assert(sessions@.take(i as int) == sessions@);
    assert(text::views(names@).len() == names@.len());
    if names.len() == 0 {
        return None;
    }
    let list = join_texts(&names, ", ");
    Some(cat3("\x1b[2;33m\u{25b8} detached sessions: ", list.as_str(), "\x1b[0m"))
}

/// Whether `t` shows a moment: its date and time of day in some time zone, or a
/// dash where the moment cannot be shown.
pub open spec fn shows_moment(t: Seq<char>, epoch_secs: u64) -> bool {
    if outside::has_date(epoch_secs) {
        outside::is_local_time(t, epoch_secs)
    } else {
        t == "-"@
    }
}

/// A date and time in this machine's time zone, or a dash for a moment that
/// cannot be shown.
pub fn format_timestamp(epoch_secs: u64) -> (r: String)
    ensures
        shows_moment(r@, epoch_secs),
{
    match outside::local_time(epoch_secs, "%Y-%m-%d %H:%M:%S") {
        Some(t) => t,
        None => copy("-"),
    }
}

/// The seconds from 1970 to the beginning of a year.
pub open spec fn year_start(year: int) -> int {
    outside::days_to(year, 1, 1) * 86400
}

/// The year that is shown of a moment is the year it lies in, but for what the
/// time zone moves it.
pub proof fn law_shown_year_is_near(t: Seq<char>, epoch_secs: u64)
    requires
        shows_moment(t, epoch_secs),
        outside::has_date(epoch_secs),
    ensures
        ({
            let y = outside::year_of(t);
            year_start(y) - 93599 <= outside::moment(epoch_secs) < year_start(y + 1) + 93599
        }),
{
    let y = outside::year_of(t);
    let c = outside::clock_part(t);
    let month = outside::two_digits(c, 1);
    let day = outside::two_digits(c, 4);
    assert(text::is_digit_char(c[7]) && text::is_digit_char(c[8]));
    assert(text::is_digit_char(c[10]) && text::is_digit_char(c[11]));
    assert(text::is_digit_char(c[13]) && text::is_digit_char(c[14]));
    lemma_days_in_year(y, month, day);
}

proof fn lemma_days_in_year(year: int, month: int, day: int)
    requires
        1 <= month <= 12,
        1 <= day <= 31,
    ensures
        outside::days_to(year, 1, 1) <= outside::days_to(year, month, day) < outside::days_to(
            year + 1,
            1,
            1,
        ),
{
    let a = year - 1;
    assert(year / 4 - a / 4 >= 0 && year / 400 - a / 400 >= 0);
    assert(year / 100 - a / 100 <= year / 4 - a / 4);
    assert((153 * 10 + 2) / 5 == 306int);
}

/// Whether anybody is attached, and since when it was last heard of.
pub open spec fn presence(s: SessionEntry, now: u64) -> Seq<char> {
    let ago = durations::since(now, s.last_heartbeat);
    if s.attached {
        if s.last_heartbeat > 0 {
            "attached (heartbeat "@ + text::decimal(ago as nat) + "s ago)"@
        } else {
            "attached"@
        }
    } else if s.last_heartbeat > 0 {
        "detached ("@ + durations::duration_text(ago) + " ago)"@
    } else {
        "detached"@
    }
}

/// The name column: as the client sees it, or a dash where there is none.
pub open spec fn name_column(s: SessionEntry, client: Seq<char>) -> Seq<char> {
    if s.name@.len() == 0 {
        "-"@
    } else {
        naming::shown_name(s.name@, client)
    }
}

/// The columns of a session, given the text for when it was made. Of one that
/// is still starting little is known.
pub open spec fn columns(
    s: SessionEntry,
    now: u64,
    client: Seq<char>,
    created: Seq<char>,
) -> Seq<Seq<char>> {
    let starting = s.shell_pid == 0;
    seq![
        text::decimal(s.id as nat),
        name_column(s, client),
        s.foreground_cmd@,
        s.cwd@,
        s.client_name@,
        if starting {
            "-"@
        } else {
            s.pty_path@
        },
        if starting {
            "-"@
        } else {
            text::decimal(s.shell_pid as nat)
        },
        if starting {
            "-"@
        } else {
            created
        },
        if starting {
            "-"@
        } else {
            durations::idle_text(now, s.last_activity)
        },
        if starting {
            "starting"@
        } else {
            presence(s, now)
        },
    ]
}

fn shown_column(s: &SessionEntry, client_name: &str) -> (r: String)
    ensures
        r@ == name_column(*s, client_name@),
{
    if s.name.as_str().unicode_len() == 0 {
        copy("-")
    } else {
        display_session_name(s.name.as_str(), client_name)
    }
}

/// The columns of a session, given the text for when it was made.
pub fn session_columns(
    s: &SessionEntry,
    now: u64,
    client_name: &str,
    created: &str,
) -> (r: Vec<String>)
    ensures
        text::views(r@) == columns(*s, now, client_name@, created@),
{
    let id = decimal_text(s.id as u64);
    let name = shown_column(s, client_name);
    let cmd = copy(s.foreground_cmd.as_str());
    let cwd = copy(s.cwd.as_str());
    let client = copy(s.client_name.as_str());
    let r = if s.shell_pid == 0 {
        vec![id, name, cmd, cwd, client, copy("-"), copy("-"), copy("-"), copy("-"), copy("starting")]
    } else {
        let ago: u64 = now.saturating_sub(s.last_heartbeat);
        let status = if s.attached {
            if s.last_heartbeat > 0 {
                cat3("attached (heartbeat ", decimal_text(ago).as_str(), "s ago)")
            } else {
                copy("attached")
            }
        } else if s.last_heartbeat > 0 {
            cat3("detached (", format_duration(ago).as_str(), " ago)")
        } else {
            copy("detached")
        };
        vec![
            id,
            name,
            cmd,
            cwd,
            client,
            copy(s.pty_path.as_str()),
            decimal_text(s.shell_pid as u64),
            copy(created),
            format_idle(now, s.last_activity),
            status,
        ]
    };
    assert(text::views(r@) =~= columns(*s, now, client_name@, created@));
    r
}

/// The columns of a session. The time it was made is shown in this machine's
/// time zone.
pub fn session_status_cols(s: &SessionEntry, now: u64, ambient_client_name: &str) -> (r: Vec<
    String,
>)
    ensures
        exists|created: Seq<char>|
            shows_moment(created, s.created_at) && text::views(r@) == #[trigger] columns(
                *s,
                now,
                ambient_client_name@,
                created,
            ),
{
    let created = format_timestamp(s.created_at);
    let r = session_columns(s, now, ambient_client_name, created.as_str());
    assert(text::views(r@) == columns(*s, now, ambient_client_name@, created@));
    r
}

/// What a session is sorted by in a list: the client's own come first, then
/// those of others by whose they are, and those of nobody last.
pub open spec fn list_rank(s: SessionEntry, client: Seq<char>) -> order::Rank {
    let space = s.name@.take(text::first_index(s.name@, '/'));
    order::Rank {
        rank: if naming::is_own(s.name@, client) {
            0
        } else if s.name@.contains('/') {
            1
        } else {
            2
        },
        text: if s.name@.contains('/') {
            space
        } else {
            ""@
        },
        number: 0,
    }
}

/// The sessions in the order of a list.
pub open spec fn list_order(v: Seq<SessionEntry>, client: Seq<char>) -> Seq<usize> {
    order::sort_order(v.map_values(|s: SessionEntry| list_rank(s, client)))
}

/// The sessions in the order of a list, each with whether it is the client's
/// own. Those that sort alike keep the server's order.
pub fn order_sessions<'a>(
    sessions: &'a Vec<SessionEntry>,
    ambient_client_name: &str,
) -> (r: Vec<(&'a SessionEntry, bool)>)
    ensures
        r@.len() == sessions@.len(),
        order::is_sort(
            sessions@.map_values(|s: SessionEntry| list_rank(s, ambient_client_name@)),
            list_order(sessions@, ambient_client_name@),
        ),
        forall|i: int|
            0 <= i < r@.len() ==> {
                let s = sessions@[list_order(sessions@, ambient_client_name@)[i] as int];
                &&& *(#[trigger] r@[i]).0 == s
                &&& r@[i].1 == naming::is_own(s.name@, ambient_client_name@)
            },
{
    let mut items: Vec<(&'a SessionEntry, bool)> = Vec::new();
    let mut keys: Vec<SortKey> = Vec::new();
    let mut i: usize = 0;
    while i < sessions.len()
        invariant
            i <= sessions@.len(),
            items@.len() == i,
            keys@.len() == i,
            forall|k: int|
                0 <= k < i ==> *(#[trigger] items@[k]).0 == sessions@[k] && items@[k].1
                    == naming::is_own(sessions@[k].name@, ambient_client_name@),
            forall|k: int|
                0 <= k < i ==> (#[trigger] keys@[k])@ == list_rank(
                    sessions@[k],
                    ambient_client_name@,
                ),
        decreases sessions@.len() - i,
    {
        let own = own_session(sessions[i].name.as_str(), ambient_client_name);
        let key = match cut_at(sessions[i].name.as_str(), '/') {
            Some((space, _)) => SortKey {
                rank: if own {
                    0
                } else {
                    1
                },
                text: space,
                number: 0,
            },
            None => SortKey {
                rank: if own {
                    0
                } else {
                    2
                },
                text: copy(""),
                number: 0,
            },
        };
        items.push((&sessions[i], own));
        keys.push(key);
        i = i + 1;
    }
    let ghost ks = sessions@.map_values(|s: SessionEntry| list_rank(s, ambient_client_name@));
    assert(order::ranks(keys@) =~= ks);
    let ghost all = items@;
    let (out, places) = sort_by_keys(items, &keys);
    out
}

/// The line of a list: bold where the session is the client's own and the
/// output is a terminal.
pub fn table_line(indent: &str, line: &str, own: bool, terminal: bool) -> (r: String)
    ensures
        r@ == if own && terminal {
            indent@ + "\x1b[1m"@ + line@ + "\x1b[0m"@
        } else {
            indent@ + line@
        },
{
    if own && terminal {
        cat4(indent, "\x1b[1m", line, "\x1b[0m")
    } else {
        cat2(indent, line)
    }
}

/// The lines about the sessions of a host where one must be named.
pub open spec fn named_lines(v: Seq<SessionEntry>, now: u64, client: Seq<char>) -> Seq<char>
    decreases v.len(),
{
    if v.len() == 0 {
        seq![]
    } else {
        let s = v.last();
        named_lines(v.drop_last(), now, client) + ("  "@ + text::decimal(s.id as nat) + "   "@
            + text::padded(name_column(s, client), 8) + " "@ + (durations::duration_text(
            durations::since(now, s.created_at),
        ) + " ago"@) + "\n"@)
    }
}

pub open spec fn name_one(cmd: Seq<char>, host: Seq<char>) -> Seq<char> {
    "specify a session: gritty "@ + cmd + " "@ + host + ":<session>"@
}

/// What is said when a command needs a session and none was named: the
/// sessions of the host, where the server lists any.
pub fn suggest_session(
    cmd: &str,
    host: &str,
    sessions: Option<&Vec<SessionEntry>>,
    now: u64,
    client_name: &str,
) -> (r: String)
    ensures
        r@ == match sessions {
            None => name_one(cmd@, host@),
            Some(v) => if v@.len() == 0 {
                "no active sessions on "@ + host@
            } else {
                name_one(cmd@, host@) + "\n\n"@ + "  ID  Name     Age\n"@ + named_lines(
                    v@,
                    now,
                    client_name@,
                )
            },
        },
{
    let ask = cat5("specify a session: gritty ", cmd, " ", host, ":<session>");
    let v = match sessions {
        None => {
            return ask;
        },
        Some(v) => v,
    };
    if v.len() == 0 {
        return cat2("no active sessions on ", host);
    }
    let mut r = cat3(ask.as_str(), "\n\n", "  ID  Name     Age\n");
    let ghost head = r@;
    let mut i: usize = 0;
    assert(v@.take(0) == Seq::<SessionEntry>::empty());
    assert(head + Seq::<char>::empty() == head);
    while i < v.len()
        invariant
            i <= v@.len(),
            r@ == head + named_lines(v@.take(i as int), now, client_name@),
        decreases v@.len() - i,
    {
        proof {
            assert(v@.take(i + 1).drop_last() == v@.take(i as int));
            assert(v@.take(i + 1).last() == v@[i as int]);
        }
        let id = decimal_text(v[i].id as u64);
        let name = pad_right(shown_column(&v[i], client_name).as_str(), 8);
        let age = format_age(now, v[i].created_at);
        let line = cat7("  ", id.as_str(), "   ", name.as_str(), " ", age.as_str(), "\n");
        let ghost done = named_lines(v@.take(i as int), now, client_name@);
        assert(head + done + line@ == head + (done + line@));
        r.append(line.as_str());
        i = i + 1;
    }
    assert(v@.take(i as int) == v@);
    r
}

proof fn lemma_own_detached(v: Seq<SessionEntry>, client: Seq<char>)
    ensures
        v.len() > 0 ==> detached(mine(v, client)) == if under(v.last().name@, client)
            && !v.last().attached {
            detached(mine(v.drop_last(), client)).push(v.last())
        } else {
            detached(mine(v.drop_last(), client))
        },
        v.len() == 0 ==> detached(mine(v, client)).len() == 0,
{
    if v.len() > 0 && under(v.last().name@, client) {
        let m = mine(v.drop_last(), client);
        assert(mine(v, client) == m.push(v.last()));
        assert(m.push(v.last()).drop_last() =~= m);
        assert(m.push(v.last()).last() == v.last());
    }
}

proof fn lemma_no_own_detached(v: Seq<SessionEntry>, client: Seq<char>)
    requires
        forall|j: int| 0 <= j < v.len() && under((#[trigger] v[j]).name@, client) ==> v[j].attached,
    ensures
        detached(mine(v, client)).len() == 0,
    decreases v.len(),
{
    lemma_own_detached(v, client);
    if v.len() > 0 {
        assert(v[v.len() - 1] == v.last());
        assert forall|j: int|
            0 <= j < v.drop_last().len() && under((#[trigger] v.drop_last()[j]).name@, client) implies v.drop_last()[j].attached by {
            assert(v.drop_last()[j] == v[j]);
        }
        lemma_no_own_detached(v.drop_last(), client);
    }
}

proof fn lemma_one_own_detached(v: Seq<SessionEntry>, client: Seq<char>, i: int)
    requires
        0 <= i < v.len(),
        under(v[i].name@, client) && !v[i].attached,
    ensures
        mine(v, client).len() > 0,
        detached(mine(v, client)).len() > 0,
        (forall|j: int|
            0 <= j < v.len() && j != i && under((#[trigger] v[j]).name@, client) ==> v[j].attached)
            ==> detached(mine(v, client)) == seq![v[i]],
        (exists|j: int|
            0 <= j < v.len() && j != i && under((#[trigger] v[j]).name@, client) && !v[j].attached)
            ==> detached(mine(v, client)).len() >= 2,
    decreases v.len(),
{
    lemma_own_detached(v, client);
    let init = v.drop_last();
    assert(v[v.len() - 1] == v.last());
    if i < init.len() {
        assert(init[i] == v[i]);
        lemma_one_own_detached(init, client, i);
        if exists|j: int|
            0 <= j < v.len() && j != i && under((#[trigger] v[j]).name@, client) && !v[j].attached {
            let j = choose|j: int|
                0 <= j < v.len() && j != i && under((#[trigger] v[j]).name@, client)
                    && !v[j].attached;
            if j < init.len() {
                assert(init[j] == v[j]);
            }
        } else {
            assert forall|j: int|
                0 <= j < init.len() && j != i && under((#[trigger] init[j]).name@, client) implies init[j].attached by {
                assert(init[j] == v[j]);
            }
        }
    } else {
        if exists|j: int|
            0 <= j < v.len() && j != i && under((#[trigger] v[j]).name@, client) && !v[j].attached {
            let j = choose|j: int|
                0 <= j < v.len() && j != i && under((#[trigger] v[j]).name@, client)
                    && !v[j].attached;
            assert(init[j] == v[j]);
            lemma_one_own_detached(init, client, j);
        } else {
            assert forall|j: int|
                0 <= j < init.len() && under((#[trigger] init[j]).name@, client) implies init[j].attached by {
                assert(init[j] == v[j]);
            }
            lemma_no_own_detached(init, client);
            assert(detached(mine(v, client)) =~= seq![v[i]]);
        }
    }
}

proof fn lemma_own_is_mine(v: Seq<SessionEntry>, client: Seq<char>)
    ensures
        mine(v, client).len() > 0 <==> exists|j: int|
            0 <= j < v.len() && under((#[trigger] v[j]).name@, client),
    decreases v.len(),
{
    if v.len() > 0 {
        let init = v.drop_last();
        lemma_own_is_mine(init, client);
        assert(v[v.len() - 1] == v.last());
        if exists|j: int| 0 <= j < init.len() && under((#[trigger] init[j]).name@, client) {
            let j = choose|j: int| 0 <= j < init.len() && under((#[trigger] init[j]).name@, client);
            assert(v[j] == init[j]);
        }
        if exists|j: int| 0 <= j < v.len() && under((#[trigger] v[j]).name@, client) {
            let j = choose|j: int| 0 <= j < v.len() && under((#[trigger] v[j]).name@, client);
            if j < init.len() {
                assert(init[j] == v[j]);
            }
        }
    }
}

/// Without a name, the session that is meant is only guessed where there is no
/// doubt: a client without sessions begins its first, a client with a single
/// detached one goes back to it, and in all other cases the user is asked. The
/// sessions of others play no part.
pub proof fn law_only_the_clear_choice_is_made(v: Seq<SessionEntry>, client: Seq<char>, i: int, j: int)
    requires
        0 <= i < v.len(),
        0 <= j < v.len(),
    ensures
        (forall|k: int| 0 <= k < v.len() ==> !under((#[trigger] v[k]).name@, client))
            ==> attach_choice(v, client) == Some(naming::full_name("0"@, client)),
        under(v[i].name@, client) && !v[i].attached && (forall|k: int|
            0 <= k < v.len() && k != i && under((#[trigger] v[k]).name@, client) ==> v[k].attached)
            ==> attach_choice(v, client) == Some(wire_name(v[i])),
        under(v[i].name@, client) && (forall|k: int|
            0 <= k < v.len() && under((#[trigger] v[k]).name@, client) ==> v[k].attached)
            ==> attach_choice(v, client) is None,
        i != j && under(v[i].name@, client) && !v[i].attached && under(v[j].name@, client)
            && !v[j].attached ==> attach_choice(v, client) is None,
{
    lemma_own_is_mine(v, client);
    if under(v[i].name@, client) && !v[i].attached {
        lemma_one_own_detached(v, client, i);
    }
    if forall|k: int| 0 <= k < v.len() && under((#[trigger] v[k]).name@, client) ==> v[k].attached {
        lemma_no_own_detached(v, client);
    }
}

/// The home directory is written as a tilde, at the front of a path that leads
/// into it, and nowhere else.
pub proof fn law_only_home_becomes_a_tilde(home: Seq<char>, rest: Seq<char>)
    requires
        home.len() > 0,
    ensures
        homely(home, home) == "~"@,
        homely(home + "/"@ + rest, home) == "~/"@ + rest,
        rest.len() > 0 && rest[0] != '/' ==> homely(home + rest, home) == home + rest,
        !home.is_prefix_of(rest) ==> homely(rest, home) == rest,
        homely(rest, seq![]) == rest,
{
    reveal_strlit("~");
    reveal_strlit("/");
    reveal_strlit("~/");
    let inside = home + "/"@ + rest;
    assert(home.skip(home.len() as int) =~= seq![]);
    assert(home.subrange(0, home.len() as int) =~= home);
    assert(inside.subrange(0, home.len() as int) =~= home);
    assert(inside.skip(home.len() as int) =~= "/"@ + rest);
    assert("~"@ + ("/"@ + rest) =~= "~/"@ + rest);
    assert("~"@ + Seq::<char>::empty() =~= "~"@);
    assert((home + rest).skip(home.len() as int) =~= rest);
}

/// In a list the client's own sessions come before those of others.
pub proof fn law_own_sessions_come_first(
    v: Seq<SessionEntry>,
    client: Seq<char>,
    places: Seq<usize>,
    i: int,
    j: int,
)
    requires
        order::is_sort(v.map_values(|s: SessionEntry| list_rank(s, client)), places),
        0 <= i < j < places.len(),
        naming::is_own(v[places[j] as int].name@, client),
    ensures
        naming::is_own(v[places[i] as int].name@, client),
{
    let keys = v.map_values(|s: SessionEntry| list_rank(s, client));
    assert(order::precedes(keys, places[i] as int, places[j] as int));
    assert(keys[places[i] as int] == list_rank(v[places[i] as int], client));
    assert(keys[places[j] as int] == list_rank(v[places[j] as int], client));
}

/// Every other session that nobody is attached to is pointed out.
pub proof fn law_no_detached_session_is_forgotten(
    v: Seq<SessionEntry>,
    current: Seq<char>,
    client: Seq<char>,
    i: int,
)
    requires
        0 <= i < v.len(),
        !v[i].attached,
        wire_name(v[i]) != current,
    ensures
        forgotten(v, current, client).contains(naming::shown_name(wire_name(v[i]), client)),
    decreases v.len(),
{
    let n = naming::shown_name(wire_name(v[i]), client);
    let rest = forgotten(v.drop_last(), current, client);
    let all = forgotten(v, current, client);
    if i < v.len() - 1 {
        assert(v.drop_last()[i] == v[i]);
        law_no_detached_session_is_forgotten(v.drop_last(), current, client, i);
        let k = choose|k: int| 0 <= k < rest.len() && rest[k] == n;
        assert(all[k] == n);
    } else {
        assert(all[all.len() - 1] == n);
    }
}

/// Nothing is pointed out where everybody else is attached.
pub proof fn law_no_needless_alert(v: Seq<SessionEntry>, current: Seq<char>, client: Seq<char>)
    requires
        forall|i: int| 0 <= i < v.len() ==> (#[trigger] v[i]).attached || wire_name(v[i]) == current,
    ensures
        forgotten(v, current, client).len() == 0,
    decreases v.len(),
{
    if v.len() > 0 {
        assert(v[v.len() - 1] == v.last());
        assert forall|i: int| 0 <= i < v.drop_last().len() implies (#[trigger] v.drop_last()[i]).attached
            || wire_name(v.drop_last()[i]) == current by {
            assert(v.drop_last()[i] == v[i]);
        }
        law_no_needless_alert(v.drop_last(), current, client);
    }
}

} // verus!
