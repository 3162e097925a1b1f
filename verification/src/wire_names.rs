//! The names under which files travel. A receiver creates each file under its
//! wire name, so no two names of a transfer may be equal and none may name a
//! directory of another. Conflicts are resolved by prepending parent
//! directories until the names form a consistent tree.

use vstd::prelude::*;
use crate::text;
use crate::text::{cat3, cat5, chars_of, copy, join_texts, same, split_on, text_between};

verus! {

/// Whether `p` names a directory above `n`.
pub open spec fn dir_prefix(p: Seq<char>, n: Seq<char>) -> bool {
    p.len() < n.len() && n.take(p.len() as int) == p && n[p.len() as int] == '/'
}

/// Whether a receiver could not create both names.
pub open spec fn clash(a: Seq<char>, b: Seq<char>) -> bool {
    a == b || dir_prefix(a, b) || dir_prefix(b, a)
}

/// The directory prefixes of a name, shortest first.
pub open spec fn prefixes(name: Seq<char>, n: nat) -> Seq<Seq<char>>
    decreases n,
{
    if n == 0 {
        seq![]
    } else if n <= name.len() && name[n - 1] == '/' {
        prefixes(name, (n - 1) as nat).push(name.take(n - 1))
    } else {
        prefixes(name, (n - 1) as nat)
    }
}

/// Directory prefixes of a wire name: `a/b/c` gives `a` and `a/b`.
pub fn dir_prefixes(name: &str) -> (r: Vec<String>)
    ensures
        text::views(r@) == prefixes(name@, name@.len()),
{
    let v = chars_of(name);
    let mut r: Vec<String> = Vec::new();
    let mut i: usize = 0;
    assert(text::views(r@) == prefixes(name@, 0));
    while i < v.len()
        invariant
            i <= v.len(),
            v@ == name@,
            text::views(r@) == prefixes(name@, i as nat),
        decreases v.len() - i,
    {
        if v[i] == '/' {
            let p = text_between(&v, 0, i);
            assert(p@ == name@.take(i as int));
            proof {
                text::lemma_views_push(r@, p);
            }
            r.push(p);
        }
        i = i + 1;
    }
    r
}

/// The list holds exactly the names of which the name lies below.
pub proof fn lemma_prefixes(name: Seq<char>, n: nat)
    requires
        n <= name.len(),
    ensures
        forall|k: int|
            0 <= k < prefixes(name, n).len() ==> dir_prefix(#[trigger] prefixes(name, n)[k], name),
        forall|p: Seq<char>| #[trigger]
            dir_prefix(p, name) && p.len() < n ==> prefixes(name, n).contains(p),
    decreases n,
{
    if n > 0 {
        let m = (n - 1) as nat;
        lemma_prefixes(name, m);
        let before = prefixes(name, m);
        let here = prefixes(name, n);
        assert forall|k: int| 0 <= k < here.len() implies dir_prefix(#[trigger] here[k], name) by {
            if k < before.len() {
                assert(here[k] == before[k]);
            }
        }
        assert forall|p: Seq<char>| #[trigger] dir_prefix(p, name) && p.len() < n implies here.contains(
        p) by {
            if p.len() < m {
                assert(before.contains(p));
                let k = choose|k: int| 0 <= k < before.len() && before[k] == p;
                assert(here[k] == p);
            } else {
                assert(here.last() == p);
            }
        }
    }
}

fn is_dir_prefix(p: &str, n: &str) -> (r: bool)
    ensures
        r == dir_prefix(p@, n@),
{
    let a: usize = p.unicode_len();
    let b: usize = n.unicode_len();
    a < b && n.get_char(a) == '/' && same(n.substring_char(0, a), p)
}

fn clashing(a: &str, b: &str) -> (r: bool)
    ensures
        r == clash(a@, b@),
{
    same(a, b) || is_dir_prefix(a, b) || is_dir_prefix(b, a)
}

/// Whether any two of the names clash.
pub open spec fn any_clash(names: Seq<Seq<char>>) -> bool {
    exists|i: int, j: int| 0 <= i < j < names.len() && clash(names[i], names[j])
}

/// True if any two names are equal, or one names a directory of another: in
/// either case the receiver cannot create both.
pub fn names_conflict(names: &Vec<String>) -> (r: bool)
    ensures
        r == any_clash(text::views(names@)),
{
    let mut i: usize = 0;
    while i < names.len()
        invariant
            i <= names.len(),
            forall|a: int, b: int|
                0 <= a < i && a < b < names.len() ==> !clash(text::views(names@)[a], text::views(names@)[b]),
        decreases names.len() - i,
    {
        let mut j: usize = i + 1;
        while j < names.len()
            invariant
                i < j <= names.len(),
                forall|b: int|
                    i < b < j ==> !clash(text::views(names@)[i as int], #[trigger] text::views(names@)[b]),
            decreases names.len() - j,
        {
            if clashing(names[i].as_str(), names[j].as_str()) {
                assert(clash(text::views(names@)[i as int], text::views(names@)[j as int]));
                return true;
            }
            j = j + 1;
        }
        i = i + 1;
    }
    false
}

/// One file queued for sending. `canonical` is the path with every symbolic
/// link resolved, where the file system could tell.
#[derive(Debug)]
pub struct SendEntry {
    pub name: String,
    pub size: u64,
    pub mode: u32,
    pub path: String,
    pub canonical: Option<String>,
}

/// A queued file as a mathematical value, with the name it came with, the
/// plain components of its path and how many of them its name uses.
#[verifier::ext_equal]
pub struct Item {
    pub name: Seq<char>,
    pub orig: Seq<char>,
    pub size: u64,
    pub mode: u32,
    pub path: Seq<char>,
    pub canon: Option<Seq<char>>,
    pub avail: Seq<Seq<char>>,
    pub used: nat,
}

pub open spec fn canon_view(c: Option<String>) -> Option<Seq<char>> {
    match c {
        Some(s) => Some(s@),
        None => None,
    }
}

/// The last plain components of a path, back to the last `..`, the root or
/// the start: the only ones a wire name may hold.
pub open spec fn plain_tail(pieces: Seq<Seq<char>>) -> Seq<Seq<char>>
    decreases pieces.len(),
{
    if pieces.len() == 0 || pieces.last() == ".."@ {
        seq![]
    } else if pieces.last().len() == 0 || pieces.last() == "."@ {
        plain_tail(pieces.drop_last())
    } else {
        plain_tail(pieces.drop_last()).push(pieces.last())
    }
}

/// The item that an entry starts as.
pub open spec fn item_of(e: SendEntry) -> Item {
    Item {
        name: e.name@,
        orig: e.name@,
        size: e.size,
        mode: e.mode,
        path: e.path@,
        canon: canon_view(e.canonical),
        avail: plain_tail(text::split(e.path@, '/')),
        used: text::split(e.name@, '/').len(),
    }
}

pub open spec fn items_of(entries: Seq<SendEntry>) -> Seq<Item> {
    entries.map_values(|e: SendEntry| item_of(e))
}

/// Whether no two items clash.
pub open spec fn calm(items: Seq<Item>) -> bool {
    forall|i: int, j: int|
        0 <= i < j < items.len() ==> !clash(#[trigger] items[i].name, #[trigger] items[j].name)
}

/// Whether two items are the same file under the same name.
pub open spec fn twins(a: Item, b: Item) -> bool {
    a.name == b.name && a.canon is Some && a.canon == b.canon
}

/// The first item that is the same file as item `i`, searching from `j`.
pub open spec fn first_twin(items: Seq<Item>, i: int, j: int) -> int
    decreases i - j,
{
    if j >= i || twins(items[j], items[i]) {
        j
    } else {
        first_twin(items, i, j + 1)
    }
}

/// Whether an earlier item is the same file under the same name.
pub open spec fn is_dropped(items: Seq<Item>, i: int) -> bool {
    exists|j: int| 0 <= j < i && #[trigger] twins(items[j], items[i])
}

/// Whether a longer name is left for the item.
pub open spec fn extendable(it: Item) -> bool {
    it.used < it.avail.len()
}

/// Whether item `j` stands in the way of item `i`.
pub open spec fn rival(items: Seq<Item>, i: int, j: int) -> bool {
    0 <= j < items.len() && j != i && !is_dropped(items, j) && clash(items[i].name, items[j].name)
}

pub open spec fn has_rival(items: Seq<Item>, i: int) -> bool {
    exists|j: int| rival(items, i, j)
}

/// The item named with one more parent directory.
pub open spec fn grown(it: Item) -> Item {
    Item {
        name: text::join(it.avail.skip(it.avail.len() - it.used - 1), "/"@),
        used: it.used + 1,
        ..it
    }
}

/// Item `i` after a round in which it stays.
pub open spec fn survivor(items: Seq<Item>, i: int) -> Item {
    if extendable(items[i]) && has_rival(items, i) {
        grown(items[i])
    } else {
        items[i]
    }
}

/// The first `n` items after one round: repeats are gone, and every item with
/// a rival has a longer name if there is one.
pub open spec fn next_upto(items: Seq<Item>, n: nat) -> Seq<Item>
    decreases n,
{
    if n == 0 {
        seq![]
    } else if is_dropped(items, n - 1) {
        next_upto(items, (n - 1) as nat)
    } else {
        next_upto(items, (n - 1) as nat).push(survivor(items, n - 1))
    }
}

pub open spec fn next_round(items: Seq<Item>) -> Seq<Item> {
    next_upto(items, items.len())
}

/// Whether item `i` shares its name with another file and neither it nor any
/// of the others can be renamed.
pub open spec fn stuck_equal(items: Seq<Item>, i: int) -> bool {
    &&& !is_dropped(items, i)
    &&& exists|j: int|
        0 <= j < items.len() && j != i && !is_dropped(items, j) && #[trigger] items[j].name
            == items[i].name
    &&& forall|j: int|
        0 <= j < items.len() && !is_dropped(items, j) && #[trigger] items[j].name == items[i].name
            ==> !extendable(items[j])
}

/// Whether item `k` lies below a file named `p` and nothing can be renamed.
pub open spec fn stuck_under(items: Seq<Item>, k: int, p: Seq<char>) -> bool {
    &&& !is_dropped(items, k)
    &&& exists|j: int| 0 <= j < items.len() && #[trigger] items[j].name == p
    &&& !extendable(items[k])
    &&& forall|j: int|
        0 <= j < items.len() && !is_dropped(items, j) && #[trigger] items[j].name == p
            ==> !extendable(items[j])
}

/// The first item from `i` on that is stuck on an equal name.
pub open spec fn first_stuck_equal(items: Seq<Item>, i: int) -> Option<int>
    decreases items.len() - i,
{
    if i >= items.len() {
        None
    } else if stuck_equal(items, i) {
        Some(i)
    } else {
        first_stuck_equal(items, i + 1)
    }
}

/// The first of the prefixes `ps`, from `m` on, on which item `k` is stuck.
pub open spec fn first_stuck_prefix(
    items: Seq<Item>,
    k: int,
    ps: Seq<Seq<char>>,
    m: int,
) -> Option<Seq<char>>
    decreases ps.len() - m,
{
    if m >= ps.len() {
        None
    } else if stuck_under(items, k, ps[m]) {
        Some(ps[m])
    } else {
        first_stuck_prefix(items, k, ps, m + 1)
    }
}

/// The first item from `k` on that is stuck below a file, and the file's name.
pub open spec fn first_stuck_under(items: Seq<Item>, k: int) -> Option<(int, Seq<char>)>
    decreases items.len() - k,
{
    if k >= items.len() {
        None
    } else {
        let name = items[k].name;
        match first_stuck_prefix(items, k, prefixes(name, name.len()), 0) {
            Some(p) => Some((k, p)),
            None => first_stuck_under(items, k + 1),
        }
    }
}

/// Those of the first `n` items that stay and are named `name`.
pub open spec fn kept_named(items: Seq<Item>, name: Seq<char>, n: nat) -> Seq<Item>
    decreases n,
{
    if n == 0 {
        seq![]
    } else {
        let before = kept_named(items, name, (n - 1) as nat);
        if items[n - 1].name == name && !is_dropped(items, n - 1) {
            before.push(items[n - 1])
        } else {
            before
        }
    }
}

/// Why names could not be resolved.
#[verifier::ext_equal]
pub enum Trouble {
    /// Distinct files whose names are equal, by their paths.
    Duplicate { name: Seq<char>, paths: Seq<Seq<char>> },
    /// A file name that another file needs as a directory: name and path of
    /// each.
    Collision { parties: Seq<(Seq<char>, Seq<char>)> },
}

pub open spec fn trouble(items: Seq<Item>) -> Option<Trouble> {
    match first_stuck_equal(items, 0) {
        Some(i) => Some(
            Trouble::Duplicate {
                name: items[i].name,
                paths: kept_named(items, items[i].name, items.len()).map_values(|it: Item| it.path),
            },
        ),
        None => match first_stuck_under(items, 0) {
            Some(kp) => Some(
                Trouble::Collision {
                    parties: kept_named(items, kp.1, items.len()).push(items[kp.0]).map_values(
                        |it: Item| (it.name, it.path),
                    ),
                },
            ),
            None => None,
        },
    }
}

/// Whether item `l` is the first with its name.
pub open spec fn is_leader(items: Seq<Item>, l: int) -> bool {
    forall|j: int| 0 <= j < l ==> #[trigger] items[j].name != items[l].name
}

/// The repeats among the first `n` items that share the name of item `l`: each
/// path with the path that is kept in its place.
pub open spec fn group_drops(items: Seq<Item>, l: int, n: nat) -> Seq<(Seq<char>, Seq<char>)>
    decreases n,
{
    if n == 0 {
        seq![]
    } else {
        let before = group_drops(items, l, (n - 1) as nat);
        let i = n - 1;
        if items[i].name == items[l].name && is_dropped(items, i) {
            before.push((items[i].path, items[first_twin(items, i, 0)].path))
        } else {
            before
        }
    }
}

/// The repeats of one round, name by name.
pub open spec fn round_drops(items: Seq<Item>, l: nat) -> Seq<(Seq<char>, Seq<char>)>
    decreases l,
{
    if l == 0 {
        seq![]
    } else {
        let before = round_drops(items, (l - 1) as nat);
        if is_leader(items, l - 1) {
            before + group_drops(items, l - 1, items.len())
        } else {
            before
        }
    }
}

/// How many changes are left in items at most.
pub open spec fn load(items: Seq<Item>) -> nat
    decreases items.len(),
{
    if items.len() == 0 {
        0
    } else {
        let it = items.last();
        load(items.drop_last()) + 1 + (if extendable(it) {
            (it.avail.len() - it.used) as nat
        } else {
            0
        })
    }
}

/// Rounds until nothing clashes, or until something is stuck: the items that
/// are left and the repeats that were dropped, or what is wrong. The guard on
/// `load` always holds (`lemma_round_progress`).
pub open spec fn resolved(items: Seq<Item>, drops: Seq<(Seq<char>, Seq<char>)>) -> Result<
    (Seq<Item>, Seq<(Seq<char>, Seq<char>)>),
    Trouble,
>
    decreases load(items),
{
    if calm(items) {
        Ok((items, drops))
    } else {
        match trouble(items) {
            Some(t) => Err(t),
            None => if load(next_round(items)) < load(items) {
                resolved(next_round(items), drops + round_drops(items, items.len()))
            } else {
                Ok((items, drops))
            },
        }
    }
}

proof fn lemma_first_stuck_equal(items: Seq<Item>, i: int)
    requires
        0 <= i,
        first_stuck_equal(items, i) is None,
    ensures
        forall|k: int| i <= k < items.len() ==> !#[trigger] stuck_equal(items, k),
    decreases items.len() - i,
{
    if i < items.len() {
        lemma_first_stuck_equal(items, i + 1);
    }
}

proof fn lemma_first_stuck_prefix(items: Seq<Item>, k: int, ps: Seq<Seq<char>>, m: int)
    requires
        0 <= m,
        first_stuck_prefix(items, k, ps, m) is None,
    ensures
        forall|q: int| m <= q < ps.len() ==> !stuck_under(items, k, #[trigger] ps[q]),
    decreases ps.len() - m,
{
    if m < ps.len() {
        lemma_first_stuck_prefix(items, k, ps, m + 1);
    }
}

proof fn lemma_first_stuck_under(items: Seq<Item>, k: int)
    requires
        0 <= k,
        first_stuck_under(items, k) is None,
    ensures
        forall|q: int, p: Seq<char>|
            k <= q < items.len() && dir_prefix(p, items[q].name) ==> !#[trigger] stuck_under(
                items,
                q,
                p,
            ),
    decreases items.len() - k,
{
    if k < items.len() {
        lemma_first_stuck_under(items, k + 1);
        let name = items[k].name;
        let ps = prefixes(name, name.len());
        lemma_first_stuck_prefix(items, k, ps, 0);
        lemma_prefixes(name, name.len());
        assert forall|q: int, p: Seq<char>|
            k <= q < items.len() && dir_prefix(p, items[q].name) implies !#[trigger] stuck_under(
            items,
            q,
            p,
        ) by {
            if q == k {
                assert(ps.contains(p));
                let m = choose|m: int| 0 <= m < ps.len() && ps[m] == p;
                assert(!stuck_under(items, k, ps[m]));
            }
        }
    }
}

/// An item that stays and stands where a dropped item stood: for every name
/// in use, the first item with it stays.
proof fn lemma_leader_stays(items: Seq<Item>, j: int) -> (l: int)
    requires
        0 <= j < items.len(),
    ensures
        0 <= l <= j,
        items[l].name == items[j].name,
        !is_dropped(items, l),
    decreases j,
{
    if is_dropped(items, j) {
        let i = choose|i: int| 0 <= i < j && #[trigger] twins(items[i], items[j]);
        lemma_leader_stays(items, i)
    } else {
        j
    }
}

/// While anything clashes and nothing is stuck, a round changes something.
proof fn lemma_something_moves(items: Seq<Item>)
    requires
        !calm(items),
        trouble(items) is None,
    ensures
        exists|i: int|
            0 <= i < items.len() && (is_dropped(items, i) || (extendable(items[i]) && has_rival(
                items,
                i,
            ))),
{
    let (i, j) = choose|i: int, j: int|
        0 <= i < j < items.len() && clash(#[trigger] items[i].name, #[trigger] items[j].name);
    lemma_first_stuck_equal(items, 0);
    lemma_first_stuck_under(items, 0);
    if !is_dropped(items, i) && !is_dropped(items, j) {
        assert(rival(items, i, j) && rival(items, j, i));
        if items[i].name == items[j].name {
            assert(!stuck_equal(items, i));
            let m = choose|m: int|
                0 <= m < items.len() && !is_dropped(items, m) && #[trigger] items[m].name
                    == items[i].name && extendable(items[m]);
            if m == i {
                assert(rival(items, m, j));
            } else {
                assert(rival(items, m, i));
            }
            assert(has_rival(items, m));
        } else {
            let (lo, hi) = if dir_prefix(items[i].name, items[j].name) {
                (i, j)
            } else {
                (j, i)
            };
            assert(dir_prefix(items[lo].name, items[hi].name));
            assert(!stuck_under(items, hi, items[lo].name));
            if extendable(items[hi]) {
                assert(rival(items, hi, lo));
                assert(has_rival(items, hi));
            } else {
                let m = choose|m: int|
                    0 <= m < items.len() && !is_dropped(items, m) && #[trigger] items[m].name
                        == items[lo].name && extendable(items[m]);
                assert(m != hi);
                assert(rival(items, m, hi));
                assert(has_rival(items, m));
            }
        }
    }
}

spec fn room(it: Item) -> nat {
    if extendable(it) {
        (it.avail.len() - it.used) as nat
    } else {
        0
    }
}

proof fn lemma_load_upto(items: Seq<Item>, n: nat)
    requires
        n <= items.len(),
    ensures
        load(next_upto(items, n)) <= load(items.take(n as int)),
        (exists|i: int|
            0 <= i < n && (is_dropped(items, i) || (extendable(items[i]) && has_rival(items, i))))
            ==> load(next_upto(items, n)) < load(items.take(n as int)),
    decreases n,
{
    if n > 0 {
        let m = (n - 1) as nat;
        lemma_load_upto(items, m);
        assert(items.take(n as int).drop_last() == items.take(m as int));
        assert(items.take(n as int).last() == items[m as int]);
        assert(load(items.take(n as int)) == load(items.take(m as int)) + 1 + room(
            items[m as int],
        ));
        if !is_dropped(items, m as int) {
            let s = survivor(items, m as int);
            let nx = next_upto(items, n);
            assert(nx.drop_last() == next_upto(items, m));
            assert(load(nx) == load(next_upto(items, m)) + 1 + room(s));
        }
    }
}

/// While anything clashes and nothing is stuck, a round brings the end nearer.
pub proof fn lemma_round_progress(items: Seq<Item>)
    requires
        !calm(items),
        trouble(items) is None,
    ensures
        load(next_round(items)) < load(items),
{
    lemma_something_moves(items);
    lemma_load_upto(items, items.len());
    assert(items.take(items.len() as int) == items);
}


/// What [`uniquify_wire_names`] did, with an exact record of what changed.
#[derive(Debug)]
pub struct Uniquified {
    pub entries: Vec<SendEntry>,
    /// Path and new wire name of every entry whose name changed.
    pub renames: Vec<(String, String)>,
    /// Dropped spelling and kept spelling, for arguments that turned out to
    /// be the same file twice.
    pub dropped: Vec<(String, String)>,
}

/// Why [`uniquify_wire_names`] refused.
#[derive(Debug)]
pub enum NameConflict {
    /// Distinct files share a name that nothing can tell apart.
    Duplicate { name: String, paths: Vec<String> },
    /// A file's name is a directory of another's: name and path of each.
    Collision { parties: Vec<(String, String)> },
}

pub open spec fn pair_views(v: Seq<(String, String)>) -> Seq<(Seq<char>, Seq<char>)> {
    v.map_values(|p: (String, String)| (p.0@, p.1@))
}

proof fn lemma_pair_views_push(v: Seq<(String, String)>, p: (String, String))
    ensures
        pair_views(v.push(p)) == pair_views(v).push((p.0@, p.1@)),
{
    assert(pair_views(v.push(p)) =~= pair_views(v).push((p.0@, p.1@)));
}

impl NameConflict {
    pub open spec fn model(&self) -> Trouble {
        match *self {
            NameConflict::Duplicate { name, paths } => Trouble::Duplicate {
                name: name@,
                paths: text::views(paths@),
            },
            NameConflict::Collision { parties } => Trouble::Collision {
                parties: pair_views(parties@),
            },
        }
    }
}

/// A name with the path behind it.
pub open spec fn party_text(p: (Seq<char>, Seq<char>)) -> Seq<char> {
    "`"@ + p.0 + "` ("@ + p.1 + ")"@
}

/// What is said of names that could not be resolved.
pub open spec fn trouble_text(t: Trouble) -> Seq<char> {
    match t {
        Trouble::Duplicate { name, paths } => "duplicate file name `"@ + name + "` ("@ + text::join(
            paths,
            ", "@,
        )
            + "): the receiver would overwrite it -- rename a file or send them in separate transfers"@,
        Trouble::Collision { parties } => "file/directory name collision: "@ + text::join(
            parties.map_values(|p: (Seq<char>, Seq<char>)| party_text(p)),
            ", "@,
        ) + " -- rename a file or send them in separate transfers"@,
    }
}

impl NameConflict {
    /// The conflict in words.
    pub fn message(&self) -> (r: String)
        ensures
            r@ == trouble_text(self.model()),
    {
        match self {
            NameConflict::Duplicate { name, paths } => {
                let list = join_texts(paths, ", ");
                cat5(
                    "duplicate file name `",
                    name.as_str(),
                    "` (",
                    list.as_str(),
                    "): the receiver would overwrite it -- rename a file or send them in separate transfers",
                )
            },
            NameConflict::Collision { parties } => {
                let ghost want = pair_views(parties@).map_values(
                    |p: (Seq<char>, Seq<char>)| party_text(p),
                );
                let mut shown: Vec<String> = Vec::new();
                let mut i: usize = 0;
                assert(text::views(shown@) =~= want.take(0));
                while i < parties.len()
                    invariant
                        i <= parties@.len(),
                        want == pair_views(parties@).map_values(
                            |p: (Seq<char>, Seq<char>)| party_text(p),
                        ),
                        text::views(shown@) == want.take(i as int),
                    decreases parties@.len() - i,
                {
                    let s = cat5("`", parties[i].0.as_str(), "` (", parties[i].1.as_str(), ")");
                    proof {
                        text::lemma_views_push(shown@, s);
                        assert(want[i as int] == s@);
                        assert(want.take(i + 1) =~= want.take(i as int).push(s@));
                    }
                    shown.push(s);
                    i = i + 1;
                }
                assert(want.take(i as int) =~= want);
                let list = join_texts(&shown, ", ");
                cat3(
                    "file/directory name collision: ",
                    list.as_str(),
                    " -- rename a file or send them in separate transfers",
                )
            },
        }
    }
}

/// An entry being worked on.
struct Work {
    entry: SendEntry,
    orig_name: String,
    avail: Vec<String>,
    used: usize,
}

impl Work {
    spec fn item(self) -> Item {
        Item {
            name: self.entry.name@,
            orig: self.orig_name@,
            size: self.entry.size,
            mode: self.entry.mode,
            path: self.entry.path@,
            canon: canon_view(self.entry.canonical),
            avail: text::views(self.avail@),
            used: self.used as nat,
        }
    }
}

spec fn items(work: Seq<Work>) -> Seq<Item> {
    work.map_values(|w: Work| w.item())
}

/// The plain components at the end of a path.
fn plain_components(path: &str) -> (avail: Vec<String>)
    ensures
        text::views(avail@) == plain_tail(text::split(path@, '/')),
{
    let pieces = split_on(path, '/');
    let ghost whole = text::views(pieces@);
    let mut back: Vec<String> = Vec::new();
    let mut n: usize = pieces.len();
    assert(whole.take(whole.len() as int) == whole);
    assert(text::views(back@).reverse() == Seq::<Seq<char>>::empty());
    assert(plain_tail(whole) + Seq::<Seq<char>>::empty() == plain_tail(whole));
    let mut go = true;
    while go && n > 0
        invariant
            n <= pieces.len(),
            whole == text::views(pieces@),
            go ==> plain_tail(whole) == plain_tail(whole.take(n as int)) + text::views(
                back@,
            ).reverse(),
            !go ==> plain_tail(whole) == text::views(back@).reverse(),
        decreases n + (if go { 1int } else { 0int }),
    {
        let ghost here = whole.take(n as int);
        assert(here.drop_last() == whole.take(n - 1));
        assert(here.last() == pieces@[n - 1]@);
        let piece = pieces[n - 1].as_str();
        if same(piece, "..") {
            go = false;
            assert(plain_tail(here) + text::views(back@).reverse() == text::views(back@).reverse());
        } else {
            if !piece.is_empty() && !same(piece, ".") {
                let c = copy(piece);
                proof {
                    text::lemma_views_push(back@, c);
                    assert(plain_tail(here.drop_last()).push(c@) + text::views(back@).reverse()
                        == plain_tail(here.drop_last()) + text::views(back@).push(c@).reverse());
                }
                back.push(c);
            }
            n = n - 1;
        }
    }
    if go {
        assert(whole.take(0) == Seq::<Seq<char>>::empty());
        assert(plain_tail(whole.take(0)) + text::views(back@).reverse() == text::views(
            back@,
        ).reverse());
    }
    let mut avail: Vec<String> = Vec::new();
    let mut i: usize = back.len();
    let ghost rev = text::views(back@).reverse();
    assert(text::views(avail@) == rev.take(0));
    while i > 0
        invariant
            i <= back.len(),
            rev == text::views(back@).reverse(),
            text::views(avail@) == rev.take(back@.len() - i),
        decreases i,
    {
        let c = back[i - 1].clone();
        proof {
            text::lemma_views_push(avail@, c);
            assert(rev[back@.len() - i] == c@);
            assert(rev.take(back@.len() - i + 1) == rev.take(back@.len() - i).push(c@));
        }
        avail.push(c);
        i = i - 1;
    }
    assert(rev.take(rev.len() as int) == rev);
    avail
}

/// Components `from..` of a path, joined.
fn tail_name(avail: &Vec<String>, from: usize) -> (name: String)
    requires
        from <= avail.len(),
    ensures
        name@ == text::join(text::views(avail@).skip(from as int), "/"@),
{
    let mut tail: Vec<String> = Vec::new();
    let mut i: usize = from;
    let ghost rest = text::views(avail@).skip(from as int);
    assert(text::views(tail@) == rest.take(0));
    while i < avail.len()
        invariant
            from <= i <= avail.len(),
            rest == text::views(avail@).skip(from as int),
            text::views(tail@) == rest.take(i - from),
        decreases avail.len() - i,
    {
        let c = avail[i].clone();
        proof {
            text::lemma_views_push(tail@, c);
            assert(rest[i - from] == c@);
            assert(rest.take(i - from + 1) == rest.take(i - from).push(c@));
        }
        tail.push(c);
        i = i + 1;
    }
    assert(rest.take(rest.len() as int) == rest);
    join_texts(&tail, "/")
}

fn same_canonical(a: &Option<String>, b: &Option<String>) -> (r: bool)
    ensures
        r == (canon_view(*a) is Some && canon_view(*a) == canon_view(*b)),
{
    match (a, b) {
        (Some(x), Some(y)) => same(x.as_str(), y.as_str()),
        _ => false,
    }
}

fn work_of(entries: Vec<SendEntry>) -> (work: Vec<Work>)
    ensures
        items(work@) == items_of(entries@),
{
    let mut entries = entries;
    let ghost all = entries@;
    let mut back: Vec<Work> = Vec::new();
    while entries.len() > 0
        invariant
            entries@.len() + back@.len() == all.len(),
            entries@ == all.take(entries@.len() as int),
            forall|i: int|
                0 <= i < back@.len() ==> (#[trigger] back@[i]).item() == item_of(
                    all[all.len() - 1 - i],
                ),
        decreases entries.len(),
    {
        let ghost n = entries@.len();
        let e = entries.pop().unwrap();
        assert(e == all[n - 1]);
        assert(entries@ == all.take(n - 1));
        let avail = plain_components(e.path.as_str());
        let orig_name = e.name.clone();
        let pieces = split_on(e.name.as_str(), '/');
        let used: usize = pieces.len();
        let w = Work { entry: e, orig_name, avail, used };
        assert(w.item() == item_of(e));
        back.push(w);
    }
    let mut work: Vec<Work> = Vec::new();
    let ghost done = back@;
    while back.len() > 0
        invariant
            back@.len() + work@.len() == done.len(),
            done.len() == all.len(),
            back@ == done.take(back@.len() as int),
            forall|i: int| 0 <= i < work@.len() ==> #[trigger] work@[i] == done[done.len() - 1 - i],
        decreases back.len(),
    {
        let ghost n = back@.len();
        let w = back.pop().unwrap();
        assert(back@ == done.take(n - 1));
        work.push(w);
    }
    assert(items(work@) =~= items_of(all));
    work
}

/// Whether no two items clash.
fn is_calm(work: &Vec<Work>) -> (r: bool)
    ensures
        r == calm(items(work@)),
{
    let mut i: usize = 0;
    while i < work.len()
        invariant
            i <= work.len(),
            forall|a: int, b: int|
                0 <= a < i && a < b < work.len() ==> !clash(
                    #[trigger] items(work@)[a].name,
                    #[trigger] items(work@)[b].name,
                ),
        decreases work.len() - i,
    {
        let mut j: usize = i + 1;
        while j < work.len()
            invariant
                i < j <= work.len(),
                forall|b: int|
                    i < b < j ==> !clash(
                        items(work@)[i as int].name,
                        (#[trigger] items(work@)[b]).name,
                    ),
            decreases work.len() - j,
        {
            if clashing(work[i].entry.name.as_str(), work[j].entry.name.as_str()) {
                assert(clash(items(work@)[i as int].name, items(work@)[j as int].name));
                return false;
            }
            j = j + 1;
        }
        i = i + 1;
    }
    true
}

/// For each item, the place of the first item that is the same file under the
/// same name: its own place, unless it is a repeat.
fn find_twins(work: &Vec<Work>) -> (twin: Vec<usize>)
    ensures
        twin@.len() == work@.len(),
        forall|i: int|
            0 <= i < work@.len() ==> (#[trigger] twin@[i]) == first_twin(items(work@), i, 0)
                && twin@[i] <= i && (twin@[i] < i <==> is_dropped(items(work@), i)),
{
    let mut twin: Vec<usize> = Vec::new();
    let mut i: usize = 0;
    let ghost its = items(work@);
    while i < work.len()
        invariant
            i <= work.len(),
            its == items(work@),
            twin@.len() == i,
            forall|k: int|
                0 <= k < i ==> (#[trigger] twin@[k]) == first_twin(its, k, 0) && twin@[k] <= k && (
                twin@[k] < k <==> is_dropped(its, k)),
        decreases work.len() - i,
    {
        let mut j: usize = 0;
        while j < i && !(same(work[j].entry.name.as_str(), work[i].entry.name.as_str())
            && same_canonical(&work[j].entry.canonical, &work[i].entry.canonical))
            invariant
                j <= i < work.len(),
                its == items(work@),
                first_twin(its, i as int, 0) == first_twin(its, i as int, j as int),
                forall|k: int| 0 <= k < j ==> !#[trigger] twins(its[k], its[i as int]),
            decreases i - j,
        {
            j = j + 1;
        }
        proof {
            if j < i {
                assert(twins(its[j as int], its[i as int]));
            }
        }
        twin.push(j);
        i = i + 1;
    }
    twin
}

spec fn twins_ok(work: Seq<Work>, twin: Seq<usize>) -> bool {
    twin.len() == work.len() && forall|i: int|
        0 <= i < work.len() ==> (#[trigger] twin[i]) == first_twin(items(work), i, 0) && twin[i]
            <= i && (twin[i] < i <==> is_dropped(items(work), i))
}

/// Whether item `i` stays, shares its name with another that stays, and none
/// of them can be renamed.
fn is_stuck_equal(work: &Vec<Work>, twin: &Vec<usize>, i: usize) -> (r: bool)
    requires
        twins_ok(work@, twin@),
        i < work.len(),
    ensures
        r == stuck_equal(items(work@), i as int),
{
    let ghost its = items(work@);
    if twin[i] < i {
        return false;
    }
    let mut others = false;
    let mut j: usize = 0;
    while j < work.len()
        invariant
            j <= work.len(),
            i < work.len(),
            its == items(work@),
            twins_ok(work@, twin@),
            !is_dropped(its, i as int),
            others <==> exists|k: int|
                0 <= k < j && k != i && !is_dropped(its, k) && #[trigger] its[k].name
                    == its[i as int].name,
            forall|k: int|
                0 <= k < j && !is_dropped(its, k) && #[trigger] its[k].name == its[i as int].name
                    ==> !extendable(its[k]),
        decreases work.len() - j,
    {
        assert(twin@[j as int] < j <==> is_dropped(its, j as int));
        assert(its[j as int] == work@[j as int].item());
        if !(twin[j] < j) && same(work[j].entry.name.as_str(), work[i].entry.name.as_str()) {
            if work[j].used < work[j].avail.len() {
                return false;
            }
            if j != i {
                others = true;
            }
        }
        j = j + 1;
    }
    others
}

/// Whether item `k` stays below a file named `p` and nothing can be renamed.
fn is_stuck_under(work: &Vec<Work>, twin: &Vec<usize>, k: usize, p: &str) -> (r: bool)
    requires
        twins_ok(work@, twin@),
        k < work.len(),
    ensures
        r == stuck_under(items(work@), k as int, p@),
{
    let ghost its = items(work@);
    if twin[k] < k || work[k].used < work[k].avail.len() {
        return false;
    }
    let mut owned = false;
    let mut j: usize = 0;
    while j < work.len()
        invariant
            j <= work.len(),
            its == items(work@),
            twins_ok(work@, twin@),
            owned <==> exists|q: int| 0 <= q < j && #[trigger] its[q].name == p@,
            forall|q: int|
                0 <= q < j && !is_dropped(its, q) && #[trigger] its[q].name == p@ ==> !extendable(
                    its[q],
                ),
        decreases work.len() - j,
    {
        assert(twin@[j as int] < j <==> is_dropped(its, j as int));
        assert(its[j as int] == work@[j as int].item());
        if same(work[j].entry.name.as_str(), p) {
            if !(twin[j] < j) && work[j].used < work[j].avail.len() {
                return false;
            }
            owned = true;
        }
        j = j + 1;
    }
    owned
}

/// The items that stay and are named `name`, as places.
fn find_kept_named(work: &Vec<Work>, twin: &Vec<usize>, name: &str) -> (r: Vec<usize>)
    requires
        twins_ok(work@, twin@),
    ensures
        forall|k: int| 0 <= k < r@.len() ==> #[trigger] r@[k] < work@.len(),
        r@.map_values(|k: usize| items(work@)[k as int]) == kept_named(
            items(work@),
            name@,
            work@.len(),
        ),
{
    let mut r: Vec<usize> = Vec::new();
    let ghost its = items(work@);
    let ghost at = |k: usize| its[k as int];
    let mut i: usize = 0;
    assert(r@.map_values(at) == kept_named(its, name@, 0));
    while i < work.len()
        invariant
            i <= work.len(),
            its == items(work@),
            at == (|k: usize| its[k as int]),
            twins_ok(work@, twin@),
            forall|k: int| 0 <= k < r@.len() ==> #[trigger] r@[k] < work@.len(),
            r@.map_values(at) == kept_named(its, name@, i as nat),
        decreases work.len() - i,
    {
        assert(twin@[i as int] < i <==> is_dropped(its, i as int));
        assert(its[i as int] == work@[i as int].item());
        if !(twin[i] < i) && same(work[i].entry.name.as_str(), name) {
            assert(r@.push(i).map_values(at) == r@.map_values(at).push(its[i as int]));
            r.push(i);
        }
        i = i + 1;
    }
    assert(r@.map_values(|k: usize| items(work@)[k as int]) == r@.map_values(at));
    r
}

/// What stands in the way of a next round, if anything does.
fn find_trouble(work: &Vec<Work>, twin: &Vec<usize>) -> (r: Option<NameConflict>)
    requires
        twins_ok(work@, twin@),
    ensures
        r is Some <==> trouble(items(work@)) is Some,
        r matches Some(t) ==> trouble(items(work@)) == Some(t.model()),
{
    let ghost its = items(work@);
    let mut i: usize = 0;
    while i < work.len()
        invariant
            i <= work.len(),
            its == items(work@),
            twins_ok(work@, twin@),
            first_stuck_equal(its, 0) == first_stuck_equal(its, i as int),
        decreases work.len() - i,
    {
        if is_stuck_equal(work, twin, i) {
            let name = work[i].entry.name.clone();
            let kept = find_kept_named(work, twin, name.as_str());
            let mut paths: Vec<String> = Vec::new();
            let ghost want = kept_named(its, name@, its.len()).map_values(|it: Item| it.path);
            let mut k: usize = 0;
            assert(text::views(paths@) == want.take(0));
            while k < kept.len()
                invariant
                    k <= kept.len(),
                    its == items(work@),
                    forall|q: int| 0 <= q < kept@.len() ==> #[trigger] kept@[q] < work@.len(),
                    kept@.map_values(|q: usize| items(work@)[q as int]) == kept_named(
                        its,
                        name@,
                        its.len(),
                    ),
                    want == kept_named(its, name@, its.len()).map_values(|it: Item| it.path),
                    text::views(paths@) == want.take(k as int),
                decreases kept.len() - k,
            {
                let c = work[kept[k]].entry.path.clone();
                proof {
                    text::lemma_views_push(paths@, c);
                    let ks = kept@.map_values(|q: usize| items(work@)[q as int]);
                    assert(ks[k as int] == its[kept@[k as int] as int]);
                    assert(its[kept@[k as int] as int] == work@[kept@[k as int] as int].item());
                    assert(want[k as int] == c@);
                    assert(want.take(k + 1) == want.take(k as int).push(c@));
                }
                paths.push(c);
                k = k + 1;
            }
            proof {
                let ks = kept@.map_values(|q: usize| items(work@)[q as int]);
                assert(ks.len() == kept@.len());
                assert(want.take(want.len() as int) == want);
                assert(its[i as int] == work@[i as int].item());
            }
            return Some(NameConflict::Duplicate { name, paths });
        }
        i = i + 1;
    }
    let mut k: usize = 0;
    while k < work.len()
        invariant
            k <= work.len(),
            its == items(work@),
            twins_ok(work@, twin@),
            first_stuck_equal(its, 0) is None,
            first_stuck_under(its, 0) == first_stuck_under(its, k as int),
        decreases work.len() - k,
    {
        let ps = dir_prefixes(work[k].entry.name.as_str());
        let ghost pv = text::views(ps@);
        assert(its[k as int] == work@[k as int].item());
        let mut m: usize = 0;
        while m < ps.len()
            invariant
                k < work.len(),
                m <= ps.len(),
                its == items(work@),
                twins_ok(work@, twin@),
                pv == text::views(ps@),
                pv == prefixes(its[k as int].name, its[k as int].name.len()),
                first_stuck_equal(its, 0) is None,
                first_stuck_under(its, 0) == first_stuck_under(its, k as int),
                first_stuck_prefix(its, k as int, pv, 0) == first_stuck_prefix(
                    its,
                    k as int,
                    pv,
                    m as int,
                ),
            decreases ps.len() - m,
        {
            assert(pv[m as int] == ps@[m as int]@);
            if is_stuck_under(work, twin, k, ps[m].as_str()) {
                let kept = find_kept_named(work, twin, ps[m].as_str());
                let ghost p = ps@[m as int]@;
                let mut kept = kept;
                let ghost base = kept_named(its, p, its.len());
                proof {
                    let at = |q: usize| items(work@)[q as int];
                    assert(kept@.push(k).map_values(at) == kept@.map_values(at).push(
                        its[k as int],
                    ));
                }
                kept.push(k);
                let ghost all = base.push(its[k as int]);
                let ghost want = all.map_values(|it: Item| (it.name, it.path));
                let mut parties: Vec<(String, String)> = Vec::new();
                let mut q: usize = 0;
                assert(pair_views(parties@) == want.take(0));
                while q < kept.len()
                    invariant
                        q <= kept.len(),
                        its == items(work@),
                        forall|x: int| 0 <= x < kept@.len() ==> #[trigger] kept@[x] < work@.len(),
                        kept@.map_values(|x: usize| items(work@)[x as int]) == all,
                        want == all.map_values(|it: Item| (it.name, it.path)),
                        pair_views(parties@) == want.take(q as int),
                    decreases kept.len() - q,
                {
                    let c = (
                        work[kept[q]].entry.name.clone(),
                        work[kept[q]].entry.path.clone(),
                    );
                    proof {
                        lemma_pair_views_push(parties@, c);
                        let ks = kept@.map_values(|x: usize| items(work@)[x as int]);
                        assert(ks[q as int] == its[kept@[q as int] as int]);
                        assert(its[kept@[q as int] as int] == work@[kept@[q as int] as int].item());
                        assert(want[q as int] == (c.0@, c.1@));
                        assert(want.take(q + 1) == want.take(q as int).push((c.0@, c.1@)));
                    }
                    parties.push(c);
                    q = q + 1;
                }
                proof {
                    let ks = kept@.map_values(|x: usize| items(work@)[x as int]);
                    assert(ks.len() == kept@.len());
                    assert(want.take(want.len() as int) == want);
                }
                return Some(NameConflict::Collision { parties });
            }
            m = m + 1;
        }
        k = k + 1;
    }
    None
}

/// The repeats of this round, name by name.
fn find_drops(work: &Vec<Work>, twin: &Vec<usize>, dropped: &mut Vec<(String, String)>)
    requires
        twins_ok(work@, twin@),
    ensures
        pair_views(final(dropped)@) == pair_views(old(dropped)@) + round_drops(
            items(work@),
            work@.len(),
        ),
{
    let ghost its = items(work@);
    let ghost start = pair_views(dropped@);
    let mut l: usize = 0;
    assert(start + round_drops(its, 0) == start);
    while l < work.len()
        invariant
            l <= work.len(),
            its == items(work@),
            twins_ok(work@, twin@),
            pair_views(dropped@) == start + round_drops(its, l as nat),
        decreases work.len() - l,
    {
        let mut leader = true;
        let mut j: usize = 0;
        while j < l
            invariant
                j <= l < work.len(),
                its == items(work@),
                leader <==> forall|k: int| 0 <= k < j ==> #[trigger] its[k].name != its[l as int].name,
            decreases l - j,
        {
            assert(its[j as int] == work@[j as int].item());
            assert(its[l as int] == work@[l as int].item());
            if same(work[j].entry.name.as_str(), work[l].entry.name.as_str()) {
                assert(its[j as int].name == its[l as int].name);
                leader = false;
            }
            j = j + 1;
        }
        assert(leader == is_leader(its, l as int));
        if leader {
            let ghost before = pair_views(dropped@);
            let mut i: usize = 0;
            assert(before + group_drops(its, l as int, 0) == before);
            while i < work.len()
                invariant
                    i <= work.len(),
                    l < work.len(),
                    its == items(work@),
                    twins_ok(work@, twin@),
                    pair_views(dropped@) == before + group_drops(its, l as int, i as nat),
                decreases work.len() - i,
            {
                assert(twin@[i as int] < i <==> is_dropped(its, i as int));
                assert(its[i as int] == work@[i as int].item());
                assert(its[l as int] == work@[l as int].item());
                if twin[i] < i && same(work[i].entry.name.as_str(), work[l].entry.name.as_str()) {
                    let t: usize = twin[i];
                    assert(its[t as int] == work@[t as int].item());
                    let c = (work[i].entry.path.clone(), work[t].entry.path.clone());
                    proof {
                        lemma_pair_views_push(dropped@, c);
                        let g = group_drops(its, l as int, i as nat);
                        assert((before + g).push((c.0@, c.1@)) == before + g.push((c.0@, c.1@)));
                    }
                    dropped.push(c);
                }
                i = i + 1;
            }
            proof {
                let r = round_drops(its, l as nat);
                let g = group_drops(its, l as int, its.len());
                assert(start + r + g == start + (r + g));
            }
        }
        l = l + 1;
    }
}

/// Whether item `i` has a rival.
fn find_rival(work: &Vec<Work>, twin: &Vec<usize>, i: usize) -> (r: bool)
    requires
        twins_ok(work@, twin@),
        i < work.len(),
    ensures
        r == has_rival(items(work@), i as int),
{
    let ghost its = items(work@);
    let mut j: usize = 0;
    while j < work.len()
        invariant
            j <= work.len(),
            i < work.len(),
            its == items(work@),
            twins_ok(work@, twin@),
            forall|k: int| 0 <= k < j ==> !#[trigger] rival(its, i as int, k),
        decreases work.len() - j,
    {
        assert(twin@[j as int] < j <==> is_dropped(its, j as int));
        assert(its[j as int] == work@[j as int].item());
        assert(its[i as int] == work@[i as int].item());
        if j != i && !(twin[j] < j) && clashing(
            work[i].entry.name.as_str(),
            work[j].entry.name.as_str(),
        ) {
            assert(rival(its, i as int, j as int));
            return true;
        }
        j = j + 1;
    }
    false
}

/// The items after one round.
fn step(work: Vec<Work>, twin: &Vec<usize>) -> (r: Vec<Work>)
    requires
        twins_ok(work@, twin@),
    ensures
        items(r@) == next_round(items(work@)),
{
    let ghost its = items(work@);
    let mut grow: Vec<bool> = Vec::new();
    let mut i: usize = 0;
    while i < work.len()
        invariant
            i <= work.len(),
            its == items(work@),
            twins_ok(work@, twin@),
            grow@.len() == i,
            forall|k: int|
                0 <= k < i ==> (#[trigger] grow@[k] <==> (extendable(its[k]) && has_rival(
                    its,
                    k,
                ))),
        decreases work.len() - i,
    {
        assert(its[i as int] == work@[i as int].item());
        let g = work[i].used < work[i].avail.len() && find_rival(&work, twin, i);
        grow.push(g);
        i = i + 1;
    }
    let mut work = work;
    let ghost all = work@;
    let mut back: Vec<Work> = Vec::new();
    assert(all.take(all.len() as int) == all);
    assert(items(back@).reverse() == Seq::<Item>::empty());
    assert(next_upto(its, its.len()) + items(back@).reverse() == next_upto(its, its.len()));
    while work.len() > 0
        invariant
            work@.len() <= all.len(),
            work@ == all.take(work@.len() as int),
            its == items(all),
            twins_ok(all, twin@),
            grow@.len() == all.len(),
            forall|k: int|
                0 <= k < all.len() ==> (#[trigger] grow@[k] <==> (extendable(its[k]) && has_rival(
                    its,
                    k,
                ))),
            next_round(its) == next_upto(its, work@.len()) + items(back@).reverse(),
        decreases work.len(),
    {
        let ghost n = work@.len();
        let mut w = work.pop().unwrap();
        let at: usize = work.len();
        assert(w == all[n - 1]);
        assert(work@ == all.take(n - 1));
        assert(its[at as int] == w.item());
        assert(twin@[at as int] < at <==> is_dropped(its, at as int));
        assert(grow@[at as int] <==> (extendable(its[at as int]) && has_rival(its, at as int)));
        if !(twin[at] < at) {
            if grow[at] {
                let name = tail_name(&w.avail, w.avail.len() - w.used - 1);
                let used: usize = w.used + 1;
                w.used = used;
                w.entry.name = name;
            }
            assert(w.item() == survivor(its, at as int));
            proof {
                let s = w.item();
                let m = (n - 1) as nat;
                assert(items(back@.push(w)) == items(back@).push(s));
                assert(next_upto(its, m).push(s) + items(back@).reverse() == next_upto(its, m)
                    + items(back@).push(s).reverse());
            }
            back.push(w);
        }
    }
    assert(next_upto(its, 0) + items(back@).reverse() == items(back@).reverse());
    let mut r: Vec<Work> = Vec::new();
    let ghost done = back@;
    while back.len() > 0
        invariant
            back@.len() + r@.len() == done.len(),
            back@ == done.take(back@.len() as int),
            forall|k: int| 0 <= k < r@.len() ==> #[trigger] r@[k] == done[done.len() - 1 - k],
        decreases back.len(),
    {
        let ghost n = back@.len();
        let w = back.pop().unwrap();
        assert(back@ == done.take(n - 1));
        r.push(w);
    }
    assert(items(r@) =~= items(done).reverse());
    r
}

/// What an item is sent as.
pub open spec fn entry_is(e: SendEntry, it: Item) -> bool {
    e.name@ == it.name && e.size == it.size && e.mode == it.mode && e.path@ == it.path
        && canon_view(e.canonical) == it.canon
}

pub open spec fn entries_are(entries: Seq<SendEntry>, its: Seq<Item>) -> bool {
    entries.len() == its.len() && forall|i: int|
        0 <= i < its.len() ==> entry_is(#[trigger] entries[i], its[i])
}

/// Path and name of every item whose name is no longer the one it came with.
pub open spec fn renamed(its: Seq<Item>) -> Seq<(Seq<char>, Seq<char>)>
    decreases its.len(),
{
    if its.len() == 0 {
        seq![]
    } else {
        let before = renamed(its.drop_last());
        let it = its.last();
        if it.name != it.orig {
            before.push((it.path, it.name))
        } else {
            before
        }
    }
}

fn finish(work: Vec<Work>) -> (r: (Vec<SendEntry>, Vec<(String, String)>))
    ensures
        entries_are(r.0@, items(work@)),
        pair_views(r.1@) == renamed(items(work@)),
{
    let ghost its = items(work@);
    let mut renames: Vec<(String, String)> = Vec::new();
    let mut i: usize = 0;
    assert(its.take(0) == Seq::<Item>::empty());
    assert(pair_views(renames@) == renamed(its.take(0)));
    while i < work.len()
        invariant
            i <= work.len(),
            its == items(work@),
            pair_views(renames@) == renamed(its.take(i as int)),
        decreases work.len() - i,
    {
        proof {
            assert(its.take(i + 1).drop_last() == its.take(i as int));
            assert(its.take(i + 1).last() == work@[i as int].item());
        }
        if !same(work[i].entry.name.as_str(), work[i].orig_name.as_str()) {
            let c = (work[i].entry.path.clone(), work[i].entry.name.clone());
            proof {
                lemma_pair_views_push(renames@, c);
            }
            renames.push(c);
        }
        i = i + 1;
    }
    assert(its.take(its.len() as int) == its);
    let mut work = work;
    let ghost all = work@;
    let mut back: Vec<SendEntry> = Vec::new();
    while work.len() > 0
        invariant
            work@.len() + back@.len() == all.len(),
            work@ == all.take(work@.len() as int),
            forall|k: int|
                0 <= k < back@.len() ==> #[trigger] back@[k] == all[all.len() - 1 - k].entry,
        decreases work.len(),
    {
        let ghost n = work@.len();
        let w = work.pop().unwrap();
        assert(work@ == all.take(n - 1));
        back.push(w.entry);
    }
    let mut entries: Vec<SendEntry> = Vec::new();
    let ghost done = back@;
    while back.len() > 0
        invariant
            back@.len() + entries@.len() == done.len(),
            back@ == done.take(back@.len() as int),
            forall|k: int| 0 <= k < entries@.len() ==> #[trigger] entries@[k] == done[done.len() - 1 - k],
        decreases back.len(),
    {
        let ghost n = back@.len();
        let e = back.pop().unwrap();
        assert(back@ == done.take(n - 1));
        entries.push(e);
    }
    proof {
        assert forall|k: int| 0 <= k < its.len() implies entry_is(#[trigger] entries@[k], its[k]) by {
            assert(its[k] == all[k].item());
        }
    }
    (entries, renames)
}

/// Resolve conflicts between wire names, each with the shortest suffix of its
/// path that the others leave free: two spellings of the same file collapse to
/// one entry, and distinct files that no parent directory tells apart are an
/// error.
pub fn uniquify_wire_names(entries: Vec<SendEntry>) -> (r: Result<Uniquified, NameConflict>)
    ensures
        match (r, resolved(items_of(entries@), seq![])) {
            (Ok(u), Ok(done)) => {
                &&& entries_are(u.entries@, done.0)
                &&& pair_views(u.renames@) == renamed(done.0)
                &&& pair_views(u.dropped@) == done.1
            },
            (Err(e), Err(t)) => e.model() == t,
            _ => false,
        },
{
    let ghost start = items_of(entries@);
    let mut work = work_of(entries);
    let mut dropped: Vec<(String, String)> = Vec::new();
    assert(pair_views(dropped@) == Seq::<(Seq<char>, Seq<char>)>::empty());
    while !is_calm(&work)
        invariant
            start == items_of(entries@),
            resolved(items(work@), pair_views(dropped@)) == resolved(start, seq![]),
        decreases load(items(work@)),
    {
        let twin = find_twins(&work);
        let bad = find_trouble(&work, &twin);
        match bad {
            Some(e) => {
                return Err(e);
            },
            None => {
                proof {
                    lemma_round_progress(items(work@));
                }
                find_drops(&work, &twin, &mut dropped);
                work = step(work, &twin);
            },
        }
    }
    let (entries, renames) = finish(work);
    Ok(Uniquified { entries, renames, dropped })
}


/// Whether `b` is the file of `a`, with at most a longer name.
pub open spec fn carried(a: Item, b: Item) -> bool {
    b == Item { name: b.name, used: b.used, ..a }
}

/// Whether an item is named as it came, or by the last components of its path.
pub open spec fn name_ok(it: Item) -> bool {
    it.name == it.orig || (it.used <= it.avail.len() && it.name == text::join(
        it.avail.skip(it.avail.len() - it.used),
        "/"@,
    ))
}

/// Where the items of `small` stand in `big`: in the same order, each the same
/// file.
pub open spec fn placed(big: Seq<Item>, small: Seq<Item>, f: Seq<int>) -> bool {
    &&& f.len() == small.len()
    &&& forall|k: int| 0 <= k < f.len() ==> 0 <= #[trigger] f[k] < big.len()
    &&& forall|k: int, m: int| 0 <= k < m < f.len() ==> #[trigger] f[k] < #[trigger] f[m]
    &&& forall|k: int| 0 <= k < f.len() ==> carried(big[#[trigger] f[k]], small[k])
}

/// Whether the file of item `i` is among `small`, itself or under another
/// spelling.
pub open spec fn still_sent(it: Item, small: Seq<Item>) -> bool {
    exists|k: int|
        0 <= k < small.len() && (carried(it, #[trigger] small[k]) || (it.canon is Some
            && small[k].canon == it.canon))
}

proof fn lemma_next_places(its: Seq<Item>, n: nat) -> (f: Seq<int>)
    requires
        n <= its.len(),
    ensures
        placed(its, next_upto(its, n), f),
        forall|k: int| 0 <= k < f.len() ==> #[trigger] f[k] < n,
        forall|k: int|
            0 <= k < f.len() ==> next_upto(its, n)[k] == survivor(its, #[trigger] f[k]),
        forall|i: int| 0 <= i < n && !is_dropped(its, i) ==> #[trigger] f.contains(i),
    decreases n,
{
    if n == 0 {
        Seq::empty()
    } else {
        let m = (n - 1) as nat;
        let g = lemma_next_places(its, m);
        if is_dropped(its, m as int) {
            g
        } else {
            let f = g.push(m as int);
            let before = next_upto(its, m);
            let here = next_upto(its, n);
            assert(here == before.push(survivor(its, m as int)));
            assert forall|k: int| 0 <= k < f.len() implies carried(its[#[trigger] f[k]], here[k]) by {
                if k < g.len() {
                    assert(f[k] == g[k]);
                }
            }
            assert forall|k: int| 0 <= k < f.len() implies here[k] == survivor(its, #[trigger] f[k]) by {
                if k < g.len() {
                    assert(f[k] == g[k]);
                }
            }
            assert forall|i: int| 0 <= i < n && !is_dropped(its, i) implies #[trigger] f.contains(i) by {
                if i < m {
                    assert(g.contains(i));
                    let k = choose|k: int| 0 <= k < g.len() && g[k] == i;
                    assert(f[k] == i);
                } else {
                    assert(f.last() == i);
                }
            }
            f
        }
    }
}

proof fn lemma_drops_have_survivor(its: Seq<Item>, i: int) -> (j: int)
    requires
        0 <= i < its.len(),
    ensures
        0 <= j <= i,
        !is_dropped(its, j),
        j == i || (its[i].canon is Some && its[j].canon == its[i].canon),
    decreases i,
{
    if is_dropped(its, i) {
        let t = choose|t: int| 0 <= t < i && #[trigger] twins(its[t], its[i]);
        lemma_drops_have_survivor(its, t)
    } else {
        i
    }
}

/// What every successful resolution keeps: the names never clash, each file
/// appears in the order in which it came, under its own name or one that ends
/// its path, and no file is left out unless another spelling of it is sent.
proof fn lemma_resolved(its: Seq<Item>, drops: Seq<(Seq<char>, Seq<char>)>) -> (f: Seq<int>)
    requires
        resolved(its, drops) is Ok,
        forall|i: int| 0 <= i < its.len() ==> name_ok(#[trigger] its[i]),
    ensures
        ({
            let done = resolved(its, drops)->Ok_0.0;
            &&& calm(done)
            &&& placed(its, done, f)
            &&& forall|k: int| 0 <= k < done.len() ==> name_ok(#[trigger] done[k])
            &&& forall|i: int| 0 <= i < its.len() ==> still_sent(#[trigger] its[i], done)
        }),
    decreases load(its),
{
    let done = resolved(its, drops)->Ok_0.0;
    if calm(its) {
        let f = Seq::new(its.len(), |k: int| k);
        assert forall|i: int| 0 <= i < its.len() implies still_sent(#[trigger] its[i], done) by {
            assert(carried(its[i], done[i]));
        }
        f
    } else {
        lemma_round_progress(its);
        let next = next_round(its);
        let d = drops + round_drops(its, its.len());
        let g = lemma_next_places(its, its.len());
        assert forall|k: int| 0 <= k < next.len() implies name_ok(#[trigger] next[k]) by {
            assert(next[k] == survivor(its, g[k]));
            assert(name_ok(its[g[k]]));
        }
        let h = lemma_resolved(next, d);
        let f = Seq::new(h.len(), |k: int| g[h[k]]);
        assert forall|k: int| 0 <= k < f.len() implies 0 <= #[trigger] f[k] < its.len() by {
            assert(0 <= h[k] < g.len());
        }
        assert forall|k: int, m: int| 0 <= k < m < f.len() implies #[trigger] f[k]
            < #[trigger] f[m] by {
            assert(h[k] < h[m]);
        }
        assert forall|k: int| 0 <= k < f.len() implies carried(its[#[trigger] f[k]], done[k]) by {
            assert(carried(next[h[k]], done[k]));
            assert(carried(its[g[h[k]]], next[h[k]]));
        }
        assert forall|i: int| 0 <= i < its.len() implies still_sent(#[trigger] its[i], done) by {
            let j = lemma_drops_have_survivor(its, i);
            assert(g.contains(j));
            let k = choose|k: int| 0 <= k < g.len() && g[k] == j;
            assert(carried(its[g[k]], next[k]));
            assert(still_sent(next[k], done));
            let q = choose|q: int|
                0 <= q < done.len() && (carried(next[k], #[trigger] done[q]) || (next[k].canon is Some
                    && done[q].canon == next[k].canon));
            assert(carried(its[i], done[q]) || (its[i].canon is Some && done[q].canon
                == its[i].canon));
        }
        f
    }
}

proof fn lemma_start_names_ok(entries: Seq<SendEntry>)
    ensures
        forall|i: int| 0 <= i < entries.len() ==> name_ok(#[trigger] items_of(entries)[i]),
{
}

/// Once names are resolved, a receiver can create every file: no two names
/// are equal and none is a directory of another.
pub proof fn law_resolved_names_never_clash(entries: Seq<SendEntry>)
    requires
        resolved(items_of(entries), seq![]) is Ok,
    ensures
        calm(resolved(items_of(entries), seq![])->Ok_0.0),
{
    lemma_start_names_ok(entries);
    let _ = lemma_resolved(items_of(entries), seq![]);
}

/// Resolving names keeps the files, their order, their sizes and their modes:
/// what is sent is a selection from what was given.
pub proof fn law_resolved_keeps_order(entries: Seq<SendEntry>)
    requires
        resolved(items_of(entries), seq![]) is Ok,
    ensures
        exists|f: Seq<int>|
            placed(items_of(entries), resolved(items_of(entries), seq![])->Ok_0.0, f),
{
    lemma_start_names_ok(entries);
    let f = lemma_resolved(items_of(entries), seq![]);
    assert(placed(items_of(entries), resolved(items_of(entries), seq![])->Ok_0.0, f));
}

/// Every file that was given is sent, itself or under another spelling of it.
pub proof fn law_resolved_loses_no_file(entries: Seq<SendEntry>, i: int)
    requires
        resolved(items_of(entries), seq![]) is Ok,
        0 <= i < entries.len(),
    ensures
        still_sent(items_of(entries)[i], resolved(items_of(entries), seq![])->Ok_0.0),
{
    lemma_start_names_ok(entries);
    let _ = lemma_resolved(items_of(entries), seq![]);
}

/// A name is only ever changed to the last components of the file's own path.
pub proof fn law_resolved_names_end_their_paths(entries: Seq<SendEntry>, k: int)
    requires
        resolved(items_of(entries), seq![]) is Ok,
        0 <= k < resolved(items_of(entries), seq![])->Ok_0.0.len(),
    ensures
        name_ok(resolved(items_of(entries), seq![])->Ok_0.0[k]),
{
    lemma_start_names_ok(entries);
    let _ = lemma_resolved(items_of(entries), seq![]);
}

/// Names without a conflict pass through untouched.
pub proof fn law_no_conflict_no_change(entries: Seq<SendEntry>)
    requires
        calm(items_of(entries)),
    ensures
        resolved(items_of(entries), seq![]) == Ok::<_, Trouble>(
            (items_of(entries), Seq::<(Seq<char>, Seq<char>)>::empty()),
        ),
        renamed(items_of(entries)) == Seq::<(Seq<char>, Seq<char>)>::empty(),
{
    lemma_nothing_renamed(items_of(entries));
}

/// Whether an item is named by the last components of its path.
pub open spec fn ends_path(it: Item) -> bool {
    &&& 0 < it.used <= it.avail.len()
    &&& it.name == text::join(it.avail.skip(it.avail.len() - it.used), "/"@)
}

proof fn lemma_join_front(parts: Seq<Seq<char>>, sep: Seq<char>)
    requires
        parts.len() >= 2,
    ensures
        text::join(parts, sep) == parts[0] + sep + text::join(parts.skip(1), sep),
    decreases parts.len(),
{
    let init = parts.drop_last();
    assert(parts.skip(1).last() == parts.last());
    if parts.len() == 2 {
        assert(init =~= seq![parts[0]]);
        assert(parts.skip(1) =~= seq![parts.last()]);
        reveal_with_fuel(text::join, 3);
    } else {
        lemma_join_front(init, sep);
        assert(init.skip(1) =~= parts.skip(1).drop_last());
        let rest = text::join(init.skip(1), sep);
        assert((parts[0] + sep + rest) + sep + parts.last() =~= parts[0] + sep + (rest + sep
            + parts.last()));
    }
}

proof fn lemma_grown_ends(it: Item)
    requires
        ends_path(it),
        extendable(it),
        it.orig.is_suffix_of(it.name),
    ensures
        ends_path(grown(it)),
        it.orig.is_suffix_of(grown(it).name),
{
    let n = it.avail.len() as int;
    let parts = it.avail.skip(n - it.used - 1);
    lemma_join_front(parts, "/"@);
    assert(parts.skip(1) =~= it.avail.skip(n - it.used));
    let name = grown(it).name;
    let pre = parts[0] + "/"@;
    assert(name == pre + it.name);
    let k = it.name.len() - it.orig.len();
    assert(it.orig =~= name.subrange(pre.len() + k, name.len() as int)) by {
        assert(it.orig == it.name.subrange(k, it.name.len() as int));
    }
}

proof fn lemma_names_extend(its: Seq<Item>, drops: Seq<(Seq<char>, Seq<char>)>)
    requires
        resolved(its, drops) is Ok,
        forall|i: int|
            0 <= i < its.len() ==> ends_path(#[trigger] its[i]) && its[i].orig.is_suffix_of(
                its[i].name,
            ),
    ensures
        forall|k: int|
            0 <= k < resolved(its, drops)->Ok_0.0.len() ==> (#[trigger] resolved(
                its,
                drops,
            )->Ok_0.0[k]).orig.is_suffix_of(resolved(its, drops)->Ok_0.0[k].name),
    decreases load(its),
{
    if !calm(its) {
        lemma_round_progress(its);
        let next = next_round(its);
        let g = lemma_next_places(its, its.len());
        assert forall|k: int| 0 <= k < next.len() implies ends_path(#[trigger] next[k])
            && next[k].orig.is_suffix_of(next[k].name) by {
            assert(next[k] == survivor(its, g[k]));
            let it = its[g[k]];
            assert(ends_path(it));
            if extendable(it) {
                lemma_grown_ends(it);
            }
        }
        lemma_names_extend(next, drops + round_drops(its, its.len()));
    }
}

/// A name is never made shorter: where every file came under the last
/// components of its path, the resolved name ends with the one that was given.
pub proof fn law_resolved_names_extend(entries: Seq<SendEntry>, k: int)
    requires
        resolved(items_of(entries), seq![]) is Ok,
        forall|i: int| 0 <= i < entries.len() ==> ends_path(item_of(#[trigger] entries[i])),
        0 <= k < resolved(items_of(entries), seq![])->Ok_0.0.len(),
    ensures
        ({
            let it = resolved(items_of(entries), seq![])->Ok_0.0[k];
            &&& it.orig.is_suffix_of(it.name)
            &&& it.orig.len() <= it.name.len()
        }),
{
    let its = items_of(entries);
    assert forall|i: int| 0 <= i < its.len() implies ends_path(#[trigger] its[i])
        && its[i].orig.is_suffix_of(its[i].name) by {
        assert(its[i] == item_of(entries[i]));
        assert(its[i].name.subrange(0, its[i].name.len() as int) =~= its[i].name);
    }
    lemma_names_extend(its, seq![]);
}

/// The first item from `j` on that is named as item `i`.
spec fn leader_of(items: Seq<Item>, i: int, j: int) -> int
    decreases i - j,
{
    if j >= i || items[j].name == items[i].name {
        j
    } else {
        leader_of(items, i, j + 1)
    }
}

proof fn lemma_leader_of(items: Seq<Item>, i: int, j: int)
    requires
        0 <= j <= i < items.len(),
        forall|m: int| 0 <= m < j ==> #[trigger] items[m].name != items[i].name,
    ensures
        j <= leader_of(items, i, j) <= i,
        items[leader_of(items, i, j)].name == items[i].name,
        is_leader(items, leader_of(items, i, j)),
    decreases i - j,
{
    if j < i && items[j].name != items[i].name {
        lemma_leader_of(items, i, j + 1);
    }
}

/// How many of the first `n` items are repeats whose name first occurs before
/// place `l`.
spec fn led(items: Seq<Item>, l: int, n: nat) -> nat
    decreases n,
{
    if n == 0 {
        0
    } else {
        led(items, l, (n - 1) as nat) + (if is_dropped(items, n - 1) && leader_of(items, n - 1, 0)
            < l {
            1nat
        } else {
            0nat
        })
    }
}

proof fn lemma_led_step(items: Seq<Item>, l: int, n: nat)
    requires
        0 <= l < items.len(),
        n <= items.len(),
    ensures
        led(items, l + 1, n) == led(items, l, n) + (if is_leader(items, l) {
            group_drops(items, l, n).len()
        } else {
            0
        }),
    decreases n,
{
    if n > 0 {
        let i = n - 1;
        lemma_led_step(items, l, i as nat);
        lemma_leader_of(items, i, 0);
        let f = leader_of(items, i, 0);
        if is_leader(items, l) && items[i].name == items[l].name {
            if f < l {
                assert(items[f].name != items[l].name);
            }
            if l < f {
                assert(items[l].name != items[f].name);
            }
        }
    }
}

proof fn lemma_round_drops_len(items: Seq<Item>, l: nat)
    requires
        l <= items.len(),
    ensures
        round_drops(items, l).len() == led(items, l as int, items.len()),
    decreases l,
{
    if l == 0 {
        lemma_none_led(items, items.len());
    } else {
        lemma_round_drops_len(items, (l - 1) as nat);
        lemma_led_step(items, l - 1, items.len());
    }
}

proof fn lemma_none_led(items: Seq<Item>, n: nat)
    requires
        n <= items.len(),
    ensures
        led(items, 0, n) == 0,
    decreases n,
{
    if n > 0 {
        lemma_none_led(items, (n - 1) as nat);
        lemma_leader_of(items, n - 1, 0);
    }
}

proof fn lemma_next_len(items: Seq<Item>, n: nat)
    requires
        n <= items.len(),
    ensures
        next_upto(items, n).len() + led(items, items.len() as int, n) == n,
    decreases n,
{
    if n > 0 {
        lemma_next_len(items, (n - 1) as nat);
        lemma_leader_of(items, n - 1, 0);
    }
}

proof fn lemma_all_accounted(its: Seq<Item>, drops: Seq<(Seq<char>, Seq<char>)>)
    requires
        resolved(its, drops) is Ok,
    ensures
        ({
            let done = resolved(its, drops)->Ok_0;
            done.0.len() + done.1.len() == its.len() + drops.len()
        }),
    decreases load(its),
{
    if !calm(its) {
        lemma_round_progress(its);
        lemma_next_len(its, its.len());
        lemma_round_drops_len(its, its.len());
        lemma_all_accounted(next_round(its), drops + round_drops(its, its.len()));
    }
}

/// Every file is accounted for: those that are sent and the repeats that were
/// dropped are together as many as were given.
pub proof fn law_resolved_accounts_for_all(entries: Seq<SendEntry>)
    requires
        resolved(items_of(entries), seq![]) is Ok,
    ensures
        ({
            let done = resolved(items_of(entries), seq![])->Ok_0;
            done.0.len() + done.1.len() == entries.len()
        }),
{
    lemma_all_accounted(items_of(entries), seq![]);
}

proof fn lemma_nothing_renamed(its: Seq<Item>)
    requires
        forall|i: int| 0 <= i < its.len() ==> (#[trigger] its[i]).name == its[i].orig,
    ensures
        renamed(its) == Seq::<(Seq<char>, Seq<char>)>::empty(),
    decreases its.len(),
{
    if its.len() > 0 {
        assert forall|i: int| 0 <= i < its.drop_last().len() implies (
        #[trigger] its.drop_last()[i]).name == its.drop_last()[i].orig by {
            assert(its.drop_last()[i] == its[i]);
        }
        lemma_nothing_renamed(its.drop_last());
    }
}

} // verus!
