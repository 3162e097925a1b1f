//! Alphabetical order, and sorting by it without disturbing equals.

use vstd::prelude::*;
use crate::text;
use crate::text::{chars_of, copy, same};

verus! {

/// Whether `a` comes before `b`: the first character in which they differ
/// decides, and a text comes before what extends it.
pub open spec fn before(a: Seq<char>, b: Seq<char>) -> bool
    decreases a.len(),
{
    if b.len() == 0 {
        false
    } else if a.len() == 0 {
        true
    } else if a[0] != b[0] {
        a[0] < b[0]
    } else {
        before(a.skip(1), b.skip(1))
    }
}

pub proof fn lemma_before_not_self(a: Seq<char>)
    ensures
        !before(a, a),
    decreases a.len(),
{
    if a.len() > 0 {
        lemma_before_not_self(a.skip(1));
    }
}

pub proof fn lemma_before_chains(a: Seq<char>, b: Seq<char>, c: Seq<char>)
    requires
        before(a, b),
        before(b, c),
    ensures
        before(a, c),
    decreases a.len(),
{
    if a.len() > 0 && a[0] == b[0] && b[0] == c[0] {
        lemma_before_chains(a.skip(1), b.skip(1), c.skip(1));
    }
}

pub proof fn lemma_before_decides(a: Seq<char>, b: Seq<char>)
    ensures
        before(a, b) || before(b, a) || a == b,
    decreases a.len(),
{
    if a.len() == 0 && b.len() == 0 {
        assert(a == b);
    } else if a.len() > 0 && b.len() > 0 && a[0] == b[0] {
        lemma_before_decides(a.skip(1), b.skip(1));
        if a.skip(1) == b.skip(1) {
            assert(a.skip(1).len() == a.len() - 1);
            assert(b.skip(1).len() == b.len() - 1);
            assert forall|i: int| 0 <= i < a.len() implies a[i] == b[i] by {
                if i > 0 {
                    assert(a[i] == a.skip(1)[i - 1]);
                    assert(b[i] == b.skip(1)[i - 1]);
                }
            }
            assert(a == b);
        }
    }
}

/// Whether `a` comes before `b`.
pub fn comes_before(a: &str, b: &str) -> (r: bool)
    ensures
        r == before(a@, b@),
{
    let x = chars_of(a);
    let y = chars_of(b);
    let mut i: usize = 0;
    assert(x@.skip(0) == x@);
    assert(y@.skip(0) == y@);
    while i < x.len() && i < y.len() && x[i] == y[i]
        invariant
            i <= x.len(),
            i <= y.len(),
            x@ == a@,
            y@ == b@,
            before(x@.skip(i as int), y@.skip(i as int)) == before(a@, b@),
        decreases x.len() - i,
    {
        assert(x@.skip(i as int).skip(1) == x@.skip(i + 1));
        assert(y@.skip(i as int).skip(1) == y@.skip(i + 1));
        i = i + 1;
    }
    if i == y.len() {
        false
    } else if i == x.len() {
        true
    } else {
        x[i] < y[i]
    }
}

/// What a thing is sorted by: a rank first, then a text, then a number.
pub struct SortKey {
    pub rank: u8,
    pub text: String,
    pub number: u64,
}

/// A sort key as a value.
pub struct Rank {
    pub rank: u8,
    pub text: Seq<char>,
    pub number: u64,
}

impl View for SortKey {
    type V = Rank;

    open spec fn view(&self) -> Rank {
        Rank { rank: self.rank, text: self.text@, number: self.number }
    }
}

pub open spec fn ranks(keys: Seq<SortKey>) -> Seq<Rank> {
    keys.map_values(|k: SortKey| k@)
}

/// Whether `a` sorts before `b`.
pub open spec fn ahead(a: Rank, b: Rank) -> bool {
    a.rank < b.rank || (a.rank == b.rank && (before(a.text, b.text) || (a.text == b.text && a.number
        < b.number)))
}

/// Whether the place `i` precedes the place `j` in a sort that keeps equals in
/// their order.
pub open spec fn precedes(keys: Seq<Rank>, i: int, j: int) -> bool {
    ahead(keys[i], keys[j]) || (keys[i] == keys[j] && i < j)
}

/// Whether `order` lists the places `from..` of `keys`, each once, as a stable
/// sort puts them.
pub open spec fn sorted_from(keys: Seq<Rank>, from: int, order: Seq<usize>) -> bool {
    &&& order.len() == keys.len() - from
    &&& forall|k: int| 0 <= k < order.len() ==> from <= #[trigger] order[k] < keys.len()
    &&& forall|k: int, l: int|
        0 <= k < l < order.len() ==> precedes(
            keys,
            (#[trigger] order[k]) as int,
            (#[trigger] order[l]) as int,
        )
}

/// Whether `order` is the stable sort of `keys`.
pub open spec fn is_sort(keys: Seq<Rank>, order: Seq<usize>) -> bool {
    sorted_from(keys, 0, order)
}

/// The stable sort of `keys`: which place comes first, second and so on.
pub open spec fn sort_order(keys: Seq<Rank>) -> Seq<usize> {
    choose|order: Seq<usize>| is_sort(keys, order)
}

/// The things in sorted order.
pub open spec fn in_order<T>(items: Seq<T>, order: Seq<usize>) -> Seq<T> {
    Seq::new(order.len(), |k: int| items[order[k] as int])
}

pub proof fn lemma_precedes_not_self(keys: Seq<Rank>, i: int)
    ensures
        !precedes(keys, i, i),
{
    lemma_before_not_self(keys[i].text);
}

pub proof fn lemma_precedes_chains(keys: Seq<Rank>, i: int, j: int, k: int)
    requires
        precedes(keys, i, j),
        precedes(keys, j, k),
    ensures
        precedes(keys, i, k),
{
    let (a, b, c) = (keys[i], keys[j], keys[k]);
    if a.rank == b.rank && b.rank == c.rank && before(a.text, b.text) && before(b.text, c.text) {
        lemma_before_chains(a.text, b.text, c.text);
    }
}

pub proof fn lemma_precedes_decides(keys: Seq<Rank>, i: int, j: int)
    ensures
        precedes(keys, i, j) || precedes(keys, j, i) || i == j,
{
    lemma_before_decides(keys[i].text, keys[j].text);
}

/// Every place stands in its sort.
pub proof fn lemma_sort_is_complete(keys: Seq<Rank>, order: Seq<usize>, i: int)
    requires
        is_sort(keys, order),
        0 <= i < keys.len(),
    ensures
        exists|k: int| 0 <= k < order.len() && order[k] == i,
{
    let places = order.map_values(|x: usize| x as int);
    assert forall|k: int, l: int| 0 <= k < l < places.len() implies places[k] != places[l] by {
        assert(precedes(keys, order[k] as int, order[l] as int));
        lemma_precedes_not_self(keys, order[k] as int);
    }
    assert(places.no_duplicates());
    let all = vstd::set_lib::set_int_range(0, keys.len() as int);
    vstd::set_lib::lemma_int_range(0, keys.len() as int);
    let got = places.to_set();
    vstd::seq_lib::seq_to_set_is_finite(places);
    places.unique_seq_to_set();
    assert(got.len() == keys.len());
    assert(got.subset_of(all)) by {
        assert forall|x: int| got.contains(x) implies all.contains(x) by {
            let k = choose|k: int| 0 <= k < places.len() && places[k] == x;
            assert(places[k] == order[k]);
        }
    }
    vstd::set_lib::lemma_subset_equality(got, all);
    assert(all.contains(i));
    assert(got.contains(i));
    let k = choose|k: int| 0 <= k < places.len() && places[k] == i;
    assert(order[k] == i);
}

/// The stable sort is unique: a place has one position in it.
pub proof fn law_sort_is_unique(keys: Seq<Rank>, a: Seq<usize>, b: Seq<usize>)
    requires
        is_sort(keys, a),
        is_sort(keys, b),
    ensures
        a == b,
{
    assert forall|k: int| 0 <= k < a.len() implies a[k] == b[k] by {
        lemma_same_at(keys, a, b, k);
    }
    assert(a == b);
}

proof fn lemma_same_at(keys: Seq<Rank>, a: Seq<usize>, b: Seq<usize>, k: int)
    requires
        is_sort(keys, a),
        is_sort(keys, b),
        0 <= k < a.len(),
    ensures
        a[k] == b[k],
    decreases k,
{
    if a[k] != b[k] {
        lemma_sort_is_complete(keys, b, a[k] as int);
        lemma_sort_is_complete(keys, a, b[k] as int);
        let p = choose|p: int| 0 <= p < b.len() && b[p] == a[k];
        let q = choose|q: int| 0 <= q < a.len() && a[q] == b[k];
        if p < k {
            lemma_same_at(keys, a, b, p);
            assert(precedes(keys, a[p] as int, a[k] as int));
            lemma_precedes_not_self(keys, a[k] as int);
        }
        if q < k {
            lemma_same_at(keys, a, b, q);
            assert(precedes(keys, b[q] as int, b[k] as int));
            lemma_precedes_not_self(keys, b[k] as int);
        }
        assert(precedes(keys, b[k] as int, b[p] as int));
        assert(precedes(keys, a[k] as int, a[q] as int));
        lemma_precedes_chains(keys, a[k] as int, b[k] as int, a[k] as int);
        lemma_precedes_not_self(keys, a[k] as int);
    }
}

fn key_ahead(a: &SortKey, b: &SortKey) -> (r: bool)
    ensures
        r == ahead(a@, b@),
{
    a.rank < b.rank || (a.rank == b.rank && (comes_before(a.text.as_str(), b.text.as_str()) || (same(
        a.text.as_str(),
        b.text.as_str(),
    ) && a.number < b.number)))
}

/// Sort things by their keys; things with equal keys keep their order. The
/// second result says which place each one came from.
pub fn sort_by_keys<T>(items: Vec<T>, keys: &Vec<SortKey>) -> (r: (Vec<T>, Vec<usize>))
    requires
        items.len() == keys.len(),
    ensures
        is_sort(ranks(keys@), r.1@),
        r.1@ == sort_order(ranks(keys@)),
        r.0@ == in_order(items@, r.1@),
{
    let ghost all = items@;
    let ghost ks = ranks(keys@);
    let mut left = items;
    let mut out: Vec<T> = Vec::new();
    let mut places: Vec<usize> = Vec::new();
    while left.len() > 0
        invariant
            left@ == all.take(left@.len() as int),
            left@.len() <= all.len(),
            all.len() == keys@.len(),
            ks == ranks(keys@),
            sorted_from(ks, left@.len() as int, places@),
            out@ == in_order(all, places@),
        decreases left.len(),
    {
        let i: usize = left.len() - 1;
        let ghost pre_left = left@;
        let item = match left.pop() {
            Some(x) => x,
            None => {
                proof {
                    assert(false);
                }
                return (out, places);
            },
        };
        let ghost pre = places@;
        let ghost pre_out = out@;
        let mut p: usize = 0;
        while p < places.len() && key_ahead(&keys[places[p]], &keys[i])
            invariant
                p <= places@.len(),
                places@ == pre,
                i < keys@.len(),
                ks == ranks(keys@),
                sorted_from(ks, i + 1, pre),
                forall|k: int| 0 <= k < p ==> ahead(ks[(#[trigger] pre[k]) as int], ks[i as int]),
            decreases places@.len() - p,
        {
            p = p + 1;
        }
        places.insert(p, i);
        out.insert(p, item);
        proof {
            let now = places@;
            assert forall|k: int, l: int| 0 <= k < l < now.len() implies precedes(
                ks,
                (#[trigger] now[k]) as int,
                (#[trigger] now[l]) as int,
            ) by {
                if k < p && l == p {
                    assert(now[k] == pre[k]);
                } else if k == p {
                    assert(now[l] == pre[l - 1]);
                    let first = pre[p as int] as int;
                    lemma_precedes_decides(ks, i as int, first);
                    assert(first > i);
                    assert(!ahead(ks[first], ks[i as int]));
                    assert(precedes(ks, i as int, first));
                    if l - 1 > p {
                        assert(precedes(ks, first, pre[l - 1] as int));
                        lemma_precedes_chains(ks, i as int, first, pre[l - 1] as int);
                    }
                } else {
                    let k0 = if k < p { k } else { k - 1 };
                    let l0 = if l < p { l } else { l - 1 };
                    assert(now[k] == pre[k0]);
                    assert(now[l] == pre[l0]);
                }
            }
            assert forall|k: int| 0 <= k < now.len() implies i <= #[trigger] now[k] < ks.len() by {
                if k < p {
                    assert(now[k] == pre[k]);
                } else if k > p {
                    assert(now[k] == pre[k - 1]);
                }
            }
            assert(item == all[i as int]);
            assert forall|k: int| 0 <= k < now.len() implies out@[k] == all[now[k] as int] by {
                if k < p {
                    assert(out@[k] == pre_out[k]);
                } else if k > p {
                    assert(out@[k] == pre_out[k - 1]);
                }
            }
            assert(out@ == in_order(all, now));
            assert(left@ == all.take(left@.len() as int));
        }
    }
    proof {
        assert(is_sort(ks, places@));
        law_sort_is_unique(ks, places@, sort_order(ks));
    }
    (out, places)
}

/// The texts in alphabetical order.
pub open spec fn sorted(v: Seq<Seq<char>>) -> Seq<Seq<char>> {
    in_order(v, sort_order(v.map_values(|t: Seq<char>| Rank { rank: 0, text: t, number: 0 })))
}

/// The texts in alphabetical order.
pub fn sort_texts(v: Vec<String>) -> (r: Vec<String>)
    ensures
        text::views(r@) == sorted(text::views(v@)),
{
    let mut keys: Vec<SortKey> = Vec::new();
    let mut i: usize = 0;
    while i < v.len()
        invariant
            i <= v.len(),
            keys@.len() == i,
            forall|k: int| 0 <= k < i ==> (#[trigger] keys@[k])@ == (Rank { rank: 0, text: v@[k]@, number: 0 }),
        decreases v.len() - i,
    {
        keys.push(SortKey { rank: 0, text: copy(v[i].as_str()), number: 0 });
        i = i + 1;
    }
    let ghost texts = text::views(v@);
    assert(ranks(keys@) == texts.map_values(|t: Seq<char>| Rank { rank: 0, text: t, number: 0 }));
    let (out, places) = sort_by_keys(v, &keys);
    assert(text::views(out@) == in_order(texts, places@));
    out
}

/// Whether every text comes before the next.
pub open spec fn ascending(v: Seq<Seq<char>>) -> bool {
    forall|i: int, j: int| 0 <= i < j < v.len() ==> before(#[trigger] v[i], #[trigger] v[j])
}

/// Each of the texts once, in alphabetical order.
pub fn sorted_set(v: &Vec<String>) -> (r: Vec<String>)
    ensures
        ascending(text::views(r@)),
        forall|t: Seq<char>| text::views(r@).contains(t) <==> text::views(v@).contains(t),
{
    let mut r: Vec<String> = Vec::new();
    let mut i: usize = 0;
    assert(text::views(v@).take(0) == Seq::<Seq<char>>::empty());
    assert(text::views(r@) == Seq::<Seq<char>>::empty());
    while i < v.len()
        invariant
            i <= v.len(),
            ascending(text::views(r@)),
            forall|t: Seq<char>|
                text::views(r@).contains(t) <==> text::views(v@).take(i as int).contains(t),
        decreases v.len() - i,
    {
        insert_once(&mut r, v[i].as_str());
        proof {
            let a = text::views(v@).take(i as int);
            let b = text::views(v@).take(i + 1);
            assert(b == a.push(v@[i as int]@));
            assert forall|t: Seq<char>| b.contains(t) <==> (a.contains(t) || t == v@[i as int]@) by {
                lemma_push_contains(a, v@[i as int]@, t);
            }
        }
        i = i + 1;
    }
    assert(text::views(v@).take(v@.len() as int) == text::views(v@));
    r
}

pub proof fn lemma_push_contains(s: Seq<Seq<char>>, x: Seq<char>, t: Seq<char>)
    ensures
        s.push(x).contains(t) <==> (s.contains(t) || t == x),
{
    let p = s.push(x);
    if s.contains(t) {
        let k = choose|k: int| 0 <= k < s.len() && s[k] == t;
        assert(p[k] == t);
    }
    if t == x {
        assert(p[s.len() as int] == t);
    }
    if p.contains(t) {
        let k = choose|k: int| 0 <= k < p.len() && p[k] == t;
        if k < s.len() {
            assert(s[k] == t);
        }
    }
}

fn insert_once(v: &mut Vec<String>, item: &str)
    requires
        ascending(text::views(old(v)@)),
    ensures
        ascending(text::views(final(v)@)),
        forall|t: Seq<char>|
            text::views(final(v)@).contains(t) <==> (text::views(old(v)@).contains(t) || t
                == item@),
{
    let ghost pre = text::views(v@);
    let mut p: usize = 0;
    while p < v.len() && comes_before(v[p].as_str(), item)
        invariant
            p <= v@.len(),
            pre == text::views(v@),
            forall|k: int| 0 <= k < p ==> before(#[trigger] pre[k], item@),
        decreases v@.len() - p,
    {
        assert(pre[p as int] == v@[p as int]@);
        p = p + 1;
    }
    if p < v.len() {
        assert(pre[p as int] == v@[p as int]@);
        if same(v[p].as_str(), item) {
            return;
        }
    }
    v.insert(p, copy(item));
    proof {
        let now = text::views(v@);
        assert(now == pre.insert(p as int, item@));
        if p < pre.len() {
            lemma_before_decides(pre[p as int], item@);
        }
        assert forall|i: int, j: int| 0 <= i < j < now.len() implies before(
            #[trigger] now[i],
            #[trigger] now[j],
        ) by {
            if i == p {
                assert(now[j] == pre[j - 1]);
                if j - 1 > p {
                    assert(before(pre[p as int], pre[j - 1]));
                    lemma_before_chains(item@, pre[p as int], pre[j - 1]);
                }
            } else if j == p {
                assert(now[i] == pre[i]);
            } else {
                let i0 = if i < p { i } else { i - 1 };
                let j0 = if j < p { j } else { j - 1 };
                assert(now[i] == pre[i0]);
                assert(now[j] == pre[j0]);
                assert(before(pre[i0], pre[j0]));
            }
        }
        assert forall|t: Seq<char>| now.contains(t) <==> (pre.contains(t) || t == item@) by {
            if pre.contains(t) {
                let k = choose|k: int| 0 <= k < pre.len() && pre[k] == t;
                if k < p {
                    assert(now[k] == t);
                } else {
                    assert(now[k + 1] == t);
                }
            }
            if t == item@ {
                assert(now[p as int] == t);
            }
            if now.contains(t) {
                let k = choose|k: int| 0 <= k < now.len() && now[k] == t;
                if k < p {
                    assert(pre[k] == t);
                } else if k > p {
                    assert(pre[k - 1] == t);
                }
            }
        }
    }
}

/// Texts are ordered as in a dictionary: by the first character in which they
/// differ, and a text before what continues it.
pub proof fn law_dictionary_order(
    common: Seq<char>,
    x: char,
    y: char,
    s: Seq<char>,
    t: Seq<char>,
)
    requires
        x < y,
    ensures
        before(common + seq![x] + s, common + seq![y] + t),
        !before(common + seq![y] + t, common + seq![x] + s),
        before(common, common + seq![x] + s),
        !before(common + seq![x] + s, common),
        !before(common, common),
    decreases common.len(),
{
    let a = common + seq![x] + s;
    let b = common + seq![y] + t;
    if common.len() > 0 {
        let rest = common.skip(1);
        law_dictionary_order(rest, x, y, s, t);
        assert(a.skip(1) =~= rest + seq![x] + s);
        assert(b.skip(1) =~= rest + seq![y] + t);
        assert(a[0] == common[0] && b[0] == common[0]);
    } else {
        assert(a[0] == x && b[0] == y);
    }
}

} // verus!
