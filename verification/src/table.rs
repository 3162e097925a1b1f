//! A table keyed by numbers, for the channels and forwards of a session.

use std::collections::HashMap;
use vstd::prelude::*;

verus! {

pub struct Table<V> {
    cells: HashMap<u32, V>,
}

/// The map that rows stand for.
pub open spec fn rows_map<V>(rows: Seq<(u32, V)>) -> Map<u32, V>
    decreases rows.len(),
{
    if rows.len() == 0 {
        Map::empty()
    } else {
        rows_map(rows.drop_last()).insert(rows.last().0, rows.last().1)
    }
}

impl<V> View for Table<V> {
    type V = Map<u32, V>;

    closed spec fn view(&self) -> Map<u32, V> {
        self.cells@
    }
}

impl<V: Copy> Table<V> {
    pub fn new() -> (t: Table<V>)
        ensures
            t@ == Map::<u32, V>::empty(),
    {
        Table { cells: HashMap::new() }
    }

    /// How many keys there are.
    pub fn len(&self) -> (n: usize)
        ensures
            n == self@.dom().len(),
            self@.dom().finite(),
    {
        broadcast use vstd::std_specs::hash::group_hash_axioms;

        self.cells.len()
    }

    pub fn get(&self, key: u32) -> (r: Option<V>)
        ensures
            r == (if self@.contains_key(key) {
                Some(self@[key])
            } else {
                None::<V>
            }),
    {
        broadcast use vstd::std_specs::hash::group_hash_axioms;

        match self.cells.get(&key) {
            Some(v) => Some(*v),
            None => None,
        }
    }

    pub fn contains(&self, key: u32) -> (r: bool)
        ensures
            r == self@.contains_key(key),
    {
        broadcast use vstd::std_specs::hash::group_hash_axioms;

        self.cells.contains_key(&key)
    }

    /// Take a key out; tells whether it was there.
    pub fn remove(&mut self, key: u32) -> (was: bool)
        ensures
            final(self)@ == old(self)@.remove(key),
            was == old(self)@.contains_key(key),
    {
        broadcast use vstd::std_specs::hash::group_hash_axioms;

        self.cells.remove(&key).is_some()
    }

    /// Give a key a value, in place of any it had.
    pub fn insert(&mut self, key: u32, value: V)
        ensures
            final(self)@ == old(self)@.insert(key, value),
    {
        broadcast use vstd::std_specs::hash::group_hash_axioms;

        let _ = self.cells.insert(key, value);
    }

    pub fn clear(&mut self)
        ensures
            final(self)@ == Map::<u32, V>::empty(),
    {
        self.cells.clear();
    }

    /// The keys, each once, in an order that is left open.
    fn keys(&self) -> (r: Vec<u32>)
        ensures
            r@.no_duplicates(),
            forall|k: u32| #[trigger] r@.contains(k) <==> self@.contains_key(k),
    {
        broadcast use vstd::std_specs::hash::group_hash_axioms;

        let mut r: Vec<u32> = Vec::new();
        let ghost all = vstd::std_specs::iter::IteratorSpec::remaining(
            &vstd::std_specs::hash::spec_keys_iter(&self.cells),
        ).unref();
        for k in it: self.cells.keys()
            invariant
                r@ == all.take(it.index() as int),
                it.seq().unref() == all,
                it.seq().no_duplicates(),
                all.to_set() == self.cells@.dom(),
        {
            r.push(*k);
        }
        assert(r@ == all);
        assert forall|k: u32| #[trigger] r@.contains(k) <==> self@.contains_key(k) by {
            assert(all.to_set().contains(k) <==> all.contains(k));
        }
        r
    }

    /// The keys and values, one row per key, in an order that is left open.
    pub fn rows(&self) -> (r: Vec<(u32, V)>)
        ensures
            distinct_keys(r@),
            rows_map(r@) == self@,
    {
        let keys = self.keys();
        let mut r: Vec<(u32, V)> = Vec::new();
        let mut i: usize = 0;
        while i < keys.len()
            invariant
                i <= keys.len(),
                keys@.no_duplicates(),
                forall|k: u32| #[trigger] keys@.contains(k) <==> self@.contains_key(k),
                r@.len() == i,
                forall|j: int|
                    0 <= j < i ==> (#[trigger] r@[j]).0 == keys@[j] && r@[j].1 == self@[keys@[j]],
            decreases keys.len() - i,
        {
            assert(keys@.contains(keys@[i as int]));
            if let Some(v) = self.get(keys[i]) {
                r.push((keys[i], v));
            }
            i = i + 1;
        }
        proof {
            assert forall|k: u32| #[trigger] self@.contains_key(k) <==> exists|j: int|
                0 <= j < r@.len() && (#[trigger] r@[j]).0 == k by {
                if self@.contains_key(k) {
                    assert(keys@.contains(k));
                    let j = choose|j: int| 0 <= j < keys@.len() && keys@[j] == k;
                    assert(r@[j].0 == k);
                }
                if exists|j: int| 0 <= j < r@.len() && (#[trigger] r@[j]).0 == k {
                    let j = choose|j: int| 0 <= j < r@.len() && (#[trigger] r@[j]).0 == k;
                    assert(keys@.contains(keys@[j]));
                }
            }
            lemma_rows_are(r@, self@);
        }
        r
    }
}

impl Table<u32> {
    /// Drop every key whose value is `value`.
    pub fn remove_value(&mut self, value: u32)
        ensures
            final(self)@ == without_value(old(self)@, value),
    {
        let keys = self.keys();
        let ghost before = self@;
        let mut i: usize = 0;
        while i < keys.len()
            invariant
                i <= keys.len(),
                before == old(self)@,
                forall|k: u32| #[trigger] keys@.contains(k) <==> before.contains_key(k),
                forall|k: u32| #[trigger]
                    self@.contains_key(k) <==> before.contains_key(k) && !(before[k] == value
                        && keys@.take(i as int).contains(k)),
                forall|k: u32| #[trigger] self@.contains_key(k) ==> self@[k] == before[k],
            decreases keys.len() - i,
        {
            let key: u32 = keys[i];
            let ghost past = self@;
            if let Some(v) = self.get(key) {
                if v == value {
                    let _ = self.remove(key);
                }
            }
            proof {
                let here = keys@.take(i + 1);
                assert(here =~= keys@.take(i as int).push(key));
                assert(keys@.contains(keys@[i as int]));
                assert forall|k: u32| #[trigger]
                    self@.contains_key(k) <==> before.contains_key(k) && !(before[k] == value
                        && here.contains(k)) by {
                    assert(here.contains(k) <==> keys@.take(i as int).contains(k) || k == key) by {
                        if keys@.take(i as int).contains(k) {
                            let j = choose|j: int|
                                0 <= j < i && keys@.take(i as int)[j] == k;
                            assert(here[j] == k);
                        }
                        if k == key {
                            assert(here[i as int] == k);
                        }
                    }
                    assert(past.contains_key(k) <==> before.contains_key(k) && !(before[k]
                        == value && keys@.take(i as int).contains(k)));
                }
            }
            i = i + 1;
        }
        proof {
            assert(keys@.take(i as int) =~= keys@);
            assert(self@ =~= without_value(before, value));
        }
    }

    /// How many keys have the value `value`.
    pub fn count_value(&self, value: u32) -> (n: usize)
        ensures
            n == keys_with(self@, value).len(),
            keys_with(self@, value).finite(),
    {
        let rows = self.rows();
        let mut n: usize = 0;
        let mut i: usize = 0;
        let ghost all = rows@;
        assert(all.take(0) == Seq::<(u32, u32)>::empty());
        assert(keys_with(rows_map(all.take(0)), value) =~= Set::empty());
        while i < rows.len()
            invariant
                i <= rows.len(),
                n <= i,
                all == rows@,
                distinct_keys(all),
                keys_with(rows_map(all.take(i as int)), value).finite(),
                n == keys_with(rows_map(all.take(i as int)), value).len(),
            decreases rows.len() - i,
        {
            proof {
                let row = all[i as int];
                let here = all.take(i + 1);
                let past = rows_map(all.take(i as int));
                assert(here.drop_last() == all.take(i as int));
                lemma_take_distinct(all, i as int);
                assert forall|j: int| 0 <= j < all.take(i as int).len() implies (
                #[trigger] all.take(i as int)[j]).0 != row.0 by {
                    assert(all.take(i as int)[j] == all[j]);
                }
                lemma_rows_absent(all.take(i as int), row.0);
                if row.1 == value {
                    assert(keys_with(rows_map(here), value) =~= keys_with(past, value).insert(
                        row.0,
                    ));
                } else {
                    assert(keys_with(rows_map(here), value) =~= keys_with(past, value));
                }
            }
            if rows[i].1 == value {
                n = n + 1;
            }
            i = i + 1;
        }
        assert(all.take(all.len() as int) == all);
        n
    }
}

/// The map without the keys whose value is `value`.
pub open spec fn without_value(m: Map<u32, u32>, value: u32) -> Map<u32, u32> {
    m.restrict(m.dom().filter(|k: u32| m[k] != value))
}

/// The keys whose value is `value`.
pub open spec fn keys_with(m: Map<u32, u32>, value: u32) -> Set<u32> {
    m.dom().filter(|k: u32| m[k] == value)
}

pub open spec fn distinct_keys<V>(rows: Seq<(u32, V)>) -> bool {
    forall|i: int, j: int|
        0 <= i < j < rows.len() ==> (#[trigger] rows[i]).0 != (#[trigger] rows[j]).0
}

proof fn lemma_take_distinct<V>(rows: Seq<(u32, V)>, n: int)
    requires
        distinct_keys(rows),
        0 <= n <= rows.len(),
    ensures
        distinct_keys(rows.take(n)),
{
    assert forall|i: int, j: int| 0 <= i < j < rows.take(n).len() implies (
    #[trigger] rows.take(n)[i]).0 != (#[trigger] rows.take(n)[j]).0 by {
        assert(rows.take(n)[i] == rows[i] && rows.take(n)[j] == rows[j]);
    }
}

proof fn lemma_rows_absent<V>(rows: Seq<(u32, V)>, key: u32)
    requires
        forall|j: int| 0 <= j < rows.len() ==> (#[trigger] rows[j]).0 != key,
    ensures
        !rows_map(rows).contains_key(key),
    decreases rows.len(),
{
    if rows.len() > 0 {
        assert forall|j: int| 0 <= j < rows.drop_last().len() implies (
        #[trigger] rows.drop_last()[j]).0 != key by {
            assert(rows.drop_last()[j] == rows[j]);
        }
        lemma_rows_absent(rows.drop_last(), key);
        assert(rows.last() == rows[rows.len() - 1]);
    }
}

/// Rows that hold each key of a map once, with its value, stand for the map.
proof fn lemma_rows_are<V>(rows: Seq<(u32, V)>, m: Map<u32, V>)
    requires
        distinct_keys(rows),
        forall|k: u32| #[trigger]
            m.contains_key(k) <==> exists|j: int| 0 <= j < rows.len() && (#[trigger] rows[j]).0 == k,
        forall|j: int| 0 <= j < rows.len() ==> (#[trigger] rows[j]).1 == m[rows[j].0],
    ensures
        rows_map(rows) == m,
    decreases rows.len(),
{
    if rows.len() == 0 {
        assert forall|k: u32| !m.contains_key(k) by {
            if m.contains_key(k) {
                let j = choose|j: int| 0 <= j < rows.len() && (#[trigger] rows[j]).0 == k;
            }
        }
        assert(m =~= Map::empty());
    } else {
        let last = rows.last();
        let init = rows.drop_last();
        let less = m.remove(last.0);
        assert(init =~= rows.take(rows.len() - 1));
        lemma_take_distinct(rows, rows.len() - 1);
        assert(rows[rows.len() - 1] == last);
        assert(m.contains_key(last.0));
        assert forall|k: u32| #[trigger] less.contains_key(k) <==> exists|j: int|
            0 <= j < init.len() && (#[trigger] init[j]).0 == k by {
            if less.contains_key(k) {
                assert(m.contains_key(k));
                let j = choose|j: int| 0 <= j < rows.len() && (#[trigger] rows[j]).0 == k;
                assert(init[j] == rows[j]);
            }
            if exists|j: int| 0 <= j < init.len() && (#[trigger] init[j]).0 == k {
                let j = choose|j: int| 0 <= j < init.len() && (#[trigger] init[j]).0 == k;
                assert(rows[j] == init[j]);
                assert(rows[j].0 != rows[rows.len() - 1].0);
                assert(m.contains_key(k));
            }
        }
        assert forall|j: int| 0 <= j < init.len() implies (#[trigger] init[j]).1
            == less[init[j].0] by {
            assert(rows[j] == init[j]);
            assert(rows[j].0 != rows[rows.len() - 1].0);
        }
        lemma_rows_are(init, less);
        assert(less.insert(last.0, last.1) =~= m);
    }
}

} // verus!
