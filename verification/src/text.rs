//! Strings as sequences of characters: the building blocks that the rest of
//! the crate parses and prints with.

use vstd::prelude::*;

verus! {

/// `String::push` appends one character to the end of the string.
pub assume_specification[ String::push ](s: &mut String, c: char)
    ensures
        final(s)@ == old(s)@.push(c),
;

/// The characters of `s`, in order.
pub fn chars_of(s: &str) -> (v: Vec<char>)
    ensures
        v@ == s@,
{
    let mut v: Vec<char> = Vec::new();
    for c in it: s.chars()
        invariant
            v@ == it.seq().take(it.index() as int),
            it.seq() == s@,
    {
        v.push(c);
    }
    v
}

/// The string that consists of the characters `v[from..to]`.
pub fn text_between(v: &Vec<char>, from: usize, to: usize) -> (s: String)
    requires
        from <= to <= v.len(),
    ensures
        s@ == v@.subrange(from as int, to as int),
{
    let mut s = String::new();
    let mut i: usize = from;
    while i < to
        invariant
            from <= i <= to <= v.len(),
            s@ == v@.subrange(from as int, i as int),
        decreases to - i,
    {
        s.push(v[i]);
        assert(v@.subrange(from as int, i + 1) == v@.subrange(from as int, i as int).push(v@[i as int]));
        i = i + 1;
    }
    s
}

/// The string that consists of the characters `v`.
pub fn text_of(v: &Vec<char>) -> (s: String)
    ensures
        s@ == v@,
{
    let s = text_between(v, 0, v.len());
    assert(v@.subrange(0, v@.len() as int) == v@);
    s
}


/// The strings of a vector, each taken as its characters.
pub open spec fn views(v: Seq<String>) -> Seq<Seq<char>> {
    v.map_values(|s: String| s@)
}

/// An optional string as optional characters.
pub open spec fn owned_view(o: Option<String>) -> Option<Seq<char>> {
    match o {
        Some(s) => Some(s@),
        None => None,
    }
}

/// An optional borrowed string as optional characters.
pub open spec fn str_view(o: Option<&str>) -> Option<Seq<char>> {
    match o {
        Some(s) => Some(s@),
        None => None,
    }
}

pub proof fn lemma_views_push(v: Seq<String>, s: String)
    ensures
        views(v.push(s)) == views(v).push(s@),
{
    assert(views(v.push(s)) =~= views(v).push(s@));
}

/// Whether two strings hold the same characters.
pub fn same(a: &str, b: &str) -> (r: bool)
    ensures
        r == (a@ == b@),
{
    let x = a.to_owned();
    let y = b.to_owned();
    x == y
}

/// A copy of `s`.
pub fn copy(s: &str) -> (r: String)
    ensures
        r@ == s@,
{
    s.to_owned()
}

/// Copies of the strings of `v`, in order.
pub fn copy_all(v: &Vec<String>) -> (r: Vec<String>)
    ensures
        views(r@) == views(v@),
{
    let mut r: Vec<String> = Vec::new();
    let mut i: usize = 0;
    assert(views(v@).take(0) == views(r@));
    while i < v.len()
        invariant
            i <= v.len(),
            views(r@) == views(v@).take(i as int),
        decreases v.len() - i,
    {
        let s = v[i].clone();
        proof {
            lemma_views_push(r@, s);
            assert(views(v@).take(i + 1) == views(v@).take(i as int).push(views(v@)[i as int]));
        }
        r.push(s);
        i = i + 1;
    }
    assert(views(v@).take(v@.len() as int) == views(v@));
    r
}

/// Append copies of the strings of `more`.
pub fn append_all(v: &mut Vec<String>, more: &Vec<String>)
    ensures
        views(final(v)@) == views(old(v)@) + views(more@),
{
    let mut rest = copy_all(more);
    let ghost start = v@;
    let ghost tail = rest@;
    v.append(&mut rest);
    assert(views(start + tail) =~= views(start) + views(tail));
}

/// The place of the first `c` in `s`, or the length of `s` if it has none.
pub open spec fn first_index(s: Seq<char>, c: char) -> int
    decreases s.len(),
{
    if s.len() == 0 || s[0] == c {
        0
    } else {
        1 + first_index(s.skip(1), c)
    }
}

pub proof fn lemma_first_index(s: Seq<char>, c: char)
    ensures
        0 <= first_index(s, c) <= s.len(),
        first_index(s, c) < s.len() ==> s[first_index(s, c)] == c,
        forall|i: int| 0 <= i < first_index(s, c) ==> #[trigger] s[i] != c,
        first_index(s, c) < s.len() <==> s.contains(c),
    decreases s.len(),
{
    if s.len() > 0 && s[0] != c {
        let t = s.skip(1);
        lemma_first_index(t, c);
        assert forall|i: int| 0 <= i < first_index(s, c) implies #[trigger] s[i] != c by {
            if i > 0 {
                assert(s[i] == t[i - 1]);
            }
        }
        if t.contains(c) {
            let i = choose|i: int| 0 <= i < t.len() && t[i] == c;
            assert(s[i + 1] == c);
        }
        if s.contains(c) {
            let i = choose|i: int| 0 <= i < s.len() && s[i] == c;
            assert(t[i - 1] == c);
        }
    }
}

/// The first place is the only one with no earlier occurrence before it.
pub proof fn lemma_first_index_is(s: Seq<char>, c: char, k: int)
    requires
        0 <= k <= s.len(),
        k < s.len() ==> s[k] == c,
        forall|i: int| 0 <= i < k ==> #[trigger] s[i] != c,
    ensures
        first_index(s, c) == k,
{
    lemma_first_index(s, c);
    let f = first_index(s, c);
    if f < k {
        assert(s[f] != c);
    }
    if k < f {
        assert(s[k] != c);
    }
}

/// The place of the last `c` in `s`, or -1 if it has none.
pub open spec fn last_index(s: Seq<char>, c: char) -> int
    decreases s.len(),
{
    if s.len() == 0 || s.last() == c {
        s.len() - 1
    } else {
        last_index(s.drop_last(), c)
    }
}

pub proof fn lemma_last_index(s: Seq<char>, c: char)
    ensures
        -1 <= last_index(s, c) < s.len(),
        last_index(s, c) >= 0 ==> s[last_index(s, c)] == c,
        forall|i: int| last_index(s, c) < i < s.len() ==> #[trigger] s[i] != c,
        last_index(s, c) >= 0 <==> s.contains(c),
    decreases s.len(),
{
    if s.len() > 0 {
        let t = s.drop_last();
        lemma_last_index(t, c);
        assert forall|i: int| last_index(s, c) < i < s.len() implies #[trigger] s[i] != c by {
            if i < t.len() {
                assert(s[i] == t[i]);
            }
        }
        if last_index(s, c) >= 0 {
            assert(s[last_index(s, c)] == c);
        } else {
            assert forall|i: int| 0 <= i < s.len() implies s[i] != c by {}
        }
    }
}

/// The place of the first `c` in `v`, or the length if there is none.
pub fn find_in(v: &Vec<char>, c: char) -> (k: usize)
    ensures
        k == first_index(v@, c),
{
    let mut i: usize = 0;
    while i < v.len()
        invariant
            i <= v.len(),
            forall|j: int| 0 <= j < i ==> #[trigger] v@[j] != c,
        decreases v.len() - i,
    {
        if v[i] == c {
            proof {
                lemma_first_index_is(v@, c, i as int);
            }
            return i;
        }
        i = i + 1;
    }
    proof {
        lemma_first_index_is(v@, c, i as int);
    }
    i
}

/// Whether `s` holds the character `c`.
pub fn has_char(s: &str, c: char) -> (r: bool)
    ensures
        r == s@.contains(c),
{
    let v = chars_of(s);
    proof {
        lemma_first_index(v@, c);
    }
    find_in(&v, c) < v.len()
}

/// What stands before and after the first `c`.
pub fn cut_at(s: &str, c: char) -> (r: Option<(String, String)>)
    ensures
        r is Some <==> s@.contains(c),
        r matches Some(p) ==> p.0@ == s@.take(first_index(s@, c)) && p.1@ == s@.skip(
            first_index(s@, c) + 1,
        ),
{
    let v = chars_of(s);
    proof {
        lemma_first_index(v@, c);
    }
    let k: usize = find_in(&v, c);
    if k < v.len() {
        let a = text_between(&v, 0, k);
        let b = text_between(&v, k + 1, v.len());
        assert(a@ == s@.take(k as int));
        assert(b@ == s@.skip(k + 1));
        Some((a, b))
    } else {
        None
    }
}

/// What stands before and after the last `c`.
pub fn cut_at_last(s: &str, c: char) -> (r: Option<(String, String)>)
    ensures
        r is Some <==> s@.contains(c),
        r matches Some(p) ==> p.0@ == s@.take(last_index(s@, c)) && p.1@ == s@.skip(
            last_index(s@, c) + 1,
        ),
{
    let v = chars_of(s);
    let mut i: usize = v.len();
    proof {
        lemma_last_index(v@, c);
    }
    while i > 0
        invariant
            i <= v.len(),
            v@ == s@,
            forall|j: int| i <= j < v.len() ==> #[trigger] v@[j] != c,
        decreases i,
    {
        if v[i - 1] == c {
            proof {
                lemma_last_index(v@, c);
                let l = last_index(v@, c);
                assert(v@.contains(v@[i - 1]));
                if l < i - 1 {
                    assert(v@[i - 1] != c);
                }
                if l > i - 1 {
                    assert(v@[l] != c);
                }
            }
            let a = text_between(&v, 0, i - 1);
            let b = text_between(&v, i, v.len());
            assert(a@ == s@.take(i - 1));
            assert(b@ == s@.skip(i as int));
            return Some((a, b));
        }
        i = i - 1;
    }
    proof {
        lemma_last_index(v@, c);
        if v@.contains(c) {
            let l = last_index(v@, c);
            assert(v@[l] != c);
        }
    }
    None
}

/// Whether `s` starts with `p`.
pub fn starts_with(s: &str, p: &str) -> (r: bool)
    ensures
        r == p@.is_prefix_of(s@),
{
    let n: usize = s.unicode_len();
    let m: usize = p.unicode_len();
    if m > n {
        return false;
    }
    same(s.substring_char(0, m), p)
}

/// Whether `s` ends with `p`.
pub fn ends_with(s: &str, p: &str) -> (r: bool)
    ensures
        r == p@.is_suffix_of(s@),
{
    let n: usize = s.unicode_len();
    let m: usize = p.unicode_len();
    if m > n {
        return false;
    }
    same(s.substring_char(n - m, n), p)
}

/// What follows the prefix `p`, if `s` has it.
pub fn after_prefix(s: &str, p: &str) -> (r: Option<String>)
    ensures
        r is Some <==> p@.is_prefix_of(s@),
        r matches Some(t) ==> t@ == s@.skip(p@.len() as int),
{
    if starts_with(s, p) {
        let t = s.substring_char(p.unicode_len(), s.unicode_len()).to_owned();
        assert(t@ == s@.skip(p@.len() as int));
        Some(t)
    } else {
        None
    }
}

/// What precedes the suffix `p`, if `s` has it.
pub fn before_suffix(s: &str, p: &str) -> (r: Option<String>)
    ensures
        r is Some <==> p@.is_suffix_of(s@),
        r matches Some(t) ==> t@ == s@.take(s@.len() - p@.len()),
{
    if ends_with(s, p) {
        let t = s.substring_char(0, s.unicode_len() - p.unicode_len()).to_owned();
        assert(t@ == s@.take(s@.len() - p@.len()));
        Some(t)
    } else {
        None
    }
}

/// Whether `p` stands in `s` at the place `i`.
pub open spec fn occurs_at(s: Seq<char>, p: Seq<char>, i: int) -> bool {
    0 <= i <= s.len() - p.len() && s.subrange(i, i + p.len()) == p
}

/// Whether `p` stands anywhere in `s`.
pub open spec fn has_text(s: Seq<char>, p: Seq<char>) -> bool {
    exists|i: int| occurs_at(s, p, i)
}

/// Whether `p` stands anywhere in `s`.
pub fn contains(s: &str, p: &str) -> (r: bool)
    ensures
        r == has_text(s@, p@),
{
    let n: usize = s.unicode_len();
    let m: usize = p.unicode_len();
    if m > n {
        return false;
    }
    let mut i: usize = 0;
    while i < n - m
        invariant
            n == s@.len(),
            m == p@.len(),
            m <= n,
            i <= n - m,
            forall|j: int| 0 <= j < i ==> !occurs_at(s@, p@, j),
        decreases n - m - i,
    {
        if same(s.substring_char(i, i + m), p) {
            assert(occurs_at(s@, p@, i as int));
            return true;
        }
        i = i + 1;
    }
    let last = same(s.substring_char(n - m, n), p);
    assert(last == occurs_at(s@, p@, n - m));
    last
}

/// The pieces of `s` between occurrences of `c`: always at least one.
pub open spec fn split(s: Seq<char>, c: char) -> Seq<Seq<char>>
    decreases s.len(),
{
    let k = first_index(s, c);
    if !(0 <= k < s.len()) {
        seq![s]
    } else {
        seq![s.take(k)] + split(s.skip(k + 1), c)
    }
}

/// The pieces of `s` between occurrences of `c`.
pub fn split_on(s: &str, c: char) -> (r: Vec<String>)
    ensures
        views(r@) == split(s@, c),
{
    let v = chars_of(s);
    let mut r: Vec<String> = Vec::new();
    let mut from: usize = 0;
    let mut i: usize = 0;
    assert(v@.skip(0) == v@);
    assert(views(r@) + split(s@, c) == split(s@, c));
    while i < v.len()
        invariant
            from <= i <= v.len(),
            v@ == s@,
            forall|j: int| from <= j < i ==> #[trigger] v@[j] != c,
            views(r@) + split(v@.skip(from as int), c) == split(s@, c),
        decreases v.len() - i,
    {
        if v[i] == c {
            let piece = text_between(&v, from, i);
            proof {
                let rest = v@.skip(from as int);
                let k = i - from;
                assert forall|j: int| 0 <= j < k implies #[trigger] rest[j] != c by {
                    assert(rest[j] == v@[from + j]);
                }
                lemma_first_index_is(rest, c, k);
                assert(rest.take(k) == piece@);
                assert(rest.skip(k + 1) == v@.skip(i + 1));
                lemma_views_push(r@, piece);
                assert(views(r@) + (seq![piece@] + split(v@.skip(i + 1), c)) == views(r@).push(
                    piece@,
                ) + split(v@.skip(i + 1), c));
            }
            r.push(piece);
            from = i + 1;
        }
        i = i + 1;
    }
    let piece = text_between(&v, from, v.len());
    proof {
        let rest = v@.skip(from as int);
        assert forall|j: int| 0 <= j < rest.len() implies #[trigger] rest[j] != c by {
            assert(rest[j] == v@[from + j]);
        }
        lemma_first_index_is(rest, c, rest.len() as int);
        assert(rest == piece@);
        lemma_views_push(r@, piece);
        assert(views(r@) + seq![piece@] == views(r@).push(piece@));
    }
    r.push(piece);
    r
}

/// `parts` one after the other with `sep` between them.
pub open spec fn join(parts: Seq<Seq<char>>, sep: Seq<char>) -> Seq<char>
    decreases parts.len(),
{
    if parts.len() == 0 {
        seq![]
    } else if parts.len() == 1 {
        parts[0]
    } else {
        join(parts.drop_last(), sep) + sep + parts.last()
    }
}

/// `parts` one after the other with `sep` between them.
pub fn join_texts(parts: &Vec<String>, sep: &str) -> (r: String)
    ensures
        r@ == join(views(parts@), sep@),
{
    let mut r = String::new();
    let mut i: usize = 0;
    while i < parts.len()
        invariant
            i <= parts.len(),
            r@ == join(views(parts@).take(i as int), sep@),
        decreases parts.len() - i,
    {
        let ghost whole = views(parts@);
        proof {
            assert(whole.take(i + 1).drop_last() == whole.take(i as int));
            assert(whole.take(i + 1).last() == parts@[i as int]@);
        }
        if i > 0 {
            r.append(sep);
        } else {
            assert(r@ + parts@[0]@ == parts@[0]@);
        }
        r.append(parts[i].as_str());
        i = i + 1;
    }
    assert(views(parts@).take(parts@.len() as int) == views(parts@));
    r
}

/// A line without the carriage return that ends it, if one does.
pub open spec fn without_cr(s: Seq<char>) -> Seq<char> {
    if s.len() > 0 && s.last() == '\r' {
        s.drop_last()
    } else {
        s
    }
}

/// The lines of a text. A line ends with a line feed, or a carriage return
/// and a line feed; the ending of the last line is optional.
pub open spec fn lines(s: Seq<char>) -> Seq<Seq<char>>
    decreases s.len(),
{
    let k = first_index(s, '\n');
    if s.len() == 0 {
        seq![]
    } else if !(0 <= k < s.len()) {
        seq![s]
    } else {
        seq![without_cr(s.take(k))] + lines(s.skip(k + 1))
    }
}

/// The lines of a text.
pub fn lines_of(s: &str) -> (r: Vec<String>)
    ensures
        views(r@) == lines(s@),
{
    let v = chars_of(s);
    let mut r: Vec<String> = Vec::new();
    let mut from: usize = 0;
    let mut i: usize = 0;
    assert(v@.skip(0) == v@);
    assert(views(r@) + lines(s@) == lines(s@));
    while i < v.len()
        invariant
            from <= i <= v.len(),
            v@ == s@,
            forall|j: int| from <= j < i ==> #[trigger] v@[j] != '\n',
            views(r@) + lines(v@.skip(from as int)) == lines(s@),
        decreases v.len() - i,
    {
        if v[i] == '\n' {
            let to: usize = if i > from && v[i - 1] == '\r' {
                i - 1
            } else {
                i
            };
            let piece = text_between(&v, from, to);
            proof {
                let rest = v@.skip(from as int);
                let k = i - from;
                assert forall|j: int| 0 <= j < k implies #[trigger] rest[j] != '\n' by {
                    assert(rest[j] == v@[from + j]);
                }
                lemma_first_index_is(rest, '\n', k);
                assert(rest.take(k) == v@.subrange(from as int, i as int));
                assert(without_cr(rest.take(k)) == piece@);
                assert(rest.skip(k + 1) == v@.skip(i + 1));
                lemma_views_push(r@, piece);
                assert(views(r@) + (seq![piece@] + lines(v@.skip(i + 1))) == views(r@).push(
                    piece@,
                ) + lines(v@.skip(i + 1)));
            }
            r.push(piece);
            from = i + 1;
        }
        i = i + 1;
    }
    if from < v.len() {
        let piece = text_between(&v, from, v.len());
        proof {
            let rest = v@.skip(from as int);
            assert forall|j: int| 0 <= j < rest.len() implies #[trigger] rest[j] != '\n' by {
                assert(rest[j] == v@[from + j]);
            }
            lemma_first_index_is(rest, '\n', rest.len() as int);
            assert(rest == piece@);
            lemma_views_push(r@, piece);
            assert(views(r@) + seq![piece@] == views(r@).push(piece@));
        }
        r.push(piece);
    } else {
        assert(v@.skip(from as int).len() == 0);
        assert(views(r@) + lines(v@.skip(from as int)) == views(r@));
    }
    r
}

/// Unicode white space.
pub open spec fn is_space(c: char) -> bool {
    let n = c as u32;
    ||| 0x09 <= n <= 0x0d
    ||| n == 0x20
    ||| n == 0x85
    ||| n == 0xa0
    ||| n == 0x1680
    ||| 0x2000 <= n <= 0x200a
    ||| n == 0x2028
    ||| n == 0x2029
    ||| n == 0x202f
    ||| n == 0x205f
    ||| n == 0x3000
}

pub fn space(c: char) -> (r: bool)
    ensures
        r == is_space(c),
{
    let n: u32 = c as u32;
    (0x09 <= n && n <= 0x0d) || n == 0x20 || n == 0x85 || n == 0xa0 || n == 0x1680 || (0x2000 <= n
        && n <= 0x200a) || n == 0x2028 || n == 0x2029 || n == 0x202f || n == 0x205f || n == 0x3000
}

/// `s` without the white space at its start.
pub open spec fn trim_start(s: Seq<char>) -> Seq<char>
    decreases s.len(),
{
    if s.len() > 0 && is_space(s[0]) {
        trim_start(s.skip(1))
    } else {
        s
    }
}

/// `s` without the white space at its end.
pub open spec fn trim_end(s: Seq<char>) -> Seq<char>
    decreases s.len(),
{
    if s.len() > 0 && is_space(s.last()) {
        trim_end(s.drop_last())
    } else {
        s
    }
}

/// `s` without the white space at both ends.
pub open spec fn trimmed(s: Seq<char>) -> Seq<char> {
    trim_end(trim_start(s))
}

/// `s` without the white space at both ends.
pub fn trim(s: &str) -> (r: String)
    ensures
        r@ == trimmed(s@),
{
    let v = chars_of(s);
    let mut from: usize = 0;
    assert(v@.skip(0) == v@);
    while from < v.len() && space(v[from])
        invariant
            from <= v.len(),
            v@ == s@,
            trim_start(v@.skip(from as int)) == trim_start(s@),
        decreases v.len() - from,
    {
        assert(v@.skip(from as int).skip(1) == v@.skip(from + 1));
        from = from + 1;
    }
    let mut to: usize = v.len();
    assert(v@.subrange(from as int, to as int) == v@.skip(from as int));
    while to > from && space(v[to - 1])
        invariant
            from <= to <= v.len(),
            trim_end(v@.subrange(from as int, to as int)) == trimmed(s@),
        decreases to,
    {
        assert(v@.subrange(from as int, to as int).drop_last() == v@.subrange(
            from as int,
            to - 1,
        ));
        to = to - 1;
    }
    text_between(&v, from, to)
}

pub open spec fn ascii_lower(c: char) -> char {
    if 'A' <= c && c <= 'Z' {
        ((c as u8) + 32) as char
    } else {
        c
    }
}

/// `s` with the ASCII capitals made small.
pub open spec fn lowered(s: Seq<char>) -> Seq<char> {
    s.map_values(|c: char| ascii_lower(c))
}

/// `s` with the ASCII capitals made small.
pub fn lower(s: &str) -> (r: String)
    ensures
        r@ == lowered(s@),
{
    let v = chars_of(s);
    let mut r = String::new();
    let mut i: usize = 0;
    while i < v.len()
        invariant
            i <= v.len(),
            v@ == s@,
            r@ == lowered(s@).take(i as int),
        decreases v.len() - i,
    {
        let c: char = v[i];
        let d: char = if 'A' <= c && c <= 'Z' {
            ((c as u8) + 32) as char
        } else {
            c
        };
        assert(lowered(s@).take(i + 1) == lowered(s@).take(i as int).push(ascii_lower(c)));
        r.push(d);
        i = i + 1;
    }
    assert(lowered(s@).take(s@.len() as int) == lowered(s@));
    r
}

pub open spec fn is_digit_char(c: char) -> bool {
    '0' <= c && c <= '9'
}

pub open spec fn digit_char(d: nat) -> char {
    (0x30 + d) as char
}

/// A number in decimal.
pub open spec fn decimal(n: nat) -> Seq<char>
    decreases n,
{
    if n < 10 {
        seq![digit_char(n)]
    } else {
        decimal(n / 10).push(digit_char(n % 10))
    }
}

/// A number in decimal.
pub fn decimal_text(n: u64) -> (r: String)
    ensures
        r@ == decimal(n as nat),
    decreases n,
{
    let d: u8 = (n % 10) as u8;
    let c: char = (0x30 + d) as char;
    if n < 10 {
        let mut r = String::new();
        r.push(c);
        assert(r@ == seq![digit_char(n as nat)]);
        r
    } else {
        let mut r = decimal_text(n / 10);
        r.push(c);
        r
    }
}

pub open spec fn all_digits(s: Seq<char>) -> bool {
    forall|i: int| 0 <= i < s.len() ==> is_digit_char(#[trigger] s[i])
}

/// The number that decimal digits stand for.
pub open spec fn digits_value(s: Seq<char>) -> nat
    decreases s.len(),
{
    if s.len() == 0 {
        0
    } else {
        digits_value(s.drop_last()) * 10 + (s.last() as nat - 0x30) as nat
    }
}

/// The digits of an unsigned number: a plus sign before them is allowed.
pub open spec fn after_plus(s: Seq<char>) -> Seq<char> {
    if s.len() > 0 && s[0] == '+' {
        s.skip(1)
    } else {
        s
    }
}

/// The unsigned number that `s` spells, if it spells one: an optional plus
/// sign, then one or more digits.
pub open spec fn unsigned(s: Seq<char>) -> Option<nat> {
    let t = after_plus(s);
    if t.len() > 0 && all_digits(t) {
        Some(digits_value(t))
    } else {
        None
    }
}

pub proof fn lemma_digits_value_grows(s: Seq<char>, k: int)
    requires
        0 <= k <= s.len(),
    ensures
        digits_value(s.take(k)) <= digits_value(s),
    decreases s.len() - k,
{
    if k < s.len() {
        lemma_digits_value_grows(s, k + 1);
        assert(s.take(k + 1).drop_last() == s.take(k));
    } else {
        assert(s.take(k) == s);
    }
}

/// The unsigned number that `s` spells, if it is at most `max`.
pub fn parse_unsigned(s: &str, max: u64) -> (r: Option<u64>)
    ensures
        r is Some <==> (unsigned(s@) is Some && unsigned(s@)->0 <= max),
        r matches Some(n) ==> n == unsigned(s@)->0,
{
    let v = chars_of(s);
    let from: usize = if v.len() > 0 && v[0] == '+' {
        1
    } else {
        0
    };
    let ghost t = after_plus(s@);
    assert(t == v@.skip(from as int));
    if from == v.len() {
        return None;
    }
    let mut acc: u64 = 0;
    let mut i: usize = from;
    assert(t.take(0) == Seq::<char>::empty());
    while i < v.len()
        invariant
            from <= i <= v.len(),
            t == v@.skip(from as int),
            t == after_plus(s@),
            acc == digits_value(t.take(i - from)),
            acc <= max,
            forall|j: int| 0 <= j < i - from ==> is_digit_char(#[trigger] t[j]),
        decreases v.len() - i,
    {
        let c: char = v[i];
        proof {
            assert(t[i - from] == c);
            assert(t.take(i - from + 1).drop_last() == t.take(i - from));
            assert(t.take(i - from + 1).last() == c);
        }
        if !('0' <= c && c <= '9') {
            return None;
        }
        let d: u64 = (c as u32 - 0x30) as u64;
        proof {
            lemma_digits_value_grows(t, i - from + 1);
        }
        if d > max || acc > (max - d) / 10 {
            return None;
        }
        acc = acc * 10 + d;
        i = i + 1;
    }
    assert(t.take(t.len() as int) == t);
    Some(acc)
}

/// Writing a number in decimal and reading it back gives the number.
pub proof fn law_decimal_round_trip(n: nat)
    ensures
        unsigned(decimal(n)) == Some(n),
        decimal(n).len() > 0,
        all_digits(decimal(n)),
{
    lemma_decimal(n);
    let d = decimal(n);
    assert(is_digit_char(d[0]));
    assert(after_plus(d) == d);
}

pub proof fn lemma_decimal(n: nat)
    ensures
        decimal(n).len() > 0,
        all_digits(decimal(n)),
        digits_value(decimal(n)) == n,
    decreases n,
{
    let d = decimal(n);
    if n < 10 {
        assert(d.drop_last() == Seq::<char>::empty());
        assert(digits_value(d.drop_last()) == 0);
    } else {
        lemma_decimal(n / 10);
        assert(d.drop_last() == decimal(n / 10));
    }
}

/// `n` times the character `c`.
pub open spec fn repeated(c: char, n: nat) -> Seq<char> {
    Seq::new(n, |i: int| c)
}

/// `n` times the character `c`.
pub fn repeat_char(c: char, n: usize) -> (r: String)
    ensures
        r@ == repeated(c, n as nat),
{
    let mut r = String::new();
    let mut i: usize = 0;
    assert(r@ == repeated(c, 0));
    while i < n
        invariant
            i <= n,
            r@ == repeated(c, i as nat),
        decreases n - i,
    {
        r.push(c);
        i = i + 1;
        assert(r@ == repeated(c, i as nat));
    }
    r
}


/// 2 texts, one after the other.
pub fn cat2(a: &str, b: &str) -> (r: String)
    ensures
        r@ == a@ + b@,
{
    let mut r = a.to_owned();
    r.append(b);
    r
}

/// 3 texts, one after the other.
pub fn cat3(a: &str, b: &str, c: &str) -> (r: String)
    ensures
        r@ == a@ + b@ + c@,
{
    let mut r = a.to_owned();
    r.append(b);
    r.append(c);
    r
}

/// 4 texts, one after the other.
pub fn cat4(a: &str, b: &str, c: &str, d: &str) -> (r: String)
    ensures
        r@ == a@ + b@ + c@ + d@,
{
    let mut r = a.to_owned();
    r.append(b);
    r.append(c);
    r.append(d);
    r
}

/// 5 texts, one after the other.
pub fn cat5(a: &str, b: &str, c: &str, d: &str, e: &str) -> (r: String)
    ensures
        r@ == a@ + b@ + c@ + d@ + e@,
{
    let mut r = a.to_owned();
    r.append(b);
    r.append(c);
    r.append(d);
    r.append(e);
    r
}

/// 6 texts, one after the other.
pub fn cat6(a: &str, b: &str, c: &str, d: &str, e: &str, f: &str) -> (r: String)
    ensures
        r@ == a@ + b@ + c@ + d@ + e@ + f@,
{
    let mut r = a.to_owned();
    r.append(b);
    r.append(c);
    r.append(d);
    r.append(e);
    r.append(f);
    r
}

/// 7 texts, one after the other.
pub fn cat7(a: &str, b: &str, c: &str, d: &str, e: &str, f: &str, g: &str) -> (r: String)
    ensures
        r@ == a@ + b@ + c@ + d@ + e@ + f@ + g@,
{
    let mut r = a.to_owned();
    r.append(b);
    r.append(c);
    r.append(d);
    r.append(e);
    r.append(f);
    r.append(g);
    r
}

/// `word`, or its plural where `n` is not one, after the number.
pub open spec fn counted(n: nat, word: Seq<char>) -> Seq<char> {
    if n == 1 {
        decimal(n) + " "@ + word
    } else {
        decimal(n) + " "@ + word + "s"@
    }
}

/// A count with its noun: `1 file`, `2 files`.
pub fn count_text(n: usize, word: &str) -> (r: String)
    ensures
        r@ == counted(n as nat, word@),
{
    let d = decimal_text(n as u64);
    if n == 1 {
        cat3(d.as_str(), " ", word)
    } else {
        cat4(d.as_str(), " ", word, "s")
    }
}

/// `s` with spaces after it up to `width` characters.
pub open spec fn padded(s: Seq<char>, width: nat) -> Seq<char> {
    if s.len() < width {
        s + repeated(' ', (width - s.len()) as nat)
    } else {
        s
    }
}

/// `s` with spaces after it up to `width` characters.
pub fn pad_right(s: &str, width: usize) -> (r: String)
    ensures
        r@ == padded(s@, width as nat),
{
    let n: usize = s.unicode_len();
    if n < width {
        let fill = repeat_char(' ', width - n);
        cat2(s, fill.as_str())
    } else {
        copy(s)
    }
}

/// A text between a prefix and a suffix can be taken out again.
pub proof fn lemma_strip_both(pre: Seq<char>, body: Seq<char>, suf: Seq<char>)
    ensures
        pre.is_prefix_of(pre + body + suf),
        suf.is_suffix_of(pre + body + suf),
        (pre + body + suf).len() == pre.len() + body.len() + suf.len(),
        (pre + body + suf).skip(pre.len() as int) == body + suf,
        (pre + body + suf).skip(pre.len() as int).take(body.len() as int) == body,
{
    let n = pre + body + suf;
    assert(n.subrange(0, pre.len() as int) == pre);
    assert(n.subrange(n.len() - suf.len(), n.len() as int) == suf);
    assert(n.skip(pre.len() as int) == body + suf);
    assert((body + suf).take(body.len() as int) == body);
}

/// A line feed between two texts ends a line, whatever the texts hold.
pub proof fn lemma_lines_split(x: Seq<char>, y: Seq<char>)
    ensures
        lines(x.push('\n') + y) == lines(x.push('\n')) + lines(y),
    decreases x.len(),
{
    let xn = x.push('\n');
    let s = xn + y;
    let k = first_index(xn, '\n');
    assert(xn.last() == '\n');
    assert(xn.contains('\n'));
    lemma_first_index(xn, '\n');
    assert forall|i: int| 0 <= i < k implies #[trigger] s[i] != '\n' by {
        assert(s[i] == xn[i]);
    }
    lemma_first_index_is(s, '\n', k);
    assert(s.take(k) == xn.take(k));
    if k < x.len() {
        let rest = x.skip(k + 1);
        lemma_lines_split(rest, y);
        assert(xn.skip(k + 1) == rest.push('\n'));
        assert(s.skip(k + 1) == rest.push('\n') + y);
        let h = seq![without_cr(s.take(k))];
        assert(h + (lines(rest.push('\n')) + lines(y)) == h + lines(rest.push('\n')) + lines(y));
    } else {
        assert(xn.skip(k + 1) == Seq::<char>::empty());
        assert(lines(Seq::<char>::empty()) == Seq::<Seq<char>>::empty());
        assert(s.skip(k + 1) == y);
        let h = seq![without_cr(s.take(k))];
        assert(h + Seq::<Seq<char>>::empty() == h);
    }
}

/// The line feed after the last line makes no difference.
pub proof fn lemma_lines_last(x: Seq<char>)
    requires
        x.len() > 0,
        x.last() != '\n',
        x.last() != '\r',
    ensures
        lines(x.push('\n')) == lines(x),
    decreases x.len(),
{
    let xn = x.push('\n');
    let k = first_index(x, '\n');
    lemma_first_index(x, '\n');
    if k < x.len() {
        assert forall|i: int| 0 <= i < k implies #[trigger] xn[i] != '\n' by {
            assert(xn[i] == x[i]);
        }
        lemma_first_index_is(xn, '\n', k);
        let rest = x.skip(k + 1);
        assert(rest.len() > 0);
        assert(rest.last() == x.last());
        lemma_lines_last(rest);
        assert(xn.skip(k + 1) == rest.push('\n'));
        assert(xn.take(k) == x.take(k));
    } else {
        assert forall|i: int| 0 <= i < x.len() implies #[trigger] xn[i] != '\n' by {
            assert(xn[i] == x[i]);
        }
        lemma_first_index_is(xn, '\n', x.len() as int);
        assert(xn.take(k) == x);
        assert(xn.skip(k + 1) == Seq::<char>::empty());
        assert(lines(Seq::<char>::empty()) == Seq::<Seq<char>>::empty());
        assert(seq![x] + Seq::<Seq<char>>::empty() == seq![x]);
    }
}

/// Texts that are whole lines can be joined by line feeds and taken apart.
pub proof fn lemma_lines_of_join(parts: Seq<Seq<char>>)
    requires
        forall|i: int|
            0 <= i < parts.len() ==> (#[trigger] parts[i]).len() > 0 && !parts[i].contains('\n')
                && parts[i].last() != '\r',
    ensures
        lines(join(parts, "\n"@)) == parts,
        parts.len() > 0 ==> join(parts, "\n"@).len() > 0,
        parts.len() > 0 ==> join(parts, "\n"@).last() == parts.last().last(),
    decreases parts.len(),
{
    reveal_strlit("\n");
    if parts.len() == 1 {
        lemma_first_index(parts[0], '\n');
        assert(parts == seq![parts[0]]);
    } else if parts.len() > 1 {
        let init = parts.drop_last();
        let last = parts.last();
        assert(last == parts[parts.len() - 1]);
        assert forall|i: int| 0 <= i < init.len() implies (#[trigger] init[i]).len() > 0
            && !init[i].contains('\n') && init[i].last() != '\r' by {
            assert(init[i] == parts[i]);
        }
        lemma_lines_of_join(init);
        let a = join(init, "\n"@);
        assert(init.last() == init[init.len() - 1]);
        assert(init.last().contains(init.last().last()));
        assert(a.last() != '\n' && a.last() != '\r');
        assert(a + "\n"@ == a.push('\n'));
        lemma_lines_split(a, last);
        lemma_lines_last(a);
        lemma_first_index(last, '\n');
        assert(lines(last) == seq![last]);
        assert(init + seq![last] == parts);
    }
}

/// What is trimmed off is white space, at both ends and all of it.
pub proof fn law_trimming_takes_all_space(s: Seq<char>) -> (r: (Seq<char>, Seq<char>))
    ensures
        s == r.0 + trimmed(s) + r.1,
        forall|i: int| 0 <= i < r.0.len() ==> is_space(#[trigger] r.0[i]),
        forall|i: int| 0 <= i < r.1.len() ==> is_space(#[trigger] r.1[i]),
        trimmed(s).len() > 0 ==> !is_space(trimmed(s)[0]) && !is_space(trimmed(s).last()),
{
    let front = lemma_trim_start(s);
    let t = trim_start(s);
    let back = lemma_trim_end(t);
    let u = trim_end(t);
    assert(s =~= front + u + back);
    if u.len() > 0 {
        assert(u[0] == t[0]);
    }
    (front, back)
}

proof fn lemma_trim_start(s: Seq<char>) -> (front: Seq<char>)
    ensures
        s == front + trim_start(s),
        forall|i: int| 0 <= i < front.len() ==> is_space(#[trigger] front[i]),
        trim_start(s).len() > 0 ==> !is_space(trim_start(s)[0]),
    decreases s.len(),
{
    if s.len() > 0 && is_space(s[0]) {
        let rest = lemma_trim_start(s.skip(1));
        let front = seq![s[0]] + rest;
        assert(s =~= seq![s[0]] + s.skip(1));
        assert(s =~= front + trim_start(s));
        front
    } else {
        assert(s =~= Seq::<char>::empty() + s);
        seq![]
    }
}

proof fn lemma_trim_end(s: Seq<char>) -> (back: Seq<char>)
    ensures
        s == trim_end(s) + back,
        forall|i: int| 0 <= i < back.len() ==> is_space(#[trigger] back[i]),
        trim_end(s).len() > 0 ==> !is_space(trim_end(s).last()),
    decreases s.len(),
{
    if s.len() > 0 && is_space(s.last()) {
        let rest = lemma_trim_end(s.drop_last());
        let back = rest.push(s.last());
        assert(s =~= s.drop_last().push(s.last()));
        assert(s =~= trim_end(s) + back);
        back
    } else {
        assert(s =~= s + Seq::<char>::empty());
        seq![]
    }
}

/// A text that is split holds the separator in none of its pieces, and the
/// pieces make it up again.
pub proof fn law_pieces_make_up_the_text(s: Seq<char>, c: char)
    ensures
        split(s, c).len() > 0,
        forall|i: int| 0 <= i < split(s, c).len() ==> !(#[trigger] split(s, c)[i]).contains(c),
        join(split(s, c), seq![c]) == s,
    decreases s.len(),
{
    lemma_first_index(s, c);
    let k = first_index(s, c);
    let all = split(s, c);
    if 0 <= k < s.len() {
        let rest = split(s.skip(k + 1), c);
        law_pieces_make_up_the_text(s.skip(k + 1), c);
        lemma_join_with_front(s.take(k), rest, seq![c]);
        assert(s =~= s.take(k) + seq![c] + s.skip(k + 1));
        assert forall|i: int| 0 <= i < all.len() implies !(#[trigger] all[i]).contains(c) by {
            if i == 0 {
                assert(all[0] == s.take(k));
                if s.take(k).contains(c) {
                    let j = choose|j: int| 0 <= j < k && s.take(k)[j] == c;
                    assert(s[j] == c);
                }
            } else {
                assert(all[i] == rest[i - 1]);
            }
        }
    } else {
        assert(all =~= seq![s]);
    }
}

proof fn lemma_join_with_front(first: Seq<char>, rest: Seq<Seq<char>>, sep: Seq<char>)
    requires
        rest.len() > 0,
    ensures
        join(seq![first] + rest, sep) == first + sep + join(rest, sep),
    decreases rest.len(),
{
    reveal_with_fuel(join, 2);
    let all = seq![first] + rest;
    assert(all.last() == rest.last());
    if rest.len() == 1 {
        assert(all.drop_last() =~= seq![first]);
        assert(rest.last() == rest[0]);
    } else {
        let init = rest.drop_last();
        assert(all.drop_last() =~= seq![first] + init);
        lemma_join_with_front(first, init, sep);
        assert(join(all, sep) =~= first + sep + join(rest, sep));
    }
}

/// A padded text is as wide as asked for, begins with the text, and has nothing
/// but spaces behind it; one that is wider is left alone.
pub proof fn law_padding_only_adds_space(s: Seq<char>, width: nat)
    ensures
        s.len() >= width ==> padded(s, width) == s,
        s.len() < width ==> padded(s, width).len() == width,
        s.is_prefix_of(padded(s, width)),
        forall|i: int| s.len() <= i < padded(s, width).len() ==> #[trigger] padded(s, width)[i] == ' ',
{
    let p = padded(s, width);
    assert(p.subrange(0, s.len() as int) =~= s);
}

} // verus!
