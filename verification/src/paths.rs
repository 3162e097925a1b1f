//! Unix paths as text: joining, parents, final components.

use vstd::prelude::*;
use crate::text;
use crate::text::{cat2, cat3, cat4, chars_of, copy, cut_at_last, same, split_on, text_between};

verus! {

/// `file` inside `dir`; an absolute `file` stands for itself.
pub open spec fn joined(dir: Seq<char>, file: Seq<char>) -> Seq<char> {
    if file.len() > 0 && file[0] == '/' {
        file
    } else if dir.len() == 0 || dir.last() == '/' {
        dir + file
    } else {
        dir + "/"@ + file
    }
}

/// `file` inside `dir`; an absolute `file` stands for itself.
pub fn join_path(dir: &str, file: &str) -> (r: String)
    ensures
        r@ == joined(dir@, file@),
{
    let n: usize = dir.unicode_len();
    let m: usize = file.unicode_len();
    if m > 0 && file.get_char(0) == '/' {
        text::copy(file)
    } else if n == 0 || dir.get_char(n - 1) == '/' {
        cat2(dir, file)
    } else {
        cat3(dir, "/", file)
    }
}

/// Whether a path starts at the root.
pub open spec fn is_absolute(path: Seq<char>) -> bool {
    path.len() > 0 && path[0] == '/'
}

/// A path without the slashes and `/.` at its end.
pub open spec fn trimmed(path: Seq<char>) -> Seq<char>
    decreases path.len(),
{
    if path.len() > 1 && (path.last() == '/' || (path.last() == '.' && path[path.len() - 2]
        == '/')) {
        trimmed(path.drop_last())
    } else {
        path
    }
}

/// The final component of a path: empty for the root and for no path at all.
pub open spec fn final_component(path: Seq<char>) -> Seq<char> {
    let t = trimmed(path);
    t.skip(text::last_index(t, '/') + 1)
}

/// The final component, if it names a file or directory.
pub open spec fn file_name(path: Seq<char>) -> Option<Seq<char>> {
    let c = final_component(path);
    if c.len() == 0 || c == "."@ || c == ".."@ {
        None
    } else {
        Some(c)
    }
}

/// A file name without its extension: what precedes the last dot, unless that
/// dot comes first.
pub open spec fn stem(name: Seq<char>) -> Seq<char> {
    let k = text::last_index(name, '.');
    if k <= 0 {
        name
    } else {
        name.take(k)
    }
}

/// The file name without its extension, if there is a file name.
pub open spec fn file_stem(path: Seq<char>) -> Option<Seq<char>> {
    match file_name(path) {
        Some(n) => Some(stem(n)),
        None => None,
    }
}

/// The path without its final component, unless there is none to take away.
pub open spec fn parent(path: Seq<char>) -> Option<Seq<char>> {
    let t = trimmed(path);
    if t.len() == 0 || t == "/"@ {
        None
    } else {
        Some(trimmed(t.take(text::last_index(t, '/') + 1)))
    }
}

/// A path without the slashes and `/.` at its end.
pub fn trim_path(path: &str) -> (r: String)
    ensures
        r@ == trimmed(path@),
{
    let v = chars_of(path);
    let mut n: usize = v.len();
    assert(v@.take(n as int) == v@);
    while n > 1 && (v[n - 1] == '/' || (v[n - 1] == '.' && v[n - 2] == '/'))
        invariant
            n <= v.len(),
            trimmed(v@.take(n as int)) == trimmed(path@),
        decreases n,
    {
        assert(v@.take(n as int).drop_last() == v@.take(n - 1));
        n = n - 1;
    }
    let r = text_between(&v, 0, n);
    assert(r@ == v@.take(n as int));
    r
}

/// The final component of a path.
pub fn final_of(path: &str) -> (r: String)
    ensures
        r@ == final_component(path@),
{
    let t = trim_path(path);
    proof {
        text::lemma_last_index(t@, '/');
    }
    match cut_at_last(t.as_str(), '/') {
        Some((_, b)) => b,
        None => {
            assert(t@.skip(0) == t@);
            t
        },
    }
}

/// The final component, if it names a file or directory.
pub fn file_name_of(path: &str) -> (r: Option<String>)
    ensures
        r is Some <==> file_name(path@) is Some,
        r matches Some(n) ==> n@ == file_name(path@)->0,
{
    let c = final_of(path);
    if c.as_str().is_empty() || same(c.as_str(), ".") || same(c.as_str(), "..") {
        None
    } else {
        Some(c)
    }
}

/// The file name without its extension, if there is a file name.
pub fn file_stem_of(path: &str) -> (r: Option<String>)
    ensures
        r is Some <==> file_stem(path@) is Some,
        r matches Some(n) ==> n@ == file_stem(path@)->0,
{
    match file_name_of(path) {
        None => None,
        Some(name) => {
            proof {
                text::lemma_last_index(name@, '.');
            }
            match cut_at_last(name.as_str(), '.') {
                Some((a, _)) => if a.as_str().is_empty() {
                    Some(name)
                } else {
                    Some(a)
                },
                None => Some(name),
            }
        },
    }
}

/// A path with another extension for its file name; a path without one is left
/// as it is.
pub open spec fn with_extension(path: Seq<char>, ext: Seq<char>) -> Seq<char> {
    match file_name(path) {
        Some(name) => {
            let t = trimmed(path);
            t.take(text::last_index(t, '/') + 1) + stem(name) + "."@ + ext
        },
        None => path,
    }
}

/// A path with another extension for its file name.
pub fn replace_extension(path: &str, ext: &str) -> (r: String)
    ensures
        r@ == with_extension(path@, ext@),
{
    match file_stem_of(path) {
        None => copy(path),
        Some(stem) => {
            let t = trim_path(path);
            proof {
                text::lemma_last_index(t@, '/');
            }
            let head = match cut_at_last(t.as_str(), '/') {
                Some((a, _)) => {
                    let mut a = a;
                    a.push('/');
                    a
                },
                None => String::new(),
            };
            assert(head@ == t@.take(text::last_index(t@, '/') + 1));
            cat4(head.as_str(), stem.as_str(), ".", ext)
        },
    }
}

/// The path without its final component, unless there is none to take away.
pub fn parent_of(path: &str) -> (r: Option<String>)
    ensures
        r is Some <==> parent(path@) is Some,
        r matches Some(n) ==> n@ == parent(path@)->0,
{
    let t = trim_path(path);
    if t.as_str().is_empty() || same(t.as_str(), "/") {
        return None;
    }
    proof {
        text::lemma_last_index(t@, '/');
    }
    match cut_at_last(t.as_str(), '/') {
        Some((a, _)) => {
            let mut a = a;
            a.push('/');
            assert(a@ == t@.take(text::last_index(t@, '/') + 1));
            Some(trim_path(a.as_str()))
        },
        None => {
            assert(t@.take(0) == Seq::<char>::empty());
            Some(String::new())
        },
    }
}

/// The components of a path: pieces between slashes, but for those that are
/// empty or a dot.
pub open spec fn components(pieces: Seq<Seq<char>>) -> Seq<Seq<char>>
    decreases pieces.len(),
{
    if pieces.len() == 0 {
        seq![]
    } else {
        let rest = components(pieces.drop_last());
        if pieces.last().len() == 0 || pieces.last() == "."@ {
            rest
        } else {
            rest.push(pieces.last())
        }
    }
}

/// Whether a path begins with a dot as its first component.
pub open spec fn starts_here(path: Seq<char>) -> bool {
    text::split(path, '/')[0] == "."@
}

/// Whether two paths are the same, component by component: repeated slashes, a
/// slash at the end and dots inside make no difference.
pub open spec fn same_path(a: Seq<char>, b: Seq<char>) -> bool {
    &&& is_absolute(a) == is_absolute(b)
    &&& starts_here(a) == starts_here(b)
    &&& components(text::split(a, '/')) == components(text::split(b, '/'))
}

fn components_of(path: &str) -> (r: Vec<String>)
    ensures
        text::views(r@) == components(text::split(path@, '/')),
{
    let pieces = split_on(path, '/');
    let ghost all = text::views(pieces@);
    let mut r: Vec<String> = Vec::new();
    let mut i: usize = 0;
    assert(all.take(0) == Seq::<Seq<char>>::empty());
    assert(text::views(r@) == Seq::<Seq<char>>::empty());
    while i < pieces.len()
        invariant
            i <= pieces@.len(),
            all == text::views(pieces@),
            text::views(r@) == components(all.take(i as int)),
        decreases pieces@.len() - i,
    {
        assert(all.take(i + 1).drop_last() == all.take(i as int));
        assert(all.take(i + 1).last() == pieces@[i as int]@);
        let piece = pieces[i].as_str();
        if !piece.is_empty() && !same(piece, ".") {
            let one = copy(piece);
            proof {
                text::lemma_views_push(r@, one);
            }
            r.push(one);
        }
        i = i + 1;
    }
    assert(all.take(i as int) == all);
    r
}

/// Whether two paths are the same, component by component.
pub fn paths_equal(a: &str, b: &str) -> (r: bool)
    ensures
        r == same_path(a@, b@),
{
    let rooted_a = a.unicode_len() > 0 && a.get_char(0) == '/';
    let rooted_b = b.unicode_len() > 0 && b.get_char(0) == '/';
    let here_a = begins_here(a);
    let here_b = begins_here(b);
    let x = components_of(a);
    let y = components_of(b);
    let ghost u = text::views(x@);
    let ghost v = text::views(y@);
    if rooted_a != rooted_b || here_a != here_b {
        return false;
    }
    if x.len() != y.len() {
        assert(u.len() != v.len());
        return false;
    }
    let mut i: usize = 0;
    while i < x.len()
        invariant
            i <= x@.len() == y@.len(),
            u == text::views(x@),
            v == text::views(y@),
            u == components(text::split(a@, '/')),
            v == components(text::split(b@, '/')),
            forall|k: int| 0 <= k < i ==> u[k] == v[k],
        decreases x@.len() - i,
    {
        assert(u[i as int] == x@[i as int]@ && v[i as int] == y@[i as int]@);
        if !same(x[i].as_str(), y[i].as_str()) {
            return false;
        }
        i = i + 1;
    }
    assert(u =~= v);
    true
}

fn begins_here(path: &str) -> (r: bool)
    ensures
        r == starts_here(path@),
{
    let pieces = split_on(path, '/');
    assert(text::views(pieces@).len() == pieces@.len());
    assert(text::views(pieces@)[0] == pieces@[0]@);
    same(pieces[0].as_str(), ".")
}

pub proof fn lemma_split_push(s: Seq<char>, x: char)
    ensures
        text::split(s, '/').len() > 0,
        text::split(s.push(x), '/') == if x == '/' {
            text::split(s, '/').push(seq![])
        } else {
            text::split(s, '/').drop_last().push(text::split(s, '/').last().push(x))
        },
    decreases s.len(),
{
    let p = s.push(x);
    text::lemma_first_index(s, '/');
    text::lemma_first_index(p, '/');
    let k = text::first_index(s, '/');
    if 0 <= k < s.len() {
        let t = s.skip(k + 1);
        text::lemma_first_index_is(p, '/', k);
        lemma_split_push(t, x);
        assert(p.skip(k + 1) =~= t.push(x));
        assert(p.take(k) =~= s.take(k));
        assert(text::split(p, '/') =~= seq![s.take(k)] + text::split(t.push(x), '/'));
        assert(text::split(s, '/') =~= seq![s.take(k)] + text::split(t, '/'));
        if x == '/' {
            assert(text::split(p, '/') =~= text::split(s, '/').push(seq![]));
        } else {
            assert(text::split(p, '/') =~= text::split(s, '/').drop_last().push(
                text::split(s, '/').last().push(x),
            ));
        }
    } else if x == '/' {
        text::lemma_first_index_is(p, '/', s.len() as int);
        assert(p.take(s.len() as int) =~= s);
        assert(p.skip(s.len() as int + 1) =~= Seq::<char>::empty());
        assert(text::split(Seq::<char>::empty(), '/') =~= seq![Seq::<char>::empty()]);
        assert(text::split(p, '/') =~= seq![s, Seq::<char>::empty()]);
        assert(text::split(s, '/').push(Seq::<char>::empty()) =~= seq![s, Seq::<char>::empty()]);
    } else {
        assert(text::split(p, '/') =~= seq![p]);
        assert(text::split(s, '/').drop_last().push(p) =~= seq![p]);
    }
}

/// What is cut off at the end of a path makes no difference to it.
pub proof fn law_trimming_keeps_the_path(path: Seq<char>)
    ensures
        same_path(trimmed(path), path),
    decreases path.len(),
{
    if path.len() > 1 && (path.last() == '/' || (path.last() == '.' && path[path.len() - 2]
        == '/')) {
        let q = path.drop_last();
        law_trimming_keeps_the_path(q);
        reveal_strlit(".");
        assert(q.push(path.last()) =~= path);
        lemma_split_push(q, path.last());
        let v = text::split(q, '/');
        if path.last() == '/' {
            assert(v.push(seq![]).drop_last() =~= v);
            assert(v.push(Seq::<char>::empty())[0] == v[0]);
        } else {
            let r = q.drop_last();
            assert(r.push('/') =~= q);
            lemma_split_push(r, '/');
            let w = text::split(r, '/');
            assert(v == w.push(seq![]));
            assert(v.drop_last() =~= w);
            assert(v.last().push('.') =~= "."@);
            assert(text::split(path, '/') =~= w.push("."@));
            assert(w.push("."@).drop_last() =~= w);
            assert(w.push("."@)[0] == w[0]);
        }
    }
}

/// A file put into a directory is found there again: the file is the final
/// component and the directory is the parent.
pub proof fn law_join_then_take_apart(dir: Seq<char>, file: Seq<char>)
    requires
        file.len() > 0,
        !file.contains('/'),
        file != "."@,
        file != ".."@,
    ensures
        file_name(joined(dir, file)) == Some(file),
        parent(joined(dir, file)) == Some(trimmed(dir)),
{
    reveal_strlit(".");
    reveal_strlit("..");
    reveal_strlit("/");
    let p = joined(dir, file);
    assert(file.contains(file[0]));
    assert(file.contains(file.last()));
    let lead = if dir.len() == 0 || dir.last() == '/' {
        dir
    } else {
        dir + "/"@
    };
    assert(p == lead + file);
    assert(p.last() == file.last());
    if file.last() == '.' {
        if file.len() == 1 {
            assert(file == "."@);
        } else {
            assert(p[p.len() - 2] == file[file.len() - 2]);
            assert(file.contains(file[file.len() - 2]));
        }
    }
    assert(trimmed(p) == p);
    lemma_last_slash(lead, file);
    assert(p.skip(lead.len() as int) == file);
    assert(p.take(lead.len() as int) == lead);
    assert(p != "/"@);
    if lead != dir {
        assert(lead.drop_last() == dir);
    }
}

proof fn lemma_last_slash(lead: Seq<char>, file: Seq<char>)
    requires
        lead.len() == 0 || lead.last() == '/',
        !file.contains('/'),
    ensures
        text::last_index(lead + file, '/') == lead.len() - 1,
    decreases file.len(),
{
    let p = lead + file;
    if file.len() == 0 {
        assert(p == lead);
    } else {
        assert(file.contains(file.last()));
        assert(p.drop_last() == lead + file.drop_last());
        assert(!file.drop_last().contains('/')) by {
            if file.drop_last().contains('/') {
                let i = choose|i: int| 0 <= i < file.len() - 1 && file.drop_last()[i] == '/';
                assert(file[i] == '/');
            }
        }
        lemma_last_slash(lead, file.drop_last());
    }
}

} // verus!
