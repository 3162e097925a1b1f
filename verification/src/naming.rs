//! Session names. A session belongs to a client: `laptop/0` is the session
//! `0` of the client `laptop`, who may leave the prefix out.

use vstd::prelude::*;
use crate::text::{after_prefix, cat2, cat3, copy, has_char, same, starts_with};

verus! {

/// Whether a client may be called this: not empty, and without a slash.
pub open spec fn client_name_ok(name: Seq<char>) -> bool {
    name.len() > 0 && !name.contains('/')
}

/// A usable client name: `raw` itself where it can be one.
pub open spec fn client_name_of(raw: Seq<char>) -> Seq<char> {
    if client_name_ok(raw) {
        raw
    } else {
        "unknown"@
    }
}

/// A usable client name: `unknown` in place of one that is empty or holds a
/// slash, which would break the prefix.
pub fn sanitize_client_name(raw: String) -> (r: String)
    ensures
        r@ == client_name_of(raw@),
        client_name_ok(r@),
{
    proof {
        reveal_strlit("unknown");
    }
    if raw.as_str().unicode_len() == 0 || has_char(raw.as_str(), '/') {
        copy("unknown")
    } else {
        raw
    }
}

/// The full name of a session that a client asks for: a name with a slash and
/// the name `-` (the last session) are taken as they are, any other name is
/// one of the client's own.
pub open spec fn full_name(name: Seq<char>, client: Seq<char>) -> Seq<char> {
    if name.contains('/') || name == "-"@ {
        name
    } else {
        client + "/"@ + name
    }
}

/// The full name of a session that a client asks for.
pub fn resolve_session_name(name: &str, client_name: &str) -> (r: String)
    ensures
        r@ == full_name(name@, client_name@),
{
    if has_char(name, '/') || same(name, "-") {
        copy(name)
    } else {
        cat3(client_name, "/", name)
    }
}

/// The prefix that the sessions of a client carry.
pub open spec fn own_prefix(client: Seq<char>) -> Seq<char> {
    client + "/"@
}

/// Whether a session is one of the client's own. Nobody without a name owns
/// one.
pub open spec fn is_own(name: Seq<char>, client: Seq<char>) -> bool {
    client.len() > 0 && own_prefix(client).is_prefix_of(name)
}

/// The name of a session as a client sees it: without the client's own prefix.
pub open spec fn shown_name(name: Seq<char>, client: Seq<char>) -> Seq<char> {
    if is_own(name, client) {
        name.skip(own_prefix(client).len() as int)
    } else {
        name
    }
}

/// The name of a session as a client sees it.
pub fn display_session_name(name: &str, client_name: &str) -> (r: String)
    ensures
        r@ == shown_name(name@, client_name@),
{
    if client_name.unicode_len() == 0 {
        return copy(name);
    }
    let prefix = cat2(client_name, "/");
    match after_prefix(name, prefix.as_str()) {
        Some(rest) => rest,
        None => copy(name),
    }
}

/// Whether a session is one of the client's own.
pub fn own_session(name: &str, client_name: &str) -> (r: bool)
    ensures
        r == is_own(name@, client_name@),
{
    let prefix = cat2(client_name, "/");
    client_name.unicode_len() > 0 && starts_with(name, prefix.as_str())
}

/// What a client sees of its own session leads back to the session.
pub proof fn law_shown_name_resolves(name: Seq<char>, client: Seq<char>)
    requires
        client.len() > 0,
        !name.contains('/'),
        name != "-"@,
    ensures
        is_own(full_name(name, client), client),
        shown_name(full_name(name, client), client) == name,
        full_name(shown_name(full_name(name, client), client), client) == full_name(name, client),
{
    let p = own_prefix(client);
    assert((p + name).subrange(0, p.len() as int) == p);
    assert(p.is_prefix_of(p + name));
    assert((p + name).skip(p.len() as int) == name);
}

/// Resolving a name twice changes nothing more, for a client with a name.
pub proof fn law_resolved_name_is_final(name: Seq<char>, client: Seq<char>)
    ensures
        full_name(full_name(name, client), client) == full_name(name, client),
{
    reveal_strlit("/");
    let f = full_name(name, client);
    if !name.contains('/') && name != "-"@ {
        assert(f[client.len() as int] == '/');
        assert(f.contains('/'));
    }
}

/// A bare name is one of the client's own; a name that says whose it is, and
/// the one that stands for the last session, are left alone, and so is, when
/// shown, what belongs to others.
pub proof fn law_only_bare_names_are_completed(name: Seq<char>, client: Seq<char>, other: Seq<char>)
    requires
        client_name_ok(client),
        client_name_ok(other),
        client != other,
    ensures
        name.contains('/') ==> full_name(name, client) == name,
        full_name("-"@, client) == "-"@,
        !name.contains('/') && name != "-"@ ==> full_name(name, client) == client + "/"@ + name
            && is_own(full_name(name, client), client) && !is_own(full_name(name, client), other),
        shown_name(other + "/"@ + name, client) == other + "/"@ + name,
        client_name_of(client) == client,
        client_name_ok(client_name_of(name)),
{
    reveal_strlit("/");
    reveal_strlit("-");
    reveal_strlit("unknown");
    let mine = client + "/"@ + name;
    assert(mine.subrange(0, client.len() as int + 1) =~= own_prefix(client));
    lemma_prefixes_differ(client, other, name);
    lemma_prefixes_differ(other, client, name);
    if !client_name_ok(name) {
        assert(!"unknown"@.contains('/')) by {
            let u = "unknown"@;
            if u.contains('/') {
                let i = choose|i: int| 0 <= i < u.len() && u[i] == '/';
                assert(u.len() == 7);
            }
        }
    }
}

proof fn lemma_prefixes_differ(a: Seq<char>, b: Seq<char>, rest: Seq<char>)
    requires
        client_name_ok(a),
        client_name_ok(b),
        a != b,
    ensures
        !own_prefix(b).is_prefix_of(a + "/"@ + rest),
{
    reveal_strlit("/");
    let s = a + "/"@ + rest;
    let p = own_prefix(b);
    if p.is_prefix_of(s) {
        assert(s.subrange(0, p.len() as int) == p);
        assert(s[a.len() as int] == '/');
        assert(p[b.len() as int] == '/');
        assert(s[b.len() as int] == '/');
        if b.len() < a.len() {
            assert(a[b.len() as int] == '/');
            assert(a.contains(a[b.len() as int]));
        } else if a.len() < b.len() {
            assert(p[a.len() as int] == b[a.len() as int]);
            assert(b.contains(b[a.len() as int]));
        } else {
            assert forall|i: int| 0 <= i < a.len() implies a[i] == b[i] by {
                assert(s[i] == p[i]);
            }
            assert(a =~= b);
        }
    }
}

} // verus!
