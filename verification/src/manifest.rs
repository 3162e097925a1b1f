//! How files are announced on the wire: a count, and for each file its name,
//! size and mode.

use vstd::prelude::*;
use crate::outside;
use crate::paths;
use crate::text;
use crate::text::{cat2, copy, same, split_on, starts_with};
use crate::wire_names::SendEntry;

verus! {

/// A number as `n` bytes, most significant first; what does not fit is cut
/// off.
pub open spec fn be_bytes(value: nat, n: nat) -> Seq<u8>
    decreases n,
{
    if n == 0 {
        seq![]
    } else {
        be_bytes(value / 256, (n - 1) as nat).push((value % 256) as u8)
    }
}

/// The number that bytes stand for, most significant first.
pub open spec fn be_value(b: Seq<u8>) -> nat
    decreases b.len(),
{
    if b.len() == 0 {
        0
    } else {
        be_value(b.drop_last()) * 256 + b.last() as nat
    }
}

/// How many numbers `n` bytes can tell apart.
pub open spec fn pow256(n: nat) -> nat
    decreases n,
{
    if n == 0 {
        1
    } else {
        pow256((n - 1) as nat) * 256
    }
}

pub proof fn lemma_be_bytes(value: nat, n: nat)
    ensures
        be_bytes(value, n).len() == n,
        value < pow256(n) ==> be_value(be_bytes(value, n)) == value,
    decreases n,
{
    if n > 0 {
        lemma_be_bytes(value / 256, (n - 1) as nat);
        let b = be_bytes(value, n);
        assert(b.drop_last() == be_bytes(value / 256, (n - 1) as nat));
    }
}

pub proof fn lemma_be_value(b: Seq<u8>)
    ensures
        be_value(b) < pow256(b.len()),
    decreases b.len(),
{
    if b.len() > 0 {
        lemma_be_value(b.drop_last());
    }
}

proof fn lemma_pow256()
    ensures
        pow256(0) == 1,
        pow256(2) == 0x1_0000,
        pow256(4) == 0x1_0000_0000,
        pow256(8) == 0x1_0000_0000_0000_0000,
{
    reveal_with_fuel(pow256, 9);
    assert(pow256(1) == 256);
    assert(pow256(2) == 65536);
    assert(pow256(3) == 16777216);
    assert(pow256(4) == 4294967296);
    assert(pow256(5) == 1099511627776);
    assert(pow256(6) == 281474976710656);
    assert(pow256(7) == 72057594037927936);
}

/// Append a number as `n` bytes.
fn push_number(out: &mut Vec<u8>, value: u64, n: usize)
    ensures
        final(out)@ == old(out)@ + be_bytes(value as nat, n as nat),
    decreases n,
{
    let ghost before = out@;
    if n == 0 {
        assert(out@ =~= before + be_bytes(value as nat, 0));
    } else {
        push_number(out, value / 256, n - 1);
        let ghost head = be_bytes((value / 256) as nat, (n - 1) as nat);
        out.push((value % 256) as u8);
        assert(out@ =~= before + head.push((value % 256) as u8));
    }
}

/// The number that `b[from..to]` stands for.
fn read_number(b: &Vec<u8>, from: usize, to: usize) -> (r: u64)
    requires
        from <= to <= b@.len(),
        to - from <= 8,
    ensures
        r == be_value(b@.subrange(from as int, to as int)),
{
    let mut acc: u64 = 0;
    let mut i: usize = from;
    assert(b@.subrange(from as int, from as int) =~= Seq::<u8>::empty());
    while i < to
        invariant
            from <= i <= to <= b@.len(),
            to - from <= 8,
            acc == be_value(b@.subrange(from as int, i as int)),
        decreases to - i,
    {
        proof {
            let now = b@.subrange(from as int, i + 1);
            assert(now.drop_last() =~= b@.subrange(from as int, i as int));
            lemma_be_value(now);
            lemma_pow256_grows(now.len(), 8);
            lemma_pow256();
        }
        acc = acc * 256 + b[i] as u64;
        i = i + 1;
    }
    acc
}

/// The number that four bytes stand for.
pub fn read_u32(b: &Vec<u8>) -> (r: u32)
    requires
        b@.len() == 4,
    ensures
        r == be_value(b@),
{
    let n: u64 = read_number(b, 0, 4);
    proof {
        assert(b@.subrange(0, 4) =~= b@);
        lemma_be_value(b@);
        lemma_pow256();
    }
    n as u32
}

proof fn lemma_pow256_grows(a: nat, b: nat)
    requires
        a <= b,
    ensures
        pow256(a) <= pow256(b),
    decreases b - a,
{
    if a < b {
        lemma_pow256_grows(a, (b - 1) as nat);
    }
}

/// How one file is announced.
pub open spec fn entry_bytes(name: Seq<char>, size: u64, mode: u32) -> Seq<u8> {
    let n = vstd::utf8::encode_utf8(name);
    be_bytes(n.len() as usize as nat, 2) + n + be_bytes(size as nat, 8) + be_bytes(mode as nat, 4)
}

/// How files are announced, one after the other.
pub open spec fn entries_bytes(v: Seq<SendEntry>) -> Seq<u8>
    decreases v.len(),
{
    if v.len() == 0 {
        seq![]
    } else {
        entries_bytes(v.drop_last()) + entry_bytes(v.last().name@, v.last().size, v.last().mode)
    }
}

/// What a sender announces: how many files there are, and each of them.
pub fn send_manifest(entries: &Vec<SendEntry>) -> (r: Vec<u8>)
    ensures
        r@ == be_bytes(entries@.len(), 4) + entries_bytes(entries@),
{
    let mut out: Vec<u8> = Vec::new();
    push_number(&mut out, entries.len() as u64, 4);
    let ghost head = be_bytes(entries@.len(), 4);
    assert(out@ =~= head);
    let mut i: usize = 0;
    assert(entries@.take(0) == Seq::<SendEntry>::empty());
    assert(head + Seq::<u8>::empty() =~= head);
    while i < entries.len()
        invariant
            i <= entries@.len(),
            out@ == head + entries_bytes(entries@.take(i as int)),
        decreases entries@.len() - i,
    {
        assert(entries@.take(i + 1).drop_last() == entries@.take(i as int));
        assert(entries@.take(i + 1).last() == entries@[i as int]);
        let ghost before = out@;
        let name = entries[i].name.as_str();
        let bytes = name.as_bytes();
        push_number(&mut out, name.len() as u64, 2);
        let ghost a = out@;
        push_bytes(&mut out, bytes);
        push_number(&mut out, entries[i].size, 8);
        push_number(&mut out, entries[i].mode as u64, 4);
        proof {
            let e = entries@[i as int];
            let n = vstd::utf8::encode_utf8(e.name@);
            let one = entry_bytes(e.name@, e.size, e.mode);
            assert(out@ =~= before + one);
            let done = entries_bytes(entries@.take(i as int));
            assert(head + done + one =~= head + (done + one));
        }
        i = i + 1;
    }
    assert(entries@.take(i as int) == entries@);
    out
}

fn push_bytes(out: &mut Vec<u8>, b: &[u8])
    ensures
        final(out)@ == old(out)@ + b@,
{
    let ghost before = out@;
    let mut i: usize = 0;
    assert(out@ =~= before + b@.take(0));
    while i < b.len()
        invariant
            i <= b@.len(),
            out@ == before + b@.take(i as int),
        decreases b@.len() - i,
    {
        out.push(b[i]);
        assert(out@ =~= before + b@.take(i + 1));
        i = i + 1;
    }
    assert(b@.take(i as int) =~= b@);
}

/// What is wrong with a path that came over the wire.
#[derive(Clone, Copy, Debug, PartialEq, Eq, Structural)]
pub enum PathError {
    Absolute,
    Parent,
    Empty,
}

/// What is wrong with a path: it must stay below the directory that it is put
/// into.
pub open spec fn path_error(name: Seq<char>) -> Option<PathError> {
    if paths::is_absolute(name) {
        Some(PathError::Absolute)
    } else if text::split(name, '/').contains(".."@) {
        Some(PathError::Parent)
    } else if name.len() == 0 {
        Some(PathError::Empty)
    } else {
        None
    }
}

pub open spec fn path_error_text(e: PathError, name: Seq<char>) -> Seq<char> {
    match e {
        PathError::Absolute => "absolute path not allowed: "@ + name,
        PathError::Parent => "'..' not allowed in path: "@ + name,
        PathError::Empty => "empty path"@,
    }
}

/// Take a path that came over the wire: directories are allowed in it, but
/// nothing that leads out of the place it is put into.
pub fn sanitize_path(name: &str) -> (r: Result<String, String>)
    ensures
        match path_error(name@) {
            None => r is Ok && r->Ok_0@ == name@,
            Some(e) => r is Err && r->Err_0@ == path_error_text(e, name@),
        },
{
    proof {
        reveal_strlit("/");
        if name@.len() > 0 && name@[0] == '/' {
            assert(name@.subrange(0, 1) =~= "/"@);
            assert("/"@.is_prefix_of(name@));
        }
        if "/"@.is_prefix_of(name@) {
            assert(name@.subrange(0, 1)[0] == '/');
        }
    }
    if starts_with(name, "/") {
        return Err(cat2("absolute path not allowed: ", name));
    }
    let pieces = split_on(name, '/');
    let mut i: usize = 0;
    while i < pieces.len()
        invariant
            i <= pieces@.len(),
            text::views(pieces@) == text::split(name@, '/'),
            !paths::is_absolute(name@),
            forall|k: int| 0 <= k < i ==> text::views(pieces@)[k] != ".."@,
        decreases pieces@.len() - i,
    {
        assert(text::views(pieces@)[i as int] == pieces@[i as int]@);
        if same(pieces[i].as_str(), "..") {
            assert(text::split(name@, '/').contains(".."@));
            return Err(cat2("'..' not allowed in path: ", name));
        }
        i = i + 1;
    }
    if name.unicode_len() == 0 {
        return Err(copy("empty path"));
    }
    Ok(copy(name))
}

/// A path that was taken lies below the directory that it is put into.
pub proof fn law_taken_paths_stay_below(dir: Seq<char>, name: Seq<char>)
    requires
        path_error(name) is None,
    ensures
        dir.is_prefix_of(paths::joined(dir, name)),
        name.is_suffix_of(paths::joined(dir, name)),
        !text::split(name, '/').contains(".."@),
{
    let j = paths::joined(dir, name);
    assert(j.subrange(0, dir.len() as int) =~= dir);
    assert(j.subrange(j.len() - name.len(), j.len() as int) =~= name);
}

/// How far the announcement of a file has been read.
pub enum HeaderState {
    /// The length of the name is next.
    Length,
    /// The name is next.
    Name(usize),
    /// Size and mode are next.
    Tail(String),
}

/// How far the announcement of a file has been read, as a value.
pub enum HeaderModel {
    Length,
    Name(usize),
    Tail(Seq<char>),
}

impl View for HeaderState {
    type V = HeaderModel;

    open spec fn view(&self) -> HeaderModel {
        match self {
            HeaderState::Length => HeaderModel::Length,
            HeaderState::Name(n) => HeaderModel::Name(*n),
            HeaderState::Tail(s) => HeaderModel::Tail(s@),
        }
    }
}

/// What the bytes that were read bring.
pub enum HeaderStep {
    /// More bytes are needed.
    More,
    /// There are no more files.
    End,
    /// A file.
    Entry { name: String, size: u64, mode: u32 },
    Error(String),
}

/// How many bytes are read next.
pub open spec fn bytes_needed(s: HeaderModel) -> nat {
    match s {
        HeaderModel::Length => 2,
        HeaderModel::Name(n) => n as nat,
        HeaderModel::Tail(_) => 12,
    }
}

/// What bytes of an announcement bring, as a value.
pub enum Announced {
    More,
    End,
    Entry { name: Seq<char>, size: u64, mode: u32 },
    Error(Seq<char>),
}

impl View for HeaderStep {
    type V = Announced;

    open spec fn view(&self) -> Announced {
        match self {
            HeaderStep::More => Announced::More,
            HeaderStep::End => Announced::End,
            HeaderStep::Entry { name, size, mode } => Announced::Entry {
                name: name@,
                size: *size,
                mode: *mode,
            },
            HeaderStep::Error(e) => Announced::Error(e@),
        }
    }
}

/// The step from one state to the next, and what it brings.
pub open spec fn header_next(pre: HeaderModel, b: Seq<u8>) -> (HeaderModel, Announced) {
    match pre {
        HeaderModel::Length => if be_value(b) == 0 {
            (HeaderModel::Length, Announced::End)
        } else {
            (HeaderModel::Name(be_value(b) as usize), Announced::More)
        },
        HeaderModel::Name(_) => if !vstd::utf8::valid_utf8(b) {
            (HeaderModel::Length, Announced::Error(outside::utf8_error(b)))
        } else {
            let name = vstd::utf8::decode_utf8(b);
            match path_error(name) {
                Some(e) => (HeaderModel::Length, Announced::Error(path_error_text(e, name))),
                None => (HeaderModel::Tail(name), Announced::More),
            }
        },
        HeaderModel::Tail(name) => (
            HeaderModel::Length,
            Announced::Entry {
                name,
                size: be_value(b.subrange(0, 8)) as u64,
                mode: be_value(b.subrange(8, 12)) as u32,
            },
        ),
    }
}

impl HeaderState {
    /// Before the announcement of a file.
    pub fn new() -> (r: HeaderState)
        ensures
            r@ == HeaderModel::Length,
    {
        HeaderState::Length
    }

    /// How many bytes to read next.
    pub fn need(&self) -> (n: usize)
        ensures
            n == bytes_needed(self@),
    {
        match self {
            HeaderState::Length => 2,
            HeaderState::Name(n) => *n,
            HeaderState::Tail(_) => 12,
        }
    }

    /// Take in the bytes that were needed.
    pub fn feed(&mut self, b: Vec<u8>) -> (step: HeaderStep)
        requires
            b@.len() == bytes_needed(old(self)@),
        ensures
            (final(self)@, step@) == header_next(old(self)@, b@),
    {
        match self {
            HeaderState::Length => {
                let n: u64 = read_number(&b, 0, 2);
                proof {
                    assert(b@.subrange(0, 2) =~= b@);
                    lemma_be_value(b@);
                    lemma_pow256();
                }
                if n == 0 {
                    HeaderStep::End
                } else {
                    *self = HeaderState::Name(n as usize);
                    HeaderStep::More
                }
            },
            HeaderState::Name(_) => match outside::utf8_text(b) {
                Err(e) => {
                    *self = HeaderState::Length;
                    HeaderStep::Error(e)
                },
                Ok(s) => match sanitize_path(s.as_str()) {
                    Ok(name) => {
                        *self = HeaderState::Tail(name);
                        HeaderStep::More
                    },
                    Err(e) => {
                        *self = HeaderState::Length;
                        HeaderStep::Error(e)
                    },
                },
            },
            HeaderState::Tail(name) => {
                let kept = copy(name.as_str());
                let size: u64 = read_number(&b, 0, 8);
                let mode: u64 = read_number(&b, 8, 12);
                proof {
                    lemma_be_value(b@.subrange(8, 12));
                    lemma_pow256();
                }
                *self = HeaderState::Length;
                HeaderStep::Entry { name: kept, size, mode: mode as u32 }
            },
        }
    }
}

/// What is announced is what is read: the name, the size and the mode of a
/// file come through as they were sent, for every name that may travel and
/// fits its length field.
pub proof fn law_announced_is_read(name: Seq<char>, size: u64, mode: u32)
    requires
        path_error(name) is None,
        vstd::utf8::encode_utf8(name).len() < 0x1_0000,
    ensures
        ({
            let b = entry_bytes(name, size, mode);
            let n = vstd::utf8::encode_utf8(name).len();
            let end = 2 + n as int;
            &&& n > 0
            &&& b.len() == end + 12
            &&& header_next(HeaderModel::Length, b.subrange(0, 2)) == (
                HeaderModel::Name(n as usize),
                Announced::More,
            )
            &&& header_next(HeaderModel::Name(n as usize), b.subrange(2, end)) == (
                HeaderModel::Tail(name),
                Announced::More,
            )
            &&& header_next(HeaderModel::Tail(name), b.subrange(end, end + 12)) == (
                HeaderModel::Length,
                Announced::Entry { name, size, mode },
            )
        }),
{
    let e = vstd::utf8::encode_utf8(name);
    let n = e.len();
    let b = entry_bytes(name, size, mode);
    lemma_pow256();
    lemma_be_bytes(n, 2);
    lemma_be_bytes(size as nat, 8);
    lemma_be_bytes(mode as nat, 4);
    vstd::utf8::encode_utf8_valid_utf8(name);
    vstd::utf8::encode_utf8_decode_utf8(name);
    lemma_encoding_not_empty(name);
    assert(n as usize as nat == n);
    assert(b.subrange(0, 2) =~= be_bytes(n, 2));
    assert(b.subrange(2, 2 + n as int) =~= e);
    let t = b.subrange(2 + n as int, b.len() as int);
    assert(t.subrange(0, 8) =~= be_bytes(size as nat, 8));
    assert(t.subrange(8, 12) =~= be_bytes(mode as nat, 4));
}

/// How many more pieces of an announcement can follow.
pub open spec fn pieces_left(s: HeaderModel) -> nat {
    match s {
        HeaderModel::Length => 2,
        HeaderModel::Name(_) => 1,
        HeaderModel::Tail(_) => 0,
    }
}

/// What reading on from `s` brings, and the bytes that are left then; nothing
/// where the bytes end too early.
pub open spec fn header_read(s: HeaderModel, b: Seq<u8>) -> Option<(Announced, Seq<u8>)>
    decreases pieces_left(s),
{
    let n = bytes_needed(s) as int;
    if b.len() < n {
        None
    } else {
        match header_next(s, b.take(n)) {
            (next, Announced::More) => header_read(next, b.skip(n)),
            (_, a) => Some((a, b.skip(n))),
        }
    }
}

/// What reading `n` announcements one after the other brings, and the bytes
/// that are left then.
pub open spec fn headers_read(b: Seq<u8>, n: nat) -> Option<(Seq<Announced>, Seq<u8>)>
    decreases n,
{
    if n == 0 {
        Some((seq![], b))
    } else {
        match headers_read(b, (n - 1) as nat) {
            Some((got, rest)) => match header_read(HeaderModel::Length, rest) {
                Some((a, left)) => Some((got.push(a), left)),
                None => None,
            },
            None => None,
        }
    }
}

/// Files as they are read.
pub open spec fn announced(v: Seq<SendEntry>) -> Seq<Announced> {
    v.map_values(
        |e: SendEntry| Announced::Entry { name: e.name@, size: e.size, mode: e.mode },
    )
}

/// Whether a name may travel and fits its length field.
pub open spec fn can_travel(name: Seq<char>) -> bool {
    path_error(name) is None && vstd::utf8::encode_utf8(name).len() < 0x1_0000
}

/// The announcement of a file is read back, and exactly its bytes are used up.
pub proof fn law_one_is_read_back(name: Seq<char>, size: u64, mode: u32, rest: Seq<u8>)
    requires
        can_travel(name),
    ensures
        header_read(HeaderModel::Length, entry_bytes(name, size, mode) + rest) == Some(
            (Announced::Entry { name, size, mode }, rest),
        ),
{
    law_announced_is_read(name, size, mode);
    let one = entry_bytes(name, size, mode);
    let n = vstd::utf8::encode_utf8(name).len();
    let end = 2 + n as int;
    let b = one + rest;
    reveal_with_fuel(header_read, 3);
    assert(b.take(2) =~= one.subrange(0, 2));
    let b1 = b.skip(2);
    assert(n as usize as nat == n);
    assert(b1.take(n as int) =~= one.subrange(2, end));
    let b2 = b1.skip(n as int);
    assert(b2.take(12) =~= one.subrange(end, end + 12));
    assert(b2.skip(12) =~= rest);
}

/// What a sender announces is read back: how many files there are, each of them
/// in order, and after the mark that ends the list nothing more. Exactly those
/// bytes are used up.
pub proof fn law_all_are_read_back(v: Seq<SendEntry>, rest: Seq<u8>)
    requires
        forall|i: int| 0 <= i < v.len() ==> can_travel((#[trigger] v[i]).name@),
    ensures
        ({
            let sent = be_bytes(v.len(), 4) + entries_bytes(v);
            &&& v.len() <= u32::MAX ==> be_value(sent.take(4)) == v.len()
            &&& headers_read(sent.skip(4) + rest, v.len()) == Some((announced(v), rest))
            &&& headers_read(sent.skip(4) + be_bytes(0, 2) + rest, v.len() + 1) == Some(
                (announced(v).push(Announced::End), rest),
            )
        }),
{
    let sent = be_bytes(v.len(), 4) + entries_bytes(v);
    lemma_pow256();
    lemma_be_bytes(v.len(), 4);
    assert(sent.take(4) =~= be_bytes(v.len(), 4));
    assert(sent.skip(4) =~= entries_bytes(v));
    lemma_headers_read(v, rest);
    let mark = be_bytes(0, 2);
    lemma_headers_read(v, mark + rest);
    assert(entries_bytes(v) + mark + rest =~= entries_bytes(v) + (mark + rest));
    lemma_end_mark();
    assert((mark + rest).take(2) =~= mark);
    assert((mark + rest).skip(2) =~= rest);
}

proof fn lemma_headers_read(v: Seq<SendEntry>, rest: Seq<u8>)
    requires
        forall|i: int| 0 <= i < v.len() ==> can_travel((#[trigger] v[i]).name@),
    ensures
        headers_read(entries_bytes(v) + rest, v.len()) == Some((announced(v), rest)),
    decreases v.len(),
{
    if v.len() == 0 {
        assert(entries_bytes(v) + rest =~= rest);
        assert(announced(v) =~= seq![]);
    } else {
        let init = v.drop_last();
        let e = v.last();
        let one = entry_bytes(e.name@, e.size, e.mode);
        assert forall|i: int| 0 <= i < init.len() implies can_travel(
            (#[trigger] init[i]).name@,
        ) by {
            assert(init[i] == v[i]);
        }
        lemma_headers_read(init, one + rest);
        assert(entries_bytes(v) + rest =~= entries_bytes(init) + (one + rest));
        law_one_is_read_back(e.name@, e.size, e.mode, rest);
        assert(announced(v) =~= announced(init).push(
            Announced::Entry { name: e.name@, size: e.size, mode: e.mode },
        ));
    }
}

/// A name that may not travel, or that is no text at all, is refused as soon as
/// it was read: what follows it is left.
pub proof fn law_bad_names_are_refused(raw: Seq<u8>, rest: Seq<u8>)
    requires
        0 < raw.len() < 0x1_0000,
    ensures
        ({
            let name = vstd::utf8::decode_utf8(raw);
            let got = header_read(HeaderModel::Length, be_bytes(raw.len(), 2) + raw + rest);
            if !vstd::utf8::valid_utf8(raw) {
                got == Some((Announced::Error(outside::utf8_error(raw)), rest))
            } else {
                path_error(name) matches Some(e) ==> got == Some(
                    (Announced::Error(path_error_text(e, name)), rest),
                )
            }
        }),
{
    let n = raw.len();
    lemma_pow256();
    lemma_be_bytes(n, 2);
    let b = be_bytes(n, 2) + raw + rest;
    reveal_with_fuel(header_read, 3);
    assert(b.take(2) =~= be_bytes(n, 2));
    let b1 = b.skip(2);
    assert(n as usize as nat == n);
    assert(b1.take(n as int) =~= raw);
    assert(b1.skip(n as int) =~= rest);
}

/// A length of zero ends the list.
pub proof fn lemma_end_mark()
    ensures
        header_next(HeaderModel::Length, be_bytes(0, 2)) == (HeaderModel::Length, Announced::End),
        be_bytes(0, 2).len() == 2,
{
    lemma_pow256();
    lemma_be_bytes(0, 2);
}

proof fn lemma_encoding_not_empty(name: Seq<char>)
    requires
        name.len() > 0,
    ensures
        vstd::utf8::encode_utf8(name).len() > 0,
{
    if vstd::utf8::encode_utf8(name).len() == 0 {
        vstd::utf8::encode_utf8_decode_utf8(name);
        assert(vstd::utf8::encode_utf8(name) =~= Seq::<u8>::empty());
        assert(vstd::utf8::decode_utf8(Seq::<u8>::empty()) =~= Seq::<char>::empty());
        assert(name.len() == 0);
    }
}

} // verus!
