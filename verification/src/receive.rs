//! The receiving end of a transfer: what the bytes of the stream amount to,
//! where files are put, and what is said on the way.

use vstd::prelude::*;
use crate::chrome::format_size;
use crate::manifest;
use crate::manifest::{HeaderState, HeaderStep};
use crate::outside;
use crate::paths;
use crate::paths::join_path;
use crate::text;
use crate::text::{cat2, cat3, cat4, cat7, copy, count_text, same};
use crate::transfer::next_chunk;

verus! {

/// How far the stream has been read.
pub enum ReceivePhase {
    /// The announcement of a file, or the end of the list, is next.
    Header(HeaderState),
    /// The contents of a file are next.
    Data { name: String, size: u64, got: u64 },
    Over,
}

/// How far the stream has been read, as a value.
pub enum PhaseModel {
    Header(manifest::HeaderModel),
    Data { name: Seq<char>, size: u64, got: u64 },
    Over,
}

impl View for ReceivePhase {
    type V = PhaseModel;

    open spec fn view(&self) -> PhaseModel {
        match self {
            ReceivePhase::Header(h) => PhaseModel::Header(h@),
            ReceivePhase::Data { name, size, got } => PhaseModel::Data {
                name: name@,
                size: *size,
                got: *got,
            },
            ReceivePhase::Over => PhaseModel::Over,
        }
    }
}

/// A transfer that is being received.
pub struct Receiving {
    pub phase: ReceivePhase,
    /// How many files are complete.
    pub received: u32,
    /// The width of the widest name so far.
    pub name_width: usize,
}

/// A transfer that is being received, as a value.
pub struct ReceiveModel {
    pub phase: PhaseModel,
    pub received: u32,
    pub name_width: nat,
}

impl View for Receiving {
    type V = ReceiveModel;

    open spec fn view(&self) -> ReceiveModel {
        ReceiveModel {
            phase: self.phase@,
            received: self.received,
            name_width: self.name_width as nat,
        }
    }
}

/// What to do with what came.
pub enum ReceiveAction {
    /// A file begins.
    Open { name: String, size: u64, mode: u32 },
    /// These bytes belong to the file that began last.
    Write(Vec<u8>),
    /// That file is complete.
    Commit,
    /// There are no more files.
    End,
    Fail(String),
}

/// What to do with what came, as a value.
pub enum Output {
    Open { name: Seq<char>, size: u64, mode: u32 },
    Write(Seq<u8>),
    Commit,
    End,
    Fail(Seq<char>),
}

impl View for ReceiveAction {
    type V = Output;

    open spec fn view(&self) -> Output {
        match self {
            ReceiveAction::Open { name, size, mode } => Output::Open {
                name: name@,
                size: *size,
                mode: *mode,
            },
            ReceiveAction::Write(b) => Output::Write(b@),
            ReceiveAction::Commit => Output::Commit,
            ReceiveAction::End => Output::End,
            ReceiveAction::Fail(e) => Output::Fail(e@),
        }
    }
}

pub open spec fn outputs(v: Seq<ReceiveAction>) -> Seq<Output> {
    v.map_values(|a: ReceiveAction| a@)
}

/// Before the first file.
pub open spec fn at_start() -> ReceiveModel {
    ReceiveModel {
        phase: PhaseModel::Header(manifest::HeaderModel::Length),
        received: 0,
        name_width: 0,
    }
}

/// A file whose contents are being read is not complete yet.
pub open spec fn unfinished(m: ReceiveModel) -> bool {
    m.phase is Data ==> m.phase->got < m.phase->size
}

/// Whether these bytes can be what was read next: all of what an announcement
/// needs, or some of what is left of a file.
pub open spec fn fits(m: ReceiveModel, b: Seq<u8>) -> bool {
    match m.phase {
        PhaseModel::Header(h) => b.len() == manifest::bytes_needed(h),
        PhaseModel::Data { name, size, got } => 0 < b.len() <= size - got,
        PhaseModel::Over => false,
    }
}

/// One more complete file, as far as they can be counted.
pub open spec fn one_more(n: u32) -> u32 {
    if n < u32::MAX {
        (n + 1) as u32
    } else {
        n
    }
}

/// Where the bytes that were read lead, and what to do with them.
pub open spec fn receive_next(m: ReceiveModel, b: Seq<u8>) -> (ReceiveModel, Seq<Output>) {
    match m.phase {
        PhaseModel::Header(h) => {
            let (next, what) = manifest::header_next(h, b);
            match what {
                manifest::Announced::More => (
                    ReceiveModel { phase: PhaseModel::Header(next), ..m },
                    seq![],
                ),
                manifest::Announced::End => (
                    ReceiveModel { phase: PhaseModel::Over, ..m },
                    seq![Output::End],
                ),
                manifest::Announced::Error(e) => (
                    ReceiveModel { phase: PhaseModel::Over, ..m },
                    seq![Output::Fail(e)],
                ),
                manifest::Announced::Entry { name, size, mode } => {
                    let width = if name.len() > m.name_width {
                        name.len()
                    } else {
                        m.name_width
                    };
                    if size == 0 {
                        (
                            ReceiveModel {
                                phase: PhaseModel::Header(next),
                                received: one_more(m.received),
                                name_width: width,
                            },
                            seq![Output::Open { name, size, mode }, Output::Commit],
                        )
                    } else {
                        (
                            ReceiveModel {
                                phase: PhaseModel::Data { name, size, got: 0 },
                                received: m.received,
                                name_width: width,
                            },
                            seq![Output::Open { name, size, mode }],
                        )
                    }
                },
            }
        },
        PhaseModel::Data { name, size, got } => if got + b.len() >= size {
            (
                ReceiveModel {
                    phase: PhaseModel::Header(manifest::HeaderModel::Length),
                    received: one_more(m.received),
                    name_width: m.name_width,
                },
                seq![Output::Write(b), Output::Commit],
            )
        } else {
            (
                ReceiveModel {
                    phase: PhaseModel::Data { name, size, got: (got + b.len()) as u64 },
                    ..m
                },
                seq![Output::Write(b)],
            )
        },
        PhaseModel::Over => (m, seq![]),
    }
}

/// What is said when the stream breaks off: in the middle of a file that was
/// being put into a directory, how far that file got.
pub open spec fn broken_off(m: ReceiveModel, to_dir: bool, error: Seq<char>) -> Seq<char> {
    match m.phase {
        PhaseModel::Data { name, size, got } => if to_dir {
            interruption(name, got, size, error)
        } else {
            error
        },
        _ => error,
    }
}

impl Receiving {
    /// Before the first file.
    pub fn new() -> (r: Receiving)
        ensures
            r@ == at_start(),
            unfinished(r@),
    {
        Receiving { phase: ReceivePhase::Header(HeaderState::new()), received: 0, name_width: 0 }
    }

    /// How much to read next, with a buffer of the given size for contents.
    pub fn want(&self, buffer: usize) -> (n: usize)
        requires
            unfinished(self@),
        ensures
            match self@.phase {
                PhaseModel::Header(h) => n == manifest::bytes_needed(h),
                PhaseModel::Data { name, size, got } => n == if size - got < buffer {
                    size - got
                } else {
                    buffer as int
                },
                PhaseModel::Over => n == 0,
            },
    {
        match &self.phase {
            ReceivePhase::Header(h) => h.need(),
            ReceivePhase::Data { name, size, got } => next_chunk(*size - *got, buffer),
            ReceivePhase::Over => 0,
        }
    }

    /// Take in what was read.
    pub fn step(&mut self, b: Vec<u8>) -> (actions: Vec<ReceiveAction>)
        requires
            fits(old(self)@, b@),
        ensures
            (final(self)@, outputs(actions@)) == receive_next(old(self)@, b@),
            unfinished(final(self)@),
    {
        let ghost pre = self@;
        let ghost bytes = b@;
        let mut actions: Vec<ReceiveAction> = Vec::new();
        match &mut self.phase {
            ReceivePhase::Header(h) => match h.feed(b) {
                HeaderStep::More => {
                    assert(outputs(actions@) =~= Seq::<Output>::empty());
                },
                HeaderStep::End => {
                    self.phase = ReceivePhase::Over;
                    actions.push(ReceiveAction::End);
                    assert(outputs(actions@) =~= seq![Output::End]);
                },
                HeaderStep::Error(e) => {
                    let ghost said = e@;
                    self.phase = ReceivePhase::Over;
                    actions.push(ReceiveAction::Fail(e));
                    assert(outputs(actions@) =~= seq![Output::Fail(said)]);
                },
                HeaderStep::Entry { name, size, mode } => {
                    let ghost called = name@;
                    let n: usize = name.as_str().unicode_len();
                    if n > self.name_width {
                        self.name_width = n;
                    }
                    let kept = copy(name.as_str());
                    actions.push(ReceiveAction::Open { name, size, mode });
                    if size == 0 {
                        self.complete();
                        actions.push(ReceiveAction::Commit);
                        assert(outputs(actions@) =~= seq![
                            Output::Open { name: called, size, mode },
                            Output::Commit,
                        ]);
                    } else {
                        self.phase = ReceivePhase::Data { name: kept, size, got: 0 };
                        assert(outputs(actions@) =~= seq![
                            Output::Open { name: called, size, mode },
                        ]);
                    }
                },
            },
            ReceivePhase::Data { name, size, got } => {
                let n: u64 = b.len() as u64;
                let total: u64 = *got + n;
                let whole: u64 = *size;
                if total >= whole {
                    self.phase = ReceivePhase::Header(HeaderState::new());
                    self.complete();
                    actions.push(ReceiveAction::Write(b));
                    actions.push(ReceiveAction::Commit);
                    assert(outputs(actions@) =~= seq![Output::Write(bytes), Output::Commit]);
                } else {
                    *got = total;
                    actions.push(ReceiveAction::Write(b));
                    assert(outputs(actions@) =~= seq![Output::Write(bytes)]);
                }
            },
            ReceivePhase::Over => {},
        }
        actions
    }

    /// Count one more complete file.
    fn complete(&mut self)
        ensures
            final(self)@ == (ReceiveModel { received: one_more(old(self)@.received), ..old(self)@ }),
    {
        if self.received < u32::MAX {
            self.received = self.received + 1;
        }
    }

    /// What to say when the stream breaks off.
    pub fn broke_off(&self, to_dir: bool, error: &str) -> (r: String)
        ensures
            r@ == broken_off(self@, to_dir, error@),
    {
        match &self.phase {
            ReceivePhase::Data { name, size, got } => if to_dir {
                interrupted_text(name.as_str(), *got, *size, error)
            } else {
                copy(error)
            },
            _ => copy(error),
        }
    }
}

/// The permissions of a received file.
pub open spec fn kept_mode(mode: u32) -> u32 {
    if mode == 0 {
        420
    } else {
        mode % 4096
    }
}

/// The sender's permissions are kept; what a mode holds besides them, such as
/// the kind of the file, is not, and a file without a mode gets the usual ones.
pub proof fn law_permissions_are_kept(permissions: u32, kind: u32)
    requires
        0 < permissions < 4096,
        kind < 16,
    ensures
        kept_mode(permissions) == permissions,
        kept_mode((kind * 4096 + permissions) as u32) == permissions,
        kept_mode(0) == 0o644,
{
}

/// The permissions of a received file: those of the sender, or the usual ones
/// where it sent none.
pub fn receive_mode(mode: u32) -> (r: u32)
    ensures
        r == kept_mode(mode),
{
    if mode == 0 {
        420
    } else {
        mode % 4096
    }
}

/// A file beside another in the same directory.
pub open spec fn beside(target: Seq<char>, name: Seq<char>) -> Seq<char> {
    match paths::file_name(target) {
        Some(_) => match paths::parent(target) {
            Some(p) => paths::joined(p, name),
            None => name,
        },
        None => paths::joined(target, name),
    }
}

/// The file that is written until all of it is there.
pub open spec fn partial_name(target: Seq<char>) -> Seq<char> {
    "."@ + (match paths::file_name(target) {
        Some(f) => f,
        None => ""@,
    }) + ".gritty-partial"@
}

/// Where a file is written until all of it is there: beside its final place, so
/// that it can be moved there at once.
pub fn tmp_path_for(target: &str) -> (r: String)
    ensures
        r@ == beside(target@, partial_name(target@)),
{
    match paths::file_name_of(target) {
        Some(f) => {
            let name = cat3(".", f.as_str(), ".gritty-partial");
            match paths::parent_of(target) {
                Some(p) => join_path(p.as_str(), name.as_str()),
                None => name,
            }
        },
        None => {
            let name = cat3(".", "", ".gritty-partial");
            join_path(target, name.as_str())
        },
    }
}

/// What is said when a file breaks off.
pub open spec fn interruption(
    name: Seq<char>,
    transferred: u64,
    size: u64,
    error: Seq<char>,
) -> Seq<char> {
    "transfer of "@ + name + " interrupted after "@ + outside::human_size(transferred) + " of "@
        + outside::human_size(size) + (": "@ + error)
}

/// What is said when a file breaks off.
pub fn interrupted_text(name: &str, transferred: u64, size: u64, error: &str) -> (r: String)
    ensures
        r@ == interruption(name@, transferred, size, error@),
{
    let a = format_size(transferred);
    let b = format_size(size);
    let end = cat2(": ", error);
    cat7(
        "transfer of ",
        name,
        " interrupted after ",
        a.as_str(),
        " of ",
        b.as_str(),
        end.as_str(),
    )
}

/// What a receiver asks a session for: files, to be put into this directory.
pub fn receive_request(dest_dir: &str) -> (r: String)
    ensures
        r@ == dest_dir@ + "\n"@,
{
    cat2(dest_dir, "\n")
}

/// How many files are coming, from the four bytes that a transfer begins with.
pub fn file_count(b: &Vec<u8>) -> (r: u32)
    requires
        b@.len() == 4,
    ensures
        r == manifest::be_value(b@),
{
    manifest::read_u32(b)
}

/// What is said of a file that is there already.
pub fn replacing_line(name: &str) -> (r: String)
    ensures
        r@ == "replacing existing "@ + name@,
{
    cat2("replacing existing ", name)
}

/// What is said when the first file arrives.
pub fn receiving_line(file_count: u32) -> (r: String)
    ensures
        r@ == "receiving "@ + text::counted(file_count as nat, "file"@),
{
    cat2("receiving ", count_text(file_count as usize, "file").as_str())
}

/// What is said when all is there, and whether anything came at all.
pub fn received_line(received: u32, dest_dir: &str) -> (r: String)
    ensures
        r@ == if received == 0 {
            "no files received"@
        } else {
            "received "@ + text::counted(received as nat, "file"@) + " into "@ + dest_dir@
        },
{
    if received == 0 {
        return copy("no files received");
    }
    cat4(
        "received ",
        count_text(received as usize, "file").as_str(),
        " into ",
        dest_dir,
    )
}

/// Whether received files go there: to standard output, to a directory if one
/// is named, and whether that is worth a word.
pub open spec fn goes_to(
    stdout_flag: bool,
    dir: Option<Seq<char>>,
    stdout_is_tty: bool,
    r: (bool, Option<Seq<char>>, bool),
) -> bool {
    &&& r.2 == (!stdout_flag && dir is None && !stdout_is_tty)
    &&& r.0 == (stdout_flag || dir == Some("-"@) || r.2)
    &&& r.0 ==> r.1 is None
    &&& !r.0 ==> r.1 == dir
}

/// A directory that is named gets the files, unless standard output is asked
/// for. Without one they go to standard output where that leads anywhere but
/// to a terminal, which is said, and otherwise to the usual place.
pub proof fn law_files_go_where_they_are_wanted(
    stdout_flag: bool,
    dir: Option<Seq<char>>,
    stdout_is_tty: bool,
    r: (bool, Option<Seq<char>>, bool),
)
    requires
        goes_to(stdout_flag, dir, stdout_is_tty, r),
    ensures
        stdout_flag ==> r == (true, None::<Seq<char>>, false),
        !stdout_flag && dir == Some("-"@) ==> r == (true, None::<Seq<char>>, false),
        !stdout_flag && dir is Some && dir != Some("-"@) ==> r == (false, dir, false),
        !stdout_flag && dir is None && stdout_is_tty ==> r == (false, None::<Seq<char>>, false),
        !stdout_flag && dir is None && !stdout_is_tty ==> r == (true, None::<Seq<char>>, true),
{
}

/// A file that is still being received stands in the directory where it will
/// be, under a hidden name of its own.
pub proof fn law_unfinished_files_stand_beside(dir: Seq<char>, name: Seq<char>)
    requires
        name.len() > 0,
        !name.contains('/'),
        name != "."@,
        name != ".."@,
    ensures
        ({
            let target = paths::joined(dir, name);
            let part = beside(target, partial_name(target));
            &&& paths::parent(part) == Some(paths::trimmed(paths::trimmed(dir)))
            &&& paths::file_name(part) == Some("."@ + name + ".gritty-partial"@)
            &&& part != target
        }),
{
    let target = paths::joined(dir, name);
    paths::law_join_then_take_apart(dir, name);
    let hidden = "."@ + name + ".gritty-partial"@;
    reveal_strlit(".");
    reveal_strlit("..");
    reveal_strlit(".gritty-partial");
    assert(!hidden.contains('/')) by {
        if hidden.contains('/') {
            let i = choose|i: int| 0 <= i < hidden.len() && hidden[i] == '/';
            if 1 <= i < 1 + name.len() {
                assert(name[i - 1] == '/');
                assert(name.contains(name[i - 1]));
            }
        }
    }
    assert(hidden.len() > 2);
    paths::law_join_then_take_apart(paths::trimmed(dir), hidden);
    assert(hidden.len() != name.len());
}

/// Where received files go: to standard output if asked for, for a dash, or
/// where nothing is said and the output is redirected; the last is worth a
/// word.
pub fn resolve_receive_output(
    stdout_flag: bool,
    dir: Option<String>,
    stdout_is_tty: bool,
) -> (r: (bool, Option<String>, bool))
    ensures
        goes_to(
            stdout_flag,
            text::owned_view(dir),
            stdout_is_tty,
            (r.0, text::owned_view(r.1), r.2),
        ),
        !r.0 ==> r.1 == dir,
{
    let dash = match &dir {
        Some(d) => same(d.as_str(), "-"),
        None => false,
    };
    let auto = !stdout_flag && dir.is_none() && !stdout_is_tty;
    let use_stdout = stdout_flag || dash || auto;
    if use_stdout {
        (true, None, auto)
    } else {
        (false, dir, auto)
    }
}

/// The directory to receive into: the current one where none is given.
pub fn receive_dir(dir: Option<String>) -> (r: String)
    ensures
        r@ == match dir {
            Some(d) => d@,
            None => "."@,
        },
{
    match dir {
        Some(d) => d,
        None => copy("."),
    }
}

/// What is wrong with the directory to receive into, if anything is.
pub fn receive_dir_error(use_stdout: bool, dest_dir: &str, is_dir: bool) -> (r: Option<String>)
    ensures
        text::owned_view(r) == if !use_stdout && !is_dir {
            Some(dest_dir@ + ": not a directory"@)
        } else {
            None
        },
{
    if !use_stdout && !is_dir {
        Some(cat2(dest_dir, ": not a directory"))
    } else {
        None
    }
}

/// A file with its contents.
pub struct Sent {
    pub name: Seq<char>,
    pub mode: u32,
    pub data: Seq<u8>,
}

/// Whether a file can travel: its name leads nowhere else and fits its length
/// field, and its size can be told.
pub open spec fn can_travel(f: Sent) -> bool {
    &&& manifest::path_error(f.name) is None
    &&& vstd::utf8::encode_utf8(f.name).len() < 0x1_0000
    &&& f.data.len() <= u64::MAX
}

/// How a file stands in the stream.
pub open spec fn framed(f: Sent) -> Seq<u8> {
    manifest::entry_bytes(f.name, f.data.len() as u64, f.mode) + f.data
}

/// How files stand in the stream, one after the other.
pub open spec fn all_framed(files: Seq<Sent>) -> Seq<u8>
    decreases files.len(),
{
    if files.len() == 0 {
        seq![]
    } else {
        all_framed(files.drop_last()) + framed(files.last())
    }
}

/// The whole stream: the files, and the mark that ends them.
pub open spec fn stream(files: Seq<Sent>) -> Seq<u8> {
    all_framed(files) + manifest::be_bytes(0, 2)
}

/// All bytes of several reads.
pub open spec fn joined_reads(reads: Seq<Seq<u8>>) -> Seq<u8>
    decreases reads.len(),
{
    if reads.len() == 0 {
        seq![]
    } else {
        joined_reads(reads.drop_last()) + reads.last()
    }
}

/// Where several reads lead, and what is done with them.
pub open spec fn after_reads(reads: Seq<Seq<u8>>) -> (ReceiveModel, Seq<Output>)
    decreases reads.len(),
{
    if reads.len() == 0 {
        (at_start(), seq![])
    } else {
        let before = after_reads(reads.drop_last());
        let now = receive_next(before.0, reads.last());
        (now.0, before.1 + now.1)
    }
}

/// Whether each of the reads can be what was read next.
pub open spec fn reads_fit(reads: Seq<Seq<u8>>) -> bool
    decreases reads.len(),
{
    reads.len() > 0 ==> {
        &&& reads_fit(reads.drop_last())
        &&& fits(after_reads(reads.drop_last()).0, reads.last())
    }
}

/// The files that come of what is done, and the one that is still open.
pub open spec fn collected(o: Seq<Output>) -> (Seq<Sent>, Option<Sent>)
    decreases o.len(),
{
    if o.len() == 0 {
        (seq![], None)
    } else {
        let (files, open) = collected(o.drop_last());
        match o.last() {
            Output::Open { name, size, mode } => (
                files,
                Some(Sent { name, mode, data: seq![] }),
            ),
            Output::Write(b) => match open {
                Some(f) => (files, Some(Sent { data: f.data + b, ..f })),
                None => (files, None),
            },
            Output::Commit => match open {
                Some(f) => (files.push(f), None),
                None => (files, None),
            },
            Output::End => (files, open),
            Output::Fail(_) => (files, open),
        }
    }
}

/// How far the stream of these files has been read, after `k` complete files.
spec fn midway(files: Seq<Sent>, k: int, m: ReceiveModel, o: Seq<Output>, eaten: Seq<u8>) -> bool {
    let f = files[k];
    let n = vstd::utf8::encode_utf8(f.name).len() as int;
    let head = manifest::entry_bytes(f.name, f.data.len() as u64, f.mode);
    let done = all_framed(files.take(k));
    match m.phase {
        PhaseModel::Header(h) => {
            &&& 0 <= k <= files.len()
            &&& collected(o) == (files.take(k), None::<Sent>)
            &&& match h {
                manifest::HeaderModel::Length => eaten == done,
                manifest::HeaderModel::Name(l) => {
                    &&& k < files.len()
                    &&& l == n
                    &&& eaten == done + head.subrange(0, 2)
                },
                manifest::HeaderModel::Tail(name) => {
                    &&& k < files.len()
                    &&& name == f.name
                    &&& eaten == done + head.subrange(0, 2 + n)
                },
            }
        },
        PhaseModel::Data { name, size, got } => {
            &&& 0 <= k < files.len()
            &&& name == f.name
            &&& size == f.data.len()
            &&& got < size
            &&& eaten == done + head + f.data.take(got as int)
            &&& collected(o).0 == files.take(k)
            &&& collected(o).1 == Some(
                Sent { name: f.name, mode: f.mode, data: f.data.take(got as int) },
            )
        },
        PhaseModel::Over => {
            &&& k == files.len()
            &&& eaten == stream(files)
            &&& collected(o) == (files, None::<Sent>)
            &&& o.len() > 0
            &&& o.last() == Output::End
        },
    }
}

/// The stream from the `k`-th file on.
proof fn lemma_stream_at(files: Seq<Sent>, k: int)
    requires
        0 <= k < files.len(),
    ensures
        (all_framed(files.take(k)) + framed(files[k])).is_prefix_of(stream(files)),
        all_framed(files.take(k + 1)) == all_framed(files.take(k)) + framed(files[k]),
    decreases files.len() - k,
{
    assert(files.take(k + 1).drop_last() =~= files.take(k));
    assert(files.take(k + 1).last() == files[k]);
    let one = all_framed(files.take(k + 1));
    if k + 1 < files.len() {
        lemma_stream_at(files, k + 1);
        let two = one + framed(files[k + 1]);
        assert(one.is_prefix_of(two)) by {
            assert(two.subrange(0, one.len() as int) =~= one);
        }
        assert(stream(files).subrange(0, one.len() as int) =~= two.subrange(0, one.len() as int));
    } else {
        assert(files.take(k + 1) =~= files);
        assert(stream(files).subrange(0, one.len() as int) =~= one);
    }
}

/// Bytes that lead on along a longer sequence are the ones that stand there.
proof fn lemma_next_bytes(whole: Seq<u8>, eaten: Seq<u8>, b: Seq<u8>, upto: Seq<u8>)
    requires
        (eaten + b).is_prefix_of(whole),
        upto.is_prefix_of(whole),
        eaten.len() + b.len() <= upto.len(),
    ensures
        b == upto.subrange(eaten.len() as int, eaten.len() as int + b.len()),
{
    let e = eaten + b;
    assert forall|i: int| 0 <= i < b.len() implies b[i] == upto[eaten.len() + i] by {
        assert(e[eaten.len() + i] == b[i]);
        assert(whole.subrange(0, e.len() as int)[eaten.len() + i] == whole[eaten.len() + i]);
        assert(whole.subrange(0, upto.len() as int)[eaten.len() + i] == whole[eaten.len() + i]);
    }
    assert(b =~= upto.subrange(eaten.len() as int, eaten.len() as int + b.len()));
}

proof fn lemma_collect_one(o: Seq<Output>, x: Output)
    ensures
        (o + seq![x]).drop_last() == o,
        (o + seq![x]).last() == x,
{
    assert((o + seq![x]).drop_last() =~= o);
}

/// Reading goes on along the stream.
proof fn lemma_read_on(
    files: Seq<Sent>,
    k: int,
    m: ReceiveModel,
    o: Seq<Output>,
    eaten: Seq<u8>,
    b: Seq<u8>,
) -> (k2: int)
    requires
        forall|i: int| 0 <= i < files.len() ==> can_travel(#[trigger] files[i]),
        midway(files, k, m, o, eaten),
        fits(m, b),
        (eaten + b).is_prefix_of(stream(files)),
    ensures
        midway(
            files,
            k2,
            receive_next(m, b).0,
            o + receive_next(m, b).1,
            eaten + b,
        ),
{
    if k == files.len() {
        lemma_read_end(files, k, m, o, eaten, b)
    } else {
        match m.phase {
            PhaseModel::Header(h) => match h {
                manifest::HeaderModel::Tail(_) => lemma_read_tail(files, k, m, o, eaten, b),
                _ => lemma_read_head(files, k, m, o, eaten, b),
            },
            _ => lemma_read_data(files, k, m, o, eaten, b),
        }
    }
}

proof fn lemma_read_end(
    files: Seq<Sent>,
    k: int,
    m: ReceiveModel,
    o: Seq<Output>,
    eaten: Seq<u8>,
    b: Seq<u8>,
) -> (k2: int)
    requires
        forall|i: int| 0 <= i < files.len() ==> can_travel(#[trigger] files[i]),
        midway(files, k, m, o, eaten),
        fits(m, b),
        (eaten + b).is_prefix_of(stream(files)),
        k == files.len(),
    ensures
        midway(
            files,
            k2,
            receive_next(m, b).0,
            o + receive_next(m, b).1,
            eaten + b,
        ),
{
    let whole = stream(files);
    assert(files.take(k) =~= files);
    assert(whole.is_prefix_of(whole)) by {
        assert(whole.subrange(0, whole.len() as int) =~= whole);
    }
    manifest::lemma_end_mark();
    lemma_next_bytes(whole, eaten, b, whole);
    assert(b =~= manifest::be_bytes(0, 2));
    lemma_collect_one(o, Output::End);
    assert(eaten + b =~= whole);
    k
}

proof fn lemma_read_head(
    files: Seq<Sent>,
    k: int,
    m: ReceiveModel,
    o: Seq<Output>,
    eaten: Seq<u8>,
    b: Seq<u8>,
) -> (k2: int)
    requires
        forall|i: int| 0 <= i < files.len() ==> can_travel(#[trigger] files[i]),
        midway(files, k, m, o, eaten),
        fits(m, b),
        (eaten + b).is_prefix_of(stream(files)),
        k < files.len(),
        m.phase is Header,
        m.phase->Header_0 !is Tail,
    ensures
        midway(
            files,
            k2,
            receive_next(m, b).0,
            o + receive_next(m, b).1,
            eaten + b,
        ),
{
    let whole = stream(files);
    let next = receive_next(m, b);
    let done = all_framed(files.take(k));
    let f = files[k];
    let size = f.data.len() as u64;
    let n = vstd::utf8::encode_utf8(f.name).len() as int;
    let head = manifest::entry_bytes(f.name, size, f.mode);
    let upto = done + framed(f);
    lemma_stream_at(files, k);
    assert(can_travel(f));
    manifest::law_announced_is_read(f.name, size, f.mode);
    lemma_next_bytes(whole, eaten, b, upto);
    match m.phase->Header_0 {
        manifest::HeaderModel::Length => {
            assert(b =~= head.subrange(0, 2));
        },
        _ => {
            assert(b =~= head.subrange(2, 2 + n));
            assert(eaten + b =~= done + head.subrange(0, 2 + n));
        },
    }
    assert(o + next.1 =~= o);
    k
}

proof fn lemma_read_tail(
    files: Seq<Sent>,
    k: int,
    m: ReceiveModel,
    o: Seq<Output>,
    eaten: Seq<u8>,
    b: Seq<u8>,
) -> (k2: int)
    requires
        forall|i: int| 0 <= i < files.len() ==> can_travel(#[trigger] files[i]),
        midway(files, k, m, o, eaten),
        fits(m, b),
        (eaten + b).is_prefix_of(stream(files)),
        k < files.len(),
        m.phase is Header,
        m.phase->Header_0 is Tail,
    ensures
        midway(
            files,
            k2,
            receive_next(m, b).0,
            o + receive_next(m, b).1,
            eaten + b,
        ),
{
    let whole = stream(files);
    let next = receive_next(m, b);
    let done = all_framed(files.take(k));
    let f = files[k];
    let size = f.data.len() as u64;
    let n = vstd::utf8::encode_utf8(f.name).len() as int;
    let head = manifest::entry_bytes(f.name, size, f.mode);
    let upto = done + framed(f);
    lemma_stream_at(files, k);
    assert(can_travel(f));
    manifest::law_announced_is_read(f.name, size, f.mode);
    lemma_next_bytes(whole, eaten, b, upto);
    assert(b =~= head.subrange(2 + n, 2 + n + 12));
    assert(eaten + b =~= done + head);
    let open = Output::Open { name: f.name, size, mode: f.mode };
    lemma_collect_one(o, open);
    let begun = o + seq![open];
    if size == 0 {
        lemma_collect_one(begun, Output::Commit);
        assert(o + next.1 =~= begun + seq![Output::Commit]);
        assert(f.data =~= Seq::<u8>::empty());
        assert(files.take(k + 1) =~= files.take(k).push(f));
        assert(framed(f) =~= head);
        k + 1
    } else {
        assert(o + next.1 =~= begun);
        assert(f.data.take(0) =~= Seq::<u8>::empty());
        assert(eaten + b =~= done + head + f.data.take(0));
        k
    }
}

/// More contents of a file follow those that were read.
proof fn lemma_data_bytes(
    whole: Seq<u8>,
    done: Seq<u8>,
    head: Seq<u8>,
    data: Seq<u8>,
    got: int,
    b: Seq<u8>,
)
    requires
        0 <= got,
        got + b.len() <= data.len(),
        (done + (head + data)).is_prefix_of(whole),
        (done + head + data.take(got) + b).is_prefix_of(whole),
    ensures
        data.take(got) + b == data.take(got + b.len()),
        done + head + data.take(got) + b == done + head + data.take(got + b.len()),
        got + b.len() == data.len() ==> done + head + data.take(got) + b == done + (head + data),
{
    let eaten = done + head + data.take(got);
    lemma_next_bytes(whole, eaten, b, done + (head + data));
    assert(b =~= data.subrange(got, got + b.len()));
    assert(data.take(got) + b =~= data.take(got + b.len()));
    assert(eaten + b =~= done + head + data.take(got + b.len()));
    if got + b.len() == data.len() {
        assert(data.take(got + b.len()) =~= data);
        assert(done + head + data =~= done + (head + data));
    }
}

proof fn lemma_read_data(
    files: Seq<Sent>,
    k: int,
    m: ReceiveModel,
    o: Seq<Output>,
    eaten: Seq<u8>,
    b: Seq<u8>,
) -> (k2: int)
    requires
        forall|i: int| 0 <= i < files.len() ==> can_travel(#[trigger] files[i]),
        midway(files, k, m, o, eaten),
        fits(m, b),
        (eaten + b).is_prefix_of(stream(files)),
        k < files.len(),
        m.phase is Data,
    ensures
        midway(
            files,
            k2,
            receive_next(m, b).0,
            o + receive_next(m, b).1,
            eaten + b,
        ),
{
    let whole = stream(files);
    let next = receive_next(m, b);
    let done = all_framed(files.take(k));
    let f = files[k];
    let all = f.data.len();
    let got = m.phase->got;
    let head = manifest::entry_bytes(f.name, all as u64, f.mode);
    lemma_stream_at(files, k);
    lemma_data_bytes(whole, done, head, f.data, got as int, b);
    let now = f.data.take(got + b.len());
    lemma_collect_one(o, Output::Write(b));
    let written = o + seq![Output::Write(b)];
    assert(collected(written).0 == files.take(k));
    assert(collected(written).1 == Some(Sent { name: f.name, mode: f.mode, data: now }));
    assert(eaten + b == done + head + now);
    if got + b.len() >= all {
        lemma_collect_one(written, Output::Commit);
        assert(o + next.1 =~= written + seq![Output::Commit]);
        assert(now =~= f.data);
        assert(files.take(k + 1) =~= files.take(k).push(f));
        assert(collected(o + next.1) == (files.take(k + 1), None::<Sent>));
        assert(eaten + b == all_framed(files.take(k + 1)));
        k + 1
    } else {
        assert(o + next.1 =~= written);
        k
    }
}

proof fn lemma_reads_lead(files: Seq<Sent>, reads: Seq<Seq<u8>>) -> (k: int)
    requires
        forall|i: int| 0 <= i < files.len() ==> can_travel(#[trigger] files[i]),
        reads_fit(reads),
        joined_reads(reads).is_prefix_of(stream(files)),
    ensures
        midway(files, k, after_reads(reads).0, after_reads(reads).1, joined_reads(reads)),
    decreases reads.len(),
{
    if reads.len() == 0 {
        assert(files.take(0) =~= Seq::<Sent>::empty());
        assert(all_framed(files.take(0)) =~= Seq::<u8>::empty());
        0
    } else {
        let some = joined_reads(reads.drop_last());
        let all = joined_reads(reads);
        let whole = stream(files);
        assert(some.is_prefix_of(whole)) by {
            assert(all.subrange(0, some.len() as int) =~= some);
            assert(whole.subrange(0, some.len() as int) =~= whole.subrange(
                0,
                all.len() as int,
            ).subrange(0, some.len() as int));
        }
        let k = lemma_reads_lead(files, reads.drop_last());
        let before = after_reads(reads.drop_last());
        lemma_read_on(files, k, before.0, before.1, some, reads.last())
    }
}

/// What is sent is what is received: however the stream of some files is cut
/// into reads, the receiver ends up with exactly these files, under their names
/// and with their modes and contents, and knows that it is done.
pub proof fn law_what_is_sent_is_received(files: Seq<Sent>, reads: Seq<Seq<u8>>)
    requires
        forall|i: int| 0 <= i < files.len() ==> can_travel(#[trigger] files[i]),
        reads_fit(reads),
        joined_reads(reads) == stream(files),
    ensures
        collected(after_reads(reads).1) == (files, None::<Sent>),
        after_reads(reads).0.phase is Over,
        after_reads(reads).1.last() == Output::End,
{
    let whole = stream(files);
    assert(whole.is_prefix_of(whole)) by {
        assert(whole.subrange(0, whole.len() as int) =~= whole);
    }
    let k = lemma_reads_lead(files, reads);
    let m = after_reads(reads).0;
    manifest::lemma_end_mark();
    if m.phase !is Over {
        if k < files.len() {
            lemma_stream_at(files, k);
            assert(can_travel(files[k]));
            let f = files[k];
            manifest::law_announced_is_read(f.name, f.data.len() as u64, f.mode);
            let upto = all_framed(files.take(k)) + framed(f);
            assert(joined_reads(reads).len() <= upto.len());
            lemma_shorter(files, k);
        } else {
            assert(files.take(k) =~= files);
        }
        assert(false);
    }
}

/// The mark that ends the files comes after all of them.
proof fn lemma_shorter(files: Seq<Sent>, k: int)
    requires
        0 <= k < files.len(),
    ensures
        (all_framed(files.take(k)) + framed(files[k])).len() < stream(files).len(),
    decreases files.len() - k,
{
    manifest::lemma_end_mark();
    lemma_stream_at(files, k);
    if k + 1 < files.len() {
        lemma_shorter(files, k + 1);
    } else {
        assert(files.take(k + 1) =~= files);
    }
}

/// What is written before the stream breaks off is the beginning of what was
/// sent: complete files are the first ones, and the open one is a beginning of
/// the next.
pub proof fn law_broken_stream_is_a_beginning(files: Seq<Sent>, reads: Seq<Seq<u8>>)
    requires
        forall|i: int| 0 <= i < files.len() ==> can_travel(#[trigger] files[i]),
        reads_fit(reads),
        joined_reads(reads).is_prefix_of(stream(files)),
    ensures
        ({
            let (got, open) = collected(after_reads(reads).1);
            &&& got.is_prefix_of(files)
            &&& open is Some ==> {
                &&& got.len() < files.len()
                &&& open->0.name == files[got.len() as int].name
                &&& open->0.mode == files[got.len() as int].mode
                &&& open->0.data.is_prefix_of(files[got.len() as int].data)
            }
        }),
{
    let k = lemma_reads_lead(files, reads);
    let (got, open) = collected(after_reads(reads).1);
    assert(files.subrange(0, k) =~= files.take(k));
    if after_reads(reads).0.phase is Over {
        assert(files.subrange(0, files.len() as int) =~= files);
    }
    if open is Some {
        let f = files[k];
        let d = open->0.data;
        assert(f.data.subrange(0, d.len() as int) =~= d);
    }
}

} // verus!
