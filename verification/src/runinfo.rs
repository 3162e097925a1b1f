//! Whether a process that has been running for long still runs the program
//! that is on disk.

use vstd::prelude::*;
use crate::text;
use crate::text::{cat2, cat4, copy, decimal_text, same, trim};

verus! {

/// What a process records about the program that it runs.
pub struct RunInfo {
    pub protocol: u16,
    pub git_hash: String,
}

/// How a running process differs from the program on disk.
#[derive(Debug, PartialEq, Eq)]
pub enum Staleness {
    /// It speaks another protocol.
    Protocol { running: u16, on_disk: u16 },
    /// It speaks the same protocol but is another build.
    Build { build: String, disk_build: String },
}

/// How a running process differs, as a value.
pub enum Difference {
    Protocol { running: u16, on_disk: u16 },
    Build { build: Seq<char>, disk_build: Seq<char> },
}

impl View for Staleness {
    type V = Difference;

    open spec fn view(&self) -> Difference {
        match self {
            Staleness::Protocol { running, on_disk } => Difference::Protocol {
                running: *running,
                on_disk: *on_disk,
            },
            Staleness::Build { build, disk_build } => Difference::Build {
                build: build@,
                disk_build: disk_build@,
            },
        }
    }
}

/// How what runs differs from what is on disk: the protocol counts first.
pub open spec fn difference(running: RunInfo, on_disk: RunInfo) -> Option<Difference> {
    if running.protocol != on_disk.protocol {
        Some(Difference::Protocol { running: running.protocol, on_disk: on_disk.protocol })
    } else if running.git_hash@ != on_disk.git_hash@ {
        Some(Difference::Build { build: running.git_hash@, disk_build: on_disk.git_hash@ })
    } else {
        None
    }
}

pub open spec fn staleness_view(s: Option<Staleness>) -> Option<Difference> {
    match s {
        Some(d) => Some(d@),
        None => None,
    }
}

/// What a build is called: the commit it was made from, marked where the
/// sources differ from it, or the version where no commit is known.
pub open spec fn build_name(commit: Option<Seq<char>>, dirty: bool, version: Seq<char>) -> Seq<
    char,
> {
    match commit {
        Some(c) if text::trimmed(c).len() > 0 => if dirty {
            text::trimmed(c) + "-dirty"@
        } else {
            text::trimmed(c)
        },
        _ => "v"@ + version,
    }
}

/// What a build is called. Two builds of the same protocol can be told apart by
/// it.
pub fn build_id(commit: Option<&str>, dirty: bool, version: &str) -> (r: String)
    ensures
        r@ == build_name(text::str_view(commit), dirty, version@),
{
    match commit {
        Some(c) => {
            let hash = trim(c);
            if hash.as_str().unicode_len() == 0 {
                cat2("v", version)
            } else if dirty {
                cat2(hash.as_str(), "-dirty")
            } else {
                hash
            }
        },
        None => cat2("v", version),
    }
}

impl RunInfo {
    /// How this process differs from the program on disk.
    pub fn staleness_vs(&self, on_disk: &RunInfo) -> (r: Option<Staleness>)
        ensures
            staleness_view(r) == difference(*self, *on_disk),
    {
        if self.protocol != on_disk.protocol {
            Some(Staleness::Protocol { running: self.protocol, on_disk: on_disk.protocol })
        } else if !same(self.git_hash.as_str(), on_disk.git_hash.as_str()) {
            Some(
                Staleness::Build {
                    build: copy(self.git_hash.as_str()),
                    disk_build: copy(on_disk.git_hash.as_str()),
                },
            )
        } else {
            None
        }
    }
}

pub open spec fn difference_text(d: Difference) -> Seq<char> {
    match d {
        Difference::Protocol { running, on_disk } => "running protocol v"@ + text::decimal(
            running as nat,
        ) + ", binary on disk speaks v"@ + text::decimal(on_disk as nat),
        Difference::Build { build, disk_build } => "running build "@ + build
            + ", binary on disk is "@ + disk_build,
    }
}

impl Staleness {
    /// The difference in words.
    pub fn message(&self) -> (r: String)
        ensures
            r@ == difference_text(self@),
    {
        match self {
            Staleness::Protocol { running, on_disk } => cat4(
                "running protocol v",
                decimal_text(*running as u64).as_str(),
                ", binary on disk speaks v",
                decimal_text(*on_disk as u64).as_str(),
            ),
            Staleness::Build { build, disk_build } => cat4(
                "running build ",
                build.as_str(),
                ", binary on disk is ",
                disk_build.as_str(),
            ),
        }
    }
}

/// A process is up to date exactly where protocol and build are those on disk;
/// where they are not, the difference that is told is the real one, with the
/// protocol before the build.
pub proof fn law_any_difference_is_told(running: RunInfo, on_disk: RunInfo)
    ensures
        difference(running, on_disk) is None <==> running.protocol == on_disk.protocol
            && running.git_hash@ == on_disk.git_hash@,
        difference(running, on_disk) is None <==> difference(on_disk, running) is None,
        difference(running, on_disk) matches Some(Difference::Protocol { running: r, on_disk: d })
            ==> r == running.protocol && d == on_disk.protocol && r != d,
        difference(running, on_disk) matches Some(Difference::Build { build, disk_build }) ==> build
            == running.git_hash@ && disk_build == on_disk.git_hash@ && build != disk_build,
        running.protocol != on_disk.protocol ==> difference(running, on_disk) matches Some(
            Difference::Protocol { .. },
        ),
{
}

/// Builds of different commits have different names, and so do a commit and
/// what was changed on top of it.
pub proof fn law_builds_can_be_told_apart(
    a: Seq<char>,
    b: Seq<char>,
    dirty: bool,
    version: Seq<char>,
)
    requires
        text::trimmed(a).len() > 0,
        text::trimmed(b).len() > 0,
    ensures
        build_name(Some(a), dirty, version) == build_name(Some(b), dirty, version) <==>
            text::trimmed(a) == text::trimmed(b),
        build_name(Some(a), true, version) != build_name(Some(a), false, version),
        text::trimmed(a).is_prefix_of(build_name(Some(a), dirty, version)),
        version.is_suffix_of(build_name(None, dirty, version)),
{
    reveal_strlit("-dirty");
    reveal_strlit("v");
    let x = text::trimmed(a);
    let y = text::trimmed(b);
    let d = "-dirty"@;
    assert((x + d).take(x.len() as int) =~= x);
    assert((y + d).take(y.len() as int) =~= y);
    assert((x + d).len() == x.len() + 6);
    assert((y + d).len() == y.len() + 6);
    assert((x + d).subrange(0, x.len() as int) =~= x);
    assert(x.subrange(0, x.len() as int) =~= x);
    assert(("v"@ + version).subrange(1, ("v"@ + version).len() as int) =~= version);
}

} // verus!
