//! Filesystem paths as a root text plus component names, and what a probe of the
//! filesystem reported about them.

use vstd::prelude::*;
use vstd::string::*;
use crate::text::{chars_of, push_chars, string_of};

verus! {

/// A path as the platform spells it: the root (`/`, `C:\`, or empty for a relative
/// path), the names below it, and the platform's separator.
#[derive(Debug, Clone)]
pub struct NativePath {
    pub root: String,
    pub parts: Vec<String>,
    pub sep: char,
}

/// The mathematical value of a `NativePath`.
pub struct PathView {
    pub root: Seq<char>,
    pub parts: Seq<Seq<char>>,
    pub sep: char,
}

impl View for NativePath {
    type V = PathView;

    open spec fn view(&self) -> PathView {
        PathView { root: self.root@, parts: self.parts@.map_values(|s: String| s@), sep: self.sep }
    }
}

impl PathView {
    /// `Path::join` with one relative name.
    pub open spec fn join(self, name: Seq<char>) -> PathView {
        PathView { root: self.root, parts: self.parts.push(name), sep: self.sep }
    }

    /// `Path::join` with a name that may itself be rooted: a name that starts with
    /// the separator replaces the path, any other name is appended.
    pub open spec fn join_path(self, name: Seq<char>) -> PathView {
        if name.len() > 0 && name[0] == self.sep {
            PathView { root: Seq::empty(), parts: seq![name], sep: self.sep }
        } else {
            self.join(name)
        }
    }

    /// `Path::parent`: the path without its last name; none for a bare root.
    pub open spec fn parent(self) -> Option<PathView> {
        if self.parts.len() == 0 {
            None
        } else {
            Some(PathView { root: self.root, parts: self.parts.drop_last(), sep: self.sep })
        }
    }

    /// The text of the path (`Path::to_string_lossy`).
    pub open spec fn text(self) -> Seq<char> {
        self.root + names_text(self.parts, self.sep)
    }
}

/// Names joined by the separator.
pub open spec fn names_text(parts: Seq<Seq<char>>, sep: char) -> Seq<char>
    decreases parts.len(),
{
    if parts.len() == 0 {
        Seq::empty()
    } else if parts.len() == 1 {
        parts[0]
    } else {
        names_text(parts.drop_last(), sep) + seq![sep] + parts.last()
    }
}

impl NativePath {
    /// `Path::join` with one relative name.
    pub fn join(&self, name: &str) -> (r: NativePath)
        ensures
            r@ == self@.join(name@),
    {
        let mut parts = self.parts.clone();
        parts.push(String::from_str(name));
        proof {
            assert(parts@.map_values(|s: String| s@) =~= self.parts@.map_values(|s: String| s@).push(name@));
        }
        NativePath { root: self.root.clone(), parts, sep: self.sep }
    }

    /// `Path::join` with a name that may itself be rooted (see `PathView::join_path`).
    pub fn join_path(&self, name: String) -> (r: NativePath)
        ensures
            r@ == self@.join_path(name@),
    {
        let ghost n = name@;
        let c = chars_of(name.as_str());
        if c.len() > 0 && c[0] == self.sep {
            let mut parts: Vec<String> = Vec::new();
            parts.push(name);
            proof {
                assert(parts@.map_values(|s: String| s@) =~= seq![n]);
            }
            return NativePath { root: String::new(), parts, sep: self.sep };
        }
        let mut parts = self.parts.clone();
        parts.push(name);
        proof {
            assert(parts@.map_values(|s: String| s@) =~= self.parts@.map_values(|s: String| s@).push(n));
        }
        NativePath { root: self.root.clone(), parts, sep: self.sep }
    }

    /// A copy of this path.
    pub fn duplicate(&self) -> (r: NativePath)
        ensures
            r@ == self@,
    {
        NativePath { root: self.root.clone(), parts: self.parts.clone(), sep: self.sep }
    }

    /// `Path::parent`.
    pub fn parent(&self) -> (r: Option<NativePath>)
        ensures
            match r {
                Some(p) => self@.parent() == Some(p@),
                None => self@.parent() is None,
            },
    {
        if self.parts.len() == 0 {
            return None;
        }
        let mut parts = self.parts.clone();
        parts.pop();
        proof {
            assert(parts@.map_values(|s: String| s@) =~= self.parts@.map_values(|s: String| s@).drop_last());
        }
        Some(NativePath { root: self.root.clone(), parts, sep: self.sep })
    }

    /// The text of the path (`Path::to_string_lossy`).
    pub fn text(&self) -> (r: String)
        ensures
            r@ == self@.text(),
    {
        let mut out = chars_of(self.root.as_str());
        let mut i: usize = 0;
        while i < self.parts.len()
            invariant
                i <= self.parts.len(),
                out@ == self.root@ + names_text(self.parts@.map_values(|s: String| s@).subrange(0, i as int), self.sep),
            decreases self.parts.len() - i,
        {
            let ghost names = self.parts@.map_values(|s: String| s@);
            proof {
                assert(names.subrange(0, i + 1).drop_last() =~= names.subrange(0, i as int));
            }
            if i > 0 {
                out.push(self.sep);
            }
            push_chars(&mut out, &chars_of(self.parts[i].as_str()));
            proof {
                if i == 0 {
                    assert(names.subrange(0, 1) =~= seq![names[0]]);
                }
            }
            i += 1;
        }
        proof {
            assert(self.parts@.map_values(|s: String| s@).subrange(0, self.parts.len() as int)
                =~= self.parts@.map_values(|s: String| s@));
        }
        string_of(&out)
    }
}

/// What a filesystem probe reports for a path (`std::fs::metadata`).
#[derive(Debug, Clone, Copy, PartialEq, Eq, Structural)]
pub enum EntryKind {
    /// Nothing there, or it cannot be read.
    Missing,
    /// A regular file (`Path::is_file`).
    File,
    /// A directory (`Path::is_dir`).
    Dir,
    /// Something else.
    Other,
}

/// Some call of `probe` on a path spelled `v` answered `k`.
pub open spec fn seen<P: Fn(&NativePath) -> EntryKind>(probe: P, v: PathView, k: EntryKind) -> bool {
    exists|p: NativePath| #![trigger call_ensures(probe, (&p,), k)] p@ == v && call_ensures(probe, (&p,), k)
}

/// Every answer the probe gives for a path spelled `v` is `disk(v)`: the file system
/// does not change between calls.
pub open spec fn fixed_disk<P: Fn(&NativePath) -> EntryKind>(probe: P, disk: spec_fn(PathView) -> EntryKind) -> bool {
    forall|p: NativePath, k: EntryKind| #[trigger] call_ensures(probe, (&p,), k) ==> k == disk(p@)
}

/// On a file system that does not change, whatever a probe showed at `v` is `disk(v)`.
pub proof fn lemma_fixed_disk_seen<P: Fn(&NativePath) -> EntryKind>(
    probe: P,
    disk: spec_fn(PathView) -> EntryKind,
    v: PathView,
    k: EntryKind,
)
    requires
        fixed_disk(probe, disk),
        seen(probe, v, k),
    ensures
        k == disk(v),
{
    let p = choose|p: NativePath| p@ == v && call_ensures(probe, (&p,), k);
    assert(call_ensures(probe, (&p,), k));
}

/// A probe found a regular file at `v`.
pub open spec fn file_seen<P: Fn(&NativePath) -> EntryKind>(probe: P, v: PathView) -> bool {
    seen(probe, v, EntryKind::File)
}

/// A probe found something other than a regular file at `v`.
pub open spec fn no_file_seen<P: Fn(&NativePath) -> EntryKind>(probe: P, v: PathView) -> bool {
    ||| seen(probe, v, EntryKind::Missing)
    ||| seen(probe, v, EntryKind::Dir)
    ||| seen(probe, v, EntryKind::Other)
}

/// A probe found a directory at `v`.
pub open spec fn dir_seen<P: Fn(&NativePath) -> EntryKind>(probe: P, v: PathView) -> bool {
    seen(probe, v, EntryKind::Dir)
}

/// A probe found something other than a directory at `v`.
pub open spec fn no_dir_seen<P: Fn(&NativePath) -> EntryKind>(probe: P, v: PathView) -> bool {
    ||| seen(probe, v, EntryKind::Missing)
    ||| seen(probe, v, EntryKind::File)
    ||| seen(probe, v, EntryKind::Other)
}

/// Probes `p` and reports whether it is a regular file (`Path::is_file`).
pub fn is_file<P: Fn(&NativePath) -> EntryKind>(p: &NativePath, probe: &P) -> (r: bool)
    requires
        forall|q: &NativePath| probe.requires((q,)),
    ensures
        r ==> file_seen(*probe, p@),
        !r ==> no_file_seen(*probe, p@),
{
    let k = probe(p);
    match k {
        EntryKind::File => {
            assert(call_ensures(*probe, (p,), EntryKind::File));
            true
        },
        EntryKind::Missing => {
            assert(call_ensures(*probe, (p,), EntryKind::Missing));
            false
        },
        EntryKind::Dir => {
            assert(call_ensures(*probe, (p,), EntryKind::Dir));
            false
        },
        EntryKind::Other => {
            assert(call_ensures(*probe, (p,), EntryKind::Other));
            false
        },
    }
}

/// Probes `p` and reports whether it is a directory (`Path::is_dir`).
pub fn is_dir<P: Fn(&NativePath) -> EntryKind>(p: &NativePath, probe: &P) -> (r: bool)
    requires
        forall|q: &NativePath| probe.requires((q,)),
    ensures
        r ==> dir_seen(*probe, p@),
        !r ==> no_dir_seen(*probe, p@),
{
    let k = probe(p);
    match k {
        EntryKind::Dir => {
            assert(call_ensures(*probe, (p,), EntryKind::Dir));
            true
        },
        EntryKind::Missing => {
            assert(call_ensures(*probe, (p,), EntryKind::Missing));
            false
        },
        EntryKind::File => {
            assert(call_ensures(*probe, (p,), EntryKind::File));
            false
        },
        EntryKind::Other => {
            assert(call_ensures(*probe, (p,), EntryKind::Other));
            false
        },
    }
}

} // verus!
