//! Paths: joining a request path to the served root, and keeping what comes
//! back from the file system inside that root.

use vstd::prelude::*;
use vstd::string::StringSliceAdditionalSpecFns;
use crate::bytes::{starts_with, has_prefix, bytes_eq, append, to_vec};
use crate::error::ErrorKind;
use crate::request::SLASH;

verus! {

/// The dot before a file name's extension.
pub const DOT: u8 = 46;

/// Whether the canonical path `p` is `root` itself or lies below it. The
/// paths are compared component by component: `/srv/www2` is not within
/// `/srv/www`.
pub open spec fn within(root: Seq<u8>, p: Seq<u8>) -> bool {
    p == root || (starts_with(p, root) && p.len() > root.len() && ((root.len() > 0 && root.last()
        == SLASH) || p[root.len() as int] == SLASH))
}

/// Tests whether the canonical path `p` is `root` or lies below it.
pub fn is_within(root: &[u8], p: &[u8]) -> (r: bool)
    ensures
        r == within(root@, p@),
{
    if bytes_eq(root, p) {
        return true;
    }
    if !has_prefix(p, root) || p.len() <= root.len() {
        return false;
    }
    (root.len() > 0 && root[root.len() - 1] == SLASH) || p[root.len()] == SLASH
}

/// `target_path` below `root`: the path without its one leading slash,
/// appended to the root after a single slash.
pub open spec fn joined(root: Seq<u8>, target_path: Seq<u8>) -> Seq<u8> {
    let rel = if target_path.len() > 0 && target_path[0] == SLASH {
        target_path.skip(1)
    } else {
        target_path
    };
    if root.len() > 0 && root.last() == SLASH {
        root + rel
    } else {
        root + seq![SLASH] + rel
    }
}

/// Joins a decoded request path to the root. The result is the path to
/// make canonical.
pub fn join_root(root: &[u8], target_path: &[u8]) -> (r: Vec<u8>)
    ensures
        r@ == joined(root@, target_path@),
{
    let mut out: Vec<u8> = to_vec(root);
    if !(root.len() > 0 && root[root.len() - 1] == SLASH) {
        out.push(SLASH);
    }
    if target_path.len() > 0 && target_path[0] == SLASH {
        append(&mut out, vstd::slice::slice_subrange(target_path, 1, target_path.len()));
    } else {
        append(&mut out, target_path);
    }
    assert(out@ =~= joined(root@, target_path@));
    out
}

/// Number of bytes at the end of `s` that differ from `b`: the length of
/// what follows the last `b`, or the length of `s` where `b` does not occur.
pub open spec fn tail_len(s: Seq<u8>, b: u8) -> int
    decreases s.len(),
{
    if s.len() == 0 || s.last() == b {
        0
    } else {
        1 + tail_len(s.drop_last(), b)
    }
}

/// `tail_len` lies within `s`, the bytes that it counts differ from `b`, and
/// the byte before them is `b`.
pub proof fn lemma_tail_len(s: Seq<u8>, b: u8)
    ensures
        0 <= tail_len(s, b) <= s.len(),
        forall|j: int| s.len() - tail_len(s, b) <= j < s.len() ==> s[j] != b,
        tail_len(s, b) < s.len() ==> s[s.len() - tail_len(s, b) - 1] == b,
    decreases s.len(),
{
    if s.len() == 0 || s.last() == b {
    } else {
        let t = s.drop_last();
        lemma_tail_len(t, b);
        assert forall|j: int| s.len() - tail_len(s, b) <= j < s.len() implies s[j] != b by {
            if j < t.len() {
                assert(s[j] == t[j]);
            }
        }
    }
}

/// Any count with the properties of [`lemma_tail_len`] is `tail_len`.
pub proof fn lemma_tail_len_is(s: Seq<u8>, b: u8, k: int)
    requires
        0 <= k <= s.len(),
        forall|j: int| s.len() - k <= j < s.len() ==> s[j] != b,
        k < s.len() ==> s[s.len() - k - 1] == b,
    ensures
        tail_len(s, b) == k,
    decreases s.len(),
{
    if s.len() == 0 || s.last() == b {
    } else {
        let t = s.drop_last();
        assert forall|j: int| t.len() - (k - 1) <= j < t.len() implies t[j] != b by {
            assert(t[j] == s[j]);
        }
        lemma_tail_len_is(t, b, k - 1);
    }
}

/// Counts the bytes that follow the last `b` in `s`.
pub fn count_tail(s: &[u8], b: u8) -> (k: usize)
    ensures
        k == tail_len(s@, b),
{
    let n: usize = s.len();
    let mut k: usize = 0;
    while k < n && s[n - 1 - k] != b
        invariant
            k <= n,
            n == s@.len(),
            forall|j: int| n - k <= j < n ==> s@[j] != b,
        decreases n - k,
    {
        k += 1;
    }
    proof {
        lemma_tail_len_is(s@, b, k as int);
    }
    k
}

/// The last component of `path`: what follows its last slash.
pub open spec fn file_name(path: Seq<u8>) -> Seq<u8> {
    path.skip(path.len() - tail_len(path, SLASH))
}

/// The extension of the file that `path` names: what follows the last dot
/// of its last component. A component without a dot has none, and neither
/// has one whose only dot is its first byte.
pub open spec fn extension(path: Seq<u8>) -> Option<Seq<u8>> {
    let name = file_name(path);
    let k = tail_len(name, DOT);
    if k + 1 < name.len() {
        Some(name.skip(name.len() - k))
    } else {
        None
    }
}

/// Finds the extension of the file that `path` names.
pub fn extension_of(path: &[u8]) -> (r: Option<&[u8]>)
    ensures
        match r {
            Some(e) => extension(path@) == Some(e@),
            None => extension(path@) is None,
        },
{
    let t: usize = count_tail(path, SLASH);
    proof {
        lemma_tail_len(path@, SLASH);
    }
    let name = vstd::slice::slice_subrange(path, path.len() - t, path.len());
    assert(name@ =~= file_name(path@));
    let k: usize = count_tail(name, DOT);
    proof {
        lemma_tail_len(name@, DOT);
    }
    if k < name.len() && k + 1 < name.len() {
        let ext = vstd::slice::slice_subrange(name, name.len() - k, name.len());
        assert(ext@ =~= name@.skip(name@.len() - k));
        Some(ext)
    } else {
        None
    }
}

/// The path from `root` down to `resolved`, without a leading slash; empty
/// for the root itself.
pub open spec fn relative(root: Seq<u8>, resolved: Seq<u8>) -> Seq<u8> {
    let below = resolved.skip(root.len() as int);
    if below.len() > 0 && below[0] == SLASH {
        below.skip(1)
    } else {
        below
    }
}

/// What the file system holds at a path.
#[derive(Clone, Copy, Debug, PartialEq, Eq, Structural)]
pub enum FileKind {
    /// Nothing.
    Missing,
    /// A regular file.
    File,
    /// A directory.
    Directory,
    /// Something else: a socket, a device.
    Other,
}

/// The directory whose files are run as scripts: `scripts` below the root.
pub open spec fn scripts_root(root: Seq<u8>) -> Seq<u8> {
    joined(root, "/scripts".spec_bytes())
}

/// A canonical path inside the served tree, with the request path that led
/// to it.
#[derive(Debug)]
pub struct ResolvedPath {
    root: Vec<u8>,
    resolved: Vec<u8>,
    request_path: Vec<u8>,
}

/// What a [`ResolvedPath`] stands for.
pub struct ResolvedPathView {
    pub root: Seq<u8>,
    pub resolved: Seq<u8>,
    pub request_path: Seq<u8>,
}

impl View for ResolvedPath {
    type V = ResolvedPathView;

    closed spec fn view(&self) -> ResolvedPathView {
        ResolvedPathView {
            root: self.root@,
            resolved: self.resolved@,
            request_path: self.request_path@,
        }
    }
}

/// What came of making a joined path canonical.
#[derive(Debug, PartialEq, Eq)]
pub enum Canonical {
    /// The path exists; this is its canonical form.
    Path(Vec<u8>),
    /// Nothing exists at the path.
    Missing,
    /// The path could not be followed: a directory on the way to it may
    /// not be entered.
    Denied,
}

/// What a [`Canonical`] stands for.
pub enum CanonicalView {
    Path(Seq<u8>),
    Missing,
    Denied,
}

impl View for Canonical {
    type V = CanonicalView;

    open spec fn view(&self) -> CanonicalView {
        match *self {
            Canonical::Path(p) => CanonicalView::Path(p@),
            Canonical::Missing => CanonicalView::Missing,
            Canonical::Denied => CanonicalView::Denied,
        }
    }
}

/// What resolving a request path comes to, given what came of making the
/// joined path canonical: a path inside the root, `NotFound` for a path
/// that does not exist, `Forbidden` for one that leaves the root and for
/// one that could not be followed.
pub open spec fn resolution(root: Seq<u8>, request_path: Seq<u8>, canonical: CanonicalView)
    -> Result<ResolvedPathView, ErrorKind> {
    match canonical {
        CanonicalView::Missing => Err(ErrorKind::NotFound),
        CanonicalView::Denied => Err(ErrorKind::Forbidden),
        CanonicalView::Path(c) => if within(root, c) {
            Ok(ResolvedPathView { root: root, resolved: c, request_path: request_path })
        } else {
            Err(ErrorKind::Forbidden)
        },
    }
}

impl ResolvedPath {
    #[verifier::type_invariant]
    spec fn inside(&self) -> bool {
        within(self.root@, self.resolved@)
    }

    /// Checks the canonical form of a joined path against the root. This is
    /// the only way to a `ResolvedPath`, so every one lies inside its root.
    pub fn resolve(root: &[u8], request_path: &[u8], canonical: Canonical) -> (r: Result<
        ResolvedPath,
        ErrorKind,
    >)
        ensures
            match r {
                Ok(p) => resolution(root@, request_path@, canonical@) == Ok::<
                    ResolvedPathView,
                    ErrorKind,
                >(p@) && within(p@.root, p@.resolved),
                Err(e) => resolution(root@, request_path@, canonical@) == Err::<
                    ResolvedPathView,
                    ErrorKind,
                >(e),
            },
    {
        match canonical {
            Canonical::Missing => Err(ErrorKind::NotFound),
            Canonical::Denied => Err(ErrorKind::Forbidden),
            Canonical::Path(c) => {
                if is_within(root, c.as_slice()) {
                    Ok(
                        ResolvedPath {
                            root: to_vec(root),
                            resolved: c,
                            request_path: to_vec(request_path),
                        },
                    )
                } else {
                    Err(ErrorKind::Forbidden)
                }
            },
        }
    }

    /// The root that the path was checked against.
    pub fn root(&self) -> (r: &[u8])
        ensures
            r@ == self@.root,
    {
        self.root.as_slice()
    }

    /// The canonical path. It lies inside the root.
    pub fn resolved(&self) -> (r: &[u8])
        ensures
            r@ == self@.resolved,
            within(self@.root, self@.resolved),
    {
        proof {
            use_type_invariant(self);
        }
        self.resolved.as_slice()
    }

    /// The path from the root down to this one, without a leading slash.
    pub fn relative(&self) -> (r: &[u8])
        ensures
            r@ == relative(self@.root, self@.resolved),
    {
        proof {
            use_type_invariant(self);
        }
        let n: usize = self.resolved.len();
        let start: usize = self.root.len();
        let below = vstd::slice::slice_subrange(self.resolved.as_slice(), start, n);
        if below.len() > 0 && below[0] == SLASH {
            vstd::slice::slice_subrange(below, 1, below.len())
        } else {
            below
        }
    }

    /// Tests whether the path lies in the directory of scripts.
    pub fn in_scripts(&self) -> (r: bool)
        ensures
            r == within(scripts_root(self@.root), self@.resolved),
    {
        let scripts = join_root(self.root.as_slice(), "/scripts".as_bytes());
        is_within(scripts.as_slice(), self.resolved.as_slice())
    }

    /// The request path that was resolved.
    pub fn request_path(&self) -> (r: &[u8])
        ensures
            r@ == self@.request_path,
    {
        self.request_path.as_slice()
    }
}

/// No resolution leads out of the root: a canonical path outside it is
/// refused as `Forbidden`, and every path that is handed out lies within.
pub proof fn lemma_resolution_stays_inside(
    root: Seq<u8>,
    request_path: Seq<u8>,
    canonical: CanonicalView,
)
    ensures
        canonical matches CanonicalView::Path(c) && !within(root, c) ==> resolution(
            root,
            request_path,
            canonical,
        ) == Err::<ResolvedPathView, ErrorKind>(ErrorKind::Forbidden),
        resolution(root, request_path, canonical) matches Ok(p) ==> within(root, p.resolved),
{
}

} // verus!
