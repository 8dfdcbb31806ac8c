//! The path resolver: from a request path to a filesystem path that stays
//! below the root directory. The check is lexical and complete before the
//! resulting path exists, so nothing is looked up on disk for a refused path.

use vstd::prelude::*;
use crate::config::RootConfig;
use crate::decode::{decode_request_path, decoded_text};
use crate::guarantees::resolved_path_stays_below_root;
use crate::segments::{
    any_bad_segment, bad_segment, join_segments, lemma_first_slash_is, lemma_join_push,
    lemma_leading_slashes_is, push_segment, split_path, trim_slashes,
};
use crate::text::{chars_of, text_of};

verus! {

/// A filesystem path made of the root directory and the accepted segments of
/// a request path. Such a path is confined: whatever follows the root in it
/// holds no segment that begins with `..` and no backslash, so that the path
/// cannot, as a text, lead out of the root.
pub struct ResolvedPath {
    pub(crate) path: String,
    pub(crate) root_len: usize,
}

impl View for ResolvedPath {
    type V = Seq<char>;

    closed spec fn view(&self) -> Seq<char> {
        self.path@
    }
}

impl ResolvedPath {
    #[verifier::type_invariant]
    pub closed spec fn confined(self) -> bool {
        self.root_len <= self.path@.len() && !path_rejected(self.path@.skip(self.root_len as int))
    }

    /// The root directory that the path lies below.
    pub closed spec fn root(self) -> Seq<char> {
        self.path@.take(self.root_len as int)
    }

    /// The path as a text.
    pub fn as_str(&self) -> (s: &str)
        ensures
            s@ == self@,
    {
        self.path.as_str()
    }

    /// The number of characters of the path that are the root directory.
    pub fn root_len(&self) -> (n: usize)
        ensures
            n <= self@.len(),
            self.root() == self@.take(n as int),
            !path_rejected(self@.skip(n as int)),
    {
        proof {
            use_type_invariant(self);
        }
        self.root_len
    }
}

/// The refusal of a request path.
pub struct BadRequest {
    pub reason: String,
}

/// The segments of a decoded request path: what lies between its `/`
/// characters once the leading ones are dropped.
pub open spec fn request_segments(decoded: Seq<char>) -> Seq<Seq<char>> {
    split_path(trim_slashes(decoded))
}

/// The decoded request path holds a segment that begins with `..` or holds a
/// backslash.
pub open spec fn path_rejected(decoded: Seq<char>) -> bool {
    any_bad_segment(request_segments(decoded))
}

/// The root directory with the segments of the decoded request path joined
/// on.
pub open spec fn confined_path(root: Seq<char>, decoded: Seq<char>) -> Seq<char> {
    join_segments(root, request_segments(decoded))
}

/// The reason given for every refused path.
pub open spec fn invalid_path_reason() -> Seq<char> {
    "invalid path"@
}

/// Appends the segment `p[start..end]` to `out` as `push_segment` says.
fn push_segment_chars(out: &mut Vec<char>, p: &Vec<char>, start: usize, end: usize)
    requires
        start <= end <= p@.len(),
    ensures
        final(out)@ == push_segment(old(out)@, p@.subrange(start as int, end as int)),
{
    if start < end {
        let len: usize = out.len();
        if len > 0 && out[len - 1] != '/' {
            out.push('/');
        }
        let ghost base = out@;
        let mut i: usize = start;
        while i < end
            invariant
                start <= i <= end <= p@.len(),
                out@ == base + p@.subrange(start as int, i as int),
            decreases end - i,
        {
            out.push(p[i]);
            i += 1;
            assert(out@ =~= base + p@.subrange(start as int, i as int));
        }
    } else {
        assert(p@.subrange(start as int, end as int).len() == 0);
    }
}

/// Resolves a request path that is already percent-decoded.
///
/// The path is refused exactly when one of its segments begins with `..` or
/// holds a backslash. Otherwise the result is the root directory with the
/// segments joined on, the empty ones left out.
pub fn resolve_decoded(decoded: &str, root: &RootConfig) -> (r: Result<ResolvedPath, BadRequest>)
    ensures
        match r {
            Ok(p) => !path_rejected(decoded@) && p@ == confined_path(root.root(), decoded@)
                && p.root() == root.root(),
            Err(e) => path_rejected(decoded@) && e.reason@ == invalid_path_reason(),
        },
{
    let p = chars_of(decoded);
    let n: usize = p.len();
    let mut start: usize = 0;
    while start < n && p[start] == '/'
        invariant
            start <= n == p@.len(),
            forall|i: int| 0 <= i < start ==> p@[i] == '/',
        decreases n - start,
    {
        start += 1;
    }
    proof {
        lemma_leading_slashes_is(p@, start as int);
    }
    let ghost segs = request_segments(decoded@);
    let ghost mut done: Seq<Seq<char>> = Seq::empty();
    let mut out = chars_of(root.root_dir());
    let root_len: usize = out.len();
    let mut finished = false;
    while !finished
        invariant
            n == p@.len(),
            p@ == decoded@,
            start <= n,
            segs == request_segments(decoded@),
            !finished ==> segs == done + split_path(p@.skip(start as int)),
            finished ==> segs == done,
            out@ == join_segments(root.root(), done),
            forall|k: int| 0 <= k < done.len() ==> !bad_segment(#[trigger] done[k]),
        decreases
            if finished { 0 } else { n - start + 1 },
    {
        let ghost rest = p@.skip(start as int);
        let mut end: usize = start;
        let mut backslash = false;
        while end < n && p[end] != '/'
            invariant
                start <= end <= n == p@.len(),
                forall|i: int| start <= i < end ==> p@[i] != '/',
                backslash == p@.subrange(start as int, end as int).contains('\\'),
            decreases n - end,
        {
            let ghost before = p@.subrange(start as int, end as int);
            if p[end] == '\\' {
                backslash = true;
            }
            end += 1;
            proof {
                let now = p@.subrange(start as int, end as int);
                assert(now =~= before.push(p@[end - 1]));
                if before.contains('\\') {
                    let j = choose|j: int| 0 <= j < before.len() && before[j] == '\\';
                    assert(now[j] == '\\');
                } else if now.contains('\\') {
                    let j = choose|j: int| 0 <= j < now.len() && now[j] == '\\';
                    if j < before.len() {
                        assert(before[j] == '\\');
                    }
                } else if p@[end - 1] == '\\' {
                    assert(now[now.len() - 1] == '\\');
                }
            }
        }
        let ghost seg = p@.subrange(start as int, end as int);
        proof {
            assert forall|i: int| 0 <= i < end - start implies rest[i] != '/' by {
                assert(rest[i] == p@[start + i]);
            }
            lemma_first_slash_is(rest, end - start);
            assert(rest.take(end - start) =~= seg);
            if end < n {
                assert(rest.skip(end - start + 1) =~= p@.skip(end + 1));
                assert(segs =~= done.push(seg) + split_path(p@.skip(end + 1)));
            } else {
                assert(rest =~= seg);
                assert(segs =~= done.push(seg));
            }
            assert(segs[done.len() as int] == seg);
        }
        let dotdot = end - start >= 2 && p[start] == '.' && p[start + 1] == '.';
        if dotdot || backslash {
            assert(bad_segment(seg));
            return Err(BadRequest { reason: "invalid path".to_string() });
        }
        push_segment_chars(&mut out, &p, start, end);
        proof {
            lemma_join_push(root.root(), done, seg);
            done = done.push(seg);
        }
        if end < n {
            start = end + 1;
        } else {
            finished = true;
        }
    }
    let path = text_of(&out, 0, out.len());
    proof {
        assert(out@.subrange(0, out@.len() as int) =~= out@);
        resolved_path_stays_below_root(root.root(), decoded@);
        assert(path@.take(root_len as int) =~= root.root());
    }
    Ok(ResolvedPath { path, root_len })
}

/// Resolves a raw request path: percent-decodes it, lossily, and resolves
/// what comes out. An escape sequence is read before the segments are
/// checked, so a `..` spelled with escapes is refused like any other.
pub fn resolve(raw_uri_path: &str, root: &RootConfig) -> (r: Result<ResolvedPath, BadRequest>)
    ensures
        match r {
            Ok(p) => !path_rejected(decoded_text(raw_uri_path@)) && p@ == confined_path(
                root.root(),
                decoded_text(raw_uri_path@),
            ) && p.root() == root.root(),
            Err(e) => path_rejected(decoded_text(raw_uri_path@)) && e.reason@
                == invalid_path_reason(),
        },
{
    let decoded = decode_request_path(raw_uri_path);
    resolve_decoded(decoded.as_str(), root)
}

} // verus!
