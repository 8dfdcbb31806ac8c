//! The server's read-only configuration.

use vstd::prelude::*;
use crate::text::{chars_of, text_of};

verus! {

/// The number of `/` characters that `s` ends with.
pub open spec fn trailing_slashes(s: Seq<char>) -> int
    decreases s.len(),
{
    if s.len() == 0 || s.last() != '/' {
        0
    } else {
        1 + trailing_slashes(s.drop_last())
    }
}

/// The root directory as the server keeps it: the text `/` stands for the
/// filesystem root and stays as it is; any other text loses every `/` at its
/// end.
pub open spec fn normalized_root(s: Seq<char>) -> Seq<char> {
    if s == seq!['/'] {
        s
    } else {
        s.take(s.len() - trailing_slashes(s))
    }
}

/// The text is `/`, or does not end with a `/`.
pub open spec fn is_normalized_root(s: Seq<char>) -> bool {
    s == seq!['/'] || s.len() == 0 || s.last() != '/'
}

/// What `trailing_slashes` counts.
pub proof fn lemma_trailing_slashes_is(s: Seq<char>, k: int)
    requires
        0 <= k <= s.len(),
        forall|i: int| s.len() - k <= i < s.len() ==> s[i] == '/',
        k < s.len() ==> s[s.len() - k - 1] != '/',
    ensures
        trailing_slashes(s) == k,
    decreases s.len(),
{
    if k > 0 {
        let rest = s.drop_last();
        assert forall|i: int| rest.len() - (k - 1) <= i < rest.len() implies rest[i] == '/' by {
            assert(rest[i] == s[i]);
        }
        lemma_trailing_slashes_is(rest, k - 1);
    }
}

/// Process-wide settings, made once at startup and only read afterwards.
pub struct RootConfig {
    pub(crate) root_dir: String,
    pub(crate) thumbnail_enabled: bool,
}

impl RootConfig {
    #[verifier::type_invariant]
    pub closed spec fn well_formed(self) -> bool {
        is_normalized_root(self.root_dir@)
    }

    /// The directory below which content is served, as a text.
    pub closed spec fn root(self) -> Seq<char> {
        self.root_dir@
    }

    /// Whether thumbnails are to be generated.
    pub closed spec fn thumbnails(self) -> bool {
        self.thumbnail_enabled
    }

    /// The configuration for the given root directory.
    pub fn new(root_dir: &str, thumbnail_enabled: bool) -> (cfg: RootConfig)
        ensures
            cfg.root() == normalized_root(root_dir@),
            is_normalized_root(cfg.root()),
            cfg.thumbnails() == thumbnail_enabled,
    {
        let v = chars_of(root_dir);
        let mut end: usize = v.len();
        if !(v.len() == 1 && v[0] == '/') {
            while end > 0 && v[end - 1] == '/'
                invariant
                    end <= v@.len(),
                    forall|i: int| end <= i < v@.len() ==> v@[i] == '/',
                decreases end,
            {
                end -= 1;
            }
            proof {
                lemma_trailing_slashes_is(v@, v@.len() - end);
            }
        } else {
            assert(v@ =~= seq!['/']);
        }
        let kept = text_of(&v, 0, end);
        proof {
            assert(v@.subrange(0, end as int) =~= v@.take(end as int));
            if v@ == seq!['/'] {
                assert(v@.len() == 1);
                assert(v@.take(1) =~= v@);
            }
        }
        RootConfig { root_dir: kept, thumbnail_enabled }
    }

    /// The root directory.
    pub fn root_dir(&self) -> (s: &str)
        ensures
            s@ == self.root(),
            is_normalized_root(s@),
    {
        proof {
            use_type_invariant(self);
        }
        self.root_dir.as_str()
    }

    /// Whether thumbnails are to be generated.
    pub fn thumbnail_enabled(&self) -> (b: bool)
        ensures
            b == self.thumbnails(),
    {
        self.thumbnail_enabled
    }
}

} // verus!
