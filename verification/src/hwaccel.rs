//! Reading the list of hardware accelerations that the transcoder prints,
//! one name to a line.

use vstd::prelude::*;
use crate::text::chars_of;

verus! {

/// A character with the Unicode property White_Space.
pub open spec fn is_space(c: char) -> bool {
    ||| '\u{9}' <= c <= '\u{d}'
    ||| c == ' '
    ||| c == '\u{85}'
    ||| c == '\u{a0}'
    ||| c == '\u{1680}'
    ||| '\u{2000}' <= c <= '\u{200a}'
    ||| c == '\u{2028}'
    ||| c == '\u{2029}'
    ||| c == '\u{202f}'
    ||| c == '\u{205f}'
    ||| c == '\u{3000}'
}

/// The text without the white space at its two ends.
pub open spec fn trimmed(s: Seq<char>) -> Seq<char>
    decreases s.len(),
{
    if s.len() > 0 && is_space(s[0]) {
        trimmed(s.skip(1))
    } else if s.len() > 0 && is_space(s.last()) {
        trimmed(s.drop_last())
    } else {
        s
    }
}

/// `s[a..b]` is a line of `s`: it begins at the front of the text or behind
/// a line feed, ends at the end of the text or before a line feed, and
/// holds none.
pub open spec fn line_at(s: Seq<char>, a: int, b: int) -> bool {
    &&& 0 <= a <= b <= s.len()
    &&& (a == 0 || s[a - 1] == '\n')
    &&& (b == s.len() || s[b] == '\n')
    &&& forall|i: int| a <= i < b ==> s[i] != '\n'
}

/// The name by which the transcoder lists VA-API.
pub open spec fn vaapi_name() -> Seq<char> {
    seq!['v', 'a', 'a', 'p', 'i']
}

/// Some line of the output is, white space at its ends apart, the name of
/// VA-API.
pub open spec fn names_vaapi(output: Seq<char>) -> bool {
    exists|a: int, b: int| #[trigger]
        line_at(output, a, b) && trimmed(output.subrange(a, b)) == vaapi_name()
}

/// `s[lo..hi]` is `s` without the white space at its ends.
pub proof fn lemma_trimmed_is(s: Seq<char>, lo: int, hi: int)
    requires
        0 <= lo <= hi <= s.len(),
        forall|i: int| 0 <= i < lo ==> is_space(s[i]),
        forall|i: int| hi <= i < s.len() ==> is_space(s[i]),
        lo < hi ==> !is_space(s[lo]) && !is_space(s[hi - 1]),
    ensures
        trimmed(s) == s.subrange(lo, hi),
    decreases s.len(),
{
    if s.len() > 0 && is_space(s[0]) {
        let rest = s.skip(1);
        if lo > 0 {
            assert forall|i: int| 0 <= i < lo - 1 implies is_space(rest[i]) by {
                assert(rest[i] == s[i + 1]);
            }
            assert forall|i: int| hi - 1 <= i < rest.len() implies is_space(rest[i]) by {
                assert(rest[i] == s[i + 1]);
            }
            if lo < hi {
                assert(rest[lo - 1] == s[lo] && rest[hi - 2] == s[hi - 1]);
            }
            lemma_trimmed_is(rest, lo - 1, hi - 1);
            assert(rest.subrange(lo - 1, hi - 1) =~= s.subrange(lo, hi));
        } else {
            assert(hi == 0);
            assert forall|i: int| 0 <= i < rest.len() implies is_space(rest[i]) by {
                assert(rest[i] == s[i + 1]);
            }
            lemma_trimmed_is(rest, 0, 0);
            assert(rest.subrange(0, 0) =~= s.subrange(lo, hi));
        }
    } else if s.len() > 0 && is_space(s.last()) {
        let rest = s.drop_last();
        assert(lo == 0);
        assert(0 < hi < s.len());
        assert forall|i: int| hi <= i < rest.len() implies is_space(rest[i]) by {
            assert(rest[i] == s[i]);
        }
        assert(rest[0] == s[0] && rest[hi - 1] == s[hi - 1]);
        lemma_trimmed_is(rest, 0, hi);
        assert(rest.subrange(0, hi) =~= s.subrange(lo, hi));
    } else {
        if s.len() > 0 {
            assert(lo == 0 && hi == s.len());
        }
        assert(s.subrange(lo, hi) =~= s);
    }
}

/// Whether `c` is white space.
pub fn is_space_char(c: char) -> (b: bool)
    ensures
        b == is_space(c),
{
    (c >= '\u{9}' && c <= '\u{d}') || c == ' ' || c == '\u{85}' || c == '\u{a0}' || c
        == '\u{1680}' || (c >= '\u{2000}' && c <= '\u{200a}') || c == '\u{2028}' || c
        == '\u{2029}' || c == '\u{202f}' || c == '\u{205f}' || c == '\u{3000}'
}

/// Whether the line `v[start..end]`, white space at its ends apart, is the
/// name of VA-API.
fn line_is_vaapi(v: &Vec<char>, start: usize, end: usize) -> (b: bool)
    requires
        start <= end <= v@.len(),
    ensures
        b == (trimmed(v@.subrange(start as int, end as int)) == vaapi_name()),
{
    let ghost line = v@.subrange(start as int, end as int);
    let mut lo: usize = start;
    while lo < end && is_space_char(v[lo])
        invariant
            start <= lo <= end <= v@.len(),
            forall|i: int| start <= i < lo ==> is_space(v@[i]),
        decreases end - lo,
    {
        lo += 1;
    }
    let mut hi: usize = end;
    while hi > lo && is_space_char(v[hi - 1])
        invariant
            lo <= hi <= end <= v@.len(),
            forall|i: int| hi <= i < end ==> is_space(v@[i]),
        decreases hi,
    {
        hi -= 1;
    }
    proof {
        assert forall|i: int| 0 <= i < lo - start implies is_space(line[i]) by {
            assert(line[i] == v@[start + i]);
        }
        assert forall|i: int| hi - start <= i < line.len() implies is_space(line[i]) by {
            assert(line[i] == v@[start + i]);
        }
        if lo < hi {
            assert(line[lo - start] == v@[lo as int]);
            assert(line[hi - start - 1] == v@[hi - 1]);
        }
        lemma_trimmed_is(line, lo - start, hi - start);
        assert(line.subrange(lo - start, hi - start) =~= v@.subrange(lo as int, hi as int));
    }
    let ghost word = v@.subrange(lo as int, hi as int);
    if hi - lo != 5 {
        return false;
    }
    let same = v[lo] == 'v' && v[lo + 1] == 'a' && v[lo + 2] == 'a' && v[lo + 3] == 'p' && v[lo
        + 4] == 'i';
    proof {
        if same {
            assert(word =~= vaapi_name());
        } else {
            assert(word[0] == v@[lo as int]);
            assert(word[1] == v@[lo + 1]);
            assert(word[2] == v@[lo + 2]);
            assert(word[3] == v@[lo + 3]);
            assert(word[4] == v@[lo + 4]);
        }
    }
    same
}

/// Whether the transcoder's list of hardware accelerations names VA-API:
/// whether some line of `output` is `vaapi`, white space around it apart.
pub fn lists_vaapi(output: &str) -> (found: bool)
    ensures
        found == names_vaapi(output@),
{
    let v = chars_of(output);
    let n: usize = v.len();
    let mut start: usize = 0;
    loop
        invariant
            n == v@.len(),
            v@ == output@,
            start <= n,
            start == 0 || v@[start - 1] == '\n',
            forall|a: int, b: int| #[trigger]
                line_at(v@, a, b) && a < start ==> trimmed(v@.subrange(a, b)) != vaapi_name(),
        decreases n - start,
    {
        let mut end: usize = start;
        while end < n && v[end] != '\n'
            invariant
                start <= end <= n == v@.len(),
                forall|i: int| start <= i < end ==> v@[i] != '\n',
            decreases n - end,
        {
            end += 1;
        }
        assert(line_at(v@, start as int, end as int));
        if line_is_vaapi(&v, start, end) {
            return true;
        }
        assert forall|a: int, b: int| #[trigger]
            line_at(v@, a, b) && a <= end implies trimmed(v@.subrange(a, b)) != vaapi_name() by {
            if a >= start {
                if a > start {
                    assert(v@[a - 1] == '\n');
                }
                if b > end {
                    assert(v@[end as int] != '\n');
                }
                if b < end {
                    assert(v@[b] == '\n');
                }
            }
        }
        if end == n {
            return false;
        }
        start = end + 1;
    }
}

} // verus!
