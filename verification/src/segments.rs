//! The lexical model of a request path: its segments, which of them are
//! refused, and how the accepted ones are joined onto a base path.

use vstd::prelude::*;

verus! {

/// The index of the first `/` of `s`, or the length of `s` if it holds none.
pub open spec fn first_slash(s: Seq<char>) -> int
    decreases s.len(),
{
    if s.len() == 0 || s[0] == '/' {
        0
    } else {
        1 + first_slash(s.skip(1))
    }
}

/// The number of `/` characters that `s` begins with.
pub open spec fn leading_slashes(s: Seq<char>) -> int
    decreases s.len(),
{
    if s.len() == 0 || s[0] != '/' {
        0
    } else {
        1 + leading_slashes(s.skip(1))
    }
}

/// `s` without the `/` characters it begins with.
pub open spec fn trim_slashes(s: Seq<char>) -> Seq<char> {
    s.skip(leading_slashes(s))
}

/// The pieces of `s` between its `/` characters, in order. A text without
/// `/` is its own single piece; the empty text has one empty piece.
pub open spec fn split_path(s: Seq<char>) -> Seq<Seq<char>>
    decreases s.len(),
{
    let k = first_slash(s);
    if 0 <= k < s.len() {
        seq![s.take(k)] + split_path(s.skip(k + 1))
    } else {
        seq![s]
    }
}

/// The segment begins with two dots.
pub open spec fn starts_with_dotdot(seg: Seq<char>) -> bool {
    seg.len() >= 2 && seg[0] == '.' && seg[1] == '.'
}

/// A segment that no request may hold: one that begins with `..` (the
/// segment `..` itself included) or that holds a backslash.
pub open spec fn bad_segment(seg: Seq<char>) -> bool {
    starts_with_dotdot(seg) || seg.contains('\\')
}

/// `base` with one more segment joined on. An empty segment changes nothing;
/// a separator is put in unless `base` is empty or already ends with one.
pub open spec fn push_segment(base: Seq<char>, seg: Seq<char>) -> Seq<char> {
    if seg.len() == 0 {
        base
    } else if base.len() == 0 || base.last() == '/' {
        base + seg
    } else {
        base.push('/') + seg
    }
}

/// `base` with every segment of `segs` joined on, first to last.
pub open spec fn join_segments(base: Seq<char>, segs: Seq<Seq<char>>) -> Seq<char> {
    segs.fold_left(base, |b: Seq<char>, seg: Seq<char>| push_segment(b, seg))
}

/// Some segment of `segs` is a bad one.
pub open spec fn any_bad_segment(segs: Seq<Seq<char>>) -> bool {
    exists|k: int| 0 <= k < segs.len() && bad_segment(#[trigger] segs[k])
}

/// `k` is the first position of `s`, at or after 0, that holds a `/`, or the
/// length of `s` where there is none.
pub proof fn lemma_first_slash_is(s: Seq<char>, k: int)
    requires
        0 <= k <= s.len(),
        forall|i: int| 0 <= i < k ==> s[i] != '/',
        k < s.len() ==> s[k] == '/',
    ensures
        first_slash(s) == k,
    decreases s.len(),
{
    if k > 0 {
        let rest = s.skip(1);
        assert forall|i: int| 0 <= i < k - 1 implies rest[i] != '/' by {
            assert(rest[i] == s[i + 1]);
        }
        lemma_first_slash_is(rest, k - 1);
    }
}

/// What `first_slash` finds: nothing before it is a `/`, and it is one
/// itself unless it is the end of the text.
pub proof fn lemma_first_slash_found(s: Seq<char>)
    ensures
        0 <= first_slash(s) <= s.len(),
        forall|i: int| 0 <= i < first_slash(s) ==> s[i] != '/',
        first_slash(s) < s.len() ==> s[first_slash(s)] == '/',
    decreases s.len(),
{
    if s.len() == 0 || s[0] == '/' {
    } else {
        let rest = s.skip(1);
        lemma_first_slash_found(rest);
        assert forall|i: int| 0 <= i < first_slash(s) implies s[i] != '/' by {
            if i > 0 {
                assert(rest[i - 1] == s[i]);
            }
        }
    }
}

/// `k` leading characters of `s` are `/` and the next one, if any, is not.
pub proof fn lemma_leading_slashes_is(s: Seq<char>, k: int)
    requires
        0 <= k <= s.len(),
        forall|i: int| 0 <= i < k ==> s[i] == '/',
        k < s.len() ==> s[k] != '/',
    ensures
        leading_slashes(s) == k,
    decreases s.len(),
{
    if k > 0 {
        let rest = s.skip(1);
        assert forall|i: int| 0 <= i < k - 1 implies rest[i] == '/' by {
            assert(rest[i] == s[i + 1]);
        }
        lemma_leading_slashes_is(rest, k - 1);
    }
}

/// What `leading_slashes` counts.
pub proof fn lemma_leading_slashes_found(s: Seq<char>)
    ensures
        0 <= leading_slashes(s) <= s.len(),
        forall|i: int| 0 <= i < leading_slashes(s) ==> s[i] == '/',
        leading_slashes(s) < s.len() ==> s[leading_slashes(s)] != '/',
    decreases s.len(),
{
    if s.len() == 0 || s[0] != '/' {
    } else {
        let rest = s.skip(1);
        lemma_leading_slashes_found(rest);
        assert forall|i: int| 0 <= i < leading_slashes(s) implies s[i] == '/' by {
            if i > 0 {
                assert(rest[i - 1] == s[i]);
            }
        }
    }
}

/// Joining one more segment after `segs` is one more `push_segment`.
pub proof fn lemma_join_push(base: Seq<char>, segs: Seq<Seq<char>>, seg: Seq<char>)
    ensures
        join_segments(base, segs.push(seg)) == push_segment(join_segments(base, segs), seg),
{
    assert(segs.push(seg).drop_last() =~= segs);
}

/// A text that begins with a `/` has an empty first segment, and then the
/// segments of what follows the `/`.
pub proof fn lemma_split_leading_slash(s: Seq<char>)
    requires
        s.len() > 0,
        s[0] == '/',
    ensures
        split_path(s) == seq![Seq::<char>::empty()] + split_path(s.skip(1)),
{
    assert(s.take(0) =~= Seq::<char>::empty());
}

/// The segments of a text are those of the text without its leading `/`
/// characters, after one empty segment for each of these.
pub proof fn lemma_split_untrimmed(s: Seq<char>)
    ensures
        split_path(s).len() == leading_slashes(s) + split_path(trim_slashes(s)).len(),
        forall|k: int| 0 <= k < leading_slashes(s) ==> (#[trigger] split_path(s)[k]).len() == 0,
        forall|k: int|
            leading_slashes(s) <= k < split_path(s).len() ==> #[trigger] split_path(s)[k]
                == split_path(trim_slashes(s))[k - leading_slashes(s)],
    decreases s.len(),
{
    if s.len() == 0 || s[0] != '/' {
        assert(trim_slashes(s) =~= s);
    } else {
        let rest = s.skip(1);
        lemma_split_leading_slash(s);
        lemma_split_untrimmed(rest);
        lemma_leading_slashes_found(rest);
        assert(trim_slashes(s) =~= trim_slashes(rest));
        assert forall|k: int| leading_slashes(s) <= k < split_path(s).len() implies
            #[trigger] split_path(s)[k] == split_path(trim_slashes(s))[k - leading_slashes(s)] by {
            assert(split_path(s)[k] == split_path(rest)[k - 1]);
        }
        assert forall|k: int| 0 <= k < leading_slashes(s) implies (#[trigger] split_path(
            s,
        )[k]).len() == 0 by {
            if k > 0 {
                assert(split_path(s)[k] == split_path(rest)[k - 1]);
            }
        }
    }
}

/// A text has at least one segment, and no segment holds a `/`.
pub proof fn lemma_segments_hold_no_slash(s: Seq<char>)
    ensures
        split_path(s).len() >= 1,
        forall|k: int|
            0 <= k < split_path(s).len() ==> !(#[trigger] split_path(s)[k]).contains('/'),
    decreases s.len(),
{
    lemma_first_slash_found(s);
    let f = first_slash(s);
    if f < s.len() {
        let rest = s.skip(f + 1);
        lemma_segments_hold_no_slash(rest);
        assert forall|k: int| 0 <= k < split_path(s).len() implies !(#[trigger] split_path(
            s,
        )[k]).contains('/') by {
            if k == 0 {
                assert(split_path(s)[0] == s.take(f));
            } else {
                assert(split_path(s)[k] == split_path(rest)[k - 1]);
            }
        }
    } else {
        assert(split_path(s)[0] == s);
    }
}

/// A text without `/` is its own single segment.
pub proof fn lemma_split_single(s: Seq<char>)
    requires
        !s.contains('/'),
    ensures
        split_path(s) == seq![s],
{
    assert forall|i: int| 0 <= i < s.len() implies s[i] != '/' by {
        if s[i] == '/' {
            assert(s.contains('/'));
        }
    }
    lemma_first_slash_is(s, s.len() as int);
}

/// A `/` and a segment put behind a text add that one segment to the
/// segments of the text.
pub proof fn lemma_split_append(a: Seq<char>, seg: Seq<char>)
    requires
        !seg.contains('/'),
    ensures
        split_path(a.push('/') + seg) == split_path(a).push(seg),
    decreases a.len(),
{
    let whole = a.push('/') + seg;
    lemma_first_slash_found(a);
    let f = first_slash(a);
    assert forall|i: int| 0 <= i < f implies whole[i] != '/' by {
        assert(whole[i] == a[i]);
    }
    if f < a.len() {
        assert(whole[f] == a[f]);
        lemma_first_slash_is(whole, f);
        let rest = a.skip(f + 1);
        assert(whole.skip(f + 1) =~= rest.push('/') + seg);
        assert(whole.take(f) =~= a.take(f));
        lemma_split_append(rest, seg);
        assert(split_path(whole) =~= split_path(a).push(seg));
    } else {
        assert(whole[f] == '/');
        lemma_first_slash_is(whole, f);
        assert(whole.take(f) =~= a);
        assert(whole.skip(f + 1) =~= seg);
        lemma_split_single(seg);
        assert(split_path(whole) =~= split_path(a).push(seg));
    }
}

/// Every character of a text other than `/` lies in one of its segments.
pub proof fn lemma_char_in_some_segment(s: Seq<char>, j: int)
    requires
        0 <= j < s.len(),
        s[j] != '/',
    ensures
        exists|k: int| 0 <= k < split_path(s).len() && (#[trigger] split_path(s)[k]).contains(s[j]),
    decreases s.len(),
{
    lemma_first_slash_found(s);
    let f = first_slash(s);
    if j < f {
        let first = split_path(s)[0];
        if f < s.len() {
            assert(first == s.take(f));
        } else {
            assert(first == s);
        }
        assert(first[j] == s[j]);
        assert(first.contains(s[j]));
    } else {
        let rest = s.skip(f + 1);
        assert(rest[j - f - 1] == s[j]);
        lemma_char_in_some_segment(rest, j - f - 1);
        let k = choose|k: int|
            0 <= k < split_path(rest).len() && (#[trigger] split_path(rest)[k]).contains(s[j]);
        assert(split_path(s)[k + 1] == split_path(rest)[k]);
    }
}

/// Position `a` of `s` begins a segment: it is the front of the text, or a
/// `/` stands before it.
pub open spec fn segment_start(s: Seq<char>, a: int) -> bool {
    0 <= a <= s.len() && (a == 0 || s[a - 1] == '/')
}

/// Every segment of a text stands in it at a position that begins a
/// segment.
pub proof fn lemma_segment_has_position(s: Seq<char>, k: int)
    requires
        0 <= k < split_path(s).len(),
    ensures
        exists|a: int| segment_start(s, a) && split_path(s)[k].is_prefix_of(#[trigger] s.skip(a)),
    decreases s.len(),
{
    lemma_first_slash_found(s);
    let f = first_slash(s);
    if k == 0 {
        assert(s.skip(0) =~= s);
        if f < s.len() {
            assert(s.take(f).is_prefix_of(s.skip(0)));
        } else {
            assert(s.is_prefix_of(s.skip(0)));
        }
        assert(segment_start(s, 0));
    } else {
        let rest = s.skip(f + 1);
        assert(split_path(s)[k] == split_path(rest)[k - 1]);
        lemma_segment_has_position(rest, k - 1);
        let b = choose|b: int|
            segment_start(rest, b) && split_path(rest)[k - 1].is_prefix_of(#[trigger] rest.skip(b));
        let a = b + f + 1;
        assert(rest.skip(b) =~= s.skip(a));
        if b > 0 {
            assert(rest[b - 1] == s[a - 1]);
        }
        assert(segment_start(s, a));
    }
}

/// What begins at a position that begins a segment, up to the next `/`, is
/// one of the segments of the text.
pub proof fn lemma_position_has_segment(s: Seq<char>, a: int)
    requires
        segment_start(s, a),
    ensures
        exists|k: int|
            0 <= k < split_path(s).len() && #[trigger] split_path(s)[k] == s.skip(a).take(
                first_slash(s.skip(a)),
            ),
    decreases s.len(),
{
    lemma_first_slash_found(s);
    let f = first_slash(s);
    if a == 0 {
        assert(s.skip(0) =~= s);
        if f >= s.len() {
            assert(s.take(f) =~= s);
        }
        assert(split_path(s)[0] == s.skip(a).take(first_slash(s.skip(a))));
    } else {
        assert(f <= a - 1) by {
            if f > a - 1 {
                assert(s[a - 1] != '/');
            }
        }
        let rest = s.skip(f + 1);
        let b = a - f - 1;
        if b > 0 {
            assert(rest[b - 1] == s[a - 1]);
        }
        lemma_position_has_segment(rest, b);
        let k = choose|k: int|
            0 <= k < split_path(rest).len() && #[trigger] split_path(rest)[k] == rest.skip(b).take(
                first_slash(rest.skip(b)),
            );
        assert(rest.skip(b) =~= s.skip(a));
        assert(split_path(s)[k + 1] == split_path(rest)[k]);
    }
}

/// Two dots at a position that begins a segment make a segment that begins
/// with `..`.
pub proof fn lemma_dotdot_at_start_is_segment(s: Seq<char>, a: int)
    requires
        segment_start(s, a),
        a + 1 < s.len(),
        s[a] == '.',
        s[a + 1] == '.',
    ensures
        exists|k: int|
            0 <= k < split_path(s).len() && starts_with_dotdot(#[trigger] split_path(s)[k]),
{
    lemma_position_has_segment(s, a);
    let k = choose|k: int|
        0 <= k < split_path(s).len() && #[trigger] split_path(s)[k] == s.skip(a).take(
            first_slash(s.skip(a)),
        );
    let tail = s.skip(a);
    lemma_first_slash_found(tail);
    let f = first_slash(tail);
    assert(tail[0] == '.' && tail[1] == '.');
    assert(f >= 2) by {
        if f < 2 {
            assert(tail[f] == '/');
        }
    }
    assert(starts_with_dotdot(split_path(s)[k]));
}

} // verus!
