//! What holds of the resolver and the lister on every input, stated over
//! the models that their contracts use, and proved.

use vstd::multiset::Multiset;
use vstd::prelude::*;
use vstd::seq_lib::{to_multiset_build, to_multiset_remove};
use vstd::utf8::{encode_utf8, valid_utf8};
use crate::dispatch::{delegate_state, status_of, DelegateReply, OutcomeView};
use crate::decode::{
    decoded_text, lemma_marker_survives, lemma_plain_text_decodes_to_itself, percent_decoded,
};
use crate::lister::{
    fails_at, kept_entries, listing_result, none_fails, read_outcome, read_views, uri_below,
    ChildMeta, DirRead, EntryView, ReadOutcome, ReadView,
};
use crate::resolver::{confined_path, invalid_path_reason, path_rejected, request_segments};
use crate::segments::{
    any_bad_segment, bad_segment, join_segments, leading_slashes, lemma_char_in_some_segment,
    lemma_dotdot_at_start_is_segment, lemma_join_push, lemma_leading_slashes_found,
    lemma_leading_slashes_is, lemma_segment_has_position, lemma_segments_hold_no_slash,
    lemma_split_append, lemma_split_single, lemma_split_untrimmed, push_segment, segment_start,
    split_path, starts_with_dotdot, trim_slashes,
};

verus! {

/// A decoded path with a bad segment anywhere is refused: the segments that
/// the leading `/` characters cut off are empty, so none of them is the bad
/// one.
pub proof fn bad_segment_is_refused(decoded: Seq<char>, k: int)
    requires
        0 <= k < split_path(decoded).len(),
        bad_segment(split_path(decoded)[k]),
    ensures
        path_rejected(decoded),
{
    lemma_split_untrimmed(decoded);
    let lead = leading_slashes(decoded);
    if k < lead {
        let seg = split_path(decoded)[k];
        assert(seg.len() == 0);
        if seg.contains('\\') {
            let j = choose|j: int| 0 <= j < seg.len() && seg[j] == '\\';
        }
    } else {
        assert(bad_segment(request_segments(decoded)[k - lead]));
    }
}

/// A decoded path with a segment that is `..` or begins with `..` is
/// refused.
pub proof fn dotdot_segment_is_refused(decoded: Seq<char>, k: int)
    requires
        0 <= k < split_path(decoded).len(),
        starts_with_dotdot(split_path(decoded)[k]),
    ensures
        path_rejected(decoded),
{
    bad_segment_is_refused(decoded, k);
}

/// A decoded path with a backslash in any of its segments is refused.
pub proof fn backslash_segment_is_refused(decoded: Seq<char>, k: int)
    requires
        0 <= k < split_path(decoded).len(),
        split_path(decoded)[k].contains('\\'),
    ensures
        path_rejected(decoded),
{
    bad_segment_is_refused(decoded, k);
}

/// A decoded path with a backslash anywhere is refused.
pub proof fn backslash_is_refused(decoded: Seq<char>)
    requires
        decoded.contains('\\'),
    ensures
        path_rejected(decoded),
{
    let j = choose|j: int| 0 <= j < decoded.len() && decoded[j] == '\\';
    lemma_char_in_some_segment(decoded, j);
    let k = choose|k: int|
        0 <= k < split_path(decoded).len() && (#[trigger] split_path(decoded)[k]).contains(
            decoded[j],
        );
    backslash_segment_is_refused(decoded, k);
}

/// A request for a refused path ends as soon as the delegate has found
/// nothing, as a bad request with status 400: the machine does not come to
/// a state in which the filesystem is looked at.
pub proof fn refused_path_is_never_looked_up(raw: Seq<char>, root: Seq<char>)
    requires
        path_rejected(decoded_text(raw)),
    ensures
        ({
            let next = delegate_state(DelegateReply::Responded { status: 404 }, raw, root);
            &&& next is Terminal
            &&& next->outcome == OutcomeView::BadRequest(invalid_path_reason())
            &&& status_of(next->outcome) == 400
        }),
{
}

/// What is joined onto a base can be read back from the result: the base
/// stands at its front, and what follows the base has, as a request path,
/// the same joined path and no bad segment that was not joined on.
pub proof fn lemma_join_then_split(base: Seq<char>, segs: Seq<Seq<char>>)
    requires
        forall|k: int| 0 <= k < segs.len() ==> !(#[trigger] segs[k]).contains('/'),
    ensures
        base.is_prefix_of(join_segments(base, segs)),
        ({
            let tail = join_segments(base, segs).skip(base.len() as int);
            &&& tail.len() > 0 ==> tail.last() != '/'
            &&& join_segments(base, request_segments(tail)) == join_segments(base, segs)
            &&& any_bad_segment(request_segments(tail)) ==> any_bad_segment(segs)
        }),
    decreases segs.len(),
{
    let whole = join_segments(base, segs);
    if segs.len() == 0 {
        let tail = whole.skip(base.len() as int);
        assert(tail =~= Seq::<char>::empty());
        assert(trim_slashes(tail) =~= tail);
        assert(request_segments(tail) =~= seq![tail]);
        lemma_join_push(base, Seq::<Seq<char>>::empty(), tail);
        assert(Seq::<Seq<char>>::empty().push(tail) =~= seq![tail]);
        if any_bad_segment(request_segments(tail)) {
            let k = choose|k: int|
                0 <= k < request_segments(tail).len() && bad_segment(
                    #[trigger] request_segments(tail)[k],
                );
            assert(request_segments(tail)[k] == tail);
            lemma_empty_is_not_bad(tail);
        }
    } else {
        let init = segs.drop_last();
        let seg = segs.last();
        assert(segs =~= init.push(seg));
        lemma_join_push(base, init, seg);
        lemma_join_then_split(base, init);
        let before = join_segments(base, init);
        let tail0 = before.skip(base.len() as int);
        let tail = whole.skip(base.len() as int);
        assert(before =~= base + tail0);
        assert forall|i: int| 0 <= i < seg.len() implies seg[i] != '/' by {
            if seg[i] == '/' {
                assert(seg.contains('/'));
            }
        }
        if seg.len() == 0 {
            assert(whole == before);
            if any_bad_segment(request_segments(tail)) {
                let k = choose|k: int| 0 <= k < init.len() && bad_segment(#[trigger] init[k]);
                assert(segs[k] == init[k]);
            }
        } else if before.len() == 0 || before.last() == '/' {
            // Nothing but the base precedes the segment.
            if tail0.len() > 0 {
                assert(tail0.last() == before.last());
            }
            assert(tail0.len() == 0);
            assert(before =~= base);
            assert(whole =~= base + seg);
            assert(tail =~= seg);
            lemma_leading_slashes_is(seg, 0);
            assert(trim_slashes(seg) =~= seg);
            lemma_split_single(seg);
            assert(request_segments(tail) =~= seq![seg]);
            lemma_join_push(base, Seq::<Seq<char>>::empty(), seg);
            assert(Seq::<Seq<char>>::empty().push(seg) =~= seq![seg]);
            lemma_single_bad(seg, segs);
        } else {
            assert(whole =~= base + (tail0.push('/') + seg));
            assert(tail =~= tail0.push('/') + seg);
            assert(tail.last() == seg.last());
            if tail0.len() == 0 {
                assert(before =~= base);
                lemma_leading_slashes_is(tail, 1);
                assert(trim_slashes(tail) =~= seg);
                lemma_split_single(seg);
                assert(request_segments(tail) =~= seq![seg]);
                lemma_join_push(base, Seq::<Seq<char>>::empty(), seg);
                assert(Seq::<Seq<char>>::empty().push(seg) =~= seq![seg]);
                lemma_single_bad(seg, segs);
            } else {
                lemma_leading_slashes_found(tail0);
                let lead = leading_slashes(tail0);
                assert(lead < tail0.len()) by {
                    if lead == tail0.len() {
                        assert(tail0[lead - 1] == '/');
                    }
                }
                assert forall|i: int| 0 <= i < lead implies tail[i] == '/' by {
                    assert(tail[i] == tail0[i]);
                }
                assert(tail[lead] == tail0[lead]);
                lemma_leading_slashes_is(tail, lead);
                assert(trim_slashes(tail) =~= trim_slashes(tail0).push('/') + seg);
                lemma_split_append(trim_slashes(tail0), seg);
                assert(request_segments(tail) == request_segments(tail0).push(seg));
                lemma_join_push(base, request_segments(tail0), seg);
                if any_bad_segment(request_segments(tail)) {
                    let k = choose|k: int|
                        0 <= k < request_segments(tail).len() && bad_segment(
                            #[trigger] request_segments(tail)[k],
                        );
                    if k < request_segments(tail0).len() {
                        assert(request_segments(tail)[k] == request_segments(tail0)[k]);
                        assert(any_bad_segment(request_segments(tail0)));
                        let m = choose|m: int|
                            0 <= m < init.len() && bad_segment(#[trigger] init[m]);
                        assert(segs[m] == init[m]);
                    } else {
                        assert(request_segments(tail)[k] == seg);
                        assert(segs[segs.len() - 1] == seg);
                    }
                }
            }
        }
    }
}

/// The empty segment is not a bad one.
proof fn lemma_empty_is_not_bad(seg: Seq<char>)
    requires
        seg.len() == 0,
    ensures
        !bad_segment(seg),
{
    if seg.contains('\\') {
        let j = choose|j: int| 0 <= j < seg.len() && seg[j] == '\\';
    }
}

/// Where the one segment `seg` is bad and is the last of `segs`, `segs` has
/// a bad segment.
proof fn lemma_single_bad(seg: Seq<char>, segs: Seq<Seq<char>>)
    requires
        segs.len() > 0,
        segs.last() == seg,
    ensures
        any_bad_segment(seq![seg]) ==> any_bad_segment(segs),
{
    if any_bad_segment(seq![seg]) {
        let k = choose|k: int| 0 <= k < seq![seg].len() && bad_segment(#[trigger] seq![seg][k]);
        assert(seq![seg][k] == seg);
        assert(segs[segs.len() - 1] == seg);
    }
}

/// An accepted path is confined: the resolved path begins with the root
/// directory, and what follows the root holds no segment that begins with
/// `..` and no backslash. Resolving what follows the root gives the same
/// path again.
pub proof fn resolved_path_stays_below_root(root: Seq<char>, decoded: Seq<char>)
    requires
        !path_rejected(decoded),
    ensures
        root.is_prefix_of(confined_path(root, decoded)),
        !path_rejected(confined_path(root, decoded).skip(root.len() as int)),
        confined_path(root, confined_path(root, decoded).skip(root.len() as int)) == confined_path(
            root,
            decoded,
        ),
{
    lemma_segments_hold_no_slash(trim_slashes(decoded));
    lemma_join_then_split(root, request_segments(decoded));
}

/// The request path of an entry is its filesystem path as it stands where
/// the root is `/`; for any other root it is what is left of the path when
/// the root is taken from its front, once.
pub proof fn uri_is_path_without_root(root: Seq<char>, path: Seq<char>)
    requires
        uri_below(root, path) is Some,
    ensures
        root == seq!['/'] ==> uri_below(root, path)->0 == path,
        root != seq!['/'] ==> root + uri_below(root, path)->0 == path,
        root.is_prefix_of(path),
{
    if root.len() == 0 {
        assert(root.is_prefix_of(path));
    }
    assert(root + path.skip(root.len() as int) =~= path);
}

/// The request path of a listed child leads back to the child: for a
/// directory that a request resolved to and a child of it whose name is an
/// acceptable segment, the child's request path is accepted and resolves to
/// the child's filesystem path.
pub proof fn listed_uri_resolves_back(root: Seq<char>, decoded_dir: Seq<char>, name: Seq<char>)
    requires
        !path_rejected(decoded_dir),
        !name.contains('/'),
        !bad_segment(name),
    ensures
        ({
            let child = push_segment(confined_path(root, decoded_dir), name);
            &&& uri_below(root, child) is Some
            &&& !path_rejected(uri_below(root, child)->0)
            &&& confined_path(root, uri_below(root, child)->0) == child
        }),
{
    let segs = request_segments(decoded_dir).push(name);
    let child = push_segment(confined_path(root, decoded_dir), name);
    lemma_segments_hold_no_slash(trim_slashes(decoded_dir));
    lemma_join_push(root, request_segments(decoded_dir), name);
    assert(child == join_segments(root, segs));
    lemma_join_then_split(root, segs);
    let tail = child.skip(root.len() as int);
    if any_bad_segment(request_segments(tail)) {
        let k = choose|k: int| 0 <= k < segs.len() && bad_segment(#[trigger] segs[k]);
        if k < segs.len() - 1 {
            assert(segs[k] == request_segments(decoded_dir)[k]);
        }
    }
    if root == seq!['/'] {
        assert(child =~= root + tail);
        assert(child.skip(1) =~= tail);
        lemma_leading_slashes_found(tail);
        assert(trim_slashes(child) =~= trim_slashes(tail));
    }
}

/// The request path of a listed child leads back to the child also where it
/// is taken as a raw request path, as long as no `%` stands in the child's
/// path: an escape sequence in a file name would be decoded on the way back.
pub proof fn listed_uri_resolves_back_as_raw_path(
    root: Seq<char>,
    decoded_dir: Seq<char>,
    name: Seq<char>,
)
    requires
        !path_rejected(decoded_dir),
        !name.contains('/'),
        !bad_segment(name),
        !push_segment(confined_path(root, decoded_dir), name).contains('%'),
    ensures
        ({
            let child = push_segment(confined_path(root, decoded_dir), name);
            &&& uri_below(root, child) is Some
            &&& !path_rejected(decoded_text(uri_below(root, child)->0))
            &&& confined_path(root, decoded_text(uri_below(root, child)->0)) == child
        }),
{
    let child = push_segment(confined_path(root, decoded_dir), name);
    listed_uri_resolves_back(root, decoded_dir, name);
    let uri = uri_below(root, child)->0;
    if uri.contains('%') {
        let j = choose|j: int| 0 <= j < uri.len() && uri[j] == '%';
        if root == seq!['/'] {
            assert(child[j] == '%');
        } else {
            assert(child[j + root.len()] == '%');
        }
        assert(child.contains('%'));
    }
    lemma_plain_text_decodes_to_itself(uri);
}

/// A listed child leads back to itself: a child of a directory that a
/// request resolved to, whose name is an acceptable segment and whose
/// metadata were read, is kept, and the request path of its entry is
/// accepted and resolves to the child's filesystem path.
pub proof fn listed_child_resolves_back(
    root: Seq<char>,
    decoded_dir: Seq<char>,
    name: Seq<char>,
    meta: ChildMeta,
)
    requires
        !path_rejected(decoded_dir),
        !name.contains('/'),
        !bad_segment(name),
    ensures
        ({
            let path = push_segment(confined_path(root, decoded_dir), name);
            let outcome = read_outcome(ReadView::Child { path, name, meta: Ok(meta) }, root);
            &&& outcome is Kept
            &&& outcome->Kept_0.name == name
            &&& !path_rejected(outcome->Kept_0.uri)
            &&& confined_path(root, outcome->Kept_0.uri) == path
        }),
{
    listed_uri_resolves_back(root, decoded_dir, name);
}

/// The decoded bytes of a raw path are well-formed UTF-8, so that decoding
/// replaces nothing.
pub open spec fn decodes_cleanly(raw: Seq<char>) -> bool {
    valid_utf8(percent_decoded(encode_utf8(raw)))
}

/// A raw path with a segment that is `..` or begins with `..` is refused,
/// whatever escape sequences it holds elsewhere, where it decodes cleanly.
pub proof fn raw_dotdot_segment_is_refused(raw: Seq<char>, k: int)
    requires
        0 <= k < split_path(raw).len(),
        starts_with_dotdot(split_path(raw)[k]),
        decodes_cleanly(raw),
    ensures
        path_rejected(decoded_text(raw)),
{
    lemma_segment_has_position(raw, k);
    let a = choose|a: int|
        segment_start(raw, a) && split_path(raw)[k].is_prefix_of(#[trigger] raw.skip(a));
    let seg = split_path(raw)[k];
    assert(raw.skip(a).subrange(0, seg.len() as int) == seg);
    assert(raw[a] == seg[0] && raw[a + 1] == seg[1]) by {
        assert(raw.skip(a).subrange(0, seg.len() as int)[0] == raw[a]);
        assert(raw.skip(a).subrange(0, seg.len() as int)[1] == raw[a + 1]);
    }
    let suffix = raw.skip(a + 2);
    if a == 0 {
        let prefix = Seq::<char>::empty();
        let marker = seq!['.', '.'];
        assert(raw =~= prefix + marker + suffix);
        lemma_marker_survives(prefix, marker, suffix);
        lemma_plain_text_decodes_to_itself(prefix);
        let decoded = decoded_text(raw);
        assert(decoded =~= marker + decoded_text(suffix));
        assert(decoded[0] == '.' && decoded[1] == '.');
        lemma_dotdot_at_start_is_segment(decoded, 0);
    } else {
        let prefix = raw.take(a - 1);
        let marker = seq!['/', '.', '.'];
        assert(raw =~= prefix + marker + suffix);
        lemma_marker_survives(prefix, marker, suffix);
        let decoded = decoded_text(raw);
        let at = decoded_text(prefix).len() as int;
        assert(decoded[at] == marker[0]);
        assert(decoded[at + 1] == marker[1]);
        assert(decoded[at + 2] == marker[2]);
        lemma_dotdot_at_start_is_segment(decoded, at + 1);
    }
    let decoded = decoded_text(raw);
    let m = choose|m: int|
        0 <= m < split_path(decoded).len() && starts_with_dotdot(#[trigger] split_path(decoded)[m]);
    dotdot_segment_is_refused(decoded, m);
}

/// A raw path with a literal backslash is refused, whatever escape
/// sequences it holds elsewhere, where it decodes cleanly.
pub proof fn raw_backslash_is_refused(raw: Seq<char>)
    requires
        raw.contains('\\'),
        decodes_cleanly(raw),
    ensures
        path_rejected(decoded_text(raw)),
{
    let j = choose|j: int| 0 <= j < raw.len() && raw[j] == '\\';
    let prefix = raw.take(j);
    let marker = seq!['\\'];
    let suffix = raw.skip(j + 1);
    assert(raw =~= prefix + marker + suffix);
    lemma_marker_survives(prefix, marker, suffix);
    let decoded = decoded_text(raw);
    let at = decoded_text(prefix).len() as int;
    assert(decoded[at] == marker[0]);
    assert(decoded.contains('\\'));
    backslash_is_refused(decoded);
}

/// A raw path without `%` is refused exactly when it holds, as it stands, a
/// segment that begins with `..` or holds a backslash.
pub proof fn plain_raw_path_is_checked_as_written(raw: Seq<char>)
    requires
        !raw.contains('%'),
    ensures
        path_rejected(decoded_text(raw)) == path_rejected(raw),
{
    lemma_plain_text_decodes_to_itself(raw);
}

/// Listing is repeatable: two runs that read the same of a directory, read
/// for read, come to the same result, be it the same entries or the same
/// failure.
pub proof fn same_reads_give_the_same_listing(
    reads1: Seq<DirRead>,
    reads2: Seq<DirRead>,
    root: Seq<char>,
)
    requires
        reads1.len() == reads2.len(),
        forall|i: int| 0 <= i < reads1.len() ==> reads1[i]@ == reads2[i]@,
    ensures
        listing_result(read_views(reads1), root) == listing_result(read_views(reads2), root),
{
    assert(read_views(reads1) =~= read_views(reads2));
}

/// A listing holds the kept reads and nothing else: it is no longer than
/// the reads, every read that is kept has its entry in it, and every entry
/// in it is that of a read.
pub proof fn listing_holds_exactly_the_kept_reads(reads: Seq<ReadView>, root: Seq<char>)
    ensures
        kept_entries(reads, root).len() <= reads.len(),
        forall|i: int|
            0 <= i < reads.len() && (#[trigger] read_outcome(reads[i], root)) is Kept
                ==> kept_entries(reads, root).contains(read_outcome(reads[i], root)->Kept_0),
        forall|j: int|
            0 <= j < kept_entries(reads, root).len() ==> exists|i: int|
                0 <= i < reads.len() && #[trigger] read_outcome(reads[i], root)
                    == ReadOutcome::Kept(#[trigger] kept_entries(reads, root)[j]),
    decreases reads.len(),
{
    if reads.len() > 0 {
        let init = reads.drop_last();
        let kept = kept_entries(reads, root);
        let before = kept_entries(init, root);
        listing_holds_exactly_the_kept_reads(init, root);
        assert forall|i: int|
            0 <= i < reads.len() && (#[trigger] read_outcome(reads[i], root)) is Kept
            implies kept.contains(read_outcome(reads[i], root)->Kept_0) by {
            let e = read_outcome(reads[i], root)->Kept_0;
            if i < init.len() {
                assert(init[i] == reads[i]);
                assert(before.contains(e));
                let j = choose|j: int| 0 <= j < before.len() && before[j] == e;
                assert(kept[j] == e);
            } else {
                assert(kept[kept.len() - 1] == e);
            }
        }
        assert forall|j: int| 0 <= j < kept.len() implies exists|i: int|
            0 <= i < reads.len() && #[trigger] read_outcome(reads[i], root) == ReadOutcome::Kept(
                #[trigger] kept[j],
            ) by {
            if j < before.len() {
                assert(kept[j] == before[j]);
                let i = choose|i: int|
                    0 <= i < init.len() && #[trigger] read_outcome(init[i], root)
                        == ReadOutcome::Kept(before[j]);
                assert(init[i] == reads[i]);
            } else {
                assert(read_outcome(reads[reads.len() - 1], root) == ReadOutcome::Kept(kept[j]));
            }
        }
    }
}

/// What one read adds to the listing: its entry where it is kept, else
/// nothing.
pub open spec fn entries_of_read(read: ReadView, root: Seq<char>) -> Multiset<EntryView> {
    match read_outcome(read, root) {
        ReadOutcome::Kept(e) => Multiset::singleton(e),
        _ => Multiset::empty(),
    }
}

/// The entries of a listing are those of the listing without read `i`, and
/// what read `i` adds.
pub proof fn lemma_listing_without_a_read(reads: Seq<ReadView>, root: Seq<char>, i: int)
    requires
        0 <= i < reads.len(),
    ensures
        kept_entries(reads, root).to_multiset() == kept_entries(
            reads.remove(i),
            root,
        ).to_multiset().add(entries_of_read(reads[i], root)),
    decreases reads.len(),
{
    let init = reads.drop_last();
    let last = reads.last();
    let whole = kept_entries(reads, root).to_multiset();
    let without = kept_entries(reads.remove(i), root).to_multiset();
    if let ReadOutcome::Kept(e) = read_outcome(last, root) {
        to_multiset_build(kept_entries(init, root), e);
    }
    if i == reads.len() - 1 {
        assert(reads.remove(i) =~= init);
        assert(whole =~= without.add(entries_of_read(reads[i], root)));
    } else {
        let shorter = reads.remove(i);
        assert(shorter.drop_last() =~= init.remove(i));
        assert(shorter.last() == last);
        assert(init[i] == reads[i]);
        lemma_listing_without_a_read(init, root, i);
        if let ReadOutcome::Kept(e) = read_outcome(last, root) {
            to_multiset_build(kept_entries(init.remove(i), root), e);
        }
        assert(whole =~= without.add(entries_of_read(reads[i], root)));
    }
}

/// The set of entries does not depend on the order of the reads: two runs
/// over the same children, in whatever order the directory stream gave them,
/// fail together or list the same entries, each as often.
pub proof fn listing_ignores_read_order(
    reads1: Seq<ReadView>,
    reads2: Seq<ReadView>,
    root: Seq<char>,
)
    requires
        reads1.to_multiset() == reads2.to_multiset(),
    ensures
        none_fails(reads1, root) == none_fails(reads2, root),
        kept_entries(reads1, root).to_multiset() == kept_entries(reads2, root).to_multiset(),
    decreases reads1.len(),
{
    broadcast use vstd::seq_lib::group_to_multiset_ensures;

    lemma_same_reads_fail_together(reads1, reads2, root);
    lemma_same_reads_fail_together(reads2, reads1, root);
    reads1.to_multiset_ensures();
    reads2.to_multiset_ensures();
    assert(reads1.len() == reads2.len());
    if reads1.len() == 0 {
        assert(kept_entries(reads1, root) =~= kept_entries(reads2, root));
    } else {
        let last = reads1.len() - 1;
        let x = reads1[last];
        assert(reads1.contains(x));
        assert(reads2.to_multiset().count(x) > 0);
        assert(reads2.contains(x));
        let j = choose|j: int| 0 <= j < reads2.len() && reads2[j] == x;
        to_multiset_remove(reads1, last);
        to_multiset_remove(reads2, j);
        listing_ignores_read_order(reads1.remove(last), reads2.remove(j), root);
        lemma_listing_without_a_read(reads1, root, last);
        lemma_listing_without_a_read(reads2, root, j);
    }
}

/// Where a read of `reads1` fails and `reads2` holds the same reads, a read
/// of `reads2` fails.
proof fn lemma_same_reads_fail_together(
    reads1: Seq<ReadView>,
    reads2: Seq<ReadView>,
    root: Seq<char>,
)
    requires
        reads1.to_multiset() == reads2.to_multiset(),
    ensures
        none_fails(reads2, root) ==> none_fails(reads1, root),
{
    broadcast use vstd::seq_lib::group_to_multiset_ensures;

    if none_fails(reads2, root) && !none_fails(reads1, root) {
        let i = choose|i: int| fails_at(reads1, root, i);
        let x = reads1[i];
        assert(reads1.contains(x));
        assert(reads2.to_multiset().count(x) > 0);
        assert(reads2.contains(x));
        let j = choose|j: int| 0 <= j < reads2.len() && reads2[j] == x;
        assert(fails_at(reads2, root, j));
    }
}

} // verus!
