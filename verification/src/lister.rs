//! The directory lister: from what was read of a directory's children to the
//! entries of a listing, one level deep. Reading the directory is the
//! caller's work; deciding what each child becomes is done here.

use vstd::prelude::*;
use crate::config::RootConfig;
use crate::text::{ascii_lowered, chars_of, lower_char, text_of};

verus! {

/// One entry of a directory listing.
pub struct EntryInfo {
    /// The base name of the file or directory.
    pub name: String,
    /// The extension of the name with its ASCII letters in lower case, empty
    /// where the name has none.
    pub extension: String,
    /// The top-level media type guessed from the extension.
    pub mime_type: String,
    /// Whether the entry is a regular file.
    pub is_file: bool,
    /// The time of the last change, in seconds since the UNIX epoch.
    pub last_modified: i64,
    /// The entry's path as a request would name it.
    pub uri: String,
}

/// What an entry holds, as plain values.
pub ghost struct EntryView {
    pub name: Seq<char>,
    pub extension: Seq<char>,
    pub mime_type: Seq<char>,
    pub is_file: bool,
    pub last_modified: i64,
    pub uri: Seq<char>,
}

impl View for EntryInfo {
    type V = EntryView;

    open spec fn view(&self) -> EntryView {
        EntryView {
            name: self.name@,
            extension: self.extension@,
            mime_type: self.mime_type@,
            is_file: self.is_file,
            last_modified: self.last_modified,
            uri: self.uri@,
        }
    }
}

/// The entries of one directory level, in the order in which they were read.
pub struct Listing {
    pub entries: Vec<EntryInfo>,
}

impl View for Listing {
    type V = Seq<EntryView>;

    open spec fn view(&self) -> Seq<EntryView> {
        self.entries@.map_values(|e: EntryInfo| e@)
    }
}

/// What was read of a child beyond its name.
pub struct ChildMeta {
    /// Whether the child is a regular file.
    pub is_file: bool,
    /// The time of its last change, in whole seconds since the UNIX epoch.
    pub modified_secs: u64,
}

/// One step of reading a directory.
pub enum DirRead {
    /// A child: its path as the directory stream gave it, its base name, and
    /// its metadata or the text of the error that reading them raised.
    Child { path: String, name: String, meta: Result<ChildMeta, String> },
    /// The directory stream itself raised an error, with this text.
    Failed(String),
}

/// What a read holds, as plain values.
pub ghost enum ReadView {
    Child { path: Seq<char>, name: Seq<char>, meta: Result<ChildMeta, Seq<char>> },
    Failed(Seq<char>),
}

impl View for DirRead {
    type V = ReadView;

    open spec fn view(&self) -> ReadView {
        match self {
            DirRead::Child { path, name, meta } => ReadView::Child {
                path: path@,
                name: name@,
                meta: match meta {
                    Ok(m) => Ok(*m),
                    Err(e) => Err(e@),
                },
            },
            DirRead::Failed(e) => ReadView::Failed(e@),
        }
    }
}

/// The reads as plain values.
pub open spec fn read_views(reads: Seq<DirRead>) -> Seq<ReadView> {
    reads.map_values(|r: DirRead| r@)
}

/// The failure of a listing.
pub struct IoError {
    pub message: String,
}

/// The index of the last `.` of `s`, or -1 where it holds none.
pub open spec fn last_dot(s: Seq<char>) -> int
    decreases s.len(),
{
    if s.len() == 0 {
        -1
    } else if s.last() == '.' {
        s.len() - 1
    } else {
        last_dot(s.drop_last())
    }
}

/// The extension of a base name: what follows its last `.`, unless the name
/// has no `.` or its only `.` is the first character.
pub open spec fn extension_of(name: Seq<char>) -> Seq<char> {
    let k = last_dot(name);
    if k <= 0 {
        Seq::empty()
    } else {
        name.skip(k + 1)
    }
}

/// The seconds as a signed number, as a two's complement cast makes it.
pub open spec fn seconds_i64(secs: u64) -> i64 {
    if secs <= 0x7fff_ffff_ffff_ffff {
        secs as i64
    } else {
        (secs - 0x1_0000_0000_0000_0000) as i64
    }
}

/// The request path of an entry, from its filesystem path: `None` where a
/// non-empty root is no prefix of the path; the path itself where the root is
/// `/`; else the path without the root at its front.
pub open spec fn uri_below(root: Seq<char>, path: Seq<char>) -> Option<Seq<char>> {
    if root.len() > 0 && !root.is_prefix_of(path) {
        None
    } else if root == seq!['/'] {
        Some(path)
    } else {
        Some(path.skip(root.len() as int))
    }
}

/// The top-level media type (`text`, `image`, `application`, ...) that
/// `mime_guess` has for a file extension.
pub uninterp spec fn mime_top_level(extension: Seq<char>) -> Seq<char>;

/// The media type given to an extension that is empty.
pub open spec fn octet_stream_top_level() -> Seq<char> {
    "application"@
}

/// The entry for a child with the given name, metadata, request path and
/// media type.
pub open spec fn entry_with(
    name: Seq<char>,
    meta: ChildMeta,
    uri: Seq<char>,
    mime_type: Seq<char>,
) -> EntryView {
    EntryView {
        name,
        extension: ascii_lowered(extension_of(name)),
        mime_type,
        is_file: meta.is_file,
        last_modified: seconds_i64(meta.modified_secs),
        uri,
    }
}

/// The entry for a child, its media type guessed from its lower-cased
/// extension.
pub open spec fn entry_of(name: Seq<char>, meta: ChildMeta, uri: Seq<char>) -> EntryView {
    entry_with(name, meta, uri, mime_top_level(ascii_lowered(extension_of(name))))
}

/// What becomes of one read.
pub ghost enum ReadOutcome {
    /// The child is left out of the listing.
    Skipped,
    /// The child is listed as this entry.
    Kept(EntryView),
    /// The listing fails with this text.
    Failed(Seq<char>),
}

/// What becomes of `read` below `root`. A failed stream fails the listing. A
/// child whose path does not begin with the root is skipped, whatever its
/// metadata; any other child is listed, or fails the listing where its
/// metadata could not be read.
pub open spec fn read_outcome(read: ReadView, root: Seq<char>) -> ReadOutcome {
    match read {
        ReadView::Failed(e) => ReadOutcome::Failed(e),
        ReadView::Child { path, name, meta } => match uri_below(root, path) {
            None => ReadOutcome::Skipped,
            Some(uri) => match meta {
                Err(e) => ReadOutcome::Failed(e),
                Ok(m) => ReadOutcome::Kept(entry_of(name, m, uri)),
            },
        },
    }
}

/// The entries of the reads that are kept, in the order of the reads.
pub open spec fn kept_entries(reads: Seq<ReadView>, root: Seq<char>) -> Seq<EntryView>
    decreases reads.len(),
{
    if reads.len() == 0 {
        Seq::empty()
    } else {
        let before = kept_entries(reads.drop_last(), root);
        match read_outcome(reads.last(), root) {
            ReadOutcome::Kept(e) => before.push(e),
            _ => before,
        }
    }
}

/// Read `i` fails the listing.
pub open spec fn fails_at(reads: Seq<ReadView>, root: Seq<char>, i: int) -> bool {
    0 <= i < reads.len() && read_outcome(reads[i], root) is Failed
}

/// Read `i` is the first that fails the listing.
pub open spec fn first_failure(reads: Seq<ReadView>, root: Seq<char>, i: int) -> bool {
    fails_at(reads, root, i) && forall|j: int| 0 <= j < i ==> !fails_at(reads, root, j)
}

/// No read fails the listing.
pub open spec fn none_fails(reads: Seq<ReadView>, root: Seq<char>) -> bool {
    forall|j: int| !fails_at(reads, root, j)
}

/// What listing `reads` below `root` gives: the text of the first read that
/// fails, or, where none fails, the entries of the reads that are kept.
pub open spec fn listing_result(reads: Seq<ReadView>, root: Seq<char>) -> Result<
    Seq<EntryView>,
    Seq<char>,
> {
    if none_fails(reads, root) {
        Ok(kept_entries(reads, root))
    } else {
        let i = choose|i: int| first_failure(reads, root, i);
        Err(read_outcome(reads[i], root)->Failed_0)
    }
}

/// Only one read can be the first that fails.
pub proof fn lemma_first_failure_unique(reads: Seq<ReadView>, root: Seq<char>, i: int, j: int)
    requires
        first_failure(reads, root, i),
        first_failure(reads, root, j),
    ensures
        i == j,
{
    if i < j {
        assert(!fails_at(reads, root, i));
    } else if j < i {
        assert(!fails_at(reads, root, j));
    }
}

/// `k` is the index of the last `.` of `s`, or -1 where there is none.
pub proof fn lemma_last_dot_is(s: Seq<char>, k: int)
    requires
        -1 <= k < s.len(),
        forall|i: int| k < i < s.len() ==> s[i] != '.',
        k >= 0 ==> s[k] == '.',
    ensures
        last_dot(s) == k,
    decreases s.len(),
{
    if s.len() > 0 && s.last() != '.' {
        lemma_last_dot_is(s.drop_last(), k);
    }
}

/// The extension of a base name, as `extension_of` says.
pub fn extension(name: &str) -> (ext: String)
    ensures
        ext@ == extension_of(name@),
{
    let v = chars_of(name);
    let mut k: usize = v.len();
    while k > 0 && v[k - 1] != '.'
        invariant
            k <= v@.len(),
            forall|i: int| k <= i < v@.len() ==> v@[i] != '.',
        decreases k,
    {
        k -= 1;
    }
    proof {
        lemma_last_dot_is(v@, k - 1);
    }
    if k <= 1 {
        String::new()
    } else {
        assert(v@.subrange(k as int, v@.len() as int) =~= v@.skip(k as int));
        text_of(&v, k, v.len())
    }
}

/// The text with each ASCII capital letter in lower case.
pub fn to_ascii_lower(s: &str) -> (low: String)
    ensures
        low@ == ascii_lowered(s@),
{
    let v = chars_of(s);
    let mut low = String::new();
    let mut i: usize = 0;
    while i < v.len()
        invariant
            i <= v@.len(),
            v@ == s@,
            low@ == ascii_lowered(v@.take(i as int)),
        decreases v@.len() - i,
    {
        low.push(lower_char(v[i]));
        i += 1;
        assert(low@ =~= ascii_lowered(v@.take(i as int)));
    }
    assert(v@.take(i as int) =~= v@);
    low
}

/// The seconds as a signed number.
pub fn seconds_as_i64(secs: u64) -> (r: i64)
    ensures
        r == seconds_i64(secs),
{
    if secs <= 0x7fff_ffff_ffff_ffff {
        secs as i64
    } else {
        let high: u64 = secs - 0x8000_0000_0000_0000;
        (high as i64) + i64::MIN
    }
}

/// Whether `prefix` stands at the front of `text`.
fn has_prefix(text: &Vec<char>, prefix: &Vec<char>) -> (b: bool)
    ensures
        b == prefix@.is_prefix_of(text@),
{
    if prefix.len() > text.len() {
        return false;
    }
    let mut i: usize = 0;
    while i < prefix.len()
        invariant
            i <= prefix@.len() <= text@.len(),
            forall|j: int| 0 <= j < i ==> prefix@[j] == text@[j],
        decreases prefix@.len() - i,
    {
        if prefix[i] != text[i] {
            assert(text@.subrange(0, prefix@.len() as int)[i as int] != prefix@[i as int]);
            return false;
        }
        i += 1;
    }
    assert(text@.subrange(0, prefix@.len() as int) =~= prefix@);
    true
}

/// The request path of an entry, from the path that the directory stream
/// gave for it. `None` means that the path does not lie below the root: the
/// entry is then left out.
pub fn entry_uri(path: &str, root: &RootConfig) -> (uri: Option<String>)
    ensures
        match uri {
            Some(u) => uri_below(root.root(), path@) == Some(u@),
            None => uri_below(root.root(), path@) is None,
        },
{
    let p = chars_of(path);
    let r = chars_of(root.root_dir());
    if r.len() > 0 && !has_prefix(&p, &r) {
        None
    } else if r.len() == 1 && r[0] == '/' {
        assert(r@ =~= seq!['/']);
        assert(p@.subrange(0, p@.len() as int) =~= p@);
        Some(text_of(&p, 0, p.len()))
    } else {
        if r.len() == 0 {
            assert(r@.is_prefix_of(p@));
        }
        assert(p@.subrange(r@.len() as int, p@.len() as int) =~= p@.skip(r@.len() as int));
        Some(text_of(&p, r.len(), p.len()))
    }
}

/// Calls `mime_guess::from_ext`, takes the first guess or, where there is
/// none, `application/octet-stream`, and returns the name of its top-level
/// type. Trusted: the name depends on the extension alone, and an empty
/// extension has no guess.
#[verifier::external_body]
fn guess_top_level(extension: &str) -> (name: String)
    ensures
        name@ == mime_top_level(extension@),
        extension@.len() == 0 ==> name@ == octet_stream_top_level(),
{
    mime_guess::from_ext(extension).first_or_octet_stream().type_().as_str().to_string()
}

/// The entry for a child whose media type is already known.
pub fn entry_with_mime(name: &str, meta: &ChildMeta, uri: String, mime_type: String) -> (e:
    EntryInfo)
    ensures
        e@ == entry_with(name@, *meta, uri@, mime_type@),
{
    let ext = extension(name);
    EntryInfo {
        name: name.to_string(),
        extension: to_ascii_lower(ext.as_str()),
        mime_type,
        is_file: meta.is_file,
        last_modified: seconds_as_i64(meta.modified_secs),
        uri,
    }
}

/// The entry for a child: its extension in lower case, and the media type
/// that the extension stands for.
pub fn entry_info(name: &str, meta: &ChildMeta, uri: String) -> (e: EntryInfo)
    ensures
        e@ == entry_of(name@, *meta, uri@),
{
    let ext = extension(name);
    let low = to_ascii_lower(ext.as_str());
    let mime_type = guess_top_level(low.as_str());
    entry_with_mime(name, meta, uri, mime_type)
}

/// Lists one directory level from what was read of it.
///
/// The call fails as a whole with the text of the first read that fails;
/// nothing of a listing is returned then. Otherwise every child whose path
/// begins with the root is listed, in the order of the reads, and no other.
pub fn list_one_level(reads: &Vec<DirRead>, root: &RootConfig) -> (r: Result<Listing, IoError>)
    ensures
        match r {
            Ok(listing) => none_fails(read_views(reads@), root.root()) && listing@ == kept_entries(
                read_views(reads@),
                root.root(),
            ),
            Err(e) => exists|i: int|
                first_failure(read_views(reads@), root.root(), i) && read_outcome(
                    read_views(reads@)[i],
                    root.root(),
                ) == ReadOutcome::Failed(e.message@),
        },
        match r {
            Ok(listing) => listing_result(read_views(reads@), root.root()) == Ok::<
                Seq<EntryView>,
                Seq<char>,
            >(listing@),
            Err(e) => listing_result(read_views(reads@), root.root()) == Err::<
                Seq<EntryView>,
                Seq<char>,
            >(e.message@),
        },
{
    let ghost views = read_views(reads@);
    let mut entries: Vec<EntryInfo> = Vec::new();
    let mut i: usize = 0;
    assert(entries@.map_values(|e: EntryInfo| e@) =~= Seq::empty());
    while i < reads.len()
        invariant
            i <= reads@.len(),
            views == read_views(reads@),
            forall|j: int| 0 <= j < i ==> !fails_at(views, root.root(), j),
            entries@.map_values(|e: EntryInfo| e@) == kept_entries(
                views.take(i as int),
                root.root(),
            ),
        decreases reads@.len() - i,
    {
        let ghost before = entries@.map_values(|e: EntryInfo| e@);
        proof {
            assert(views.take(i + 1).drop_last() =~= views.take(i as int));
            assert(views.take(i + 1).last() == views[i as int]);
            assert(views[i as int] == reads@[i as int]@);
        }
        match &reads[i] {
            DirRead::Failed(e) => {
                proof {
                    assert(first_failure(views, root.root(), i as int));
                    let c = choose|c: int| first_failure(views, root.root(), c);
                    lemma_first_failure_unique(views, root.root(), i as int, c);
                }
                return Err(IoError { message: e.clone() });
            },
            DirRead::Child { path, name, meta } => {
                match entry_uri(path.as_str(), root) {
                    None => {},
                    Some(uri) => {
                        match meta {
                            Err(e) => {
                                proof {
                                    assert(first_failure(views, root.root(), i as int));
                                    let c = choose|c: int| first_failure(views, root.root(), c);
                                    lemma_first_failure_unique(views, root.root(), i as int, c);
                                }
                                return Err(IoError { message: e.clone() });
                            },
                            Ok(m) => {
                                let entry = entry_info(name.as_str(), m, uri);
                                entries.push(entry);
                                assert(entries@.map_values(|e: EntryInfo| e@) =~= before.push(
                                    entry@,
                                ));
                            },
                        }
                    },
                }
            },
        }
        i += 1;
    }
    assert(views.take(i as int) =~= views);
    Ok(Listing { entries })
}

} // verus!
