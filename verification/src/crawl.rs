//! A crawl of a catalog: which files are indexed anew, which are left as they are and
//! which go, and what is remembered for the next crawl.

use vstd::prelude::*;
use vstd::string::*;

use crate::engine::chunk::Chunk;
use crate::engine::uploader::FileSyncInfo;
#[allow(unused_imports)]
use crate::engine::uploader::{
    law_last_point_of_a_file_counts, payload_of, sync_info, with_points, PointPayload, PointResult,
    QdrantId,
};
use crate::hash::content_hash;
#[allow(unused_imports)]
use crate::hash::{content_hash_of, law_hash_covers_the_whole_content, sha256};
use crate::scan::{holds, remove_all};
#[allow(unused_imports)]
use crate::scan::{lemma_nothing_to_remove, occurs, without};
#[allow(unused_imports)]
use crate::text::texts;
use crate::text::same_text;
use crate::text_map::TextMap;
use crate::watcher::CrawlStats;

verus! {

// ---------------------------------------------------------------------------
// Files
// ---------------------------------------------------------------------------

/// A file that a scan of a catalog found
pub struct ScannedFile {
    /// Where the file is read
    pub path: String,
    /// The path under which the index keeps the file
    pub key: String,
}

/// What a crawl does with a file
#[derive(Debug, Clone, Copy, PartialEq, Eq, Structural)]
pub enum FileAction {
    /// Leaves it as it is
    Skip,
    /// Deletes its chunks from the index and indexes it anew
    Replace,
    /// Indexes it for the first time
    Index,
}

/// What a crawl does with a file whose content has a hash, by what the index knows of
/// it. An unchanged and complete file is skipped; but one whose chunking gave a warning
/// is retried until it is clean, unless such files are kept.
pub open spec fn action_for(
    known: Option<FileSyncInfo>,
    hash: Seq<char>,
    warned: bool,
    keep_warned: bool,
) -> FileAction {
    match known {
        None => FileAction::Index,
        Some(info) => if info.content_hash@ == hash && info.file_complete && (!warned
            || keep_warned) {
            FileAction::Skip
        } else {
            FileAction::Replace
        },
    }
}

/// What a crawl does with a file
pub fn choose_action(
    known: Option<&FileSyncInfo>,
    hash: &str,
    warned: bool,
    keep_warned: bool,
) -> (r: FileAction)
    ensures
        r == action_for(
            match known {
                Some(info) => Some(*info),
                None => None,
            },
            hash@,
            warned,
            keep_warned,
        ),
{
    match known {
        None => FileAction::Index,
        Some(info) => {
            if same_text(info.content_hash.as_str(), hash) && info.file_complete && (!warned
                || keep_warned) {
                FileAction::Skip
            } else {
                FileAction::Replace
            }
        },
    }
}

/// A file that was indexed to its end is skipped for as long as its content stays, if
/// its chunking gave no warning.
pub proof fn law_unchanged_complete_file_is_skipped(info: FileSyncInfo, keep_warned: bool)
    requires
        info.file_complete,
    ensures
        action_for(Some(info), info.content_hash@, false, keep_warned) == FileAction::Skip,
{
}

/// A file that was not indexed to its end is never skipped.
pub proof fn law_incomplete_file_is_retried(
    info: FileSyncInfo,
    hash: Seq<char>,
    warned: bool,
    keep_warned: bool,
)
    requires
        !info.file_complete,
    ensures
        action_for(Some(info), hash, warned, keep_warned) == FileAction::Replace,
{
}

/// A file whose content has another hash than the index holds is never skipped.
pub proof fn law_changed_file_is_reindexed(
    info: FileSyncInfo,
    hash: Seq<char>,
    warned: bool,
    keep_warned: bool,
)
    requires
        info.content_hash@ != hash,
    ensures
        action_for(Some(info), hash, warned, keep_warned) == FileAction::Replace,
{
}

/// A file with a warning is retried by every crawl that does not keep such files.
pub proof fn law_warned_file_is_retried(known: Option<FileSyncInfo>, hash: Seq<char>)
    ensures
        action_for(known, hash, true, false) != FileAction::Skip,
{
}

/// A file whose chunks were stored, but which was not marked as complete, is indexed
/// anew; once it is marked, it is skipped for as long as its content has the hash that
/// was stored with it.
pub proof fn law_upload_counts_once_it_is_marked(
    chunk: Chunk,
    id: QdrantId,
    warned: bool,
    keep_warned: bool,
)
    ensures
        ({
            let stored = PointResult { id, payload: payload_of(chunk) };
            let marked = PointResult {
                id,
                payload: PointPayload { file_complete: true, ..payload_of(chunk) },
            };
            let hash = chunk.content_hash@;
            &&& action_for(Some(sync_info(stored)), hash, warned, keep_warned)
                == FileAction::Replace
            &&& action_for(Some(sync_info(marked)), hash, false, keep_warned) == FileAction::Skip
        }),
{
}

// ---------------------------------------------------------------------------
// Breadcrumbs
// ---------------------------------------------------------------------------

/// What a breadcrumb holds where a chunk was split without a good place to split.
pub open spec fn fallback_mark() -> Seq<char> {
    "[fallback-split]"@
}

/// The mark as it is appended to a breadcrumb.
pub open spec fn fallback_suffix() -> Seq<char> {
    ":[fallback-split]"@
}

/// Whether a chunk was split without a good place to split.
pub open spec fn has_mark(chunk: Chunk) -> bool {
    occurs(fallback_mark(), chunk.breadcrumb@)
}

/// Whether one of several chunks was split without a good place to split.
pub open spec fn some_mark(chunks: Seq<Chunk>) -> bool {
    exists|i: int| 0 <= i < chunks.len() && has_mark(#[trigger] chunks[i])
}

/// Whether `out` is `chunk` with the mark taken off its breadcrumb.
pub open spec fn is_stripped(chunk: Chunk, out: Chunk) -> bool {
    &&& out.breadcrumb@ == without(chunk.breadcrumb@, fallback_suffix())
    &&& out == (Chunk { breadcrumb: out.breadcrumb, ..chunk })
}

/// Whether each chunk of `out` is that of `chunks` with the mark taken off.
pub open spec fn all_stripped(chunks: Seq<Chunk>, out: Seq<Chunk>) -> bool {
    &&& out.len() == chunks.len()
    &&& forall|i: int| 0 <= i < out.len() ==> is_stripped(chunks[i], #[trigger] out[i])
}

/// Takes the mark off a breadcrumb.
pub fn strip_mark(breadcrumb: &str) -> (r: String)
    ensures
        r@ == without(breadcrumb@, fallback_suffix()),
{
    remove_all(breadcrumb, ":[fallback-split]")
}

/// A breadcrumb without the mark is kept as it is.
pub proof fn law_unmarked_breadcrumb_is_kept(breadcrumb: Seq<char>)
    requires
        !occurs(fallback_mark(), breadcrumb),
    ensures
        without(breadcrumb, fallback_suffix()) == breadcrumb,
{
    let mark = fallback_mark();
    let suffix = fallback_suffix();
    reveal_strlit("[fallback-split]");
    reveal_strlit(":[fallback-split]");
    assert(suffix =~= seq![':'] + mark);
    if occurs(suffix, breadcrumb) {
        let i = choose|i: int|
            0 <= i <= breadcrumb.len() && #[trigger] suffix.is_prefix_of(breadcrumb.skip(i));
        let at = breadcrumb.skip(i);
        assert(suffix =~= at.take(suffix.len() as int));
        assert(breadcrumb.skip(i + 1).take(mark.len() as int) =~= mark) by {
            assert forall|k: int| 0 <= k < mark.len() implies breadcrumb.skip(i + 1)[k]
                == mark[k] by {
                assert(at[k + 1] == suffix[k + 1]);
            }
        }
        assert(mark.is_prefix_of(breadcrumb.skip(i + 1)));
    }
    lemma_nothing_to_remove(breadcrumb, suffix);
}

/// What was appended to a breadcrumb as the mark is what is taken off again.
pub proof fn law_stripping_undoes_marking(breadcrumb: Seq<char>)
    requires
        !occurs(fallback_mark(), breadcrumb),
    ensures
        without(breadcrumb + fallback_suffix(), fallback_suffix()) == breadcrumb,
    decreases breadcrumb.len(),
{
    let mark = fallback_mark();
    let suffix = fallback_suffix();
    reveal_strlit("[fallback-split]");
    reveal_strlit(":[fallback-split]");
    assert(suffix =~= seq![':'] + mark);
    let s = breadcrumb + suffix;
    if breadcrumb.len() == 0 {
        reveal_with_fuel(without, 2);
        assert(s =~= suffix);
        assert(s.subrange(0, suffix.len() as int) =~= suffix);
        assert(s.skip(suffix.len() as int) =~= Seq::<char>::empty());
        assert(without(s, suffix) =~= breadcrumb);
    } else {
        let n = breadcrumb.len() as int;
        if suffix.is_prefix_of(s) {
            assert(suffix =~= s.subrange(0, suffix.len() as int));
            if n < suffix.len() {
                assert(suffix[n] == s[n]);
                assert(s[n] == ':');
                assert(mark[n - 1] != ':');
            } else {
                assert(breadcrumb.skip(1).subrange(0, mark.len() as int) =~= mark) by {
                    assert forall|k: int| 0 <= k < mark.len() implies breadcrumb.skip(1)[k]
                        == mark[k] by {
                        assert(s[k + 1] == suffix[k + 1]);
                    }
                }
                assert(mark.is_prefix_of(breadcrumb.skip(1)));
            }
        }
        let rest = breadcrumb.skip(1);
        assert forall|i: int| 0 <= i <= rest.len() implies !#[trigger] mark.is_prefix_of(
            rest.skip(i),
        ) by {
            assert(rest.skip(i) =~= breadcrumb.skip(i + 1));
        }
        law_stripping_undoes_marking(rest);
        assert(s.skip(1) =~= rest + suffix);
        assert(without(s, suffix) =~= breadcrumb);
    }
}

// ---------------------------------------------------------------------------
// The crawl
// ---------------------------------------------------------------------------

/// Where a crawl stands
#[verifier::ext_equal]
pub struct CrawlState {
    /// The path and the key of each file that the scan found
    pub files: Seq<(Seq<char>, Seq<char>)>,
    /// The number of files that were dealt with
    pub position: nat,
    /// What the index knew before the crawl
    pub existing: Map<Seq<char>, FileSyncInfo>,
    /// The files with warnings from earlier crawls
    pub prior: Set<Seq<char>>,
    /// Whether files with warnings are skipped like others
    pub keep_warned: bool,
    pub new_files: nat,
    pub changed_files: nat,
    pub unchanged_files: nat,
    /// The files that this crawl left as they are
    pub skipped: Set<Seq<char>>,
    /// The files with warnings from this crawl
    pub warned: Set<Seq<char>>,
}

/// A crawl of a catalog
pub struct Crawl {
    files: Vec<ScannedFile>,
    keys: TextMap<()>,
    position: usize,
    existing: TextMap<FileSyncInfo>,
    prior: TextMap<()>,
    keep_warned: bool,
    new_files: usize,
    changed_files: usize,
    unchanged_files: usize,
    skipped: TextMap<()>,
    warned: TextMap<()>,
}

/// The path and the key of each file of a list
pub open spec fn scanned(files: Seq<ScannedFile>) -> Seq<(Seq<char>, Seq<char>)> {
    files.map_values(|f: ScannedFile| (f.path@, f.key@))
}

/// What the index knows of a file
pub open spec fn known(existing: Map<Seq<char>, FileSyncInfo>, key: Seq<char>) -> Option<
    FileSyncInfo,
> {
    if existing.contains_key(key) {
        Some(existing[key])
    } else {
        None
    }
}

/// Whether one of several files has a key
pub open spec fn has_key(files: Seq<(Seq<char>, Seq<char>)>, key: Seq<char>) -> bool {
    exists|i: int| 0 <= i < files.len() && (#[trigger] files[i]).1 == key
}

/// Whether the index keeps a file that the scan did not find
pub open spec fn is_orphan(state: CrawlState, key: Seq<char>) -> bool {
    state.existing.contains_key(key) && !has_key(state.files, key)
}

/// What a crawl does with its next file, by the hash of the file's content
pub open spec fn next_action(state: CrawlState, hash: Seq<char>) -> FileAction {
    let file = state.files[state.position as int];
    action_for(
        known(state.existing, file.1),
        hash,
        state.prior.contains(file.0),
        state.keep_warned,
    )
}

/// Where a crawl stands after its next file, which has a hash or could not be read
pub open spec fn after_file(state: CrawlState, hash: Option<Seq<char>>) -> CrawlState {
    let state2 = CrawlState { position: state.position + 1, ..state };
    match hash {
        None => state2,
        Some(h) => match next_action(state, h) {
            FileAction::Skip => CrawlState {
                unchanged_files: state.unchanged_files + 1,
                skipped: state.skipped.insert(state.files[state.position as int].0),
                ..state2
            },
            FileAction::Replace => CrawlState {
                changed_files: state.changed_files + 1,
                ..state2
            },
            FileAction::Index => CrawlState { new_files: state.new_files + 1, ..state2 },
        },
    }
}

/// Each file that can be read is counted once: as new, as changed or as unchanged.
pub proof fn law_each_file_is_counted_once(state: CrawlState, hash: Option<Seq<char>>)
    ensures
        ({
            let next = after_file(state, hash);
            next.new_files + next.changed_files + next.unchanged_files == state.new_files
                + state.changed_files + state.unchanged_files + if hash is Some {
                1nat
            } else {
                0nat
            }
        }),
{
}

/// A file that the index lists as complete, with the hash of the content that the file
/// still has, is skipped, unless a warning calls for a retry.
pub proof fn law_stored_file_is_skipped(
    state: CrawlState,
    points: Seq<PointResult>,
    i: int,
    content: Seq<char>,
)
    requires
        state.position < state.files.len(),
        state.existing == with_points(Map::empty(), points),
        0 <= i < points.len(),
        points[i].payload.source_uri@ == state.files[state.position as int].1,
        forall|j: int|
            i < j < points.len() ==> (#[trigger] points[j]).payload.source_uri@
                != state.files[state.position as int].1,
        points[i].payload.content_hash@ == content_hash_of(content),
        points[i].payload.file_complete,
        state.prior.contains(state.files[state.position as int].0) ==> state.keep_warned,
    ensures
        next_action(state, content_hash_of(content)) == FileAction::Skip,
{
    law_last_point_of_a_file_counts(points, state.files[state.position as int].1);
}

/// Where a crawl stands after several files, of which each has a hash or could not be
/// read.
pub open spec fn after_files(state: CrawlState, hashes: Seq<Option<Seq<char>>>) -> CrawlState
    decreases hashes.len(),
{
    if hashes.len() == 0 {
        state
    } else {
        after_file(after_files(state, hashes.drop_last()), hashes.last())
    }
}

/// The number of files that could be read.
pub open spec fn readable(hashes: Seq<Option<Seq<char>>>) -> nat
    decreases hashes.len(),
{
    if hashes.len() == 0 {
        0
    } else {
        readable(hashes.drop_last()) + if hashes.last() is Some {
            1nat
        } else {
            0nat
        }
    }
}

/// The counts of a crawl add up to the files that could be read, and what the index knew
/// before the crawl decides about all of them.
pub proof fn law_counts_add_up(state: CrawlState, hashes: Seq<Option<Seq<char>>>)
    requires
        state.new_files + state.changed_files + state.unchanged_files == 0,
    ensures
        ({
            let done = after_files(state, hashes);
            &&& done.new_files + done.changed_files + done.unchanged_files == readable(hashes)
            &&& done.position == state.position + hashes.len()
            &&& done.existing == state.existing
            &&& done.prior == state.prior
            &&& done.files == state.files
        }),
    decreases hashes.len(),
{
    if hashes.len() > 0 {
        law_counts_add_up(state, hashes.drop_last());
    }
}

/// Whether the next crawl is to know of a warning for a file: one from this crawl, or,
/// where files with warnings are kept, one from an earlier crawl for a file that this
/// crawl skipped.
pub open spec fn is_remembered(state: CrawlState, path: Seq<char>) -> bool {
    state.warned.contains(path) || (state.keep_warned && state.prior.contains(path)
        && state.skipped.contains(path))
}

/// A crawl skips no files but those that its scan found.
pub proof fn law_only_found_files_are_skipped(
    state: CrawlState,
    hashes: Seq<Option<Seq<char>>>,
    path: Seq<char>,
)
    requires
        state.position + hashes.len() <= state.files.len(),
    ensures
        after_files(state, hashes).skipped.contains(path) ==> state.skipped.contains(path)
            || exists|i: int|
            state.position <= i < state.position + hashes.len() && (#[trigger] state.files[i]).0
                == path,
    decreases hashes.len(),
{
    if hashes.len() > 0 {
        let before = after_files(state, hashes.drop_last());
        law_only_found_files_are_skipped(state, hashes.drop_last(), path);
        lemma_files_stay(state, hashes.drop_last());
        assert(before.files[before.position as int] == state.files[before.position as int]);
    }
}

proof fn lemma_files_stay(state: CrawlState, hashes: Seq<Option<Seq<char>>>)
    ensures
        after_files(state, hashes).files == state.files,
        after_files(state, hashes).position == state.position + hashes.len(),
    decreases hashes.len(),
{
    if hashes.len() > 0 {
        lemma_files_stay(state, hashes.drop_last());
    }
}

/// An earlier warning for a file that the scan does not find any more is forgotten.
pub proof fn law_missing_file_is_forgotten(
    state: CrawlState,
    hashes: Seq<Option<Seq<char>>>,
    path: Seq<char>,
)
    requires
        state.position + hashes.len() <= state.files.len(),
        state.skipped == Set::<Seq<char>>::empty(),
        forall|i: int| 0 <= i < state.files.len() ==> (#[trigger] state.files[i]).0 != path,
    ensures
        is_remembered(after_files(state, hashes), path) == after_files(
            state,
            hashes,
        ).warned.contains(path),
{
    law_only_found_files_are_skipped(state, hashes, path);
}

/// A warning for a file that this crawl skips is still known to the next one.
pub proof fn law_skipped_file_keeps_its_warning(state: CrawlState, hash: Seq<char>)
    requires
        next_action(state, hash) == FileAction::Skip,
        state.prior.contains(state.files[state.position as int].0),
    ensures
        is_remembered(after_file(state, Some(hash)), state.files[state.position as int].0),
{
}

/// A file whose chunking gave a warning is taken up again by the next crawl, even where
/// its content stays.
pub proof fn law_warning_sticks(last: CrawlState, next: CrawlState, hash: Seq<char>)
    requires
        forall|path: Seq<char>| #[trigger]
            next.prior.contains(path) <==> is_remembered(last, path),
        !next.keep_warned,
        last.warned.contains(next.files[next.position as int].0),
    ensures
        next_action(next, hash) != FileAction::Skip,
{
}

/// A file whose chunking gave no warning any more is skipped by the next crawl, if it is
/// complete and its content stays. Where files with warnings are kept, this holds of those
/// that were chunked anew.
pub proof fn law_clean_file_is_let_go(last: CrawlState, next: CrawlState, hash: Seq<char>)
    requires
        forall|path: Seq<char>| #[trigger]
            next.prior.contains(path) <==> is_remembered(last, path),
        !last.keep_warned || !last.skipped.contains(next.files[next.position as int].0),
        !last.warned.contains(next.files[next.position as int].0),
        next.existing.contains_key(next.files[next.position as int].1),
        next.existing[next.files[next.position as int].1].content_hash@ == hash,
        next.existing[next.files[next.position as int].1].file_complete,
    ensures
        next_action(next, hash) == FileAction::Skip,
{
}

/// A file that the scan found is not deleted as an orphan, and one that the index does
/// not know is none either.
pub proof fn law_orphans_are_known_and_missing(state: CrawlState, i: int, key: Seq<char>)
    requires
        0 <= i < state.files.len(),
    ensures
        !is_orphan(state, state.files[i].1),
        !state.existing.contains_key(key) ==> !is_orphan(state, key),
{
}

/// Every file that the index keeps and that no scanned file stands for is an orphan, and no
/// other is, whatever the crawl did with the files that it found.
pub proof fn law_every_missing_file_is_an_orphan(state: CrawlState, key: Seq<char>)
    ensures
        is_orphan(state, key) <==> state.existing.contains_key(key) && forall|i: int|
            0 <= i < state.files.len() ==> (#[trigger] state.files[i]).1 != key,
{
}

/// Which files are orphans is settled by the scan and the index before the crawl: what was
/// new, changed, skipped or warned of plays no part.
pub proof fn law_orphans_are_settled_beforehand(
    state: CrawlState,
    hashes: Seq<Option<Seq<char>>>,
    key: Seq<char>,
)
    ensures
        is_orphan(after_files(state, hashes), key) <==> is_orphan(state, key),
        is_orphan(CrawlState { warned: Set::empty(), ..state }, key) <==> is_orphan(state, key),
    decreases hashes.len(),
{
    if hashes.len() > 0 {
        law_orphans_are_settled_beforehand(state, hashes.drop_last(), key);
    }
}

impl View for Crawl {
    type V = CrawlState;

    closed spec fn view(&self) -> CrawlState {
        CrawlState {
            files: scanned(self.files@),
            position: self.position as nat,
            existing: self.existing@,
            prior: self.prior@.dom(),
            keep_warned: self.keep_warned,
            new_files: self.new_files as nat,
            changed_files: self.changed_files as nat,
            unchanged_files: self.unchanged_files as nat,
            skipped: self.skipped@.dom(),
            warned: self.warned@.dom(),
        }
    }
}

fn keys_of(files: &Vec<ScannedFile>) -> (r: TextMap<()>)
    ensures
        r.wf(),
        forall|key: Seq<char>| #[trigger]
            r@.contains_key(key) <==> has_key(scanned(files@), key),
{
    let mut keys: TextMap<()> = TextMap::new();
    let n: usize = files.len();
    let mut i: usize = 0;
    while i < n
        invariant
            n == files@.len(),
            i <= n,
            keys.wf(),
            forall|key: Seq<char>| #[trigger]
                keys@.contains_key(key) <==> has_key(scanned(files@.take(i as int)), key),
        decreases n - i,
    {
        let ghost before = keys@;
        keys.insert(files[i].key.as_str(), ());
        proof {
            let had = scanned(files@.take(i as int));
            let now = scanned(files@.take(i + 1));
            assert(now =~= had.push((files@[i as int].path@, files@[i as int].key@)));
            assert forall|key: Seq<char>| #[trigger]
                keys@.contains_key(key) <==> has_key(now, key) by {
                assert(before.contains_key(key) <==> has_key(had, key));
                if has_key(had, key) {
                    let j = choose|j: int| 0 <= j < had.len() && (#[trigger] had[j]).1 == key;
                    assert(now[j].1 == key);
                }
                if has_key(now, key) {
                    let j = choose|j: int| 0 <= j < now.len() && (#[trigger] now[j]).1 == key;
                    if j < had.len() {
                        assert(had[j].1 == key);
                    }
                }
                assert(now[had.len() as int].1 == files@[i as int].key@);
            }
        }
        i = i + 1;
    }
    assert(files@.take(n as int) =~= files@);
    keys
}

impl Crawl {
    /// No more files are counted than were dealt with, and no more were dealt with than
    /// there are.
    pub closed spec fn wf(self) -> bool {
        &&& self.position <= self.files@.len()
        &&& self.new_files + self.changed_files + self.unchanged_files <= self.position
        &&& self.files@.len() + self.existing.order().len() <= usize::MAX
        &&& self.keys.wf()
        &&& forall|key: Seq<char>| #[trigger]
            self.keys@.contains_key(key) <==> has_key(scanned(self.files@), key)
        &&& self.existing.wf()
        &&& self.prior.wf()
        &&& self.skipped.wf()
        &&& self.warned.wf()
    }

    /// A crawl of the files that a scan found, by what the index knows
    pub fn new(
        files: Vec<ScannedFile>,
        existing: TextMap<FileSyncInfo>,
        prior: &Vec<String>,
        keep_warned: bool,
    ) -> (r: Self)
        requires
            existing.wf(),
            files@.len() + existing.order().len() <= usize::MAX,
        ensures
            r.wf(),
            r@ == (CrawlState {
                files: scanned(files@),
                position: 0,
                existing: existing@,
                prior: texts(prior@).to_set(),
                keep_warned,
                new_files: 0,
                changed_files: 0,
                unchanged_files: 0,
                skipped: Set::empty(),
                warned: Set::empty(),
            }),
    {
        let mut set: TextMap<()> = TextMap::new();
        let n: usize = prior.len();
        let mut i: usize = 0;
        assert(set@.dom() =~= texts(prior@.take(0)).to_set());
        while i < n
            invariant
                n == prior@.len(),
                i <= n,
                set.wf(),
                set@.dom() == texts(prior@.take(i as int)).to_set(),
            decreases n - i,
        {
            set.insert(prior[i].as_str(), ());
            proof {
                let now = texts(prior@.take(i + 1));
                let before = texts(prior@.take(i as int));
                assert(now =~= before.push(prior@[i as int]@));
                assert forall|k: Seq<char>| now.contains(k) <==> before.contains(k) || k
                    == prior@[i as int]@ by {
                    if now.contains(k) {
                        let j = choose|j: int| 0 <= j < now.len() && now[j] == k;
                        if j < before.len() {
                            assert(before[j] == k);
                        }
                    }
                    if before.contains(k) {
                        let j = choose|j: int| 0 <= j < before.len() && before[j] == k;
                        assert(now[j] == k);
                    }
                    assert(now[before.len() as int] == prior@[i as int]@);
                }
                assert(set@.dom() =~= now.to_set());
            }
            i = i + 1;
        }
        assert(prior@.take(n as int) =~= prior@);
        let keys = keys_of(&files);
        let r = Crawl {
            files,
            keys,
            position: 0,
            existing,
            prior: set,
            keep_warned,
            new_files: 0,
            changed_files: 0,
            unchanged_files: 0,
            skipped: TextMap::new(),
            warned: TextMap::new(),
        };
        assert(r@.skipped =~= Set::<Seq<char>>::empty());
        assert(r@.warned =~= Set::<Seq<char>>::empty());
        r
    }

    /// The path of the file that the crawl deals with next, while there is one
    pub fn next_path(&self) -> (r: Option<&str>)
        requires
            self.wf(),
        ensures
            match r {
                Some(path) => self@.position < self@.files.len() && path@
                    == self@.files[self@.position as int].0,
                None => self@.position == self@.files.len(),
            },
    {
        if self.position < self.files.len() {
            Some(self.files[self.position].path.as_str())
        } else {
            None
        }
    }

    /// The number of files with warnings from earlier crawls
    pub fn prior_warnings(&self) -> (r: usize)
        requires
            self.wf(),
        ensures
            r == self@.prior.len(),
    {
        proof {
            lemma_set_size(&self.prior);
        }
        self.prior.len()
    }

    /// The number of files with warnings from this crawl
    pub fn warnings(&self) -> (r: usize)
        requires
            self.wf(),
        ensures
            r == self@.warned.len(),
    {
        proof {
            lemma_set_size(&self.warned);
        }
        self.warned.len()
    }

    /// Deals with the next file, which has a hash or could not be read. A file that could
    /// not be read is skipped and not counted.
    pub fn decide(&mut self, hash: Option<&str>) -> (r: FileAction)
        requires
            old(self).wf(),
            old(self)@.position < old(self)@.files.len(),
        ensures
            final(self).wf(),
            final(self)@ == after_file(
                old(self)@,
                match hash {
                    Some(h) => Some(h@),
                    None => None,
                },
            ),
            r == match hash {
                Some(h) => next_action(old(self)@, h@),
                None => FileAction::Skip,
            },
    {
        let action = match hash {
            Some(h) => {
                let file = &self.files[self.position];
                let known = self.existing.get(file.key.as_str());
                let warned = self.prior.contains(file.path.as_str());
                let action = choose_action(known, h, warned, self.keep_warned);
                match action {
                    FileAction::Skip => {
                        self.unchanged_files = self.unchanged_files + 1;
                        self.skipped.insert(file.path.as_str(), ());
                        assert(self@.skipped =~= old(self)@.skipped.insert(
                            old(self)@.files[old(self)@.position as int].0,
                        ));
                    },
                    FileAction::Replace => {
                        self.changed_files = self.changed_files + 1;
                    },
                    FileAction::Index => {
                        self.new_files = self.new_files + 1;
                    },
                }
                action
            },
            None => FileAction::Skip,
        };
        self.position = self.position + 1;
        action
    }

    /// Deals with the next file by its content, or by the lack of it where the file could
    /// not be read
    pub fn read(&mut self, content: Option<&str>) -> (r: FileAction)
        requires
            old(self).wf(),
            old(self)@.position < old(self)@.files.len(),
        ensures
            final(self).wf(),
            final(self)@ == after_file(
                old(self)@,
                match content {
                    Some(c) => Some(content_hash_of(c@)),
                    None => None,
                },
            ),
            r == match content {
                Some(c) => next_action(old(self)@, content_hash_of(c@)),
                None => FileAction::Skip,
            },
    {
        match content {
            Some(c) => {
                let hash = content_hash(c);
                self.decide(Some(hash.as_str()))
            },
            None => self.decide(None),
        }
    }
}

impl Crawl {
    /// Takes the chunks of the file that was dealt with last. Where one of them was split
    /// without a good place to split, the file is remembered as one with a warning, and
    /// `true` comes back; the marks are taken off in any case.
    pub fn take_chunks(&mut self, chunks: Vec<Chunk>) -> (r: (Vec<Chunk>, bool))
        requires
            old(self).wf(),
            old(self)@.position > 0,
        ensures
            final(self).wf(),
            final(self)@ == (CrawlState {
                warned: if some_mark(chunks@) {
                    old(self)@.warned.insert(old(self)@.files[old(self)@.position - 1].0)
                } else {
                    old(self)@.warned
                },
                ..old(self)@
            }),
            all_stripped(chunks@, r.0@),
            r.1 == some_mark(chunks@),
    {
        let mut out: Vec<Chunk> = Vec::new();
        let mut marked = false;
        for chunk in it: chunks
            invariant
                it.seq() == chunks@,
                all_stripped(chunks@.take(it.index() as int), out@),
                marked == some_mark(chunks@.take(it.index() as int)),
        {
            let ghost before = out@;
            let ghost had = chunks@.take(it.index() as int);
            let ghost whole = chunk;
            let holds_mark = holds(chunk.breadcrumb.as_str(), "[fallback-split]");
            let breadcrumb = strip_mark(chunk.breadcrumb.as_str());
            let mut stripped = chunk;
            stripped.breadcrumb = breadcrumb;
            out.push(stripped);
            proof {
                let now = chunks@.take(it.index() + 1);
                assert(now =~= had.push(whole));
                assert(is_stripped(whole, stripped));
                assert forall|i: int| 0 <= i < out@.len() implies is_stripped(
                    now[i],
                    #[trigger] out@[i],
                ) by {
                    if i < before.len() {
                        assert(is_stripped(had[i], before[i]));
                    }
                }
                if some_mark(had) {
                    let i = choose|i: int| 0 <= i < had.len() && has_mark(#[trigger] had[i]);
                    assert(has_mark(now[i]));
                }
                if some_mark(now) {
                    let i = choose|i: int| 0 <= i < now.len() && has_mark(#[trigger] now[i]);
                    if i < had.len() {
                        assert(has_mark(had[i]));
                    }
                }
                assert(now[had.len() as int] == whole);
            }
            if holds_mark {
                marked = true;
            }
        }
        assert(chunks@.take(chunks@.len() as int) =~= chunks@);
        if marked {
            self.warned.insert(self.files[self.position - 1].path.as_str(), ());
            assert(self@.warned =~= old(self)@.warned.insert(
                old(self)@.files[old(self)@.position - 1].0,
            ));
        }
        (out, marked)
    }

    /// The files that the index keeps and the scan did not find
    pub fn orphans(&self) -> (r: Vec<String>)
        requires
            self.wf(),
        ensures
            texts(r@).no_duplicates(),
            forall|key: Seq<char>| #[trigger] texts(r@).contains(key) <==> is_orphan(self@, key),
            forall|key: Seq<char>| #[trigger]
                texts(r@).contains(key) <==> self@.existing.contains_key(key) && forall|i: int|
                    0 <= i < self@.files.len() ==> (#[trigger] self@.files[i]).1 != key,
            r@.len() + self@.files.len() <= usize::MAX,
    {
        let mut out: Vec<String> = Vec::new();
        let n: usize = self.existing.len();
        let ghost order = self.existing.order();
        let mut i: usize = 0;
        assert(texts(out@) =~= Seq::<Seq<char>>::empty());
        while i < n
            invariant
                self.wf(),
                order == self.existing.order(),
                n == order.len(),
                i <= n,
                out@.len() <= i,
                texts(out@).no_duplicates(),
                forall|key: Seq<char>| #[trigger]
                    texts(out@).contains(key) <==> is_orphan(self@, key) && order.take(
                        i as int,
                    ).contains(key),
            decreases n - i,
        {
            let key = self.existing.key(i);
            let ghost before = texts(out@);
            proof {
                assert(order.contains(order[i as int]));
                assert(self.existing@.contains_key(key@));
                lemma_push_contains(order.take(i as int), key@);
                assert(order.take(i + 1) =~= order.take(i as int).push(key@));
                lemma_push_contains(before, key@);
            }
            if !self.keys.contains(key) {
                assert(is_orphan(self@, key@));
                assert(!order.take(i as int).contains(key@)) by {
                    if order.take(i as int).contains(key@) {
                        let j = choose|j: int|
                            0 <= j < i && order.take(i as int)[j] == key@;
                        assert(order[j] == order[i as int]);
                    }
                }
                assert(!before.contains(key@));
                out.push(key.to_owned());
                assert(texts(out@) =~= before.push(key@));
            } else {
                assert(!is_orphan(self@, key@));
            }
            i = i + 1;
        }
        proof {
            assert(order.take(n as int) =~= order);
            assert forall|key: Seq<char>| #[trigger]
                texts(out@).contains(key) <==> is_orphan(self@, key) by {
                assert(self.existing@.contains_key(key) <==> order.contains(key));
            }
        }
        out
    }

    /// The files with warnings from this crawl
    pub fn warned_files(&self) -> (r: Vec<String>)
        requires
            self.wf(),
        ensures
            texts(r@).no_duplicates(),
            forall|path: Seq<char>| #[trigger]
                texts(r@).contains(path) <==> self@.warned.contains(path),
    {
        let out = listed(&self.warned);
        proof {
            assert forall|path: Seq<char>| #[trigger]
                texts(out@).contains(path) <==> self@.warned.contains(path) by {
                assert(self.warned@.contains_key(path) <==> self.warned.order().contains(path));
            }
        }
        out
    }

    /// The number of files whose chunks were deleted from the index, orphans among them
    pub fn deleted_in_all(&self, orphans: usize) -> (r: usize)
        requires
            self.wf(),
            orphans + self@.files.len() <= usize::MAX,
        ensures
            r == self@.changed_files + orphans,
    {
        self.changed_files + orphans
    }

    /// What the crawl did, once the orphans were deleted and a number of chunks embedded
    pub fn stats(&self, orphans: usize, chunks: usize) -> (r: CrawlStats)
        ensures
            r.new_files == self@.new_files,
            r.changed_files == self@.changed_files,
            r.unchanged_files == self@.unchanged_files,
            r.deleted_files == orphans,
            r.chunks_embedded == chunks,
    {
        CrawlStats {
            new_files: self.new_files,
            changed_files: self.changed_files,
            unchanged_files: self.unchanged_files,
            deleted_files: orphans,
            chunks_embedded: chunks,
        }
    }

    /// The files with warnings that the next crawl is to know of: those of this crawl, and
    /// where such files are kept, those of earlier crawls that this one skipped
    pub fn next_warnings(&self) -> (r: Vec<String>)
        requires
            self.wf(),
        ensures
            texts(r@).no_duplicates(),
            forall|path: Seq<char>| #[trigger]
                texts(r@).contains(path) <==> is_remembered(self@, path),
    {
        let mut out = self.warned_files();
        if !self.keep_warned {
            return out;
        }
        let n: usize = self.prior.len();
        let ghost order = self.prior.order();
        let mut i: usize = 0;
        while i < n
            invariant
                self.wf(),
                order == self.prior.order(),
                n == order.len(),
                i <= n,
                texts(out@).no_duplicates(),
                forall|path: Seq<char>| #[trigger]
                    texts(out@).contains(path) <==> self@.warned.contains(path) || (order.take(
                        i as int,
                    ).contains(path) && self@.skipped.contains(path)),
            decreases n - i,
        {
            let path = self.prior.key(i);
            let ghost before = texts(out@);
            proof {
                lemma_push_contains(order.take(i as int), path@);
                assert(order.take(i + 1) =~= order.take(i as int).push(path@));
                lemma_push_contains(before, path@);
            }
            if self.skipped.contains(path) && !self.warned.contains(path) {
                assert(!order.take(i as int).contains(path@)) by {
                    if order.take(i as int).contains(path@) {
                        let j = choose|j: int|
                            0 <= j < i && order.take(i as int)[j] == path@;
                        assert(order[j] == order[i as int]);
                    }
                }
                assert(!before.contains(path@));
                out.push(path.to_owned());
                assert(texts(out@) =~= before.push(path@));
            } else {
                assert(self@.warned.contains(path@) || !self@.skipped.contains(path@));
            }
            i = i + 1;
        }
        proof {
            assert(order.take(n as int) =~= order);
            assert forall|path: Seq<char>| #[trigger]
                texts(out@).contains(path) <==> is_remembered(self@, path) by {
                assert(self.prior@.contains_key(path) <==> order.contains(path));
            }
        }
        out
    }
}

/// A list keeps what it holds when something that is not in it is added, and holds that
/// too.
proof fn lemma_push_contains(list: Seq<Seq<char>>, next: Seq<char>)
    ensures
        forall|k: Seq<char>| #[trigger]
            list.push(next).contains(k) <==> list.contains(k) || k == next,
        list.no_duplicates() && !list.contains(next) ==> list.push(next).no_duplicates(),
{
    let more = list.push(next);
    assert forall|k: Seq<char>| #[trigger] more.contains(k) <==> list.contains(k) || k == next by {
        if more.contains(k) {
            let i = choose|i: int| 0 <= i < more.len() && more[i] == k;
            if i < list.len() {
                assert(list[i] == k);
            }
        }
        if list.contains(k) {
            let i = choose|i: int| 0 <= i < list.len() && list[i] == k;
            assert(more[i] == k);
        }
        assert(more[list.len() as int] == next);
    }
    if list.no_duplicates() && !list.contains(next) {
        assert forall|a: int, b: int|
            0 <= a < more.len() && 0 <= b < more.len() && a != b implies more[a] != more[b] by {
            if a < list.len() {
                assert(list.contains(list[a]));
            }
            if b < list.len() {
                assert(list.contains(list[b]));
            }
        }
    }
}

fn listed(set: &TextMap<()>) -> (r: Vec<String>)
    requires
        set.wf(),
    ensures
        texts(r@) == set.order(),
{
    let mut out: Vec<String> = Vec::new();
    let n: usize = set.len();
    let mut i: usize = 0;
    assert(texts(out@) =~= set.order().take(0));
    while i < n
        invariant
            n == set.order().len(),
            i <= n,
            texts(out@) == set.order().take(i as int),
        decreases n - i,
    {
        let ghost before = texts(out@);
        out.push(set.key(i).to_owned());
        assert(texts(out@) =~= before.push(set.order()[i as int]));
        assert(set.order().take(i + 1) =~= before.push(set.order()[i as int]));
        i = i + 1;
    }
    assert(set.order().take(n as int) =~= set.order());
    out
}

proof fn lemma_set_size<V>(map: &TextMap<V>)
    requires
        map.wf(),
    ensures
        map@.dom().len() == map.order().len(),
{
    map.order().unique_seq_to_set();
    assert(map@.dom() =~= map.order().to_set());
}

// ---------------------------------------------------------------------------
// Further laws
// ---------------------------------------------------------------------------

/// What is done with a file, for each thing that may be known of it: one that the index
/// does not hold is indexed; one that it holds is left alone exactly where it is complete,
/// has the same hash and gives no cause for a retry, and is replaced in all other cases.
pub proof fn law_what_is_done_with_a_file(
    known: Option<FileSyncInfo>,
    hash: Seq<char>,
    warned: bool,
    keep_warned: bool,
)
    ensures
        action_for(known, hash, warned, keep_warned) == FileAction::Index <==> known is None,
        action_for(known, hash, warned, keep_warned) == FileAction::Skip <==> known is Some
            && known->0.content_hash@ == hash && known->0.file_complete && (warned
            ==> keep_warned),
        known is Some && (known->0.content_hash@ != hash || !known->0.file_complete || (warned
            && !keep_warned)) ==> action_for(known, hash, warned, keep_warned)
            == FileAction::Replace,
{
}

/// What is done with the next file rests on what the index knows under the key of that very
/// file and on whether its path was warned of.
pub proof fn law_next_file_is_judged_by_its_own_entry(state: CrawlState, hash: Seq<char>)
    requires
        state.position < state.files.len(),
    ensures
        ({
            let path = state.files[state.position as int].0;
            let key = state.files[state.position as int].1;
            let info = state.existing[key];
            &&& next_action(state, hash) == FileAction::Index <==> !state.existing.contains_key(key)
            &&& next_action(state, hash) == FileAction::Skip <==> state.existing.contains_key(key)
                && info.content_hash@ == hash && info.file_complete && (state.prior.contains(path)
                ==> state.keep_warned)
        }),
{
}

/// A file whose content was edited is indexed anew, even where it is complete, unless the
/// digests of both contents agree; and where it was not edited, it is left alone.
pub proof fn law_edited_file_is_replaced(
    state: CrawlState,
    stored: Seq<char>,
    content: Seq<char>,
)
    requires
        state.position < state.files.len(),
        state.existing.contains_key(state.files[state.position as int].1),
        state.existing[state.files[state.position as int].1].content_hash@ == content_hash_of(
            stored,
        ),
    ensures
        sha256(vstd::utf8::encode_utf8(stored)) != sha256(vstd::utf8::encode_utf8(content))
            ==> next_action(state, content_hash_of(content)) == FileAction::Replace,
        stored == content && state.existing[state.files[state.position as int].1].file_complete
            && !state.prior.contains(state.files[state.position as int].0) ==> next_action(
            state,
            content_hash_of(content),
        ) == FileAction::Skip,
{
    law_hash_covers_the_whole_content(stored, content);
}

/// Dealing with a file moves on by one, counts it under what was done with it and nothing
/// else, and leaves all that the crawl knew as it was.
pub proof fn law_dealing_with_a_file(state: CrawlState, hash: Option<Seq<char>>)
    ensures
        ({
            let next = after_file(state, hash);
            let done = next_action(state, hash->0);
            let path = state.files[state.position as int].0;
            &&& next.position == state.position + 1
            &&& next.files == state.files
            &&& next.existing == state.existing
            &&& next.prior == state.prior
            &&& next.keep_warned == state.keep_warned
            &&& next.warned == state.warned
            &&& next.new_files == state.new_files + if hash is Some && done == FileAction::Index {
                1nat
            } else {
                0nat
            }
            &&& next.changed_files == state.changed_files + if hash is Some && done
                == FileAction::Replace {
                1nat
            } else {
                0nat
            }
            &&& next.unchanged_files == state.unchanged_files + if hash is Some && done
                == FileAction::Skip {
                1nat
            } else {
                0nat
            }
            &&& forall|p: Seq<char>| #[trigger]
                next.skipped.contains(p) <==> state.skipped.contains(p) || (hash is Some && done
                    == FileAction::Skip && p == path)
        }),
{
}

/// The files of a crawl are those that the scan found, with their paths and keys, in the
/// order of the scan.
pub proof fn law_scanned_files_keep_path_and_key(files: Seq<ScannedFile>, i: int)
    requires
        0 <= i < files.len(),
    ensures
        scanned(files).len() == files.len(),
        scanned(files)[i].0 == files[i].path@,
        scanned(files)[i].1 == files[i].key@,
{
}

/// A chunk counts as split without a good place exactly where the words for it stand
/// somewhere in its breadcrumb, and a file is warned of as soon as one of its chunks was.
pub proof fn law_what_is_warned_of(chunks: Seq<Chunk>, i: int)
    requires
        0 <= i < chunks.len(),
    ensures
        has_mark(chunks[i]) <==> exists|at: int|
            0 <= at <= chunks[i].breadcrumb@.len() - 16 && #[trigger] chunks[i].breadcrumb@.subrange(
                at,
                at + 16,
            ) == "[fallback-split]"@,
        has_mark(chunks[i]) ==> some_mark(chunks),
        some_mark(chunks) ==> exists|k: int|
            0 <= k < chunks.len() && #[trigger] has_mark(chunks[k]),
{
    reveal_strlit("[fallback-split]");
    let mark = "[fallback-split]"@;
    let s = chunks[i].breadcrumb@;
    assert(mark.len() == 16);
    if has_mark(chunks[i]) {
        let at = choose|at: int| 0 <= at <= s.len() && #[trigger] mark.is_prefix_of(s.skip(at));
        assert(s.skip(at).subrange(0, 16) =~= mark);
        assert(s.subrange(at, at + 16) =~= mark);
    }
    if exists|at: int| 0 <= at <= s.len() - 16 && #[trigger] s.subrange(at, at + 16) == mark {
        let at = choose|at: int|
            0 <= at <= s.len() - 16 && #[trigger] s.subrange(at, at + 16) == mark;
        assert(s.skip(at).subrange(0, 16) =~= mark);
        assert(mark.is_prefix_of(s.skip(at)));
    }
    if some_mark(chunks) {
        let k = choose|k: int| 0 <= k < chunks.len() && has_mark(#[trigger] chunks[k]);
        assert(has_mark(chunks[k]));
    }
}

/// Taking the mark off changes the breadcrumb and nothing else of a chunk; a mark at the
/// end is cut off, and a breadcrumb without one stays.
pub proof fn law_stripping_keeps_the_rest(chunk: Chunk, out: Chunk, breadcrumb: Seq<char>)
    requires
        is_stripped(chunk, out),
        !occurs("[fallback-split]"@, breadcrumb),
    ensures
        out.text == chunk.text,
        out.source_uri == chunk.source_uri,
        out.source_type == chunk.source_type,
        out.catalog == chunk.catalog,
        out.content_hash == chunk.content_hash,
        out.start_line == chunk.start_line,
        out.end_line == chunk.end_line,
        out.symbol_name == chunk.symbol_name,
        out.chunk_type == chunk.chunk_type,
        out.chunk_kind == chunk.chunk_kind,
        out.file_id == chunk.file_id,
        out.relative_path == chunk.relative_path,
        out.chunk_number == chunk.chunk_number,
        out.chunk_count == chunk.chunk_count,
        chunk.breadcrumb@ == breadcrumb ==> out.breadcrumb@ == breadcrumb,
        chunk.breadcrumb@ == breadcrumb + ":[fallback-split]"@ ==> out.breadcrumb@ == breadcrumb,
{
    law_unmarked_breadcrumb_is_kept(breadcrumb);
    law_stripping_undoes_marking(breadcrumb);
}

/// All chunks of a file are kept, in their order, each with its mark taken off.
pub proof fn law_no_chunk_is_lost(chunks: Seq<Chunk>, out: Seq<Chunk>, i: int)
    requires
        all_stripped(chunks, out),
        0 <= i < chunks.len(),
    ensures
        out.len() == chunks.len(),
        out[i].text == chunks[i].text,
        out[i].chunk_number == chunks[i].chunk_number,
        out[i].file_id == chunks[i].file_id,
        out[i].breadcrumb@ == without(chunks[i].breadcrumb@, ":[fallback-split]"@),
{
    assert(is_stripped(chunks[i], out[i]));
}

/// What the next crawl knows of warnings: all of this crawl; and of the earlier ones, where
/// files with warnings are kept, exactly those for files that this crawl skipped.
pub proof fn law_what_is_remembered(state: CrawlState, path: Seq<char>)
    ensures
        state.warned.contains(path) ==> is_remembered(state, path),
        !state.keep_warned ==> (is_remembered(state, path) <==> state.warned.contains(path)),
        state.keep_warned && !state.warned.contains(path) ==> (is_remembered(state, path)
            <==> state.prior.contains(path) && state.skipped.contains(path)),
{
}

} // verus!
