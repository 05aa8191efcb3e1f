//! Which files have all their chunks in the index.
//!
//! A file is marked as complete only once all its chunks are stored, so that a crawl
//! that was cut short is taken up again at the files that it left incomplete.

use vstd::prelude::*;
use vstd::string::*;

use crate::engine::chunk::Chunk;
#[allow(unused_imports)]
use crate::text::texts;
use crate::text_map::TextMap;

verus! {

/// What is known of files by their IDs: how many chunks a file has, and how many of
/// them are stored; and for each chunk that waits to be stored, the ID of its file.
#[verifier::ext_equal]
pub struct Tracking {
    pub expected: Map<Seq<char>, usize>,
    pub uploaded: Map<Seq<char>, usize>,
    pub pending: Seq<Seq<char>>,
}

/// The number of times that an ID occurs in a list.
pub open spec fn occurrences(ids: Seq<Seq<char>>, id: Seq<char>) -> nat
    decreases ids.len(),
{
    if ids.len() == 0 {
        0
    } else {
        occurrences(ids.drop_last(), id) + if ids.last() == id {
            1nat
        } else {
            0nat
        }
    }
}

/// The number at an ID, or zero.
pub open spec fn number_at(numbers: Map<Seq<char>, usize>, id: Seq<char>) -> nat {
    if numbers.contains_key(id) {
        numbers[id] as nat
    } else {
        0
    }
}

/// Whether a file is complete once the waiting chunks are stored.
pub open spec fn completes(t: Tracking, id: Seq<char>) -> bool {
    &&& t.pending.contains(id)
    &&& t.expected.contains_key(id)
    &&& t.expected[id] > 0
    &&& number_at(t.uploaded, id) + occurrences(t.pending, id) == t.expected[id]
}

/// What is known after a chunk was seen: it waits to be stored, and the first chunk of a
/// file says how many chunks the file has.
pub open spec fn observed(t: Tracking, id: Seq<char>, chunk_count: usize) -> Tracking {
    Tracking {
        expected: if t.expected.contains_key(id) {
            t.expected
        } else {
            t.expected.insert(id, chunk_count)
        },
        pending: t.pending.push(id),
        ..t
    }
}

/// What is known after the waiting chunks were stored, or failed to be stored and are
/// given up. What is given up is not counted, and of the files that are complete nothing
/// more is kept.
pub open spec fn settled(t: Tracking, was_stored: bool) -> Tracking {
    if was_stored {
        Tracking {
            expected: Map::new(
                |id: Seq<char>| t.expected.contains_key(id) && !completes(t, id),
                |id: Seq<char>| t.expected[id],
            ),
            uploaded: Map::new(
                |id: Seq<char>|
                    (t.uploaded.contains_key(id) || t.pending.contains(id)) && !completes(t, id),
                |id: Seq<char>| (number_at(t.uploaded, id) + occurrences(t.pending, id)) as usize,
            ),
            pending: Seq::empty(),
        }
    } else {
        Tracking { pending: Seq::empty(), ..t }
    }
}

/// Keeps account of the chunks that were seen and of those that were stored.
pub struct CompletionTracker {
    expected: TextMap<usize>,
    uploaded: TextMap<usize>,
    pending: Vec<String>,
    total: usize,
}

impl View for CompletionTracker {
    type V = Tracking;

    closed spec fn view(&self) -> Tracking {
        Tracking {
            expected: self.expected@,
            uploaded: self.uploaded@,
            pending: texts(self.pending@),
        }
    }
}

proof fn lemma_push_occurrences(ids: Seq<Seq<char>>, next: Seq<char>, id: Seq<char>)
    ensures
        occurrences(ids.push(next), id) == occurrences(ids, id) + if next == id {
            1nat
        } else {
            0nat
        },
        ids.push(next).contains(id) <==> ids.contains(id) || next == id,
{
    let more = ids.push(next);
    assert(more.drop_last() =~= ids);
    if more.contains(id) {
        let i = choose|i: int| 0 <= i < more.len() && more[i] == id;
        if i < ids.len() {
            assert(ids[i] == id);
        }
    }
    if ids.contains(id) {
        let i = choose|i: int| 0 <= i < ids.len() && ids[i] == id;
        assert(more[i] == id);
    }
    assert(more[ids.len() as int] == next);
}

proof fn lemma_occurrences(ids: Seq<Seq<char>>, id: Seq<char>)
    ensures
        occurrences(ids, id) <= ids.len(),
        occurrences(ids, id) > 0 <==> ids.contains(id),
    decreases ids.len(),
{
    if ids.len() > 0 {
        lemma_occurrences(ids.drop_last(), id);
        lemma_push_occurrences(ids.drop_last(), ids.last(), id);
        assert(ids.drop_last().push(ids.last()) =~= ids);
    }
}

/// What is known before anything was seen.
pub open spec fn nothing_known() -> Tracking {
    Tracking { expected: Map::empty(), uploaded: Map::empty(), pending: Seq::empty() }
}

impl CompletionTracker {
    /// The number of chunks that were stored since the tracker was made, or wait for it.
    pub closed spec fn total(self) -> nat {
        self.total as nat + self.pending@.len()
    }

    /// No file has more chunks stored than were stored in all.
    pub closed spec fn wf(self) -> bool {
        &&& self.total + self.pending@.len() <= usize::MAX
        &&& self.expected.wf()
        &&& self.uploaded.wf()
        &&& forall|id: Seq<char>| number_at(self.uploaded@, id) <= self.total
    }

    /// A tracker that has seen nothing.
    pub fn new() -> (r: Self)
        ensures
            r.wf(),
            r.total() == 0,
            r@ == nothing_known(),
    {
        let r = CompletionTracker {
            expected: TextMap::new(),
            uploaded: TextMap::new(),
            pending: Vec::new(),
            total: 0,
        };
        assert(r@.pending =~= Seq::<Seq<char>>::empty());
        r
    }

    /// The number of chunks that were stored since the tracker was made, or wait for it
    pub fn counted(&self) -> (r: usize)
        requires
            self.wf(),
        ensures
            r == self.total(),
    {
        self.total + self.pending.len()
    }

    /// The number of chunks that wait to be stored
    pub fn waiting(&self) -> (r: usize)
        ensures
            r == self@.pending.len(),
    {
        self.pending.len()
    }

    /// Takes note of a chunk. Where an earlier chunk of the file named another number of
    /// chunks, that number stays and is returned.
    pub fn observe(&mut self, file_id: &str, chunk_count: usize) -> (r: Option<usize>)
        requires
            old(self).wf(),
            old(self).total() < usize::MAX,
        ensures
            final(self).wf(),
            final(self)@ == observed(old(self)@, file_id@, chunk_count),
            final(self).total() == old(self).total() + 1,
            r == if old(self)@.expected.contains_key(file_id@) && old(self)@.expected[file_id@]
                != chunk_count {
                Some(old(self)@.expected[file_id@])
            } else {
                None
            },
    {
        let known: Option<usize> = match self.expected.get(file_id) {
            Some(n) => Some(*n),
            None => None,
        };
        self.pending.push(file_id.to_owned());
        assert(texts(self.pending@) =~= texts(old(self).pending@).push(file_id@));
        match known {
            Some(n) => if n != chunk_count {
                Some(n)
            } else {
                None
            },
            None => {
                self.expected.insert(file_id, chunk_count);
                None
            },
        }
    }

    /// Takes note of what became of the waiting chunks, and returns the files that are
    /// complete now. Chunks that were not stored are given up and not counted.
    pub fn settle(&mut self, was_stored: bool) -> (r: Vec<String>)
        requires
            old(self).wf(),
        ensures
            final(self).wf(),
            final(self)@ == settled(old(self)@, was_stored),
            final(self).total() == if was_stored {
                old(self).total() as int
            } else {
                old(self).total() - old(self)@.pending.len()
            },
            texts(r@).no_duplicates(),
            forall|id: Seq<char>| #[trigger]
                texts(r@).contains(id) <==> was_stored && completes(old(self)@, id),
    {
        let mut done: Vec<String> = Vec::new();
        let mut batch: Vec<String> = Vec::new();
        std::mem::swap(&mut batch, &mut self.pending);
        assert(texts(self.pending@) =~= Seq::<Seq<char>>::empty());
        assert(texts(done@) =~= Seq::<Seq<char>>::empty());
        if !was_stored {
            return done;
        }
        self.count(&batch);
        let ghost counted = *self;
        let ghost ids = texts(batch@);
        let n: usize = batch.len();
        let mut i: usize = 0;
        proof {
            assert forall|id: Seq<char>| !ids.take(0).contains(id) by {}
        }
        while i < n
            invariant
                n == batch@.len(),
                i <= n,
                ids == texts(batch@),
                ids == old(self)@.pending,
                self.pending@.len() == 0,
                counted.wf(),
                counted.total == old(self).total + n,
                n == old(self).pending@.len(),
                counted.expected@ == old(self).expected@,
                forall|id: Seq<char>| #[trigger]
                    number_at(counted.uploaded@, id) == number_at(old(self).uploaded@, id)
                        + occurrences(ids, id),
                forall|id: Seq<char>| #[trigger]
                    counted.uploaded@.contains_key(id) <==> old(self).uploaded@.contains_key(id)
                        || ids.contains(id),
                self.wf(),
                self.total == counted.total,
                texts(done@).no_duplicates(),
                forall|id: Seq<char>| #[trigger]
                    texts(done@).contains(id) <==> completes(old(self)@, id) && ids.take(
                        i as int,
                    ).contains(id),
                forall|id: Seq<char>| #[trigger]
                    self.expected@.contains_key(id) <==> counted.expected@.contains_key(id)
                        && !texts(done@).contains(id),
                forall|id: Seq<char>| #[trigger]
                    self.expected@.contains_key(id) ==> self.expected@[id]
                        == counted.expected@[id],
                forall|id: Seq<char>| #[trigger]
                    self.uploaded@.contains_key(id) <==> counted.uploaded@.contains_key(id)
                        && !texts(done@).contains(id),
                forall|id: Seq<char>| #[trigger]
                    self.uploaded@.contains_key(id) ==> self.uploaded@[id]
                        == counted.uploaded@[id],
            decreases n - i,
        {
            let id: &str = batch[i].as_str();
            let expected: usize = match self.expected.get(id) {
                Some(e) => *e,
                None => 0,
            };
            let uploaded: usize = match self.uploaded.get(id) {
                Some(u) => *u,
                None => 0,
            };
            let ghost before = texts(done@);
            let ghost found = uploaded == expected && expected > 0;
            proof {
                assert(ids[i as int] == id@);
                assert(ids.contains(id@));
                assert(ids.take(i + 1) =~= ids.take(i as int).push(id@));
                assert(before.contains(id@) || !before.contains(id@));
                assert(number_at(counted.uploaded@, id@) == number_at(old(self).uploaded@, id@)
                    + occurrences(ids, id@));
                assert(counted.uploaded@.contains_key(id@));
                assert(self.uploaded@.contains_key(id@) || !self.uploaded@.contains_key(id@));
                assert(self.expected@.contains_key(id@) || !self.expected@.contains_key(id@));
                assert(found <==> completes(old(self)@, id@) && !before.contains(id@));
            }
            if uploaded == expected && expected > 0 {
                done.push(id.to_owned());
                self.expected.remove(id);
                self.uploaded.remove(id);
                proof {
                    assert(texts(done@) =~= before.push(id@));
                    assert(self.wf()) by {
                        assert forall|k: Seq<char>| number_at(self.uploaded@, k)
                            <= self.total by {
                            assert(number_at(counted.uploaded@, k) <= counted.total);
                            assert(self.uploaded@.contains_key(k) || !self.uploaded@.contains_key(
                                k,
                            ));
                        }
                    }
                    assert(texts(done@).no_duplicates()) by {
                        let after = before.push(id@);
                        assert forall|a: int, b: int|
                            0 <= a < after.len() && 0 <= b < after.len() && a != b implies after[a]
                            != after[b] by {
                            if a < before.len() {
                                assert(before.contains(before[a]));
                            }
                            if b < before.len() {
                                assert(before.contains(before[b]));
                            }
                        }
                    }
                }
            }
            proof {
                assert forall|k: Seq<char>| #[trigger]
                    texts(done@).contains(k) <==> completes(old(self)@, k) && ids.take(
                        i + 1,
                    ).contains(k) by {
                    lemma_push_occurrences(ids.take(i as int), id@, k);
                    lemma_push_occurrences(before, id@, k);
                    assert(before.contains(k) <==> completes(old(self)@, k) && ids.take(
                        i as int,
                    ).contains(k));
                }
                assert forall|k: Seq<char>| #[trigger]
                    self.expected@.contains_key(k) <==> counted.expected@.contains_key(k)
                        && !texts(done@).contains(k) by {
                    lemma_push_occurrences(before, id@, k);
                }
                assert forall|k: Seq<char>| #[trigger]
                    self.uploaded@.contains_key(k) <==> counted.uploaded@.contains_key(k)
                        && !texts(done@).contains(k) by {
                    lemma_push_occurrences(before, id@, k);
                }
            }
            i = i + 1;
        }
        proof {
            assert(ids.take(n as int) =~= ids);
            let want = settled(old(self)@, true);
            assert forall|id: Seq<char>| #[trigger]
                self.expected@.contains_key(id) <==> want.expected.contains_key(id) by {
                assert(texts(done@).contains(id) <==> completes(old(self)@, id));
            }
            assert(self.expected@ =~= want.expected);
            assert forall|id: Seq<char>| #[trigger]
                self.uploaded@.contains_key(id) <==> want.uploaded.contains_key(id) by {
                assert(texts(done@).contains(id) <==> completes(old(self)@, id));
            }
            assert forall|id: Seq<char>| #[trigger]
                self.uploaded@.contains_key(id) implies self.uploaded@[id] == want.uploaded[id] by {
                assert(number_at(counted.uploaded@, id) == number_at(old(self).uploaded@, id)
                    + occurrences(ids, id));
            }
            assert(self.uploaded@ =~= want.uploaded);
            assert(texts(self.pending@) =~= Seq::<Seq<char>>::empty());
        }
        done
    }

    fn count(&mut self, batch: &Vec<String>)
        requires
            old(self).wf(),
            old(self).pending@.len() == 0,
            old(self).total + batch@.len() <= usize::MAX,
        ensures
            final(self).wf(),
            final(self).pending == old(self).pending,
            final(self).total == old(self).total + batch@.len(),
            final(self).expected == old(self).expected,
            forall|id: Seq<char>| #[trigger]
                number_at(final(self).uploaded@, id) == number_at(old(self).uploaded@, id)
                    + occurrences(texts(batch@), id),
            forall|id: Seq<char>| #[trigger]
                final(self).uploaded@.contains_key(id) <==> old(self).uploaded@.contains_key(id)
                    || texts(batch@).contains(id),
    {
        let n: usize = batch.len();
        let mut i: usize = 0;
        let ghost ids = texts(batch@);
        while i < n
            invariant
                n == batch@.len(),
                i <= n,
                ids == texts(batch@),
                old(self).total + n <= usize::MAX,
                self.wf(),
                self.total == old(self).total + i,
                self.pending == old(self).pending,
                self.pending@.len() == 0,
                self.expected == old(self).expected,
                forall|id: Seq<char>| #[trigger]
                    number_at(self.uploaded@, id) == number_at(old(self).uploaded@, id)
                        + occurrences(ids.take(i as int), id),
                forall|id: Seq<char>| #[trigger]
                    self.uploaded@.contains_key(id) <==> old(self).uploaded@.contains_key(id)
                        || ids.take(i as int).contains(id),
            decreases n - i,
        {
            let id: &str = batch[i].as_str();
            let uploaded: usize = match self.uploaded.get(id) {
                Some(u) => *u,
                None => 0,
            };
            assert(number_at(self.uploaded@, id@) <= self.total);
            let ghost before = self.uploaded@;
            self.uploaded.insert(id, uploaded + 1);
            self.total = self.total + 1;
            proof {
                assert(ids.take(i + 1) =~= ids.take(i as int).push(id@));
                assert forall|k: Seq<char>| #[trigger]
                    number_at(self.uploaded@, k) == number_at(old(self).uploaded@, k)
                        + occurrences(ids.take(i + 1), k) by {
                    lemma_push_occurrences(ids.take(i as int), id@, k);
                    assert(number_at(before, k) == number_at(old(self).uploaded@, k) + occurrences(
                        ids.take(i as int),
                        k,
                    ));
                }
                assert forall|k: Seq<char>| #[trigger]
                    self.uploaded@.contains_key(k) <==> old(self).uploaded@.contains_key(k)
                        || ids.take(i + 1).contains(k) by {
                    lemma_push_occurrences(ids.take(i as int), id@, k);
                    assert(before.contains_key(k) <==> old(self).uploaded@.contains_key(k)
                        || ids.take(i as int).contains(k));
                }
                assert(self.wf()) by {
                    assert forall|k: Seq<char>| number_at(self.uploaded@, k) <= self.total by {
                        assert(number_at(before, k) <= self.total - 1);
                    }
                }
            }
            i = i + 1;
        }
        assert(ids.take(n as int) =~= ids);
    }
}

// ---------------------------------------------------------------------------
// Checkpoints
// ---------------------------------------------------------------------------

/// How long, in nanoseconds, embedded chunks are gathered before they are stored.
pub const CHECKPOINT_PERIOD: u128 = 60_000_000_000;

/// How many nanoseconds lie between two reports of the progress.
pub const PROGRESS_PERIOD: u128 = 30_000_000_000;

/// What the writer of chunks does next
#[derive(Debug, Clone, Copy, PartialEq, Eq, Structural)]
pub enum WriterStep {
    /// Stores the chunks that wait, and goes on
    Upload,
    /// Stores the chunks that wait, as the last ones
    FinalUpload,
    /// Ends
    Stop,
    /// Lets more chunks come
    Wait,
}

/// What the writer of chunks does next, by whether a checkpoint is due, how many chunks
/// wait, and whether no more will come. A checkpoint comes first; an empty upload is never
/// sent; and the writer does not end while chunks wait.
pub fn next_step(due: bool, waiting: usize, stopping: bool) -> (r: WriterStep)
    ensures
        match r {
            WriterStep::Upload => due && waiting > 0,
            WriterStep::FinalUpload => !due && stopping && waiting > 0,
            WriterStep::Stop => stopping && waiting == 0,
            WriterStep::Wait => !stopping && (!due || waiting == 0),
        },
{
    if due && waiting > 0 {
        WriterStep::Upload
    } else if !stopping {
        WriterStep::Wait
    } else if waiting > 0 {
        WriterStep::FinalUpload
    } else {
        WriterStep::Stop
    }
}

// ---------------------------------------------------------------------------
// Laws
// ---------------------------------------------------------------------------

/// No file has more chunks stored or waiting than the tracker counts in all, and that
/// number can be held: no count is ever cut short.
pub proof fn law_counts_fit(tracker: CompletionTracker, id: Seq<char>)
    requires
        tracker.wf(),
    ensures
        number_at(tracker@.uploaded, id) + occurrences(tracker@.pending, id) <= tracker.total(),
        tracker.total() <= usize::MAX,
{
    lemma_occurrences(tracker@.pending, id);
    assert(number_at(tracker.uploaded@, id) <= tracker.total);
}

/// What happens while chunks are stored.
pub enum UploadEvent {
    /// A chunk of a file was seen
    Seen { id: Seq<char>, chunk_count: usize },
    /// The waiting chunks were stored, or failed to be stored
    Settled { was_stored: bool },
}

/// What is known after an event.
pub open spec fn after_event(t: Tracking, event: UploadEvent) -> Tracking {
    match event {
        UploadEvent::Seen { id, chunk_count } => observed(t, id, chunk_count),
        UploadEvent::Settled { was_stored } => settled(t, was_stored),
    }
}

/// What is known after several events.
pub open spec fn after_events(t: Tracking, events: Seq<UploadEvent>) -> Tracking
    decreases events.len(),
{
    if events.len() == 0 {
        t
    } else {
        after_event(after_events(t, events.drop_last()), events.last())
    }
}

/// The number of chunks of a file that were seen.
pub open spec fn seen(events: Seq<UploadEvent>, id: Seq<char>) -> nat
    decreases events.len(),
{
    if events.len() == 0 {
        0
    } else {
        seen(events.drop_last(), id) + match events.last() {
            UploadEvent::Seen { id: other, .. } => if other == id {
                1nat
            } else {
                0nat
            },
            _ => 0nat,
        }
    }
}

/// The number of chunks of a file that failed to be stored.
pub open spec fn lost(t: Tracking, events: Seq<UploadEvent>, id: Seq<char>) -> nat
    decreases events.len(),
{
    if events.len() == 0 {
        0
    } else {
        lost(t, events.drop_last(), id) + match events.last() {
            UploadEvent::Settled { was_stored: false } => occurrences(
                after_events(t, events.drop_last()).pending,
                id,
            ),
            _ => 0nat,
        }
    }
}

/// Whether a file was reported as complete.
pub open spec fn reported(t: Tracking, events: Seq<UploadEvent>, id: Seq<char>) -> bool
    decreases events.len(),
{
    if events.len() == 0 {
        false
    } else {
        reported(t, events.drop_last(), id) || match events.last() {
            UploadEvent::Settled { was_stored: true } => completes(
                after_events(t, events.drop_last()),
                id,
            ),
            _ => false,
        }
    }
}

/// Whether all chunks of a file agree on how many chunks it has.
pub open spec fn agrees(events: Seq<UploadEvent>, id: Seq<char>, chunk_count: usize) -> bool {
    forall|i: int|
        0 <= i < events.len() ==> match #[trigger] events[i] {
            UploadEvent::Seen { id: other, chunk_count: named } => other == id ==> named
                == chunk_count,
            _ => true,
        }
}

proof fn lemma_account(events: Seq<UploadEvent>, id: Seq<char>, chunk_count: usize)
    requires
        chunk_count > 0,
        agrees(events, id, chunk_count),
        seen(events, id) <= chunk_count,
    ensures
        ({
            let start = nothing_known();
            let t = after_events(start, events);
            let waiting = occurrences(t.pending, id);
            &&& t.expected.contains_key(id) ==> t.expected[id] == chunk_count
            &&& if reported(start, events, id) {
                &&& seen(events, id) == chunk_count
                &&& lost(start, events, id) == 0
                &&& waiting == 0
                &&& !t.expected.contains_key(id)
            } else {
                &&& number_at(t.uploaded, id) + waiting + lost(start, events, id) == seen(
                    events,
                    id,
                )
                &&& number_at(t.uploaded, id) < chunk_count
                &&& t.expected.contains_key(id) <==> seen(events, id) > 0
            }
        }),
    decreases events.len(),
{
    let start = nothing_known();
    if events.len() > 0 {
        let fewer = events.drop_last();
        assert forall|i: int| 0 <= i < fewer.len() implies match #[trigger] fewer[i] {
            UploadEvent::Seen { id: other, chunk_count: named } => other == id ==> named
                == chunk_count,
            _ => true,
        } by {
            assert(fewer[i] == events[i]);
        }
        lemma_account(fewer, id, chunk_count);
        let before = after_events(start, fewer);
        let t = after_events(start, events);
        lemma_occurrences(before.pending, id);
        match events.last() {
            UploadEvent::Seen { id: other, chunk_count: named } => {
                lemma_push_occurrences(before.pending, other, id);
                assert(events[events.len() - 1] == events.last());
            },
            UploadEvent::Settled { was_stored } => {
                assert(occurrences(Seq::<Seq<char>>::empty(), id) == 0);
            },
        }
    }
}

/// However chunks come in and uploads succeed or fail, a file is reported as complete
/// exactly where all its chunks were seen, none of them was lost in an upload that failed
/// and none still waits.
pub proof fn law_reported_exactly_when_all_is_stored(
    events: Seq<UploadEvent>,
    id: Seq<char>,
    chunk_count: usize,
)
    requires
        chunk_count > 0,
        agrees(events, id, chunk_count),
        seen(events, id) <= chunk_count,
    ensures
        reported(nothing_known(), events, id) <==> {
            &&& seen(events, id) == chunk_count
            &&& lost(nothing_known(), events, id) == 0
            &&& occurrences(after_events(nothing_known(), events).pending, id) == 0
        },
{
    lemma_account(events, id, chunk_count);
}

/// A file of which a chunk was lost is never reported as complete, so that the next crawl
/// takes it up again.
pub proof fn law_lost_chunk_leaves_a_file_incomplete(
    events: Seq<UploadEvent>,
    id: Seq<char>,
    chunk_count: usize,
)
    requires
        chunk_count > 0,
        agrees(events, id, chunk_count),
        seen(events, id) <= chunk_count,
        lost(nothing_known(), events, id) > 0,
    ensures
        !reported(nothing_known(), events, id),
{
    lemma_account(events, id, chunk_count);
}

// ---------------------------------------------------------------------------
// All chunks at once
// ---------------------------------------------------------------------------

/// The file ID of each chunk of a list.
pub open spec fn file_ids(chunks: Seq<Chunk>) -> Seq<Seq<char>> {
    chunks.map_values(|c: Chunk| c.file_id@)
}

/// The number of chunks that the first chunk of a file in a list names, if there is one.
pub open spec fn first_count(chunks: Seq<Chunk>, id: Seq<char>) -> Option<usize>
    decreases chunks.len(),
{
    if chunks.len() == 0 {
        None
    } else if chunks[0].file_id@ == id {
        Some(chunks[0].chunk_count)
    } else {
        first_count(chunks.drop_first(), id)
    }
}

proof fn lemma_first_count_push(chunks: Seq<Chunk>, next: Chunk, id: Seq<char>)
    ensures
        first_count(chunks.push(next), id) == match first_count(chunks, id) {
            Some(n) => Some(n),
            None => if next.file_id@ == id {
                Some(next.chunk_count)
            } else {
                None
            },
        },
    decreases chunks.len(),
{
    reveal_with_fuel(first_count, 2);
    if chunks.len() > 0 {
        assert(chunks.push(next).drop_first() =~= chunks.drop_first().push(next));
        lemma_first_count_push(chunks.drop_first(), next, id);
    }
}

proof fn lemma_first_count(chunks: Seq<Chunk>, id: Seq<char>)
    ensures
        first_count(chunks, id) is Some <==> file_ids(chunks).contains(id),
    decreases chunks.len(),
{
    let ids = file_ids(chunks);
    if chunks.len() > 0 {
        let rest = chunks.drop_first();
        lemma_first_count(rest, id);
        assert(ids[0] == chunks[0].file_id@);
        if ids.contains(id) && ids[0] != id {
            let i = choose|i: int| 0 <= i < ids.len() && ids[i] == id;
            assert(file_ids(rest)[i - 1] == id);
        }
        if file_ids(rest).contains(id) {
            let i = choose|i: int| 0 <= i < rest.len() && file_ids(rest)[i] == id;
            assert(ids[i + 1] == id);
        }
    }
}

/// The files of which a list of stored chunks holds as many as the first one says that
/// the file has.
pub fn completed_files(chunks: &Vec<Chunk>) -> (r: Vec<String>)
    ensures
        texts(r@).no_duplicates(),
        forall|id: Seq<char>| #[trigger]
            texts(r@).contains(id) <==> match first_count(chunks@, id) {
                Some(n) => n == occurrences(file_ids(chunks@), id),
                None => false,
            },
{
    let mut tracker = CompletionTracker::new();
    let n: usize = chunks.len();
    let mut i: usize = 0;
    while i < n
        invariant
            n == chunks@.len(),
            i <= n,
            tracker.wf(),
            tracker.total() == i,
            tracker@.uploaded == Map::<Seq<char>, usize>::empty(),
            forall|id: Seq<char>| #[trigger]
                tracker@.expected.contains_key(id) <==> first_count(
                    chunks@.take(i as int),
                    id,
                ) is Some,
            forall|id: Seq<char>| #[trigger]
                tracker@.expected.contains_key(id) ==> first_count(chunks@.take(i as int), id)
                    == Some(tracker@.expected[id]),
            tracker@.pending == file_ids(chunks@.take(i as int)),
        decreases n - i,
    {
        let ghost before = tracker@;
        let _ = tracker.observe(chunks[i].file_id.as_str(), chunks[i].chunk_count);
        proof {
            let had = chunks@.take(i as int);
            assert(chunks@.take(i + 1) =~= had.push(chunks@[i as int]));
            assert(file_ids(had.push(chunks@[i as int])) =~= file_ids(had).push(
                chunks@[i as int].file_id@,
            ));
            assert forall|id: Seq<char>| #[trigger]
                tracker@.expected.contains_key(id) <==> first_count(
                    chunks@.take(i + 1),
                    id,
                ) is Some by {
                lemma_first_count_push(had, chunks@[i as int], id);
                assert(before.expected.contains_key(id) <==> first_count(had, id) is Some);
            }
            assert forall|id: Seq<char>| #[trigger]
                tracker@.expected.contains_key(id) implies first_count(chunks@.take(i + 1), id)
                == Some(tracker@.expected[id]) by {
                lemma_first_count_push(had, chunks@[i as int], id);
                assert(before.expected.contains_key(id) <==> first_count(had, id) is Some);
            }
        }
        i = i + 1;
    }
    assert(chunks@.take(n as int) =~= chunks@);
    let ghost seen = tracker@;
    let r = tracker.settle(true);
    proof {
        let all = file_ids(chunks@);
        assert forall|id: Seq<char>| #[trigger]
            texts(r@).contains(id) <==> match first_count(chunks@, id) {
                Some(n) => n == occurrences(all, id),
                None => false,
            } by {
            lemma_occurrences(all, id);
            lemma_first_count(chunks@, id);
            assert(seen.expected.contains_key(id) <==> first_count(chunks@, id) is Some);
            assert(number_at(seen.uploaded, id) == 0);
        }
    }
    r
}

// ---------------------------------------------------------------------------
// Further laws
// ---------------------------------------------------------------------------

/// Occurrences are counted one by one: of two lists together as many as of both, of one
/// item one where it is the one that is looked for.
pub proof fn law_occurrences_are_counted_one_by_one(
    a: Seq<Seq<char>>,
    item: Seq<char>,
    b: Seq<Seq<char>>,
    id: Seq<char>,
)
    ensures
        occurrences(Seq::empty(), id) == 0,
        occurrences(seq![item], id) == if item == id {
            1nat
        } else {
            0nat
        },
        occurrences(a + b, id) == occurrences(a, id) + occurrences(b, id),
    decreases b.len(),
{
    reveal_with_fuel(occurrences, 2);
    assert(seq![item].drop_last() =~= Seq::<Seq<char>>::empty());
    if b.len() == 0 {
        assert(a + b =~= a);
    } else {
        assert((a + b).drop_last() =~= a + b.drop_last());
        law_occurrences_are_counted_one_by_one(a, item, b.drop_last(), id);
    }
}

/// A chunk that is seen waits behind those that wait already, nothing counts as stored by
/// it, the first number of chunks that is named for a file holds, and other files are left
/// as they were.
pub proof fn law_seeing_a_chunk(t: Tracking, id: Seq<char>, chunk_count: usize, other: Seq<char>)
    ensures
        ({
            let next = observed(t, id, chunk_count);
            &&& next.pending == t.pending.push(id)
            &&& next.uploaded == t.uploaded
            &&& next.expected.contains_key(id)
            &&& next.expected[id] == if t.expected.contains_key(id) {
                t.expected[id]
            } else {
                chunk_count
            }
            &&& other != id ==> (next.expected.contains_key(other) <==> t.expected.contains_key(
                other,
            )) && (t.expected.contains_key(other) ==> next.expected[other] == t.expected[other])
        }),
{
}

/// A file is complete with the waiting chunks exactly where one of them is of it and the
/// stored and the waiting ones are together as many as it has.
pub proof fn law_when_a_file_is_complete(t: Tracking, id: Seq<char>)
    ensures
        completes(t, id) <==> {
            &&& exists|i: int| 0 <= i < t.pending.len() && #[trigger] t.pending[i] == id
            &&& t.expected.contains_key(id)
            &&& t.expected[id] > 0
            &&& t.expected[id] == occurrences(t.pending, id) + if t.uploaded.contains_key(id) {
                t.uploaded[id] as nat
            } else {
                0nat
            }
        },
{
}

/// Chunks that could not be stored are given up: nothing waits any more, and what was
/// stored and expected before stays. Chunks that were stored count, and of a file that is
/// complete nothing more is kept.
pub proof fn law_settling_chunks(t: Tracking, id: Seq<char>)
    ensures
        settled(t, false).pending.len() == 0,
        settled(t, false).uploaded == t.uploaded,
        settled(t, false).expected == t.expected,
        settled(t, true).pending.len() == 0,
        completes(t, id) ==> !settled(t, true).expected.contains_key(id)
            && !settled(t, true).uploaded.contains_key(id),
        !completes(t, id) ==> (settled(t, true).expected.contains_key(id)
            <==> t.expected.contains_key(id)),
        !completes(t, id) && t.expected.contains_key(id) ==> settled(t, true).expected[id]
            == t.expected[id],
        !completes(t, id) && number_at(t.uploaded, id) + occurrences(t.pending, id) <= usize::MAX
            ==> number_at(settled(t, true).uploaded, id) == number_at(t.uploaded, id) + occurrences(
            t.pending,
            id,
        ),
{
    lemma_occurrences(t.pending, id);
}

/// The number of chunks of a file is what the first of its chunks in a list names.
pub proof fn law_first_chunk_names_the_count(chunks: Seq<Chunk>, i: int, id: Seq<char>)
    requires
        0 <= i <= chunks.len(),
        forall|k: int| 0 <= k < i ==> (#[trigger] chunks[k]).file_id@ != id,
    ensures
        i < chunks.len() && chunks[i].file_id@ == id ==> first_count(chunks, id) == Some(
            chunks[i].chunk_count,
        ),
        i == chunks.len() ==> first_count(chunks, id) is None,
    decreases chunks.len(),
{
    if i > 0 {
        assert(chunks[0].file_id@ != id);
        let rest = chunks.drop_first();
        assert forall|k: int| 0 <= k < i - 1 implies (#[trigger] rest[k]).file_id@ != id by {
            assert(rest[k] == chunks[k + 1]);
        }
        law_first_chunk_names_the_count(rest, i - 1, id);
    }
}

/// The IDs of chunks are those of the chunks, one for each, in their order.
pub proof fn law_ids_of_chunks(chunks: Seq<Chunk>, i: int)
    requires
        0 <= i < chunks.len(),
    ensures
        file_ids(chunks).len() == chunks.len(),
        file_ids(chunks)[i] == chunks[i].file_id@,
{
}

} // verus!
