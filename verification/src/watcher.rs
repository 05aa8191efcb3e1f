//! Keeping the index in step with a directory that changes.

use vstd::prelude::*;
use vstd::string::*;

use crate::files::is_relevant;
#[allow(unused_imports)]
use crate::files::is_text_path;
use crate::text::append_decimal;
#[allow(unused_imports)]
use crate::text::decimal;

verus! {

/// Statistics from an incremental crawl
pub struct CrawlStats {
    pub new_files: usize,
    pub changed_files: usize,
    pub unchanged_files: usize,
    pub deleted_files: usize,
    pub chunks_embedded: usize,
}

// ---------------------------------------------------------------------------
// Waiting for quiet
// ---------------------------------------------------------------------------

/// What happened to a file
#[derive(Debug, Clone, Copy, PartialEq, Eq, Structural)]
pub enum ChangeKind {
    Create,
    Modify,
    Remove,
    /// Something that leaves the content of files as it is
    Other,
}

/// Whether a change of some kind is looked at
pub fn is_watched(kind: ChangeKind) -> (r: bool)
    ensures
        r == (kind != ChangeKind::Other),
{
    match kind {
        ChangeKind::Other => false,
        _ => true,
    }
}

/// A path that changed
pub struct ChangedPath {
    pub path: String,
    /// Whether files at this path are not indexed in any case
    pub skipped: bool,
}

/// Whether a changed path concerns the index.
pub open spec fn concerns_index(changed: ChangedPath) -> bool {
    !changed.skipped && is_text_path(changed.path@)
}

/// Whether one of several changed paths concerns the index
pub fn any_relevant(paths: &Vec<ChangedPath>) -> (r: bool)
    ensures
        r == exists|i: int| 0 <= i < paths@.len() && concerns_index(#[trigger] paths@[i]),
{
    let n: usize = paths.len();
    let mut i: usize = 0;
    while i < n
        invariant
            n == paths@.len(),
            i <= n,
            forall|k: int| 0 <= k < i ==> !concerns_index(#[trigger] paths@[k]),
        decreases n - i,
    {
        if is_relevant(paths[i].path.as_str(), paths[i].skipped) {
            assert(concerns_index(paths@[i as int]));
            return true;
        }
        i = i + 1;
    }
    false
}

/// How long nothing may have changed before the index is brought up to date, in
/// nanoseconds: two seconds.
pub const QUIET_WINDOW: u128 = 2_000_000_000;

/// Gathers changes until there was none for a while. Times are nanoseconds since some
/// fixed moment.
pub struct Debouncer {
    pub pending: bool,
    pub quiet_since: u128,
}

/// Whether there are changes and the last of them lies far enough back.
pub open spec fn is_due(waiting: Debouncer, now: u128) -> bool {
    waiting.pending && now - waiting.quiet_since >= QUIET_WINDOW
}

/// What is waited for after a change at some time.
pub open spec fn after_change(waiting: Debouncer, relevant: bool, now: u128) -> Debouncer {
    if relevant {
        Debouncer { pending: true, quiet_since: now }
    } else {
        waiting
    }
}

/// What is waited for after the index was brought up to date, if it was.
pub open spec fn after_check(waiting: Debouncer, now: u128) -> Debouncer {
    Debouncer { pending: waiting.pending && !is_due(waiting, now), ..waiting }
}

impl Debouncer {
    /// Waits for a first change
    pub fn new(now: u128) -> (r: Self)
        ensures
            r == (Debouncer { pending: false, quiet_since: now }),
    {
        Debouncer { pending: false, quiet_since: now }
    }

    /// Takes note of a change
    pub fn change(&mut self, relevant: bool, now: u128)
        ensures
            *final(self) == after_change(*old(self), relevant, now),
    {
        if relevant {
            self.pending = true;
            self.quiet_since = now;
        }
    }

    /// Whether the index is to be brought up to date now. If so, the changes so far are
    /// taken care of.
    pub fn check(&mut self, now: u128) -> (r: bool)
        ensures
            r == is_due(*old(self), now),
            *final(self) == after_check(*old(self), now),
    {
        if self.pending && now >= self.quiet_since && now - self.quiet_since >= QUIET_WINDOW {
            self.pending = false;
            return true;
        }
        false
    }
}

/// While relevant changes follow on each other, the index is left alone: after one at
/// some time it is not brought up to date before the quiet window is over.
pub proof fn law_no_update_before_quiet(waiting: Debouncer, changed: u128, now: u128)
    requires
        now < changed + QUIET_WINDOW,
    ensures
        !is_due(after_change(waiting, true, changed), now),
{
}

/// What happens while changes are gathered.
pub enum WatchEvent {
    /// Something changed at a time
    Change { relevant: bool, at: u128 },
    /// At a time it was asked whether the index is to be brought up to date
    Check { at: u128 },
}

/// What is waited for after several events.
pub open spec fn after_events(waiting: Debouncer, events: Seq<WatchEvent>) -> Debouncer
    decreases events.len(),
{
    if events.len() == 0 {
        waiting
    } else {
        let before = after_events(waiting, events.drop_last());
        match events.last() {
            WatchEvent::Change { relevant, at } => after_change(before, relevant, at),
            WatchEvent::Check { at } => after_check(before, at),
        }
    }
}

/// Whether an event neither is a relevant change nor lies after the end of a window.
pub open spec fn is_idle(event: WatchEvent, end: int) -> bool {
    match event {
        WatchEvent::Change { relevant, at } => !relevant,
        WatchEvent::Check { at } => at < end,
    }
}

/// After a relevant change the index is brought up to date as soon as the quiet window is
/// over, whatever irrelevant changes and checks lie between.
pub proof fn law_update_after_quiet(
    waiting: Debouncer,
    changed: u128,
    events: Seq<WatchEvent>,
    now: u128,
)
    requires
        now >= changed + QUIET_WINDOW,
        forall|i: int|
            0 <= i < events.len() ==> is_idle(#[trigger] events[i], changed + QUIET_WINDOW),
    ensures
        after_events(after_change(waiting, true, changed), events) == after_change(
            waiting,
            true,
            changed,
        ),
        is_due(after_events(after_change(waiting, true, changed), events), now),
    decreases events.len(),
{
    if events.len() > 0 {
        let fewer = events.drop_last();
        assert forall|i: int| 0 <= i < fewer.len() implies is_idle(
            #[trigger] fewer[i],
            changed + QUIET_WINDOW,
        ) by {
            assert(fewer[i] == events[i]);
        }
        law_update_after_quiet(waiting, changed, fewer, now);
        assert(is_idle(events[events.len() - 1], changed + QUIET_WINDOW));
    }
}

/// The index is brought up to date once for the changes of one burst.
pub proof fn law_one_update_for_a_burst(waiting: Debouncer, first: u128, second: u128)
    requires
        is_due(waiting, first),
    ensures
        !is_due(after_check(waiting, first), second),
{
}

// ---------------------------------------------------------------------------
// What is said
// ---------------------------------------------------------------------------

/// The line on what the first crawl of a catalog did.
pub open spec fn first_crawl_of(stats: CrawlStats) -> Seq<char> {
    "  "@ + decimal(stats.new_files as nat) + " new, "@ + decimal(stats.changed_files as nat)
        + " changed, "@ + decimal(stats.unchanged_files as nat) + " unchanged, "@ + decimal(
        stats.deleted_files as nat,
    ) + " deleted ("@ + decimal(stats.chunks_embedded as nat) + " chunks)"@
}

/// The line on what the first crawl of a catalog did
pub fn first_crawl_line(stats: &CrawlStats) -> (r: String)
    ensures
        r@ == first_crawl_of(*stats),
{
    let mut out = "  ".to_owned();
    append_decimal(&mut out, stats.new_files as u64);
    out.append(" new, ");
    append_decimal(&mut out, stats.changed_files as u64);
    out.append(" changed, ");
    append_decimal(&mut out, stats.unchanged_files as u64);
    out.append(" unchanged, ");
    append_decimal(&mut out, stats.deleted_files as u64);
    out.append(" deleted (");
    append_decimal(&mut out, stats.chunks_embedded as u64);
    out.append(" chunks)");
    out
}

/// Whether a crawl found something to do.
pub open spec fn has_changes(stats: CrawlStats) -> bool {
    stats.new_files + stats.changed_files + stats.deleted_files > 0
}

/// The line on what a crawl after changes did, at a time of day.
pub open spec fn update_of(clock: Seq<char>, catalog_name: Seq<char>, stats: CrawlStats) -> Seq<
    char,
> {
    if has_changes(stats) {
        "["@ + clock + "] Re-indexed '"@ + catalog_name + "': "@ + decimal(stats.new_files as nat)
            + " new, "@ + decimal(stats.changed_files as nat) + " changed, "@ + decimal(
            stats.deleted_files as nat,
        ) + " deleted ("@ + decimal(stats.chunks_embedded as nat) + " chunks)"@
    } else {
        "["@ + clock + "] No indexable changes in '"@ + catalog_name + "'"@
    }
}

/// The line on what a crawl after changes did
pub fn update_line(clock: &str, catalog_name: &str, stats: &CrawlStats) -> (r: String)
    ensures
        r@ == update_of(clock@, catalog_name@, *stats),
{
    let mut out = "[".to_owned();
    out.append(clock);
    if stats.new_files > 0 || stats.changed_files > 0 || stats.deleted_files > 0 {
        out.append("] Re-indexed '");
        out.append(catalog_name);
        out.append("': ");
        append_decimal(&mut out, stats.new_files as u64);
        out.append(" new, ");
        append_decimal(&mut out, stats.changed_files as u64);
        out.append(" changed, ");
        append_decimal(&mut out, stats.deleted_files as u64);
        out.append(" deleted (");
        append_decimal(&mut out, stats.chunks_embedded as u64);
        out.append(" chunks)");
    } else {
        out.append("] No indexable changes in '");
        out.append(catalog_name);
        out.append("'");
    }
    out
}

// ---------------------------------------------------------------------------
// Further laws
// ---------------------------------------------------------------------------

/// The index is brought up to date exactly where a change waits and the last relevant one
/// lies two seconds back or more.
pub proof fn law_when_an_update_is_due(waiting: Debouncer, now: u128)
    ensures
        is_due(waiting, now) <==> waiting.pending && now >= waiting.quiet_since + 2_000_000_000,
{
}

/// A relevant change starts the wait anew, and an irrelevant one changes nothing.
pub proof fn law_only_relevant_changes_count(waiting: Debouncer, now: u128)
    ensures
        after_change(waiting, false, now) == waiting,
        after_change(waiting, true, now).pending,
        after_change(waiting, true, now).quiet_since == now,
{
}

/// A check that finds nothing due changes nothing, and one that does leaves no change
/// waiting.
pub proof fn law_checks_settle_what_is_due(waiting: Debouncer, now: u128)
    ensures
        !is_due(waiting, now) ==> after_check(waiting, now) == waiting,
        is_due(waiting, now) ==> !after_check(waiting, now).pending,
        after_check(waiting, now).quiet_since == waiting.quiet_since,
{
}

/// A changed path concerns the index exactly where it is that of a text file and is not
/// among those that are skipped.
pub proof fn law_which_changes_concern_the_index(changed: ChangedPath)
    ensures
        changed.skipped ==> !concerns_index(changed),
        !changed.skipped ==> (concerns_index(changed) <==> is_text_path(changed.path@)),
{
}

/// A crawl that found no new, changed or deleted file is reported to have found nothing,
/// and any other with its four numbers.
pub proof fn law_updates_are_reported(clock: Seq<char>, name: Seq<char>, stats: CrawlStats)
    ensures
        stats.new_files == 0 && stats.changed_files == 0 && stats.deleted_files == 0 ==> update_of(
            clock,
            name,
            stats,
        ) == "["@ + clock + "] No indexable changes in '"@ + name + "'"@,
        stats.new_files > 0 || stats.changed_files > 0 || stats.deleted_files > 0 ==> update_of(
            clock,
            name,
            stats,
        ) == "["@ + clock + "] Re-indexed '"@ + name + "': "@ + decimal(stats.new_files as nat)
            + " new, "@ + decimal(stats.changed_files as nat) + " changed, "@ + decimal(
            stats.deleted_files as nat,
        ) + " deleted ("@ + decimal(stats.chunks_embedded as nat) + " chunks)"@,
        first_crawl_of(stats) == "  "@ + decimal(stats.new_files as nat) + " new, "@ + decimal(
            stats.changed_files as nat,
        ) + " changed, "@ + decimal(stats.unchanged_files as nat) + " unchanged, "@ + decimal(
            stats.deleted_files as nat,
        ) + " deleted ("@ + decimal(stats.chunks_embedded as nat) + " chunks)"@,
{
}

} // verus!
