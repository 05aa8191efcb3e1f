//! How chunks are gathered into batches for the model and for the index.

use vstd::prelude::*;
use vstd::string::*;

use crate::engine::chunk::Chunk;
use crate::order::{arrange, stable_order};
#[allow(unused_imports)]
use crate::order::{
    arranged, is_stable_order, law_order_has_all_places, law_what_a_stable_order_is,
};
#[allow(unused_imports)]
use crate::text::{byte_len, number_of};
use crate::text::{parse_text_number, same_text};

verus! {

// ---------------------------------------------------------------------------
// Settings
// ---------------------------------------------------------------------------

/// The number of chunks that one upload holds at most.
pub const UPLOAD_BATCH: usize = 100;

/// Whether a setting is switched on: only `1` does it.
pub fn is_on(setting: Option<&str>) -> (r: bool)
    ensures
        r == match setting {
            Some(value) => value@ == "1"@,
            None => false,
        },
{
    match setting {
        Some(value) => same_text(value, "1"),
        None => false,
    }
}

/// The size of a batch that a setting asks for. Zero stands for all chunks at once, and
/// so does what is no number.
pub fn batch_size_setting(setting: Option<&str>) -> (r: usize)
    ensures
        r == match setting {
            Some(value) => match number_of(value@) {
                Some(n) => n,
                None => 0,
            },
            None => 0,
        },
{
    match setting {
        Some(value) => match parse_text_number(value) {
            Some(n) => n,
            None => 0,
        },
        None => 0,
    }
}

/// The size of a batch where zero stands for all chunks at once.
pub fn effective_batch_size(batch_size: usize, total: usize) -> (r: usize)
    ensures
        r == size_for(batch_size, total),
{
    if batch_size > 0 {
        batch_size
    } else {
        total
    }
}

// ---------------------------------------------------------------------------
// Batches of one size
// ---------------------------------------------------------------------------

/// The number of batches of one size that hold a number of things. Nothing takes no batch.
pub open spec fn batch_count(total: int, size: int) -> int {
    if total == 0 {
        0
    } else {
        (total + size - 1) / size
    }
}

/// The bounds of a batch.
pub open spec fn batch_bounds(total: int, size: int, i: int) -> (int, int) {
    (i * size, if (i + 1) * size < total {
        (i + 1) * size
    } else {
        total
    })
}

/// The bounds of the batches of one size that hold a number of things. Only the last one
/// may be smaller.
pub fn even_batches(total: usize, size: usize) -> (r: Vec<(usize, usize)>)
    requires
        size > 0 || total == 0,
    ensures
        r@.len() == batch_count(total as int, size as int),
        forall|i: int|
            0 <= i < r@.len() ==> ((#[trigger] r@[i]).0 as int, r@[i].1 as int) == batch_bounds(
                total as int,
                size as int,
                i,
            ),
{
    let mut out: Vec<(usize, usize)> = Vec::new();
    let mut from: usize = 0;
    proof {
        assert(0 * size == 0) by (nonlinear_arith);
    }
    while from < total
        invariant
            size > 0 || total == 0,
            from <= total,
            from == total ==> out@.len() == batch_count(total as int, size as int),
            from < total ==> from == out@.len() * size,
            forall|i: int|
                0 <= i < out@.len() ==> ((#[trigger] out@[i]).0 as int, out@[i].1 as int)
                    == batch_bounds(total as int, size as int, i),
        decreases total - from,
    {
        let to: usize = if total - from > size {
            from + size
        } else {
            total
        };
        let ghost k = out@.len() as int;
        proof {
            let t = total as int;
            let z = size as int;
            assert((k + 1) * z == k * z + z) by (nonlinear_arith);
            if to == total {
                assert(t - k * z <= z);
                assert(t - k * z >= 1);
                assert((t + z - 1) / z == k + 1) by (nonlinear_arith)
                    requires
                        z > 0,
                        1 <= t - k * z <= z,
                ;
            }
        }
        out.push((from, to));
        from = to;
    }
    out
}

/// The size of the batches that a setting stands for: zero stands for all at once.
pub open spec fn size_for(batch_size: usize, total: usize) -> usize {
    if batch_size > 0 {
        batch_size
    } else {
        total
    }
}

/// The bounds of the batches in which a number of chunks is encoded, by the size that was
/// set. Where there is nothing to encode, there is no batch, whatever was set.
pub fn encoding_batches(batch_size: usize, total: usize) -> (r: Vec<(usize, usize)>)
    ensures
        r@.len() == batch_count(total as int, size_for(batch_size, total) as int),
        forall|i: int|
            0 <= i < r@.len() ==> ((#[trigger] r@[i]).0 as int, r@[i].1 as int) == batch_bounds(
                total as int,
                size_for(batch_size, total) as int,
                i,
            ),
{
    even_batches(total, effective_batch_size(batch_size, total))
}

/// All at once is one batch from the first chunk to the last, if there is any chunk.
pub proof fn law_zero_is_all_at_once(total: usize)
    ensures
        batch_count(total as int, size_for(0, total) as int) == if total > 0 {
            1int
        } else {
            0int
        },
        batch_bounds(total as int, size_for(0, total) as int, 0) == (0int, total as int),
{
    let n = total as int;
    if n > 0 {
        assert((n + n - 1) / n == 1) by (nonlinear_arith)
            requires
                n > 0,
        ;
    }
    assert(0 * n == 0 && (0 + 1) * n == n) by (nonlinear_arith);
}

/// The batches follow on each other from first to last, and leave nothing out.
pub proof fn law_even_batches_cover_all(total: int, size: int, p: int)
    requires
        size > 0,
        0 <= p < total,
    ensures
        ({
            let i = p / size;
            &&& 0 <= i < batch_count(total, size)
            &&& batch_bounds(total, size, i).0 <= p < batch_bounds(total, size, i).1
            &&& forall|k: int|
                0 <= k < batch_count(total, size) && batch_bounds(total, size, k).0 <= p
                    < #[trigger] batch_bounds(total, size, k).1 ==> k == i
        }),
{
    let i = p / size;
    assert(i * size <= p < (i + 1) * size && i >= 0) by (nonlinear_arith)
        requires
            size > 0,
            0 <= p,
            i == p / size,
    ;
    assert(i < (total + size - 1) / size) by (nonlinear_arith)
        requires
            size > 0,
            i * size <= p,
            p < total,
    ;
    assert forall|k: int|
        0 <= k < batch_count(total, size) && batch_bounds(total, size, k).0 <= p
            < #[trigger] batch_bounds(total, size, k).1 implies k == i by {
        assert(k == i) by (nonlinear_arith)
            requires
                size > 0,
                k * size <= p < (k + 1) * size,
                i * size <= p < (i + 1) * size,
        ;
    }
}

// ---------------------------------------------------------------------------
// Batches by length
// ---------------------------------------------------------------------------

/// The number of characters that a batch is to hold, padding counted: four thousand
/// tokens at four characters each.
pub const BATCH_CHARS: usize = 16000;

/// How far ahead a batch looks for the length that its chunks are padded to.
pub const LOOK_AHEAD: usize = 32;

/// The size of a batch whose longest text has a length: as many as the budget allows, but
/// at least 4 and at most 16.
pub open spec fn mini_batch_size(longest: int) -> int {
    if longest == 0 || BATCH_CHARS as int / longest > 16 {
        16
    } else if BATCH_CHARS as int / longest < 4 {
        4
    } else {
        BATCH_CHARS as int / longest
    }
}

/// The size of a batch whose longest text has a length.
pub fn mini_batch_size_for(longest: usize) -> (r: usize)
    ensures
        r == mini_batch_size(longest as int),
        4 <= r <= 16,
{
    if longest == 0 {
        return 16;
    }
    let n: usize = BATCH_CHARS / longest;
    if n > 16 {
        16
    } else if n < 4 {
        4
    } else {
        n
    }
}

/// Where the batch that starts at a place ends, by the lengths of the texts.
pub open spec fn mini_batch_end(lengths: Seq<usize>, from: int) -> int {
    let ahead = if from + LOOK_AHEAD <= lengths.len() {
        from + LOOK_AHEAD - 1
    } else {
        lengths.len() - 1
    };
    let to = from + mini_batch_size(lengths[ahead] as int);
    if to < lengths.len() {
        to
    } else {
        lengths.len() as int
    }
}

/// Whether the batch that starts at one place ends at the next.
pub open spec fn is_mini_batch(lengths: Seq<usize>, starts: Seq<usize>, k: int) -> bool {
    &&& starts[k] < lengths.len()
    &&& starts[k + 1] == mini_batch_end(lengths, starts[k] as int)
}

/// Whether places cut a list into batches: each batch starts where the one before it
/// ends, the first one at the start, and the last one ends at the end.
pub open spec fn are_mini_batches(lengths: Seq<usize>, starts: Seq<usize>) -> bool {
    &&& starts.len() > 0
    &&& starts[0] == 0
    &&& starts.last() == lengths.len()
    &&& forall|k: int| 0 <= k < starts.len() - 1 ==> #[trigger] is_mini_batch(lengths, starts, k)
}

/// The places that cut a list of texts into batches, by the lengths of the texts.
pub fn mini_batch_starts(lengths: &Vec<usize>) -> (r: Vec<usize>)
    ensures
        are_mini_batches(lengths@, r@),
{
    let n: usize = lengths.len();
    let mut starts: Vec<usize> = Vec::new();
    let mut from: usize = 0;
    starts.push(0);
    while from < n
        invariant
            n == lengths@.len(),
            from <= n,
            starts@.len() > 0,
            starts@[0] == 0,
            starts@.last() == from,
            forall|k: int|
                0 <= k < starts@.len() - 1 ==> #[trigger] is_mini_batch(lengths@, starts@, k),
        decreases n - from,
    {
        let ahead: usize = if n - from >= LOOK_AHEAD {
            from + (LOOK_AHEAD - 1)
        } else {
            n - 1
        };
        let size: usize = mini_batch_size_for(lengths[ahead]);
        let to: usize = if n - from > size {
            from + size
        } else {
            n
        };
        let ghost before = starts@;
        starts.push(to);
        proof {
            assert(to == mini_batch_end(lengths@, from as int));
            assert forall|k: int| 0 <= k < starts@.len() - 1 implies #[trigger] is_mini_batch(
                lengths@,
                starts@,
                k,
            ) by {
                if k < before.len() - 1 {
                    assert(is_mini_batch(lengths@, before, k));
                }
            }
        }
        from = to;
    }
    starts
}

/// Where the texts come by length, no batch goes beyond the budget when its texts are
/// padded to the longest, unless it is one of the smallest batches.
pub proof fn law_mini_batch_keeps_the_budget(lengths: Seq<usize>, from: int, p: int)
    requires
        forall|i: int, j: int| 0 <= i <= j < lengths.len() ==> lengths[i] <= lengths[j],
        0 <= from <= p < mini_batch_end(lengths, from),
        from < lengths.len(),
    ensures
        ({
            let size = mini_batch_end(lengths, from) - from;
            1 <= size <= 4 || size * lengths[p] <= BATCH_CHARS
        }),
{
    let ahead = if from + LOOK_AHEAD <= lengths.len() {
        from + LOOK_AHEAD - 1
    } else {
        lengths.len() - 1
    };
    let longest = lengths[ahead] as int;
    let size = mini_batch_end(lengths, from) - from;
    assert(p <= ahead);
    assert(lengths[p] <= longest);
    if longest == 0 {
        assert(size * lengths[p] == 0) by (nonlinear_arith)
            requires
                lengths[p] == 0,
        ;
    }
    if size > 4 && longest > 0 {
        let n = BATCH_CHARS as int / longest;
        assert(size <= n || n > 16);
        assert(n * longest <= BATCH_CHARS) by (nonlinear_arith)
            requires
                longest > 0,
                n == BATCH_CHARS as int / longest,
        ;
        assert(size <= n);
        assert(size * lengths[p] <= n * longest) by (nonlinear_arith)
            requires
                0 <= size <= n,
                0 <= lengths[p] <= longest,
        ;
    }
}

/// The length of the text of each chunk, in bytes.
pub open spec fn text_lengths(chunks: Seq<Chunk>) -> Seq<usize> {
    chunks.map_values(|c: Chunk| byte_len(c.text@))
}

fn lengths_of(chunks: &Vec<Chunk>) -> (r: Vec<usize>)
    ensures
        r@ == text_lengths(chunks@),
{
    let n: usize = chunks.len();
    let mut out: Vec<usize> = Vec::new();
    let mut i: usize = 0;
    while i < n
        invariant
            n == chunks@.len(),
            i <= n,
            out@ == text_lengths(chunks@.take(i as int)),
        decreases n - i,
    {
        out.push(chunks[i].text.as_str().len());
        i = i + 1;
        assert(out@ =~= text_lengths(chunks@.take(i as int)));
    }
    assert(chunks@.take(n as int) =~= chunks@);
    out
}

/// Whether `batches` are the chunks in an order by length, cut at places.
pub open spec fn are_cut_at(
    chunks: Seq<Chunk>,
    order: Seq<usize>,
    starts: Seq<usize>,
    batches: Seq<Vec<Chunk>>,
) -> bool {
    let sorted = arranged(chunks, order);
    &&& is_stable_order(text_lengths(chunks), order)
    &&& are_mini_batches(text_lengths(sorted), starts)
    &&& batches.len() == starts.len() - 1
    &&& forall|k: int|
        0 <= k < batches.len() ==> (#[trigger] batches[k])@ == sorted.subrange(
            starts[k] as int,
            starts[k + 1] as int,
        )
}

/// Whether `batches` are the chunks by length, cut into batches.
pub open spec fn are_batches_of(chunks: Seq<Chunk>, batches: Seq<Vec<Chunk>>) -> bool {
    exists|order: Seq<usize>, starts: Seq<usize>| #[trigger]
        are_cut_at(chunks, order, starts, batches)
}

/// Gathers chunks into batches of like lengths, the short ones first: short chunks go in
/// larger batches than long ones.
pub fn mini_batches(chunks: Vec<Chunk>) -> (r: Vec<Vec<Chunk>>)
    ensures
        are_batches_of(chunks@, r@),
{
    let keys = lengths_of(&chunks);
    let order = stable_order(&keys);
    let ghost given = chunks@;
    let sorted = arrange(chunks, &order);
    let lengths = lengths_of(&sorted);
    let starts = mini_batch_starts(&lengths);
    let ghost all = sorted@;
    let mut rest = sorted;
    let mut reversed: Vec<Vec<Chunk>> = Vec::new();
    let m: usize = starts.len() - 1;
    let mut k: usize = m;
    assert(all.take(all.len() as int) =~= all);
    while k > 0
        invariant
            k <= m,
            m == starts@.len() - 1,
            lengths@ == text_lengths(all),
            are_mini_batches(lengths@, starts@),
            rest@ == all.take(starts@[k as int] as int),
            starts@[k as int] <= all.len(),
            reversed@.len() == m - k,
            forall|j: int|
                0 <= j < m - k ==> (#[trigger] reversed@[j])@ == all.subrange(
                    starts@[m - 1 - j] as int,
                    starts@[m - j] as int,
                ),
        decreases k,
    {
        assert(is_mini_batch(lengths@, starts@, k - 1));
        let from: usize = starts[k - 1];
        let batch = rest.split_off(from);
        assert(batch@ =~= all.subrange(from as int, starts@[k as int] as int));
        assert(rest@ =~= all.take(from as int));
        reversed.push(batch);
        k = k - 1;
    }
    let mut out: Vec<Vec<Chunk>> = Vec::new();
    let ghost cut = reversed@;
    while reversed.len() > 0
        invariant
            cut.len() == m,
            reversed@.len() + out@.len() == m,
            reversed@ == cut.take(reversed@.len() as int),
            forall|j: int| 0 <= j < out@.len() ==> #[trigger] out@[j] == cut[m - 1 - j],
        decreases reversed@.len(),
    {
        let ghost left = reversed@;
        let batch = reversed.pop();
        assert(left.last() == cut[left.len() - 1]);
        out.push(batch.unwrap());
        assert(reversed@ =~= cut.take(reversed@.len() as int));
    }
    proof {
        let order = order@;
        let starts = starts@;
        assert(arranged(given, order) == all);
        assert(are_mini_batches(text_lengths(all), starts));
        assert forall|j: int| 0 <= j < out@.len() implies (#[trigger] out@[j])@ == all.subrange(
            starts[j] as int,
            starts[j + 1] as int,
        ) by {
            assert(out@[j] == cut[m - 1 - j]);
        }
        assert(are_cut_at(given, order, starts, out@));
    }
    out
}

/// The chunks of several batches, one batch after the other.
pub open spec fn joined(batches: Seq<Vec<Chunk>>) -> Seq<Chunk>
    decreases batches.len(),
{
    if batches.len() == 0 {
        Seq::empty()
    } else {
        joined(batches.drop_last()) + batches.last()@
    }
}

/// No chunk is lost or doubled by gathering chunks into batches.
pub proof fn law_batches_lose_nothing(
    chunks: Seq<Chunk>,
    order: Seq<usize>,
    starts: Seq<usize>,
    batches: Seq<Vec<Chunk>>,
)
    requires
        are_cut_at(chunks, order, starts, batches),
    ensures
        joined(batches) == arranged(chunks, order),
{
    let sorted = arranged(chunks, order);
    lemma_joined_prefix(chunks, order, starts, batches, batches.len() as int);
    assert(batches.take(batches.len() as int) =~= batches);
    assert(sorted.take(sorted.len() as int) =~= sorted);
}

proof fn lemma_joined_prefix(
    chunks: Seq<Chunk>,
    order: Seq<usize>,
    starts: Seq<usize>,
    batches: Seq<Vec<Chunk>>,
    k: int,
)
    requires
        are_cut_at(chunks, order, starts, batches),
        0 <= k <= batches.len(),
    ensures
        starts[k] <= order.len(),
        joined(batches.take(k)) == arranged(chunks, order).take(starts[k] as int),
    decreases k,
{
    let sorted = arranged(chunks, order);
    if k == 0 {
        assert(batches.take(0) =~= Seq::<Vec<Chunk>>::empty());
        assert(sorted.take(0) =~= Seq::<Chunk>::empty());
    } else {
        lemma_joined_prefix(chunks, order, starts, batches, k - 1);
        assert(is_mini_batch(text_lengths(sorted), starts, k - 1));
        assert(batches.take(k).drop_last() =~= batches.take(k - 1));
        assert(batches[k - 1]@ == sorted.subrange(starts[k - 1] as int, starts[k] as int));
        assert(joined(batches.take(k)) =~= sorted.take(starts[k] as int));
    }
}

// ---------------------------------------------------------------------------
// Further laws
// ---------------------------------------------------------------------------

/// Batches of one size follow on each other without a gap: the first starts at the start,
/// each starts where the one before it ends, all but the last are full, the last one ends
/// at the end, and none is empty.
pub proof fn law_even_batches_are_full(total: int, size: int, i: int)
    requires
        size > 0,
        0 <= i < batch_count(total, size),
        total >= 0,
    ensures
        ({
            let (from, to) = batch_bounds(total, size, i);
            &&& batch_bounds(total, size, 0).0 == 0
            &&& from < to <= total
            &&& i + 1 < batch_count(total, size) ==> to == from + size && batch_bounds(
                total,
                size,
                i + 1,
            ).0 == to
            &&& i + 1 == batch_count(total, size) ==> to == total && to - from <= size
        }),
{
    let n = (total + size - 1) / size;
    assert(n * size <= total + size - 1 && total + size - 1 < n * size + size) by (nonlinear_arith)
        requires
            size > 0,
            n == (total + size - 1) / size,
    ;
    assert((i + 1) * size == i * size + size) by (nonlinear_arith);
    assert(0 * size == 0) by (nonlinear_arith);
    if i + 1 < n {
        assert((i + 1) * size + size <= n * size) by (nonlinear_arith)
            requires
                i + 2 <= n,
                size > 0,
        ;
    } else {
        assert(i + 1 == n);
    }
}

/// A size that was set is taken, and zero stands for all.
pub proof fn law_sizes_that_were_set(batch_size: usize, total: usize)
    ensures
        batch_size > 0 ==> size_for(batch_size, total) == batch_size,
        size_for(0, total) == total,
{
}

/// A batch of texts is as large as the budget allows when they are padded to the longest,
/// within four and sixteen: one text more would go beyond the budget, unless there are
/// sixteen already, and none goes beyond it, unless there are only four.
pub proof fn law_mini_batches_use_the_budget(longest: int)
    requires
        longest >= 0,
    ensures
        ({
            let size = mini_batch_size(longest);
            &&& 4 <= size <= 16
            &&& size > 4 ==> size * longest <= 16000
            &&& size < 16 ==> (size + 1) * longest > 16000
        }),
{
    let size = mini_batch_size(longest);
    if longest > 0 {
        let n = 16000int / longest;
        assert(n * longest <= 16000 && 16000 < (n + 1) * longest) by (nonlinear_arith)
            requires
                longest > 0,
                n == 16000int / longest,
        ;
        if size > 4 {
            assert(size * longest <= n * longest) by (nonlinear_arith)
                requires
                    size <= n,
                    longest > 0,
            ;
        }
        if size < 16 {
            assert((n + 1) * longest <= (size + 1) * longest) by (nonlinear_arith)
                requires
                    n <= size,
                    longest > 0,
            ;
        }
    } else {
        assert(longest == 0);
        assert(size * longest == 0) by (nonlinear_arith)
            requires
                longest == 0,
        ;
    }
}

/// Shorter texts go in batches that are at least as large.
pub proof fn law_short_texts_go_in_larger_batches(short: int, long: int)
    requires
        0 <= short <= long,
    ensures
        mini_batch_size(short) >= mini_batch_size(long),
{
    if short > 0 {
        assert(16000int / short >= 16000int / long) by (nonlinear_arith)
            requires
                0 < short <= long,
        ;
    }
}

/// A batch reaches as far as its size allows, or to the end; the size goes by the text that
/// stands thirty-one places ahead, or by the last one.
pub proof fn law_how_far_a_mini_batch_reaches(lengths: Seq<usize>, from: int)
    requires
        0 <= from < lengths.len(),
    ensures
        ({
            let ahead = if from + 31 < lengths.len() {
                from + 31
            } else {
                lengths.len() - 1
            };
            let size = mini_batch_size(lengths[ahead] as int);
            let end = mini_batch_end(lengths, from);
            &&& from < end <= lengths.len()
            &&& end - from <= size
            &&& end < lengths.len() ==> end - from == size
        }),
{
    law_mini_batches_use_the_budget(
        lengths[if from + 31 < lengths.len() {
            from + 31
        } else {
            lengths.len() - 1
        }] as int,
    );
}

/// Batches by length cut the list from its start to its end into parts that follow on each
/// other, each as long as a batch from its start reaches.
pub proof fn law_mini_batches_cut_the_whole_list(lengths: Seq<usize>, starts: Seq<usize>, k: int)
    requires
        are_mini_batches(lengths, starts),
        0 <= k < starts.len() - 1,
    ensures
        starts[0] == 0,
        starts[starts.len() - 1] == lengths.len(),
        starts[k] < starts[k + 1],
        starts[k + 1] == mini_batch_end(lengths, starts[k] as int),
{
    assert(is_mini_batch(lengths, starts, k));
    law_how_far_a_mini_batch_reaches(lengths, starts[k] as int);
}

/// Gathering chunks goes by the length of their texts in bytes, the short ones first.
#[verifier::spinoff_prover]
#[verifier::rlimit(30)]
pub proof fn law_chunks_are_gathered_by_length(
    chunks: Seq<Chunk>,
    order: Seq<usize>,
    starts: Seq<usize>,
    batches: Seq<Vec<Chunk>>,
    i: int,
    j: int,
)
    requires
        are_cut_at(chunks, order, starts, batches),
        chunks.len() <= usize::MAX,
        0 <= i < j < chunks.len(),
    ensures
        joined(batches).len() == chunks.len(),
        vstd::utf8::encode_utf8(joined(batches)[i].text@).len() as usize
            <= vstd::utf8::encode_utf8(joined(batches)[j].text@).len() as usize,
        joined(batches).contains(chunks[i]),
{
    law_batches_lose_nothing(chunks, order, starts, batches);
    let keys = text_lengths(chunks);
    law_what_a_stable_order_is(keys, order, i, j);
    let k = choose|k: int| 0 <= k < order.len() && order[k] == i as usize;
    assert(arranged(chunks, order)[k] == chunks[i]);
    assert(order[j] < keys.len()) by {
        law_order_has_all_places(keys, order);
    }
}

/// Chunks that were gathered into batches are all there, as many as there were, the short
/// ones before the long ones; no batch is empty, and none holds more than sixteen.
#[verifier::spinoff_prover]
#[verifier::rlimit(30)]
pub proof fn law_batches_hold_all_chunks(
    chunks: Seq<Chunk>,
    batches: Seq<Vec<Chunk>>,
    i: int,
    j: int,
    k: int,
)
    requires
        are_batches_of(chunks, batches),
        chunks.len() <= usize::MAX,
        0 <= i < j < chunks.len(),
        0 <= k < batches.len(),
    ensures
        joined(batches).len() == chunks.len(),
        joined(batches).contains(chunks[i]),
        vstd::utf8::encode_utf8(joined(batches)[i].text@).len() as usize
            <= vstd::utf8::encode_utf8(joined(batches)[j].text@).len() as usize,
        1 <= batches[k]@.len() <= 16,
{
    let (order, starts) = choose|order: Seq<usize>, starts: Seq<usize>| #[trigger]
        are_cut_at(chunks, order, starts, batches);
    law_chunks_are_gathered_by_length(chunks, order, starts, batches, i, j);
    let sorted = arranged(chunks, order);
    let lengths = text_lengths(sorted);
    law_mini_batches_cut_the_whole_list(lengths, starts, k);
    assert(is_mini_batch(lengths, starts, k));
    law_how_far_a_mini_batch_reaches(lengths, starts[k] as int);
    let from = starts[k] as int;
    law_mini_batches_use_the_budget(
        lengths[if from + 31 < lengths.len() {
            from + 31
        } else {
            lengths.len() - 1
        }] as int,
    );
    assert(batches[k]@ == sorted.subrange(starts[k] as int, starts[k + 1] as int));
    assert(starts[k + 1] <= lengths.len());
}

/// What batches hold is what each of them holds, one after the other.
pub proof fn law_batches_are_joined_in_order(batches: Seq<Vec<Chunk>>, batch: Vec<Chunk>)
    ensures
        joined(Seq::empty()) == Seq::<Chunk>::empty(),
        joined(batches.push(batch)) == joined(batches) + batch@,
{
    assert(batches.push(batch).drop_last() =~= batches);
}

} // verus!
