//! The settings of the embedding model and the tensors that go into it.

use vstd::prelude::*;
use vstd::string::*;

use crate::text::{append_decimal, same_text};
#[allow(unused_imports)]
use crate::text::{decimal, text_option};

verus! {

/// The longest token sequence that the model reads; longer ones are cut.
pub const MAX_LENGTH: usize = 8192;

/// The number of values in one embedding.
pub const HIDDEN_SIZE: usize = 768;

/// Configuration for parallel embedding
pub struct ParallelConfig {
    /// Number of worker sessions (default: 4)
    pub num_workers: usize,
    /// Threads per session for intra-op parallelism (default: 3)
    pub intra_threads: usize,
    /// Use the CUDA execution provider
    pub use_cuda: bool,
    /// Model variant: "fp32", "fp16", or "int8"
    pub model_variant: String,
}

/// The tokens of one text: their ids, and for each whether the model attends to it.
pub struct Tokens {
    pub ids: Vec<u32>,
    pub attention_mask: Vec<u32>,
}

/// A batch of token sequences as two tensors of `rows` times `row_len` values.
pub struct PaddedBatch {
    pub rows: usize,
    pub row_len: usize,
    pub input_ids: Vec<i64>,
    pub attention_mask: Vec<i64>,
}

// ---------------------------------------------------------------------------
// Settings
// ---------------------------------------------------------------------------

/// The number of logical CPUs, as `num_cpus::get` counts them on this machine. The
/// crate promises at least one.
#[verifier::external_body]
fn available_cores() -> (r: usize)
    ensures
        r >= 1,
{
    num_cpus::get()
}

impl ParallelConfig {
    /// Whether these are the settings for a machine with `cores` CPUs, where `gpu` and
    /// `model` are what the user asked for. Only the text `1` asks for the GPU; the GPU
    /// takes one session with one thread. Without it there are four sessions with three
    /// threads each, or with as many as each gets of fewer cores, but at least one.
    pub open spec fn suits(
        self,
        cores: usize,
        gpu: Option<Seq<char>>,
        model: Option<Seq<char>>,
    ) -> bool {
        &&& self.use_cuda == (gpu == Some("1"@))
        &&& self.model_variant@ == match model {
            Some(name) => name,
            None => "fp32"@,
        }
        &&& self.num_workers == if self.use_cuda {
            1usize
        } else {
            4usize
        }
        &&& self.intra_threads == if self.use_cuda || cores < 8 {
            1usize
        } else if cores / 4 > 3 {
            3usize
        } else {
            cores / 4
        }
    }

    /// The settings for a machine with `total_cores` CPUs.
    pub fn for_cores(total_cores: usize, gpu: Option<String>, model: Option<String>) -> (r: Self)
        ensures
            r.suits(total_cores, text_option(gpu), text_option(model)),
    {
        let use_cuda = match gpu {
            Some(value) => same_text(value.as_str(), "1"),
            None => false,
        };
        let model_variant = match model {
            Some(name) => name,
            None => "fp32".to_owned(),
        };
        let num_workers: usize = if use_cuda {
            1
        } else {
            4
        };
        let share: usize = total_cores / num_workers;
        let intra_threads: usize = if use_cuda || share < 1 {
            1
        } else if share > 3 {
            3
        } else {
            share
        };
        ParallelConfig { num_workers, intra_threads, use_cuda, model_variant }
    }

    /// The settings for this machine, where `gpu` and `model` are what the user asked
    /// for.
    pub fn for_this_machine(gpu: Option<String>, model: Option<String>) -> (r: Self)
        ensures
            exists|cores: usize|
                cores >= 1 && #[trigger] r.suits(cores, text_option(gpu), text_option(model)),
    {
        Self::for_cores(available_cores(), gpu, model)
    }

    /// The file of the model repository that holds a model variant.
    pub open spec fn model_file_of(variant: Seq<char>) -> Seq<char> {
        if variant == "fp16"@ {
            "onnx/model_fp16.onnx"@
        } else if variant == "int8"@ {
            "onnx/model_quantized.onnx"@
        } else {
            "onnx/model.onnx"@
        }
    }

    /// The file of the model repository that holds the model variant asked for.
    pub fn model_file(&self) -> (r: &'static str)
        ensures
            r@ == Self::model_file_of(self.model_variant@),
    {
        if same_text(self.model_variant.as_str(), "fp16") {
            "onnx/model_fp16.onnx"
        } else if same_text(self.model_variant.as_str(), "int8") {
            "onnx/model_quantized.onnx"
        } else {
            "onnx/model.onnx"
        }
    }

    /// The line that tells how the model runs.
    pub open spec fn mode_text(self) -> Seq<char> {
        if self.use_cuda {
            "GPU mode: CUDA execution provider, "@ + decimal(self.num_workers as nat)
                + " worker(s)"@
        } else {
            "CPU mode: "@ + decimal(self.num_workers as nat) + " workers × "@
                + decimal(self.intra_threads as nat) + " threads each"@
        }
    }

    /// The line that tells how the model runs.
    pub fn mode_line(&self) -> (r: String)
        ensures
            r@ == self.mode_text(),
    {
        if self.use_cuda {
            let mut out = "GPU mode: CUDA execution provider, ".to_owned();
            append_decimal(&mut out, self.num_workers as u64);
            out.append(" worker(s)");
            out
        } else {
            let mut out = "CPU mode: ".to_owned();
            append_decimal(&mut out, self.num_workers as u64);
            out.append(" workers × ");
            append_decimal(&mut out, self.intra_threads as u64);
            out.append(" threads each");
            out
        }
    }
}

impl ParallelConfig {
    /// The line that the workers are there.
    pub open spec fn pool_text(self) -> Seq<char> {
        "Worker pool created: "@ + decimal(self.num_workers as nat) + " workers × "@ + decimal(
            self.intra_threads as nat,
        ) + " threads = "@ + decimal((self.num_workers * self.intra_threads) as nat)
            + " total threads"@
    }

    /// The line that the workers are there.
    pub fn pool_line(&self) -> (r: String)
        requires
            self.num_workers * self.intra_threads <= usize::MAX,
        ensures
            r@ == self.pool_text(),
    {
        let mut out = "Worker pool created: ".to_owned();
        append_decimal(&mut out, self.num_workers as u64);
        out.append(" workers × ");
        append_decimal(&mut out, self.intra_threads as u64);
        out.append(" threads = ");
        append_decimal(&mut out, (self.num_workers * self.intra_threads) as u64);
        out.append(" total threads");
        out
    }
}

// ---------------------------------------------------------------------------
// Tensors
// ---------------------------------------------------------------------------

/// The number of tokens of a sequence that fit a row of `row_len` values.
pub open spec fn used_len(len: int, row_len: int) -> int {
    let cut = if len <= MAX_LENGTH {
        len
    } else {
        MAX_LENGTH as int
    };
    if cut <= row_len {
        cut
    } else {
        row_len
    }
}

/// The longest of the first `n` token sequences, each cut at what the model reads.
pub open spec fn longest(batch: Seq<Tokens>, n: int) -> int
    decreases n,
{
    if n <= 0 {
        0
    } else {
        let before = longest(batch, n - 1);
        let this = used_len(batch[n - 1].ids@.len() as int, MAX_LENGTH as int);
        if this > before {
            this
        } else {
            before
        }
    }
}

/// The length of the rows of a padded batch: the length asked for, or where that is
/// zero the longest sequence.
pub open spec fn row_length(batch: Seq<Tokens>, pad_to: usize) -> int {
    if pad_to > 0 {
        pad_to as int
    } else {
        longest(batch, batch.len() as int)
    }
}

/// A row of `row_len` values: the first tokens of a sequence, and zeros behind them.
pub open spec fn padded_row(values: Seq<u32>, used: int, row_len: int) -> Seq<i64> {
    Seq::new(
        row_len as nat,
        |j: int|
            if j < used {
                values[j] as i64
            } else {
                0i64
            },
    )
}

/// Whether for each token that fits a row of `row_len` values it is known if the model
/// attends to it.
pub open spec fn is_masked(tokens: Tokens, row_len: int) -> bool {
    tokens.attention_mask@.len() >= used_len(tokens.ids@.len() as int, row_len)
}

/// The padded id rows of the first `n` sequences, one behind the other.
pub open spec fn id_rows(batch: Seq<Tokens>, row_len: int, n: int) -> Seq<i64>
    decreases n,
{
    if n <= 0 {
        Seq::empty()
    } else {
        id_rows(batch, row_len, n - 1) + padded_row(
            batch[n - 1].ids@,
            used_len(batch[n - 1].ids@.len() as int, row_len),
            row_len,
        )
    }
}

/// The padded attention rows of the first `n` sequences, one behind the other.
pub open spec fn mask_rows(batch: Seq<Tokens>, row_len: int, n: int) -> Seq<i64>
    decreases n,
{
    if n <= 0 {
        Seq::empty()
    } else {
        mask_rows(batch, row_len, n - 1) + padded_row(
            batch[n - 1].attention_mask@,
            used_len(batch[n - 1].ids@.len() as int, row_len),
            row_len,
        )
    }
}

fn truncated_len(len: usize, row_len: usize) -> (r: usize)
    ensures
        r == used_len(len as int, row_len as int),
{
    let cut: usize = if len <= MAX_LENGTH {
        len
    } else {
        MAX_LENGTH
    };
    if cut <= row_len {
        cut
    } else {
        row_len
    }
}

fn push_row(out: &mut Vec<i64>, values: &Vec<u32>, used: usize, row_len: usize)
    requires
        used <= row_len,
        used <= values@.len(),
    ensures
        final(out)@ == old(out)@ + padded_row(values@, used as int, row_len as int),
{
    let ghost row = padded_row(values@, used as int, row_len as int);
    let ghost start = out@;
    let mut j: usize = 0;
    assert(row.take(0) =~= Seq::<i64>::empty());
    assert(start + Seq::<i64>::empty() =~= start);
    while j < row_len
        invariant
            j <= row_len,
            used <= row_len,
            used <= values@.len(),
            row == padded_row(values@, used as int, row_len as int),
            out@ == start + row.take(j as int),
        decreases row_len - j,
    {
        let value: i64 = if j < used {
            values[j] as i64
        } else {
            0
        };
        assert(value == row[j as int]);
        assert((start + row.take(j as int)).push(value) =~= start + row.take(j + 1));
        out.push(value);
        j = j + 1;
    }
    assert(row.take(row_len as int) =~= row);
}

/// The length of the rows that a batch is padded to.
pub fn batch_row_length(batch: &Vec<Tokens>, pad_to: usize) -> (r: usize)
    ensures
        r == row_length(batch@, pad_to),
{
    if pad_to > 0 {
        return pad_to;
    }
    let mut best: usize = 0;
    let mut i: usize = 0;
    while i < batch.len()
        invariant
            i <= batch@.len(),
            best == longest(batch@, i as int),
        decreases batch@.len() - i,
    {
        let this: usize = truncated_len(batch[i].ids.len(), MAX_LENGTH);
        if this > best {
            best = this;
        }
        i = i + 1;
    }
    best
}

/// Lays a batch of token sequences out as tensors. Each sequence takes one row: its
/// tokens, cut where the row or the model's limit ends, and zeros up to the row's end.
pub fn pad_batch(batch: &Vec<Tokens>, pad_to: usize) -> (r: PaddedBatch)
    requires
        forall|i: int|
            0 <= i < batch@.len() ==> is_masked(
                #[trigger] batch@[i],
                row_length(batch@, pad_to),
            ),
    ensures
        r.rows == batch@.len(),
        r.row_len == row_length(batch@, pad_to),
        r.input_ids@ == id_rows(batch@, r.row_len as int, r.rows as int),
        r.attention_mask@ == mask_rows(batch@, r.row_len as int, r.rows as int),
{
    let row_len: usize = batch_row_length(batch, pad_to);
    let mut input_ids: Vec<i64> = Vec::new();
    let mut attention_mask: Vec<i64> = Vec::new();
    let mut i: usize = 0;
    while i < batch.len()
        invariant
            i <= batch@.len(),
            row_len == row_length(batch@, pad_to),
            forall|k: int|
                0 <= k < batch@.len() ==> is_masked(
                    #[trigger] batch@[k],
                    row_length(batch@, pad_to),
                ),
            input_ids@ == id_rows(batch@, row_len as int, i as int),
            attention_mask@ == mask_rows(batch@, row_len as int, i as int),
        decreases batch@.len() - i,
    {
        assert(is_masked(batch@[i as int], row_len as int));
        let used: usize = truncated_len(batch[i].ids.len(), row_len);
        push_row(&mut input_ids, &batch[i].ids, used, row_len);
        push_row(&mut attention_mask, &batch[i].attention_mask, used, row_len);
        i = i + 1;
    }
    PaddedBatch { rows: batch.len(), row_len, input_ids, attention_mask }
}

/// The tensors of a single token sequence: as many tokens as the model reads, and no
/// padding.
pub fn single_input(tokens: &Tokens) -> (r: PaddedBatch)
    requires
        is_masked(*tokens, MAX_LENGTH as int),
    ensures
        r.rows == 1,
        r.row_len == used_len(tokens.ids@.len() as int, MAX_LENGTH as int),
        (r.input_ids@, r.attention_mask@) == model_input(*tokens),
{
    let seq_len: usize = truncated_len(tokens.ids.len(), MAX_LENGTH);
    let mut input_ids: Vec<i64> = Vec::new();
    let mut attention_mask: Vec<i64> = Vec::new();
    push_row(&mut input_ids, &tokens.ids, seq_len, seq_len);
    push_row(&mut attention_mask, &tokens.attention_mask, seq_len, seq_len);
    assert(input_ids@ =~= padded_row(tokens.ids@, seq_len as int, seq_len as int));
    assert(attention_mask@ =~= padded_row(tokens.attention_mask@, seq_len as int, seq_len as int));
    PaddedBatch { rows: 1, row_len: seq_len, input_ids, attention_mask }
}

/// The number of tokens of a sequence that take part in its embedding, in rows of
/// `row_len` values.
pub fn pooled_len(token_count: usize, row_len: usize) -> (r: usize)
    ensures
        r == used_len(token_count as int, row_len as int),
{
    truncated_len(token_count, row_len)
}

/// Where the model's output holds value `h` of token `j` in row `i`.
pub fn output_index(rows: usize, row_len: usize, i: usize, j: usize, h: usize) -> (r: usize)
    requires
        i < rows,
        j < row_len,
        h < HIDDEN_SIZE,
        rows * row_len * HIDDEN_SIZE <= usize::MAX,
    ensures
        r == (i * row_len + j) * HIDDEN_SIZE + h,
        r < rows * row_len * HIDDEN_SIZE,
{
    proof {
        assert(i * row_len + j < rows * row_len) by (nonlinear_arith)
            requires
                i < rows,
                j < row_len,
        ;
        assert(i * row_len >= 0) by (nonlinear_arith)
            requires
                i >= 0,
                row_len >= 0,
        ;
    }
    (i * row_len + j) * HIDDEN_SIZE + h
}

/// The worker that takes the text at an index.
pub fn worker_for(worker_index: usize, num_workers: usize) -> (r: usize)
    requires
        num_workers > 0,
    ensures
        r == worker_index % num_workers,
        r < num_workers,
{
    worker_index % num_workers
}

// ---------------------------------------------------------------------------
// Laws
// ---------------------------------------------------------------------------

/// From four cores on, or on the GPU, the sessions ask for no more threads than there are
/// cores.
pub proof fn law_sessions_fit_the_cores(
    config: ParallelConfig,
    cores: usize,
    gpu: Option<Seq<char>>,
    model: Option<Seq<char>>,
)
    requires
        config.suits(cores, gpu, model),
        cores >= 4 || (config.use_cuda && cores >= 1),
    ensures
        config.num_workers * config.intra_threads <= cores,
{
}

/// The input that a session gets for a single token sequence: the ids of the tokens, and
/// for each whether the model attends to it.
pub open spec fn model_input(tokens: Tokens) -> (Seq<i64>, Seq<i64>) {
    let used = used_len(tokens.ids@.len() as int, MAX_LENGTH as int);
    (padded_row(tokens.ids@, used, used), padded_row(tokens.attention_mask@, used, used))
}

/// Which worker takes a text does not show in what comes out: every index leads to one of
/// the workers, and where each of them gives the same output for the same input, two
/// indices give the same output for the same tokens.
pub proof fn law_worker_does_not_show<A>(
    run: spec_fn(usize, (Seq<i64>, Seq<i64>)) -> A,
    num_workers: usize,
    tokens: Tokens,
    i: usize,
    j: usize,
)
    requires
        num_workers > 0,
        forall|v: usize, w: usize, input: (Seq<i64>, Seq<i64>)|
            v < num_workers && w < num_workers ==> #[trigger] run(v, input)
                == #[trigger] run(w, input),
    ensures
        i % num_workers < num_workers,
        j % num_workers < num_workers,
        run(i % num_workers, model_input(tokens)) == run(j % num_workers, model_input(tokens)),
{
    assert(i % num_workers < num_workers && j % num_workers < num_workers) by (nonlinear_arith)
        requires
            num_workers > 0,
    ;
}

/// Two texts that agree in as many tokens as the model reads give it the same input: what
/// lies beyond does not count.
pub proof fn law_only_the_first_tokens_count(a: Tokens, b: Tokens)
    requires
        is_masked(a, MAX_LENGTH as int),
        is_masked(b, MAX_LENGTH as int),
        used_len(a.ids@.len() as int, MAX_LENGTH as int) == used_len(
            b.ids@.len() as int,
            MAX_LENGTH as int,
        ),
        forall|k: int|
            0 <= k < used_len(a.ids@.len() as int, MAX_LENGTH as int) ==> #[trigger] a.ids@[k]
                == b.ids@[k],
        forall|k: int|
            0 <= k < used_len(a.ids@.len() as int, MAX_LENGTH as int)
                ==> #[trigger] a.attention_mask@[k] == b.attention_mask@[k],
    ensures
        model_input(a) == model_input(b),
{
    assert(model_input(a).0 =~= model_input(b).0);
    assert(model_input(a).1 =~= model_input(b).1);
}

/// All tokens that a single sequence gives the model take part in its embedding, and no
/// other place does.
pub proof fn law_single_input_is_pooled_whole(tokens: Tokens)
    ensures
        ({
            let used = used_len(tokens.ids@.len() as int, MAX_LENGTH as int);
            &&& used_len(tokens.ids@.len() as int, used) == used
            &&& model_input(tokens).0.len() == used
            &&& model_input(tokens).1.len() == used
        }),
{
}

/// The value at a place of a padded row: that of the token at this place, or zero.
pub open spec fn cell(values: Seq<u32>, used: int, j: int) -> int {
    if j < used {
        values[j] as int
    } else {
        0
    }
}

/// The tensors hold one row for each sequence, and row `i` at place `j` holds token `j`
/// of sequence `i`, or zero where the sequence does not reach.
pub proof fn law_rows_hold_the_tokens(batch: Seq<Tokens>, row_len: int, n: int, i: int, j: int)
    requires
        0 <= i < n <= batch.len(),
        0 <= j < row_len,
    ensures
        id_rows(batch, row_len, n).len() == n * row_len,
        mask_rows(batch, row_len, n).len() == n * row_len,
        0 <= i * row_len + j < n * row_len,
        ({
            let used = used_len(batch[i].ids@.len() as int, row_len);
            &&& id_rows(batch, row_len, n)[i * row_len + j] == cell(batch[i].ids@, used, j)
            &&& mask_rows(batch, row_len, n)[i * row_len + j] == cell(
                batch[i].attention_mask@,
                used,
                j,
            )
        }),
    decreases n,
{
    lemma_rows_len(batch, row_len, n);
    lemma_rows_len(batch, row_len, n - 1);
    assert(n * row_len == (n - 1) * row_len + row_len) by (nonlinear_arith);
    assert(0 <= i * row_len) by (nonlinear_arith)
        requires
            0 <= i,
            0 < row_len,
    ;
    assert(i * row_len + row_len <= n * row_len) by (nonlinear_arith)
        requires
            i < n,
            0 < row_len,
    ;
    if i < n - 1 {
        law_rows_hold_the_tokens(batch, row_len, n - 1, i, j);
    }
}

proof fn lemma_rows_len(batch: Seq<Tokens>, row_len: int, n: int)
    requires
        0 <= n <= batch.len(),
        0 <= row_len,
    ensures
        id_rows(batch, row_len, n).len() == n * row_len,
        mask_rows(batch, row_len, n).len() == n * row_len,
    decreases n,
{
    if n == 0 {
        assert(0 * row_len == 0) by (nonlinear_arith);
    } else {
        lemma_rows_len(batch, row_len, n - 1);
        assert(n * row_len == (n - 1) * row_len + row_len) by (nonlinear_arith);
    }
}

/// Rows that are as long as the longest sequence cut no sequence below what the model
/// reads.
pub proof fn law_longest_row_cuts_nothing(batch: Seq<Tokens>, i: int)
    requires
        0 <= i < batch.len(),
    ensures
        used_len(batch[i].ids@.len() as int, row_length(batch, 0)) == used_len(
            batch[i].ids@.len() as int,
            MAX_LENGTH as int,
        ),
{
    lemma_longest(batch, batch.len() as int, i);
}

proof fn lemma_longest(batch: Seq<Tokens>, n: int, i: int)
    requires
        0 <= i < n <= batch.len(),
    ensures
        used_len(batch[i].ids@.len() as int, MAX_LENGTH as int) <= longest(batch, n),
    decreases n,
{
    if i < n - 1 {
        lemma_longest(batch, n - 1, i);
    }
}

/// The settings of a machine: the GPU is used exactly where `1` asks for it; it takes one
/// session with one thread; without it there are four sessions, each with a quarter of the
/// cores, but with one thread at least and three at most. A model that is asked for is
/// taken, and else the full one.
pub proof fn law_settings_of_a_machine(
    config: ParallelConfig,
    cores: usize,
    gpu: Option<Seq<char>>,
    variant: Option<Seq<char>>,
)
    requires
        config.suits(cores, gpu, variant),
    ensures
        config.use_cuda <==> gpu is Some && gpu->0 == "1"@,
        config.use_cuda ==> config.num_workers == 1 && config.intra_threads == 1,
        !config.use_cuda ==> config.num_workers == 4,
        !config.use_cuda ==> 1 <= config.intra_threads <= 3,
        !config.use_cuda && 4 <= cores < 16 ==> 4 * config.intra_threads <= cores && cores < 4
            * config.intra_threads + 4,
        !config.use_cuda && cores >= 12 ==> config.intra_threads == 3,
        !config.use_cuda && cores < 4 ==> config.intra_threads == 1,
        variant matches Some(name) ==> config.model_variant@ == name,
        variant is None ==> config.model_variant@ == "fp32"@,
{
}

/// Each variant of the model has its file, and all that are not known share the full one.
pub proof fn law_files_of_model_variants(variant: Seq<char>)
    ensures
        ParallelConfig::model_file_of("fp16"@) == "onnx/model_fp16.onnx"@,
        ParallelConfig::model_file_of("int8"@) == "onnx/model_quantized.onnx"@,
        variant != "fp16"@ && variant != "int8"@ ==> ParallelConfig::model_file_of(variant)
            == "onnx/model.onnx"@,
{
    reveal_strlit("fp16");
    reveal_strlit("int8");
    assert("fp16"@[0] == 'f' && "int8"@[0] == 'i');
}

/// Of a sequence as many tokens are used as there are, but no more than a row holds, and no
/// more than the model reads.
pub proof fn law_used_tokens(len: int, row_len: int)
    ensures
        used_len(len, row_len) <= len && used_len(len, row_len) <= row_len && used_len(len, row_len)
            <= 8192,
        used_len(len, row_len) == len || used_len(len, row_len) == row_len || used_len(len, row_len)
            == 8192,
{
}

/// Without a length that is asked for, rows are as long as the longest sequence, cut at
/// what the model reads; and one that is asked for is taken.
pub proof fn law_length_of_rows(batch: Seq<Tokens>, pad_to: usize, i: int)
    ensures
        pad_to > 0 ==> row_length(batch, pad_to) == pad_to,
        0 <= i < batch.len() ==> row_length(batch, 0) >= batch[i].ids@.len() || row_length(batch, 0)
            >= 8192,
        row_length(batch, 0) <= 8192,
        batch.len() == 0 ==> row_length(batch, 0) == 0,
        batch.len() > 0 ==> exists|k: int|
            0 <= k < batch.len() && used_len((#[trigger] batch[k]).ids@.len() as int, 8192)
                == row_length(batch, 0),
{
    if 0 <= i < batch.len() {
        lemma_longest(batch, batch.len() as int, i);
    }
    lemma_longest_is_one(batch, batch.len() as int);
}

proof fn lemma_longest_is_one(batch: Seq<Tokens>, n: int)
    requires
        0 <= n <= batch.len(),
    ensures
        0 <= longest(batch, n) <= 8192,
        n > 0 ==> exists|k: int|
            0 <= k < n && used_len((#[trigger] batch[k]).ids@.len() as int, 8192) == longest(
                batch,
                n,
            ),
    decreases n,
{
    if n > 0 {
        lemma_longest_is_one(batch, n - 1);
        assert(used_len(batch[n - 1].ids@.len() as int, 8192) >= 0);
        if n > 1 && used_len(batch[n - 1].ids@.len() as int, 8192) <= longest(batch, n - 1) {
            let k = choose|k: int|
                0 <= k < n - 1 && used_len((#[trigger] batch[k]).ids@.len() as int, 8192)
                    == longest(batch, n - 1);
            assert(used_len(batch[k].ids@.len() as int, 8192) == longest(batch, n));
        } else {
            assert(used_len(batch[n - 1].ids@.len() as int, 8192) == longest(batch, n));
        }
    }
}

/// A row holds the tokens that are used, each at its place, and zeros behind them.
pub proof fn law_a_row_holds_its_tokens(values: Seq<u32>, used: int, row_len: int, j: int)
    requires
        0 <= used <= row_len,
        used <= values.len(),
        0 <= j < row_len,
    ensures
        padded_row(values, used, row_len).len() == row_len,
        j < used ==> padded_row(values, used, row_len)[j] == values[j],
        j >= used ==> padded_row(values, used, row_len)[j] == 0,
{
}

/// The line on how the model runs names the number of sessions and, on the CPU, the threads
/// of each; the line on the pool names their product too.
pub proof fn law_lines_on_the_model(config: ParallelConfig)
    ensures
        config.use_cuda ==> config.mode_text() == "GPU mode: CUDA execution provider, "@ + decimal(
            config.num_workers as nat,
        ) + " worker(s)"@,
        !config.use_cuda ==> config.mode_text() == "CPU mode: "@ + decimal(
            config.num_workers as nat,
        ) + " workers × "@ + decimal(config.intra_threads as nat) + " threads each"@,
        config.pool_text() == "Worker pool created: "@ + decimal(config.num_workers as nat)
            + " workers × "@ + decimal(config.intra_threads as nat) + " threads = "@ + decimal(
            (config.num_workers * config.intra_threads) as nat,
        ) + " total threads"@,
{
}

} // verus!
