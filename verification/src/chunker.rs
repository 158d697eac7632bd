//! The plan by which a long recording is cut into overlapping chunks before
//! transcription: chunks of four minutes of 16 kHz audio, each starting five
//! seconds before the previous one ends.

use vstd::prelude::*;

verus! {

/// Samples per second of the audio that the model reads.
pub const SAMPLE_RATE: u32 = 16000;

/// Samples in a full chunk: four minutes at [`SAMPLE_RATE`].
pub const CHUNK_SAMPLES: usize = 3840000;

/// Samples shared by two consecutive chunks: five seconds at [`SAMPLE_RATE`].
pub const OVERLAP_SAMPLES: usize = 80000;

/// Distance between the starts of two consecutive chunks.
pub const STEP_SAMPLES: usize = 3760000;

/// One chunk of a recording: the samples `start..end`, its position `index`
/// in the plan and the number of chunks in the plan.
#[derive(Clone, Copy, Debug, PartialEq, Eq, Structural)]
pub struct ChunkSpan {
    pub start: usize,
    pub end: usize,
    pub index: usize,
    pub total_chunks: usize,
}

/// Number of chunks of a recording of `n` samples: one when it fits in a
/// single chunk, else as many as it takes for the last one to reach the end.
pub open spec fn chunk_count(n: nat) -> nat {
    if n <= CHUNK_SAMPLES {
        1
    } else {
        ((n - CHUNK_SAMPLES + STEP_SAMPLES - 1) as nat / (STEP_SAMPLES as nat) + 1) as nat
    }
}

/// Start of chunk `j`.
pub open spec fn chunk_start(j: nat) -> nat {
    j * (STEP_SAMPLES as nat)
}

/// End of chunk `j` of a recording of `n` samples: a full chunk after its
/// start, cut at the end of the recording.
pub open spec fn chunk_end(n: nat, j: nat) -> nat {
    if chunk_start(j) + CHUNK_SAMPLES <= n {
        (chunk_start(j) + CHUNK_SAMPLES) as nat
    } else {
        n
    }
}

/// Chunk `j` of the plan for a recording of `n` samples.
pub open spec fn chunk_span(n: nat, j: nat) -> ChunkSpan {
    ChunkSpan {
        start: chunk_start(j) as usize,
        end: chunk_end(n, j) as usize,
        index: j as usize,
        total_chunks: chunk_count(n) as usize,
    }
}

/// The whole plan for a recording of `n` samples.
pub open spec fn chunk_plan(n: nat) -> Seq<ChunkSpan> {
    Seq::new(chunk_count(n), |j: int| chunk_span(n, j as nat))
}

/// Where the chunk count sits between the starts: every chunk but the last
/// ends before the recording does, and the last one reaches it.
proof fn lemma_count_bounds(n: nat)
    requires
        n > CHUNK_SAMPLES,
    ensures
        chunk_count(n) >= 2,
        chunk_start((chunk_count(n) - 1) as nat) + CHUNK_SAMPLES >= n,
        chunk_start((chunk_count(n) - 2) as nat) + CHUNK_SAMPLES < n,
{
    let d: int = n - CHUNK_SAMPLES;
    let s: int = 3760000;
    let q: int = (d + s - 1) / s;
    assert(q >= 1) by (nonlinear_arith)
        requires
            d >= 1,
            s == 3760000,
            q == (d + s - 1) / s,
    ;
    assert(q * s >= d) by (nonlinear_arith)
        requires
            s == 3760000,
            q == (d + s - 1) / s,
    ;
    assert((q - 1) * s < d) by (nonlinear_arith)
        requires
            s == 3760000,
            q == (d + s - 1) / s,
            q >= 1,
    ;
    assert(chunk_count(n) == q + 1);
}

/// Every chunk but the last ends a full chunk after its start, before the
/// end of the recording.
proof fn lemma_inner_chunk(n: nat, j: nat)
    requires
        j + 1 < chunk_count(n),
    ensures
        chunk_start(j) + CHUNK_SAMPLES < n,
        chunk_end(n, j) == chunk_start(j) + CHUNK_SAMPLES,
{
    lemma_count_bounds(n);
    let k = (chunk_count(n) - 2) as nat;
    assert(chunk_start(j) <= chunk_start(k)) by (nonlinear_arith)
        requires
            j <= k,
            chunk_start(j) == j * 3760000,
            chunk_start(k) == k * 3760000,
    ;
}

/// The last chunk ends where the recording ends.
proof fn lemma_last_chunk(n: nat)
    ensures
        chunk_end(n, (chunk_count(n) - 1) as nat) == n,
{
    if n > CHUNK_SAMPLES {
        lemma_count_bounds(n);
    } else {
        assert(chunk_count(n) == 1);
        assert(chunk_start(0) == 0);
    }
}

/// Every chunk lies inside the recording, holds at most a full chunk of
/// samples, and is non-empty unless the recording is.
pub proof fn lemma_chunk_within_recording(n: nat, j: nat)
    requires
        j < chunk_count(n),
    ensures
        chunk_start(j) <= chunk_end(n, j) <= n,
        chunk_end(n, j) - chunk_start(j) <= CHUNK_SAMPLES,
        n > 0 ==> chunk_start(j) < chunk_end(n, j),
{
    if j + 1 < chunk_count(n) {
        lemma_inner_chunk(n, j);
    } else if n > CHUNK_SAMPLES {
        lemma_count_bounds(n);
        let k = (chunk_count(n) - 2) as nat;
        assert(j == k + 1);
        assert(chunk_start(j) == chunk_start(k) + STEP_SAMPLES) by (nonlinear_arith)
            requires
                j == k + 1,
                chunk_start(j) == j * 3760000,
                chunk_start(k) == k * 3760000,
        ;
    } else {
        assert(j == 0);
        assert(chunk_start(0) == 0);
    }
}

/// Two consecutive chunks share exactly [`OVERLAP_SAMPLES`] samples: the
/// next one starts that many samples before the previous one ends.
pub proof fn lemma_consecutive_chunks_overlap(n: nat, j: nat)
    requires
        j + 1 < chunk_count(n),
    ensures
        chunk_end(n, j) == chunk_start(j + 1) + OVERLAP_SAMPLES,
{
    lemma_inner_chunk(n, j);
    assert(chunk_start(j + 1) == chunk_start(j) + STEP_SAMPLES) by (nonlinear_arith)
        requires
            chunk_start(j + 1) == (j + 1) * 3760000,
            chunk_start(j) == j * 3760000,
    ;
}

/// The plan starts at the first sample and its last chunk ends at the end of
/// the recording.
pub proof fn lemma_plan_spans_recording(n: nat)
    ensures
        chunk_count(n) >= 1,
        chunk_start(0) == 0,
        chunk_end(n, (chunk_count(n) - 1) as nat) == n,
{
    assert(chunk_start(0) == 0);
    lemma_last_chunk(n);
}

/// Every sample of the recording falls in some chunk of the plan; the
/// result is one such chunk.
pub proof fn lemma_plan_covers_every_sample(n: nat, sample: nat) -> (j: nat)
    requires
        sample < n,
    ensures
        j < chunk_count(n),
        chunk_start(j) <= sample < chunk_end(n, j),
{
    let s = STEP_SAMPLES as nat;
    let last = (chunk_count(n) - 1) as nat;
    let q = sample / s;
    if q < last {
        lemma_inner_chunk(n, q);
        assert(chunk_start(q) <= sample < chunk_start(q) + CHUNK_SAMPLES) by (nonlinear_arith)
            requires
                q == sample / 3760000,
                chunk_start(q) == q * 3760000,
        ;
        q
    } else {
        lemma_last_chunk(n);
        assert(chunk_start(last) <= sample) by (nonlinear_arith)
            requires
                q == sample / 3760000,
                last <= q,
                chunk_start(last) == last * 3760000,
        ;
        last
    }
}

/// The chunks of a recording of `n_samples` samples, in order: chunk `j`
/// covers the samples from `j * STEP_SAMPLES` to a full chunk later, cut at
/// the end of the recording, and the plan stops at the first chunk that
/// reaches the end. A recording that fits in one chunk (an empty one too)
/// is a single chunk.
pub fn plan_chunks(n_samples: usize) -> (plan: Vec<ChunkSpan>)
    ensures
        plan@ == chunk_plan(n_samples as nat),
{
    let ghost n = n_samples as nat;
    if n_samples <= CHUNK_SAMPLES {
        let mut plan: Vec<ChunkSpan> = Vec::new();
        plan.push(ChunkSpan { start: 0, end: n_samples, index: 0, total_chunks: 1 });
        assert(chunk_start(0) == 0);
        assert(plan@ =~= chunk_plan(n));
        return plan;
    }
    proof {
        lemma_count_bounds(n);
    }
    let mut spans: Vec<ChunkSpan> = Vec::new();
    let mut offset: usize = 0;
    loop
        invariant_except_break
            n == n_samples as nat,
            n > CHUNK_SAMPLES,
            offset as nat == chunk_start(spans.len() as nat),
            offset < n_samples,
            spans.len() + 1 < chunk_count(n) + 1,
            forall|k: int|
                0 <= k < spans.len() ==> #[trigger] spans@[k] == (ChunkSpan {
                    total_chunks: 0,
                    ..chunk_span(n, k as nat)
                }),
        ensures
            n == n_samples as nat,
            spans.len() == chunk_count(n),
            forall|k: int|
                0 <= k < spans.len() ==> #[trigger] spans@[k] == (ChunkSpan {
                    total_chunks: 0,
                    ..chunk_span(n, k as nat)
                }),
        decreases n_samples - offset,
    {
        let ghost j = spans.len() as nat;
        let end = if n_samples - offset > CHUNK_SAMPLES {
            offset + CHUNK_SAMPLES
        } else {
            n_samples
        };
        let index = spans.len();
        spans.push(ChunkSpan { start: offset, end, index, total_chunks: 0 });
        if end >= n_samples {
            proof {
                if j + 1 < chunk_count(n) {
                    lemma_inner_chunk(n, j);
                }
            }
            break;
        }
        proof {
            assert(chunk_start(j + 1) == chunk_start(j) + STEP_SAMPLES) by (nonlinear_arith)
                requires
                    chunk_start(j + 1) == (j + 1) * 3760000,
                    chunk_start(j) == j * 3760000,
            ;
            if j + 1 >= chunk_count(n) {
                lemma_count_bounds(n);
                assert(j == chunk_count(n) - 1);
            }
        }
        offset = offset + STEP_SAMPLES;
    }
    let total = spans.len();
    let mut i: usize = 0;
    while i < total
        invariant
            n == n_samples as nat,
            total == spans.len(),
            total == chunk_count(n),
            i <= total,
            forall|k: int| 0 <= k < i ==> #[trigger] spans@[k] == chunk_span(n, k as nat),
            forall|k: int|
                i <= k < total ==> #[trigger] spans@[k] == (ChunkSpan {
                    total_chunks: 0,
                    ..chunk_span(n, k as nat)
                }),
        decreases total - i,
    {
        let s = spans[i];
        spans.set(i, ChunkSpan { total_chunks: total, ..s });
        i = i + 1;
    }
    assert(spans@ =~= chunk_plan(n));
    spans
}

} // verus!
