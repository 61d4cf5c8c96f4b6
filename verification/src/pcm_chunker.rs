//! Cutting a stream of mono samples into fixed-size chunks for the webview.
//!
//! Samples arrive from the capture callback in blocks of any length; they are
//! queued, and every time the queue holds a full chunk, the chunk is cut off
//! the front and handed out. The first chunk ever handed out is flagged so
//! that the caller can log it once.

use vstd::prelude::*;

verus! {

/// Length in samples of one PCM chunk handed to the webview.
pub const CHUNK_SAMPLES: usize = 384;

/// The chunks that one `push` cut off, oldest first.
pub struct ChunkBatch<T> {
    pub chunks: Vec<Vec<T>>,
    /// True exactly for the batch that holds the first chunk this chunker ever cut.
    pub first_emit: bool,
}

/// Queue of samples that do not yet fill a chunk.
pub struct PcmChunker<T> {
    pending: Vec<T>,
    emitted_any: bool,
}

/// The `i`-th full chunk of `all`.
pub open spec fn chunk_of<T>(all: Seq<T>, i: int) -> Seq<T> {
    all.subrange(i * CHUNK_SAMPLES as int, (i + 1) * CHUNK_SAMPLES as int)
}

/// How many full chunks fit in `len` samples.
pub open spec fn full_chunks(len: nat) -> nat {
    len / (CHUNK_SAMPLES as nat)
}

/// Concatenation of a sequence of chunks.
pub open spec fn concat_chunks<T>(chunks: Seq<Seq<T>>) -> Seq<T>
    decreases chunks.len(),
{
    if chunks.len() == 0 {
        Seq::empty()
    } else {
        concat_chunks(chunks.drop_last()) + chunks.last()
    }
}

impl<T> PcmChunker<T> {
    #[verifier::type_invariant]
    spec fn inv(self) -> bool {
        self.pending@.len() < CHUNK_SAMPLES
    }
}

impl<T: Copy> PcmChunker<T> {
    /// The queued samples, oldest first.
    pub closed spec fn queued(&self) -> Seq<T> {
        self.pending@
    }

    /// Whether a chunk has ever been cut.
    pub closed spec fn has_emitted(&self) -> bool {
        self.emitted_any
    }

    /// An empty chunker that has cut nothing yet.
    pub fn new() -> (c: Self)
        ensures
            c.queued() == Seq::<T>::empty(),
            !c.has_emitted(),
    {
        PcmChunker { pending: Vec::new(), emitted_any: false }
    }

    /// Number of samples waiting in the queue.
    pub fn queued_len(&self) -> (n: usize)
        ensures
            n == self.queued().len(),
            n < CHUNK_SAMPLES,
    {
        proof {
            use_type_invariant(self);
        }
        self.pending.len()
    }

    /// Appends `mono` to the queue and cuts off every full chunk at its front.
    pub fn push(&mut self, mono: &[T]) -> (batch: ChunkBatch<T>)
        requires
            mono@.len() <= usize::MAX - CHUNK_SAMPLES,
        ensures
            ({
                let all = old(self).queued() + mono@;
                let k = full_chunks(all.len());
                &&& batch.chunks@.len() == k
                &&& forall|i: int| 0 <= i < k ==> #[trigger] batch.chunks@[i]@ == chunk_of(all, i)
                &&& final(self).queued() == all.subrange(k * CHUNK_SAMPLES as int, all.len() as int)
                &&& concat_chunks(chunk_views(batch.chunks@)) + final(self).queued() == all
                &&& final(self).queued().len() < CHUNK_SAMPLES
                &&& forall|i: int| 0 <= i < k ==> (#[trigger] batch.chunks@[i]@).len() == CHUNK_SAMPLES
                &&& batch.first_emit == (!old(self).has_emitted() && k > 0)
                &&& final(self).has_emitted() == (old(self).has_emitted() || k > 0)
            }),
    {
        proof {
            use_type_invariant(&*self);
        }
        let ghost all = self.pending@ + mono@;
        let mut buf: Vec<T> = Vec::new();
        let mut j: usize = 0;
        while j < self.pending.len()
            invariant
                j <= self.pending@.len(),
                buf@ == self.pending@.take(j as int),
            decreases self.pending@.len() - j,
        {
            buf.push(self.pending[j]);
            assert(self.pending@.take(j + 1) =~= self.pending@.take(j as int).push(self.pending@[j as int]));
            j = j + 1;
        }
        assert(self.pending@.take(j as int) =~= self.pending@);
        let mut m: usize = 0;
        while m < mono.len()
            invariant
                m <= mono@.len(),
                mono@.len() <= usize::MAX - CHUNK_SAMPLES,
                buf@ == old(self).pending@ + mono@.take(m as int),
                old(self).pending@.len() < CHUNK_SAMPLES,
            decreases mono@.len() - m,
        {
            buf.push(mono[m]);
            assert(mono@.take(m + 1) =~= mono@.take(m as int).push(mono@[m as int]));
            m = m + 1;
        }
        assert(mono@.take(m as int) =~= mono@);
        assert(buf@ =~= all);
        let mut chunks: Vec<Vec<T>> = Vec::new();
        let mut start: usize = 0;
        while buf.len() - start >= CHUNK_SAMPLES
            invariant
                buf@ == all,
                start <= buf@.len(),
                start == chunks@.len() * CHUNK_SAMPLES,
                forall|i: int| 0 <= i < chunks@.len() ==> #[trigger] chunks@[i]@ == chunk_of(all, i),
            decreases buf@.len() - start,
        {
            let mut chunk: Vec<T> = Vec::new();
            let mut q: usize = 0;
            while q < CHUNK_SAMPLES
                invariant
                    q <= CHUNK_SAMPLES,
                    start + CHUNK_SAMPLES <= buf.len(),
                    chunk@ == buf@.subrange(start as int, start + q),
                decreases CHUNK_SAMPLES - q,
            {
                chunk.push(buf[start + q]);
                assert(buf@.subrange(start as int, start + q + 1) =~= buf@.subrange(start as int, start + q).push(buf@[start + q]));
                q = q + 1;
            }
            proof {
                let n = chunks@.len() as int;
                assert((n + 1) * CHUNK_SAMPLES == n * CHUNK_SAMPLES + CHUNK_SAMPLES);
                assert(chunk@ =~= chunk_of(all, n));
            }
            chunks.push(chunk);
            start = start + CHUNK_SAMPLES;
        }
        let mut rest: Vec<T> = Vec::new();
        let mut r: usize = start;
        while r < buf.len()
            invariant
                start <= r <= buf@.len(),
                rest@ == buf@.subrange(start as int, r as int),
            decreases buf@.len() - r,
        {
            rest.push(buf[r]);
            assert(buf@.subrange(start as int, r + 1) =~= buf@.subrange(start as int, r as int).push(buf@[r as int]));
            r = r + 1;
        }
        proof {
            let k = chunks@.len();
            assert(all.len() - start < CHUNK_SAMPLES);
            assert(k == full_chunks(all.len())) by {
                assert(all.len() == k * CHUNK_SAMPLES + (all.len() - start));
            }
        }
        proof {
            let views = chunk_views(chunks@);
            assert forall|i: int| 0 <= i < views.len() implies #[trigger] views[i] == chunk_of(all, i) by {
                assert(views[i] == chunks@[i]@);
            }
            lemma_push_conserves_samples(all, views, rest@);
        }
        let first = !self.emitted_any && chunks.len() > 0;
        let emitted = self.emitted_any || chunks.len() > 0;
        *self = PcmChunker { pending: rest, emitted_any: emitted };
        ChunkBatch { chunks, first_emit: first }
    }
}

/// The sample sequences of a list of chunks.
pub open spec fn chunk_views<T>(chunks: Seq<Vec<T>>) -> Seq<Seq<T>> {
    chunks.map_values(|c: Vec<T>| c@)
}

/// Nothing is lost or reordered: the chunks a push cuts, followed by the
/// queue it leaves, are exactly the old queue followed by the pushed samples.
proof fn lemma_push_conserves_samples<T>(all: Seq<T>, chunks: Seq<Seq<T>>, rest: Seq<T>)
    requires
        chunks.len() == full_chunks(all.len()),
        forall|i: int| 0 <= i < chunks.len() ==> #[trigger] chunks[i] == chunk_of(all, i),
        rest == all.subrange(chunks.len() * CHUNK_SAMPLES as int, all.len() as int),
    ensures
        concat_chunks(chunks) + rest == all,
        rest.len() < CHUNK_SAMPLES,
        forall|i: int| 0 <= i < chunks.len() ==> (#[trigger] chunks[i]).len() == CHUNK_SAMPLES,
{
    lemma_concat_prefix(all, chunks, chunks.len() as int);
    assert(chunks.take(chunks.len() as int) =~= chunks);
    assert(all.subrange(0, chunks.len() * CHUNK_SAMPLES as int) + rest =~= all);
}

/// The first `n` chunks concatenate to the first `n * CHUNK_SAMPLES` samples.
proof fn lemma_concat_prefix<T>(all: Seq<T>, chunks: Seq<Seq<T>>, n: int)
    requires
        0 <= n <= chunks.len(),
        chunks.len() == full_chunks(all.len()),
        forall|i: int| 0 <= i < chunks.len() ==> #[trigger] chunks[i] == chunk_of(all, i),
    ensures
        n * CHUNK_SAMPLES <= all.len(),
        concat_chunks(chunks.take(n)) == all.subrange(0, n * CHUNK_SAMPLES as int),
    decreases n,
{
    assert(chunks.len() * CHUNK_SAMPLES <= all.len());
    if n == 0 {
        assert(concat_chunks(chunks.take(0)) =~= all.subrange(0, 0));
    } else {
        lemma_concat_prefix(all, chunks, n - 1);
        assert(chunks.take(n).drop_last() =~= chunks.take(n - 1));
        assert(chunks.take(n).last() == chunk_of(all, n - 1));
        assert(all.subrange(0, (n - 1) * CHUNK_SAMPLES as int) + chunk_of(all, n - 1)
            =~= all.subrange(0, n * CHUNK_SAMPLES as int));
    }
}

/// Over any run of pushes on one chunker, nothing is lost or reordered:
/// `queues[i]` is the queue before push `i` (and `queues[n]` the queue after
/// the last), `blocks[i]` the samples it was given and `emitted[i]` its
/// chunks laid end to end, as `push` states for each call. Then everything
/// handed out, followed by the final queue, is the first queue followed by
/// every block, and what was handed out falls short of all samples by fewer
/// than a chunk.
pub proof fn lemma_pushes_conserve_samples<T>(
    queues: Seq<Seq<T>>,
    blocks: Seq<Seq<T>>,
    emitted: Seq<Seq<T>>,
)
    requires
        queues.len() == blocks.len() + 1,
        emitted.len() == blocks.len(),
        forall|i: int|
            0 <= i < blocks.len() ==> #[trigger] emitted[i] + queues[i + 1] == queues[i] + blocks[i],
        queues.last().len() < CHUNK_SAMPLES,
    ensures
        concat_chunks(emitted) + queues.last() == queues[0] + concat_chunks(blocks),
        concat_chunks(emitted) == (queues[0] + concat_chunks(blocks)).take(
            concat_chunks(emitted).len() as int,
        ),
        (queues[0] + concat_chunks(blocks)).len() - concat_chunks(emitted).len() < CHUNK_SAMPLES,
{
    lemma_pushes_concat(queues, blocks, emitted);
    let all = queues[0] + concat_chunks(blocks);
    let out = concat_chunks(emitted);
    assert(all.take(out.len() as int) =~= out);
}

proof fn lemma_pushes_concat<T>(queues: Seq<Seq<T>>, blocks: Seq<Seq<T>>, emitted: Seq<Seq<T>>)
    requires
        queues.len() == blocks.len() + 1,
        emitted.len() == blocks.len(),
        forall|i: int|
            0 <= i < blocks.len() ==> #[trigger] emitted[i] + queues[i + 1] == queues[i] + blocks[i],
    ensures
        concat_chunks(emitted) + queues.last() == queues[0] + concat_chunks(blocks),
    decreases blocks.len(),
{
    if blocks.len() == 0 {
        assert(concat_chunks(emitted) + queues.last() =~= queues[0] + concat_chunks(blocks));
    } else {
        let n = blocks.len() as int;
        let q2 = queues.drop_last();
        let b2 = blocks.drop_last();
        let e2 = emitted.drop_last();
        assert forall|i: int| 0 <= i < b2.len() implies #[trigger] e2[i] + q2[i + 1] == q2[i] + b2[i] by {
            assert(emitted[i] + queues[i + 1] == queues[i] + blocks[i]);
        }
        lemma_pushes_concat(q2, b2, e2);
        assert(emitted[n - 1] + queues[n] == queues[n - 1] + blocks[n - 1]);
        assert(concat_chunks(emitted) == concat_chunks(e2) + emitted[n - 1]);
        assert(concat_chunks(blocks) == concat_chunks(b2) + blocks[n - 1]);
        assert(q2.last() == queues[n - 1]);
        assert(queues.last() == queues[n]);
        let ce = concat_chunks(e2);
        assert((ce + emitted[n - 1]) + queues[n] =~= ce + (emitted[n - 1] + queues[n]));
        assert(ce + (queues[n - 1] + blocks[n - 1]) =~= (ce + queues[n - 1]) + blocks[n - 1]);
        assert(queues[0] + concat_chunks(blocks) =~= (q2[0] + concat_chunks(b2)) + blocks[n - 1]);
    }
}

/// Over any run of pushes on one chunker, at most one batch is flagged as
/// the first emit, and the chunker has emitted at the end exactly when it
/// had at the start or some push cut a chunk: `emitted[i]` is `has_emitted`
/// before push `i`, `cut[i]` whether that push cut a chunk and `first[i]`
/// its `first_emit`, as `push` states for each call.
pub proof fn lemma_first_emit_at_most_once(emitted: Seq<bool>, cut: Seq<bool>, first: Seq<bool>)
    requires
        emitted.len() == cut.len() + 1,
        first.len() == cut.len(),
        forall|i: int| 0 <= i < cut.len() ==> #[trigger] emitted[i + 1] == (emitted[i] || cut[i]),
        forall|i: int| 0 <= i < cut.len() ==> #[trigger] first[i] == (!emitted[i] && cut[i]),
    ensures
        forall|i: int, j: int| 0 <= i < j < first.len() && #[trigger] first[i] ==> !#[trigger] first[j],
        emitted.last() == (emitted[0] || exists|i: int| 0 <= i < cut.len() && #[trigger] cut[i]),
{
    assert forall|i: int, j: int| 0 <= i < j < first.len() && #[trigger] first[i] implies !#[trigger] first[j] by {
        lemma_emitted_monotone(emitted, cut, i + 1, j);
    }
    lemma_emitted_final(emitted, cut, cut.len() as int);
}

proof fn lemma_emitted_monotone(emitted: Seq<bool>, cut: Seq<bool>, i: int, j: int)
    requires
        emitted.len() == cut.len() + 1,
        forall|k: int| 0 <= k < cut.len() ==> #[trigger] emitted[k + 1] == (emitted[k] || cut[k]),
        0 <= i <= j < emitted.len(),
        emitted[i],
    ensures
        emitted[j],
    decreases j - i,
{
    if i < j {
        lemma_emitted_monotone(emitted, cut, i, j - 1);
        assert(emitted[(j - 1) + 1] == (emitted[j - 1] || cut[j - 1]));
    }
}

proof fn lemma_emitted_final(emitted: Seq<bool>, cut: Seq<bool>, n: int)
    requires
        emitted.len() == cut.len() + 1,
        forall|k: int| 0 <= k < cut.len() ==> #[trigger] emitted[k + 1] == (emitted[k] || cut[k]),
        0 <= n <= cut.len(),
    ensures
        emitted[n] == (emitted[0] || exists|i: int| 0 <= i < n && #[trigger] cut[i]),
    decreases n,
{
    if n > 0 {
        lemma_emitted_final(emitted, cut, n - 1);
        assert(emitted[(n - 1) + 1] == (emitted[n - 1] || cut[n - 1]));
        if cut[n - 1] {
            assert(exists|i: int| 0 <= i < n && #[trigger] cut[i]);
        }
        if exists|i: int| 0 <= i < n && #[trigger] cut[i] {
            let w = choose|i: int| 0 <= i < n && #[trigger] cut[i];
            if w < n - 1 {
                assert(exists|i: int| 0 <= i < n - 1 && #[trigger] cut[i]);
            }
        }
    }
}

} // verus!
