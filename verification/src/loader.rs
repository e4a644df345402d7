//! The transactional loader: fixed-size chunks, one transaction each,
//! strictly sequential, stopping at the first failure.
//!
//! The operation list is partitioned into contiguous chunks of at most the
//! configured size, preserving order. Each chunk is committed in its own
//! transaction; a failed chunk is rolled back and aborts the rest of the
//! run, so a failed run leaves exactly an initial prefix of the operations
//! durably applied. The store itself lives outside this crate; the loader
//! is the decision machine the outer loop drives, and it reports which
//! chunk failed and how many chunks are already durable.

use vstd::arithmetic::div_mod::lemma_div_multiples_vanish_fancy;
use vstd::prelude::*;

use crate::ops::WriteOperation;
use crate::ops::clone_op;

verus! {

/// The views of a vector of chunks.
pub open spec fn chunk_views(chunks: Seq<Vec<WriteOperation>>) -> Seq<Seq<WriteOperation>> {
    chunks.map_values(|c: Vec<WriteOperation>| c@)
}

/// `ceil(n / c)`.
pub open spec fn ceil_div(n: int, c: int) -> int {
    (n + c - 1) / c
}

/// Partition the operation list into contiguous chunks of at most
/// `chunk_size` operations: exactly `ceil(n / chunk_size)` chunks, every
/// chunk but the last full, and concatenating them in order reproduces
/// the original list exactly.
pub fn chunk_operations(ops: Vec<WriteOperation>, chunk_size: usize) -> (r: Vec<
    Vec<WriteOperation>,
>)
    requires
        chunk_size > 0,
    ensures
        r@.len() == ceil_div(ops@.len() as int, chunk_size as int),
        forall|i: int| 0 <= i < r@.len() ==> (#[trigger] r@[i])@.len() <= chunk_size,
        forall|i: int| 0 <= i < r@.len() - 1 ==> (#[trigger] r@[i])@.len() == chunk_size,
        chunk_views(r@).flatten() == ops@,
{
    let ghost full = ops@;
    let mut rem = ops;
    let mut chunks: Vec<Vec<WriteOperation>> = Vec::new();
    proof {
        assert(chunk_views(chunks@) =~= Seq::<Seq<WriteOperation>>::empty());
        assert(chunk_views(chunks@).flatten() + rem@ =~= full);
    }
    while rem.len() > chunk_size
        invariant
            chunk_size > 0,
            chunk_views(chunks@).flatten() + rem@ == full,
            forall|i: int| 0 <= i < chunks@.len() ==> (#[trigger] chunks@[i])@.len() == chunk_size,
        decreases rem@.len(),
    {
        let ghost views0 = chunk_views(chunks@);
        let ghost rem0 = rem@;
        let tail = rem.split_off(chunk_size);
        proof {
            Seq::lemma_flatten_push(views0, rem@);
            assert(chunk_views(chunks@.push(rem)) =~= views0.push(rem@));
            assert(rem@ + tail@ =~= rem0);
        }
        chunks.push(rem);
        proof {
            assert(chunk_views(chunks@).flatten() + tail@ =~= full);
        }
        rem = tail;
    }
    let last_len = rem.len();
    if last_len > 0 {
        proof {
            let ghost views = chunk_views(chunks@);
            Seq::lemma_flatten_push(views, rem@);
            assert(chunk_views(chunks@.push(rem)) =~= views.push(rem@));
        }
        chunks.push(rem);
    }
    proof {
        if last_len > 0 {
            assert(chunk_views(chunks@).flatten() =~= full);
        } else {
            assert(rem@ =~= Seq::<WriteOperation>::empty());
            assert(chunk_views(chunks@).flatten() =~= full);
        }
        let k = chunks@.len() - (if last_len > 0 { 1int } else { 0int });
        let c = chunk_size as int;
        let n = full.len() as int;
        assert(n == k * c + last_len) by {
            lemma_chunk_sizes_sum(chunk_views(chunks@), c, last_len as int);
        }
        assert(k * c == c * k) by (nonlinear_arith);
        if last_len > 0 {
            assert(c * (k + 1) == c * k + c) by (nonlinear_arith);
            assert(n + c - 1 == c * (k + 1) + (last_len - 1));
            lemma_div_multiples_vanish_fancy(k + 1, last_len as int - 1, c);
        } else {
            assert(n + c - 1 == c * k + (c - 1));
            lemma_div_multiples_vanish_fancy(k, c - 1, c);
        }
    }
    chunks
}

/// The flattened length of a chunk list whose chunks are all full except
/// possibly a final one of length `last_len`.
proof fn lemma_chunk_sizes_sum(views: Seq<Seq<WriteOperation>>, c: int, last_len: int)
    requires
        0 < c,
        0 <= last_len,
        last_len > 0 ==> views.len() >= 1 && views.last().len() == last_len,
        forall|i: int|
            0 <= i < views.len() - (if last_len > 0 { 1int } else { 0int })
                ==> (#[trigger] views[i]).len() == c,
    ensures
        views.flatten().len() == (views.len() - (if last_len > 0 { 1int } else { 0int })) * c
            + last_len,
    decreases views.len(),
{
    views.lemma_flatten_and_flatten_alt_are_equivalent();
    if views.len() == 0 {
    } else if last_len > 0 {
        let prefix = views.drop_last();
        lemma_chunk_sizes_sum(prefix, c, 0);
        prefix.lemma_flatten_and_flatten_alt_are_equivalent();
        assert(views.flatten_alt() == prefix.flatten_alt() + views.last());
    } else {
        let prefix = views.drop_last();
        lemma_chunk_sizes_sum(prefix, c, 0);
        prefix.lemma_flatten_and_flatten_alt_are_equivalent();
        assert(views.flatten_alt() == prefix.flatten_alt() + views.last());
        assert(views.len() * c == (views.len() - 1) * c + c) by (nonlinear_arith);
    }
}

/// The loader's state: one of idle (between transactions), a chunk in
/// flight, the whole run committed, or failed (terminal, no retry).
#[derive(Clone, Copy, PartialEq, Eq, Structural, Debug)]
pub enum RunStatus {
    Idle,
    ChunkInFlight,
    Committed,
    Failed,
}

/// The chunk-commit state machine. Chunks are committed strictly
/// sequentially: the next transaction opens only after the previous one
/// resolved, and a failure is terminal.
#[derive(Clone, Copy, PartialEq, Eq, Structural, Debug)]
pub struct Loader {
    pub total_chunks: usize,
    pub committed: usize,
    pub status: RunStatus,
}

impl Loader {
    /// The machine's invariant. `committed` counts the chunks durably
    /// committed; on failure it is also the index of the failing chunk.
    pub open spec fn wf(self) -> bool {
        &&& self.committed <= self.total_chunks
        &&& (self.status is Committed ==> self.committed == self.total_chunks)
        &&& (self.status is Idle ==> self.committed < self.total_chunks)
        &&& (self.status is ChunkInFlight ==> self.committed < self.total_chunks)
        &&& (self.status is Failed ==> self.committed < self.total_chunks)
    }

    /// Start a run of `total_chunks` chunks. A run with nothing to send
    /// is complete at once.
    pub fn start(total_chunks: usize) -> (r: Loader)
        ensures
            r.wf(),
            r.total_chunks == total_chunks,
            r.committed == 0,
            r.status == (if total_chunks == 0 {
                RunStatus::Committed
            } else {
                RunStatus::Idle
            }),
    {
        Loader {
            total_chunks,
            committed: 0,
            status: if total_chunks == 0 {
                RunStatus::Committed
            } else {
                RunStatus::Idle
            },
        }
    }

    /// The index of the next chunk to send, if the run goes on. Asking
    /// moves the machine to chunk-in-flight; a finished or failed run
    /// answers nothing and does not change.
    pub fn next_chunk(&mut self) -> (r: Option<usize>)
        requires
            old(self).wf(),
        ensures
            final (self).wf(),
            old(self).status is Idle ==> r == Some(old(self).committed) && *final (self)
                == (Loader { status: RunStatus::ChunkInFlight, ..*old(self) }),
            !(old(self).status is Idle) ==> r is None && *final (self) == *old(self),
    {
        match self.status {
            RunStatus::Idle => {
                self.status = RunStatus::ChunkInFlight;
                Some(self.committed)
            },
            _ => None,
        }
    }

    /// Record how the in-flight chunk's transaction resolved. On success
    /// the chunk becomes durable and the machine is ready for the next
    /// one (or the run is complete); on failure the machine is failed for
    /// good, and `committed` names the failing chunk's index.
    pub fn record_outcome(&mut self, success: bool)
        requires
            old(self).wf(),
            old(self).status is ChunkInFlight,
        ensures
            final (self).wf(),
            success ==> *final (self) == (Loader {
                committed: (old(self).committed + 1) as usize,
                status: if old(self).committed + 1 == old(self).total_chunks {
                    RunStatus::Committed
                } else {
                    RunStatus::Idle
                },
                ..*old(self)
            }),
            !success ==> *final (self) == (Loader { status: RunStatus::Failed, ..*old(self) }),
    {
        if success {
            self.committed = self.committed + 1;
            self.status = if self.committed == self.total_chunks {
                RunStatus::Committed
            } else {
                RunStatus::Idle
            };
        } else {
            self.status = RunStatus::Failed;
        }
    }
}

/// What one run reports: how many chunks are durably committed, and the
/// index of the chunk that failed, if one did.
#[derive(Clone, Copy, PartialEq, Eq, Structural, Debug)]
pub struct LoadReport {
    pub chunks_committed: usize,
    pub failed_chunk: Option<usize>,
}

/// Index of the first failed outcome, or `-1` when every chunk commits.
pub open spec fn first_false(outcomes: Seq<bool>) -> int
    decreases outcomes.len(),
{
    if outcomes.len() == 0 {
        -1
    } else if !outcomes[0] {
        0
    } else {
        let rest = first_false(outcomes.drop_first());
        if rest == -1 {
            -1
        } else {
            rest + 1
        }
    }
}

/// What `first_false` returns: the first failure, or proof of none.
pub proof fn lemma_first_false(outcomes: Seq<bool>)
    ensures
        -1 <= first_false(outcomes) < outcomes.len(),
        first_false(outcomes) == -1 ==> forall|i: int|
            0 <= i < outcomes.len() ==> #[trigger] outcomes[i],
        first_false(outcomes) >= 0 ==> {
            &&& !outcomes[first_false(outcomes)]
            &&& forall|i: int| 0 <= i < first_false(outcomes) ==> #[trigger] outcomes[i]
        },
    decreases outcomes.len(),
{
    if outcomes.len() > 0 && outcomes[0] {
        lemma_first_false(outcomes.drop_first());
        let rest = first_false(outcomes.drop_first());
        if rest == -1 {
            assert forall|i: int| 0 <= i < outcomes.len() implies #[trigger] outcomes[i] by {
                if i > 0 {
                    assert(outcomes.drop_first()[i - 1] == outcomes[i]);
                }
            }
        } else {
            assert(outcomes.drop_first()[rest] == outcomes[rest + 1]);
            assert forall|i: int| 0 <= i < rest + 1 implies #[trigger] outcomes[i] by {
                if i > 0 {
                    assert(outcomes.drop_first()[i - 1] == outcomes[i]);
                }
            }
        }
    }
}

/// If outcome `i` failed and every earlier outcome succeeded, then `i` is
/// what `first_false` returns.
pub proof fn lemma_first_false_hit(outcomes: Seq<bool>, i: int)
    requires
        0 <= i < outcomes.len(),
        !outcomes[i],
        forall|j: int| 0 <= j < i ==> #[trigger] outcomes[j],
    ensures
        first_false(outcomes) == i,
    decreases outcomes.len(),
{
    if i > 0 {
        lemma_first_false_hit(outcomes.drop_first(), i - 1);
    }
}

/// Drive one whole run of the chunk state machine against a given vector
/// of per-chunk outcomes, and return what the store durably holds
/// afterwards: the operations of the chunks before the first failure —
/// the full list when nothing fails — and the report. A failed run leaves
/// an initial prefix of chunks durable and nothing of the failing chunk
/// or of any later one.
pub fn apply_outcomes(chunks: &Vec<Vec<WriteOperation>>, outcomes: &Vec<bool>) -> (r: (
    LoadReport,
    Vec<WriteOperation>,
))
    requires
        outcomes@.len() == chunks@.len(),
    ensures
        ({
            let f = first_false(outcomes@);
            &&& (f == -1 ==> {
                &&& r.0.chunks_committed == chunks@.len()
                &&& r.0.failed_chunk is None
                &&& r.1@ == chunk_views(chunks@).flatten()
            })
            &&& (f >= 0 ==> {
                &&& r.0.chunks_committed == f
                &&& r.0.failed_chunk == Some(f as usize)
                &&& r.1@ == chunk_views(chunks@).take(f).flatten()
            })
        }),
{
    let n = chunks.len();
    let mut machine = Loader::start(n);
    let mut committed_ops: Vec<WriteOperation> = Vec::new();
    proof {
        assert(chunk_views(chunks@).take(0) =~= Seq::<Seq<WriteOperation>>::empty());
        assert(committed_ops@ =~= chunk_views(chunks@).take(0).flatten());
    }
    loop
        invariant
            n == chunks@.len(),
            outcomes@.len() == n,
            machine.wf(),
            machine.total_chunks == n,
            !(machine.status is ChunkInFlight),
            committed_ops@ == chunk_views(chunks@).take(machine.committed as int).flatten(),
            forall|j: int| 0 <= j < machine.committed ==> #[trigger] outcomes@[j],
            machine.status is Failed ==> !outcomes@[machine.committed as int],
        ensures
            n == chunks@.len(),
            machine.wf(),
            machine.total_chunks == n,
            machine.status is Committed || machine.status is Failed,
            committed_ops@ == chunk_views(chunks@).take(machine.committed as int).flatten(),
            forall|j: int| 0 <= j < machine.committed ==> #[trigger] outcomes@[j],
            machine.status is Failed ==> !outcomes@[machine.committed as int],
        decreases (n - machine.committed) + (if machine.status is Idle {
            1int
        } else {
            0int
        }),
    {
        let next = machine.next_chunk();
        match next {
            None => {
                break ;
            },
            Some(i) => {
                let ok = outcomes[i];
                if ok {
                    let chunk = &chunks[i];
                    let clen = chunk.len();
                    let mut k: usize = 0;
                    let ghost before = committed_ops@;
                    while k < clen
                        invariant
                            clen == chunk@.len(),
                            k <= clen,
                            committed_ops@ == before + chunk@.take(k as int),
                        decreases clen - k,
                    {
                        proof {
                            chunk@.lemma_take_succ_push(k as int);
                        }
                        committed_ops.push(clone_op(&chunk[k]));
                        k += 1;
                    }
                    proof {
                        let views = chunk_views(chunks@);
                        views.take(i as int).lemma_flatten_push(views[i as int]);
                        assert(views.take(i as int).push(views[i as int]) =~= views.take(
                            i as int + 1,
                        ));
                        assert(chunk@.take(clen as int) =~= chunk@);
                        assert(committed_ops@ =~= views.take(i as int + 1).flatten());
                    }
                }
                machine.record_outcome(ok);
            },
        }
    }
    if machine.status == RunStatus::Failed {
        proof {
            lemma_first_false_hit(outcomes@, machine.committed as int);
        }
        (
            LoadReport {
                chunks_committed: machine.committed,
                failed_chunk: Some(machine.committed),
            },
            committed_ops,
        )
    } else {
        proof {
            lemma_first_false(outcomes@);
            if first_false(outcomes@) >= 0 {
                assert(outcomes@[first_false(outcomes@)]);
            }
            assert(chunk_views(chunks@).take(n as int) =~= chunk_views(chunks@));
        }
        (LoadReport { chunks_committed: machine.committed, failed_chunk: None }, committed_ops)
    }
}

} // verus!
