//! The shared mutable core of the scheduler: the dispatch queue of
//! positions, the table of batches awaiting results, and the throughput
//! statistics.
//!
//! Every operation returns the server calls it asks for as [`Effect`]
//! values instead of performing them; the surrounding program carries
//! them out. That keeps the whole state machine verifiable.

use vstd::prelude::*;
use crate::batch::AnalysisPart;
use crate::batch::BatchId;
use crate::batch::IncomingBatch;
use crate::batch::PendingBatch;
use crate::batch::Position;
use crate::batch::PositionResponse;
use crate::batch::Skip;
use crate::batch::spec_all_filled;
use crate::batch::spec_filled_count;
use crate::batch::spec_final_parts_ok;
use crate::batch::spec_progress_parts_ok;
use crate::batch::spec_slots_nps;
use crate::batch::spec_slots_present_count;
use crate::batch::spec_slots_total_nodes;
use crate::batch::spec_initial_slots;
use crate::batch::spec_present_positions;
use vstd::pervasive::VecAdditionalExecFns;
use crate::stats::StatsRecorder;
use crate::stats::spec_recorded;

verus! {

/// A server call that an operation asks the surrounding program to make.
#[derive(Debug)]
pub enum Effect {
    SubmitAnalysis { batch: BatchId, parts: Vec<Option<AnalysisPart>> },
    Abort { batch: BatchId },
}

/// One row of the pending table.
#[derive(Debug)]
pub struct PendingEntry {
    pub id: BatchId,
    pub batch: PendingBatch,
}

/// Lifetime counters over the whole run: how many distinct batches were
/// ever accepted, completed, and aborted.
pub ghost struct History {
    pub added: int,
    pub completed: int,
    pub aborted: int,
}

/// No two rows of the pending table share a batch id.
pub open spec fn spec_distinct_ids(p: Seq<PendingEntry>) -> bool {
    forall|i: int, j: int| 0 <= i < j < p.len() ==> p[i].id != p[j].id
}

/// Whether some row of the pending table has this id.
pub open spec fn spec_has_pending(p: Seq<PendingEntry>, id: BatchId) -> bool {
    exists|i: int| 0 <= i < p.len() && p[i].id == id
}

/// The row index of this id (meaningful under `spec_has_pending` and
/// distinct ids).
pub open spec fn spec_find(p: Seq<PendingEntry>, id: BatchId) -> int {
    choose|i: int| 0 <= i < p.len() && p[i].id == id
}

/// The dispatch queue with every position of the given batch removed.
pub open spec fn spec_purge(s: Seq<Position>, id: BatchId) -> Seq<Position>
    decreases s.len(),
{
    if s.len() == 0 {
        Seq::empty()
    } else {
        let rest = spec_purge(s.drop_last(), id);
        if s.last().work.spec_id() == id {
            rest
        } else {
            rest.push(s.last())
        }
    }
}

/// What serving a pull from queue `mid` leaves behind: the head is
/// handed out when there is one.
pub open spec fn spec_pull_post(
    mid: Seq<Position>,
    fin: Seq<Position>,
    popped: Option<Position>,
) -> bool {
    if mid.len() > 0 {
        popped == Some(mid[0]) && fin == mid.subrange(1, mid.len() as int)
    } else {
        popped is None && fin == mid
    }
}

/// A progress report is due when the filled-slot count is a nonzero
/// multiple of twice the core count.
pub open spec fn spec_progress_due(
    slots: Seq<Option<Skip<PositionResponse>>>,
    cores: usize,
) -> bool {
    let f = spec_filled_count(slots);
    f > 0 && f % (2 * cores as int) == 0
}


/// The slot vector of a pending batch after one successful response:
/// the matching slot fills if it exists and was empty, otherwise the
/// late or stray response leaves the batch as it was.
pub open spec fn spec_slots_after(b: PendingBatch, res: PositionResponse) -> Seq<
    Option<Skip<PositionResponse>>,
> {
    if res.position_id.0 < b.positions@.len() && b.positions@[res.position_id.0 as int] is None {
        b.positions@.update(res.position_id.0 as int, Some(Skip::Present(res)))
    } else {
        b.positions@
    }
}

/// Every filled slot of a pending batch holds either its skip marker or
/// the response addressed to exactly that slot.
pub open spec fn spec_slots_addressed(slots: Seq<Option<Skip<PositionResponse>>>) -> bool {
    forall|j: int|
        0 <= j < slots.len() ==> match #[trigger] slots[j] {
            Some(Skip::Present(p)) => p.position_id == crate::batch::PositionId(j as usize),
            _ => true,
        }
}

/// The shared queue core.
pub struct QueueState {
    pub shutdown_soon: bool,
    pub cores: usize,
    pub incoming: Vec<Position>,
    pub pending: Vec<PendingEntry>,
    pub stats: StatsRecorder,
    pub history: Ghost<History>,
}

impl QueueState {
    /// The state's invariant:
    /// - there is at least one worker core, and not so many that the
    ///   report cadence overflows;
    /// - the statistics are sound;
    /// - each batch id owns at most one pending row;
    /// - a position waits in the dispatch queue only while its batch is
    ///   pending;
    /// - no pending batch has every slot filled (such a batch is
    ///   completed, and leaves the table, at the moment its last slot
    ///   fills);
    /// - the pending table is exactly as large as the number of batches
    ///   ever accepted minus those completed or aborted.
    pub open spec fn wf_basic(&self) -> bool {
        &&& 1 <= self.cores
        &&& self.cores <= 0x7fff_ffff_ffff_ffff
        &&& self.stats.wf()
        &&& spec_distinct_ids(self.pending@)
        &&& forall|i: int|
            0 <= i < self.incoming@.len() ==> spec_has_pending(
                self.pending@,
                (#[trigger] self.incoming@[i]).work.spec_id(),
            )
        &&& forall|i: int|
            0 <= i < self.pending@.len() ==> spec_slots_addressed(
                (#[trigger] self.pending@[i]).batch.positions@,
            )
        &&& self.history@.added >= 0
        &&& self.history@.completed >= 0
        &&& self.history@.aborted >= 0
        &&& self.history@.added - self.history@.completed - self.history@.aborted
            == self.pending@.len()
    }

    /// Every pending row but (possibly) the one named still awaits some
    /// slot. The exception is for the row whose slot was just filled and
    /// whose fate `maybe_finished` is about to decide.
    pub open spec fn spec_no_filled_but(&self, id: BatchId) -> bool {
        forall|i: int|
            0 <= i < self.pending@.len() && (#[trigger] self.pending@[i]).id != id
                ==> !spec_all_filled(self.pending@[i].batch.positions@)
    }

    pub open spec fn wf(&self) -> bool {
        &&& self.wf_basic()
        &&& forall|i: int|
            0 <= i < self.pending@.len() ==> !spec_all_filled(
                (#[trigger] self.pending@[i]).batch.positions@,
            )
    }

    pub fn new(cores: usize) -> (r: QueueState)
        requires
            1 <= cores <= 0x7fff_ffff_ffff_ffff,
        ensures
            r.wf(),
            !r.shutdown_soon,
            r.cores == cores,
            r.incoming@.len() == 0,
            r.pending@.len() == 0,
            r.stats.total_batches == 0,
            r.stats.total_positions == 0,
            r.stats.total_nodes == 0,
            r.stats.nps == crate::stats::INITIAL_NPS,
            r.history@.added == 0,
            r.history@.completed == 0,
            r.history@.aborted == 0,
    {
        QueueState {
            shutdown_soon: false,
            cores,
            incoming: Vec::new(),
            pending: Vec::new(),
            stats: StatsRecorder::new(),
            history: Ghost(History { added: 0, completed: 0, aborted: 0 }),
        }
    }

    /// Ask the queue to wind down: no further batches will be acquired.
    pub fn set_shutdown_soon(&mut self)
        ensures
            final(self).shutdown_soon,
            final(self).cores == old(self).cores,
            final(self).incoming == old(self).incoming,
            final(self).pending == old(self).pending,
            final(self).stats == old(self).stats,
            final(self).history == old(self).history,
    {
        self.shutdown_soon = true;
    }

    /// A snapshot of the statistics.
    pub fn stats(&self) -> (r: StatsRecorder)
        ensures
            r == self.stats,
    {
        self.stats
    }

    /// The row index of a pending batch id, if any.
    fn find_pending(&self, id: BatchId) -> (r: Option<usize>)
        ensures
            match r {
                Some(i) => i < self.pending@.len() && self.pending@[i as int].id == id,
                None => !spec_has_pending(self.pending@, id),
            },
    {
        let mut k: usize = 0;
        while k < self.pending.len()
            invariant
                k <= self.pending@.len(),
                forall|j: int| 0 <= j < k ==> (#[trigger] self.pending@[j]).id != id,
            decreases self.pending@.len() - k,
        {
            if self.pending[k].id == id {
                return Some(k);
            }
            k += 1;
        }
        None
    }

    /// Whether this batch id currently has a pending row.
    pub fn has_pending(&self, id: BatchId) -> (r: bool)
        ensures
            r == spec_has_pending(self.pending@, id),
    {
        match self.find_pending(id) {
            Some(i) => {
                proof {
                    assert(spec_has_pending(self.pending@, id)) by {
                        assert(self.pending@[i as int].id == id);
                    };
                }
                true
            }
            None => false,
        }
    }

    /// Put a popped position back at the head of the dispatch queue --
    /// the worker that asked for it lost interest before it was handed
    /// over. A position whose batch is gone is dropped instead.
    pub fn requeue_front(&mut self, pos: Position) -> (r: bool)
        requires
            old(self).wf(),
        ensures
            final(self).wf(),
            r == spec_has_pending(old(self).pending@, pos.work.spec_id()),
            final(self).shutdown_soon == old(self).shutdown_soon,
            final(self).cores == old(self).cores,
            final(self).pending == old(self).pending,
            final(self).stats == old(self).stats,
            final(self).history == old(self).history,
            r ==> final(self).incoming@ == old(self).incoming@.insert(0, pos),
            !r ==> final(self).incoming == old(self).incoming,
    {
        if self.has_pending(pos.work.id()) {
            self.incoming.insert(0, pos);
            assert(self.incoming@ == old(self).incoming@.insert(0, pos));
            true
        } else {
            false
        }
    }

    /// Take a freshly acquired batch in: its positions to analyse join
    /// the tail of the dispatch queue in original order, a pending row
    /// opens with one slot per original position (skips pre-filled), and
    /// the row is settled at once -- a batch of only skips completes
    /// immediately. A batch whose id is already pending is dropped.
    pub fn add_incoming_batch(&mut self, batch: IncomingBatch, now_ms: u64) -> (r: Option<
        Effect,
    >)
        requires
            old(self).wf(),
            batch.wf(),
        ensures
            final(self).wf(),
            final(self).shutdown_soon == old(self).shutdown_soon,
            final(self).cores == old(self).cores,
            final(self).history@.aborted == old(self).history@.aborted,
            spec_has_pending(old(self).pending@, batch.work.spec_id()) ==> *final(self) == *old(self) && r is None,
            !spec_has_pending(old(self).pending@, batch.work.spec_id()) ==> ({
                let slots0 = spec_initial_slots(batch.positions@);
                &&& final(self).history@.added == old(self).history@.added + 1
                &&& if spec_all_filled(slots0) {
                    &&& final(self).pending@ == old(self).pending@
                    &&& final(self).incoming@ == old(self).incoming@
                    &&& final(self).stats == old(self).stats
                    &&& final(self).history@.completed == old(self).history@.completed + 1
                    &&& (r matches Some(e) && e matches Effect::SubmitAnalysis { batch: b, parts }
                        && b == batch.work.spec_id() && spec_final_parts_ok(parts@, slots0))
                } else {
                    &&& final(self).pending@.len() == old(self).pending@.len() + 1
                    &&& (forall|k: int|
                        0 <= k < old(self).pending@.len() ==> final(self).pending@[k] == old(self).pending@[k])
                    &&& final(self).pending@.last().id == batch.work.spec_id()
                    &&& final(self).pending@.last().batch.work == batch.work
                    &&& final(self).pending@.last().batch.url == batch.url
                    &&& final(self).pending@.last().batch.started_at_ms == now_ms
                    &&& final(self).pending@.last().batch.positions@ == slots0
                    &&& final(self).incoming@ == old(self).incoming@ + spec_present_positions(
                        batch.positions@,
                    )
                    &&& final(self).stats == old(self).stats
                    &&& final(self).history@.completed == old(self).history@.completed
                    &&& (if spec_progress_due(slots0, old(self).cores) {
                        r matches Some(e) && e matches Effect::SubmitAnalysis { batch: b, parts }
                            && b == batch.work.spec_id() && spec_progress_parts_ok(parts@, slots0)
                    } else {
                        r is None
                    })
                }
            }),
    {
        let id = batch.work.id();
        if self.has_pending(id) {
            return None;
        }
        let IncomingBatch { work, mut positions, url } = batch;
        let ghost orig = positions@;
        let ghost p0 = self.pending@;
        let ghost inc0 = self.incoming@;
        let n = positions.len();
        let mut slots: Vec<Option<Skip<PositionResponse>>> = Vec::new();
        let mut j: usize = 0;
        while positions.len() > 0
            invariant
                orig.len() == n,
                j + positions@.len() == orig.len(),
                slots@.len() == j,
                slots@ == spec_initial_slots(orig).subrange(0, j as int),
                forall|t: int|
                    0 <= t < positions@.len() ==> #[trigger] positions@[t] == orig[j + t],
                self.incoming@ == inc0 + spec_present_positions(orig.subrange(0, j as int)),
                self.shutdown_soon == old(self).shutdown_soon,
                self.cores == old(self).cores,
                self.pending == old(self).pending,
                self.stats == old(self).stats,
                self.history == old(self).history,
            decreases positions@.len(),
        {
            let slot = positions.remove(0);
            proof {
                assert(slot == orig[j as int]);
                assert(orig.subrange(0, j + 1 as int).drop_last() =~= orig.subrange(0, j as int));
                assert(orig.subrange(0, j + 1 as int).last() == orig[j as int]);
            }
            match slot {
                Skip::Present(p) => {
                    self.incoming.push(p);
                    slots.push(None);
                },
                Skip::Skip => {
                    slots.push(Some(Skip::Skip));
                },
            }
            proof {
                assert(self.incoming@ =~= inc0 + spec_present_positions(
                    orig.subrange(0, j + 1 as int),
                ));
                assert(slots@ =~= spec_initial_slots(orig).subrange(0, j + 1 as int));
            }
            j += 1;
        }
        proof {
            assert(orig.subrange(0, j as int) =~= orig);
            assert(spec_initial_slots(orig).subrange(0, j as int) =~= spec_initial_slots(orig));
            assert(self.incoming@ =~= inc0 + spec_present_positions(orig));
        }
        self.pending.push(
            PendingEntry {
                id,
                batch: PendingBatch { work, positions: slots, url, started_at_ms: now_ms },
            },
        );
        self.history = Ghost(
            History {
                added: self.history@.added + 1,
                completed: self.history@.completed,
                aborted: self.history@.aborted,
            },
        );
        let ghost p1 = self.pending@;
        let ghost inc1 = self.incoming@;
        proof {
            assert(p1.len() == p0.len() + 1);
            assert forall|a: int, b: int| 0 <= a < b < p1.len() implies p1[a].id != p1[b].id by {
                if b == p1.len() - 1 {
                    assert(p1[a] == p0[a]);
                    assert(p0[a].id != id) by {
                        if p0[a].id == id {
                            assert(spec_has_pending(p0, id));
                        }
                    };
                } else {
                    assert(p1[a] == p0[a]);
                    assert(p1[b] == p0[b]);
                }
            };
            crate::batch::lemma_present_positions_membership(orig);
            assert forall|k: int| 0 <= k < inc1.len() implies spec_has_pending(
                p1,
                (#[trigger] inc1[k]).work.spec_id(),
            ) by {
                if k < inc0.len() {
                    assert(inc1[k] == inc0[k]);
                    assert(spec_has_pending(p0, inc0[k].work.spec_id()));
                    let w = choose|w: int| 0 <= w < p0.len() && p0[w].id == inc0[k].work.spec_id();
                    assert(p1[w].id == inc1[k].work.spec_id());
                } else {
                    let pp = spec_present_positions(orig);
                    assert(inc1[k] == pp[k - inc0.len()]);
                    let jj = choose|jj: int|
                        0 <= jj < orig.len() && orig[jj] == Skip::Present(pp[k - inc0.len()]);
                    assert(pp[k - inc0.len()].work == work);
                    assert(p1[p1.len() - 1].id == id);
                }
            };
            assert(self.spec_no_filled_but(id)) by {
                assert forall|k: int|
                    0 <= k < p1.len() && (#[trigger] p1[k]).id != id implies !spec_all_filled(
                    p1[k].batch.positions@,
                ) by {
                    assert(k < p0.len());
                    assert(p1[k] == p0[k]);
                };
            };
        }
        let eff = self.maybe_finished(id, now_ms);
        proof {
            lemma_find_unique(p1, id, p0.len() as int);
            let ghost slots0 = spec_initial_slots(orig);
            if spec_all_filled(slots0) {
                assert(p1.remove(p0.len() as int) =~= p0);
                crate::batch::lemma_no_present_when_all_skip(orig);
                assert(inc1 =~= inc0);
                assert forall|k: int| 0 <= k < inc0.len() implies (#[trigger] inc0[k]).work.spec_id()
                    != id by {
                    if inc0[k].work.spec_id() == id {
                        assert(spec_has_pending(p0, id));
                    }
                };
                lemma_purge_identity(inc0, id);
                assert(spec_slots_nps(slots0, now_ms, now_ms) is None);
            } else {
                assert(self.pending@ == p1);
            }
        }
        eff
    }

    /// Ingest a worker's message, then try to serve its pull.
    ///
    /// A successful response fills its batch's slot (a late duplicate,
    /// or one aimed at a missing batch or slot, is ignored) and the
    /// batch is settled as in `maybe_finished`. A failure report drops
    /// the batch: its row leaves the table, its undispatched positions
    /// leave the queue, and an abort is asked of the server either way.
    ///
    /// The pull is served from the head of what the queue then holds;
    /// a second result of `None` means the queue is empty and the
    /// caller must acquire more work.
    pub fn respond(
        &mut self,
        response: Option<Result<PositionResponse, BatchId>>,
        now_ms: u64,
    ) -> (r: (Option<Effect>, Option<Position>))
        requires
            old(self).wf(),
        ensures
            final(self).wf(),
            final(self).shutdown_soon == old(self).shutdown_soon,
            final(self).cores == old(self).cores,
            response is None ==> r.0 is None && final(self).pending == old(self).pending && final(self).stats == old(self).stats && final(self).history == old(self).history
                && spec_pull_post(old(self).incoming@, final(self).incoming@, r.1),
            response matches Some(Err(fid)) ==> ({
                &&& (r.0 matches Some(e) && e matches Effect::Abort { batch } && batch == fid)
                &&& final(self).stats == old(self).stats
                &&& final(self).history@.added == old(self).history@.added
                &&& final(self).history@.completed == old(self).history@.completed
                &&& spec_pull_post(spec_purge(old(self).incoming@, fid), final(self).incoming@, r.1)
                &&& (spec_has_pending(old(self).pending@, fid) ==> final(self).pending@ == old(self).pending@.remove(spec_find(old(self).pending@, fid)) && final(self).history@.aborted == old(self).history@.aborted + 1)
                &&& (!spec_has_pending(old(self).pending@, fid) ==> final(self).pending == old(self).pending && final(self).history == old(self).history)
            }),
            response matches Some(Ok(res)) ==> ({
                let id = res.work.spec_id();
                if !spec_has_pending(old(self).pending@, id) {
                    &&& r.0 is None
                    &&& final(self).pending == old(self).pending
                    &&& final(self).stats == old(self).stats
                    &&& final(self).history == old(self).history
                    &&& spec_pull_post(old(self).incoming@, final(self).incoming@, r.1)
                } else {
                    let i = spec_find(old(self).pending@, id);
                    let b = old(self).pending@[i].batch;
                    let slots1 = spec_slots_after(b, res);
                    &&& final(self).history@.added == old(self).history@.added
                    &&& final(self).history@.aborted == old(self).history@.aborted
                    &&& if spec_all_filled(slots1) {
                        &&& final(self).pending@ == old(self).pending@.remove(i)
                        &&& final(self).history@.completed == old(self).history@.completed + 1
                        &&& (r.0 matches Some(e) && e matches Effect::SubmitAnalysis {
                            batch,
                            parts,
                        } && batch == id && spec_final_parts_ok(parts@, slots1))
                        &&& spec_pull_post(
                            spec_purge(old(self).incoming@, id),
                            final(self).incoming@,
                            r.1,
                        )
                        &&& match spec_slots_nps(slots1, b.started_at_ms, now_ms) {
                            Some(v) => spec_recorded(
                                old(self).stats,
                                final(self).stats,
                                spec_slots_present_count(slots1) as u64,
                                spec_slots_total_nodes(slots1),
                                v,
                            ),
                            None => final(self).stats == old(self).stats,
                        }
                    } else {
                        &&& final(self).pending@.len() == old(self).pending@.len()
                        &&& (forall|k: int|
                            0 <= k < old(self).pending@.len() && k != i ==> final(self).pending@[k] == old(self).pending@[k])
                        &&& final(self).pending@[i].id == id
                        &&& final(self).pending@[i].batch.work == b.work
                        &&& final(self).pending@[i].batch.url == b.url
                        &&& final(self).pending@[i].batch.started_at_ms == b.started_at_ms
                        &&& final(self).pending@[i].batch.positions@ == slots1
                        &&& final(self).stats == old(self).stats
                        &&& final(self).history@.completed == old(self).history@.completed
                        &&& (if spec_progress_due(slots1, old(self).cores) {
                            r.0 matches Some(e) && e matches Effect::SubmitAnalysis {
                                batch,
                                parts,
                            } && batch == id && spec_progress_parts_ok(parts@, slots1)
                        } else {
                            r.0 is None
                        })
                        &&& spec_pull_post(old(self).incoming@, final(self).incoming@, r.1)
                    }
                }
            }),
    {
        let ghost p0 = self.pending@;
        let ghost inc0 = self.incoming@;
        let eff: Option<Effect> = match response {
            None => None,
            Some(Ok(res)) => {
                let id = res.work.id();
                match self.find_pending(id) {
                    None => None,
                    Some(i) => {
                        proof {
                            lemma_find_unique(p0, id, i as int);
                        }
                        let mut entry = self.pending.remove(i);
                        let ghost b = entry.batch;
                        let jj = res.position_id.0;
                        let fits = jj < entry.batch.positions.len();
                        let fill = fits && entry.batch.positions[jj].is_none();
                        if fill {
                            entry.batch.positions.set(jj, Some(Skip::Present(res)));
                        }
                        self.pending.insert(i, entry);
                        let ghost p1 = self.pending@;
                        proof {
                            assert(forall|k: int|
                                0 <= k < p1.len() && k != i ==> p1[k] == p0[k]);
                            assert(p1[i as int].id == id);
                            assert(p1[i as int].batch.positions@ == spec_slots_after(b, res));
                            assert forall|a: int, c: int|
                                0 <= a < c < p1.len() implies p1[a].id != p1[c].id by {
                                assert(p1[a].id == p0[a].id);
                                assert(p1[c].id == p0[c].id);
                            };
                            assert forall|k: int| 0 <= k < self.incoming@.len() implies
                                spec_has_pending(
                                p1,
                                (#[trigger] self.incoming@[k]).work.spec_id(),
                            ) by {
                                assert(spec_has_pending(p0, self.incoming@[k].work.spec_id()));
                                let w = choose|w: int|
                                    0 <= w < p0.len() && p0[w].id == self.incoming@[
                                        k].work.spec_id();
                                assert(p1[w].id == p0[w].id);
                            };
                            assert(self.spec_no_filled_but(id)) by {
                                assert forall|k: int|
                                    0 <= k < p1.len() && (#[trigger] p1[k]).id != id implies
                                    !spec_all_filled(p1[k].batch.positions@) by {
                                    assert(k != i);
                                    assert(p1[k] == p0[k]);
                                };
                            };
                        }
                        let e = self.maybe_finished(id, now_ms);
                        proof {
                            lemma_find_unique(p1, id, i as int);
                            let ghost slots1 = spec_slots_after(b, res);
                            if spec_all_filled(slots1) {
                                assert(p1.remove(i as int) =~= p0.remove(i as int));
                            } else {
                                if !fill {
                                    assert(p1 =~= p0);
                                    assert(self.pending@ == p1);
                                }
                            }
                        }
                        e
                    },
                }
            },
            Some(Err(fid)) => {
                match self.find_pending(fid) {
                    Some(i) => {
                        proof {
                            lemma_find_unique(p0, fid, i as int);
                        }
                        let _ = self.pending.remove(i);
                        self.history = Ghost(
                            History {
                                added: self.history@.added,
                                completed: self.history@.completed,
                                aborted: self.history@.aborted + 1,
                            },
                        );
                        proof {
                            lemma_remove_keeps_distinct(p0, i as int);
                        }
                    },
                    None => {},
                }
                let ghost p1 = self.pending@;
                self.purge_incoming(fid);
                proof {
                    lemma_purge_elements(inc0, fid);
                    assert forall|k: int| 0 <= k < self.incoming@.len() implies spec_has_pending(
                        p1,
                        (#[trigger] self.incoming@[k]).work.spec_id(),
                    ) by {
                        let pos = self.incoming@[k];
                        assert(inc0.contains(pos));
                        let w = choose|w: int| 0 <= w < inc0.len() && inc0[w] == pos;
                        assert(spec_has_pending(p0, pos.work.spec_id()));
                        if spec_has_pending(p0, fid) {
                            let fi = spec_find(p0, fid);
                            lemma_find_unique(p0, fid, fi);
                            lemma_remove_keeps_others(p0, fi, pos.work.spec_id());
                        }
                    };
                    assert forall|k: int| 0 <= k < self.pending@.len() implies !spec_all_filled(
                        (#[trigger] self.pending@[k]).batch.positions@,
                    ) by {
                        if spec_has_pending(p0, fid) {
                            let fi = spec_find(p0, fid);
                            assert(self.pending@[k] == if k < fi {
                                p0[k]
                            } else {
                                p0[k + 1]
                            });
                        } else {
                            assert(self.pending@[k] == p0[k]);
                        }
                    };
                }
                Some(Effect::Abort { batch: fid })
            },
        };
        let ghost mid = self.incoming@;
        let popped: Option<Position> = if self.incoming.len() > 0 {
            let head = self.incoming.remove(0);
            proof {
                assert(self.incoming@ =~= mid.subrange(1, mid.len() as int));
            }
            Some(head)
        } else {
            None
        };
        proof {
            assert forall|k: int| 0 <= k < self.incoming@.len() implies spec_has_pending(
                self.pending@,
                (#[trigger] self.incoming@[k]).work.spec_id(),
            ) by {
                if mid.len() > 0 {
                    assert(self.incoming@[k] == mid[k + 1]);
                }
            };
        }
        (eff, popped)
    }

    /// Wind the queue down: every pending batch is dropped, one abort
    /// per batch (in table order) is handed back for the server, and
    /// the dispatch queue empties with the table.
    pub fn drain_pending(&mut self) -> (r: Vec<Effect>)
        requires
            old(self).wf(),
        ensures
            final(self).wf(),
            final(self).shutdown_soon == old(self).shutdown_soon,
            final(self).cores == old(self).cores,
            final(self).stats == old(self).stats,
            final(self).pending@.len() == 0,
            final(self).incoming@.len() == 0,
            final(self).history@.added == old(self).history@.added,
            final(self).history@.completed == old(self).history@.completed,
            final(self).history@.aborted == old(self).history@.aborted + old(self).pending@.len(),
            r@.len() == old(self).pending@.len(),
            forall|k: int|
                0 <= k < r@.len() ==> ((#[trigger] r@[k]) matches Effect::Abort { batch } && batch
                    == old(self).pending@[k].id),
    {
        let ghost porig = self.pending@;
        let mut effects: Vec<Effect> = Vec::new();
        let n = self.pending.len();
        let mut j: usize = 0;
        while self.pending.len() > 0
            invariant
                porig.len() == n,
                j + self.pending@.len() == porig.len(),
                effects@.len() == j,
                forall|k: int|
                    0 <= k < j ==> ((#[trigger] effects@[k]) matches Effect::Abort { batch }
                        && batch == porig[k].id),
                forall|t: int|
                    0 <= t < self.pending@.len() ==> #[trigger] self.pending@[t] == porig[j + t],
                self.shutdown_soon == old(self).shutdown_soon,
                self.cores == old(self).cores,
                self.incoming == old(self).incoming,
                self.stats == old(self).stats,
                self.history@.added == old(self).history@.added,
                self.history@.completed == old(self).history@.completed,
                self.history@.aborted == old(self).history@.aborted + j,
            decreases self.pending@.len(),
        {
            let entry = self.pending.remove(0);
            effects.push(Effect::Abort { batch: entry.id });
            self.history = Ghost(
                History {
                    added: self.history@.added,
                    completed: self.history@.completed,
                    aborted: self.history@.aborted + 1,
                },
            );
            j += 1;
        }
        self.incoming.clear();
        effects
    }

    /// Remove every position of the given batch from the dispatch queue.
    fn purge_incoming(&mut self, id: BatchId)
        ensures
            final(self).incoming@ == spec_purge(old(self).incoming@, id),
            final(self).shutdown_soon == old(self).shutdown_soon,
            final(self).cores == old(self).cores,
            final(self).pending == old(self).pending,
            final(self).stats == old(self).stats,
            final(self).history == old(self).history,
    {
        let ghost orig = self.incoming@;
        let n = self.incoming.len();
        proof {
            assert(orig.len() == n);
        }
        let mut kept: Vec<Position> = Vec::new();
        let mut j: usize = 0;
        while self.incoming.len() > 0
            invariant
                orig.len() <= usize::MAX,
                j + self.incoming@.len() == orig.len(),
                kept@ == spec_purge(orig.subrange(0, j as int), id),
                forall|t: int|
                    0 <= t < self.incoming@.len() ==> #[trigger] self.incoming@[t] == orig[j + t],
                self.shutdown_soon == old(self).shutdown_soon,
                self.cores == old(self).cores,
                self.pending == old(self).pending,
                self.stats == old(self).stats,
                self.history == old(self).history,
            decreases self.incoming@.len(),
        {
            let p = self.incoming.remove(0);
            proof {
                assert(p == orig[j as int]);
                assert(orig.subrange(0, j + 1 as int).drop_last() =~= orig.subrange(0, j as int));
                assert(orig.subrange(0, j + 1 as int).last() == orig[j as int]);
            }
            if p.work.id() != id {
                kept.push(p);
            }
            j += 1;
        }
        proof {
            assert(orig.subrange(0, j as int) =~= orig);
        }
        self.incoming = kept;
    }

    /// Settle the named batch after a slot may have filled: a batch with
    /// every slot filled is sealed, counted into the statistics when its
    /// throughput is computable, purged from the dispatch queue, and its
    /// final analysis handed back for submission; a batch still missing
    /// slots stays, and a progress report is handed back exactly when
    /// one is due. An absent id changes nothing.
    pub fn maybe_finished(&mut self, id: BatchId, now_ms: u64) -> (r: Option<Effect>)
        requires
            old(self).wf_basic(),
            old(self).spec_no_filled_but(id),
        ensures
            final(self).wf(),
            final(self).shutdown_soon == old(self).shutdown_soon,
            final(self).cores == old(self).cores,
            final(self).history@.added == old(self).history@.added,
            final(self).history@.aborted == old(self).history@.aborted,
            !spec_has_pending(old(self).pending@, id) ==> *final(self) == *old(self) && r is None,
            spec_has_pending(old(self).pending@, id) ==> ({
                let i = spec_find(old(self).pending@, id);
                let b = old(self).pending@[i].batch;
                if spec_all_filled(b.positions@) {
                    &&& final(self).pending@ == old(self).pending@.remove(i)
                    &&& final(self).incoming@ == spec_purge(old(self).incoming@, id)
                    &&& final(self).history@.completed == old(self).history@.completed + 1
                    &&& (r matches Some(e) && e matches Effect::SubmitAnalysis { batch, parts }
                        && batch == id && spec_final_parts_ok(parts@, b.positions@))
                    &&& match spec_slots_nps(b.positions@, b.started_at_ms, now_ms) {
                        Some(v) => spec_recorded(
                            old(self).stats,
                            final(self).stats,
                            spec_slots_present_count(b.positions@) as u64,
                            spec_slots_total_nodes(b.positions@),
                            v,
                        ),
                        None => final(self).stats == old(self).stats,
                    }
                } else {
                    &&& final(self).pending@ == old(self).pending@
                    &&& final(self).incoming == old(self).incoming
                    &&& final(self).stats == old(self).stats
                    &&& final(self).history@.completed == old(self).history@.completed
                    &&& (if spec_progress_due(b.positions@, old(self).cores) {
                        r matches Some(e) && e matches Effect::SubmitAnalysis { batch, parts }
                            && batch == id && spec_progress_parts_ok(parts@, b.positions@)
                    } else {
                        r is None
                    })
                }
            }),
    {
        let found = self.find_pending(id);
        let i = match found {
            None => {
                return None;
            },
            Some(i) => i,
        };
        proof {
            lemma_find_unique(self.pending@, id, i as int);
        }
        let ghost p0 = self.pending@;
        let ghost inc0 = self.incoming@;
        let entry = self.pending.remove(i);
        let PendingEntry { id: _, batch } = entry;
        let ghost slots = batch.positions@;
        let ghost b = batch;
        match batch.try_into_completed(now_ms) {
            Ok(completed) => {
                let ghost comp = completed;
                proof {
                    crate::batch::lemma_slots_totals(slots, completed.positions@);
                    crate::batch::lemma_present_count_bounds(completed.positions@);
                }
                match completed.nps() {
                    Some(v) => {
                        let tp = completed.total_positions();
                        let tn = completed.total_nodes();
                        self.stats.record_batch(tp, tn, v);
                    },
                    None => {},
                }
                self.purge_incoming(id);
                self.history = Ghost(
                    History {
                        added: self.history@.added,
                        completed: self.history@.completed + 1,
                        aborted: self.history@.aborted,
                    },
                );
                let parts = completed.into_analysis();
                proof {
                    assert forall|t: int| 0 <= t < slots.len() implies match #[trigger] slots[t] {
                        Some(Skip::Skip) => parts@[t] == Some(
                            crate::batch::AnalysisPart::Skipped { skipped: true },
                        ),
                        Some(Skip::Present(p)) => parts@[t] matches Some(part)
                            && crate::batch::spec_complete_part_ok(part, p),
                        None => false,
                    } by {
                        assert(slots[t] == Some(comp.positions@[t]));
                    };
                    lemma_remove_keeps_distinct(p0, i as int);
                    lemma_purge_elements(inc0, id);
                    assert forall|k: int| 0 <= k < self.incoming@.len() implies spec_has_pending(
                        self.pending@,
                        (#[trigger] self.incoming@[k]).work.spec_id(),
                    ) by {
                        let pos = self.incoming@[k];
                        assert(inc0.contains(pos));
                        let w = choose|w: int| 0 <= w < inc0.len() && inc0[w] == pos;
                        assert(spec_has_pending(p0, inc0[w].work.spec_id()));
                        lemma_remove_keeps_others(p0, i as int, pos.work.spec_id());
                    };
                    assert forall|k: int| 0 <= k < self.pending@.len() implies !spec_all_filled(
                        (#[trigger] self.pending@[k]).batch.positions@,
                    ) by {
                        if k < i {
                            assert(self.pending@[k] == p0[k]);
                            assert(p0[k].id != id);
                        } else {
                            assert(self.pending@[k] == p0[k + 1]);
                            assert(p0[k + 1].id != id);
                        }
                    };
                }
                Some(Effect::SubmitAnalysis { batch: id, parts })
            },
            Err(still) => {
                let total = still.positions.len();
                let rem = still.pending();
                proof {
                    crate::batch::lemma_filled_count_bounds(still.positions@);
                }
                let filled = total - rem;
                let due = filled > 0 && (filled as u128) % (2u128 * (self.cores as u128)) == 0;
                let eff: Option<Effect> = if due {
                    Some(Effect::SubmitAnalysis { batch: id, parts: still.progress_report() })
                } else {
                    None
                };
                self.pending.insert(i, PendingEntry { id, batch: still });
                proof {
                    assert(self.pending@ =~= p0);
                }
                eff
            },
        }
    }
}

/// Every position that survives a purge stood in the queue before and
/// belongs to another batch.
pub proof fn lemma_purge_elements(s: Seq<Position>, id: BatchId)
    ensures
        forall|i: int|
            0 <= i < spec_purge(s, id).len() ==> (#[trigger] spec_purge(s, id)[i]).work.spec_id()
                != id && s.contains(spec_purge(s, id)[i]),
    decreases s.len(),
{
    if s.len() > 0 {
        lemma_purge_elements(s.drop_last(), id);
        assert(forall|i: int|
            0 <= i < s.drop_last().len() ==> s.contains(#[trigger] s.drop_last()[i]));
    }
}

/// Purging a batch that has no position in the queue changes nothing.
pub proof fn lemma_purge_identity(s: Seq<Position>, id: BatchId)
    requires
        forall|i: int| 0 <= i < s.len() ==> (#[trigger] s[i]).work.spec_id() != id,
    ensures
        spec_purge(s, id) == s,
    decreases s.len(),
{
    if s.len() > 0 {
        lemma_purge_identity(s.drop_last(), id);
        assert(spec_purge(s, id) =~= s);
    }
}

/// Under distinct ids, a row holding the id is the row `spec_find` names.
pub proof fn lemma_find_unique(p: Seq<PendingEntry>, id: BatchId, i: int)
    requires
        spec_distinct_ids(p),
        0 <= i < p.len(),
        p[i].id == id,
    ensures
        spec_find(p, id) == i,
        spec_has_pending(p, id),
{
    assert(spec_has_pending(p, id)) by {
        assert(p[i].id == id);
    };
    let j = spec_find(p, id);
    assert(0 <= j < p.len() && p[j].id == id);
    if i < j {
        assert(p[i].id != p[j].id);
    } else if j < i {
        assert(p[j].id != p[i].id);
    }
}

/// Removing one row keeps the remaining ids distinct.
pub proof fn lemma_remove_keeps_distinct(p: Seq<PendingEntry>, i: int)
    requires
        spec_distinct_ids(p),
        0 <= i < p.len(),
    ensures
        spec_distinct_ids(p.remove(i)),
{
    assert forall|a: int, b: int| 0 <= a < b < p.remove(i).len() implies p.remove(i)[a].id != p
        .remove(i)[b].id by {
        assert(p.remove(i)[a] == if a < i {
            p[a]
        } else {
            p[a + 1]
        });
        assert(p.remove(i)[b] == if b < i {
            p[b]
        } else {
            p[b + 1]
        });
    }
}

/// Removing the row of one id keeps every other pending id pending.
pub proof fn lemma_remove_keeps_others(p: Seq<PendingEntry>, i: int, other: BatchId)
    requires
        0 <= i < p.len(),
        spec_has_pending(p, other),
        p[i].id != other,
    ensures
        spec_has_pending(p.remove(i), other),
{
    let w = choose|w: int| 0 <= w < p.len() && p[w].id == other;
    if w < i {
        assert(p.remove(i)[w] == p[w]);
        assert(p.remove(i)[w].id == other);
    } else {
        assert(w > i);
        assert(p.remove(i)[w - 1] == p[w]);
        assert(p.remove(i)[w - 1].id == other);
    }
}

/// Round trip: a batch filled slot-by-slot, in whatever order the
/// responses arrived, seals into a submission whose element `i` is the
/// completed analysis of the response addressed to position `i` -- the
/// slot-addressing invariant of a well-formed queue guarantees the ids
/// line up with the original sequence.
pub proof fn lemma_round_trip(
    slots: Seq<Option<Skip<PositionResponse>>>,
    parts: Seq<Option<AnalysisPart>>,
)
    requires
        spec_slots_addressed(slots),
        spec_all_filled(slots),
        spec_final_parts_ok(parts, slots),
    ensures
        parts.len() == slots.len(),
        forall|i: int|
            0 <= i < slots.len() ==> match #[trigger] slots[i] {
                Some(Skip::Present(p)) => p.position_id == crate::batch::PositionId(i as usize)
                    && (parts[i] matches Some(part) && crate::batch::spec_complete_part_ok(
                    part,
                    p,
                )),
                Some(Skip::Skip) => parts[i] == Some(
                    crate::batch::AnalysisPart::Skipped { skipped: true },
                ),
                None => false,
            },
{
}

} // verus!
