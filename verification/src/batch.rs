//! The batch data model: work identities, positions, worker responses,
//! and a batch at its three lifecycle stages (incoming, pending, completed).

use vstd::prelude::*;
use crate::stats::DEFAULT_NODES;
use crate::stats::sat_add_u64;

verus! {

/// Stable identity of a server-issued batch of work.
#[derive(Clone, Copy, PartialEq, Eq, Structural, Debug, Hash)]
pub struct BatchId(pub u64);

/// Zero-based index of a position within its batch's original sequence.
#[derive(Clone, Copy, PartialEq, Eq, Structural, Debug, Hash)]
pub struct PositionId(pub usize);

/// The identity and kind of a batch: a single best-move request, or an
/// analysis of a whole game line.
#[derive(Clone, Copy, PartialEq, Eq, Structural, Debug)]
pub enum Work {
    Move { id: BatchId },
    Analysis { id: BatchId },
}

impl Work {
    pub open spec fn spec_id(&self) -> BatchId {
        match *self {
            Work::Move { id } => id,
            Work::Analysis { id } => id,
        }
    }

    #[verifier::when_used_as_spec(spec_id)]
    pub fn id(&self) -> (r: BatchId)
        ensures
            r == self.spec_id(),
    {
        match self {
            Work::Move { id } => *id,
            Work::Analysis { id } => *id,
        }
    }
}

/// A display address for a batch or a position: the coordinator's base
/// address, the game it belongs to, and for analysis positions the index
/// of the position. The pieces are kept as plain values; rendering them
/// as one address string is a concern of the surrounding program.
#[derive(Debug)]
pub struct PositionUrl {
    pub base: String,
    pub game_id: String,
    pub fragment: Option<usize>,
}

/// The coordinator's base address.
#[derive(Debug)]
pub struct Endpoint {
    pub url: String,
}

/// A slot that the server may have marked as not needing analysis;
/// it still occupies its place in the batch.
#[derive(Debug)]
pub enum Skip<T> {
    Present(T),
    Skip,
}

/// One unit of work handed to a worker.
#[derive(Debug)]
pub struct Position {
    pub work: Work,
    pub position_id: PositionId,
    pub url: Option<PositionUrl>,
    pub variant: String,
    pub fen: String,
    pub moves: Vec<String>,
    pub nodes: u64,
}

/// A worker's reply for one position.
#[derive(Debug)]
pub struct PositionResponse {
    pub work: Work,
    pub position_id: PositionId,
    pub pv: Vec<String>,
    pub depth: u32,
    pub score: i64,
    pub time_ms: u64,
    pub nodes: u64,
    pub nps: Option<u32>,
}

/// One element of a submission to the server: either a marker for a
/// pre-skipped slot or the completed analysis of a position.
#[derive(Debug)]
pub enum AnalysisPart {
    Skipped { skipped: bool },
    Complete {
        pv: Vec<String>,
        depth: u32,
        score: i64,
        time: u64,
        nodes: u64,
        nps: Option<u32>,
    },
}

/// A batch's acquire reply from the server, already decoded to plain values.
#[derive(Debug)]
pub struct AcquireResponseBody {
    pub work: Work,
    pub game_id: Option<String>,
    pub position: String,
    pub variant: String,
    pub moves: Vec<String>,
    pub nodes: Option<u64>,
    pub skip_positions: Vec<usize>,
}

/// The node budget of a batch: the server's figure, or the default.
pub open spec fn spec_batch_nodes(body: &AcquireResponseBody) -> u64 {
    match body.nodes {
        Some(n) => n,
        None => DEFAULT_NODES,
    }
}

/// Total slot count derived from the work kind: one slot for a move
/// request, one per position of the studied line for an analysis.
pub open spec fn spec_slot_count(body: &AcquireResponseBody) -> int {
    match body.work {
        Work::Move { .. } => 1,
        Work::Analysis { .. } => 1 + body.moves@.len() as int,
    }
}

/// Whether the server asked for slot `i` to be skipped.
pub open spec fn spec_skipped(body: &AcquireResponseBody, i: int) -> bool {
    body.skip_positions@.contains(i as usize)
}

/// The moves leading to position `i`: the whole move list for a move
/// request, the prefix of length `i` of the studied line for an analysis.
pub open spec fn spec_move_prefix(body: &AcquireResponseBody, i: int) -> Seq<String> {
    match body.work {
        Work::Move { .. } => body.moves@,
        Work::Analysis { .. } => body.moves@.subrange(0, i),
    }
}

/// The display fragment of position `i`: none for a move request, the
/// position index for an analysis.
pub open spec fn spec_fragment(body: &AcquireResponseBody, i: int) -> Option<usize> {
    match body.work {
        Work::Move { .. } => None,
        Work::Analysis { .. } => Some(i as usize),
    }
}

/// The display address that belongs to a batch with this reply: present
/// exactly when the server names the game, pointing at that game under
/// the endpoint's base address.
pub open spec fn spec_url_ok(
    u: Option<PositionUrl>,
    endpoint: &Endpoint,
    body: &AcquireResponseBody,
    frag: Option<usize>,
) -> bool {
    match body.game_id {
        Some(g) => u matches Some(pu) && pu.base@ == endpoint.url@ && pu.game_id@ == g@
            && pu.fragment == frag,
        None => u is None,
    }
}

/// Everything that must hold of the position in slot `i` of a batch
/// built from `body` against `endpoint`.
pub open spec fn spec_position_ok(
    p: Position,
    endpoint: &Endpoint,
    body: &AcquireResponseBody,
    i: int,
) -> bool {
    &&& p.work == body.work
    &&& p.position_id == PositionId(i as usize)
    &&& p.fen@ == body.position@
    &&& p.variant@ == body.variant@
    &&& p.nodes == spec_batch_nodes(body)
    &&& p.moves@ == spec_move_prefix(body, i)
    &&& spec_url_ok(p.url, endpoint, body, spec_fragment(body, i))
}

/// Linear search for an index in the server's skip list.
fn contains_index(xs: &Vec<usize>, x: usize) -> (r: bool)
    ensures
        r == xs@.contains(x),
{
    let mut k: usize = 0;
    while k < xs.len()
        invariant
            k <= xs.len(),
            forall|j: int| 0 <= j < k ==> xs@[j] != x,
        decreases xs.len() - k,
    {
        if xs[k] == x {
            assert(xs@.contains(x)) by {
                assert(xs@[k as int] == x);
            };
            return true;
        }
        k += 1;
    }
    false
}

/// The batch as received from the server, before its positions are split
/// into the dispatch queue.
#[derive(Debug)]
pub struct IncomingBatch {
    pub work: Work,
    pub positions: Vec<Skip<Position>>,
    pub url: Option<PositionUrl>,
}

impl IncomingBatch {
    /// Every position of the batch belongs to the batch's own work.
    pub open spec fn wf(&self) -> bool {
        forall|i: int|
            0 <= i < self.positions@.len() ==> match #[trigger] self.positions@[i] {
                Skip::Present(p) => p.work == self.work,
                Skip::Skip => true,
            }
    }

    /// Turn a decoded acquire reply into a batch: one position for a move
    /// request; the whole line, with growing move prefixes, for an
    /// analysis; server-chosen slots marked as skipped (indices out of
    /// range are ignored).
    pub fn from_acquired(endpoint: &Endpoint, body: AcquireResponseBody) -> (r: IncomingBatch)
        requires
            body.moves@.len() < usize::MAX,
        ensures
            r.wf(),
            r.work == body.work,
            r.positions@.len() == spec_slot_count(&body),
            spec_url_ok(r.url, endpoint, &body, None::<usize>),
            forall|i: int|
                0 <= i < r.positions@.len() && spec_skipped(&body, i)
                    ==> (#[trigger] r.positions@[i]) is Skip,
            forall|i: int|
                0 <= i < r.positions@.len() && !spec_skipped(&body, i)
                    ==> ((#[trigger] r.positions@[i]) matches Skip::Present(p)
                        && spec_position_ok(p, endpoint, &body, i)),
    {
        let nodes: u64 = match body.nodes {
            Some(n) => n,
            None => DEFAULT_NODES,
        };

        let url: Option<PositionUrl> = match &body.game_id {
            Some(g) => Some(
                PositionUrl { base: endpoint.url.clone(), game_id: g.clone(), fragment: None },
            ),
            None => None,
        };

        let mut positions: Vec<Skip<Position>> = Vec::new();
        match body.work {
            Work::Move { .. } => {
                let slot: Skip<Position> = if contains_index(&body.skip_positions, 0) {
                    Skip::Skip
                } else {
                    Skip::Present(
                        Position {
                            work: body.work,
                            position_id: PositionId(0),
                            url: match &body.game_id {
                                Some(g) => Some(
                                    PositionUrl {
                                        base: endpoint.url.clone(),
                                        game_id: g.clone(),
                                        fragment: None,
                                    },
                                ),
                                None => None,
                            },
                            variant: body.variant.clone(),
                            fen: body.position.clone(),
                            moves: body.moves.clone(),
                            nodes,
                        },
                    )
                };
                positions.push(slot);
                assert(positions@.len() == spec_slot_count(&body));
            }
            Work::Analysis { .. } => {
                let n: usize = body.moves.len();
                let mut i: usize = 0;
                while i <= n
                    invariant
                        n == body.moves@.len(),
                        n < usize::MAX,
                        i <= n + 1,
                        positions@.len() == i,
                        body.work is Analysis,
                        nodes == spec_batch_nodes(&body),
                        forall|k: int|
                            0 <= k < i && spec_skipped(&body, k)
                                ==> (#[trigger] positions@[k]) is Skip,
                        forall|k: int|
                            0 <= k < i && !spec_skipped(&body, k)
                                ==> ((#[trigger] positions@[k]) matches Skip::Present(p)
                                    && spec_position_ok(p, endpoint, &body, k)),
                    decreases n + 1 - i,
                {
                    if contains_index(&body.skip_positions, i) {
                        positions.push(Skip::Skip);
                    } else {
                        let mut prefix: Vec<String> = Vec::new();
                        let mut j: usize = 0;
                        while j < i
                            invariant
                                j <= i,
                                i <= body.moves@.len(),
                                prefix@ == body.moves@.subrange(0, j as int),
                            decreases i - j,
                        {
                            prefix.push(body.moves[j].clone());
                            assert(prefix@ =~= body.moves@.subrange(0, j + 1 as int));
                            j += 1;
                        }
                        let p = Position {
                            work: body.work,
                            position_id: PositionId(i),
                            url: match &body.game_id {
                                Some(g) => Some(
                                    PositionUrl {
                                        base: endpoint.url.clone(),
                                        game_id: g.clone(),
                                        fragment: Some(i),
                                    },
                                ),
                                None => None,
                            },
                            variant: body.variant.clone(),
                            fen: body.position.clone(),
                            moves: prefix,
                            nodes,
                        };
                        assert(spec_position_ok(p, endpoint, &body, i as int));
                        positions.push(Skip::Present(p));
                    }
                    i += 1;
                }
            }
        }

        let r = IncomingBatch { work: body.work, positions, url };
        assert(r.wf());
        r
    }
}

/// Whether `part` is the completed-analysis element for response `p`.
pub open spec fn spec_complete_part_ok(part: AnalysisPart, p: PositionResponse) -> bool {
    &&& part matches AnalysisPart::Complete { pv, depth, score, time, nodes, nps }
    &&& pv@ == p.pv@
    &&& depth == p.depth
    &&& score == p.score
    &&& time == p.time_ms
    &&& nodes == p.nodes
    &&& nps == p.nps
}

/// The number of filled slots: those already holding a skip marker or a
/// worker response.
pub open spec fn spec_filled_count(s: Seq<Option<Skip<PositionResponse>>>) -> int
    decreases s.len(),
{
    if s.len() == 0 {
        0
    } else {
        spec_filled_count(s.drop_last()) + if s.last() is Some {
            1int
        } else {
            0int
        }
    }
}

/// Every slot of the batch is filled.
pub open spec fn spec_all_filled(s: Seq<Option<Skip<PositionResponse>>>) -> bool {
    forall|i: int| 0 <= i < s.len() ==> (#[trigger] s[i]) is Some
}

/// The shape of a final submission for filled slots: a skip marker for
/// every pre-skipped slot, the completed analysis for every response,
/// and no empty elements.
pub open spec fn spec_final_parts_ok(
    parts: Seq<Option<AnalysisPart>>,
    slots: Seq<Option<Skip<PositionResponse>>>,
) -> bool {
    &&& parts.len() == slots.len()
    &&& forall|i: int|
        0 <= i < slots.len() ==> match #[trigger] slots[i] {
            Some(Skip::Skip) => parts[i] == Some(AnalysisPart::Skipped { skipped: true }),
            Some(Skip::Present(p)) => parts[i] matches Some(part) && spec_complete_part_ok(
                part,
                p,
            ),
            None => false,
        }
}

/// The shape of a progress report: the first element is always empty --
/// the server tells progress reports and final analyses apart by it --
/// and later elements carry exactly the responses received so far.
pub open spec fn spec_progress_parts_ok(
    parts: Seq<Option<AnalysisPart>>,
    slots: Seq<Option<Skip<PositionResponse>>>,
) -> bool {
    &&& parts.len() == slots.len()
    &&& slots.len() > 0 ==> parts[0] is None
    &&& forall|i: int|
        1 <= i < slots.len() ==> match #[trigger] slots[i] {
            Some(Skip::Present(p)) => parts[i] matches Some(part) && spec_complete_part_ok(
                part,
                p,
            ),
            _ => parts[i] is None,
        }
}

/// Element-wise copy of a move list.
fn clone_strings(v: &Vec<String>) -> (r: Vec<String>)
    ensures
        r@ == v@,
{
    let mut r: Vec<String> = Vec::new();
    let mut k: usize = 0;
    while k < v.len()
        invariant
            k <= v.len(),
            r@ == v@.subrange(0, k as int),
        decreases v.len() - k,
    {
        r.push(v[k].clone());
        assert(r@ =~= v@.subrange(0, k + 1 as int));
        k += 1;
    }
    assert(r@ =~= v@);
    r
}

/// The batch while it accumulates results: one slot per original
/// position, each empty until its response (or skip marker) arrives.
#[derive(Debug)]
pub struct PendingBatch {
    pub work: Work,
    pub positions: Vec<Option<Skip<PositionResponse>>>,
    pub url: Option<PositionUrl>,
    pub started_at_ms: u64,
}

impl PendingBatch {
    /// How many slots still await a response.
    pub fn pending(&self) -> (r: usize)
        ensures
            r == self.positions@.len() - spec_filled_count(self.positions@),
    {
        let mut count: usize = 0;
        let mut k: usize = 0;
        while k < self.positions.len()
            invariant
                k <= self.positions@.len(),
                count == k - spec_filled_count(self.positions@.subrange(0, k as int)),
            decreases self.positions@.len() - k,
        {
            proof {
                assert(self.positions@.subrange(0, k + 1 as int).drop_last() =~= self.positions@
                    .subrange(0, k as int));
                assert(self.positions@.subrange(0, k + 1 as int).last() == self.positions@[
                    k as int]);
                lemma_filled_count_bounds(self.positions@.subrange(0, k as int));
            }
            if self.positions[k].is_none() {
                count = count + 1;
            }
            k += 1;
        }
        proof {
            assert(self.positions@.subrange(0, self.positions@.len() as int) =~= self.positions@);
        }
        count
    }

    /// If every slot is filled, seal the batch with its completion time;
    /// otherwise hand it back unchanged.
    pub fn try_into_completed(self, completed_at_ms: u64) -> (r: Result<
        CompletedBatch,
        PendingBatch,
    >)
        ensures
            r is Ok <==> spec_all_filled(self.positions@),
            r matches Err(p) ==> p == self,
            r matches Ok(c) ==> {
                &&& c.work == self.work
                &&& c.url == self.url
                &&& c.started_at_ms == self.started_at_ms
                &&& c.completed_at_ms == completed_at_ms
                &&& c.positions@.len() == self.positions@.len()
                &&& forall|i: int|
                    0 <= i < self.positions@.len() ==> self.positions@[i] == Some(
                        #[trigger] c.positions@[i],
                    )
            },
    {
        let mut k: usize = 0;
        while k < self.positions.len()
            invariant
                k <= self.positions@.len(),
                forall|i: int| 0 <= i < k ==> (#[trigger] self.positions@[i]) is Some,
            decreases self.positions@.len() - k,
        {
            if self.positions[k].is_none() {
                return Err(self);
            }
            k += 1;
        }
        let PendingBatch { work, mut positions, url, started_at_ms } = self;
        let ghost orig = positions@;
        let mut out: Vec<Skip<PositionResponse>> = Vec::new();
        while positions.len() > 0
            invariant
                spec_all_filled(orig),
                out@.len() + positions@.len() == orig.len(),
                forall|i: int| 0 <= i < out@.len() ==> orig[i] == Some(#[trigger] out@[i]),
                forall|i: int|
                    0 <= i < positions@.len() ==> #[trigger] positions@[i] == orig[out@.len()
                        + i],
            decreases positions@.len(),
        {
            let slot = positions.remove(0);
            match slot {
                Some(resp) => {
                    out.push(resp);
                }
                None => {
                    proof {
                        assert(orig[out@.len() as int] is Some);
                    }
                    return unreached();
                }
            }
        }
        Ok(CompletedBatch { work, positions: out, url, started_at_ms, completed_at_ms })
    }

    /// The report for a batch that is still accumulating: responses so
    /// far, with the first element blanked out.
    pub fn progress_report(&self) -> (r: Vec<Option<AnalysisPart>>)
        ensures
            spec_progress_parts_ok(r@, self.positions@),
    {
        let mut r: Vec<Option<AnalysisPart>> = Vec::new();
        let mut k: usize = 0;
        while k < self.positions.len()
            invariant
                k <= self.positions@.len(),
                r@.len() == k,
                k > 0 ==> r@[0] is None,
                forall|i: int|
                    1 <= i < k ==> match #[trigger] self.positions@[i] {
                        Some(Skip::Present(p)) => r@[i] matches Some(part)
                            && spec_complete_part_ok(part, p),
                        _ => r@[i] is None,
                    },
            decreases self.positions@.len() - k,
        {
            if k == 0 {
                r.push(None);
            } else {
                match &self.positions[k] {
                    Some(Skip::Present(p)) => {
                        r.push(
                            Some(
                                AnalysisPart::Complete {
                                    pv: clone_strings(&p.pv),
                                    depth: p.depth,
                                    score: p.score,
                                    time: p.time_ms,
                                    nodes: p.nodes,
                                    nps: p.nps,
                                },
                            ),
                        );
                    }
                    _ => {
                        r.push(None);
                    }
                }
            }
            k += 1;
        }
        r
    }
}

/// No more slots can be filled than there are.
pub proof fn lemma_filled_count_bounds(s: Seq<Option<Skip<PositionResponse>>>)
    ensures
        0 <= spec_filled_count(s) <= s.len(),
    decreases s.len(),
{
    if s.len() > 0 {
        lemma_filled_count_bounds(s.drop_last());
    }
}

/// A batch with every slot filled, sealed with its completion time.
#[derive(Debug)]
pub struct CompletedBatch {
    pub work: Work,
    pub positions: Vec<Skip<PositionResponse>>,
    pub url: Option<PositionUrl>,
    pub started_at_ms: u64,
    pub completed_at_ms: u64,
}

/// The number of slots that hold a worker response.
pub open spec fn spec_present_count(s: Seq<Skip<PositionResponse>>) -> int
    decreases s.len(),
{
    if s.len() == 0 {
        0
    } else {
        spec_present_count(s.drop_last()) + if s.last() is Present {
            1int
        } else {
            0int
        }
    }
}

/// The nodes searched over all responses, saturating at the counter's cap.
pub open spec fn spec_total_nodes(s: Seq<Skip<PositionResponse>>) -> u64
    decreases s.len(),
{
    if s.len() == 0 {
        0u64
    } else {
        sat_add_u64(
            spec_total_nodes(s.drop_last()),
            match s.last() {
                Skip::Present(p) => p.nodes,
                Skip::Skip => 0u64,
            },
        )
    }
}

/// The count never exceeds the slot count.
pub proof fn lemma_present_count_bounds(s: Seq<Skip<PositionResponse>>)
    ensures
        0 <= spec_present_count(s) <= s.len(),
    decreases s.len(),
{
    if s.len() > 0 {
        lemma_present_count_bounds(s.drop_last());
    }
}

impl CompletedBatch {
    /// The batch's throughput: total nodes over elapsed whole seconds,
    /// unavailable when the clock went backwards, less than a second
    /// passed, or the figure does not fit the wire format.
    pub open spec fn spec_nps(&self) -> Option<u32> {
        if self.completed_at_ms < self.started_at_ms {
            None
        } else {
            let secs = (self.completed_at_ms - self.started_at_ms) as u64 / 1000;
            if secs == 0 {
                None
            } else {
                let v = spec_total_nodes(self.positions@) as u64 / secs;
                if v > u32::MAX {
                    None
                } else {
                    Some(v as u32)
                }
            }
        }
    }

    /// How many positions of this batch were analysed (skips excluded).
    pub fn total_positions(&self) -> (r: u64)
        ensures
            r == spec_present_count(self.positions@),
    {
        let mut count: u64 = 0;
        let mut k: usize = 0;
        while k < self.positions.len()
            invariant
                k <= self.positions@.len(),
                count == spec_present_count(self.positions@.subrange(0, k as int)),
            decreases self.positions@.len() - k,
        {
            proof {
                assert(self.positions@.subrange(0, k + 1 as int).drop_last() =~= self.positions@
                    .subrange(0, k as int));
                assert(self.positions@.subrange(0, k + 1 as int).last() == self.positions@[
                    k as int]);
                lemma_present_count_bounds(self.positions@.subrange(0, k as int));
            }
            match &self.positions[k] {
                Skip::Present(_) => {
                    count = count + 1;
                }
                Skip::Skip => {}
            }
            k += 1;
        }
        proof {
            assert(self.positions@.subrange(0, self.positions@.len() as int) =~= self.positions@);
        }
        count
    }

    /// The nodes searched over all responses of this batch.
    pub fn total_nodes(&self) -> (r: u64)
        ensures
            r == spec_total_nodes(self.positions@),
    {
        let mut acc: u64 = 0;
        let mut k: usize = 0;
        while k < self.positions.len()
            invariant
                k <= self.positions@.len(),
                acc == spec_total_nodes(self.positions@.subrange(0, k as int)),
            decreases self.positions@.len() - k,
        {
            proof {
                assert(self.positions@.subrange(0, k + 1 as int).drop_last() =~= self.positions@
                    .subrange(0, k as int));
                assert(self.positions@.subrange(0, k + 1 as int).last() == self.positions@[
                    k as int]);
            }
            match &self.positions[k] {
                Skip::Present(p) => {
                    acc = acc.saturating_add(p.nodes);
                }
                Skip::Skip => {}
            }
            k += 1;
        }
        proof {
            assert(self.positions@.subrange(0, self.positions@.len() as int) =~= self.positions@);
        }
        acc
    }

    /// See `spec_nps`.
    pub fn nps(&self) -> (r: Option<u32>)
        ensures
            r == self.spec_nps(),
    {
        match self.completed_at_ms.checked_sub(self.started_at_ms) {
            None => None,
            Some(elapsed_ms) => {
                let secs: u64 = elapsed_ms / 1000;
                if secs == 0 {
                    None
                } else {
                    let v: u64 = self.total_nodes() / secs;
                    if v > u32::MAX as u64 {
                        None
                    } else {
                        Some(v as u32)
                    }
                }
            }
        }
    }

    /// The final submission: one element per original slot, a skip
    /// marker for pre-skipped slots and the completed analysis of every
    /// response -- including the first slot, which is what marks the
    /// submission as final rather than a progress report.
    pub fn into_analysis(self) -> (r: Vec<Option<AnalysisPart>>)
        ensures
            r@.len() == self.positions@.len(),
            forall|i: int|
                0 <= i < self.positions@.len() ==> match #[trigger] self.positions@[i] {
                    Skip::Skip => r@[i] == Some(AnalysisPart::Skipped { skipped: true }),
                    Skip::Present(p) => r@[i] matches Some(part) && spec_complete_part_ok(
                        part,
                        p,
                    ),
                },
    {
        let CompletedBatch { work: _, mut positions, url: _, started_at_ms: _, completed_at_ms: _ } =
            self;
        let ghost orig = positions@;
        let mut r: Vec<Option<AnalysisPart>> = Vec::new();
        while positions.len() > 0
            invariant
                r@.len() + positions@.len() == orig.len(),
                forall|i: int|
                    0 <= i < positions@.len() ==> #[trigger] positions@[i] == orig[r@.len() + i],
                forall|i: int|
                    0 <= i < r@.len() ==> match #[trigger] orig[i] {
                        Skip::Skip => r@[i] == Some(AnalysisPart::Skipped { skipped: true }),
                        Skip::Present(p) => r@[i] matches Some(part) && spec_complete_part_ok(
                            part,
                            p,
                        ),
                    },
            decreases positions@.len(),
        {
            let slot = positions.remove(0);
            match slot {
                Skip::Skip => {
                    r.push(Some(AnalysisPart::Skipped { skipped: true }));
                }
                Skip::Present(p) => {
                    r.push(
                        Some(
                            AnalysisPart::Complete {
                                pv: p.pv,
                                depth: p.depth,
                                score: p.score,
                                time: p.time_ms,
                                nodes: p.nodes,
                                nps: p.nps,
                            },
                        ),
                    );
                }
            }
        }
        r
    }
}


/// The number of slots holding a worker response (skip markers and empty
/// slots excluded).
pub open spec fn spec_slots_present_count(s: Seq<Option<Skip<PositionResponse>>>) -> int
    decreases s.len(),
{
    if s.len() == 0 {
        0
    } else {
        spec_slots_present_count(s.drop_last()) + match s.last() {
            Some(Skip::Present(_)) => 1int,
            _ => 0int,
        }
    }
}

/// The nodes searched over all responses in the slots, saturating at the
/// counter's cap.
pub open spec fn spec_slots_total_nodes(s: Seq<Option<Skip<PositionResponse>>>) -> u64
    decreases s.len(),
{
    if s.len() == 0 {
        0u64
    } else {
        sat_add_u64(
            spec_slots_total_nodes(s.drop_last()),
            match s.last() {
                Some(Skip::Present(p)) => p.nodes,
                _ => 0u64,
            },
        )
    }
}

/// The throughput a batch with these slots reports when sealed over the
/// given interval; mirrors `CompletedBatch::spec_nps`.
pub open spec fn spec_slots_nps(
    s: Seq<Option<Skip<PositionResponse>>>,
    started_at_ms: u64,
    completed_at_ms: u64,
) -> Option<u32> {
    if completed_at_ms < started_at_ms {
        None
    } else {
        let secs = (completed_at_ms - started_at_ms) as u64 / 1000;
        if secs == 0 {
            None
        } else {
            let v = spec_slots_total_nodes(s) as u64 / secs;
            if v > u32::MAX {
                None
            } else {
                Some(v as u32)
            }
        }
    }
}

/// Sealing a fully filled batch keeps its totals: the slot-level counts
/// equal the counts over the unwrapped responses.
pub proof fn lemma_slots_totals(
    slots: Seq<Option<Skip<PositionResponse>>>,
    resp: Seq<Skip<PositionResponse>>,
)
    requires
        slots.len() == resp.len(),
        forall|i: int| 0 <= i < slots.len() ==> slots[i] == Some(#[trigger] resp[i]),
    ensures
        spec_slots_present_count(slots) == spec_present_count(resp),
        spec_slots_total_nodes(slots) == spec_total_nodes(resp),
    decreases slots.len(),
{
    if slots.len() > 0 {
        assert(forall|i: int|
            0 <= i < slots.drop_last().len() ==> slots.drop_last()[i] == Some(
                #[trigger] resp.drop_last()[i],
            ));
        lemma_slots_totals(slots.drop_last(), resp.drop_last());
        assert(slots.last() == Some(resp.last()));
    }
}

/// The slot vector a fresh pending batch starts from: an empty slot for
/// every position to analyse, a skip marker for every pre-skipped one.
pub open spec fn spec_initial_slots(s: Seq<Skip<Position>>) -> Seq<Option<Skip<PositionResponse>>> {
    Seq::new(
        s.len(),
        |i: int|
            match s[i] {
                Skip::Present(_) => None::<Skip<PositionResponse>>,
                Skip::Skip => Some(Skip::Skip),
            },
    )
}

/// The positions of a batch that are to be analysed, in their original
/// order.
pub open spec fn spec_present_positions(s: Seq<Skip<Position>>) -> Seq<Position>
    decreases s.len(),
{
    if s.len() == 0 {
        Seq::empty()
    } else {
        let rest = spec_present_positions(s.drop_last());
        match s.last() {
            Skip::Present(p) => rest.push(p),
            Skip::Skip => rest,
        }
    }
}

/// Every position to analyse comes from some slot of the batch.
pub proof fn lemma_present_positions_membership(s: Seq<Skip<Position>>)
    ensures
        forall|i: int|
            0 <= i < spec_present_positions(s).len() ==> exists|j: int|
                0 <= j < s.len() && s[j] == Skip::Present(#[trigger] spec_present_positions(s)[i]),
    decreases s.len(),
{
    if s.len() > 0 {
        lemma_present_positions_membership(s.drop_last());
        let pp = spec_present_positions(s);
        let rest = spec_present_positions(s.drop_last());
        assert forall|i: int| 0 <= i < pp.len() implies exists|j: int|
            0 <= j < s.len() && s[j] == Skip::Present(#[trigger] pp[i]) by {
            if i < rest.len() {
                let j = choose|j: int|
                    0 <= j < s.drop_last().len() && s.drop_last()[j] == Skip::Present(rest[i]);
                assert(s[j] == Skip::Present(pp[i]));
            } else {
                assert(pp[i] == s.last()->Present_0);
                assert(s[s.len() - 1] == Skip::Present(pp[i]));
            }
        }
    }
}

/// A batch whose every slot starts filled has no position to analyse.
pub proof fn lemma_no_present_when_all_skip(s: Seq<Skip<Position>>)
    requires
        spec_all_filled(spec_initial_slots(s)),
    ensures
        spec_present_positions(s).len() == 0,
    decreases s.len(),
{
    if s.len() > 0 {
        assert(spec_all_filled(spec_initial_slots(s.drop_last()))) by {
            assert forall|i: int|
                0 <= i < s.len() - 1 implies (#[trigger] spec_initial_slots(s.drop_last())[i])
                is Some by {
                assert(spec_initial_slots(s)[i] is Some);
            }
        };
        lemma_no_present_when_all_skip(s.drop_last());
        assert(spec_initial_slots(s)[s.len() - 1] is Some);
        assert(s.last() is Skip);
    }
}

} // verus!
