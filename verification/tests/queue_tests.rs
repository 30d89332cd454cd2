use batch_queue::actor::{acquire_action, backlog_wait_time, needs_status, AcquireAction, Acquired, QueueStatus};
use batch_queue::batch::{
    AcquireResponseBody, AnalysisPart, BatchId, Endpoint, IncomingBatch, PositionId,
    PositionResponse, Skip, Work,
};
use batch_queue::state::{Effect, QueueState};
use batch_queue::stats::StatsRecorder;

fn endpoint() -> Endpoint {
    Endpoint { url: String::from("https://example.org") }
}

fn analysis_body(id: u64, moves: &[&str], skips: &[usize], nodes: Option<u64>) -> AcquireResponseBody {
    AcquireResponseBody {
        work: Work::Analysis { id: BatchId(id) },
        game_id: Some(String::from("abcdefgh")),
        position: String::from("rnbqkbnr/pppppppp/8/8/8/8/PPPPPPPP/RNBQKBNR w KQkq - 0 1"),
        variant: String::from("standard"),
        moves: moves.iter().map(|m| String::from(*m)).collect(),
        nodes,
        skip_positions: skips.to_vec(),
    }
}

fn move_body(id: u64) -> AcquireResponseBody {
    AcquireResponseBody {
        work: Work::Move { id: BatchId(id) },
        game_id: Some(String::from("abcdefgh")),
        position: String::from("rnbqkbnr/pppppppp/8/8/8/8/PPPPPPPP/RNBQKBNR w KQkq - 0 1"),
        variant: String::from("standard"),
        moves: Vec::new(),
        nodes: None,
        skip_positions: Vec::new(),
    }
}

fn response(work: Work, pos: usize, pv: &str) -> PositionResponse {
    PositionResponse {
        work,
        position_id: PositionId(pos),
        pv: vec![String::from(pv)],
        depth: 20,
        score: 15,
        time_ms: 1000,
        nodes: 1_000_000,
        nps: Some(1_000_000),
    }
}

#[test]
fn stats_start_low_and_smooth_exactly() {
    let mut s = StatsRecorder::new();
    assert_eq!(s.nps, 1_500_000);
    s.record_batch(60, 240_000_000, 2_500_000);
    // (4 * 1_500_000 + 2_500_000) / 5
    assert_eq!(s.nps, 1_700_000);
    assert_eq!(s.total_batches, 1);
    assert_eq!(s.total_positions, 60);
    assert_eq!(s.total_nodes, 240_000_000);
}

#[test]
fn stats_nps_never_reaches_zero() {
    let mut s = StatsRecorder::new();
    for _ in 0..200 {
        s.record_batch(0, 0, 0);
        assert!(s.nps >= 1);
    }
    assert_eq!(s.nps, 1);
}

#[test]
fn min_user_backlog_exact_values() {
    let mut s = StatsRecorder::new();
    // 240_000_000 / 1_500_000 = 160 seconds estimated, minus 60.
    assert_eq!(s.min_user_backlog(), 100_000);
    s.nps = 4_000_000;
    assert_eq!(s.min_user_backlog(), 0);
    s.nps = u32::MAX;
    assert_eq!(s.min_user_backlog(), 0);
    s.nps = 1;
    // capped at 360 seconds estimated.
    assert_eq!(s.min_user_backlog(), 300_000);
}

#[test]
fn min_user_backlog_monotone_samples() {
    let samples: [u32; 6] = [1, 1_000, 400_000, 1_500_000, 4_000_000, u32::MAX];
    let mut last = u64::MAX;
    for nps in samples {
        let mut s = StatsRecorder::new();
        s.nps = nps;
        let b = s.min_user_backlog();
        assert!(b <= last);
        last = b;
    }
}

#[test]
fn move_job_dispatch_and_submit() {
    let body = move_body(7);
    let work = body.work;
    let batch = IncomingBatch::from_acquired(&endpoint(), body);
    assert_eq!(batch.positions.len(), 1);
    match &batch.positions[0] {
        Skip::Present(p) => {
            assert_eq!(p.nodes, 4_000_000);
            assert_eq!(p.position_id, PositionId(0));
            let url = p.url.as_ref().expect("a game id gives an address");
            assert_eq!(url.game_id, "abcdefgh");
            assert_eq!(url.fragment, None);
        }
        Skip::Skip => panic!("a move job has its one position present"),
    }

    let mut state = QueueState::new(1);
    assert!(state.add_incoming_batch(batch, 0).is_none());
    assert_eq!(state.incoming.len(), 1);

    let (eff, popped) = state.respond(None, 0);
    assert!(eff.is_none());
    let pos = popped.expect("one position is queued");
    assert_eq!(pos.position_id, PositionId(0));

    let (eff, popped) = state.respond(Some(Ok(response(work, 0, "e2e4"))), 5_000);
    assert!(popped.is_none());
    match eff {
        Some(Effect::SubmitAnalysis { batch, parts }) => {
            assert_eq!(batch, BatchId(7));
            assert_eq!(parts.len(), 1);
            match &parts[0] {
                Some(AnalysisPart::Complete { pv, nodes, .. }) => {
                    assert_eq!(pv, &vec![String::from("e2e4")]);
                    assert_eq!(*nodes, 1_000_000);
                }
                _ => panic!("a final submission completes its one slot"),
            }
        }
        _ => panic!("the last response seals the batch"),
    }
    assert_eq!(state.pending.len(), 0);
    // 1_000_000 nodes over 5 whole seconds.
    assert_eq!(state.stats.total_batches, 1);
    assert_eq!(state.stats.total_positions, 1);
    assert_eq!(state.stats.nps, (4 * 1_500_000 + 200_000) / 5);
}

#[test]
fn analysis_with_skips_submits_mixed_parts() {
    let body = analysis_body(9, &["e2e4", "e7e5", "g1f3", "b8c6"], &[1, 3], None);
    let work = body.work;
    let batch = IncomingBatch::from_acquired(&endpoint(), body);
    assert_eq!(batch.positions.len(), 5);
    assert!(matches!(batch.positions[1], Skip::Skip));
    assert!(matches!(batch.positions[3], Skip::Skip));

    let mut state = QueueState::new(3);
    assert!(state.add_incoming_batch(batch, 0).is_none());
    assert_eq!(state.incoming.len(), 3);
    let queued: Vec<usize> = state.incoming.iter().map(|p| p.position_id.0).collect();
    assert_eq!(queued, vec![0, 2, 4]);

    let (e0, _) = state.respond(Some(Ok(response(work, 0, "a"))), 1_000);
    assert!(e0.is_none());
    let (e1, _) = state.respond(Some(Ok(response(work, 2, "b"))), 2_000);
    assert!(e1.is_none());
    let (e2, _) = state.respond(Some(Ok(response(work, 4, "c"))), 3_000);
    match e2 {
        Some(Effect::SubmitAnalysis { batch, parts }) => {
            assert_eq!(batch, BatchId(9));
            assert_eq!(parts.len(), 5);
            assert!(matches!(parts[0], Some(AnalysisPart::Complete { .. })));
            assert!(matches!(parts[1], Some(AnalysisPart::Skipped { skipped: true })));
            assert!(matches!(parts[2], Some(AnalysisPart::Complete { .. })));
            assert!(matches!(parts[3], Some(AnalysisPart::Skipped { skipped: true })));
            assert!(matches!(parts[4], Some(AnalysisPart::Complete { .. })));
        }
        _ => panic!("the third response seals the batch"),
    }
    assert_eq!(state.pending.len(), 0);
}

#[test]
fn partial_progress_reports_at_cadence_only() {
    let moves: Vec<&str> = vec!["m1", "m2", "m3", "m4", "m5", "m6", "m7", "m8", "m9"];
    let body = analysis_body(11, &moves, &[], None);
    let work = body.work;
    let batch = IncomingBatch::from_acquired(&endpoint(), body);
    assert_eq!(batch.positions.len(), 10);

    let mut state = QueueState::new(2);
    assert!(state.add_incoming_batch(batch, 0).is_none());

    for filled in 1..=7usize {
        let slot = filled - 1;
        let (eff, _) = state.respond(Some(Ok(response(work, slot, "pv"))), 1_000);
        if filled == 4 {
            match eff {
                Some(Effect::SubmitAnalysis { batch, parts }) => {
                    assert_eq!(batch, BatchId(11));
                    assert_eq!(parts.len(), 10);
                    assert!(parts[0].is_none(), "a progress report blanks its first slot");
                    let complete = parts.iter().filter(|p| p.is_some()).count();
                    assert_eq!(complete, 3);
                    for part in parts.iter().take(4).skip(1) {
                        assert!(matches!(part, Some(AnalysisPart::Complete { .. })));
                    }
                }
                _ => panic!("four filled slots on two cores are one cadence"),
            }
        } else {
            assert!(eff.is_none(), "no report off cadence, at {} filled", filled);
        }
    }
    assert_eq!(state.pending.len(), 1);
}

#[test]
fn abort_on_failure_purges_batch() {
    let body = analysis_body(13, &["e2e4", "e7e5"], &[], None);
    let work = body.work;
    let batch = IncomingBatch::from_acquired(&endpoint(), body);
    let mut state = QueueState::new(2);
    assert!(state.add_incoming_batch(batch, 0).is_none());
    assert_eq!(state.incoming.len(), 3);

    let (eff, _) = state.respond(Some(Ok(response(work, 0, "pv"))), 500);
    assert!(eff.is_none());

    let (eff, popped) = state.respond(Some(Err(BatchId(13))), 600);
    match eff {
        Some(Effect::Abort { batch }) => assert_eq!(batch, BatchId(13)),
        _ => panic!("a failure report asks for one abort"),
    }
    assert!(popped.is_none(), "the failed batch's positions left the queue");
    assert_eq!(state.pending.len(), 0);
    assert_eq!(state.incoming.len(), 0);
}

#[test]
fn abort_unknown_batch_still_asked() {
    let mut state = QueueState::new(1);
    let (eff, popped) = state.respond(Some(Err(BatchId(99))), 0);
    assert!(matches!(eff, Some(Effect::Abort { batch: BatchId(99) })));
    assert!(popped.is_none());
}

#[test]
fn cancelled_pull_requeues_at_front() {
    let body = analysis_body(17, &["e2e4"], &[], None);
    let batch = IncomingBatch::from_acquired(&endpoint(), body);
    let mut state = QueueState::new(1);
    state.add_incoming_batch(batch, 0);
    assert_eq!(state.incoming.len(), 2);

    let (_, popped) = state.respond(None, 0);
    let pos = popped.expect("the head is handed out");
    assert_eq!(pos.position_id, PositionId(0));
    assert_eq!(state.incoming.len(), 1);

    // The worker lost interest: the position goes back to the front.
    assert!(state.requeue_front(pos));
    assert_eq!(state.incoming.len(), 2);
    assert_eq!(state.incoming[0].position_id, PositionId(0));
    assert_eq!(state.incoming[1].position_id, PositionId(1));
}

#[test]
fn requeue_without_pending_batch_drops() {
    let body = analysis_body(19, &[], &[], None);
    let batch = IncomingBatch::from_acquired(&endpoint(), body);
    let mut state = QueueState::new(1);
    state.add_incoming_batch(batch, 0);
    let (_, popped) = state.respond(None, 0);
    let pos = popped.expect("one position");
    // Fail the batch while the position is out with a worker.
    state.respond(Some(Err(BatchId(19))), 0);
    assert!(!state.requeue_front(pos));
    assert_eq!(state.incoming.len(), 0);
}

#[test]
fn backlog_waiting_prefers_shorter_side() {
    let status = QueueStatus { user_oldest_ms: 10_000, system_oldest_ms: 5_000 };
    let (wait, query) = backlog_wait_time(0, Some(30_000), Some(10_000), Some(status));
    assert_eq!(wait, 5_000);
    assert!(query.slow, "waiting 20s for users vs 5s for the system is slow");
}

#[test]
fn backlog_waiting_with_system_disabled() {
    let status = QueueStatus { user_oldest_ms: 10_000, system_oldest_ms: 0 };
    let (wait, query) = backlog_wait_time(0, Some(30_000), None, Some(status));
    assert_eq!(wait, 0);
    assert!(query.slow);
}

#[test]
fn backlog_default_without_status() {
    assert!(!needs_status(0, None, None));
    assert!(needs_status(2_000, None, None));
    assert!(needs_status(0, Some(1_000), None, ));
    let (wait, query) = backlog_wait_time(0, None, None, None);
    assert_eq!(wait, 0);
    assert!(!query.slow);
    let (wait, query) = backlog_wait_time(2_000, None, None, None);
    assert_eq!(wait, 0);
    assert!(query.slow, "stats demanding two seconds of backlog flag a slow client");
}

#[test]
fn shutdown_drains_aborts_each_pending_batch() {
    let mut state = QueueState::new(2);
    state.add_incoming_batch(
        IncomingBatch::from_acquired(&endpoint(), analysis_body(1, &["e2e4"], &[], None)),
        0,
    );
    state.add_incoming_batch(
        IncomingBatch::from_acquired(&endpoint(), analysis_body(2, &["d2d4"], &[], None)),
        0,
    );
    assert_eq!(state.pending.len(), 2);

    let effects = state.drain_pending();
    assert_eq!(effects.len(), 2);
    assert!(matches!(effects[0], Effect::Abort { batch: BatchId(1) }));
    assert!(matches!(effects[1], Effect::Abort { batch: BatchId(2) }));
    assert_eq!(state.pending.len(), 0);
    assert_eq!(state.incoming.len(), 0);
}

#[test]
fn pending_table_counts_lifecycle() {
    let mut state = QueueState::new(3);
    let b1 = analysis_body(21, &["e2e4"], &[], None);
    let w1 = b1.work;
    state.add_incoming_batch(IncomingBatch::from_acquired(&endpoint(), b1), 0);
    state.add_incoming_batch(
        IncomingBatch::from_acquired(&endpoint(), analysis_body(22, &["d2d4"], &[], None)),
        0,
    );
    assert_eq!(state.pending.len(), 2);

    // Complete the first.
    state.respond(Some(Ok(response(w1, 0, "a"))), 1_000);
    let (eff, _) = state.respond(Some(Ok(response(w1, 1, "b"))), 1_000);
    assert!(matches!(eff, Some(Effect::SubmitAnalysis { .. })));
    assert_eq!(state.pending.len(), 1);

    // Abort the second.
    state.respond(Some(Err(BatchId(22))), 1_000);
    assert_eq!(state.pending.len(), 0);
}

#[test]
fn duplicate_batch_is_dropped() {
    let mut state = QueueState::new(1);
    state.add_incoming_batch(
        IncomingBatch::from_acquired(&endpoint(), analysis_body(23, &["e2e4"], &[], None)),
        0,
    );
    let before_incoming = state.incoming.len();
    let eff = state.add_incoming_batch(
        IncomingBatch::from_acquired(&endpoint(), analysis_body(23, &["e2e4"], &[], None)),
        5,
    );
    assert!(eff.is_none());
    assert_eq!(state.pending.len(), 1);
    assert_eq!(state.incoming.len(), before_incoming);
}

#[test]
fn all_skip_batch_completes_immediately() {
    let body = analysis_body(25, &["e2e4"], &[0, 1], None);
    let batch = IncomingBatch::from_acquired(&endpoint(), body);
    let mut state = QueueState::new(3);
    let eff = state.add_incoming_batch(batch, 0);
    match eff {
        Some(Effect::SubmitAnalysis { batch, parts }) => {
            assert_eq!(batch, BatchId(25));
            assert_eq!(parts.len(), 2);
            assert!(matches!(parts[0], Some(AnalysisPart::Skipped { skipped: true })));
            assert!(matches!(parts[1], Some(AnalysisPart::Skipped { skipped: true })));
        }
        _ => panic!("a batch of only skips completes on arrival"),
    }
    assert_eq!(state.pending.len(), 0);
    assert_eq!(state.incoming.len(), 0);
}

#[test]
fn skip_out_of_range_is_ignored() {
    let body = analysis_body(27, &["e2e4", "e7e5"], &[7], None);
    let batch = IncomingBatch::from_acquired(&endpoint(), body);
    assert_eq!(batch.positions.len(), 3);
    for slot in &batch.positions {
        assert!(matches!(slot, Skip::Present(_)));
    }
}

#[test]
fn analysis_positions_grow_move_prefixes() {
    let body = analysis_body(29, &["e2e4", "e7e5", "g1f3"], &[], Some(2_000_000));
    let batch = IncomingBatch::from_acquired(&endpoint(), body);
    assert_eq!(batch.positions.len(), 4);
    for (i, slot) in batch.positions.iter().enumerate() {
        match slot {
            Skip::Present(p) => {
                assert_eq!(p.position_id, PositionId(i));
                assert_eq!(p.moves.len(), i);
                assert_eq!(p.nodes, 2_000_000);
                let url = p.url.as_ref().expect("a game id gives an address");
                assert_eq!(url.fragment, Some(i));
            }
            Skip::Skip => panic!("no skips were asked for"),
        }
    }
}

#[test]
fn late_duplicate_response_is_ignored() {
    let body = analysis_body(31, &["e2e4"], &[], None);
    let work = body.work;
    let batch = IncomingBatch::from_acquired(&endpoint(), body);
    let mut state = QueueState::new(3);
    state.add_incoming_batch(batch, 0);

    let (eff, _) = state.respond(Some(Ok(response(work, 0, "first"))), 1_000);
    assert!(eff.is_none());
    let (eff, _) = state.respond(Some(Ok(response(work, 0, "second"))), 1_000);
    assert!(eff.is_none(), "a late duplicate neither fills nor reports");

    let (eff, _) = state.respond(Some(Ok(response(work, 1, "last"))), 2_000);
    match eff {
        Some(Effect::SubmitAnalysis { parts, .. }) => {
            match &parts[0] {
                Some(AnalysisPart::Complete { pv, .. }) => {
                    assert_eq!(pv, &vec![String::from("first")]);
                }
                _ => panic!("slot 0 completed"),
            }
        }
        _ => panic!("the batch sealed"),
    }
}

#[test]
fn round_trip_fills_in_any_order() {
    let body = analysis_body(33, &["e2e4", "e7e5"], &[], None);
    let work = body.work;
    let batch = IncomingBatch::from_acquired(&endpoint(), body);
    let mut state = QueueState::new(3);
    state.add_incoming_batch(batch, 0);

    state.respond(Some(Ok(response(work, 1, "pv-1"))), 1_000);
    state.respond(Some(Ok(response(work, 2, "pv-2"))), 1_000);
    let (eff, _) = state.respond(Some(Ok(response(work, 0, "pv-0"))), 1_000);
    match eff {
        Some(Effect::SubmitAnalysis { parts, .. }) => {
            assert_eq!(parts.len(), 3);
            for (i, part) in parts.iter().enumerate() {
                match part {
                    Some(AnalysisPart::Complete { pv, .. }) => {
                        assert_eq!(pv, &vec![format!("pv-{}", i)]);
                    }
                    _ => panic!("every slot completed"),
                }
            }
        }
        _ => panic!("the batch sealed after its last slot, whatever the order"),
    }
}

#[test]
fn acquire_outcomes_decide_the_next_step() {
    let accepted = Some(Acquired::Accepted(move_body(41)));
    assert_eq!(acquire_action(&accepted), AcquireAction::AddBatch);
    assert_eq!(acquire_action(&Some(Acquired::NoContent)), AcquireAction::Backoff);
    assert_eq!(acquire_action(&Some(Acquired::BadRequest)), AcquireAction::StopQueue);
    assert_eq!(acquire_action(&None), AcquireAction::Retry);
}

#[test]
fn shutdown_soon_sets_the_flag_only() {
    let mut state = QueueState::new(2);
    state.add_incoming_batch(
        IncomingBatch::from_acquired(&endpoint(), analysis_body(43, &["e2e4"], &[], None)),
        0,
    );
    assert!(!state.shutdown_soon);
    state.set_shutdown_soon();
    assert!(state.shutdown_soon);
    assert_eq!(state.pending.len(), 1);
    assert_eq!(state.incoming.len(), 2);
}

#[test]
fn skips_alone_can_reach_the_report_cadence() {
    // Two pre-skipped slots on one core: the filled count is already a
    // nonzero multiple of two when the batch arrives, so a report goes
    // out at once -- and with no responses yet it is all blanks.
    let body = analysis_body(45, &["e2e4", "e7e5", "g1f3"], &[1, 2], None);
    let batch = IncomingBatch::from_acquired(&endpoint(), body);
    let mut state = QueueState::new(1);
    let eff = state.add_incoming_batch(batch, 0);
    match eff {
        Some(Effect::SubmitAnalysis { batch, parts }) => {
            assert_eq!(batch, BatchId(45));
            assert_eq!(parts.len(), 4);
            for part in &parts {
                assert!(part.is_none());
            }
        }
        _ => panic!("two filled slots on one core are one cadence"),
    }
    assert_eq!(state.pending.len(), 1);
    assert_eq!(state.incoming.len(), 2);
}

#[test]
fn backlog_waiting_user_side_shorter_is_not_slow() {
    let status = QueueStatus { user_oldest_ms: 28_000, system_oldest_ms: 2_000 };
    let (wait, query) = backlog_wait_time(0, Some(30_000), Some(10_000), Some(status));
    assert_eq!(wait, 2_000);
    assert!(!query.slow, "2s of user wait against 8s of system wait is not slow");
}
