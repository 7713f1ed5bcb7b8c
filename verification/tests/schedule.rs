use trust_tee::runtime::common::{reply_for, OpKind, Resp};
use trust_tee::runtime::schedule::{
    finish_batch, idle_step, BatchPlan, local_burst, next_start, plan_batch, round_robin_index, should_drain,
    use_local_shortcut, ClientPoll, ClientState, IdleAction, ServeOutcome, WorkerState,
};
use trust_tee::runtime::slots::header::pack_ready_count;
use trust_tee::runtime::slots::{
    ChannelPair, FatClosurePtr, PropertyPtr, RequestRecordHeader,
};

/// Plans, runs each planned record its run count of times (recording the
/// closure words), then answers; returns the outcome and the runs.
fn serve(chan: &mut ChannelPair, state: &mut ClientState) -> (ServeOutcome, Vec<u64>) {
    let plan = plan_batch(chan, state);
    let mut ran = Vec::new();
    for h in &plan.runs {
        for _ in 0..h.run_count() {
            ran.push(h.closure.data);
        }
    }
    finish_batch(chan, &plan);
    (plan.outcome, ran)
}

fn rec(p: PropertyPtr, data: u64, repeat: u32) -> RequestRecordHeader {
    RequestRecordHeader {
        closure: FatClosurePtr { data, vtable: 0 },
        property_ptr: p,
        captured_len: 0,
        args_len: 0,
        args_offset: 0,
        repeat_count: repeat,
    }
}

#[test]
fn drain_throttle_and_idle() {
    assert!(should_drain(true, 3));
    assert!(should_drain(false, 32));
    assert!(!should_drain(false, 33));
    assert_eq!(idle_step(0), (IdleAction::Spin, 1));
    assert_eq!(idle_step(7), (IdleAction::Spin, 8));
    assert_eq!(idle_step(8), (IdleAction::Yield, 0));
}

#[test]
fn round_robin_visits_each_client_once() {
    let n = 5;
    for start in 0..n {
        let mut seen: Vec<usize> = (0..n).map(|o| round_robin_index(start, o, n)).collect();
        assert_eq!(seen[0], start);
        seen.sort();
        assert_eq!(seen, vec![0, 1, 2, 3, 4]);
    }
    assert_eq!(next_start(4, 5), 0);
    assert_eq!(next_start(1, 5), 2);
}

#[test]
fn burst_and_shortcut() {
    assert_eq!(local_burst(64, 0), 0);
    assert_eq!(local_burst(64, 10), 10);
    assert_eq!(local_burst(4, 10), 4);
    assert!(use_local_shortcut(3, 3, true));
    assert!(!use_local_shortcut(0, 0, true));
    assert!(!use_local_shortcut(3, 4, true));
    assert!(!use_local_shortcut(3, 3, false));
    assert_eq!(Resp::U64(5), Resp::U64(5));
    assert_ne!(Resp::Empty, Resp::NoneBatch(0));
}

#[test]
fn poll_tracks_launches() {
    let mut s = ClientState::new();
    let busy_req = pack_ready_count(true, 2);
    assert_eq!(s.poll(0, 0), ClientPoll::Idle);
    assert_eq!(s.poll(busy_req, 0), ClientPoll::Serve { req_ready: true, count: 2 });
    s.launch_started(true);
    assert_eq!(s.poll(busy_req, 0), ClientPoll::Busy);
    assert!(s.pending_launch);
    // The launched closure answered: the bits match again.
    assert_eq!(s.poll(busy_req, pack_ready_count(true, 1)), ClientPoll::Idle);
    assert!(!s.pending_launch);
}

#[test]
fn serve_runs_a_batch_and_answers() {
    let mut chan = ChannelPair::default();
    let h = rec(PropertyPtr::CallMutRetUnit, 8, 3);
    let req_ready = chan.post_record(&h);
    let mut state = ClientState::new();
    let (out, ran) = serve(&mut chan, &mut state);
    assert_eq!(out, ServeOutcome::Served { processed: 1, deferred: false });
    assert_eq!(ran, vec![8, 8, 8]);
    assert!(chan.response_arrived(req_ready));
    assert!(!chan.request_pending());
    assert_eq!(chan.response.primary.header.flags, pack_ready_count(true, 1));
    // Nothing outstanding now.
    assert_eq!(serve(&mut chan, &mut state), (ServeOutcome::Skipped, vec![]));
}

#[test]
fn serve_runs_records_in_slot_order_then_answers_count() {
    let mut chan = ChannelPair::default();
    let recs = [
        rec(PropertyPtr::CallMutOutPtr, 1, 1),
        rec(PropertyPtr::CallMutRetUnit, 2, 2),
        rec(PropertyPtr::CallMutArgsOutPtr, 3, 1),
    ];
    for (i, r) in recs.iter().enumerate() {
        chan.request.write_at(8 + 40 * i, &r.to_bytes());
    }
    chan.request.primary.header.flags = pack_ready_count(true, 3);
    let mut state = ClientState::new();
    let plan = plan_batch(&chan, &mut state);
    assert_eq!(plan.runs, recs.to_vec());
    assert!(chan.request_pending());
    let (out, ran) = serve(&mut chan, &mut ClientState::new());
    assert_eq!(out, ServeOutcome::Served { processed: 3, deferred: false });
    assert_eq!(ran, vec![1, 2, 2, 3]);
    assert_eq!(chan.response.primary.header.flags, pack_ready_count(true, 3));
}

#[test]
fn serve_defers_launch_and_stops_on_terminate() {
    let mut chan = ChannelPair::default();
    chan.post_record(&rec(PropertyPtr::Launch, 1, 1));
    let mut state = ClientState::new();
    let (out, ran) = serve(&mut chan, &mut state);
    assert_eq!(out, ServeOutcome::Served { processed: 1, deferred: true });
    assert_eq!(ran, vec![1]);
    assert!(chan.request_pending());
    assert!(state.pending_launch);
    assert_eq!(serve(&mut chan, &mut state).0, ServeOutcome::Skipped);

    let mut chan2 = ChannelPair::default();
    chan2.request.write_at(8, &rec(PropertyPtr::CallMutOutPtr, 5, 1).to_bytes());
    chan2.request.write_at(48, &RequestRecordHeader::terminate().to_bytes());
    chan2.request.write_at(88, &rec(PropertyPtr::CallMutOutPtr, 6, 1).to_bytes());
    chan2.request.primary.header.flags = pack_ready_count(true, 3);
    let mut s2 = ClientState::new();
    assert_eq!(serve(&mut chan2, &mut s2), (ServeOutcome::Stopped, vec![5]));
    assert!(chan2.request_pending());

    let mut chan3 = ChannelPair::default();
    let rr = chan3.post_record(&rec(PropertyPtr::IntoInner, 7, 1));
    let mut s3 = ClientState::new();
    assert_eq!(serve(&mut chan3, &mut s3), (ServeOutcome::Finished, vec![7]));
    assert!(chan3.response_arrived(rr));
}

#[test]
fn serve_answers_malformed_batch_with_zero() {
    let mut chan = ChannelPair::default();
    let rr = chan.post_record(&rec(PropertyPtr::CallMutOutPtr, 0, 1));
    chan.request.write_at(8 + 16, &[7, 7, 7, 7, 7, 7, 7, 7]);
    let mut state = ClientState::new();
    assert_eq!(serve(&mut chan, &mut state), (ServeOutcome::Malformed, vec![]));
    assert_eq!(chan.response.primary.header.flags, pack_ready_count(rr, 0));
}

#[test]
fn worker_state_rounds() {
    let mut w = WorkerState::new();
    assert!(w.begin_round(true));
    assert!(!w.begin_round(false));
    for _ in 0..13 {
        w.begin_round(false);
    }
    assert_eq!(w.loop_counter, 15);
    assert!(w.begin_round(false));
    assert_eq!(w.visit(2, 3), 2);
    w.served(2, 3);
    assert_eq!(w.start_idx, 0);
    w.served(0, 3);
    assert_eq!(w.visit(2, 3), 0);
    for k in 0..8u32 {
        assert_eq!(w.end_round(false), Some(IdleAction::Spin));
        assert_eq!(w.idle_rounds, k + 1);
    }
    assert_eq!(w.end_round(false), Some(IdleAction::Yield));
    assert_eq!(w.idle_rounds, 0);
    assert_eq!(w.idle(), IdleAction::Spin);
    assert_eq!(w.end_round(true), None);
    assert_eq!(w.idle_rounds, 0);
}

#[test]
fn run_counts() {
    assert_eq!(rec(PropertyPtr::CallMutRetUnit, 0, 5).run_count(), 5);
    assert_eq!(rec(PropertyPtr::CallMutRetUnit, 0, 0).run_count(), 0);
    assert_eq!(rec(PropertyPtr::CallMutOutPtr, 0, 5).run_count(), 1);
    assert_eq!(rec(PropertyPtr::IntoInner, 0, 9).run_count(), 1);
}

#[test]
fn queued_operations_are_answered_by_kind() {
    assert_eq!(reply_for(OpKind::Apply, 7, 3), Some(Resp::Empty));
    assert_eq!(reply_for(OpKind::MapU64, 7, 3), Some(Resp::U64(7)));
    assert_eq!(reply_for(OpKind::ApplyBatch, 7, 3), Some(Resp::NoneBatch(3)));
    assert_eq!(reply_for(OpKind::Terminate, 7, 3), None);
}

#[test]
fn inline_answer_only_without_launch_alone() {
    let plan = |runs: Vec<RequestRecordHeader>| BatchPlan {
        outcome: ServeOutcome::Served { processed: runs.len() as u32, deferred: false },
        req_ready: true,
        runs,
    };
    assert!(!plan(vec![]).answers_inline());
    assert!(!plan(vec![rec(PropertyPtr::Launch, 1, 1)]).answers_inline());
    assert!(plan(vec![rec(PropertyPtr::Launch, 1, 1), rec(PropertyPtr::CallMutOutPtr, 2, 1)])
        .answers_inline());
    assert!(plan(vec![rec(PropertyPtr::CallMutRetUnit, 3, 4)]).answers_inline());
}
