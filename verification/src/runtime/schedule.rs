//! The trustee's decisions: which clients to look at and in what order, when
//! to poll for new registrations, how to idle, and how to serve one client's
//! batch of records over its channel.

use vstd::prelude::*;
use crate::runtime::channel::MAX_RECORDS;
use crate::runtime::slots::{ChannelPair, PropertyPtr, RequestRecordHeader};
use crate::runtime::slots::header::{count, packed_word, ready, word_count, word_ready};

verus! {

/// Most registrations taken from the registration queue in one round.
pub const DRAIN_LIMIT: usize = 256;

/// While clients are present, registrations are polled every this many rounds.
pub const DRAIN_PERIOD: usize = 16;

/// Idle rounds spent spinning before the trustee yields.
pub const IDLE_SPIN_ROUNDS: u32 = 8;

/// The default cap on how many operations the trustee takes from one
/// client's queue per round.
pub const DEFAULT_BURST: usize = 64;

/// Whether the trustee polls for registrations this round: always while it
/// has no clients, otherwise every `DRAIN_PERIOD` rounds.
pub fn should_drain(no_clients: bool, loop_counter: usize) -> (r: bool)
    ensures
        r == (no_clients || loop_counter % DRAIN_PERIOD == 0),
{
    no_clients || loop_counter % DRAIN_PERIOD == 0
}

/// What an idle trustee does this round.
#[derive(Clone, Copy, Debug, PartialEq, Eq, Structural)]
pub enum IdleAction {
    /// Spin once.
    Spin,
    /// Yield to the scheduler.
    Yield,
}

/// One idle round: spin while fewer than `IDLE_SPIN_ROUNDS` idle rounds have
/// passed, counting it; otherwise yield and start counting again.
pub open spec fn idle_result(idle_rounds: u32) -> (IdleAction, u32) {
    if idle_rounds < IDLE_SPIN_ROUNDS {
        (IdleAction::Spin, (idle_rounds + 1) as u32)
    } else {
        (IdleAction::Yield, 0u32)
    }
}

/// One idle round: the action and the new idle count, as `idle_result` says.
pub fn idle_step(idle_rounds: u32) -> (r: (IdleAction, u32))
    ensures
        r == idle_result(idle_rounds),
{
    if idle_rounds < IDLE_SPIN_ROUNDS {
        (IdleAction::Spin, idle_rounds + 1)
    } else {
        (IdleAction::Yield, 0)
    }
}

/// The client visited at step `offs` of a round that starts at `start_idx`
/// among `n` clients, wrapping with one subtraction.
pub fn round_robin_index(start_idx: usize, offs: usize, n: usize) -> (idx: usize)
    requires
        start_idx < n,
        offs < n,
        start_idx + offs <= usize::MAX,
    ensures
        idx == (start_idx + offs) % (n as int),
        idx < n,
{
    let mut idx = start_idx + offs;
    if idx >= n {
        idx = idx - n;
        proof {
            vstd::arithmetic::div_mod::lemma_small_mod(idx as nat, n as nat);
            vstd::arithmetic::div_mod::lemma_mod_multiples_vanish(1, idx as int, n as int);
        }
    } else {
        proof {
            vstd::arithmetic::div_mod::lemma_small_mod(idx as nat, n as nat);
        }
    }
    idx
}

/// Where the next round starts after the client at `idx` made progress.
pub fn next_start(idx: usize, n: usize) -> (s: usize)
    requires
        idx < n,
    ensures
        s == (idx + 1) % (n as int),
        s < n,
{
    (idx + 1) % n
}

/// The client visited at step `offs` of a round that starts at `start_idx`.
pub open spec fn visit(start_idx: int, offs: int, n: int) -> int {
    (start_idx + offs) % n
}

/// The trustee loop's own counters: where the next round starts, how many
/// idle rounds have passed, and how many rounds have run (wrapping).
#[derive(Clone, Copy, Debug, PartialEq, Eq, Structural)]
pub struct WorkerState {
    pub start_idx: usize,
    pub idle_rounds: u32,
    pub loop_counter: usize,
}

impl WorkerState {
    /// A trustee that has not run a round yet.
    pub fn new() -> (w: Self)
        ensures
            w == (WorkerState { start_idx: 0, idle_rounds: 0, loop_counter: 0 }),
    {
        WorkerState { start_idx: 0, idle_rounds: 0, loop_counter: 0 }
    }

    /// Starts a round: counts it and says whether to poll for registrations.
    pub fn begin_round(&mut self, no_clients: bool) -> (drain: bool)
        ensures
            final(self).loop_counter == old(self).loop_counter.wrapping_add(1),
            final(self).loop_counter == wrapped_counter(old(self).loop_counter, 1),
            final(self).start_idx == old(self).start_idx,
            final(self).idle_rounds == old(self).idle_rounds,
            drain == (no_clients || final(self).loop_counter % DRAIN_PERIOD == 0),
    {
        let ghost c = self.loop_counter;
        self.loop_counter = self.loop_counter.wrapping_add(1);
        proof {
            let m = usize::MAX as int + 1;
            if c + 1 > usize::MAX {
                vstd::arithmetic::div_mod::lemma_mod_self_0(m);
                assert(c + 1 == m);
            } else {
                vstd::arithmetic::div_mod::lemma_small_mod((c + 1) as nat, m as nat);
            }
        }
        should_drain(no_clients, self.loop_counter)
    }

    /// An idle round: returns what to do and counts it.
    pub fn idle(&mut self) -> (a: IdleAction)
        ensures
            (a, final(self).idle_rounds) == idle_result(old(self).idle_rounds),
            final(self).start_idx == old(self).start_idx,
            final(self).loop_counter == old(self).loop_counter,
    {
        let (a, rounds) = idle_step(self.idle_rounds);
        self.idle_rounds = rounds;
        a
    }

    /// The client visited at step `offs` of this round among `n` clients.
    pub fn visit(&self, offs: usize, n: usize) -> (idx: usize)
        requires
            self.start_idx < n,
            offs < n,
            self.start_idx + offs <= usize::MAX,
        ensures
            idx == visit(self.start_idx as int, offs as int, n as int),
            idx < n,
    {
        round_robin_index(self.start_idx, offs, n)
    }

    /// The client at `idx` among `n` made progress: the next round starts after it.
    pub fn served(&mut self, idx: usize, n: usize)
        requires
            idx < n,
        ensures
            final(self).start_idx == (idx + 1) % (n as int),
            final(self).start_idx < n,
            final(self).idle_rounds == old(self).idle_rounds,
            final(self).loop_counter == old(self).loop_counter,
    {
        self.start_idx = next_start(idx, n);
    }

    /// Ends a round: after progress the idle count starts again; otherwise
    /// the round was idle and the idle action is returned.
    pub fn end_round(&mut self, progressed: bool) -> (a: Option<IdleAction>)
        ensures
            progressed ==> a is None && final(self).idle_rounds == 0,
            !progressed ==> a is Some && (a->0, final(self).idle_rounds) == idle_result(old(self).idle_rounds),
            final(self).start_idx == old(self).start_idx,
            final(self).loop_counter == old(self).loop_counter,
    {
        if progressed {
            self.idle_rounds = 0;
            None
        } else {
            Some(self.idle())
        }
    }
}

/// The step of a round starting at `start_idx` at which client `i` is visited.
pub open spec fn step_of(start_idx: int, i: int, n: int) -> int {
    if i >= start_idx { i - start_idx } else { i + n - start_idx }
}

/// A round visits every client exactly once: the steps `0..n` map onto the
/// clients `0..n` one to one.
pub proof fn lemma_round_robin_covers(start_idx: int, n: int)
    requires
        0 <= start_idx < n,
    ensures
        forall|i: int| 0 <= i < n ==> 0 <= #[trigger] step_of(start_idx, i, n) < n && visit(start_idx, step_of(start_idx, i, n), n) == i,
        forall|a: int, b: int|
            0 <= a < n && 0 <= b < n && #[trigger] visit(start_idx, a, n) == #[trigger] visit(start_idx, b, n) ==> a == b,
{
    assert forall|i: int| 0 <= i < n implies 0 <= #[trigger] step_of(start_idx, i, n) < n && visit(start_idx, step_of(start_idx, i, n), n) == i by {
        let offs = step_of(start_idx, i, n);
        if i >= start_idx {
            vstd::arithmetic::div_mod::lemma_small_mod(i as nat, n as nat);
        } else {
            vstd::arithmetic::div_mod::lemma_small_mod(i as nat, n as nat);
            vstd::arithmetic::div_mod::lemma_mod_multiples_vanish(1, i, n);
            assert(n * 1 + i == i + n);
        }
        assert(visit(start_idx, offs, n) == i);
    }
    assert forall|a: int, b: int|
        0 <= a < n && 0 <= b < n && #[trigger] visit(start_idx, a, n) == #[trigger] visit(start_idx, b, n) implies a == b by {
        let x = start_idx + a;
        let y = start_idx + b;
        vstd::arithmetic::div_mod::lemma_fundamental_div_mod(x, n);
        vstd::arithmetic::div_mod::lemma_fundamental_div_mod(y, n);
        vstd::arithmetic::div_mod::lemma_mod_bound(x, n);
        vstd::arithmetic::div_mod::lemma_mod_bound(y, n);
        let qa = x / n;
        let qb = y / n;
        assert(0 <= qa < 2 && 0 <= qb < 2) by (nonlinear_arith)
            requires
                x == n * qa + x % n,
                y == n * qb + y % n,
                0 <= x % n < n,
                0 <= y % n < n,
                0 <= x < 2 * n,
                0 <= y < 2 * n,
                n > 0,
        ;
        if qa != qb {
            assert(false) by (nonlinear_arith)
                requires
                    x == n * qa + x % n,
                    y == n * qb + y % n,
                    x % n == y % n,
                    qa != qb,
                    -n < x - y < n,
                    0 <= qa < 2,
                    0 <= qb < 2,
            ;
        }
    }
}

/// The number of operations taken from a queue of `pending` with cap `burst`.
pub open spec fn burst_size(burst: usize, pending: usize) -> usize {
    if pending == 0 {
        0
    } else if burst < pending {
        burst
    } else {
        pending
    }
}

/// A client with pending operations makes progress every round: with a
/// positive burst, at least one of its operations is taken, and never more
/// than are pending or than the burst.
pub proof fn lemma_burst_progress(burst: usize, pending: usize)
    requires
        burst >= 1,
        pending >= 1,
    ensures
        1 <= burst_size(burst, pending) <= pending,
        burst_size(burst, pending) <= burst,
{
}

/// The number taken from a queue is the smaller of the burst and the queue's
/// length, for every burst and length: it is at most each of them and equal
/// to one of them (0 for an empty queue).
pub proof fn lemma_burst_is_min(burst: usize, pending: usize)
    ensures
        burst_size(burst, pending) <= burst,
        burst_size(burst, pending) <= pending,
        burst_size(burst, pending) == burst || burst_size(burst, pending) == pending,
{
}

/// The operations left in a client's queue of `pending` after `rounds`
/// rounds, each taking `burst_size` of them (with none arriving meanwhile).
pub open spec fn left_after(burst: usize, pending: usize, rounds: nat) -> usize
    decreases rounds,
{
    if rounds == 0 {
        pending
    } else {
        left_after(burst, (pending - burst_size(burst, pending)) as usize, (rounds - 1) as nat)
    }
}

/// Every queued operation is taken: since a round visits every client once
/// and takes at least one operation of each client that has some, a queue
/// of `pending` operations is empty after `pending` rounds, with any
/// positive burst.
pub proof fn lemma_queue_empties(burst: usize, pending: usize, rounds: nat)
    requires
        burst >= 1,
        rounds >= pending,
    ensures
        left_after(burst, pending, rounds) == 0,
    decreases rounds,
{
    if rounds > 0 {
        if pending > 0 {
            lemma_burst_progress(burst, pending);
        }
        lemma_queue_empties(burst, (pending - burst_size(burst, pending)) as usize, (rounds - 1) as nat);
    }
}

/// A new registration is taken within `DRAIN_PERIOD` rounds: of the counters
/// that the next `DRAIN_PERIOD` calls of `begin_round` produce from `c`, one
/// polls for registrations even while clients are present.
pub proof fn lemma_drain_within_period(c: usize)
    ensures
        exists|k: int| 1 <= k <= DRAIN_PERIOD && #[trigger] (wrapped_counter(c, k) % (DRAIN_PERIOD as int)) == 0,
{
    let k = DRAIN_PERIOD - c % DRAIN_PERIOD;
    assert(usize::MAX == 0xffff_ffff || usize::MAX == 0xffff_ffff_ffff_ffff);
    assert((c + k) % 16 == 0);
    let m = usize::MAX as int + 1;
    if c + k > usize::MAX {
        let x = c + k - m;
        assert(x % 16 == 0);
        vstd::arithmetic::div_mod::lemma_mod_multiples_vanish(1, x, m);
        vstd::arithmetic::div_mod::lemma_small_mod(x as nat, m as nat);
        assert(m * 1 + x == c + k);
    } else {
        vstd::arithmetic::div_mod::lemma_small_mod((c + k) as nat, m as nat);
    }
    assert(wrapped_counter(c, k as int) % (DRAIN_PERIOD as int) == 0);
}

/// The loop counter after `k` more rounds from `c`, wrapping.
pub open spec fn wrapped_counter(c: usize, k: int) -> int {
    (c + k) % (usize::MAX as int + 1)
}

/// How many operations the trustee takes from a client's queue this round:
/// none when the queue is empty, else the queue length capped by `burst`.
pub fn local_burst(burst: usize, pending: usize) -> (r: usize)
    ensures
        r == burst_size(burst, pending),
{
    if pending == 0 {
        0
    } else if burst < pending {
        burst
    } else {
        pending
    }
}

/// Whether a client may run its closure directly instead of sending it: it
/// runs on the trustee's own thread (a published, nonzero id) and the
/// property's address has been published.
pub fn use_local_shortcut(trustee_id: usize, current_id: usize, property_published: bool) -> (r: bool)
    ensures
        r == (trustee_id != 0 && trustee_id == current_id && property_published),
{
    trustee_id != 0 && trustee_id == current_id && property_published
}

/// A client's launch in flight: a launched closure runs on its own fiber
/// and answers later, so the client is skipped until it is done.
#[derive(Clone, Copy, Debug, PartialEq, Eq, Structural)]
pub struct ClientState {
    /// A launched closure has not answered yet.
    pub pending_launch: bool,
    /// The request's ready bit when the launch began.
    pub launch_req_ready: bool,
}

/// What the trustee finds when it looks at a client.
#[derive(Clone, Copy, Debug, PartialEq, Eq, Structural)]
pub enum ClientPoll {
    /// A launched closure is still running; leave the client alone.
    Busy,
    /// Nothing outstanding.
    Idle,
    /// A batch of `count` records is outstanding under ready bit `req_ready`.
    Serve { req_ready: bool, count: u32 },
}

/// What looking at a client with header words `req_word` and `resp_word`
/// yields, and the client's state afterwards. A launch is over when the
/// ready bits match again, or when the client has flipped its request bit
/// since the launch began.
pub open spec fn poll_result(s: ClientState, req_word: u32, resp_word: u32) -> (ClientState, ClientPoll) {
    let rr = word_ready(req_word);
    let sr = word_ready(resp_word);
    if s.pending_launch && rr != sr && rr == s.launch_req_ready {
        (s, ClientPoll::Busy)
    } else {
        let s2 = ClientState { pending_launch: false, launch_req_ready: s.launch_req_ready };
        if rr == sr {
            (s2, ClientPoll::Idle)
        } else {
            (s2, ClientPoll::Serve { req_ready: rr, count: word_count(req_word) })
        }
    }
}

impl ClientState {
    /// A client with no launch in flight.
    pub fn new() -> (s: Self)
        ensures
            !s.pending_launch,
            !s.launch_req_ready,
    {
        ClientState { pending_launch: false, launch_req_ready: false }
    }

    /// Looks at a client whose request and response header words are
    /// `req_word` and `resp_word`.
    pub fn poll(&mut self, req_word: u32, resp_word: u32) -> (p: ClientPoll)
        ensures
            (*final(self), p) == poll_result(*old(self), req_word, resp_word),
    {
        let req_ready = ready(req_word);
        let resp_ready = ready(resp_word);
        if self.pending_launch {
            if req_ready == resp_ready {
                self.pending_launch = false;
            } else if req_ready != self.launch_req_ready {
                self.pending_launch = false;
            } else {
                return ClientPoll::Busy;
            }
        }
        if req_ready == resp_ready {
            return ClientPoll::Idle;
        }
        ClientPoll::Serve { req_ready, count: count(req_word) }
    }

    /// Notes that a closure of the batch under `req_ready` was launched.
    pub fn launch_started(&mut self, req_ready: bool)
        ensures
            final(self).pending_launch,
            final(self).launch_req_ready == req_ready,
    {
        self.pending_launch = true;
        self.launch_req_ready = req_ready;
    }
}

/// A waiting request is served within one round: a round from any start
/// visits client `c` at step `step_of(start_idx, c, n)`, and a client whose
/// request and response ready bits differ, with no launch of its own still
/// running on that request, is found with its batch to serve, which
/// `plan_batch` then serves.
pub proof fn lemma_waiting_request_served_in_round(
    start_idx: int,
    n: int,
    c: int,
    s: ClientState,
    req_word: u32,
    resp_word: u32,
)
    requires
        0 <= start_idx < n,
        0 <= c < n,
        word_ready(req_word) != word_ready(resp_word),
        !s.pending_launch || word_ready(req_word) != s.launch_req_ready,
    ensures
        0 <= step_of(start_idx, c, n) < n,
        visit(start_idx, step_of(start_idx, c, n), n) == c,
        poll_result(s, req_word, resp_word).1 == (ClientPoll::Serve {
            req_ready: word_ready(req_word),
            count: word_count(req_word),
        }),
{
    lemma_round_robin_covers(start_idx, n);
}

/// What looking at a client gives, case by case. While a launch is pending
/// on the request still outstanding (its ready bit unchanged since the launch
/// and still unanswered), the client is busy and its state stays as it was,
/// whatever that ready bit is. Otherwise the launch is over: the state records
/// none, and the client is idle when the ready bits agree, or has its batch of
/// `count` records to serve under the request's ready bit when they differ.
pub proof fn lemma_poll_cases(s: ClientState, req_word: u32, resp_word: u32)
    ensures
        ({
            let rr = word_ready(req_word);
            let sr = word_ready(resp_word);
            let (s2, p) = poll_result(s, req_word, resp_word);
            &&& (s.pending_launch && rr == s.launch_req_ready && rr != sr) ==> s2 == s
                && p == ClientPoll::Busy
            &&& !(s.pending_launch && rr == s.launch_req_ready && rr != sr) ==> {
                &&& !s2.pending_launch
                &&& s2.launch_req_ready == s.launch_req_ready
                &&& (rr == sr ==> p == ClientPoll::Idle)
                &&& (rr != sr ==> p == (ClientPoll::Serve { req_ready: rr, count: word_count(req_word) }))
            }
        }),
{
}

/// How serving a client ended.
#[derive(Clone, Copy, Debug, PartialEq, Eq, Structural)]
pub enum ServeOutcome {
    /// The client was busy or idle; nothing was done.
    Skipped,
    /// The batch's headers did not decode; it was answered with no records processed.
    Malformed,
    /// The whole batch ran; `deferred` when a launched closure answers later.
    Served { processed: u32, deferred: bool },
    /// A record moved the property out and was answered; the trustee stops.
    Finished,
    /// A record asked the trustee to stop; it was not answered.
    Stopped,
}

/// Kinds of record after which the trustee stops.
pub open spec fn stops(p: PropertyPtr) -> bool {
    p == PropertyPtr::IntoInner || p == PropertyPtr::Terminate
}

/// The first `k` records of the channel's batch decode and none stops the trustee.
pub open spec fn runs_through(chan: ChannelPair, k: int) -> bool {
    forall|j: int| 0 <= j < k ==> (#[trigger] chan.record_at(j)) is Some && !stops(chan.record_at(j)->0.property_ptr)
}

/// The outstanding batch is well formed: its count fits in a slot and every
/// record header decodes.
pub open spec fn batch_ok(chan: ChannelPair) -> bool {
    let n = word_count(chan.request.primary.header.flags);
    n <= MAX_RECORDS && forall|j: int| 0 <= j < n ==> (#[trigger] chan.record_at(j)) is Some
}

/// The record headers of the outstanding batch, in slot order.
pub open spec fn batch_records(chan: ChannelPair) -> Seq<RequestRecordHeader> {
    Seq::new(word_count(chan.request.primary.header.flags) as nat, |j: int| chan.record_at(j)->0)
}

/// How many times the trustee runs the closure of a record: a unit record its
/// repeat count of times, any other record once.
pub open spec fn run_times(h: RequestRecordHeader) -> nat {
    if h.property_ptr == PropertyPtr::CallMutRetUnit {
        h.repeat_count as nat
    } else {
        1
    }
}

/// A unit record runs its closure exactly its repeat count of times, for
/// every repeat count; a record of any other kind runs it exactly once.
pub proof fn lemma_run_times_fields(h: RequestRecordHeader)
    ensures
        h.property_ptr == PropertyPtr::CallMutRetUnit ==> run_times(h) == h.repeat_count as nat,
        h.property_ptr != PropertyPtr::CallMutRetUnit ==> run_times(h) == 1,
{
}

impl RequestRecordHeader {
    /// How many times the trustee runs this record's closure.
    pub fn run_count(&self) -> (n: u32)
        ensures
            n == run_times(*self),
    {
        if self.property_ptr == PropertyPtr::CallMutRetUnit {
            self.repeat_count
        } else {
            1
        }
    }
}

/// What the trustee does with a client this round: how serving ends, the
/// ready bit of the batch, and the records to run, in slot order (each
/// `run_times` times, a launched one on a fiber of its own).
pub struct BatchPlan {
    pub outcome: ServeOutcome,
    pub req_ready: bool,
    pub runs: Vec<RequestRecordHeader>,
}

impl BatchPlan {
    /// Whether the trustee writes the response body itself: some record to
    /// run is not launched on a fiber of its own (a launched closure writes
    /// its own answer when it finishes).
    pub fn answers_inline(&self) -> (b: bool)
        ensures
            b == exists|j: int|
                0 <= j < self.runs@.len() && (#[trigger] self.runs@[j]).property_ptr
                    != PropertyPtr::Launch,
    {
        let mut i: usize = 0;
        while i < self.runs.len()
            invariant
                i <= self.runs@.len(),
                forall|j: int|
                    0 <= j < i ==> (#[trigger] self.runs@[j]).property_ptr == PropertyPtr::Launch,
            decreases self.runs@.len() - i,
        {
            if self.runs[i].property_ptr != PropertyPtr::Launch {
                return true;
            }
            i = i + 1;
        }
        false
    }
}

/// The client's state after a plan: a launch among the records to run is
/// recorded under the batch's ready bit; otherwise the state is as the poll left it.
pub open spec fn state_after_plan(s2: ClientState, runs: Seq<RequestRecordHeader>, rr: bool) -> ClientState {
    if exists|j: int| 0 <= j < runs.len() && (#[trigger] runs[j]).property_ptr == PropertyPtr::Launch {
        ClientState { pending_launch: true, launch_req_ready: rr }
    } else {
        s2
    }
}

/// Plans how to serve one client: looks at it and, if a batch is
/// outstanding, decides which records run before the answer. A well-formed
/// batch is always served: all its records run when none stops the trustee;
/// otherwise the records before the first stopping record run, and that
/// record too when it moves the property out.
pub fn plan_batch(chan: &ChannelPair, state: &mut ClientState) -> (plan: BatchPlan)
    ensures
        ({
            let (s2, p) = poll_result(*old(state), chan.request.primary.header.flags, chan.response.primary.header.flags);
            let n = word_count(chan.request.primary.header.flags) as int;
            let rr = word_ready(chan.request.primary.header.flags);
            let recs = batch_records(*chan);
            &&& (!(p is Serve) ==> plan.outcome == ServeOutcome::Skipped && plan.runs@.len() == 0 && *final(state) == s2)
            &&& (p is Serve ==> plan.req_ready == rr && plan.outcome != ServeOutcome::Skipped)
            &&& (p is Serve && !batch_ok(*chan) ==> plan.outcome == ServeOutcome::Malformed && plan.runs@.len() == 0
                && *final(state) == s2)
            &&& (p is Serve && batch_ok(*chan) ==> plan.outcome != ServeOutcome::Malformed
                && *final(state) == state_after_plan(s2, plan.runs@, rr))
            &&& (plan.outcome matches ServeOutcome::Served { processed, deferred } ==> {
                &&& p is Serve && batch_ok(*chan)
                &&& processed == n
                &&& runs_through(*chan, n)
                &&& plan.runs@ == recs
                &&& deferred == exists|j: int| 0 <= j < n && (#[trigger] recs[j]).property_ptr == PropertyPtr::Launch
            })
            &&& (plan.outcome == ServeOutcome::Finished ==> p is Serve && batch_ok(*chan) && exists|k: int|
                0 <= k < n && runs_through(*chan, k) && (#[trigger] recs[k]).property_ptr == PropertyPtr::IntoInner
                && plan.runs@ == recs.subrange(0, k + 1))
            &&& (plan.outcome == ServeOutcome::Stopped ==> p is Serve && batch_ok(*chan) && exists|k: int|
                0 <= k < n && runs_through(*chan, k) && (#[trigger] recs[k]).property_ptr == PropertyPtr::Terminate
                && plan.runs@ == recs.subrange(0, k))
        }),
{
    let req_word = chan.request.primary.header.flags;
    let resp_word = chan.response.primary.header.flags;
    let (req_ready, n) = match state.poll(req_word, resp_word) {
        ClientPoll::Serve { req_ready, count } => (req_ready, count),
        _ => {
            return BatchPlan { outcome: ServeOutcome::Skipped, req_ready: false, runs: Vec::new() };
        },
    };
    let records = match chan.pending_records() {
        Some(v) => v,
        None => {
            return BatchPlan { outcome: ServeOutcome::Malformed, req_ready, runs: Vec::new() };
        },
    };
    let ghost recs = batch_records(*chan);
    let ghost s2 = *state;
    assert(records@ =~= recs);
    let mut runs: Vec<RequestRecordHeader> = Vec::new();
    let mut deferred = false;
    let mut i: usize = 0;
    while i < records.len()
        invariant
            n == word_count(chan.request.primary.header.flags),
            req_ready == word_ready(chan.request.primary.header.flags),
            (s2, ClientPoll::Serve { req_ready, count: n }) == poll_result(
                *old(state),
                chan.request.primary.header.flags,
                chan.response.primary.header.flags,
            ),
            recs == batch_records(*chan),
            records@ == recs,
            records@.len() == n,
            n <= MAX_RECORDS,
            batch_ok(*chan),
            i <= n,
            runs@ == recs.subrange(0, i as int),
            runs_through(*chan, i as int),
            deferred == exists|j: int| 0 <= j < i && (#[trigger] recs[j]).property_ptr == PropertyPtr::Launch,
            *state == state_after_plan(s2, runs@, req_ready),
        decreases n - i,
    {
        let h = records[i];
        proof {
            assert(chan.record_at(i as int) == Some(h));
        }
        match h.property_ptr {
            PropertyPtr::IntoInner => {
                let ghost before = runs@;
                runs.push(h);
                proof {
                    assert(runs@ =~= recs.subrange(0, i + 1));
                    assert(recs[i as int].property_ptr == PropertyPtr::IntoInner);
                    assert forall|j: int| 0 <= j < runs@.len() && (#[trigger] runs@[j]).property_ptr
                        == PropertyPtr::Launch implies 0 <= j < before.len() && before[j].property_ptr
                        == PropertyPtr::Launch by {
                        if j < before.len() {
                            assert(runs@[j] == before[j]);
                        }
                    }
                    assert forall|j: int| 0 <= j < before.len() && (#[trigger] before[j]).property_ptr
                        == PropertyPtr::Launch implies 0 <= j < runs@.len() && runs@[j].property_ptr
                        == PropertyPtr::Launch by {
                        assert(runs@[j] == before[j]);
                    }
                }
                return BatchPlan { outcome: ServeOutcome::Finished, req_ready, runs };
            },
            PropertyPtr::Terminate => {
                proof {
                    assert(recs[i as int].property_ptr == PropertyPtr::Terminate);
                }
                return BatchPlan { outcome: ServeOutcome::Stopped, req_ready, runs };
            },
            PropertyPtr::Launch => {
                deferred = true;
                state.launch_started(req_ready);
            },
            _ => {},
        }
        runs.push(h);
        i = i + 1;
        proof {
            assert(runs@ =~= recs.subrange(0, i as int));
            assert(runs@[i - 1] == recs[i - 1]);
        }
    }
    proof {
        assert(recs.subrange(0, n as int) =~= recs);
    }
    BatchPlan { outcome: ServeOutcome::Served { processed: n, deferred }, req_ready, runs }
}

/// Answers a client once the records of `plan` have run: a malformed batch
/// with a count of 0, a served batch with its count unless a launched closure
/// answers later, a batch that moved the property out with a count of 1; a
/// skipped client or a stop leaves the channel as it was.
pub fn finish_batch(chan: &mut ChannelPair, plan: &BatchPlan)
    ensures
        final(chan).request == old(chan).request,
        final(chan).response.body() == old(chan).response.body(),
        final(chan).client_lock == old(chan).client_lock,
        plan.outcome == ServeOutcome::Malformed ==> final(chan).response.primary.header.flags
            == packed_word(plan.req_ready, 0),
        plan.outcome matches ServeOutcome::Served { processed, deferred } ==> (!deferred
            ==> final(chan).response.primary.header.flags == packed_word(plan.req_ready, processed)),
        plan.outcome == ServeOutcome::Finished ==> final(chan).response.primary.header.flags == packed_word(
            old(chan).request_ready(),
            1,
        ),
        (plan.outcome == ServeOutcome::Skipped || plan.outcome == ServeOutcome::Stopped
            || plan.outcome matches ServeOutcome::Served { deferred: true, .. }) ==> *final(chan) == *old(chan),
        plan.outcome != ServeOutcome::Skipped && plan.outcome != ServeOutcome::Stopped
            && !(plan.outcome matches ServeOutcome::Served { deferred: true, .. })
            && plan.req_ready == old(chan).request_ready() ==> !final(chan).pending(),
{
    match plan.outcome {
        ServeOutcome::Malformed => chan.respond(plan.req_ready, 0),
        ServeOutcome::Served { processed, deferred } => {
            if !deferred {
                chan.respond(plan.req_ready, processed);
            }
        },
        ServeOutcome::Finished => {
            let now = ready(chan.request.primary.header.flags);
            chan.respond(now, 1);
        },
        _ => {},
    }
}

} // verus!
