//! The resumable consumption loop as an explicit state machine.
//!
//! The machine decides; its driver acts. The driver asks the machine for the
//! current [`Action`], performs it (a query, a log fetch, a lottery, a
//! submission, a sleep) and hands back the [`Outcome`] through
//! [`ConsumptionLoop::advance`]. The machine first reads the processing marker,
//! makes one catch-up pass over the backlog, then polls, processes and sleeps
//! forever. Requests are handled one at a time in delivery order. The marker
//! belongs to the contract: the machine keeps the value it read at start-up,
//! never writes it, and keeps no record of what it has submitted. Every
//! request above that value that a fetch returns is submitted, and the
//! contract's own nonce check decides whether a submission takes effect.
use crate::batcher::in_support;
use crate::lottery::{premium_table, standard_table, TABLE_LEN};
use crate::request::{
    pending_requests, pending_spec, logs_view, requests_view, MintRequest, MintRequestView,
    RawLog, RawLogView,
};
use vstd::prelude::*;

verus! {

/// Seconds slept between two polls, and before retrying a failed call.
pub const POLL_INTERVAL_SECS: u64 = 5;

/// Where the machine stands.
#[derive(Clone, Copy, Debug, PartialEq, Eq, Structural)]
pub enum Phase {
    /// Reading the last processed nonce from the contract.
    ReadingMarker,
    /// Fetching the backlog once, from the earliest block to the latest.
    FetchingBacklog,
    /// Processing the fetched requests one at a time.
    Draining,
    /// Fetching new logs.
    Polling,
    /// Waiting before the next poll.
    Sleeping,
}

/// What the driver is to do next.
#[derive(Debug)]
pub enum Action {
    /// Query the contract's last processed nonce; answer with `Outcome::Marker`.
    QueryMarker,
    /// Fetch the request logs of the whole chain (nonces above `after` are
    /// kept); answer with `Outcome::Logs`.
    FetchBacklog { after: u64 },
    /// Fetch the new request logs; answer with `Outcome::Logs`.
    FetchNew,
    /// Draw the item list of this request; answer with `Outcome::Drawn`.
    Draw(MintRequest),
    /// Submit the mint of these items for this request; answer with
    /// `Outcome::Submitted` or `Outcome::Failed`.
    Submit(MintRequest, Vec<u32>),
    /// Sleep this many seconds; answer with `Outcome::Woke`.
    Sleep(u64),
}

/// What came of the last action.
#[derive(Debug)]
pub enum Outcome {
    Marker(u64),
    Logs(Vec<RawLog>),
    Drawn(Vec<u32>),
    Submitted,
    Woke,
    /// The call failed on the transport; it is retried after a sleep.
    Failed,
}

pub ghost enum ActionView {
    QueryMarker,
    FetchBacklog { after: u64 },
    FetchNew,
    Draw(MintRequestView),
    Submit(MintRequestView, Seq<u32>),
    Sleep(u64),
}

pub ghost enum OutcomeView {
    Marker(u64),
    Logs(Seq<RawLogView>),
    Drawn(Seq<u32>),
    Submitted,
    Woke,
    Failed,
}

impl View for Action {
    type V = ActionView;

    open spec fn view(&self) -> ActionView {
        match self {
            Action::QueryMarker => ActionView::QueryMarker,
            Action::FetchBacklog { after } => ActionView::FetchBacklog { after: *after },
            Action::FetchNew => ActionView::FetchNew,
            Action::Draw(req) => ActionView::Draw(req@),
            Action::Submit(req, items) => ActionView::Submit(req@, items@),
            Action::Sleep(secs) => ActionView::Sleep(*secs),
        }
    }
}

impl View for Outcome {
    type V = OutcomeView;

    open spec fn view(&self) -> OutcomeView {
        match self {
            Outcome::Marker(m) => OutcomeView::Marker(*m),
            Outcome::Logs(logs) => OutcomeView::Logs(logs_view(logs@)),
            Outcome::Drawn(items) => OutcomeView::Drawn(items@),
            Outcome::Submitted => OutcomeView::Submitted,
            Outcome::Woke => OutcomeView::Woke,
            Outcome::Failed => OutcomeView::Failed,
        }
    }
}

/// The state of the loop.
pub struct ConsumptionLoop {
    pub phase: Phase,
    /// The requests being processed came from a steady-state poll rather than
    /// from the catch-up pass.
    pub steady: bool,
    /// The contract's last processed nonce, as read at start-up.
    pub marker: u64,
    /// Requests of the current batch, in delivery order.
    pub queue: Vec<MintRequest>,
    /// Position in `queue` of the request being processed.
    pub next: usize,
    /// Item list drawn for the request being processed, kept across retries.
    pub items: Option<Vec<u32>>,
    /// The last call failed; sleep before trying it again.
    pub backoff: bool,
}

pub ghost struct LoopView {
    pub phase: Phase,
    pub steady: bool,
    pub marker: u64,
    pub queue: Seq<MintRequestView>,
    pub next: int,
    pub items: Option<Seq<u32>>,
    pub backoff: bool,
}

impl View for ConsumptionLoop {
    type V = LoopView;

    open spec fn view(&self) -> LoopView {
        LoopView {
            phase: self.phase,
            steady: self.steady,
            marker: self.marker,
            queue: requests_view(self.queue@),
            next: self.next as int,
            items: match self.items {
                Some(v) => Some(v@),
                None => None,
            },
            backoff: self.backoff,
        }
    }
}

/// An item list fit for `req`: one identifier per unit, each one that the
/// request's table can give.
pub open spec fn valid_items(req: MintRequestView, items: Seq<u32>) -> bool {
    items.len() == req.quantity && forall|i: int|
        0 <= i < items.len() ==> in_support(req.premium, #[trigger] items[i])
}

/// The state of a freshly started loop.
pub open spec fn initial_spec() -> LoopView {
    LoopView {
        phase: Phase::ReadingMarker,
        steady: false,
        marker: 0,
        queue: Seq::empty(),
        next: 0,
        items: None,
        backoff: false,
    }
}

/// A consistent state.
pub open spec fn wf_spec(s: LoopView) -> bool {
    &&& 0 <= s.next <= s.queue.len()
    &&& s.phase == Phase::Draining ==> s.next < s.queue.len()
    &&& s.items matches Some(items) ==> s.phase == Phase::Draining && valid_items(
        s.queue[s.next],
        items,
    )
}

/// The phase that follows a finished batch: a catch-up batch leads to the
/// first poll, a steady-state batch to a sleep.
pub open spec fn after_batch(steady: bool) -> Phase {
    if steady {
        Phase::Sleeping
    } else {
        Phase::Polling
    }
}

/// What the driver is to do in state `s`.
pub open spec fn action_spec(s: LoopView) -> ActionView {
    if s.backoff {
        ActionView::Sleep(POLL_INTERVAL_SECS)
    } else {
        match s.phase {
            Phase::ReadingMarker => ActionView::QueryMarker,
            Phase::FetchingBacklog => ActionView::FetchBacklog { after: s.marker },
            Phase::Draining => match s.items {
                None => ActionView::Draw(s.queue[s.next]),
                Some(items) => ActionView::Submit(s.queue[s.next], items),
            },
            Phase::Polling => ActionView::FetchNew,
            Phase::Sleeping => ActionView::Sleep(POLL_INTERVAL_SECS),
        }
    }
}

/// The state after a batch of logs arrives in state `s`.
pub open spec fn receive_spec(s: LoopView, logs: Seq<RawLogView>) -> LoopView {
    let steady = s.phase == Phase::Polling;
    let queue = pending_spec(s.marker, logs);
    LoopView {
        phase: if queue.len() == 0 {
            after_batch(steady)
        } else {
            Phase::Draining
        },
        steady,
        queue,
        next: 0,
        items: None,
        ..s
    }
}

/// The state after the submission for the current request was accepted: the
/// next request of the batch is taken up; nothing else changes.
pub open spec fn submitted_spec(s: LoopView) -> LoopView {
    LoopView {
        phase: if s.next + 1 == s.queue.len() {
            after_batch(s.steady)
        } else {
            Phase::Draining
        },
        next: s.next + 1,
        items: None,
        ..s
    }
}

/// The state that follows `s` on outcome `o`. An outcome that does not answer
/// the current action leaves the state as it is.
pub open spec fn step_spec(s: LoopView, o: OutcomeView) -> LoopView {
    match o {
        OutcomeView::Failed => LoopView { backoff: true, ..s },
        OutcomeView::Woke => if s.backoff {
            LoopView { backoff: false, ..s }
        } else if s.phase == Phase::Sleeping {
            LoopView { phase: Phase::Polling, ..s }
        } else {
            s
        },
        OutcomeView::Marker(m) => if !s.backoff && s.phase == Phase::ReadingMarker {
            LoopView { phase: Phase::FetchingBacklog, marker: m, ..s }
        } else {
            s
        },
        OutcomeView::Logs(logs) => if !s.backoff && (s.phase == Phase::FetchingBacklog || s.phase
            == Phase::Polling) {
            receive_spec(s, logs)
        } else {
            s
        },
        OutcomeView::Drawn(items) => if !s.backoff && s.phase == Phase::Draining && s.items is None
            && valid_items(s.queue[s.next], items) {
            LoopView { items: Some(items), ..s }
        } else {
            s
        },
        OutcomeView::Submitted => if !s.backoff && s.phase == Phase::Draining && s.items is Some {
            submitted_spec(s)
        } else {
            s
        },
    }
}

/// Whether `items` is a fit item list for `req`.
pub fn check_items(req: &MintRequest, items: &Vec<u32>) -> (r: bool)
    ensures
        r == valid_items(req@, items@),
{
    if items.len() as u64 != req.quantity {
        return false;
    }
    let table = if req.premium {
        premium_table()
    } else {
        standard_table()
    };
    let mut i: usize = 0;
    while i < items.len()
        invariant
            0 <= i <= items@.len(),
            table@ == crate::lottery::table_for(req.premium),
            forall|j: int| 0 <= j < i ==> in_support(req.premium, #[trigger] items@[j]),
        decreases items@.len() - i,
    {
        let id = items[i];
        if id < 1 || id as usize > TABLE_LEN || table[(id - 1) as usize] == 0 {
            assert(!in_support(req.premium, items@[i as int]));
            return false;
        }
        i = i + 1;
    }
    true
}

/// After a start (or a restart after a crash) with the contract's marker at
/// `m`, the catch-up pass over `logs` queues exactly the pending requests of
/// `logs` above `m`, in delivery order, and starts with the first of them; a
/// replayed pass with the marker still at `m` queues the same requests.
pub proof fn lemma_restart_catch_up(m: u64, logs: Seq<RawLogView>)
    ensures
        ({
            let s = step_spec(
                step_spec(initial_spec(), OutcomeView::Marker(m)),
                OutcomeView::Logs(logs),
            );
            &&& wf_spec(s)
            &&& s.queue == pending_spec(m, logs)
            &&& s.next == 0
            &&& s.marker == m
            &&& !s.steady
            &&& s.queue.len() > 0 ==> action_spec(s) == ActionView::Draw(s.queue[0])
            &&& s.queue.len() == 0 ==> action_spec(s) == ActionView::FetchNew
        }),
{
}

/// A steady-state poll queues every request of the fetched logs that decodes
/// and lies above the marker read at start-up, in delivery order, whatever
/// was submitted before.
pub proof fn lemma_steady_batch(s: LoopView, logs: Seq<RawLogView>)
    requires
        wf_spec(s),
        s.phase == Phase::Polling,
        !s.backoff,
    ensures
        ({
            let t = step_spec(s, OutcomeView::Logs(logs));
            &&& wf_spec(t)
            &&& t.queue == pending_spec(s.marker, logs)
            &&& t.next == 0
            &&& t.marker == s.marker
            &&& t.steady
        }),
{
}

/// The marker is written only when it is read from the contract at start-up;
/// no other outcome, an accepted submission included, changes it.
pub proof fn lemma_marker_only_read(s: LoopView, o: OutcomeView)
    requires
        s.phase != Phase::ReadingMarker || !(o is Marker),
    ensures
        step_spec(s, o).marker == s.marker,
{
}

/// While a batch is processed, the queue and the marker stay as they are, and
/// the position in the queue moves only when a submission of the current
/// request is accepted, and then by exactly one: no request of the batch is
/// skipped or submitted twice.
pub proof fn lemma_batch_processed_in_order_once(s: LoopView, o: OutcomeView)
    requires
        wf_spec(s),
        s.phase == Phase::Draining,
    ensures
        step_spec(s, o).queue == s.queue,
        step_spec(s, o).marker == s.marker,
        step_spec(s, o).next == s.next || (step_spec(s, o).next == s.next + 1
            && o == OutcomeView::Submitted && (action_spec(s) matches ActionView::Submit(req, _)
            && req == s.queue[s.next])),
        wf_spec(step_spec(s, o)),
{
}

fn copy_items(items: &Vec<u32>) -> (r: Vec<u32>)
    ensures
        r@ == items@,
{
    let mut out: Vec<u32> = Vec::new();
    let mut i: usize = 0;
    while i < items.len()
        invariant
            0 <= i <= items@.len(),
            out@ == items@.take(i as int),
        decreases items@.len() - i,
    {
        out.push(items[i]);
        assert(out@ =~= items@.take(i as int + 1));
        i = i + 1;
    }
    assert(items@.take(items@.len() as int) =~= items@);
    out
}

impl ConsumptionLoop {
    pub open spec fn wf(&self) -> bool {
        wf_spec(self@)
    }

    /// A loop that has not yet read the marker.
    pub fn new() -> (r: ConsumptionLoop)
        ensures
            r@ == initial_spec(),
            r.wf(),
    {
        let r = ConsumptionLoop {
            phase: Phase::ReadingMarker,
            steady: false,
            marker: 0,
            queue: Vec::new(),
            next: 0,
            items: None,
            backoff: false,
        };
        assert(r@.queue =~= Seq::<MintRequestView>::empty());
        r
    }

    /// What the driver is to do now.
    pub fn action(&self) -> (r: Action)
        requires
            self.wf(),
        ensures
            r@ == action_spec(self@),
    {
        if self.backoff {
            return Action::Sleep(POLL_INTERVAL_SECS);
        }
        match self.phase {
            Phase::ReadingMarker => Action::QueryMarker,
            Phase::FetchingBacklog => Action::FetchBacklog { after: self.marker },
            Phase::Draining => {
                let req = self.queue[self.next];
                match &self.items {
                    None => Action::Draw(req),
                    Some(items) => Action::Submit(req, copy_items(items)),
                }
            },
            Phase::Polling => Action::FetchNew,
            Phase::Sleeping => Action::Sleep(POLL_INTERVAL_SECS),
        }
    }

    /// Takes in the outcome of the last action.
    pub fn advance(&mut self, outcome: Outcome)
        requires
            old(self).wf(),
        ensures
            final(self).wf(),
            final(self)@ == step_spec(old(self)@, outcome@),
    {
        match outcome {
            Outcome::Failed => {
                self.backoff = true;
            },
            Outcome::Woke => {
                if self.backoff {
                    self.backoff = false;
                } else if self.phase == Phase::Sleeping {
                    self.phase = Phase::Polling;
                }
            },
            Outcome::Marker(m) => {
                if !self.backoff && self.phase == Phase::ReadingMarker {
                    self.phase = Phase::FetchingBacklog;
                    self.marker = m;
                }
            },
            Outcome::Logs(logs) => {
                if !self.backoff && (self.phase == Phase::FetchingBacklog || self.phase
                    == Phase::Polling) {
                    let steady = self.phase == Phase::Polling;
                    let queue = pending_requests(self.marker, &logs);
                    self.phase = if queue.len() == 0 {
                        if steady {
                            Phase::Sleeping
                        } else {
                            Phase::Polling
                        }
                    } else {
                        Phase::Draining
                    };
                    self.steady = steady;
                    self.queue = queue;
                    self.next = 0;
                    self.items = None;
                }
            },
            Outcome::Drawn(items) => {
                if !self.backoff && self.phase == Phase::Draining && self.items.is_none() {
                    if check_items(&self.queue[self.next], &items) {
                        self.items = Some(items);
                    }
                }
            },
            Outcome::Submitted => {
                if !self.backoff && self.phase == Phase::Draining && self.items.is_some() {
                    let len = self.queue.len();
                    assert(self@.queue.len() == len);
                    self.next = self.next + 1;
                    self.items = None;
                    if self.next == len {
                        self.phase = if self.steady {
                            Phase::Sleeping
                        } else {
                            Phase::Polling
                        };
                    }
                }
            },
        }
    }
}

} // verus!
