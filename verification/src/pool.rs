//! The bounded pool: which operation may start, and when.
//!
//! The pool keeps, for every operation, whether it waits, runs or is over,
//! and the history of the events it has handed out. Operations that run
//! nothing are reported at once, in their order, and never take a slot.
//! Operations that run a process start in their order while fewer than
//! `cap` are running.

use crate::executor::{
    finished, finished_event, launch_views, EventView, Launch, LaunchView, Outcome, OutcomeView,
    ProcessSpec, TaskEvent,
};
use crate::tui::laws::{in_bounds, starts_before_ends};
use vstd::prelude::*;

verus! {

// ---------------------------------------------------------------------------
// The pool as contracts see it
// ---------------------------------------------------------------------------

/// Where an operation stands.
#[derive(Clone, Copy, Debug, PartialEq, Eq, Structural)]
pub enum Phase {
    Waiting,
    Running,
    Over,
}

/// What the caller is to do next.
#[derive(Debug, Clone, PartialEq)]
pub enum Step {
    /// Emit this event; it reports an operation that runs nothing.
    Emit(TaskEvent),
    /// Emit `Started` for this operation and start its process.
    Start { index: usize },
    /// Nothing can be done until a running process is reported as over.
    Wait,
    /// Every operation is over.
    Done,
}

/// A step as contracts see it.
pub enum StepView {
    Emit(EventView),
    Start { index: usize },
    Wait,
    Done,
}

impl View for Step {
    type V = StepView;

    open spec fn view(&self) -> StepView {
        match self {
            Step::Emit(e) => StepView::Emit(e@),
            Step::Start { index } => StepView::Start { index: *index },
            Step::Wait => StepView::Wait,
            Step::Done => StepView::Done,
        }
    }
}

/// The events of `history` that are about the operation at `i`, in order.
pub open spec fn trail(history: Seq<EventView>, i: int) -> Seq<EventView>
    decreases history.len(),
{
    if history.len() == 0 {
        Seq::empty()
    } else if history.last().index() == i {
        trail(history.drop_last(), i).push(history.last())
    } else {
        trail(history.drop_last(), i)
    }
}

/// How many operations `history` reports as started and not yet as
/// finished.
pub open spec fn outstanding(history: Seq<EventView>) -> int
    decreases history.len(),
{
    if history.len() == 0 {
        0
    } else {
        outstanding(history.drop_last()) + match history.last() {
            EventView::Started { .. } => 1int,
            EventView::Finished { .. } => -1int,
            EventView::Skipped { .. } => 0int,
        }
    }
}

/// How many of the phases are `Running`.
pub open spec fn running_total(phases: Seq<Phase>) -> int
    decreases phases.len(),
{
    if phases.len() == 0 {
        0
    } else {
        running_total(phases.drop_last()) + if phases.last() is Running {
            1int
        } else {
            0int
        }
    }
}

/// Whether the events about one operation are what its phase allows: none
/// while it waits; `Started` alone while it runs; when it is over, a single
/// `Skipped` with its reason if it runs nothing, else `Started` followed by
/// `Finished`.
pub open spec fn trail_fits(launch: LaunchView, phase: Phase, events: Seq<EventView>, i: int) -> bool {
    match phase {
        Phase::Waiting => events.len() == 0,
        Phase::Running => launch is Run && events == seq![EventView::Started { index: i as usize }],
        Phase::Over => match launch {
            LaunchView::Skip { reason } => events == seq![
                EventView::Skipped { index: i as usize, reason },
            ],
            LaunchView::Run(_) => events.len() == 2 && events[0] == (EventView::Started {
                index: i as usize,
            }) && events[1] is Finished && events[1].index() == i,
        },
    }
}

/// The pool as contracts see it.
pub struct PoolView {
    /// Most operations that may run at once.
    pub cap: nat,
    /// What is to be done for each operation.
    pub launches: Seq<LaunchView>,
    /// Where each operation stands.
    pub phases: Seq<Phase>,
    /// The events handed out so far, oldest first.
    pub history: Seq<EventView>,
}

impl PoolView {
    /// Number of operations.
    pub open spec fn len(self) -> nat {
        self.launches.len()
    }

    /// What holds of every pool: the history is about the pool's operations
    /// only, tells of each what its phase allows, and never has more than
    /// `cap` operations started and not finished.
    pub open spec fn sound(self) -> bool {
        &&& self.phases.len() == self.launches.len()
        &&& self.launches.len() <= usize::MAX
        &&& forall|k: int| 0 <= k < self.history.len() ==> (#[trigger] self.history[k]).index() < self.len()
        &&& forall|i: int|
            0 <= i < self.len() ==> trail_fits(
                self.launches[i],
                #[trigger] self.phases[i],
                trail(self.history, i),
                i,
            )
        &&& forall|k: int|
            0 <= k <= self.history.len() ==> 0 <= outstanding(#[trigger] self.history.take(k))
                <= self.cap
        &&& outstanding(self.history) == running_total(self.phases)
    }

    /// Index of the first waiting operation at or after `from` that runs a
    /// process (`runs`) or runs nothing (`!runs`); the number of operations
    /// when there is none.
    pub open spec fn first_waiting(self, runs: bool, from: int) -> int
        decreases self.len() - from,
    {
        if 0 <= from < self.len() && !(self.phases[from] is Waiting && (self.launches[from] is Run)
            == runs) {
            self.first_waiting(runs, from + 1)
        } else {
            from
        }
    }

    /// The next step: report the first waiting operation that runs nothing;
    /// else start the first waiting operation if a slot is free, and wait if
    /// none is; else wait while something runs; else the pool is done.
    pub open spec fn decide(self) -> StepView {
        let s = self.first_waiting(false, 0);
        let r = self.first_waiting(true, 0);
        if 0 <= s < self.len() {
            StepView::Emit(
                EventView::Skipped { index: s as usize, reason: self.launches[s]->reason },
            )
        } else if 0 <= r < self.len() {
            if outstanding(self.history) < self.cap {
                StepView::Start { index: r as usize }
            } else {
                StepView::Wait
            }
        } else if outstanding(self.history) > 0 {
            StepView::Wait
        } else {
            StepView::Done
        }
    }

    /// The pool after a step was handed out.
    pub open spec fn after(self, step: StepView) -> PoolView {
        match step {
            StepView::Emit(event) => PoolView {
                phases: self.phases.update(event.index() as int, Phase::Over),
                history: self.history.push(event),
                ..self
            },
            StepView::Start { index } => PoolView {
                phases: self.phases.update(index as int, Phase::Running),
                history: self.history.push(EventView::Started { index }),
                ..self
            },
            _ => self,
        }
    }

    /// Whether the operation at `index` is running.
    pub open spec fn is_running(self, index: usize) -> bool {
        index < self.len() && self.phases[index as int] is Running
    }

    /// The pool after the process of the operation at `index` was reported
    /// as over. Reports about operations that are not running change
    /// nothing.
    pub open spec fn completed(self, index: usize, outcome: OutcomeView) -> PoolView {
        if self.is_running(index) {
            PoolView {
                phases: self.phases.update(index as int, Phase::Over),
                history: self.history.push(finished_event(index, outcome)),
                ..self
            }
        } else {
            self
        }
    }
}

// ---------------------------------------------------------------------------
// Laws of the pool
// ---------------------------------------------------------------------------

proof fn lemma_trail_push(history: Seq<EventView>, e: EventView, i: int)
    ensures
        trail(history.push(e), i) == if e.index() == i {
            trail(history, i).push(e)
        } else {
            trail(history, i)
        },
{
    assert(history.push(e).drop_last() =~= history);
}

proof fn lemma_outstanding_push(history: Seq<EventView>, e: EventView)
    ensures
        outstanding(history.push(e)) == outstanding(history) + match e {
            EventView::Started { .. } => 1int,
            EventView::Finished { .. } => -1int,
            EventView::Skipped { .. } => 0int,
        },
{
    assert(history.push(e).drop_last() =~= history);
}

proof fn lemma_running_update(phases: Seq<Phase>, i: int, p: Phase)
    requires
        0 <= i < phases.len(),
    ensures
        running_total(phases.update(i, p)) == running_total(phases) - (if phases[i] is Running {
            1int
        } else {
            0int
        }) + (if p is Running {
            1int
        } else {
            0int
        }),
        0 <= running_total(phases) <= phases.len(),
        phases[i] is Running ==> running_total(phases) >= 1,
    decreases phases.len(),
{
    let front = phases.drop_last();
    if i == phases.len() - 1 {
        assert(phases.update(i, p).drop_last() =~= front);
        lemma_running_bounds(front);
    } else {
        lemma_running_update(front, i, p);
        assert(phases.update(i, p).drop_last() =~= front.update(i, p));
    }
}

proof fn lemma_running_bounds(phases: Seq<Phase>)
    ensures
        0 <= running_total(phases) <= phases.len(),
    decreases phases.len(),
{
    if phases.len() > 0 {
        lemma_running_bounds(phases.drop_last());
    }
}

/// A pool in which nothing has happened yet is sound.
pub proof fn law_fresh_pool_is_sound(cap: nat, launches: Seq<LaunchView>)
    requires
        launches.len() <= usize::MAX,
    ensures
        (PoolView {
            cap,
            launches,
            phases: Seq::new(launches.len(), |i: int| Phase::Waiting),
            history: Seq::empty(),
        }).sound(),
{
    let phases = Seq::new(launches.len(), |i: int| Phase::Waiting);
    let history = Seq::<EventView>::empty();
    lemma_none_running(phases);
    assert forall|k: int| 0 <= k <= history.len() implies 0 <= outstanding(
        #[trigger] history.take(k),
    ) <= cap by {
        assert(history.take(k) =~= history);
    }
}

proof fn lemma_none_running(phases: Seq<Phase>)
    requires
        forall|i: int| 0 <= i < phases.len() ==> !(#[trigger] phases[i] is Running),
    ensures
        running_total(phases) == 0,
    decreases phases.len(),
{
    if phases.len() > 0 {
        let front = phases.drop_last();
        assert forall|i: int| 0 <= i < front.len() implies !(#[trigger] front[i] is Running) by {
            assert(front[i] == phases[i]);
        }
        lemma_none_running(front);
    }
}

proof fn lemma_first_waiting(view: PoolView, runs: bool, from: int)
    requires
        0 <= from <= view.len(),
        view.phases.len() == view.launches.len(),
    ensures
        from <= view.first_waiting(runs, from) <= view.len(),
        view.first_waiting(runs, from) < view.len() ==> view.phases[view.first_waiting(
            runs,
            from,
        )] is Waiting && (view.launches[view.first_waiting(runs, from)] is Run) == runs,
        forall|i: int|
            from <= i < view.first_waiting(runs, from) ==> !((#[trigger] view.phases[i]) is Waiting
                && (view.launches[i] is Run) == runs),
    decreases view.len() - from,
{
    if from < view.len() && !(view.phases[from] is Waiting && (view.launches[from] is Run) == runs) {
        lemma_first_waiting(view, runs, from + 1);
    }
}

proof fn lemma_first_waiting_is(view: PoolView, runs: bool, from: int, k: int)
    requires
        0 <= from <= k <= view.len(),
        forall|i: int|
            from <= i < k ==> !((#[trigger] view.phases[i]) is Waiting && (view.launches[i] is Run)
                == runs),
        k < view.len() ==> view.phases[k] is Waiting && (view.launches[k] is Run) == runs,
    ensures
        view.first_waiting(runs, from) == k,
    decreases k - from,
{
    if from < k {
        lemma_first_waiting_is(view, runs, from + 1, k);
    }
}

proof fn lemma_pushed_sound(view: PoolView, after: PoolView, e: EventView, p: Phase)
    requires
        view.sound(),
        e.index() < view.len(),
        after == (PoolView {
            phases: view.phases.update(e.index() as int, p),
            history: view.history.push(e),
            ..view
        }),
        trail_fits(
            view.launches[e.index() as int],
            p,
            trail(view.history, e.index() as int).push(e),
            e.index() as int,
        ),
        0 <= outstanding(view.history.push(e)) <= view.cap,
        outstanding(view.history.push(e)) == running_total(
            view.phases.update(e.index() as int, p),
        ),
    ensures
        after.sound(),
{
    let h = view.history;
    let h2 = h.push(e);
    assert forall|k: int| 0 <= k < h2.len() implies (#[trigger] h2[k]).index() < after.len() by {
        if k < h.len() {
            assert(h2[k] == h[k]);
        }
    }
    assert forall|i: int| 0 <= i < after.len() implies trail_fits(
        after.launches[i],
        #[trigger] after.phases[i],
        trail(after.history, i),
        i,
    ) by {
        lemma_trail_push(h, e, i);
        assert(trail_fits(view.launches[i], view.phases[i], trail(h, i), i));
    }
    assert forall|k: int| 0 <= k <= h2.len() implies 0 <= outstanding(#[trigger] h2.take(k))
        <= after.cap by {
        if k <= h.len() {
            assert(h2.take(k) =~= h.take(k));
        } else {
            assert(h2.take(k) =~= h2);
        }
    }
}

/// Handing out the next step leaves a sound pool sound.
pub proof fn law_steps_keep_sound(view: PoolView)
    requires
        view.sound(),
    ensures
        view.after(view.decide()).sound(),
{
    let step = view.decide();
    let h = view.history;
    lemma_first_waiting(view, false, 0);
    lemma_first_waiting(view, true, 0);
    assert(h.take(h.len() as int) =~= h);
    match step {
        StepView::Emit(e) => {
            let s = e.index() as int;
            assert(trail_fits(view.launches[s], view.phases[s], trail(h, s), s));
            assert(trail(h, s) =~= Seq::<EventView>::empty());
            assert(trail(h, s).push(e) =~= seq![e]);
            lemma_outstanding_push(h, e);
            lemma_running_update(view.phases, s, Phase::Over);
            lemma_pushed_sound(view, view.after(step), e, Phase::Over);
        },
        StepView::Start { index } => {
            let e = EventView::Started { index };
            let r = index as int;
            assert(trail_fits(view.launches[r], view.phases[r], trail(h, r), r));
            assert(trail(h, r) =~= Seq::<EventView>::empty());
            assert(trail(h, r).push(e) =~= seq![e]);
            lemma_outstanding_push(h, e);
            lemma_running_update(view.phases, r, Phase::Running);
            lemma_pushed_sound(view, view.after(step), e, Phase::Running);
        },
        _ => {},
    }
}

/// Reporting a process as over leaves a sound pool sound.
pub proof fn law_completion_keeps_sound(view: PoolView, index: usize, outcome: OutcomeView)
    requires
        view.sound(),
    ensures
        view.completed(index, outcome).sound(),
{
    if view.is_running(index) {
        let h = view.history;
        let e = finished_event(index, outcome);
        let i = index as int;
        assert(h.take(h.len() as int) =~= h);
        assert(trail_fits(view.launches[i], view.phases[i], trail(h, i), i));
        lemma_outstanding_push(h, e);
        lemma_running_update(view.phases, i, Phase::Over);
        lemma_pushed_sound(view, view.completed(index, outcome), e, Phase::Over);
    }
}

/// At no point of its history has a sound pool more operations started and
/// not finished than its cap.
pub proof fn law_slots_bounded(view: PoolView, k: int)
    requires
        view.sound(),
        0 <= k <= view.history.len(),
    ensures
        0 <= outstanding(view.history.take(k)) <= view.cap,
{
}

/// In the history of a sound pool, an operation that runs nothing has at
/// most its one `Skipped` and never a `Started`; an operation that runs a
/// process has `Started` before `Finished`, each at most once.
pub proof fn law_lifecycle(view: PoolView, i: int)
    requires
        view.sound(),
        0 <= i < view.len(),
    ensures
        match view.launches[i] {
            LaunchView::Skip { reason } => trail(view.history, i).len() == 0 || trail(
                view.history,
                i,
            ) == seq![EventView::Skipped { index: i as usize, reason }],
            LaunchView::Run(_) => {
                let t = trail(view.history, i);
                &&& t.len() <= 2
                &&& t.len() >= 1 ==> t[0] == (EventView::Started { index: i as usize })
                &&& t.len() == 2 ==> t[1] is Finished
            },
        },
        view.phases[i] is Over <==> (trail(view.history, i).len() > 0 && trail(
            view.history,
            i,
        ).last().is_terminal()),
{
    assert(trail_fits(view.launches[i], view.phases[i], trail(view.history, i), i));
}

proof fn lemma_trail_prefix(history: Seq<EventView>, i: int, k: int)
    requires
        0 <= k <= history.len(),
    ensures
        trail(history.take(k), i).is_prefix_of(trail(history, i)),
        k < history.len() && history[k].index() == i ==> trail(history.take(k), i).len() < trail(
            history,
            i,
        ).len() && trail(history, i)[trail(history.take(k), i).len() as int] == history[k],
    decreases history.len() - k,
{
    if k == history.len() {
        assert(history.take(k) =~= history);
    } else {
        let front = history.drop_last();
        if k < front.len() {
            lemma_trail_prefix(front, i, k);
            assert(front.take(k) =~= history.take(k));
            assert(front[k] == history[k]);
        } else {
            assert(front =~= history.take(k));
        }
    }
}

/// The history of a sound pool is about the pool's operations only and
/// reports no operation as started after it reported it as over.
pub proof fn law_history_is_orderly(view: PoolView)
    requires
        view.sound(),
    ensures
        in_bounds(view.history, view.len()),
        starts_before_ends(view.history),
{
    let h = view.history;
    assert forall|j: int, k: int|
        0 <= j < k < h.len() && (#[trigger] h[j]).is_terminal() && (
        #[trigger] h[k]) is Started implies h[j].index() != h[k].index() by {
        let i = h[j].index() as int;
        if h[k].index() == i {
            lemma_trail_prefix(h, i, j);
            lemma_trail_prefix(h, i, k);
            lemma_trail_prefix(h.take(k), i, j);
            assert(h.take(k).take(j) =~= h.take(j));
            assert(h.take(k)[j] == h[j]);
            let t = trail(h, i);
            let a = trail(h.take(j), i).len() as int;
            let b = trail(h.take(k), i).len() as int;
            assert(a < b < t.len());
            assert(t[a] == h[j] && t[b] == h[k]);
            assert(trail_fits(view.launches[i], view.phases[i], t, i));
        }
    }
}

// ---------------------------------------------------------------------------
// The pool
// ---------------------------------------------------------------------------

/// The bounded pool.
pub struct Pool {
    cap: usize,
    launches: Vec<Launch>,
    /// Every operation below this index that runs nothing is over.
    next_skip: usize,
    /// Every operation below this index that runs a process has started.
    next_run: usize,
    /// The operations that hold a slot.
    running: Vec<usize>,
    history: Ghost<Seq<EventView>>,
}

impl Pool {
    spec fn phase_at(&self, i: int) -> Phase {
        if self.launches@[i]@ is Skip {
            if i < self.next_skip {
                Phase::Over
            } else {
                Phase::Waiting
            }
        } else if i >= self.next_run {
            Phase::Waiting
        } else if self.running@.contains(i as usize) {
            Phase::Running
        } else {
            Phase::Over
        }
    }

    /// Whether the pool is what `execute_all` and the pool's own methods
    /// make of it. Nothing else can make a pool.
    pub closed spec fn wf(&self) -> bool {
        &&& self.next_skip <= self.launches.len()
        &&& self.next_run <= self.launches.len()
        &&& self.running@.no_duplicates()
        &&& self.running.len() <= self.cap
        &&& forall|k: int|
            0 <= k < self.running.len() ==> (#[trigger] self.running@[k]) < self.next_run
                && self.launches@[self.running@[k] as int]@ is Run
        &&& outstanding(self.history@) == self.running.len()
        &&& self@.sound()
    }

    /// Every well-formed pool is sound, so that the laws of sound pools
    /// hold of it.
    pub proof fn law_pool_is_sound(&self)
        requires
            self.wf(),
        ensures
            self@.sound(),
    {
    }

    /// A pool for `launches` with `cap` slots, nothing started.
    pub fn new(launches: Vec<Launch>, cap: usize) -> (pool: Pool)
        ensures
            pool.wf(),
            pool@ == (PoolView {
                cap: cap as nat,
                launches: launch_views(launches@),
                phases: Seq::new(launches.len() as nat, |i: int| Phase::Waiting),
                history: Seq::empty(),
            }),
    {
        let pool = Pool {
            cap,
            launches,
            next_skip: 0,
            next_run: 0,
            running: Vec::new(),
            history: Ghost(Seq::empty()),
        };
        proof {
            assert(pool@.phases =~= Seq::new(launches.len() as nat, |i: int| Phase::Waiting));
            law_fresh_pool_is_sound(cap as nat, launch_views(launches@));
        }
        pool
    }

    /// Number of operations.
    pub fn len(&self) -> (n: usize)
        ensures
            n == self@.len(),
    {
        self.launches.len()
    }

    /// Number of operations that hold a slot.
    pub fn running_count(&self) -> (n: usize)
        requires
            self.wf(),
        ensures
            n == outstanding(self@.history),
            n <= self@.cap,
    {
        self.running.len()
    }

    /// What is to be done for the operation at `index`.
    pub fn launch_at(&self, index: usize) -> (l: &Launch)
        requires
            index < self@.len(),
        ensures
            l@ == self@.launches[index as int],
    {
        &self.launches[index]
    }

    /// The process of the operation at `index`, if it runs one.
    pub fn process_at(&self, index: usize) -> (p: Option<&ProcessSpec>)
        ensures
            match p {
                Some(spec) => index < self@.len() && self@.launches[index as int]
                    == LaunchView::Run(spec@),
                None => index >= self@.len() || self@.launches[index as int] is Skip,
            },
    {
        if index < self.launches.len() {
            match &self.launches[index] {
                Launch::Run(spec) => Some(spec),
                Launch::Skip { .. } => None,
            }
        } else {
            None
        }
    }

    /// Decides the next step and counts it as taken.
    pub fn next_step(&mut self) -> (step: Step)
        requires
            old(self).wf(),
        ensures
            final(self).wf(),
            step@ == old(self)@.decide(),
            final(self)@ == old(self)@.after(step@),
    {
        let n = self.launches.len();
        let ghost before = self@;
        while self.next_skip < n && !self.is_skip(self.next_skip)
            invariant
                self.wf(),
                self@ == before,
                n == self.launches.len(),
            decreases n - self.next_skip,
        {
            let ghost was = *self;
            self.next_skip = self.next_skip + 1;
            proof {
                assert(self@.phases =~= was@.phases);
            }
        }
        proof {
            lemma_first_waiting_is(before, false, 0, self.next_skip as int);
            lemma_first_waiting(before, true, 0);
        }
        if self.next_skip < n {
            let index = self.next_skip;
            let reason = match &self.launches[index] {
                Launch::Skip { reason } => reason.clone(),
                Launch::Run(_) => String::new(),
            };
            let event = TaskEvent::Skipped { index, reason };
            let ghost was = *self;
            self.next_skip = index + 1;
            self.history = Ghost(self.history@.push(event@));
            proof {
                assert(self@.phases =~= before.phases.update(index as int, Phase::Over));
                law_steps_keep_sound(before);
                lemma_outstanding_push(was.history@, event@);
            }
            return Step::Emit(event);
        }
        while self.next_run < n && self.is_skip(self.next_run)
            invariant
                self.wf(),
                self@ == before,
                n == self.launches.len(),
                self.next_skip == n,
            decreases n - self.next_run,
        {
            let ghost was = *self;
            self.next_run = self.next_run + 1;
            proof {
                assert(self@.phases =~= was@.phases);
            }
        }
        proof {
            lemma_first_waiting_is(before, true, 0, self.next_run as int);
        }
        if self.next_run < n {
            if self.running.len() < self.cap {
                let index = self.next_run;
                let ghost was = *self;
                self.next_run = index + 1;
                self.running.push(index);
                self.history = Ghost(self.history@.push(EventView::Started { index }));
                proof {
                    assert(!was.running@.contains(index));
                    assert forall|i: int| 0 <= i < n implies self@.phases[i]
                        == before.phases.update(index as int, Phase::Running)[i] by {
                        if i != index {
                            if was.running@.contains(i as usize) {
                                let k = choose|k: int|
                                    0 <= k < was.running@.len() && was.running@[k] == i as usize;
                                assert(self.running@[k] == i as usize);
                            }
                            if self.running@.contains(i as usize) {
                                let k = choose|k: int|
                                    0 <= k < self.running@.len() && self.running@[k] == i as usize;
                                assert(k < was.running@.len());
                                assert(was.running@[k] == i as usize);
                            }
                        } else {
                            assert(self.running@[self.running@.len() - 1] == index);
                        }
                    }
                    assert(self@.phases =~= before.phases.update(index as int, Phase::Running));
                    law_steps_keep_sound(before);
                    lemma_outstanding_push(was.history@, EventView::Started { index });
                }
                return Step::Start { index };
            } else {
                return Step::Wait;
            }
        }
        if self.running.len() > 0 {
            Step::Wait
        } else {
            Step::Done
        }
    }

    fn is_skip(&self, index: usize) -> (b: bool)
        requires
            index < self.launches.len(),
        ensures
            b == (self.launches@[index as int]@ is Skip),
    {
        match &self.launches[index] {
            Launch::Skip { .. } => true,
            Launch::Run(_) => false,
        }
    }

    /// Takes the report that the process of the operation at `index` is
    /// over, frees its slot and gives the event to emit. A report about an
    /// operation that is not running is dropped.
    pub fn complete(&mut self, index: usize, outcome: Outcome) -> (event: Option<TaskEvent>)
        requires
            old(self).wf(),
        ensures
            final(self).wf(),
            final(self)@ == old(self)@.completed(index, outcome@),
            match event {
                Some(e) => old(self)@.is_running(index) && e@ == finished_event(index, outcome@),
                None => !old(self)@.is_running(index),
            },
    {
        let ghost before = self@;
        let ghost was = *self;
        let mut k: usize = 0;
        while k < self.running.len() && self.running[k] != index
            invariant
                k <= self.running.len(),
                *self == was,
                forall|j: int| 0 <= j < k ==> self.running@[j] != index,
            decreases self.running.len() - k,
        {
            k = k + 1;
        }
        if k == self.running.len() {
            proof {
                if before.is_running(index) {
                    assert(was.running@.contains(index));
                }
            }
            return None;
        }
        proof {
            assert(was.running@[k as int] == index);
            assert(was.running@.contains(index));
            assert(index < was.next_run);
            assert(before.is_running(index));
        }
        let event = finished(index, outcome);
        self.running.remove(k);
        self.history = Ghost(self.history@.push(event@));
        proof {
            let old_r = was.running@;
            let new_r = self.running@;
            assert(new_r =~= old_r.remove(k as int));
            assert forall|a: int, b: int| 0 <= a < new_r.len() && 0 <= b < new_r.len() && a
                != b implies new_r[a] != new_r[b] by {
                let a0 = if a < k { a } else { a + 1 };
                let b0 = if b < k { b } else { b + 1 };
                assert(new_r[a] == old_r[a0] && new_r[b] == old_r[b0]);
            }
            assert forall|j: int| 0 <= j < new_r.len() implies (#[trigger] new_r[j])
                < self.next_run && self.launches@[new_r[j] as int]@ is Run by {
                let j0 = if j < k { j } else { j + 1 };
                assert(new_r[j] == old_r[j0]);
            }
            assert forall|i: int| 0 <= i < self.launches.len() implies self@.phases[i]
                == before.phases.update(index as int, Phase::Over)[i] by {
                if i != index {
                    if old_r.contains(i as usize) {
                        let j = choose|j: int| 0 <= j < old_r.len() && old_r[j] == i as usize;
                        let j1 = if j < k { j } else { j - 1 };
                        assert(new_r[j1] == i as usize);
                    }
                    if new_r.contains(i as usize) {
                        let j = choose|j: int| 0 <= j < new_r.len() && new_r[j] == i as usize;
                        let j0 = if j < k { j } else { j + 1 };
                        assert(old_r[j0] == i as usize);
                    }
                } else {
                    if new_r.contains(index) {
                        let j = choose|j: int| 0 <= j < new_r.len() && new_r[j] == index;
                        let j0 = if j < k { j } else { j + 1 };
                        assert(old_r[j0] == index);
                    }
                }
            }
            assert(self@.phases =~= before.phases.update(index as int, Phase::Over));
            law_completion_keeps_sound(before, index, outcome@);
            lemma_outstanding_push(was.history@, event@);
        }
        Some(event)
    }
}

impl View for Pool {
    type V = PoolView;

    closed spec fn view(&self) -> PoolView {
        PoolView {
            cap: self.cap as nat,
            launches: launch_views(self.launches@),
            phases: Seq::new(self.launches.len() as nat, |i: int| self.phase_at(i)),
            history: self.history@,
        }
    }
}

} // verus!
