//! A run as a state machine over plain values, and what holds of every run.
//!
//! A run starts with every word pending. A *dispatch* puts the first pending
//! word in flight, which takes one unit of the concurrency budget. A
//! *completion* ends the request of a word in flight with an outcome, gives
//! the unit back and records the outcome. Completions come in any order.

use crate::classify::{report_of, OutcomeModel, ReportDecision, ReportModel};
use crate::mode::Mode;
use crate::template::{request_of, RequestModel};
use crate::utils::selected;
use vstd::prelude::*;

verus! {

/// Where a word stands in a run.
#[derive(Clone, Copy, Debug, PartialEq, Eq, Structural)]
pub enum WordStatus {
    /// No request has been made for the word yet.
    Pending,
    /// The request for the word has been made and has not ended.
    InFlight,
    /// The request for the word has ended.
    Done,
}

/// What the driver of a run does next.
#[derive(Clone, Copy, Debug, PartialEq, Eq, Structural)]
pub enum Action {
    /// Make the request for the word at this position.
    Dispatch(usize),
    /// Wait until a request in flight ends.
    Wait,
    /// Every word has its outcome: the run is over.
    Finish,
}

/// One recorded outcome: the position of the word and how its request ended.
pub struct Entry {
    pub word: int,
    pub outcome: OutcomeModel,
}

/// What can happen to a run.
pub enum Event {
    /// The driver asks for the next request.
    Dispatch,
    /// The request for the word at this position ended with this outcome.
    Complete(int, OutcomeModel),
}

/// The state of a run.
pub struct RunModel {
    /// The mode of the run.
    pub mode: Mode,
    /// The URL template.
    pub template: Seq<char>,
    /// The words, in the order in which their requests are made.
    pub words: Seq<Seq<char>>,
    /// The pool of `User-Agent` values.
    pub agents: Seq<Seq<char>>,
    /// The status codes that are not reported.
    pub suppressed: Seq<u16>,
    /// The concurrency limit.
    pub limit: nat,
    /// Where each word stands.
    pub statuses: Seq<WordStatus>,
    /// The position of the first pending word.
    pub next: nat,
    /// The outcomes, in the order in which they came.
    pub log: Seq<Entry>,
}

impl RunModel {
    /// The state in which a run starts.
    pub open spec fn initial(
        mode: Mode,
        template: Seq<char>,
        words: Seq<Seq<char>>,
        agents: Seq<Seq<char>>,
        suppressed: Seq<u16>,
        limit: nat,
    ) -> RunModel {
        RunModel {
            mode,
            template,
            words,
            agents,
            suppressed,
            limit,
            statuses: Seq::new(words.len(), |i: int| WordStatus::Pending),
            next: 0,
            log: Seq::empty(),
        }
    }

    /// The positions of the words whose requests are in flight.
    pub open spec fn in_flight(self) -> Set<int> {
        Set::new(|i: int| 0 <= i < self.statuses.len() && self.statuses[i] is InFlight)
    }

    /// The positions of the words whose requests have ended.
    pub open spec fn done(self) -> Set<int> {
        Set::new(|i: int| 0 <= i < self.statuses.len() && self.statuses[i] is Done)
    }

    /// Entry `k` of the log is an outcome of the word at position `i`.
    pub open spec fn logged_at(self, k: int, i: int) -> bool {
        0 <= k < self.log.len() && self.log[k].word == i
    }

    /// What holds of every state of a run.
    pub open spec fn wf(self) -> bool {
        &&& self.limit >= 1
        &&& self.statuses.len() == self.words.len()
        &&& self.next <= self.words.len()
        &&& forall|i: int|
            0 <= i < self.statuses.len() ==> (#[trigger] self.statuses[i] is Pending <==> i
                >= self.next)
        &&& self.in_flight().finite()
        &&& self.done().finite()
        &&& self.in_flight().len() <= self.limit
        &&& self.in_flight().len() + self.done().len() == self.next
        &&& self.log.len() == self.done().len()
        &&& forall|k: int|
            0 <= k < self.log.len() ==> 0 <= (#[trigger] self.log[k]).word < self.statuses.len()
                && self.statuses[self.log[k].word] is Done
        &&& forall|k: int, l: int|
            0 <= k < l < self.log.len() ==> (#[trigger] self.log[k]).word != (
            #[trigger] self.log[l]).word
        &&& forall|i: int|
            0 <= i < self.statuses.len() && #[trigger] self.statuses[i] is Done ==> exists|k: int|
                #[trigger] self.logged_at(k, i)
    }

    /// Every word has its outcome.
    pub open spec fn finished(self) -> bool {
        self.log.len() == self.words.len()
    }

    /// A word is pending and a unit of the budget is free.
    pub open spec fn can_dispatch(self) -> bool {
        self.next < self.words.len() && self.in_flight().len() < self.limit
    }

    /// The request for the word at `index` is in flight.
    pub open spec fn can_complete(self, index: int) -> bool {
        0 <= index < self.statuses.len() && self.statuses[index] is InFlight
    }

    /// The state after the first pending word went in flight.
    pub open spec fn dispatch(self) -> RunModel {
        RunModel {
            statuses: self.statuses.update(self.next as int, WordStatus::InFlight),
            next: self.next + 1,
            ..self
        }
    }

    /// The state after the request for the word at `index` ended.
    pub open spec fn complete(self, index: int, outcome: OutcomeModel) -> RunModel {
        RunModel {
            statuses: self.statuses.update(index, WordStatus::Done),
            log: self.log.push(Entry { word: index, outcome }),
            ..self
        }
    }

    /// The state after an event. An event that cannot happen in the state
    /// leaves it as it is.
    pub open spec fn step(self, event: Event) -> RunModel {
        match event {
            Event::Dispatch => if self.can_dispatch() {
                self.dispatch()
            } else {
                self
            },
            Event::Complete(index, outcome) => if self.can_complete(index) {
                self.complete(index, outcome)
            } else {
                self
            },
        }
    }

    /// The state after a sequence of events.
    pub open spec fn after(self, events: Seq<Event>) -> RunModel
        decreases events.len(),
    {
        if events.len() == 0 {
            self
        } else {
            self.after(events.drop_last()).step(events.last())
        }
    }

    /// What the driver does next: it ends the run when every word has its
    /// outcome, makes the next request when it may, and waits otherwise.
    pub open spec fn action(self) -> Action {
        if self.finished() {
            Action::Finish
        } else if self.can_dispatch() {
            Action::Dispatch(self.next as usize)
        } else {
            Action::Wait
        }
    }

    /// The request for the word at `index`, with the `User-Agent` that
    /// `draw` selects from the pool.
    pub open spec fn request(self, index: int, draw: int) -> RequestModel {
        RequestModel {
            user_agent: selected(self.agents, draw),
            ..request_of(self.template, self.words[index], self.mode)
        }
    }

    /// The report for the word at `index` when its request ended with
    /// `outcome`.
    pub open spec fn report(self, index: int, outcome: OutcomeModel) -> ReportModel {
        report_of(
            request_of(self.template, self.words[index], self.mode),
            outcome,
            self.suppressed,
        )
    }

    /// The findings of the run so far: the reports of the recorded outcomes
    /// that are shown.
    pub open spec fn findings(self) -> Set<ReportModel> {
        Set::new(
            |r: ReportModel|
                r.decision != ReportDecision::Suppressed && exists|k: int|
                    0 <= k < self.log.len() && r == #[trigger] self.report(
                        self.log[k].word,
                        self.log[k].outcome,
                    ),
        )
    }

    /// The number of outcomes recorded for the word at `index`.
    pub open spec fn outcomes_of(self, index: int) -> nat {
        self.log.filter(is_outcome_of(index)).len()
    }
}

/// The entries of a log that belong to the word at `index`.
pub open spec fn is_outcome_of(index: int) -> spec_fn(Entry) -> bool {
    |e: Entry| e.word == index
}

/// A run starts in a well-formed state.
pub proof fn lemma_initial_wf(
    mode: Mode,
    template: Seq<char>,
    words: Seq<Seq<char>>,
    agents: Seq<Seq<char>>,
    suppressed: Seq<u16>,
    limit: nat,
)
    requires
        limit >= 1,
    ensures
        RunModel::initial(mode, template, words, agents, suppressed, limit).wf(),
        RunModel::initial(mode, template, words, agents, suppressed, limit).in_flight()
            == Set::<int>::empty(),
        RunModel::initial(mode, template, words, agents, suppressed, limit).done() == Set::<
            int,
        >::empty(),
{
    let s = RunModel::initial(mode, template, words, agents, suppressed, limit);
    assert(s.in_flight() =~= Set::<int>::empty());
    assert(s.done() =~= Set::<int>::empty());
}

/// A dispatch keeps the state well formed and puts exactly the first
/// pending word in flight.
pub proof fn lemma_dispatch_wf(s: RunModel)
    requires
        s.wf(),
        s.can_dispatch(),
    ensures
        s.dispatch().wf(),
        s.dispatch().in_flight() == s.in_flight().insert(s.next as int),
        s.dispatch().in_flight().len() == s.in_flight().len() + 1,
        s.dispatch().done() == s.done(),
{
    let t = s.dispatch();
    assert(s.statuses[s.next as int] is Pending);
    assert(t.in_flight() =~= s.in_flight().insert(s.next as int));
    assert(t.done() =~= s.done());
    assert(!s.in_flight().contains(s.next as int));
    assert forall|k: int| 0 <= k < t.log.len() implies 0 <= (#[trigger] t.log[k]).word
        < t.statuses.len() && t.statuses[t.log[k].word] is Done by {
        assert(s.statuses[s.log[k].word] is Done);
    }
    assert forall|i: int| 0 <= i < t.statuses.len() && #[trigger] t.statuses[i] is Done implies exists|
        k: int,
    | #[trigger] t.logged_at(k, i) by {
        assert(s.statuses[i] is Done);
        let k = choose|k: int| #[trigger] s.logged_at(k, i);
        assert(t.logged_at(k, i));
    }
}

/// A completion keeps the state well formed, takes exactly that word out
/// of flight and records exactly one more outcome.
pub proof fn lemma_complete_wf(s: RunModel, index: int, outcome: OutcomeModel)
    requires
        s.wf(),
        s.can_complete(index),
    ensures
        s.complete(index, outcome).wf(),
        s.complete(index, outcome).in_flight() == s.in_flight().remove(index),
        s.complete(index, outcome).in_flight().len() == s.in_flight().len() - 1,
        s.complete(index, outcome).done() == s.done().insert(index),
        s.complete(index, outcome).done().len() == s.done().len() + 1,
{
    let t = s.complete(index, outcome);
    assert(t.in_flight() =~= s.in_flight().remove(index));
    assert(t.done() =~= s.done().insert(index));
    assert(s.in_flight().contains(index));
    assert(!s.done().contains(index));
    assert forall|i: int| 0 <= i < t.statuses.len() implies (#[trigger] t.statuses[i] is Pending
        <==> i >= t.next) by {
        if i != index {
            assert(t.statuses[i] == s.statuses[i]);
        } else {
            assert(!(s.statuses[i] is Pending));
        }
    }
    assert forall|k: int| 0 <= k < t.log.len() implies 0 <= (#[trigger] t.log[k]).word
        < t.statuses.len() && t.statuses[t.log[k].word] is Done by {
        if k < s.log.len() {
            assert(t.log[k] == s.log[k]);
            assert(s.statuses[s.log[k].word] is Done);
        }
    }
    assert forall|k: int, l: int| 0 <= k < l < t.log.len() implies (#[trigger] t.log[k]).word != (
    #[trigger] t.log[l]).word by {
        assert(t.log[k] == s.log[k]);
        assert(s.statuses[s.log[k].word] is Done);
        if l < s.log.len() {
            assert(t.log[l] == s.log[l]);
        }
    }
    assert forall|i: int| 0 <= i < t.statuses.len() && #[trigger] t.statuses[i] is Done implies exists|
        k: int,
    | #[trigger] t.logged_at(k, i) by {
        if i == index {
            assert(t.logged_at(s.log.len() as int, i));
        } else {
            assert(s.statuses[i] is Done);
            let k = choose|k: int| #[trigger] s.logged_at(k, i);
            assert(t.log[k] == s.log[k]);
            assert(t.logged_at(k, i));
        }
    }
}

/// Every event keeps the state well formed.
pub proof fn lemma_step_wf(s: RunModel, event: Event)
    requires
        s.wf(),
    ensures
        s.step(event).wf(),
{
    match event {
        Event::Dispatch => {
            if s.can_dispatch() {
                lemma_dispatch_wf(s);
            }
        },
        Event::Complete(index, outcome) => {
            if s.can_complete(index) {
                lemma_complete_wf(s, index, outcome);
            }
        },
    }
}

/// Every sequence of events keeps the state well formed, and changes
/// nothing of what the run was started with.
pub proof fn lemma_after_wf(s: RunModel, events: Seq<Event>)
    requires
        s.wf(),
    ensures
        s.after(events).wf(),
        s.after(events).mode == s.mode,
        s.after(events).template == s.template,
        s.after(events).words == s.words,
        s.after(events).agents == s.agents,
        s.after(events).suppressed == s.suppressed,
        s.after(events).limit == s.limit,
    decreases events.len(),
{
    if events.len() > 0 {
        lemma_after_wf(s, events.drop_last());
        lemma_step_wf(s.after(events.drop_last()), events.last());
    }
}

} // verus!
