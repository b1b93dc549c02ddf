//! The run itself: the words, the budget and the progress of one
//! enumeration, driven from outside by dispatches and completions.
//!
//! The driver asks `next_action` what to do. On `Dispatch` it calls
//! `dispatch` and makes the request that comes back. On `Wait` it waits for
//! one of its requests to end and hands the outcome to `complete`, which
//! gives the report to show. On `Finish` it stops.

use crate::budget::ConcurrencyBudget;
use crate::classify::{default_suppressed, default_suppressed_codes, make_report, Outcome, Report};
use crate::config::ConfigError;
use crate::mode::Mode;
use crate::run_model::{
    lemma_complete_wf, lemma_dispatch_wf, lemma_initial_wf, Action, Entry, Event, RunModel,
    WordStatus,
};
use crate::template::{derive_request_spec, derive_template, has_scheme, template_of, RequestSpec};
use crate::utils::{element_at, random_draw};
use vstd::prelude::*;

verus! {

/// A request to make: the position of its word and what to send.
#[derive(Clone, Debug, PartialEq, Eq)]
pub struct Job {
    /// The position of the word in the wordlist.
    pub index: usize,
    /// What to send.
    pub request: RequestSpec,
}

/// Why an outcome was not accepted.
#[derive(Clone, Copy, Debug, PartialEq, Eq, Structural)]
pub enum RunError {
    /// The run has no word at that position.
    UnknownWord,
    /// The request for that word has not been made yet, or has ended already.
    NotInFlight,
}

/// How far a run has come.
#[derive(Clone, Copy, Debug, PartialEq, Eq, Structural)]
pub struct RunState {
    /// The number of words whose requests have ended.
    pub completed: usize,
    /// The number of words.
    pub total: usize,
}

/// One run over a wordlist.
pub struct Run {
    mode: Mode,
    template: String,
    words: Vec<String>,
    agents: Vec<String>,
    suppressed: Vec<u16>,
    budget: ConcurrencyBudget,
    statuses: Vec<WordStatus>,
    next: usize,
    completed: usize,
    log: Ghost<Seq<Entry>>,
}

impl Run {
    /// The run as a state of the state machine.
    pub closed spec fn view(&self) -> RunModel {
        RunModel {
            mode: self.mode,
            template: self.template@,
            words: self.words.deep_view(),
            agents: self.agents.deep_view(),
            suppressed: self.suppressed@,
            limit: self.budget.cap(),
            statuses: self.statuses@,
            next: self.next as nat,
            log: self.log@,
        }
    }

    /// The state is well formed, and the counters that the run keeps say
    /// what the state says.
    #[verifier::type_invariant]
    spec fn consistent(self) -> bool {
        &&& self@.wf()
        &&& self.budget.held() == self@.in_flight().len()
        &&& self.completed == self@.log.len()
    }

    /// A run without words and without requests.
    fn idle() -> (run: Run)
        ensures
            run@ == RunModel::initial(
                Mode::Dir,
                Seq::empty(),
                Seq::empty(),
                Seq::empty(),
                Seq::empty(),
                1,
            ),
    {
        let template = String::new();
        let words: Vec<String> = Vec::new();
        let agents: Vec<String> = Vec::new();
        let suppressed: Vec<u16> = Vec::new();
        let statuses: Vec<WordStatus> = Vec::new();
        proof {
            lemma_initial_wf(
                Mode::Dir,
                template@,
                words.deep_view(),
                agents.deep_view(),
                suppressed@,
                1,
            );
            let start = RunModel::initial(
                Mode::Dir,
                template@,
                words.deep_view(),
                agents.deep_view(),
                suppressed@,
                1,
            );
            assert(statuses@ =~= start.statuses);
            assert(start.in_flight() =~= Set::<int>::empty());
            assert(words.deep_view() =~= Seq::<Seq<char>>::empty());
            assert(agents.deep_view() =~= Seq::<Seq<char>>::empty());
        }
        Run {
            mode: Mode::Dir,
            template,
            words,
            agents,
            suppressed,
            budget: ConcurrencyBudget::new(1),
            statuses,
            next: 0,
            completed: 0,
            log: Ghost(Seq::empty()),
        }
    }

    /// A run over `wordlist` against `target`, with at most
    /// `max_concurrent_tasks` requests in flight. The status codes 400 and
    /// 404 are not reported. The target has to begin with `http://` or
    /// `https://`, and the limit has to be at least one.
    pub fn new(
        mode: Mode,
        target: &str,
        wordlist: Vec<String>,
        uas: Vec<String>,
        max_concurrent_tasks: usize,
    ) -> (made: Result<Run, ConfigError>)
        ensures
            match made {
                Ok(run) => has_scheme(target@) && max_concurrent_tasks >= 1 && run@.wf() && run@
                    == RunModel::initial(
                    mode,
                    template_of(target@, mode),
                    wordlist.deep_view(),
                    uas.deep_view(),
                    default_suppressed(),
                    max_concurrent_tasks as nat,
                ),
                Err(e) => if !has_scheme(target@) {
                    e == ConfigError::InvalidTarget
                } else {
                    max_concurrent_tasks == 0 && e == ConfigError::NoConcurrency
                },
            },
    {
        Run::with_suppressed(
            mode,
            target,
            wordlist,
            uas,
            max_concurrent_tasks,
            default_suppressed_codes(),
        )
    }

    /// A run as `new` makes it, in which the status codes in `suppressed`
    /// are the ones that are not reported.
    pub fn with_suppressed(
        mode: Mode,
        target: &str,
        wordlist: Vec<String>,
        uas: Vec<String>,
        max_concurrent_tasks: usize,
        suppressed: Vec<u16>,
    ) -> (made: Result<Run, ConfigError>)
        ensures
            match made {
                Ok(run) => has_scheme(target@) && max_concurrent_tasks >= 1 && run@.wf() && run@
                    == RunModel::initial(
                    mode,
                    template_of(target@, mode),
                    wordlist.deep_view(),
                    uas.deep_view(),
                    suppressed@,
                    max_concurrent_tasks as nat,
                ),
                Err(e) => if !has_scheme(target@) {
                    e == ConfigError::InvalidTarget
                } else {
                    max_concurrent_tasks == 0 && e == ConfigError::NoConcurrency
                },
            },
    {
        let template = match derive_template(target, &mode) {
            Ok(template) => template,
            Err(e) => {
                return Err(e);
            },
        };
        if max_concurrent_tasks == 0 {
            return Err(ConfigError::NoConcurrency);
        }
        let mut statuses: Vec<WordStatus> = Vec::new();
        let mut i: usize = 0;
        while i < wordlist.len()
            invariant
                i <= wordlist.len(),
                statuses@ == Seq::new(i as nat, |k: int| WordStatus::Pending),
            decreases wordlist.len() - i,
        {
            statuses.push(WordStatus::Pending);
            i = i + 1;
            proof {
                assert(statuses@ =~= Seq::new(i as nat, |k: int| WordStatus::Pending));
            }
        }
        proof {
            lemma_initial_wf(
                mode,
                template@,
                wordlist.deep_view(),
                uas.deep_view(),
                suppressed@,
                max_concurrent_tasks as nat,
            );
            let start = RunModel::initial(
                mode,
                template@,
                wordlist.deep_view(),
                uas.deep_view(),
                suppressed@,
                max_concurrent_tasks as nat,
            );
            assert(statuses@ =~= start.statuses);
            assert(start.in_flight() =~= Set::<int>::empty());
        }
        Ok(
            Run {
                mode,
                template,
                words: wordlist,
                agents: uas,
                suppressed,
                budget: ConcurrencyBudget::new(max_concurrent_tasks),
                statuses,
                next: 0,
                completed: 0,
                log: Ghost(Seq::empty()),
            },
        )
    }

    /// The number of words.
    pub fn total(&self) -> (n: usize)
        ensures
            n == self@.words.len(),
    {
        self.words.len()
    }

    /// The number of words whose requests have ended.
    pub fn completed(&self) -> (n: usize)
        ensures
            self@.wf(),
            n == self@.log.len(),
            n == self@.done().len(),
            n <= self@.words.len(),
    {
        proof {
            use_type_invariant(self);
        }
        self.completed
    }

    /// The number of requests in flight. It is never above the limit.
    pub fn in_flight(&self) -> (n: usize)
        ensures
            self@.wf(),
            n == self@.in_flight().len(),
            n <= self@.limit,
    {
        proof {
            use_type_invariant(self);
        }
        self.budget.in_flight()
    }

    /// The concurrency limit.
    pub fn limit(&self) -> (n: usize)
        ensures
            n == self@.limit,
    {
        self.budget.limit()
    }

    /// The mode of the run.
    pub fn mode(&self) -> (mode: Mode)
        ensures
            mode == self@.mode,
    {
        self.mode
    }

    /// The URL template of the run.
    pub fn template(&self) -> (template: &str)
        ensures
            template@ == self@.template,
    {
        self.template.as_str()
    }

    /// Where the word at `index` stands, if there is such a word.
    pub fn status(&self, index: usize) -> (status: Option<WordStatus>)
        ensures
            self@.wf(),
            status == if index < self@.words.len() {
                Some(self@.statuses[index as int])
            } else {
                None
            },
    {
        proof {
            use_type_invariant(self);
        }
        if index < self.statuses.len() {
            Some(self.statuses[index])
        } else {
            None
        }
    }

    /// How far the run has come.
    pub fn progress(&self) -> (state: RunState)
        ensures
            self@.wf(),
            state.completed == self@.log.len(),
            state.total == self@.words.len(),
            state.completed <= state.total,
    {
        proof {
            use_type_invariant(self);
        }
        RunState { completed: self.completed, total: self.words.len() }
    }

    /// Whether every word has its outcome.
    pub fn is_finished(&self) -> (over: bool)
        ensures
            self@.wf(),
            over == self@.finished(),
    {
        proof {
            use_type_invariant(self);
        }
        self.completed == self.words.len()
    }

    /// What the driver does next.
    pub fn next_action(&self) -> (action: Action)
        ensures
            self@.wf(),
            action == self@.action(),
    {
        proof {
            use_type_invariant(self);
        }
        if self.completed == self.words.len() {
            Action::Finish
        } else if self.next < self.words.len() && self.budget.available() > 0 {
            Action::Dispatch(self.next)
        } else {
            Action::Wait
        }
    }

    /// Puts the first pending word in flight, if there is one and a unit of
    /// the budget is free, and gives the request to make for it. The
    /// `User-Agent` is the member of the pool that `draw` selects.
    pub fn dispatch_with(&mut self, draw: usize) -> (job: Option<Job>)
        ensures
            old(self)@.wf(),
            final(self)@.wf(),
            match job {
                Some(job) => old(self)@.can_dispatch() && job.index == old(self)@.next
                    && job.request@ == old(self)@.request(job.index as int, draw as int)
                    && final(self)@ == old(self)@.dispatch(),
                None => !old(self)@.can_dispatch() && final(self)@ == old(self)@,
            },
            final(self)@ == old(self)@.step(Event::Dispatch),
    {
        proof {
            use_type_invariant(&*self);
        }
        if self.next >= self.words.len() || self.budget.available() == 0 {
            return None;
        }
        // The fields change together: they are taken out, changed, and put
        // back as one value.
        let mut taken = Run::idle();
        std::mem::swap(self, &mut taken);
        let Run {
            mode,
            template,
            words,
            agents,
            suppressed,
            mut budget,
            mut statuses,
            next,
            completed,
            log,
        } = taken;
        let mut request = derive_request_spec(template.as_str(), words[next].as_str(), &mode);
        request.user_agent = element_at(&agents, draw);
        let _ = budget.try_acquire();
        statuses.set(next, WordStatus::InFlight);
        proof {
            lemma_dispatch_wf(old(self)@);
        }
        *self = Run {
            mode,
            template,
            words,
            agents,
            suppressed,
            budget,
            statuses,
            next: next + 1,
            completed,
            log,
        };
        Some(Job { index: next, request })
    }

    /// Puts the first pending word in flight, as `dispatch_with` does, with
    /// a `User-Agent` drawn at random from the pool.
    pub fn dispatch(&mut self) -> (job: Option<Job>)
        ensures
            old(self)@.wf(),
            final(self)@.wf(),
            match job {
                Some(job) => old(self)@.can_dispatch() && job.index == old(self)@.next && (exists|
                    draw: int,
                |
                    job.request@ == #[trigger] old(self)@.request(job.index as int, draw))
                    && final(self)@ == old(self)@.dispatch(),
                None => !old(self)@.can_dispatch() && final(self)@ == old(self)@,
            },
            final(self)@ == old(self)@.step(Event::Dispatch),
    {
        let draw = random_draw();
        let job = self.dispatch_with(draw);
        proof {
            if let Some(made) = &job {
                assert(made.request@ == old(self)@.request(made.index as int, draw as int));
            }
        }
        job
    }

    /// Records that the request for the word at `index` ended with
    /// `outcome`, gives its unit of the budget back, and gives the report
    /// for it. An outcome for a word whose request is not in flight is
    /// refused and changes nothing.
    pub fn complete(&mut self, index: usize, outcome: Outcome) -> (done: Result<Report, RunError>)
        ensures
            old(self)@.wf(),
            final(self)@.wf(),
            match done {
                Ok(report) => old(self)@.can_complete(index as int) && report@ == old(
                    self,
                )@.report(index as int, outcome@) && final(self)@ == old(self)@.complete(
                    index as int,
                    outcome@,
                ),
                Err(e) => !old(self)@.can_complete(index as int) && final(self)@ == old(self)@
                    && e == if index >= old(self)@.words.len() {
                    RunError::UnknownWord
                } else {
                    RunError::NotInFlight
                },
            },
            final(self)@ == old(self)@.step(Event::Complete(index as int, outcome@)),
    {
        proof {
            use_type_invariant(&*self);
        }
        if index >= self.statuses.len() {
            return Err(RunError::UnknownWord);
        }
        match self.statuses[index] {
            WordStatus::InFlight => {},
            _ => {
                return Err(RunError::NotInFlight);
            },
        }
        proof {
            lemma_complete_wf(self@, index as int, outcome@);
            assert(self@.in_flight().contains(index as int));
        }
        let mut taken = Run::idle();
        std::mem::swap(self, &mut taken);
        let Run {
            mode,
            template,
            words,
            agents,
            suppressed,
            mut budget,
            mut statuses,
            next,
            completed,
            log,
        } = taken;
        let request = derive_request_spec(template.as_str(), words[index].as_str(), &mode);
        let ghost entry = Entry { word: index as int, outcome: outcome@ };
        let report = make_report(&request, outcome, &suppressed);
        statuses.set(index, WordStatus::Done);
        let _ = budget.release();
        *self = Run {
            mode,
            template,
            words,
            agents,
            suppressed,
            budget,
            statuses,
            next,
            completed: completed + 1,
            log: Ghost(log@.push(entry)),
        };
        Ok(report)
    }
}

} // verus!
