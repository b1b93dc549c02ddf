//! What holds of every run, whatever its inputs, its concurrency limit and
//! the order in which its requests end.

use crate::classify::{OutcomeModel, ReportDecision, ReportModel};
use crate::mode::Mode;
use crate::run_model::{
    is_outcome_of, lemma_after_wf, lemma_initial_wf, Entry, Event, RunModel,
};
use crate::template::request_of;
use vstd::prelude::*;

verus! {

/// In a log that names no word twice, a word has one entry if it is named
/// and none if it is not.
proof fn lemma_count_in_log(log: Seq<Entry>, index: int)
    requires
        forall|k: int, l: int|
            0 <= k < l < log.len() ==> (#[trigger] log[k]).word != (#[trigger] log[l]).word,
    ensures
        log.filter(is_outcome_of(index)).len() == if exists|k: int|
            0 <= k < log.len() && (#[trigger] log[k]).word == index {
            1nat
        } else {
            0nat
        },
    decreases log.len(),
{
    reveal(Seq::filter);
    if log.len() > 0 {
        let rest = log.drop_last();
        let last = log.last();
        assert forall|k: int, l: int| 0 <= k < l < rest.len() implies (#[trigger] rest[k]).word != (
        #[trigger] rest[l]).word by {
            assert(rest[k] == log[k] && rest[l] == log[l]);
        }
        lemma_count_in_log(rest, index);
        if last.word == index {
            assert(log[log.len() - 1].word == index);
            assert forall|k: int| 0 <= k < rest.len() implies (#[trigger] rest[k]).word
                != index by {
                assert(rest[k] == log[k]);
                assert(log[k].word != log[log.len() - 1].word);
            }
            assert(is_outcome_of(index)(last));
        } else {
            assert(!is_outcome_of(index)(last));
            if exists|k: int| 0 <= k < log.len() && (#[trigger] log[k]).word == index {
                let k = choose|k: int| 0 <= k < log.len() && (#[trigger] log[k]).word == index;
                assert(k < rest.len());
                assert(rest[k].word == index);
            }
            if exists|k: int| 0 <= k < rest.len() && (#[trigger] rest[k]).word == index {
                let k = choose|k: int| 0 <= k < rest.len() && (#[trigger] rest[k]).word == index;
                assert(log[k].word == index);
            }
        }
    }
}

/// The number of requests in flight never exceeds the concurrency limit: it
/// holds at every point of every run, whatever events came and in whatever
/// order.
pub proof fn lemma_in_flight_within_limit(
    mode: Mode,
    template: Seq<char>,
    words: Seq<Seq<char>>,
    agents: Seq<Seq<char>>,
    suppressed: Seq<u16>,
    limit: nat,
    events: Seq<Event>,
)
    requires
        limit >= 1,
    ensures
        forall|n: int|
            0 <= n <= events.len() ==> {
                let s = #[trigger] RunModel::initial(
                    mode,
                    template,
                    words,
                    agents,
                    suppressed,
                    limit,
                ).after(events.take(n));
                s.in_flight().finite() && s.in_flight().len() <= limit
            },
{
    let start = RunModel::initial(mode, template, words, agents, suppressed, limit);
    lemma_initial_wf(mode, template, words, agents, suppressed, limit);
    assert forall|n: int| 0 <= n <= events.len() implies {
        let s = #[trigger] start.after(events.take(n));
        s.in_flight().finite() && s.in_flight().len() <= limit
    } by {
        lemma_after_wf(start, events.take(n));
    }
}

/// No word ever has more than one outcome, and when a run is over every
/// word has exactly one: the number of outcomes is the number of words. It
/// holds whatever the concurrency limit and the order of events.
pub proof fn lemma_one_outcome_per_word(
    mode: Mode,
    template: Seq<char>,
    words: Seq<Seq<char>>,
    agents: Seq<Seq<char>>,
    suppressed: Seq<u16>,
    limit: nat,
    events: Seq<Event>,
)
    requires
        limit >= 1,
    ensures
        ({
            let s = RunModel::initial(mode, template, words, agents, suppressed, limit).after(
                events,
            );
            &&& s.log.len() <= words.len()
            &&& forall|i: int| #[trigger] s.outcomes_of(i) <= 1
            &&& s.finished() ==> s.log.len() == words.len() && forall|i: int|
                0 <= i < words.len() ==> #[trigger] s.outcomes_of(i) == 1
        }),
{
    let start = RunModel::initial(mode, template, words, agents, suppressed, limit);
    lemma_initial_wf(mode, template, words, agents, suppressed, limit);
    lemma_after_wf(start, events);
    let s = start.after(events);
    assert forall|i: int| #[trigger] s.outcomes_of(i) <= 1 by {
        lemma_count_in_log(s.log, i);
    }
    if s.finished() {
        lemma_finished_all_done(s);
        assert forall|i: int| 0 <= i < words.len() implies #[trigger] s.outcomes_of(i) == 1 by {
            lemma_count_in_log(s.log, i);
            assert(s.statuses[i] is Done);
            let k = choose|k: int| #[trigger] s.logged_at(k, i);
            assert(s.log[k].word == i);
        }
    }
}

/// When a run is over, no word is pending, none is in flight, and every
/// unit of the budget is free.
pub proof fn lemma_finished_all_done(s: RunModel)
    requires
        s.wf(),
        s.finished(),
    ensures
        s.next == s.words.len(),
        s.in_flight() == Set::<int>::empty(),
        forall|i: int| 0 <= i < s.words.len() ==> #[trigger] s.statuses[i] is Done,
{
    assert(s.in_flight().len() == 0);
    assert(s.in_flight() =~= Set::<int>::empty());
    assert forall|i: int| 0 <= i < s.words.len() implies #[trigger] s.statuses[i] is Done by {
        assert(!s.in_flight().contains(i));
        assert(!(s.statuses[i] is Pending));
    }
}

/// A run that is not over is never stuck: either the next request can be
/// made, or a request is in flight and its end is awaited.
pub proof fn lemma_never_stuck(s: RunModel)
    requires
        s.wf(),
        !s.finished(),
    ensures
        s.can_dispatch() || exists|i: int| #[trigger] s.can_complete(i),
        !s.can_dispatch() ==> s.in_flight().len() > 0,
{
    if !s.can_dispatch() {
        if s.in_flight().len() == 0 {
            assert(s.next == s.words.len());
            assert(false);
        }
        let i = s.in_flight().choose();
        assert(s.in_flight().contains(i));
        assert(s.can_complete(i));
    }
}

/// Every event that can happen brings the run one step nearer its end: a
/// run over `n` words is over after exactly `2 * n` of them.
pub proof fn lemma_progress(s: RunModel, event: Event)
    requires
        s.wf(),
    ensures
        s.next + s.log.len() <= 2 * s.words.len(),
        s.step(event) != s ==> s.step(event).next + s.step(event).log.len() == s.next
            + s.log.len() + 1,
        s.step(event).log.len() >= s.log.len(),
        s.finished() <==> s.next + s.log.len() == 2 * s.words.len(),
{
    if s.next + s.log.len() == 2 * s.words.len() {
        assert(s.log.len() == s.words.len());
    }
    if s.finished() {
        lemma_finished_all_done(s);
    }
}

/// The server answers alike every time: the outcome recorded for a word is
/// what `server` gives for the URL and the `Host` header of its request.
pub open spec fn answered_by(
    s: RunModel,
    server: spec_fn(Seq<char>, Option<Seq<char>>) -> OutcomeModel,
) -> bool {
    forall|k: int|
        0 <= k < s.log.len() ==> {
            let request = request_of(s.template, s.words[(#[trigger] s.log[k]).word], s.mode);
            s.log[k].outcome == server(request.url, request.host)
        }
}

/// Two runs with the same inputs against a server that answers alike every
/// time have, when both are over, the same set of findings. The requests
/// may have ended in different orders, and the concurrency limits may
/// differ.
pub proof fn lemma_same_findings(
    mode: Mode,
    template: Seq<char>,
    words: Seq<Seq<char>>,
    agents: Seq<Seq<char>>,
    suppressed: Seq<u16>,
    first_limit: nat,
    first_events: Seq<Event>,
    second_limit: nat,
    second_events: Seq<Event>,
    server: spec_fn(Seq<char>, Option<Seq<char>>) -> OutcomeModel,
)
    requires
        first_limit >= 1,
        second_limit >= 1,
        ({
            let a = RunModel::initial(mode, template, words, agents, suppressed, first_limit).after(
                first_events,
            );
            let b = RunModel::initial(
                mode,
                template,
                words,
                agents,
                suppressed,
                second_limit,
            ).after(second_events);
            a.finished() && b.finished() && answered_by(a, server) && answered_by(b, server)
        }),
    ensures
        RunModel::initial(mode, template, words, agents, suppressed, first_limit).after(
            first_events,
        ).findings() == RunModel::initial(
            mode,
            template,
            words,
            agents,
            suppressed,
            second_limit,
        ).after(second_events).findings(),
{
    let a0 = RunModel::initial(mode, template, words, agents, suppressed, first_limit);
    let b0 = RunModel::initial(mode, template, words, agents, suppressed, second_limit);
    lemma_initial_wf(mode, template, words, agents, suppressed, first_limit);
    lemma_initial_wf(mode, template, words, agents, suppressed, second_limit);
    lemma_after_wf(a0, first_events);
    lemma_after_wf(b0, second_events);
    let a = a0.after(first_events);
    let b = b0.after(second_events);
    lemma_findings_included(a, b, server);
    lemma_findings_included(b, a, server);
    assert(a.findings() =~= b.findings());
}

/// Every finding of a run is a finding of any finished run with the same
/// inputs and the same answers.
proof fn lemma_findings_included(
    a: RunModel,
    b: RunModel,
    server: spec_fn(Seq<char>, Option<Seq<char>>) -> OutcomeModel,
)
    requires
        a.wf(),
        b.wf(),
        b.finished(),
        a.mode == b.mode,
        a.template == b.template,
        a.words == b.words,
        a.suppressed == b.suppressed,
        answered_by(a, server),
        answered_by(b, server),
    ensures
        a.findings().subset_of(b.findings()),
{
    lemma_finished_all_done(b);
    assert forall|r: ReportModel| a.findings().contains(r) implies b.findings().contains(r) by {
        let k = choose|k: int|
            0 <= k < a.log.len() && r == #[trigger] a.report(a.log[k].word, a.log[k].outcome);
        let i = a.log[k].word;
        assert(b.statuses[i] is Done);
        let l = choose|l: int| #[trigger] b.logged_at(l, i);
        assert(b.log[l].word == i);
        assert(b.log[l].outcome == a.log[k].outcome);
        assert(r == b.report(b.log[l].word, b.log[l].outcome));
        assert(r.decision != ReportDecision::Suppressed);
    }
}

} // verus!
