//! The event-counting model: what the counters of a run say of its batches,
//! however the sends turn out and whoever counts first.

use vstd::prelude::*;

use crate::event::Event;
use crate::pipeline::{
    and_batch, are_batches, dispatched, events_in, finishes, lemma_sends_are_bounded, Dispatch,
    DispatchStep, Generator,
};
use crate::stats::{
    after_adding, after_all, amounts_of, counted, fresh, grown, lemma_counters_are_sums,
    lemma_grown, lemma_order_does_not_matter, lemma_total_adds_up, nothing, sum, total, Addition,
    Amounts, Snapshot,
};
use crate::transport::BatchResult;

verus! {

// ---------------------------------------------------------------------------
// One batch
// ---------------------------------------------------------------------------

/// The sending of a batch and the counters after the results of sends, one after
/// the other.
pub open spec fn after_results(d: Dispatch, s: Snapshot, results: Seq<BatchResult>) -> (
    Dispatch,
    Snapshot,
)
    decreases results.len(),
{
    if results.len() == 0 {
        (d, s)
    } else {
        let (e, t) = after_results(d, s, results.drop_last());
        let (_, after, counters) = dispatched(e, results.last(), t);
        (after, counters)
    }
}

/// The results of all sends of a batch: the last one finishes it, and no other.
pub open spec fn settled(results: Seq<BatchResult>, retries: int) -> bool {
    &&& results.len() > 0
    &&& finishes(results.last(), results.len() - 1, retries)
    &&& forall|i: int|
        0 <= i < results.len() - 1 ==> !finishes(#[trigger] results[i], i, retries)
}

/// The results account for every event of a batch of `n`.
pub open spec fn account_for(results: Seq<BatchResult>, n: int) -> bool {
    forall|i: int|
        0 <= i < results.len() ==> (#[trigger] results[i]).succeeded + results[i].failed == n
}

/// That many additions of a batch of `n` that is sent again.
pub open spec fn retried_times(n: u64, k: int) -> Seq<Addition>
    decreases k,
{
    if k <= 0 {
        Seq::empty()
    } else {
        retried_times(n, k - 1).push(Addition::Retried(n))
    }
}

/// What the sends of a batch of `n` add to the counters.
pub open spec fn batch_additions(n: u64, results: Seq<BatchResult>) -> Seq<Addition> {
    let last = results.last();
    retried_times(n, results.len() - 1).push(Addition::Sent(last.succeeded, last.bytes)).push(
        Addition::Failed(last.failed),
    )
}

proof fn lemma_unfinished(
    n: u64,
    retries: u32,
    fail_fast: bool,
    s: Snapshot,
    results: Seq<BatchResult>,
)
    requires
        forall|i: int|
            0 <= i < results.len() ==> !finishes(#[trigger] results[i], i, retries as int),
    ensures
        after_results(Dispatch { n, retries, fail_fast, attempt: 0 }, s, results) == (
            Dispatch { n, retries, fail_fast, attempt: results.len() as u32 },
            after_all(s, retried_times(n, results.len() as int)),
        ),
        results.len() <= u32::MAX,
    decreases results.len(),
{
    lemma_sends_are_bounded(results, retries as int);
    if results.len() > 0 {
        let head = results.drop_last();
        assert forall|i: int| 0 <= i < head.len() implies !finishes(
            #[trigger] head[i],
            i,
            retries as int,
        ) by {
            assert(head[i] == results[i]);
        }
        lemma_unfinished(n, retries, fail_fast, s, head);
        let last = results.len() - 1;
        assert(!finishes(results[last], last, retries as int));
        let adds = retried_times(n, results.len() as int);
        assert(adds.drop_last() =~= retried_times(n, last));
    }
}

proof fn lemma_retried(s: Snapshot, n: u64, k: int)
    requires
        0 <= k,
    ensures
        total(retried_times(n, k)) == (Amounts { retried: n * k, ..nothing() }),
        after_all(s, retried_times(n, k)) == (Snapshot {
            retried: grown(s.retried, n * k) as u64,
            ..s
        }),
    decreases k,
{
    lemma_grown(s.retried, 0, 0);
    if k > 0 {
        lemma_retried(s, n, k - 1);
        let adds = retried_times(n, k);
        assert(adds.drop_last() =~= retried_times(n, k - 1));
        lemma_grown(s.retried, n * (k - 1), n);
        assert(n * (k - 1) + n == n * k) by (nonlinear_arith);
    } else {
        assert(n * 0 == 0);
    }
}

/// The law of a batch of `n` events: it is sent at least once, and at most once
/// more than retries are allowed, or twice where authentication is refused. Each
/// event counts as sent or as failed by the last result, and as retried once for
/// every send but the first. The run is aborted when the last result has failed
/// events, and authentication was refused or the first failure is to end it.
pub proof fn lemma_batch_is_settled(
    n: u64,
    retries: u32,
    fail_fast: bool,
    s: Snapshot,
    results: Seq<BatchResult>,
)
    requires
        settled(results, retries as int),
        account_for(results, n as int),
    ensures
        ({
            let k = results.len() as int;
            let last = results.last();
            let d = Dispatch { n, retries, fail_fast, attempt: 0 };
            let (e, t) = after_results(d, s, results.drop_last());
            &&& 1 <= k <= (if retries > 1 {
                retries as int
            } else {
                1
            }) + 1
            &&& (forall|i: int| 0 <= i < k ==> !(#[trigger] results[i]).auth_error) ==> k <= retries
                + 1
            &&& dispatched(e, last, t).0 == (DispatchStep::Finished {
                fatal: last.failed > 0 && (last.auth_error || fail_fast),
            })
            &&& after_results(d, s, results).1 == after_all(s, batch_additions(n, results))
            &&& after_results(d, s, results).1 == (Snapshot {
                sent: counted(s.sent, last.succeeded),
                failed: counted(s.failed, last.failed),
                bytes_sent: counted(s.bytes_sent, last.bytes),
                retried: grown(s.retried, n * (k - 1)) as u64,
                ..s
            })
        }),
{
    let k = results.len() as int;
    let head = results.drop_last();
    let last = results.last();
    assert forall|i: int| 0 <= i < head.len() implies !finishes(
        #[trigger] head[i],
        i,
        retries as int,
    ) by {
        assert(head[i] == results[i]);
    }
    lemma_unfinished(n, retries, fail_fast, s, head);
    lemma_sends_are_bounded(head, retries as int);
    lemma_retried(s, n, k - 1);
    if (forall|i: int| 0 <= i < k ==> !(#[trigger] results[i]).auth_error) && k > 1 {
        assert(!finishes(results[k - 2], k - 2, retries as int));
        assert(!results[k - 2].auth_error);
    }
    assert(results[k - 1].succeeded + results[k - 1].failed == n);
    let again = retried_times(n, k - 1);
    let sent = again.push(Addition::Sent(last.succeeded, last.bytes));
    let all = batch_additions(n, results);
    assert(all.drop_last() =~= sent);
    assert(sent.drop_last() =~= again);
    let t = after_all(s, again);
    assert(after_all(s, sent) == after_adding(t, Addition::Sent(last.succeeded, last.bytes)));
    assert(after_all(s, all) == after_adding(after_all(s, sent), Addition::Failed(last.failed)));
}

// ---------------------------------------------------------------------------
// All batches
// ---------------------------------------------------------------------------

/// What the sends of all batches add to the counters.
pub open spec fn run_additions(batches: Seq<Seq<Event>>, results: Seq<Seq<BatchResult>>) -> Seq<
    Addition,
>
    decreases batches.len(),
{
    if batches.len() == 0 {
        Seq::empty()
    } else {
        run_additions(batches.drop_last(), results) + batch_additions(
            batches.last().len() as u64,
            results[batches.len() - 1],
        )
    }
}

/// The results settle every batch and account for its events.
pub open spec fn all_settled(
    batches: Seq<Seq<Event>>,
    results: Seq<Seq<BatchResult>>,
    retries: int,
) -> bool {
    &&& results.len() == batches.len()
    &&& forall|j: int|
        0 <= j < batches.len() ==> settled(#[trigger] results[j], retries) && account_for(
            results[j],
            batches[j].len() as int,
        )
}

/// An addition that says what was noticed of lines.
pub open spec fn is_notice(a: Addition) -> bool {
    a is Detected || a is Malformed || a is EncodingErrors
}

proof fn lemma_notices(adds: Seq<Addition>)
    requires
        forall|i: int| 0 <= i < adds.len() ==> is_notice(#[trigger] adds[i]),
    ensures
        total(adds).requested == 0,
        total(adds).generated == 0,
        total(adds).sent == 0,
        total(adds).failed == 0,
    decreases adds.len(),
{
    if adds.len() > 0 {
        assert(is_notice(adds[adds.len() - 1]));
        assert forall|i: int| 0 <= i < adds.drop_last().len() implies is_notice(
            #[trigger] adds.drop_last()[i],
        ) by {
            assert(adds.drop_last()[i] == adds[i]);
        }
        lemma_notices(adds.drop_last());
    }
}

proof fn lemma_batch_total(n: u64, results: Seq<BatchResult>)
    requires
        results.len() > 0,
    ensures
        total(batch_additions(n, results)) == (Amounts {
            sent: results.last().succeeded as int,
            bytes_sent: results.last().bytes as int,
            failed: results.last().failed as int,
            retried: n * (results.len() - 1),
            ..nothing()
        }),
{
    let last = results.last();
    let again = retried_times(n, results.len() - 1);
    let sent = again.push(Addition::Sent(last.succeeded, last.bytes));
    let all = batch_additions(n, results);
    lemma_retried(fresh(0), n, results.len() - 1);
    assert(all.drop_last() =~= sent);
    assert(sent.drop_last() =~= again);
    assert(total(sent) == sum(
        total(again),
        amounts_of(Addition::Sent(last.succeeded, last.bytes)),
    ));
    assert(total(all) == sum(total(sent), amounts_of(Addition::Failed(last.failed))));
}

proof fn lemma_run_total(
    batches: Seq<Seq<Event>>,
    results: Seq<Seq<BatchResult>>,
    n: int,
    retries: int,
)
    requires
        0 <= n <= batches.len(),
        all_settled(batches, results, retries),
    ensures
        ({
            let t = total(run_additions(batches.take(n), results));
            &&& t.requested == 0
            &&& t.generated == 0
            &&& 0 <= t.sent
            &&& 0 <= t.failed
            &&& t.sent + t.failed == events_in(batches.take(n)).len()
        }),
    decreases n,
{
    if n > 0 {
        let some = batches.take(n);
        assert(some.drop_last() =~= batches.take(n - 1));
        assert(some.last() == batches[n - 1]);
        lemma_run_total(batches, results, n - 1, retries);
        let r = results[n - 1];
        assert(settled(r, retries) && account_for(r, batches[n - 1].len() as int));
        assert(r[r.len() - 1].succeeded + r[r.len() - 1].failed == batches[n - 1].len());
        lemma_batch_total(batches[n - 1].len() as u64, r);
        lemma_total_adds_up(
            run_additions(batches.take(n - 1), results),
            batch_additions(batches[n - 1].len() as u64, r),
        );
    }
}

/// The law of a run all of whose batches are settled: no more events are
/// generated than lines were requested, every batch has an event and no more than
/// a batch holds, and every generated event counts once, as sent or as failed, in
/// whatever order the workers count.
pub proof fn lemma_run_is_accounted_for(
    g: Generator,
    last: Option<Vec<Event>>,
    results: Seq<Seq<BatchResult>>,
    retries: int,
    notices: Seq<Addition>,
    adds: Seq<Addition>,
)
    requires
        g.wf(),
        match last {
            Some(b) => b@ == g.buffer@ && b@.len() > 0,
            None => g.buffer@.len() == 0,
        },
        all_settled(and_batch(g.sent@, last), results, retries),
        forall|i: int| 0 <= i < notices.len() ==> is_notice(#[trigger] notices[i]),
        adds.to_multiset() == (seq![Addition::Generated(g.generated)] + notices + run_additions(
            and_batch(g.sent@, last),
            results,
        )).to_multiset(),
    ensures
        are_batches(and_batch(g.sent@, last), g.batch_size as int),
        events_in(and_batch(g.sent@, last)) == g.taken@,
        ({
            let t = after_all(fresh(g.lines), adds);
            &&& t.requested == g.lines
            &&& t.generated == g.generated
            &&& t.generated <= t.requested
            &&& t.sent + t.failed == t.generated
        }),
{
    let s = fresh(g.lines);
    let batches = and_batch(g.sent@, last);
    let first = seq![Addition::Generated(g.generated)];
    let sends = run_additions(batches, results);
    let all = first + notices + sends;
    match last {
        Some(b) => assert(batches.drop_last() =~= g.sent@),
        None => assert(events_in(g.sent@) + g.buffer@ =~= events_in(g.sent@)),
    }
    lemma_order_does_not_matter(s, adds, all);
    lemma_counters_are_sums(s, all);
    lemma_total_adds_up(first + notices, sends);
    lemma_total_adds_up(first, notices);
    lemma_notices(notices);
    assert(batches.take(batches.len() as int) =~= batches);
    lemma_run_total(batches, results, batches.len() as int, retries);
    assert(first.drop_last() =~= Seq::empty());
    assert(total(first) == sum(total(first.drop_last()), Amounts {
        generated: g.generated as int,
        ..nothing()
    }));
    let t = total(all);
    lemma_grown(s.requested, t.requested, 0);
    lemma_grown(s.generated, t.generated, 0);
    lemma_grown(s.sent, t.sent, 0);
    lemma_grown(s.failed, t.failed, 0);
}

} // verus!
