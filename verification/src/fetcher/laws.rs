use vstd::prelude::*;
use crate::fetcher::backend::backend_labels;
use crate::fetcher::backend::AddrFamily;
use crate::fetcher::http_fetcher::AwaitingView;
use crate::fetcher::http_fetcher::FetchActionView;
use crate::fetcher::http_fetcher::FetchEventView;
use crate::fetcher::http_fetcher::FetchStateView;
use crate::fetcher::http_fetcher::HttpFetcherView;
use crate::record::last_v4;
use crate::record::last_v6;
use crate::record::FetcherRecordView;

verus! {

/// A result that is still fresh is handed out exactly as it is kept, and
/// no backend is asked.
pub proof fn lemma_fresh_result_is_reused(fetcher: HttpFetcherView, now: u64)
    requires
        fetcher.is_fresh(now),
    ensures
        fetcher.begin(now).1 == FetchActionView::Done(Ok(fetcher.cache->0)),
        fetcher.begin(now).0.awaiting is Nothing,
{
}

/// Without a fresh result the first backend is asked.
pub proof fn lemma_stale_result_is_refetched(fetcher: HttpFetcherView, now: u64)
    requires
        !fetcher.is_fresh(now),
    ensures
        fetcher.begin(now).1 == fetcher.request(0, AddrFamily::V4),
        fetcher.begin(now).1 is Get,
{
}

/// A fetch changes what the fetcher keeps only when it succeeds, and then
/// it keeps what it hands out: a failure leaves the last good result
/// alone.
pub proof fn lemma_only_success_replaces_kept_result(
    fetcher: HttpFetcherView,
    state: FetchStateView,
    event: FetchEventView,
    now: u64,
)
    ensures
        fetcher.step(state, event, now).2 is Done && fetcher.step(state, event, now).2->Done_0 is Ok
            ==> fetcher.step(state, event, now).0 == (HttpFetcherView {
            cache: Some(fetcher.step(state, event, now).2->Done_0->Ok_0),
            last_fetch_time: now,
            ..fetcher
        }),
        !(fetcher.step(state, event, now).2 is Done && fetcher.step(state, event, now).2->Done_0
            is Ok) ==> fetcher.step(state, event, now).0 == fetcher,
{
}

/// The result of a fetch that ended at time `at` is handed out again,
/// unchanged and without any request, by every fetch that begins less than
/// the lifetime later; a fetch that begins when the lifetime has passed
/// asks the backends anew.
pub proof fn lemma_result_is_reused_for_its_lifetime(
    fetcher: HttpFetcherView,
    state: FetchStateView,
    event: FetchEventView,
    at: u64,
    later: u64,
)
    requires
        fetcher.step(state, event, at).2 is Done,
        fetcher.step(state, event, at).2->Done_0 is Ok,
        at <= later,
    ensures
        later - at < fetcher.cache_alive_time * 1000 ==> fetcher.step(state, event, at).0.begin(
            later,
        ).1 == fetcher.step(state, event, at).2,
        later - at >= fetcher.cache_alive_time * 1000 ==> fetcher.step(state, event, at).0.begin(
            later,
        ).1 is Get,
{
}

/// The number of results that a fetch has when it waits in `state`.
pub open spec fn results_before(state: FetchStateView) -> int {
    2 * state.backend_index + if state.family == AddrFamily::V6 {
        1int
    } else {
        0int
    }
}

/// Whether `records` are the results of the backends in order: two for
/// each backend, its IPv4 address and then its IPv6 address, each with the
/// label of that backend.
pub open spec fn in_backend_order(fetcher: HttpFetcherView, records: Seq<FetcherRecordView>) -> bool {
    forall|k: int|
        0 <= k < records.len() ==> {
            &&& k / 2 < fetcher.backends.len()
            &&& (#[trigger] records[k]).labels == backend_labels(
                fetcher.backends[k / 2].spec_name(),
            )
            &&& k % 2 == 0 ==> records[k].value is A
            &&& k % 2 == 1 ==> records[k].value is AAAA
        }
}

/// Whether `state` is one that a fetch of `fetcher` can be in.
pub open spec fn consistent(fetcher: HttpFetcherView, state: FetchStateView) -> bool {
    match state.awaiting {
        AwaitingView::Nothing => true,
        AwaitingView::Body => {
            &&& 0 <= state.backend_index < fetcher.backends.len()
            &&& state.collected.len() == results_before(state)
            &&& in_backend_order(fetcher, state.collected)
        },
        AwaitingView::Address { labels } => {
            &&& 0 <= state.backend_index < fetcher.backends.len()
            &&& state.collected.len() == results_before(state)
            &&& in_backend_order(fetcher, state.collected)
            &&& labels == backend_labels(fetcher.backends[state.backend_index].spec_name())
        },
    }
}

/// A fetch begins in a consistent state.
pub proof fn lemma_begin_is_consistent(fetcher: HttpFetcherView, now: u64)
    requires
        fetcher.well_formed(),
    ensures
        consistent(fetcher, fetcher.begin(now).0),
{
}

/// Every step leads from a consistent state to a consistent state, and a
/// fetch that succeeds hands out two results for each backend, in the
/// order of the backends, IPv4 before IPv6, each with its backend's label.
pub proof fn lemma_step_keeps_order(
    fetcher: HttpFetcherView,
    state: FetchStateView,
    event: FetchEventView,
    now: u64,
)
    requires
        fetcher.well_formed(),
        consistent(fetcher, state),
        !(state.awaiting is Nothing),
    ensures
        consistent(fetcher.step(state, event, now).0, fetcher.step(state, event, now).1),
        fetcher.step(state, event, now).0.backends == fetcher.backends,
        fetcher.step(state, event, now).2 matches FetchActionView::Done(Ok(records)) ==> {
            &&& records.len() == 2 * fetcher.backends.len()
            &&& in_backend_order(fetcher, records)
        },
{
    let next = fetcher.step(state, event, now);
    match (state.awaiting, event) {
        (AwaitingView::Address { labels }, FetchEventView::Address(Ok(ip))) => {
            let record = crate::fetcher::http_fetcher::record_of(ip, labels);
            let collected = state.collected.push(record);
            if crate::fetcher::http_fetcher::family_of(ip) == state.family {
                assert forall|k: int| 0 <= k < collected.len() implies {
                    &&& k / 2 < fetcher.backends.len()
                    &&& (#[trigger] collected[k]).labels == backend_labels(
                        fetcher.backends[k / 2].spec_name(),
                    )
                    &&& k % 2 == 0 ==> collected[k].value is A
                    &&& k % 2 == 1 ==> collected[k].value is AAAA
                } by {
                    if k < state.collected.len() {
                        assert(collected[k] == state.collected[k]);
                    } else {
                        assert(k == results_before(state));
                    }
                }
                assert(in_backend_order(fetcher, collected));
                assert(in_backend_order(next.0, collected));
            }
        },
        _ => {},
    }
}

/// Where several backends report an address of the same family, the one
/// asked last counts: the public addresses taken from a complete result
/// are those that the last backend reported.
pub proof fn lemma_last_backend_wins(fetcher: HttpFetcherView, records: Seq<FetcherRecordView>)
    requires
        fetcher.well_formed(),
        records.len() == 2 * fetcher.backends.len(),
        in_backend_order(fetcher, records),
    ensures
        last_v4(records) == Some(records[records.len() - 2].value->A_0),
        last_v6(records) == Some(records[records.len() - 1].value->AAAA_0),
{
    let n = records.len() as int;
    assert((n - 1) % 2 == 1 && (n - 2) % 2 == 0) by (nonlinear_arith)
        requires
            n == 2 * fetcher.backends.len(),
            fetcher.backends.len() > 0,
    ;
    assert(records[n - 1].value is AAAA);
    assert(records[n - 2].value is A);
    assert(records.last() == records[n - 1]);
    assert(records.drop_last().last() == records[n - 2]);
    assert(last_v4(records) == last_v4(records.drop_last()));
}

} // verus!
