//! What holds of the dashboard as a whole.

use vstd::prelude::*;
use crate::connector::fetcher::{FetchTaskStatus, FetchUpdate};
use crate::id_table::{holds, lookup, other_than, without};
use crate::ids::Uuid;
use crate::market::{Kline, StreamView, Trade};
use crate::market_data::bridge::key_streamed;
use crate::market_data::consumer::ConsumerView;
use crate::market_data::coordinator_laws::law_removed_job_is_gone;
use crate::market_data::coverage::{covered_at, rows};
use crate::market_data::coverage_laws::tidy;
use crate::market_data::effect::CommandView;
use crate::market_data::job::JobView;
use crate::market_data::plan_laws::law_failed_ranges_are_not_covered;
use crate::market_data::range::MarketDataRange;
use crate::market_data::runtime::delivery_laws::requests_distinct;
use crate::market_data::runtime::laws::lemma_without_gone;
use crate::market_data::runtime::model::{consumer_at, RuntimeView};
use crate::market_data::runtime::worker_laws::law_stuck_ranges_fail_for_each;
use crate::market_data::runtime::workers::StaleView;
use crate::screen::dashboard::{
    ended_by, message_of, pane_ids, step_of, BackfillStep, DashboardView, Message,
    MARKET_DATA_JOB_STALE_MS,
};
use crate::screen::pane_action::PaneStatus;
use crate::time::UnixMs;

verus! {

/// Live data never counts as covered: whatever comes, what is known to be covered stays the same,
/// and so do the jobs and the requests that wait.
pub proof fn law_live_data_is_not_covered(
    d: DashboardView,
    stream: StreamView,
    kline: Kline,
    buffer: Seq<Trade>,
    update_t: UnixMs,
)
    ensures
        d.with_kline(stream, kline).runtime.coordinator.facts == d.runtime.coordinator.facts,
        d.with_kline(stream, kline).runtime.coordinator.jobs == d.runtime.coordinator.jobs,
        d.with_kline(stream, kline).runtime.consumers == d.runtime.consumers,
        d.with_trades(stream, buffer, update_t).runtime.coordinator.facts
            == d.runtime.coordinator.facts,
        d.with_trades(stream, buffer, update_t).runtime.coordinator.jobs
            == d.runtime.coordinator.jobs,
        d.with_trades(stream, buffer, update_t).runtime.consumers == d.runtime.consumers,
{
}

/// What is not there is not there after something else was removed.
proof fn lemma_without_absent<T>(rows: Seq<(Uuid, T)>, gone: Uuid, id: Uuid)
    requires
        !holds(rows, id),
    ensures
        !holds(without(rows, gone), id),
{
    let left = without(rows, gone);
    if holds(left, id) {
        let i = choose|i: int| 0 <= i < left.len() && (#[trigger] left[i]).0 == id;
        assert(left.contains(left[i]));
        rows.lemma_filter_contains_rev(other_than::<T>(gone), left[i]);
        let k = rows.index_of(left[i]);
        assert(rows[k].0 == id);
    }
}

/// Giving up on requests does not touch the jobs.
proof fn lemma_giving_up_keeps_jobs(s: RuntimeView, ids: Seq<Uuid>, range: MarketDataRange)
    ensures
        s.giving_up_each(ids, range).0.coordinator == s.coordinator,
    decreases ids.len(),
{
    if ids.len() > 0 {
        lemma_giving_up_keeps_jobs(s, ids.drop_last(), range);
    }
}

/// Each job that is given up is gone.
proof fn lemma_abandoned_jobs_are_gone(s: RuntimeView, jobs: Seq<StaleView>, i: int)
    requires
        0 <= i < jobs.len(),
    ensures
        !holds(s.abandoning_each(jobs).0.coordinator.jobs, jobs[i].job_id),
    decreases jobs.len(),
{
    let front = s.abandoning_each(jobs.drop_last()).0;
    let j = jobs.last();
    let ids = front.served_by(j.job_id);
    let given_up = front.giving_up_each(ids, j.range).0;
    lemma_giving_up_keeps_jobs(front, ids, j.range);
    let failed = given_up.coordinator.with_failure(j.job_id, "stale market data worker"@);
    assert(failed.jobs == front.coordinator.jobs);
    assert(s.abandoning_each(jobs).0.coordinator.jobs == without(failed.jobs, j.job_id));
    if i < jobs.len() - 1 {
        assert(jobs.drop_last()[i] == jobs[i]);
        lemma_abandoned_jobs_are_gone(s, jobs.drop_last(), i);
        lemma_without_absent(failed.jobs, j.job_id, jobs[i].job_id);
    } else {
        lemma_without_gone(failed.jobs, j.job_id);
    }
}

/// A job that has gone too long without a record is never kept: after the jobs without progress
/// were given up, none of them is left.
pub proof fn law_stale_jobs_are_gone(s: RuntimeView, now_ms: u64, i: int)
    requires
        0 <= i < s.stale_jobs(now_ms, MARKET_DATA_JOB_STALE_MS).len(),
    ensures
        lookup(
            s.abandoning(now_ms).0.coordinator.jobs,
            s.stale_jobs(now_ms, MARKET_DATA_JOB_STALE_MS)[i].job_id,
        ) is None,
{
    lemma_abandoned_jobs_are_gone(s, s.stale_jobs(now_ms, MARKET_DATA_JOB_STALE_MS), i);
}

/// News of a fetch concern the pane of the fetch, and carry on what they say. Only the end or the
/// failure of a fetch ends it.
pub proof fn law_news_reach_their_pane(update: FetchUpdate)
    ensures
        match update {
            FetchUpdate::Status { pane_id, status } => match status {
                FetchTaskStatus::Loading(info) => {
                    &&& message_of(update) == Message::ChangePaneStatus(
                        pane_id,
                        PaneStatus::Loading(info),
                    )
                    &&& step_of(update) == BackfillStep::SetLoading(info)
                    &&& ended_by(update) is None
                },
                FetchTaskStatus::Completed { req_id, fetch, empty_covered_tail } => {
                    &&& message_of(update) == (Message::FetchCompleted {
                        pane_id,
                        req_id,
                        fetch,
                        empty_covered_tail,
                    })
                    &&& step_of(update) == (BackfillStep::MarkFilled { fetch, empty_covered_tail })
                    &&& ended_by(update) == fetch
                },
            },
            FetchUpdate::Data { layout_id, pane_id, stream, data } => {
                &&& message_of(update) == (Message::DistributeFetchedData {
                    layout_id,
                    pane_id,
                    stream,
                    data,
                })
                &&& step_of(update) == (BackfillStep::Distribute { data })
                &&& ended_by(update) is None
            },
            FetchUpdate::Error { pane_id, error, req_id, fetch } => {
                &&& message_of(update) == (Message::FetchFailed { pane_id, error, req_id, fetch })
                &&& step_of(update) == (BackfillStep::Fail { pane_id, error })
                &&& ended_by(update) == fetch
            },
        },
{
}

/// The coverage is saved once more than half a minute has passed since it was last saved, and not
/// before.
pub proof fn law_coverage_is_saved_in_time(s: RuntimeView, clock: u64)
    ensures
        clock > s.last_coverage_save + 30_000 ==> s.saving(clock).last_coverage_save == clock
            && s.saving(clock).commands == s.commands.push(CommandView::SaveCoverage),
        clock <= s.last_coverage_save + 30_000 ==> s.saving(clock) == s,
        s.saving(clock).coordinator == s.coordinator && s.saving(clock).consumers == s.consumers,
{
}

/// Live records are noted as the last of their stream and stored, those of a stream that is not
/// known only noted.
pub proof fn law_live_records_are_noted_and_stored(
    d: DashboardView,
    stream: StreamView,
    kline: Kline,
    buffer: Seq<Trade>,
    update_t: UnixMs,
)
    ensures
        d.with_kline(stream, kline).backfills == d.backfills.seeing(stream, kline.time),
        buffer.len() > 0 ==> d.with_trades(stream, buffer, update_t).backfills
            == d.backfills.seeing(stream, buffer[buffer.len() - 1].time),
        buffer.len() == 0 ==> d.with_trades(stream, buffer, update_t).backfills
            == d.backfills.seeing(stream, update_t),
        key_streamed(stream) matches Some(key) ==> {
            &&& d.with_trades(stream, buffer, update_t).runtime.coordinator.store
                == d.runtime.coordinator.store.with_trades(key, buffer).with_trades(key, buffer)
            &&& d.with_kline(stream, kline).runtime.coordinator.store
                == d.runtime.coordinator.store.with_klines(key, seq![kline]).with_klines(
                key,
                seq![kline],
            )
        },
        key_streamed(stream) is None ==> d.with_trades(stream, buffer, update_t).runtime == d.runtime
            && d.with_kline(stream, kline).runtime == d.runtime,
{
}

/// Each job without progress is given up in turn: its range fails for each request that it serves,
/// counts as failed and not as covered, and the panes whose requests have all they need all the
/// same are handed out.
pub proof fn law_each_stuck_job_is_given_up(
    s: RuntimeView,
    jobs: Seq<StaleView>,
    j: JobView,
    ids: Seq<Uuid>,
    c: ConsumerView,
)
    requires
        jobs.len() > 0,
        ({
            let front = s.abandoning_each(jobs.drop_last()).0;
            &&& requests_distinct(front.consumers)
            &&& front.consumers.contains(c)
            &&& lookup(front.job_consumers, jobs.last().job_id) == Some(ids)
            &&& lookup(front.coordinator.jobs, jobs.last().job_id) == Some(j)
            &&& tidy(rows(front.coordinator.facts, j.key))
        }),
        ids.no_duplicates(),
        ids.contains(c.req_id),
        j.range == jobs.last().range,
        j.range.from.0 < j.range.to.0,
        !c.completed,
        !c.failed_segments.contains(j.range),
    ensures
        ({
            let (after, ready) = s.abandoning_each(jobs);
            let failed = ConsumerView { failed_segments: c.failed_segments.push(j.range), ..c };
            &&& consumer_at(after.consumers, c.req_id) == Some(
                ConsumerView { completed: failed.satisfied(), ..failed },
            )
            &&& failed.satisfied() ==> ready.contains(c.pane_id)
            &&& !covered_at(after.coordinator.facts, j.key, j.range)
            &&& lookup(after.coordinator.jobs, jobs.last().job_id) is None
        }),
{
    let (front, had) = s.abandoning_each(jobs.drop_last());
    let id = jobs.last().job_id;
    let reason = "stale market data worker"@;
    law_stuck_ranges_fail_for_each(front, ids, j.range, c);
    let (mid, told) = front.giving_up_each(ids, j.range);
    law_failed_ranges_are_not_covered(front.coordinator, id, j, reason);
    law_removed_job_is_gone(front.coordinator.with_failure(id, reason), id);
    let (after, ready) = s.abandoning_each(jobs);
    assert(front.served_by(id) == ids);
    assert(after == mid.failing_job(id, reason));
    assert(ready == had + pane_ids(told));
    let failed = ConsumerView { failed_segments: c.failed_segments.push(j.range), ..c };
    if failed.satisfied() {
        let k = choose|k: int| 0 <= k < told.len() && told[k] == failed;
        assert(ready[had.len() + k] == c.pane_id);
    }
}

} // verus!
