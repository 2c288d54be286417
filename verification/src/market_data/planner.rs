//! What has to be fetched, given what is needed and what is there.

use vstd::prelude::*;
use vstd::string::*;
use crate::market::PriceStep;
use crate::market_data::coverage::{
    clamp_usize, complete_at, missing_at, records_of, rows, CoverageLedger, Facts,
};
use crate::market_data::job::{FetchJob, JobView};
use crate::market_data::key::{KeyView, MarketDataKey};
use crate::market_data::range::MarketDataRange;
use crate::market_data::requirement::{
    add_consumer, group_views, with_consumer, ConsumerId, GroupView, RequirementGroup,
};
use crate::seqs::copy_rows;
use crate::seqs::lemma_filter_map_take;
use crate::text::{decimal, push_decimal};

verus! {

/// A stretch of data that is there already.
#[derive(Debug)]
pub struct CachedSegment {
    pub key: MarketDataKey,
    pub range: MarketDataRange,
    pub records: usize,
}

/// A stretch of data that is there already, as a value.
#[verifier::ext_equal]
pub struct CachedView {
    pub key: KeyView,
    pub range: MarketDataRange,
    pub records: usize,
}

impl View for CachedSegment {
    type V = CachedView;

    open spec fn view(&self) -> CachedView {
        CachedView { key: self.key@, range: self.range, records: self.records }
    }
}

impl Clone for CachedSegment {
    fn clone(&self) -> (s: Self)
        ensures
            s == *self,
    {
        CachedSegment { key: self.key.clone(), range: self.range, records: self.records }
    }
}

/// A stretch of data that has to be fetched.
#[derive(Debug)]
pub struct NetworkSegment {
    pub key: MarketDataKey,
    pub range: MarketDataRange,
    pub consumers: Vec<ConsumerId>,
}

/// A stretch of data that has to be fetched, as a value.
#[verifier::ext_equal]
pub struct NetworkView {
    pub key: KeyView,
    pub range: MarketDataRange,
    pub consumers: Seq<ConsumerId>,
}

impl View for NetworkSegment {
    type V = NetworkView;

    open spec fn view(&self) -> NetworkView {
        NetworkView { key: self.key@, range: self.range, consumers: self.consumers@ }
    }
}

impl Clone for NetworkSegment {
    fn clone(&self) -> (s: Self)
        ensures
            s@ == self@,
    {
        NetworkSegment {
            key: self.key.clone(),
            range: self.range,
            consumers: copy_rows(&self.consumers),
        }
    }
}

/// What is to be computed from raw data.
#[derive(Debug, Clone, Copy, PartialEq, Eq, Structural)]
pub enum DerivedKind {
    /// Volume bubbles from trades.
    VolumeBubbles { timeframe_ms: u64, price_step: PriceStep, max_candidates: usize },
}

/// A computation that follows the arrival of raw data.
#[derive(Debug)]
pub struct DerivedPlan {
    pub source_key: MarketDataKey,
    pub kind: DerivedKind,
    pub consumers: Vec<ConsumerId>,
}

/// What is there, what has to be fetched, and for whom.
#[derive(Debug)]
pub struct DataLoadPlan {
    pub cached_segments: Vec<CachedSegment>,
    pub network_segments: Vec<NetworkSegment>,
    pub derived_plans: Vec<DerivedPlan>,
    pub consumers: Vec<ConsumerId>,
    pub total_network_records_estimate: usize,
}

/// A plan as a value. Nothing plans computations yet; only their number matters.
#[verifier::ext_equal]
pub struct PlanView {
    pub cached: Seq<CachedView>,
    pub network: Seq<NetworkView>,
    pub derived: nat,
    pub consumers: Seq<ConsumerId>,
    pub estimate: usize,
}

/// The values of a list of cached segments.
pub open spec fn cached_views(s: Seq<CachedSegment>) -> Seq<CachedView> {
    s.map_values(|c: CachedSegment| c@)
}

/// The values of a list of network segments.
pub open spec fn network_views(s: Seq<NetworkSegment>) -> Seq<NetworkView> {
    s.map_values(|n: NetworkSegment| n@)
}

impl View for DataLoadPlan {
    type V = PlanView;

    open spec fn view(&self) -> PlanView {
        PlanView {
            cached: cached_views(self.cached_segments@),
            network: network_views(self.network_segments@),
            derived: self.derived_plans@.len(),
            consumers: self.consumers@,
            estimate: self.total_network_records_estimate,
        }
    }
}

impl PlanView {
    /// A plan with nothing to do.
    pub open spec fn empty() -> PlanView {
        PlanView {
            cached: Seq::empty(),
            network: Seq::empty(),
            derived: 0,
            consumers: Seq::empty(),
            estimate: 0,
        }
    }
}

/// The value of an optional plan.
pub open spec fn plan_of(p: Option<DataLoadPlan>) -> Option<PlanView> {
    match p {
        Some(plan) => Some(plan@),
        None => None,
    }
}

impl DataLoadPlan {
    /// A plan with nothing to do.
    pub fn empty() -> (p: Self)
        ensures
            p@ == PlanView::empty(),
    {
        let p = DataLoadPlan {
            cached_segments: Vec::new(),
            network_segments: Vec::new(),
            derived_plans: Vec::new(),
            consumers: Vec::new(),
            total_network_records_estimate: 0,
        };
        assert(p@ =~= PlanView::empty());
        p
    }

    /// True when anything has to be fetched.
    pub fn needs_network_fetch(&self) -> (r: bool)
        ensures
            r == (self@.network.len() > 0),
    {
        self.network_segments.len() > 0
    }

    /// True when anything is there already.
    pub fn has_cached_data(&self) -> (r: bool)
        ensures
            r == (self@.cached.len() > 0),
    {
        self.cached_segments.len() > 0
    }

    /// True when there is nothing to fetch and nothing to compute.
    pub fn is_empty(&self) -> (r: bool)
        ensures
            r == (self@.network.len() == 0 && self@.derived == 0),
    {
        self.network_segments.len() == 0 && self.derived_plans.len() == 0
    }

    /// The number of fetches.
    pub fn fetch_count(&self) -> (n: usize)
        ensures
            n == self@.network.len(),
    {
        self.network_segments.len()
    }

    /// The plan in one line of text.
    pub fn log_format(&self) -> (s: String)
        ensures
            s@ == "cached="@ + decimal(self@.cached.len()) + " network="@ + decimal(
                self@.network.len(),
            ) + " derived="@ + decimal(self@.derived) + " consumers="@ + decimal(
                self@.consumers.len(),
            ),
    {
        let mut s = String::from_str("cached=");
        push_decimal(&mut s, self.cached_segments.len() as u64);
        s.append(" network=");
        push_decimal(&mut s, self.network_segments.len() as u64);
        s.append(" derived=");
        push_decimal(&mut s, self.derived_plans.len() as u64);
        s.append(" consumers=");
        push_decimal(&mut s, self.consumers.len() as u64);
        s
    }

    /// The ranges and consumers of the plan in one line of text.
    pub fn runtime_summary(&self, active_jobs: usize) -> (s: String)
        ensures
            s@ == "cached=["@ + listed(
                self@.cached.map_values(|c: CachedView| c.range.display()),
            ) + "] network=["@ + listed(
                self@.network.map_values(|n: NetworkView| n.range.display()),
            ) + "] active_jobs="@ + decimal(active_jobs as nat) + " consumers=["@ + listed(
                self@.consumers.map_values(|c: ConsumerId| c.feature.short()),
            ) + "]"@,
    {
        let mut s = String::from_str("cached=[");
        let ghost cached = self@.cached.map_values(|c: CachedView| c.range.display());
        let ghost head = s@;
        let mut i: usize = 0;
        assert(s@ =~= head + listed(cached.take(0)));
        while i < self.cached_segments.len()
            invariant
                i <= self.cached_segments@.len(),
                cached == self@.cached.map_values(|c: CachedView| c.range.display()),
                s@ == head + listed(cached.take(i as int)),
            decreases self.cached_segments@.len() - i,
        {
            push_listed(&mut s, i, self.cached_segments[i].range.format_display().as_str());
            proof {
                lemma_listed_take(cached, i as int, head);
            }
            i = i + 1;
        }
        assert(cached.take(i as int) =~= cached);
        s.append("] network=[");
        let ghost network = self@.network.map_values(|n: NetworkView| n.range.display());
        let ghost head = s@;
        let mut j: usize = 0;
        assert(s@ =~= head + listed(network.take(0)));
        while j < self.network_segments.len()
            invariant
                j <= self.network_segments@.len(),
                network == self@.network.map_values(|n: NetworkView| n.range.display()),
                s@ == head + listed(network.take(j as int)),
            decreases self.network_segments@.len() - j,
        {
            push_listed(&mut s, j, self.network_segments[j].range.format_display().as_str());
            proof {
                lemma_listed_take(network, j as int, head);
            }
            j = j + 1;
        }
        assert(network.take(j as int) =~= network);
        s.append("] active_jobs=");
        push_decimal(&mut s, active_jobs as u64);
        s.append(" consumers=[");
        let ghost names = self@.consumers.map_values(|c: ConsumerId| c.feature.short());
        let ghost head = s@;
        let mut k: usize = 0;
        assert(s@ =~= head + listed(names.take(0)));
        while k < self.consumers.len()
            invariant
                k <= self.consumers@.len(),
                names == self@.consumers.map_values(|c: ConsumerId| c.feature.short()),
                s@ == head + listed(names.take(k as int)),
            decreases self.consumers@.len() - k,
        {
            push_listed(&mut s, k, self.consumers[k].feature.short_name());
            proof {
                lemma_listed_take(names, k as int, head);
            }
            k = k + 1;
        }
        assert(names.take(k as int) =~= names);
        s.append("]");
        s
    }
}

/// Texts in a row, separated by a comma and a space.
pub open spec fn listed(texts: Seq<Seq<char>>) -> Seq<char>
    decreases texts.len(),
{
    if texts.len() == 0 {
        Seq::empty()
    } else if texts.len() == 1 {
        texts[0]
    } else {
        listed(texts.drop_last()) + ", "@ + texts.last()
    }
}

/// Appends the text at place `i` of a list.
fn push_listed(out: &mut String, i: usize, text: &str)
    ensures
        final(out)@ == if i == 0 {
            old(out)@ + text@
        } else {
            old(out)@ + ", "@ + text@
        },
{
    if i > 0 {
        out.append(", ");
    }
    out.append(text);
}

proof fn lemma_listed_take(texts: Seq<Seq<char>>, i: int, head: Seq<char>)
    requires
        0 <= i < texts.len(),
    ensures
        head + listed(texts.take(i + 1)) == if i == 0 {
            head + listed(texts.take(i)) + texts[i]
        } else {
            head + listed(texts.take(i)) + ", "@ + texts[i]
        },
{
    let next = texts.take(i + 1);
    assert(next.drop_last() =~= texts.take(i));
    assert(next.last() == texts[i]);
    if i == 0 {
        assert(texts.take(0) =~= Seq::<Seq<char>>::empty());
        assert(head + listed(next) =~= head + listed(texts.take(0)) + texts[0]);
    } else {
        assert(head + listed(next) =~= head + listed(texts.take(i)) + ", "@ + texts[i]);
    }
}

/// The fetches that a group needs: one for each missing part of its range.
pub open spec fn fetches_for(g: GroupView, facts: Facts) -> Seq<NetworkView> {
    missing_at(facts, g.key, g.merged_range).map_values(
        |r: MarketDataRange| NetworkView { key: g.key, range: r, consumers: g.consumers },
    )
}

/// The part of a complete range that a group needs.
pub open spec fn cached_part(g: GroupView, complete: MarketDataRange) -> Option<CachedView> {
    match g.merged_range.common(complete) {
        Some(range) if g.merged_range.crosses(complete) => Some(
            CachedView { key: g.key, range, records: 0 },
        ),
        _ => None,
    }
}

/// What is there for a group: its whole range with the records of the stream where nothing is
/// missing, else the complete parts of its range.
pub open spec fn cached_for(g: GroupView, facts: Facts) -> Seq<CachedView> {
    if missing_at(facts, g.key, g.merged_range).len() == 0 {
        seq![
            CachedView {
                key: g.key,
                range: g.merged_range,
                records: clamp_usize(records_of(rows(facts, g.key))),
            },
        ]
    } else {
        complete_at(facts, g.key).filter_map(|r: MarketDataRange| cached_part(g, r))
    }
}

/// All consumers of `more`, after those of `s`, each once.
pub open spec fn with_consumers(s: Seq<ConsumerId>, more: Seq<ConsumerId>) -> Seq<ConsumerId>
    decreases more.len(),
{
    if more.len() == 0 {
        s
    } else {
        with_consumer(with_consumers(s, more.drop_last()), more.last())
    }
}

/// The plan for groups, before the estimate.
pub open spec fn gathered(groups: Seq<GroupView>, facts: Facts) -> PlanView
    decreases groups.len(),
{
    if groups.len() == 0 {
        PlanView::empty()
    } else {
        let front = gathered(groups.drop_last(), facts);
        let g = groups.last();
        PlanView {
            cached: front.cached + cached_for(g, facts),
            network: front.network + fetches_for(g, facts),
            consumers: with_consumers(front.consumers, g.consumers),
            ..front
        }
    }
}

/// The plan for groups, given what is complete.
pub open spec fn planned(groups: Seq<GroupView>, facts: Facts) -> PlanView {
    let p = gathered(groups, facts);
    PlanView { estimate: clamp_usize(p.network.len() * 5_000), ..p }
}

fn add_consumers(consumers: &mut Vec<ConsumerId>, more: &Vec<ConsumerId>)
    ensures
        final(consumers)@ == with_consumers(old(consumers)@, more@),
{
    let ghost start = consumers@;
    let mut i: usize = 0;
    assert(more@.take(0) =~= Seq::<ConsumerId>::empty());
    while i < more.len()
        invariant
            i <= more@.len(),
            consumers@ == with_consumers(start, more@.take(i as int)),
        decreases more@.len() - i,
    {
        add_consumer(consumers, more[i]);
        proof {
            let next = more@.take(i + 1);
            assert(next.drop_last() =~= more@.take(i as int));
            assert(next.last() == more@[i as int]);
        }
        i = i + 1;
    }
    assert(more@.take(i as int) =~= more@);
}

fn network_segments_for(group: &RequirementGroup, missing: &Vec<MarketDataRange>) -> (r: Vec<
    NetworkSegment,
>)
    ensures
        network_views(r@) == missing@.map_values(
            |r: MarketDataRange|
                NetworkView { key: group@.key, range: r, consumers: group@.consumers },
        ),
{
    let ghost goal = missing@.map_values(
        |r: MarketDataRange| NetworkView { key: group@.key, range: r, consumers: group@.consumers },
    );
    let mut out: Vec<NetworkSegment> = Vec::new();
    let mut i: usize = 0;
    while i < missing.len()
        invariant
            i <= missing@.len(),
            goal == missing@.map_values(
                |r: MarketDataRange|
                    NetworkView { key: group@.key, range: r, consumers: group@.consumers },
            ),
            network_views(out@) == goal.take(i as int),
        decreases missing@.len() - i,
    {
        let segment = NetworkSegment {
            key: group.key.clone(),
            range: missing[i],
            consumers: copy_rows(&group.consumers),
        };
        let ghost before = out@;
        out.push(segment);
        proof {
            assert(segment@ =~= goal[i as int]);
            assert(network_views(out@) =~= network_views(before).push(segment@));
            assert(goal.take(i + 1) =~= goal.take(i as int).push(goal[i as int]));
        }
        i = i + 1;
    }
    assert(goal.take(i as int) =~= goal);
    out
}

fn cached_segments_for(group: &RequirementGroup, complete: &Vec<MarketDataRange>) -> (r: Vec<
    CachedSegment,
>)
    ensures
        cached_views(r@) == complete@.filter_map(|r: MarketDataRange| cached_part(group@, r)),
{
    let ghost f = |r: MarketDataRange| cached_part(group@, r);
    let mut out: Vec<CachedSegment> = Vec::new();
    let mut i: usize = 0;
    assert(cached_views(out@) =~= complete@.take(0).filter_map(f));
    while i < complete.len()
        invariant
            i <= complete@.len(),
            f == (|r: MarketDataRange| cached_part(group@, r)),
            cached_views(out@) == complete@.take(i as int).filter_map(f),
        decreases complete@.len() - i,
    {
        proof {
            lemma_filter_map_take(complete@, i as int, f);
        }
        let range = complete[i];
        if group.merged_range.overlaps(&range) {
            if let Some(overlap) = group.merged_range.intersection(&range) {
                let segment = CachedSegment { key: group.key.clone(), range: overlap, records: 0 };
                let ghost before = out@;
                out.push(segment);
                assert(cached_views(out@) =~= cached_views(before).push(segment@));
            }
        }
        i = i + 1;
    }
    assert(complete@.take(i as int) =~= complete@);
    out
}

/// The plan for groups of needs, given what is complete.
pub fn compute_plan(groups: Vec<RequirementGroup>, coverage: &CoverageLedger) -> (p: DataLoadPlan)
    ensures
        p@ == planned(group_views(groups@), coverage.facts()),
{
    let mut plan = DataLoadPlan::empty();
    let ghost views = group_views(groups@);
    let ghost facts = coverage.facts();
    let mut i: usize = 0;
    assert(views.take(0) =~= Seq::<GroupView>::empty());
    while i < groups.len()
        invariant
            i <= groups@.len(),
            views == group_views(groups@),
            facts == coverage.facts(),
            plan@ == gathered(views.take(i as int), facts),
        decreases groups@.len() - i,
    {
        let group = &groups[i];
        let missing = coverage.compute_missing(&group.key, group.merged_range);
        proof {
            let next = views.take(i + 1);
            assert(next.drop_last() =~= views.take(i as int));
            assert(next.last() == group@);
        }
        let ghost before = plan@;
        if missing.len() == 0 {
            let segment = CachedSegment {
                key: group.key.clone(),
                range: group.merged_range,
                records: coverage.total_records(&group.key),
            };
            let ghost old_cached = plan.cached_segments@;
            plan.cached_segments.push(segment);
            proof {
                assert(cached_views(plan.cached_segments@) =~= cached_views(old_cached) + seq![
                    segment@,
                ]);
                assert(fetches_for(group@, facts) =~= Seq::<NetworkView>::empty());
                assert(before.network + fetches_for(group@, facts) =~= before.network);
            }
        } else {
            let mut fetches = network_segments_for(group, &missing);
            let ghost new_fetches = fetches@;
            let ghost old_network = plan.network_segments@;
            plan.network_segments.append(&mut fetches);
            let complete = coverage.complete_ranges(&group.key);
            let mut parts = cached_segments_for(group, &complete);
            let ghost new_parts = parts@;
            let ghost old_cached = plan.cached_segments@;
            plan.cached_segments.append(&mut parts);
            proof {
                assert(network_views(plan.network_segments@) =~= network_views(old_network)
                    + network_views(new_fetches));
                assert(cached_views(plan.cached_segments@) =~= cached_views(old_cached)
                    + cached_views(new_parts));
            }
        }
        add_consumers(&mut plan.consumers, &group.consumers);
        assert(plan@ =~= gathered(views.take(i + 1), facts));
        i = i + 1;
    }
    assert(views.take(i as int) =~= views);
    let n: usize = plan.network_segments.len();
    plan.total_network_records_estimate = match n.checked_mul(5_000) {
        Some(e) => e,
        None => usize::MAX,
    };
    plan
}

/// One job for each fetch of the plan, with each consumer once.
pub fn plan_to_jobs(plan: &DataLoadPlan) -> (jobs: Vec<FetchJob>)
    ensures
        jobs@.len() == plan@.network.len(),
        forall|i: int|
            0 <= i < jobs@.len() ==> (#[trigger] jobs@[i])@ == JobView::pending(
                jobs@[i].id,
                plan@.network[i].key,
                plan@.network[i].range,
                with_consumers(Seq::empty(), plan@.network[i].consumers),
                jobs@[i].created_at,
            ),
{
    let mut jobs: Vec<FetchJob> = Vec::new();
    let mut i: usize = 0;
    while i < plan.network_segments.len()
        invariant
            i <= plan.network_segments@.len(),
            jobs@.len() == i,
            forall|k: int|
                0 <= k < i ==> (#[trigger] jobs@[k])@ == JobView::pending(
                    jobs@[k].id,
                    plan@.network[k].key,
                    plan@.network[k].range,
                    with_consumers(Seq::empty(), plan@.network[k].consumers),
                    jobs@[k].created_at,
                ),
        decreases plan.network_segments@.len() - i,
    {
        let segment = &plan.network_segments[i];
        let mut consumers: Vec<ConsumerId> = Vec::new();
        add_consumers(&mut consumers, &segment.consumers);
        jobs.push(FetchJob::new(segment.key.clone(), segment.range, consumers));
        i = i + 1;
    }
    jobs
}

} // verus!
