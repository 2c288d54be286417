//! Declared needs for market data and their grouping by stream.

use vstd::prelude::*;
use vstd::string::*;
use crate::ids::{hyphenated, short_id, Uuid};
use crate::market_data::key::{KeyView, MarketDataKey};
use crate::market_data::range::MarketDataRange;
use crate::sorting::{lemma_sorted, lemma_sorted_map, sort_ranked, sorted_by_rank, Rank, Ranked};

verus! {

/// Who needs data: a feature, of one pane or of the whole application.
#[derive(Debug, Clone, Copy, PartialEq, Eq, Hash, Structural)]
pub struct ConsumerId {
    pub pane_id: Option<Uuid>,
    pub feature: ConsumerFeature,
}

impl ConsumerId {
    /// A feature of one pane.
    pub fn pane(pane_id: Uuid, feature: ConsumerFeature) -> (c: Self)
        ensures
            c == (ConsumerId { pane_id: Some(pane_id), feature }),
    {
        ConsumerId { pane_id: Some(pane_id), feature }
    }

    /// A feature of the whole application.
    pub fn global(feature: ConsumerFeature) -> (c: Self)
        ensures
            c == (ConsumerId { pane_id: None, feature }),
    {
        ConsumerId { pane_id: None, feature }
    }

    /// The text of the consumer, such as `Bubbles:pane=abcd1234`.
    pub fn display_id(&self) -> (s: String)
        ensures
            s@ == match self.pane_id {
                Some(id) => self.feature.short() + ":pane="@ + hyphenated(id.0).take(8),
                None => self.feature.short(),
            },
    {
        let mut s = String::from_str(self.feature.short_name());
        if let Some(id) = self.pane_id {
            s.append(":pane=");
            s.append(short_id(id).as_str());
        }
        s
    }
}

/// What data is needed for.
#[derive(Debug, Clone, Copy, PartialEq, Eq, Hash, Structural)]
pub enum ConsumerFeature {
    /// Candles on a chart.
    ChartKlines,
    /// Footprint chart, drawn from single trades.
    Footprint,
    /// Volume bubbles.
    VolumeBubbles,
    /// Single trades behind the delta indicators of a candle chart.
    TradeHydration,
    /// Volume profile of a session.
    SessionVolumeProfile,
    /// Volume weighted average price.
    VWAP,
    /// Open interest indicator.
    OpenInterest,
    /// Overlay of several instruments.
    ComparisonChart,
    /// Filling gaps after a lost connection.
    Backfill,
}

impl ConsumerFeature {
    /// The name on screen.
    pub open spec fn long(self) -> Seq<char> {
        match self {
            ConsumerFeature::ChartKlines => "Chart Klines"@,
            ConsumerFeature::Footprint => "Footprint"@,
            ConsumerFeature::VolumeBubbles => "Volume Bubbles"@,
            ConsumerFeature::TradeHydration => "Trade Hydration"@,
            ConsumerFeature::SessionVolumeProfile => "Session Volume Profile"@,
            ConsumerFeature::VWAP => "VWAP"@,
            ConsumerFeature::OpenInterest => "Open Interest"@,
            ConsumerFeature::ComparisonChart => "Comparison Chart"@,
            ConsumerFeature::Backfill => "Backfill"@,
        }
    }

    /// The short name.
    pub open spec fn short(self) -> Seq<char> {
        match self {
            ConsumerFeature::ChartKlines => "Klines"@,
            ConsumerFeature::Footprint => "Footprint"@,
            ConsumerFeature::VolumeBubbles => "Bubbles"@,
            ConsumerFeature::TradeHydration => "TradeHydration"@,
            ConsumerFeature::SessionVolumeProfile => "SVP"@,
            ConsumerFeature::VWAP => "VWAP"@,
            ConsumerFeature::OpenInterest => "OI"@,
            ConsumerFeature::ComparisonChart => "Comparison"@,
            ConsumerFeature::Backfill => "Backfill"@,
        }
    }

    /// The name on screen.
    pub fn display_name(&self) -> (s: &'static str)
        ensures
            s@ == self.long(),
    {
        match self {
            ConsumerFeature::ChartKlines => "Chart Klines",
            ConsumerFeature::Footprint => "Footprint",
            ConsumerFeature::VolumeBubbles => "Volume Bubbles",
            ConsumerFeature::TradeHydration => "Trade Hydration",
            ConsumerFeature::SessionVolumeProfile => "Session Volume Profile",
            ConsumerFeature::VWAP => "VWAP",
            ConsumerFeature::OpenInterest => "Open Interest",
            ConsumerFeature::ComparisonChart => "Comparison Chart",
            ConsumerFeature::Backfill => "Backfill",
        }
    }

    /// The short name.
    pub fn short_name(&self) -> (s: &'static str)
        ensures
            s@ == self.short(),
    {
        match self {
            ConsumerFeature::ChartKlines => "Klines",
            ConsumerFeature::Footprint => "Footprint",
            ConsumerFeature::VolumeBubbles => "Bubbles",
            ConsumerFeature::TradeHydration => "TradeHydration",
            ConsumerFeature::SessionVolumeProfile => "SVP",
            ConsumerFeature::VWAP => "VWAP",
            ConsumerFeature::OpenInterest => "OI",
            ConsumerFeature::ComparisonChart => "Comparison",
            ConsumerFeature::Backfill => "Backfill",
        }
    }

    /// True when the feature is drawn from single trades.
    pub fn requires_trades(&self) -> (r: bool)
        ensures
            r == (*self is Footprint || *self is VolumeBubbles || *self is TradeHydration
                || *self is SessionVolumeProfile || *self is VWAP),
    {
        matches!(
            self,
            ConsumerFeature::Footprint
            | ConsumerFeature::VolumeBubbles
            | ConsumerFeature::TradeHydration
            | ConsumerFeature::SessionVolumeProfile
            | ConsumerFeature::VWAP
        )
    }

    /// True when the feature is drawn from candles.
    pub fn requires_klines(&self) -> (r: bool)
        ensures
            r == (*self is ChartKlines || *self is ComparisonChart),
    {
        matches!(self, ConsumerFeature::ChartKlines | ConsumerFeature::ComparisonChart)
    }

    /// True when the feature is drawn from open interest.
    pub fn requires_open_interest(&self) -> (r: bool)
        ensures
            r == (*self is OpenInterest),
    {
        matches!(self, ConsumerFeature::OpenInterest)
    }
}

/// How urgent a need is.
#[derive(Debug, Clone, Copy, PartialEq, Eq, PartialOrd, Ord, Hash, Structural)]
pub enum Priority {
    /// In the background.
    Low,
    /// Nothing special.
    Normal,
    /// Visible to the user.
    High,
    /// Nothing can be drawn without it.
    Critical,
}

impl Default for Priority {
    fn default() -> (p: Self)
        ensures
            p == Priority::Normal,
    {
        Priority::Normal
    }
}

impl Priority {
    /// The urgency as a number.
    pub open spec fn level(self) -> int {
        match self {
            Priority::Low => 0,
            Priority::Normal => 1,
            Priority::High => 2,
            Priority::Critical => 3,
        }
    }

    /// The more urgent of two.
    pub open spec fn more_urgent(self, other: Priority) -> Priority {
        if other.level() > self.level() {
            other
        } else {
            self
        }
    }

    /// The urgency as a number.
    pub fn as_level(self) -> (n: u8)
        ensures
            n == self.level(),
    {
        match self {
            Priority::Low => 0,
            Priority::Normal => 1,
            Priority::High => 2,
            Priority::Critical => 3,
        }
    }

    /// The more urgent of two.
    pub fn most_urgent(self, other: Priority) -> (p: Priority)
        ensures
            p == self.more_urgent(other),
    {
        if other.as_level() > self.as_level() {
            other
        } else {
            self
        }
    }

    /// The name of the priority.
    pub fn label(self) -> (s: &'static str)
        ensures
            s@ == match self {
                Priority::Low => "Low"@,
                Priority::Normal => "Normal"@,
                Priority::High => "High"@,
                Priority::Critical => "Critical"@,
            },
    {
        match self {
            Priority::Low => "Low",
            Priority::Normal => "Normal",
            Priority::High => "High",
            Priority::Critical => "Critical",
        }
    }
}

/// A need for data, declared by a chart or an indicator.
#[derive(Debug, PartialEq, Eq)]
pub struct DataRequirement {
    pub consumer: ConsumerId,
    pub key: MarketDataKey,
    pub range: MarketDataRange,
    pub priority: Priority,
    pub reason: String,
}

/// A need for data, as a value.
#[verifier::ext_equal]
pub struct RequirementView {
    pub consumer: ConsumerId,
    pub key: KeyView,
    pub range: MarketDataRange,
    pub priority: Priority,
    pub reason: Seq<char>,
}

impl View for DataRequirement {
    type V = RequirementView;

    open spec fn view(&self) -> RequirementView {
        RequirementView {
            consumer: self.consumer,
            key: self.key@,
            range: self.range,
            priority: self.priority,
            reason: self.reason@,
        }
    }
}

impl Clone for DataRequirement {
    fn clone(&self) -> (r: Self)
        ensures
            r == *self,
    {
        DataRequirement {
            consumer: self.consumer,
            key: self.key.clone(),
            range: self.range,
            priority: self.priority,
            reason: self.reason.clone(),
        }
    }
}

/// The values of a list of needs.
pub open spec fn requirement_views(reqs: Seq<DataRequirement>) -> Seq<RequirementView> {
    reqs.map_values(|r: DataRequirement| r@)
}

impl DataRequirement {
    /// A need as given.
    pub fn new(
        consumer: ConsumerId,
        key: MarketDataKey,
        range: MarketDataRange,
        priority: Priority,
        reason: &str,
    ) -> (r: Self)
        ensures
            r@ == (RequirementView { consumer, key: key@, range, priority, reason: reason@ }),
    {
        DataRequirement { consumer, key, range, priority, reason: String::from_str(reason) }
    }

    /// An urgent need for what is on screen.
    pub fn visible_range(
        consumer: ConsumerId,
        key: MarketDataKey,
        range: MarketDataRange,
    ) -> (r: Self)
        ensures
            r@ == (RequirementView {
                consumer,
                key: key@,
                range,
                priority: Priority::High,
                reason: "visible range"@,
            }),
    {
        Self::new(consumer, key, range, Priority::High, "visible range")
    }

    /// A need for the trades of a session.
    pub fn session(consumer: ConsumerId, key: MarketDataKey, range: MarketDataRange) -> (r: Self)
        ensures
            r@ == (RequirementView {
                consumer,
                key: key@,
                range,
                priority: Priority::Normal,
                reason: "session trades"@,
            }),
    {
        Self::new(consumer, key, range, Priority::Normal, "session trades")
    }

    /// A need that can wait.
    pub fn backfill(consumer: ConsumerId, key: MarketDataKey, range: MarketDataRange) -> (r: Self)
        ensures
            r@ == (RequirementView {
                consumer,
                key: key@,
                range,
                priority: Priority::Low,
                reason: "backfill"@,
            }),
    {
        Self::new(consumer, key, range, Priority::Low, "backfill")
    }

    /// The need in one line of text.
    pub fn log_format(&self) -> (s: String)
        ensures
            s@ == "consumer="@ + self.consumer.feature.short() + " key="@ + self.key@.display()
                + " range="@ + self.range.display() + " priority="@ + (match self.priority {
                Priority::Low => "Low"@,
                Priority::Normal => "Normal"@,
                Priority::High => "High"@,
                Priority::Critical => "Critical"@,
            }) + " reason="@ + self.reason@,
    {
        let mut s = String::from_str("consumer=");
        s.append(self.consumer.feature.short_name());
        s.append(" key=");
        s.append(self.key.display_key().as_str());
        s.append(" range=");
        s.append(self.range.format_display().as_str());
        s.append(" priority=");
        s.append(self.priority.label());
        s.append(" reason=");
        s.append(self.reason.as_str());
        s
    }
}

/// The consumers of `s`, with `c` once.
pub open spec fn with_consumer(s: Seq<ConsumerId>, c: ConsumerId) -> Seq<ConsumerId> {
    if s.contains(c) {
        s
    } else {
        s.push(c)
    }
}

/// Adds a consumer to a list that holds each one once.
pub fn add_consumer(consumers: &mut Vec<ConsumerId>, c: ConsumerId)
    ensures
        final(consumers)@ == with_consumer(old(consumers)@, c),
{
    let mut i: usize = 0;
    while i < consumers.len()
        invariant
            i <= consumers@.len(),
            consumers@ == old(consumers)@,
            forall|j: int| 0 <= j < i ==> consumers@[j] != c,
        decreases consumers@.len() - i,
    {
        if consumers[i] == c {
            return;
        }
        i = i + 1;
    }
    consumers.push(c);
}

/// All needs for one stream.
#[derive(Debug)]
pub struct RequirementGroup {
    pub key: MarketDataKey,
    pub requirements: Vec<DataRequirement>,
    pub merged_range: MarketDataRange,
    pub consumers: Vec<ConsumerId>,
    pub max_priority: Priority,
}

/// All needs for one stream, as a value.
#[verifier::ext_equal]
pub struct GroupView {
    pub key: KeyView,
    pub requirements: Seq<RequirementView>,
    pub merged_range: MarketDataRange,
    pub consumers: Seq<ConsumerId>,
    pub max_priority: Priority,
}

impl View for RequirementGroup {
    type V = GroupView;

    open spec fn view(&self) -> GroupView {
        GroupView {
            key: self.key@,
            requirements: requirement_views(self.requirements@),
            merged_range: self.merged_range,
            consumers: self.consumers@,
            max_priority: self.max_priority,
        }
    }
}

impl Rank for GroupView {
    open spec fn rank(&self) -> int {
        -self.max_priority.level()
    }
}

impl Rank for RequirementGroup {
    open spec fn rank(&self) -> int {
        -self.max_priority.level()
    }
}

impl Ranked for RequirementGroup {
    fn ranks_after(&self, other: &Self) -> (after: bool) {
        self.max_priority.as_level() < other.max_priority.as_level()
    }
}

impl GroupView {
    /// The group of a single need.
    pub open spec fn single(req: RequirementView) -> GroupView {
        GroupView {
            key: req.key,
            requirements: seq![req],
            merged_range: req.range,
            consumers: seq![req.consumer],
            max_priority: req.priority,
        }
    }

    /// The group with one more need.
    pub open spec fn with(self, req: RequirementView) -> GroupView {
        GroupView {
            key: self.key,
            requirements: self.requirements.push(req),
            merged_range: self.merged_range.hull(req.range),
            consumers: with_consumer(self.consumers, req.consumer),
            max_priority: self.max_priority.more_urgent(req.priority),
        }
    }
}

/// The index of the group of `key`, or `groups.len()`.
pub open spec fn group_index(groups: Seq<GroupView>, key: KeyView) -> int
    decreases groups.len(),
{
    if groups.len() == 0 || groups[0].key == key {
        0
    } else {
        1 + group_index(groups.skip(1), key)
    }
}

/// `groups` with one more need, put into the group of its stream.
pub open spec fn with_requirement(groups: Seq<GroupView>, req: RequirementView) -> Seq<GroupView> {
    let i = group_index(groups, req.key);
    if i < groups.len() {
        groups.update(i, groups[i].with(req))
    } else {
        groups.push(GroupView::single(req))
    }
}

/// The needs in one group for each stream, in the order in which the streams first occur.
pub open spec fn grouped(reqs: Seq<RequirementView>) -> Seq<GroupView>
    decreases reqs.len(),
{
    if reqs.len() == 0 {
        Seq::empty()
    } else {
        with_requirement(grouped(reqs.drop_last()), reqs.last())
    }
}

/// The groups of the needs, the most urgent first.
pub open spec fn grouped_by_urgency(reqs: Seq<RequirementView>) -> Seq<GroupView> {
    sorted_by_rank(grouped(reqs))
}

proof fn lemma_group_index(groups: Seq<GroupView>, key: KeyView, i: int)
    requires
        0 <= i <= groups.len(),
        i < groups.len() ==> groups[i].key == key,
        forall|j: int| 0 <= j < i ==> (#[trigger] groups[j]).key != key,
    ensures
        group_index(groups, key) == i,
    decreases groups.len(),
{
    if i > 0 {
        assert(groups[0].key != key);
        let rest = groups.skip(1);
        assert forall|j: int| 0 <= j < i - 1 implies (#[trigger] rest[j]).key != key by {
            assert(rest[j] == groups[j + 1]);
        }
        lemma_group_index(rest, key, i - 1);
    }
}

proof fn lemma_group_index_bounds(groups: Seq<GroupView>, key: KeyView)
    ensures
        0 <= group_index(groups, key) <= groups.len(),
        group_index(groups, key) < groups.len() ==> groups[group_index(groups, key)].key == key,
        forall|j: int| 0 <= j < group_index(groups, key) ==> (#[trigger] groups[j]).key != key,
    decreases groups.len(),
{
    if groups.len() > 0 && groups[0].key != key {
        let rest = groups.skip(1);
        lemma_group_index_bounds(rest, key);
        assert forall|j: int| 0 <= j < group_index(groups, key) implies (#[trigger] groups[j]).key
            != key by {
            if j > 0 {
                assert(rest[j - 1] == groups[j]);
            }
        }
    }
}

/// The values of a list of groups.
pub open spec fn group_views(groups: Seq<RequirementGroup>) -> Seq<GroupView> {
    groups.map_values(|g: RequirementGroup| g@)
}

/// The index of the group of `key`, or the count of groups.
fn find_group(groups: &Vec<RequirementGroup>, key: &MarketDataKey) -> (i: usize)
    ensures
        i == group_index(group_views(groups@), key@),
{
    let ghost views = group_views(groups@);
    let mut i: usize = 0;
    while i < groups.len()
        invariant
            i <= groups@.len(),
            views == group_views(groups@),
            forall|j: int| 0 <= j < i ==> (#[trigger] views[j]).key != key@,
        decreases groups@.len() - i,
    {
        assert(views[i as int] == groups@[i as int]@);
        if groups[i].key.same(key) {
            proof {
                lemma_group_index(views, key@, i as int);
            }
            return i;
        }
        i = i + 1;
    }
    proof {
        lemma_group_index(views, key@, i as int);
    }
    i
}

impl RequirementGroup {
    /// The group of a single need.
    pub fn from_requirement(req: DataRequirement) -> (g: Self)
        ensures
            g@ == GroupView::single(req@),
    {
        let key = req.key.clone();
        let merged_range = req.range;
        let max_priority = req.priority;
        let mut consumers: Vec<ConsumerId> = Vec::new();
        consumers.push(req.consumer);
        let mut requirements: Vec<DataRequirement> = Vec::new();
        requirements.push(req);
        let g = RequirementGroup { key, requirements, merged_range, consumers, max_priority };
        assert(g@ =~= GroupView::single(req@));
        g
    }

    /// The needs in one group for each stream, the most urgent group first. Groups of equal
    /// urgency stand in the order in which their streams first occur.
    pub fn from_requirements(requirements: Vec<DataRequirement>) -> (groups: Vec<Self>)
        ensures
            group_views(groups@) == grouped_by_urgency(requirement_views(requirements@)),
    {
        let ghost views = requirement_views(requirements@);
        let ghost source = requirements@;
        let mut groups: Vec<RequirementGroup> = Vec::new();
        assert(views.take(0) =~= Seq::empty());
        assert(group_views(groups@) =~= grouped(views.take(0)));
        let mut n: usize = 0;
        while n < requirements.len()
            invariant
                n <= requirements@.len(),
                requirements@ == source,
                views == requirement_views(source),
                group_views(groups@) == grouped(views.take(n as int)),
            decreases requirements@.len() - n,
        {
            let req = requirements[n].clone();
            let ghost before = group_views(groups@);
            let i = find_group(&groups, &req.key);
            proof {
                lemma_group_index_bounds(before, req@.key);
                let next = views.take(n + 1);
                assert(next.drop_last() =~= views.take(n as int));
                assert(next.last() == req@);
            }
            if i < groups.len() {
                let ghost old_groups = groups@;
                let mut group = groups.remove(i);
                group.add(req);
                groups.insert(i, group);
                assert(groups@ =~= old_groups.update(i as int, group));
                assert(group_views(groups@) =~= before.update(i as int, before[i as int].with(req@)));
            } else {
                let group = Self::from_requirement(req);
                groups.push(group);
                assert(group_views(groups@) =~= before.push(GroupView::single(req@)));
            }
            n = n + 1;
        }
        assert(views.take(n as int) =~= views);
        proof {
            lemma_sorted_map(groups@, |g: RequirementGroup| g@);
        }
        sort_ranked(&mut groups);
        groups
    }

    /// Adds a need to the group. The range grows to hold it.
    pub fn add(&mut self, req: DataRequirement)
        ensures
            final(self)@ == old(self)@.with(req@),
    {
        self.merged_range = MarketDataRange::new_unchecked(
            self.merged_range.from.earlier_of(req.range.from),
            self.merged_range.to.later_of(req.range.to),
        );
        add_consumer(&mut self.consumers, req.consumer);
        self.max_priority = self.max_priority.most_urgent(req.priority);
        let ghost before = self.requirements@;
        self.requirements.push(req);
        assert(requirement_views(self.requirements@) =~= requirement_views(before).push(req@));
    }

    /// The short names of the consumers, separated by commas.
    pub fn consumer_names(&self) -> (s: String)
        ensures
            s@ == joined_names(self.consumers@),
    {
        names_of(&self.consumers)
    }
}

/// The short names of consumers, separated by commas.
pub open spec fn joined_names(consumers: Seq<ConsumerId>) -> Seq<char>
    decreases consumers.len(),
{
    if consumers.len() == 0 {
        Seq::empty()
    } else if consumers.len() == 1 {
        consumers[0].feature.short()
    } else {
        joined_names(consumers.drop_last()) + ","@ + consumers.last().feature.short()
    }
}

/// The short names of consumers, separated by commas.
pub fn names_of(consumers: &Vec<ConsumerId>) -> (s: String)
    ensures
        s@ == joined_names(consumers@),
{
    let mut s = String::new();
    let mut i: usize = 0;
    while i < consumers.len()
        invariant
            i <= consumers@.len(),
            s@ == joined_names(consumers@.take(i as int)),
        decreases consumers@.len() - i,
    {
        proof {
            let next = consumers@.take(i + 1);
            assert(next.drop_last() =~= consumers@.take(i as int));
            assert(next.last() == consumers@[i as int]);
        }
        let ghost before = s@;
        if i > 0 {
            s.append(",");
        }
        s.append(consumers[i].feature.short_name());
        proof {
            if i == 0 {
                assert(before =~= Seq::empty());
                assert(s@ =~= consumers@[0].feature.short());
            }
        }
        i = i + 1;
    }
    assert(consumers@.take(i as int) =~= consumers@);
    s
}

/// The needs in one group for each stream, the most urgent group first.
pub fn group_requirements(requirements: Vec<DataRequirement>) -> (groups: Vec<RequirementGroup>)
    ensures
        group_views(groups@) == grouped_by_urgency(requirement_views(requirements@)),
{
    RequirementGroup::from_requirements(requirements)
}

/// The needs of `reqs` for one stream.
pub open spec fn needs_for(reqs: Seq<RequirementView>, key: KeyView) -> Seq<RequirementView> {
    reqs.filter(|r: RequirementView| r.key == key)
}

/// A group holds exactly the needs of `reqs` for its stream, its range encloses each of
/// theirs, its urgency is at least each of theirs and that of one of them, and its consumers
/// are exactly theirs.
pub open spec fn sums_up(g: GroupView, reqs: Seq<RequirementView>) -> bool {
    &&& g.requirements == needs_for(reqs, g.key)
    &&& g.requirements.len() > 0
    &&& forall|i: int|
        0 <= i < g.requirements.len() ==> {
            let r = #[trigger] g.requirements[i];
            &&& r.key == g.key
            &&& g.merged_range.encloses(r.range)
            &&& g.max_priority.level() >= r.priority.level()
            &&& g.consumers.contains(r.consumer)
        }
    &&& exists|i: int| 0 <= i < g.requirements.len() && (#[trigger] g.requirements[i]).priority
        == g.max_priority
    &&& forall|c: ConsumerId| #[trigger]
        g.consumers.contains(c) ==> exists|i: int|
            0 <= i < g.requirements.len() && (#[trigger] g.requirements[i]).consumer == c
}

/// No two groups are for the same stream.
pub open spec fn distinct_groups(groups: Seq<GroupView>) -> bool {
    forall|i: int, j: int|
        0 <= i < j < groups.len() ==> (#[trigger] groups[i]).key != (#[trigger] groups[j]).key
}

proof fn lemma_needs_push(reqs: Seq<RequirementView>, key: KeyView)
    requires
        reqs.len() > 0,
    ensures
        needs_for(reqs, key) == if reqs.last().key == key {
            needs_for(reqs.drop_last(), key).push(reqs.last())
        } else {
            needs_for(reqs.drop_last(), key)
        },
{
    reveal(Seq::filter);
}

proof fn lemma_with_sums_up(g: GroupView, reqs: Seq<RequirementView>)
    requires
        reqs.len() > 0,
        sums_up(g, reqs.drop_last()),
        reqs.last().key == g.key,
    ensures
        sums_up(g.with(reqs.last()), reqs),
{
    let r = reqs.last();
    let h = g.with(r);
    lemma_needs_push(reqs, g.key);
    assert(h.requirements =~= needs_for(reqs, g.key));
    let n = g.requirements.len() as int;
    assert(h.requirements[n] == r);
    assert(h.consumers.contains(r.consumer)) by {
        if !g.consumers.contains(r.consumer) {
            assert(h.consumers[g.consumers.len() as int] == r.consumer);
        }
    }
    assert forall|c: ConsumerId| g.consumers.contains(c) implies h.consumers.contains(c) by {
        let k = choose|k: int| 0 <= k < g.consumers.len() && g.consumers[k] == c;
        assert(h.consumers[k] == c);
    }
    assert forall|i: int| 0 <= i < h.requirements.len() implies {
        let q = #[trigger] h.requirements[i];
        &&& q.key == h.key
        &&& h.merged_range.encloses(q.range)
        &&& h.max_priority.level() >= q.priority.level()
        &&& h.consumers.contains(q.consumer)
    } by {
        if i < n {
            assert(h.requirements[i] == g.requirements[i]);
        }
    }
    let w = choose|i: int| 0 <= i < g.requirements.len() && (#[trigger] g.requirements[i]).priority
        == g.max_priority;
    if h.max_priority == g.max_priority {
        assert(h.requirements[w] == g.requirements[w]);
    } else {
        assert(h.requirements[n].priority == h.max_priority);
    }
    assert forall|c: ConsumerId| #[trigger] h.consumers.contains(c) implies exists|i: int|
        0 <= i < h.requirements.len() && (#[trigger] h.requirements[i]).consumer == c by {
        if c == r.consumer {
            assert(h.requirements[n].consumer == c);
        } else {
            let k = choose|k: int| 0 <= k < h.consumers.len() && h.consumers[k] == c;
            assert(k < g.consumers.len());
            assert(g.consumers[k] == c);
            assert(g.consumers.contains(c));
            let i = choose|i: int|
                0 <= i < g.requirements.len() && (#[trigger] g.requirements[i]).consumer == c;
            assert(h.requirements[i].consumer == c);
        }
    }
}

proof fn lemma_single_sums_up(reqs: Seq<RequirementView>)
    requires
        reqs.len() > 0,
        needs_for(reqs.drop_last(), reqs.last().key).len() == 0,
    ensures
        sums_up(GroupView::single(reqs.last()), reqs),
{
    let r = reqs.last();
    let g = GroupView::single(r);
    lemma_needs_push(reqs, r.key);
    assert(g.requirements =~= needs_for(reqs, r.key));
    assert(g.requirements[0] == r);
    assert(g.consumers[0] == r.consumer);
}

proof fn lemma_grouped(reqs: Seq<RequirementView>)
    ensures
        distinct_groups(grouped(reqs)),
        forall|i: int| 0 <= i < grouped(reqs).len() ==> sums_up(#[trigger] grouped(reqs)[i], reqs),
        forall|k: int|
            0 <= k < reqs.len() ==> exists|i: int|
                0 <= i < grouped(reqs).len() && (#[trigger] grouped(reqs)[i]).key == (
                #[trigger] reqs[k]).key,
    decreases reqs.len(),
{
    if reqs.len() > 0 {
        let front = reqs.drop_last();
        let r = reqs.last();
        lemma_grouped(front);
        let gs = grouped(front);
        let out = grouped(reqs);
        let at = group_index(gs, r.key);
        lemma_group_index_bounds(gs, r.key);
        assert forall|i: int| 0 <= i < gs.len() && i != at implies sums_up(
            #[trigger] gs[i],
            reqs,
        ) by {
            lemma_needs_push(reqs, gs[i].key);
            assert(gs[i].key != r.key) by {
                if at < gs.len() && i > at {
                    assert(gs[at].key != gs[i].key);
                }
            }
        }
        if at < gs.len() {
            lemma_with_sums_up(gs[at], reqs);
            assert forall|i: int| 0 <= i < out.len() implies sums_up(#[trigger] out[i], reqs) by {
                if i != at {
                    assert(out[i] == gs[i]);
                }
            }
            assert forall|i: int, j: int| 0 <= i < j < out.len() implies (#[trigger] out[i]).key != (
            #[trigger] out[j]).key by {
                assert(gs[i].key != gs[j].key);
            }
        } else {
            if needs_for(front, r.key).len() > 0 {
                let needs = needs_for(front, r.key);
                let p = |q: RequirementView| q.key == r.key;
                front.lemma_filter_pred(p, 0);
                assert(needs.contains(needs[0]));
                front.lemma_filter_contains_rev(p, needs[0]);
                let k = choose|k: int| 0 <= k < front.len() && front[k] == needs[0];
                assert(front[k].key == r.key);
                let i = choose|i: int|
                    0 <= i < gs.len() && (#[trigger] gs[i]).key == front[k].key;
                assert(false);
            }
            lemma_single_sums_up(reqs);
            assert forall|i: int| 0 <= i < out.len() implies sums_up(#[trigger] out[i], reqs) by {
                if i < gs.len() {
                    assert(out[i] == gs[i]);
                }
            }
            assert forall|i: int, j: int| 0 <= i < j < out.len() implies (#[trigger] out[i]).key != (
            #[trigger] out[j]).key by {
                assert(out[i] == gs[i]);
                if j < gs.len() {
                    assert(out[j] == gs[j]);
                }
            }
        }
        assert forall|k: int| 0 <= k < reqs.len() implies exists|i: int|
            0 <= i < out.len() && (#[trigger] out[i]).key == (#[trigger] reqs[k]).key by {
            if k < front.len() {
                assert(front[k] == reqs[k]);
                let i = choose|i: int|
                    0 <= i < gs.len() && (#[trigger] gs[i]).key == front[k].key;
                assert(out[i].key == reqs[k].key);
            } else {
                assert(out[at].key == reqs[k].key);
            }
        }
    }
}

/// Grouping loses no need and adds none: each stream that is needed has exactly one group, the
/// group sums up exactly the needs for its stream, and no group stands before a more urgent one.
pub proof fn law_grouping(reqs: Seq<RequirementView>)
    ensures
        distinct_groups(grouped_by_urgency(reqs)),
        forall|i: int|
            0 <= i < grouped_by_urgency(reqs).len() ==> sums_up(
                #[trigger] grouped_by_urgency(reqs)[i],
                reqs,
            ),
        forall|k: int|
            0 <= k < reqs.len() ==> exists|i: int|
                0 <= i < grouped_by_urgency(reqs).len() && (#[trigger] grouped_by_urgency(
                    reqs,
                )[i]).key == (#[trigger] reqs[k]).key,
        forall|i: int, j: int|
            0 <= i <= j < grouped_by_urgency(reqs).len() ==> (#[trigger] grouped_by_urgency(
                reqs,
            )[i]).max_priority.level() >= (#[trigger] grouped_by_urgency(
                reqs,
            )[j]).max_priority.level(),
{
    broadcast use vstd::seq_lib::group_to_multiset_ensures;

    let gs = grouped(reqs);
    let out = grouped_by_urgency(reqs);
    lemma_grouped(reqs);
    lemma_sorted(gs);
    assert forall|i: int| 0 <= i < out.len() implies sums_up(#[trigger] out[i], reqs) by {
        assert(out.contains(out[i]));
        let k = choose|k: int| 0 <= k < gs.len() && gs[k] == out[i];
        assert(sums_up(gs[k], reqs));
    }
    assert forall|i: int, j: int| 0 <= i < j < out.len() implies (#[trigger] out[i]).key != (
    #[trigger] out[j]).key by {
        if out[i].key == out[j].key {
            assert(out.contains(out[i]));
            assert(out.contains(out[j]));
            let a = choose|a: int| 0 <= a < gs.len() && gs[a] == out[i];
            let b = choose|b: int| 0 <= b < gs.len() && gs[b] == out[j];
            if a < b {
                assert(gs[a].key != gs[b].key);
            }
            if b < a {
                assert(gs[b].key != gs[a].key);
            }
            assert(a == b);
            crate::seqs::lemma_count_two(out, i, j);
            crate::seqs::lemma_count_one(gs, a);
            assert(false);
        }
    }
    assert forall|k: int| 0 <= k < reqs.len() implies exists|i: int|
        0 <= i < out.len() && (#[trigger] out[i]).key == (#[trigger] reqs[k]).key by {
        let a = choose|a: int| 0 <= a < gs.len() && (#[trigger] gs[a]).key == reqs[k].key;
        assert(gs.contains(gs[a]));
        let i = choose|i: int| 0 <= i < out.len() && out[i] == gs[a];
        assert(out[i].key == reqs[k].key);
    }
    assert forall|i: int, j: int| 0 <= i <= j < out.len() implies (
    #[trigger] out[i]).max_priority.level() >= (#[trigger] out[j]).max_priority.level() by {
        assert(out[i].rank() <= out[j].rank());
    }
}

} // verus!
