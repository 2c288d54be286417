//! What the user is told about the loading of market data.

use vstd::prelude::*;
use vstd::string::*;
use crate::market_data::job::{FetchJob, FetchJobStatus, JobStatusView, JobView};
use crate::market_data::progress::{MarketDataProgressSnapshot, ProgressView};
use crate::market_data::requirement::joined_names;
use crate::text::{decimal, digit_char, push_decimal, push_two_digits};

verus! {

/// A text with a comma before each group of three characters from its end.
pub open spec fn with_commas(s: Seq<char>) -> Seq<char>
    decreases s.len(),
{
    if s.len() <= 3 {
        s
    } else {
        with_commas(s.take(s.len() - 3)) + ","@ + s.skip(s.len() - 3)
    }
}

/// The last three digits of a number.
pub open spec fn last_three(n: nat) -> Seq<char> {
    seq![digit_char(n / 100 % 10), digit_char(n / 10 % 10), digit_char(n % 10)]
}

proof fn lemma_decimal_len(n: nat)
    ensures
        decimal(n).len() >= 1,
    decreases n,
{
    if n >= 10 {
        lemma_decimal_len(n / 10);
    }
}

proof fn lemma_decimal_thousand(n: nat)
    requires
        n >= 1000,
    ensures
        decimal(n) == decimal(n / 1000) + last_three(n),
        with_commas(decimal(n)) == with_commas(decimal(n / 1000)) + ","@ + last_three(n),
{
    assert(decimal(n) == decimal(n / 10).push(digit_char(n % 10)));
    assert(decimal(n / 10) == decimal(n / 10 / 10).push(digit_char(n / 10 % 10)));
    assert(n / 10 / 10 == n / 100);
    assert(decimal(n / 100) == decimal(n / 100 / 10).push(digit_char(n / 100 % 10)));
    assert(n / 100 / 10 == n / 1000);
    let head = decimal(n / 1000);
    let all = decimal(n);
    assert(all =~= head + last_three(n));
    lemma_decimal_len(n / 1000);
    assert(all.take(all.len() - 3) =~= head);
    assert(all.skip(all.len() - 3) =~= last_three(n));
}

proof fn lemma_decimal_short(n: nat)
    requires
        n < 1000,
    ensures
        decimal(n).len() <= 3,
{
    reveal_with_fuel(decimal, 4);
}

fn push_number(out: &mut String, n: u64)
    ensures
        final(out)@ == old(out)@ + with_commas(decimal(n as nat)),
    decreases n,
{
    let ghost start = out@;
    if n < 1000 {
        proof {
            lemma_decimal_short(n as nat);
        }
        push_decimal(out, n);
    } else {
        proof {
            lemma_decimal_thousand(n as nat);
        }
        push_number(out, n / 1000);
        out.append(",");
        let ghost before = out@;
        push_decimal(out, n / 100 % 10);
        push_two_digits(out, n % 100);
        proof {
            assert(decimal((n / 100 % 10) as nat) == seq![digit_char((n / 100 % 10) as nat)]);
            assert((n % 100) / 10 == n / 10 % 10);
            assert((n % 100) % 10 == n % 10);
            assert(out@ =~= before + last_three(n as nat));
            assert(out@ =~= start + with_commas(decimal(n as nat)));
        }
    }
}

/// A number with a comma before each group of three digits.
pub fn format_number(n: usize) -> (s: String)
    ensures
        s@ == with_commas(decimal(n as nat)),
{
    let mut s = String::from_str("");
    proof {
        reveal_strlit("");
    }
    push_number(&mut s, n as u64);
    assert(s@ =~= with_commas(decimal(n as nat)));
    s
}

/// How far a job has got, in words.
pub open spec fn job_status_text(j: JobView) -> Seq<char> {
    match j.status {
        JobStatusView::Pending => "Pending"@,
        JobStatusView::InProgress => with_commas(decimal(j.progress.records_fetched as nat))
            + " fetched"@,
        JobStatusView::Completed { records } => "Done ("@ + with_commas(decimal(records as nat))
            + ")"@,
        JobStatusView::Failed { error, .. } => "Failed: "@ + error,
        JobStatusView::Cancelled => "Cancelled"@,
    }
}

/// One line about a job: what it fetches, how far it has got, and for whom.
#[derive(Debug)]
pub struct JobLine {
    pub what: String,
    pub status: String,
    pub consumers: String,
}

impl JobLine {
    /// True when the line is the one for a job.
    pub open spec fn tells(self, j: JobView) -> bool {
        &&& self.what@ == j.key.display() + ": "@ + j.range.display()
        &&& self.status@ == job_status_text(j)
        &&& self.consumers@ == "["@ + joined_names(j.consumers) + "]"@
    }
}

/// The line about a job.
pub fn job_line(job: &FetchJob) -> (line: JobLine)
    ensures
        line.tells(job@),
{
    let mut what = job.key.display_key();
    what.append(": ");
    what.append(job.range.format_display().as_str());
    let status = match &job.status {
        FetchJobStatus::Pending => String::from_str("Pending"),
        FetchJobStatus::InProgress => {
            let mut s = format_number(job.progress.records_fetched);
            s.append(" fetched");
            s
        },
        FetchJobStatus::Completed { records } => {
            let mut s = String::from_str("Done (");
            s.append(format_number(*records).as_str());
            s.append(")");
            s
        },
        FetchJobStatus::Failed { error, .. } => {
            let mut s = String::from_str("Failed: ");
            s.append(error.as_str());
            s
        },
        FetchJobStatus::Cancelled => String::from_str("Cancelled"),
    };
    let mut consumers = String::from_str("[");
    consumers.append(job.consumer_names().as_str());
    consumers.append("]");
    JobLine { what, status, consumers }
}

/// What the user is told, and in how much detail.
pub struct MarketDataProgressWidget {
    snapshot: MarketDataProgressSnapshot,
    expanded: bool,
    max_visible_jobs: usize,
}

/// What the user is told, as a value.
#[verifier::ext_equal]
pub struct WidgetView {
    pub snapshot: ProgressView,
    pub expanded: bool,
    pub max_visible_jobs: usize,
}

impl View for MarketDataProgressWidget {
    type V = WidgetView;

    closed spec fn view(&self) -> WidgetView {
        WidgetView {
            snapshot: self.snapshot@,
            expanded: self.expanded,
            max_visible_jobs: self.max_visible_jobs,
        }
    }
}

impl WidgetView {
    /// True while something is being loaded.
    pub open spec fn loading(self) -> bool {
        self.snapshot.active_jobs.len() > 0
    }

    /// True when there is nothing to tell.
    pub open spec fn silent(self) -> bool {
        !self.loading() && self.snapshot.message == "Ready"@
    }

    /// How many lines about jobs are shown.
    pub open spec fn shown(self) -> nat {
        if self.snapshot.active_jobs.len() <= self.max_visible_jobs {
            self.snapshot.active_jobs.len()
        } else {
            self.max_visible_jobs as nat
        }
    }

    /// The headline.
    pub open spec fn headline(self) -> Seq<char> {
        if self.loading() {
            "Loading market data ("@ + decimal(self.snapshot.active_jobs.len()) + ")"@
        } else {
            self.snapshot.message
        }
    }

    /// All in one line.
    pub open spec fn summary(self) -> Seq<char> {
        "Fetching "@ + decimal(self.snapshot.active_jobs.len()) + " segments | Fetched: "@
            + with_commas(decimal(self.snapshot.total_fetched_records as nat)) + " | Cached: "@
            + with_commas(decimal(self.snapshot.total_cached_records as nat))
    }
}

impl Default for MarketDataProgressWidget {
    fn default() -> (w: Self)
        ensures
            w@ == (WidgetView {
                snapshot: ProgressView::empty(),
                expanded: false,
                max_visible_jobs: 5,
            }),
    {
        MarketDataProgressWidget::new()
    }
}

impl MarketDataProgressWidget {
    /// Nothing is being loaded.
    pub fn new() -> (w: Self)
        ensures
            w@ == (WidgetView {
                snapshot: ProgressView::empty(),
                expanded: false,
                max_visible_jobs: 5,
            }),
    {
        MarketDataProgressWidget::with_settings(5)
    }

    /// Nothing is being loaded, and at most `max_visible_jobs` jobs would be shown.
    pub fn with_settings(max_visible_jobs: usize) -> (w: Self)
        ensures
            w@ == (WidgetView {
                snapshot: ProgressView::empty(),
                expanded: false,
                max_visible_jobs,
            }),
    {
        MarketDataProgressWidget {
            snapshot: MarketDataProgressSnapshot::empty(),
            expanded: false,
            max_visible_jobs,
        }
    }

    /// Takes over how far the jobs have got.
    pub fn update(&mut self, snapshot: MarketDataProgressSnapshot)
        ensures
            final(self)@ == (WidgetView { snapshot: snapshot@, ..old(self)@ }),
    {
        self.snapshot = snapshot;
    }

    /// Shows more, or less.
    pub fn toggle_expanded(&mut self)
        ensures
            final(self)@ == (WidgetView { expanded: !old(self)@.expanded, ..old(self)@ }),
    {
        self.expanded = !self.expanded;
    }

    /// Shows more, or less.
    pub fn set_expanded(&mut self, expanded: bool)
        ensures
            final(self)@ == (WidgetView { expanded, ..old(self)@ }),
    {
        self.expanded = expanded;
    }

    /// True when more is shown.
    pub fn is_expanded(&self) -> (r: bool)
        ensures
            r == self@.expanded,
    {
        self.expanded
    }

    /// True while something is being loaded.
    pub fn is_loading(&self) -> (r: bool)
        ensures
            r == self@.loading(),
    {
        self.snapshot.is_loading()
    }

    /// How far the jobs have got.
    pub fn snapshot(&self) -> (s: &MarketDataProgressSnapshot)
        ensures
            s@ == self@.snapshot,
    {
        &self.snapshot
    }

    /// True when there is nothing to tell.
    pub fn is_silent(&self) -> (r: bool)
        ensures
            r == self@.silent(),
    {
        !self.snapshot.is_loading() && crate::text::same_text(
            self.snapshot.message.as_str(),
            "Ready",
        )
    }

    /// The headline.
    pub fn headline(&self) -> (s: String)
        ensures
            s@ == self@.headline(),
    {
        if self.snapshot.is_loading() {
            let mut s = String::from_str("Loading market data (");
            push_decimal(&mut s, self.snapshot.active_job_count() as u64);
            s.append(")");
            s
        } else {
            self.snapshot.message.clone()
        }
    }

    /// All in one line.
    pub fn summary(&self) -> (s: String)
        ensures
            s@ == self@.summary(),
    {
        let mut s = String::from_str("Fetching ");
        push_decimal(&mut s, self.snapshot.active_job_count() as u64);
        s.append(" segments | Fetched: ");
        s.append(format_number(self.snapshot.total_fetched_records).as_str());
        s.append(" | Cached: ");
        s.append(format_number(self.snapshot.total_cached_records).as_str());
        s
    }

    /// The lines about jobs.
    pub fn job_lines(&self) -> (lines: Vec<JobLine>)
        ensures
            lines@.len() == self@.shown(),
            forall|i: int|
                0 <= i < lines@.len() ==> (#[trigger] lines@[i]).tells(
                    self@.snapshot.active_jobs[i],
                ),
    {
        let mut lines: Vec<JobLine> = Vec::new();
        let mut i: usize = 0;
        while i < self.snapshot.active_jobs.len() && i < self.max_visible_jobs
            invariant
                i <= self.snapshot.active_jobs@.len(),
                i <= self.max_visible_jobs,
                lines@.len() == i,
                forall|k: int|
                    0 <= k < i ==> (#[trigger] lines@[k]).tells(self@.snapshot.active_jobs[k]),
            decreases self.snapshot.active_jobs@.len() - i,
        {
            lines.push(job_line(&self.snapshot.active_jobs[i]));
            i += 1;
        }
        lines
    }

    /// The line about jobs that are not shown.
    pub fn hidden_line(&self) -> (line: Option<String>)
        ensures
            match line {
                Some(s) => self@.snapshot.active_jobs.len() > self@.max_visible_jobs && s@
                    == "  ... and "@ + decimal(
                    (self@.snapshot.active_jobs.len() - self@.max_visible_jobs) as nat,
                ) + " more"@,
                None => self@.snapshot.active_jobs.len() <= self@.max_visible_jobs,
            },
    {
        let count: usize = self.snapshot.active_job_count();
        if count <= self.max_visible_jobs {
            return None;
        }
        let mut s = String::from_str("  ... and ");
        push_decimal(&mut s, (count - self.max_visible_jobs) as u64);
        s.append(" more");
        Some(s)
    }

    /// The line about records that came from the cache.
    pub fn cached_line(&self) -> (line: Option<String>)
        ensures
            match line {
                Some(s) => self@.snapshot.total_cached_records > 0 && s@ == "Cached: "@
                    + with_commas(decimal(self@.snapshot.total_cached_records as nat))
                    + " records"@,
                None => self@.snapshot.total_cached_records == 0,
            },
    {
        if self.snapshot.total_cached_records == 0 {
            return None;
        }
        let mut s = String::from_str("Cached: ");
        s.append(format_number(self.snapshot.total_cached_records).as_str());
        s.append(" records");
        Some(s)
    }
}

/// Commas are all that is added to a number.
pub proof fn law_commas_only(s: Seq<char>)
    requires
        forall|i: int| 0 <= i < s.len() ==> #[trigger] s[i] != ',',
    ensures
        with_commas(s).filter(|c: char| c != ',') == s,
    decreases s.len(),
{
    let p = |c: char| c != ',';
    if s.len() <= 3 {
        crate::seqs::lemma_filter_all(s, p);
    } else {
        let head = s.take(s.len() - 3);
        let tail = s.skip(s.len() - 3);
        assert forall|i: int| 0 <= i < head.len() implies #[trigger] head[i] != ',' by {
            assert(head[i] == s[i]);
        }
        law_commas_only(head);
        assert forall|i: int| 0 <= i < tail.len() implies p(#[trigger] tail[i]) by {
            assert(tail[i] == s[i + s.len() - 3]);
        }
        crate::seqs::lemma_filter_all(tail, p);
        reveal_strlit(",");
        let comma = ","@;
        assert(comma =~= seq![',']);
        assert(comma.filter(p) =~= Seq::empty()) by {
            crate::seqs::lemma_filter_take(comma, 0, p);
            comma.take(0).lemma_filter_len(p);
            assert(comma.take(1) =~= comma);
        }
        Seq::filter_distributes_over_add(with_commas(head), comma, p);
        Seq::filter_distributes_over_add(with_commas(head) + comma, tail, p);
        assert(head + Seq::empty() =~= head);
        assert(head + tail =~= s);
    }
}

} // verus!
