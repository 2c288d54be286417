//! What is loading, for display.

use vstd::prelude::*;
use vstd::string::*;
use crate::market_data::job::{optional_clock, push_optional_clock, FetchJob, JobView};
use crate::market_data::requirement::ConsumerFeature;
use crate::text::{decimal, push_decimal};
use crate::time::UnixMs;

verus! {

/// What is loading at one moment.
#[derive(Debug)]
pub struct MarketDataProgressSnapshot {
    pub active_jobs: Vec<FetchJob>,
    pub total_fetched_records: usize,
    pub total_cached_records: usize,
    pub covered_until: Option<UnixMs>,
    pub message: String,
    pub loading_features: Vec<ConsumerFeature>,
    pub ready_features: Vec<ConsumerFeature>,
}

/// What is loading at one moment, as a value.
#[verifier::ext_equal]
pub struct ProgressView {
    pub active_jobs: Seq<JobView>,
    pub total_fetched_records: usize,
    pub total_cached_records: usize,
    pub covered_until: Option<UnixMs>,
    pub message: Seq<char>,
    pub loading_features: Seq<ConsumerFeature>,
    pub ready_features: Seq<ConsumerFeature>,
}

/// The values of a list of jobs.
pub open spec fn job_views(jobs: Seq<FetchJob>) -> Seq<JobView> {
    jobs.map_values(|j: FetchJob| j@)
}

impl View for MarketDataProgressSnapshot {
    type V = ProgressView;

    open spec fn view(&self) -> ProgressView {
        ProgressView {
            active_jobs: job_views(self.active_jobs@),
            total_fetched_records: self.total_fetched_records,
            total_cached_records: self.total_cached_records,
            covered_until: self.covered_until,
            message: self.message@,
            loading_features: self.loading_features@,
            ready_features: self.ready_features@,
        }
    }
}

/// One job as a line of text.
pub open spec fn job_line(j: JobView) -> Seq<char> {
    j.key.display() + ": "@ + j.range.display() + " ("@ + j.progress.text() + ")"@
}

/// The jobs, one to a line.
pub open spec fn job_lines(jobs: Seq<JobView>) -> Seq<char>
    decreases jobs.len(),
{
    if jobs.len() == 0 {
        Seq::empty()
    } else if jobs.len() == 1 {
        job_line(jobs[0])
    } else {
        job_lines(jobs.drop_last()) + "\n"@ + job_line(jobs.last())
    }
}

/// The streams of the jobs, separated by commas.
pub open spec fn job_keys(jobs: Seq<JobView>) -> Seq<char>
    decreases jobs.len(),
{
    if jobs.len() == 0 {
        Seq::empty()
    } else if jobs.len() == 1 {
        jobs[0].key.display()
    } else {
        job_keys(jobs.drop_last()) + ","@ + jobs.last().key.display()
    }
}

impl ProgressView {
    /// Nothing loading, nothing loaded.
    pub open spec fn empty() -> ProgressView {
        ProgressView {
            active_jobs: Seq::empty(),
            total_fetched_records: 0,
            total_cached_records: 0,
            covered_until: None,
            message: "Ready"@,
            loading_features: Seq::empty(),
            ready_features: Seq::empty(),
        }
    }
}

impl Default for MarketDataProgressSnapshot {
    fn default() -> (s: Self)
        ensures
            s@ == ProgressView::empty(),
    {
        Self::empty()
    }
}

impl MarketDataProgressSnapshot {
    /// Nothing loading, nothing loaded.
    pub fn empty() -> (s: Self)
        ensures
            s@ == ProgressView::empty(),
    {
        let s = MarketDataProgressSnapshot {
            active_jobs: Vec::new(),
            total_fetched_records: 0,
            total_cached_records: 0,
            covered_until: None,
            message: String::from_str("Ready"),
            loading_features: Vec::new(),
            ready_features: Vec::new(),
        };
        assert(s@ =~= ProgressView::empty());
        s
    }

    /// True when anything is loading.
    pub fn is_loading(&self) -> (r: bool)
        ensures
            r == (self@.active_jobs.len() > 0),
    {
        self.active_jobs.len() > 0
    }

    /// The number of jobs.
    pub fn active_job_count(&self) -> (n: usize)
        ensures
            n == self@.active_jobs.len(),
    {
        self.active_jobs.len()
    }

    /// The progress in percent, where anything can be said: half way once records came in.
    pub fn progress_percentage(&self) -> (p: Option<u8>)
        ensures
            p == if self@.total_fetched_records > 0 {
                Some(50u8)
            } else {
                None::<u8>
            },
    {
        if self.total_fetched_records > 0 {
            Some(50)
        } else {
            None
        }
    }

    /// The progress as text for the screen.
    pub fn format_ui(&self) -> (s: String)
        ensures
            s@ == if self@.active_jobs.len() == 0 {
                self@.message
            } else {
                "Loading market data:\n"@ + job_lines(self@.active_jobs)
            },
    {
        if !self.is_loading() {
            return self.message.clone();
        }
        let ghost jobs = self@.active_jobs;
        let mut s = String::from_str("Loading market data:\n");
        let ghost head = s@;
        let mut i: usize = 0;
        assert(jobs.take(0) =~= Seq::<JobView>::empty());
        assert(s@ =~= head + job_lines(jobs.take(0)));
        while i < self.active_jobs.len()
            invariant
                i <= self.active_jobs@.len(),
                jobs == self@.active_jobs,
                s@ == head + job_lines(jobs.take(i as int)),
            decreases self.active_jobs@.len() - i,
        {
            let job = &self.active_jobs[i];
            let ghost before = s@;
            if i > 0 {
                s.append("\n");
            }
            s.append(job.key.display_key().as_str());
            s.append(": ");
            s.append(job.range.format_display().as_str());
            s.append(" (");
            s.append(job.progress.log_format().as_str());
            s.append(")");
            proof {
                let next = jobs.take(i + 1);
                assert(next.drop_last() =~= jobs.take(i as int));
                assert(next.last() == job@);
                if i == 0 {
                    assert(s@ =~= head + job_lines(next));
                } else {
                    assert(s@ =~= head + job_lines(next));
                }
            }
            i = i + 1;
        }
        assert(jobs.take(i as int) =~= jobs);
        s
    }

    /// The progress in one line of text.
    pub fn format_status_line(&self) -> (s: String)
        ensures
            s@ == if self@.active_jobs.len() == 0 {
                "Ready | cached="@ + decimal(self@.total_cached_records as nat) + " covered="@
                    + optional_clock(self@.covered_until)
            } else {
                "Fetching: "@ + job_keys(self@.active_jobs) + " | fetched="@ + decimal(
                    self@.total_fetched_records as nat,
                ) + " cached="@ + decimal(self@.total_cached_records as nat)
            },
    {
        if !self.is_loading() {
            let mut s = String::from_str("Ready | cached=");
            push_decimal(&mut s, self.total_cached_records as u64);
            s.append(" covered=");
            push_optional_clock(&mut s, self.covered_until);
            return s;
        }
        let ghost jobs = self@.active_jobs;
        let mut s = String::from_str("Fetching: ");
        let ghost head = s@;
        let mut i: usize = 0;
        assert(jobs.take(0) =~= Seq::<JobView>::empty());
        assert(s@ =~= head + job_keys(jobs.take(0)));
        while i < self.active_jobs.len()
            invariant
                i <= self.active_jobs@.len(),
                jobs == self@.active_jobs,
                s@ == head + job_keys(jobs.take(i as int)),
            decreases self.active_jobs@.len() - i,
        {
            if i > 0 {
                s.append(",");
            }
            s.append(self.active_jobs[i].key.display_key().as_str());
            proof {
                let next = jobs.take(i + 1);
                assert(next.drop_last() =~= jobs.take(i as int));
                assert(next.last() == self.active_jobs@[i as int]@);
                assert(s@ =~= head + job_keys(next));
            }
            i = i + 1;
        }
        assert(jobs.take(i as int) =~= jobs);
        s.append(" | fetched=");
        push_decimal(&mut s, self.total_fetched_records as u64);
        s.append(" cached=");
        push_decimal(&mut s, self.total_cached_records as u64);
        s
    }
}

} // verus!
