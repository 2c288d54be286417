//! Life of a fetch job.

use vstd::arithmetic::power::pow;
use vstd::prelude::*;
use vstd::string::*;
use crate::ids::{hyphenated, Uuid};
use crate::market_data::key::{KeyView, MarketDataKey};
use crate::market_data::range::MarketDataRange;
use crate::market_data::requirement::{joined_names, names_of, ConsumerId};
use crate::seqs::copy_rows;
use crate::text::{decimal, push_decimal};
use crate::time::{clock_text, format_time_short, UnixMs};

verus! {

/// The identifier of a fetch job.
pub type FetchJobId = Uuid;

/// Where a job stands.
#[derive(Debug, PartialEq, Eq)]
pub enum FetchJobStatus {
    /// Waiting for its turn.
    Pending,
    /// Fetching.
    InProgress,
    /// Done.
    Completed { records: usize },
    /// Given up, with the time from which it may be tried again.
    Failed { error: String, retry_at: Option<u64> },
    /// No longer wanted.
    Cancelled,
}

/// Where a job stands, as a value.
#[verifier::ext_equal]
pub enum JobStatusView {
    Pending,
    InProgress,
    Completed { records: usize },
    Failed { error: Seq<char>, retry_at: Option<u64> },
    Cancelled,
}

impl View for FetchJobStatus {
    type V = JobStatusView;

    open spec fn view(&self) -> JobStatusView {
        match *self {
            FetchJobStatus::Pending => JobStatusView::Pending,
            FetchJobStatus::InProgress => JobStatusView::InProgress,
            FetchJobStatus::Completed { records } => JobStatusView::Completed { records },
            FetchJobStatus::Failed { error, retry_at } => JobStatusView::Failed {
                error: error@,
                retry_at,
            },
            FetchJobStatus::Cancelled => JobStatusView::Cancelled,
        }
    }
}

impl Clone for FetchJobStatus {
    fn clone(&self) -> (s: Self)
        ensures
            s == *self,
    {
        match self {
            FetchJobStatus::Pending => FetchJobStatus::Pending,
            FetchJobStatus::InProgress => FetchJobStatus::InProgress,
            FetchJobStatus::Completed { records } => FetchJobStatus::Completed {
                records: *records,
            },
            FetchJobStatus::Failed { error, retry_at } => FetchJobStatus::Failed {
                error: error.clone(),
                retry_at: *retry_at,
            },
            FetchJobStatus::Cancelled => FetchJobStatus::Cancelled,
        }
    }
}

impl JobStatusView {
    /// The job waits or fetches.
    pub open spec fn active(self) -> bool {
        self is Pending || self is InProgress
    }

    /// The name of the status.
    pub open spec fn name(self) -> Seq<char> {
        match self {
            JobStatusView::Pending => "Pending"@,
            JobStatusView::InProgress => "InProgress"@,
            JobStatusView::Completed { records } => "Completed"@,
            JobStatusView::Failed { error, retry_at } => "Failed"@,
            JobStatusView::Cancelled => "Cancelled"@,
        }
    }
}

impl FetchJobStatus {
    /// The name of the status.
    pub fn label(&self) -> (s: &'static str)
        ensures
            s@ == self@.name(),
    {
        match self {
            FetchJobStatus::Pending => "Pending",
            FetchJobStatus::InProgress => "InProgress",
            FetchJobStatus::Completed { .. } => "Completed",
            FetchJobStatus::Failed { .. } => "Failed",
            FetchJobStatus::Cancelled => "Cancelled",
        }
    }

    /// True when nothing more happens to the job.
    pub fn is_terminal(&self) -> (r: bool)
        ensures
            r == (self@ is Completed || self@ is Failed || self@ is Cancelled),
            r == !self@.active(),
    {
        matches!(
            self,
            FetchJobStatus::Completed { .. }
            | FetchJobStatus::Failed { .. }
            | FetchJobStatus::Cancelled
        )
    }

    /// True when the job waits or fetches.
    pub fn is_active(&self) -> (r: bool)
        ensures
            r == self@.active(),
    {
        matches!(self, FetchJobStatus::Pending | FetchJobStatus::InProgress)
    }

    /// True when the job waits for its turn.
    pub fn is_pending(&self) -> (r: bool)
        ensures
            r == (self@ is Pending),
    {
        matches!(self, FetchJobStatus::Pending)
    }
}

/// How far a job has come.
#[derive(Debug, Clone, Copy, PartialEq, Eq, Structural)]
pub struct FetchJobProgress {
    pub records_fetched: usize,
    pub until_time: Option<UnixMs>,
    pub bytes_downloaded: usize,
}

impl Default for FetchJobProgress {
    fn default() -> (p: Self)
        ensures
            p == no_progress(),
    {
        FetchJobProgress { records_fetched: 0, until_time: None, bytes_downloaded: 0 }
    }
}

/// The progress of a job that has not begun.
pub open spec fn no_progress() -> FetchJobProgress {
    FetchJobProgress { records_fetched: 0, until_time: None, bytes_downloaded: 0 }
}

/// The time of day of an optional timestamp, `-` when there is none.
pub open spec fn optional_clock(t: Option<UnixMs>) -> Seq<char> {
    match t {
        Some(t) => clock_text(t.0 as nat),
        None => "-"@,
    }
}

/// Appends the time of day of an optional timestamp, `-` when there is none.
pub fn push_optional_clock(out: &mut String, t: Option<UnixMs>)
    ensures
        final(out)@ == old(out)@ + optional_clock(t),
{
    match t {
        Some(t) => out.append(format_time_short(t).as_str()),
        None => out.append("-"),
    }
}

impl FetchJobProgress {
    /// The progress as text.
    pub open spec fn text(self) -> Seq<char> {
        "records="@ + decimal(self.records_fetched as nat) + " until="@ + optional_clock(
            self.until_time,
        ) + " bytes="@ + decimal(self.bytes_downloaded as nat)
    }

    /// The progress in one line of text.
    pub fn log_format(&self) -> (s: String)
        ensures
            s@ == self.text(),
    {
        let mut s = String::from_str("records=");
        push_decimal(&mut s, self.records_fetched as u64);
        s.append(" until=");
        push_optional_clock(&mut s, self.until_time);
        s.append(" bytes=");
        push_decimal(&mut s, self.bytes_downloaded as u64);
        s
    }
}

/// One fetch of one range of one stream.
#[derive(Debug)]
pub struct FetchJob {
    pub id: FetchJobId,
    pub key: MarketDataKey,
    pub range: MarketDataRange,
    pub consumers: Vec<ConsumerId>,
    pub status: FetchJobStatus,
    pub progress: FetchJobProgress,
    pub created_at: u64,
    pub attempts: u32,
}

/// One fetch of one range of one stream, as a value.
#[verifier::ext_equal]
pub struct JobView {
    pub id: FetchJobId,
    pub key: KeyView,
    pub range: MarketDataRange,
    pub consumers: Seq<ConsumerId>,
    pub status: JobStatusView,
    pub progress: FetchJobProgress,
    pub created_at: u64,
    pub attempts: u32,
}

impl View for FetchJob {
    type V = JobView;

    open spec fn view(&self) -> JobView {
        JobView {
            id: self.id,
            key: self.key@,
            range: self.range,
            consumers: self.consumers@,
            status: self.status@,
            progress: self.progress,
            created_at: self.created_at,
            attempts: self.attempts,
        }
    }
}

impl Clone for FetchJob {
    fn clone(&self) -> (j: Self)
        ensures
            j@ == self@,
    {
        FetchJob {
            id: self.id,
            key: self.key.clone(),
            range: self.range,
            consumers: copy_rows(&self.consumers),
            status: self.status.clone(),
            progress: self.progress,
            created_at: self.created_at,
            attempts: self.attempts,
        }
    }
}

/// The wait before a job that failed `attempts` times may be tried again, in milliseconds. From
/// the second attempt on it doubles from one to the next, up to a limit.
pub open spec fn backoff_ms(attempts: u32) -> int {
    let doublings: nat = if attempts <= 1 {
        0
    } else if attempts <= 6 {
        (attempts - 1) as nat
    } else {
        5
    };
    2_500 * pow(2, doublings)
}

fn backoff(attempts: u32) -> (ms: u64)
    ensures
        ms == backoff_ms(attempts),
        ms <= 80_000,
{
    reveal(pow);
    proof {
        assert(pow(2, 0) == 1);
        assert(pow(2, 1) == 2 * pow(2, 0));
        assert(pow(2, 2) == 2 * pow(2, 1));
        assert(pow(2, 3) == 2 * pow(2, 2));
        assert(pow(2, 4) == 2 * pow(2, 3));
        assert(pow(2, 5) == 2 * pow(2, 4));
    }
    if attempts <= 1 {
        2_500
    } else if attempts == 2 {
        5_000
    } else if attempts == 3 {
        10_000
    } else if attempts == 4 {
        20_000
    } else if attempts == 5 {
        40_000
    } else {
        80_000
    }
}

impl JobView {
    /// A job that waits for its turn.
    pub open spec fn pending(
        id: FetchJobId,
        key: KeyView,
        range: MarketDataRange,
        consumers: Seq<ConsumerId>,
        created_at: u64,
    ) -> JobView {
        JobView {
            id,
            key,
            range,
            consumers,
            status: JobStatusView::Pending,
            progress: no_progress(),
            created_at,
            attempts: 0,
        }
    }

    /// The job after it failed at `now_ms`.
    pub open spec fn failed(self, error: Seq<char>, now_ms: u64) -> JobView {
        let due = now_ms + backoff_ms(self.attempts);
        JobView {
            status: JobStatusView::Failed {
                error,
                retry_at: Some(
                    if due <= u64::MAX {
                        due as u64
                    } else {
                        u64::MAX
                    },
                ),
            },
            attempts: if self.attempts < u32::MAX {
                (self.attempts + 1) as u32
            } else {
                u32::MAX
            },
            ..self
        }
    }

    /// The job failed, at some time.
    pub open spec fn failed_sometime(self, error: Seq<char>, after: JobView) -> bool {
        exists|now_ms: u64| after == #[trigger] self.failed(error, now_ms)
    }

    /// The job failed and may be tried again at `now_ms`.
    pub open spec fn retryable(self, now_ms: u64) -> bool {
        self.status matches JobStatusView::Failed { error, retry_at } && retry_at matches Some(at)
            && now_ms >= at
    }
}

impl FetchJob {
    /// A job with the given identifier and time of creation.
    pub fn with_id(
        id: FetchJobId,
        key: MarketDataKey,
        range: MarketDataRange,
        consumers: Vec<ConsumerId>,
        created_at: u64,
    ) -> (j: Self)
        ensures
            j@ == JobView::pending(id, key@, range, consumers@, created_at),
    {
        FetchJob {
            id,
            key,
            range,
            consumers,
            status: FetchJobStatus::Pending,
            progress: FetchJobProgress::default(),
            created_at,
            attempts: 0,
        }
    }

    /// A job that was created just now, under a random identifier.
    pub fn new(key: MarketDataKey, range: MarketDataRange, consumers: Vec<ConsumerId>) -> (j: Self)
        ensures
            j@ == JobView::pending(j.id, key@, range, consumers@, j.created_at),
    {
        let id = Uuid::new_v4();
        let now = UnixMs::now();
        Self::with_id(id, key, range, consumers, now.0)
    }

    /// The job begins to fetch.
    pub fn start(&mut self)
        ensures
            final(self)@ == (JobView { status: JobStatusView::InProgress, ..old(self)@ }),
            final(self).id == old(self).id,
    {
        self.status = FetchJobStatus::InProgress;
    }

    /// The job has come this far.
    pub fn update_progress(&mut self, progress: FetchJobProgress)
        ensures
            final(self)@ == (JobView { progress, ..old(self)@ }),
    {
        self.progress = progress;
    }

    /// The job is done.
    pub fn complete(&mut self, records: usize)
        ensures
            final(self)@ == (JobView {
                status: JobStatusView::Completed { records },
                ..old(self)@
            }),
    {
        self.status = FetchJobStatus::Completed { records };
    }

    /// The job failed at `now_ms`.
    pub fn fail_at(&mut self, error: String, now_ms: u64)
        ensures
            final(self)@ == old(self)@.failed(error@, now_ms),
    {
        let delay = backoff(self.attempts);
        self.status = FetchJobStatus::Failed {
            error,
            retry_at: Some(now_ms.saturating_add(delay)),
        };
        self.attempts = self.attempts.saturating_add(1);
    }

    /// The job failed just now.
    pub fn fail(&mut self, error: String)
        ensures
            old(self)@.failed_sometime(error@, final(self)@),
    {
        let now = UnixMs::now();
        let ghost text = error@;
        self.fail_at(error, now.0);
        assert(self@ == old(self)@.failed(text, now.0));
    }

    /// The job is no longer wanted.
    pub fn cancel(&mut self)
        ensures
            final(self)@ == (JobView { status: JobStatusView::Cancelled, ..old(self)@ }),
    {
        self.status = FetchJobStatus::Cancelled;
    }

    /// True when the job failed and may be tried again at `now_ms`.
    pub fn can_retry_at(&self, now_ms: u64) -> (r: bool)
        ensures
            r == self@.retryable(now_ms),
    {
        match &self.status {
            FetchJobStatus::Failed { error: _, retry_at } => match retry_at {
                Some(at) => now_ms >= *at,
                None => false,
            },
            _ => false,
        }
    }

    /// True when the job failed and may be tried again by now.
    pub fn can_retry(&self) -> (r: bool)
        ensures
            exists|now_ms: u64| r == #[trigger] self@.retryable(now_ms),
    {
        self.can_retry_at(UnixMs::now().0)
    }

    /// The short names of the consumers, separated by commas.
    pub fn consumer_names(&self) -> (s: String)
        ensures
            s@ == joined_names(self@.consumers),
    {
        names_of(&self.consumers)
    }

    /// The job in one line of text.
    pub fn log_format(&self) -> (s: String)
        ensures
            s@ == "job="@ + hyphenated(self.id.0).take(8) + " key="@ + self@.key.display()
                + " range="@ + self.range.display() + " status="@ + self@.status.name()
                + " consumers="@ + joined_names(self@.consumers) + " progress="@
                + self.progress.text(),
    {
        let mut s = String::from_str("job=");
        s.append(short_id(self.id).as_str());
        s.append(" key=");
        s.append(self.key.display_key().as_str());
        s.append(" range=");
        s.append(self.range.format_display().as_str());
        s.append(" status=");
        s.append(self.status.label());
        s.append(" consumers=");
        s.append(self.consumer_names().as_str());
        s.append(" progress=");
        s.append(self.progress.log_format().as_str());
        s
    }
}

/// The first eight characters of an identifier's text.
pub fn short_id(id: Uuid) -> (s: String)
    ensures
        s@ == hyphenated(id.0).take(8),
{
    crate::ids::short_id(id)
}

/// True when two jobs fetch a common part of the same stream.
pub fn jobs_overlap(a: &FetchJob, b: &FetchJob) -> (r: bool)
    ensures
        r == (a@.key == b@.key && a.range.crosses(b.range)),
{
    a.key.same(&b.key) && a.range.overlaps(&b.range)
}

/// The range of two jobs that overlap or touch.
pub fn merge_job_ranges(a: &FetchJob, b: &FetchJob) -> (r: Option<MarketDataRange>)
    ensures
        r == a.range.joined(b.range),
{
    a.range.merge(&b.range)
}

/// A job that fails again and again never waits less than after an earlier failure: at first two
/// and a half seconds, at last eighty.
pub proof fn law_backoff_grows(a: u32, b: u32)
    requires
        a <= b,
    ensures
        backoff_ms(a) <= backoff_ms(b),
        backoff_ms(0) == 2_500,
        2_500 <= backoff_ms(b) <= 80_000,
{
    reveal(pow);
    assert(pow(2, 0) == 1);
    assert(pow(2, 1) == 2 * pow(2, 0));
    assert(pow(2, 2) == 2 * pow(2, 1));
    assert(pow(2, 3) == 2 * pow(2, 2));
    assert(pow(2, 4) == 2 * pow(2, 3));
    assert(pow(2, 5) == 2 * pow(2, 4));
}

} // verus!
