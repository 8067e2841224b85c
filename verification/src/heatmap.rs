use vstd::prelude::*;
use crate::oids::Oids;
use chrono::{Datelike, TimeZone};
use gix::prelude::FindExt;
use vstd::arithmetic::div_mod::lemma_fundamental_div_mod;

verus! {

/// Columns of the activity heatmap: one per week.
pub const WEEKS: usize = 53;
/// Rows of the activity heatmap: one per weekday, Monday first.
pub const DAYS: usize = 7;
/// The days the heatmap covers, today included.
pub const TOTAL_DAYS: usize = 371;

/// The UTC day (days since 1970-01-01) of a Unix time in seconds, when chrono can represent it.
pub uninterp spec fn utc_day(seconds: i64) -> Option<i64>;

/// `Utc::timestamp_opt(seconds, 0).single()`, as the day since 1970-01-01 of its UTC date:
/// `None` when chrono cannot represent the time, else the floor of `seconds / 86400`.
#[verifier::external_body]
fn utc_day_of(seconds: i64) -> (r: Option<i64>)
    ensures
        r == utc_day(seconds),
        r matches Some(d) ==> d == seconds as int / 86400,
{
    let epoch = chrono::NaiveDate::default();
    chrono::Utc.timestamp_opt(seconds, 0).single().map(|date| date.date_naive().signed_duration_since(epoch).num_days())
}

/// `Utc::now().date_naive()`: today as the day since 1970-01-01 (a Thursday) and its
/// `Weekday::num_days_from_monday`. The day depends on the clock; the weekday is the calendar's.
#[verifier::external_body]
fn utc_today() -> (r: (i64, usize))
    ensures
        r.1 == (r.0 as int + 3) % 7,
{
    let epoch = chrono::NaiveDate::default();
    let today = chrono::Utc::now().date_naive();
    (today.signed_duration_since(epoch).num_days(), today.weekday().num_days_from_monday() as usize)
}

/// The committer time of a commit, read from the object database; `None` when it cannot be
/// read. What is on disk decides, so nothing is stated of it.
#[verifier::external_body]
fn commit_seconds(repo: &gix::Repository, oid: &gix::ObjectId, buf: &mut Vec<u8>) -> Option<i64> {
    buf.clear();
    Some(repo.objects.find_commit(oid.as_ref(), buf).ok()?.time().ok()?.seconds)
}

/// Where a commit's day falls relative to today.
#[derive(Copy, Clone, Debug, PartialEq, Eq)]
pub enum DateBucket {
    /// This many days ago, within the heatmap's window.
    Count(usize),
    /// After today, or a time without a date.
    Future,
    /// Before the window.
    BeforeWindow,
}

/// The bucket of a commit made on `commit_day` (`None`: no date), seen from `today`.
pub open spec fn bucket_of(today: i64, commit_day: Option<i64>) -> DateBucket {
    match commit_day {
        None => DateBucket::Future,
        Some(d) => if (today as int) - d < 0 {
            DateBucket::Future
        } else if (today as int) - d >= TOTAL_DAYS {
            DateBucket::BeforeWindow
        } else {
            DateBucket::Count(((today as int) - d) as usize)
        },
    }
}

/// Place a commit's day relative to `today`.
pub fn bucket_for_day(today: i64, commit_day: Option<i64>) -> (b: DateBucket)
    ensures
        b == bucket_of(today, commit_day),
{
    match commit_day {
        None => DateBucket::Future,
        Some(d) => {
            let ago: i128 = today as i128 - d as i128;
            if ago < 0 {
                DateBucket::Future
            } else if ago >= 371 {
                DateBucket::BeforeWindow
            } else {
                DateBucket::Count(ago as usize)
            }
        },
    }
}

/// Place a commit time (Unix seconds) relative to `today` (days since 1970-01-01).
pub fn bucket_seconds(today: i64, seconds: i64) -> (b: DateBucket)
    ensures
        b == bucket_of(today, utc_day(seconds)),
{
    bucket_for_day(today, utc_day_of(seconds))
}

/// How many of the first `n` times precede the first one before the window, per day.
pub open spec fn count_up_to(today: i64, seconds: Seq<i64>, n: int, day: int) -> nat
    decreases n,
{
    if n <= 0 {
        0
    } else {
        count_up_to(today, seconds, n - 1, day) + (if bucket_of(today, utc_day(seconds[n - 1])) == DateBucket::Count(day as usize) {
            1nat
        } else {
            0nat
        })
    }
}

/// The number of leading times that are not before the window: counting stops at the first
/// one that is (the times come newest first).
pub open spec fn counted_prefix(today: i64, seconds: Seq<i64>) -> int
    decreases seconds.len(),
{
    if seconds.len() == 0 {
        0
    } else if bucket_of(today, utc_day(seconds[0])) == DateBucket::BeforeWindow {
        0
    } else {
        1 + counted_prefix(today, seconds.drop_first())
    }
}

/// The commits per day, counted up to the first time before the window.
pub open spec fn day_counts(today: i64, seconds: Seq<i64>, day: int) -> nat {
    count_up_to(today, seconds, counted_prefix(today, seconds), day)
}

proof fn lemma_counted_prefix(today: i64, seconds: Seq<i64>, i: int)
    requires
        0 <= i <= seconds.len(),
        forall|k: int| 0 <= k < i ==> bucket_of(today, utc_day(#[trigger] seconds[k])) != DateBucket::BeforeWindow,
    ensures
        i == seconds.len() ==> counted_prefix(today, seconds) == i,
        i < seconds.len() && bucket_of(today, utc_day(seconds[i])) == DateBucket::BeforeWindow ==> counted_prefix(today, seconds) == i,
    decreases i,
{
    if i > 0 {
        let rest = seconds.drop_first();
        assert forall|k: int| 0 <= k < i - 1 implies bucket_of(today, utc_day(#[trigger] rest[k])) != DateBucket::BeforeWindow by {
            assert(rest[k] == seconds[k + 1]);
        }
        assert(bucket_of(today, utc_day(seconds[0])) != DateBucket::BeforeWindow);
        lemma_counted_prefix(today, rest, i - 1);
        if i < seconds.len() {
            assert(rest[i - 1] == seconds[i]);
        }
    }
}

proof fn lemma_count_bounded(today: i64, seconds: Seq<i64>, n: int, day: int)
    requires
        0 <= n,
    ensures
        count_up_to(today, seconds, n, day) <= n,
    decreases n,
{
    if n > 0 {
        lemma_count_bounded(today, seconds, n - 1, day);
    }
}

/// Commits per day for the last `TOTAL_DAYS` days (index 0 is `today`), from commit times given
/// newest first; times after today are skipped and counting stops at the first time before the
/// window.
pub fn counts_from_commit_seconds_for_day(seconds: &Vec<i64>, today: i64) -> (counts: [usize; 371])
    ensures
        forall|d: int| 0 <= d < 371 ==> #[trigger] counts@[d] == day_counts(today, seconds@, d),
{
    let mut counts: [usize; 371] = [0usize; 371];
    let mut i: usize = 0;
    let mut stopped = false;
    while i < seconds.len() && !stopped
        invariant
            i <= seconds@.len(),
            forall|k: int| 0 <= k < i ==> bucket_of(today, utc_day(#[trigger] seconds@[k])) != DateBucket::BeforeWindow,
            stopped ==> i < seconds@.len() && bucket_of(today, utc_day(seconds@[i as int])) == DateBucket::BeforeWindow,
            forall|d: int| 0 <= d < 371 ==> #[trigger] counts@[d] == count_up_to(today, seconds@, i as int, d),
        decreases seconds@.len() - i, if stopped { 0int } else { 1int },
    {
        match bucket_seconds(today, seconds[i]) {
            DateBucket::Count(days_ago) => {
                proof {
                    lemma_count_bounded(today, seconds@, i as int, days_ago as int);
                }
                let before = counts[days_ago];
                counts[days_ago] = before + 1;
                i += 1;
            },
            DateBucket::Future => {
                i += 1;
            },
            DateBucket::BeforeWindow => {
                stopped = true;
            },
        }
    }
    proof {
        lemma_counted_prefix(today, seconds@, i as int);
    }
    counts
}


/// A cell of the heatmap grid.
#[derive(Copy, Clone, Debug, PartialEq, Eq)]
pub struct HeatmapCell {
    pub day: usize,
    pub week: usize,
}

/// The weekday (Monday 0) of the day `days_ago` days before a day with weekday `weekday_today`.
pub open spec fn weekday_of_age(weekday_today: int, days_ago: int) -> int {
    (weekday_today + 7 - days_ago % 7) % 7
}

pub fn weekday_for_age(weekday_today: usize, days_ago: usize) -> (w: usize)
    requires
        weekday_today < 7,
    ensures
        w == weekday_of_age(weekday_today as int, days_ago as int),
        w < 7,
{
    (weekday_today + 7 - (days_ago % 7)) % 7
}

/// The cell of the day `days_ago` days back: columns are weeks (the last one holds today's
/// week, which ends on Sunday), rows are weekdays; `None` past the first column.
pub open spec fn cell_of(weekday_today: int, days_ago: int) -> Option<HeatmapCell> {
    let week = (days_ago + 6 - weekday_today) / 7;
    if week < WEEKS {
        Some(HeatmapCell { day: weekday_of_age(weekday_today, days_ago) as usize, week: (WEEKS - 1 - week) as usize })
    } else {
        None
    }
}

pub fn heatmap_cell(weekday_today: usize, days_ago: usize) -> (c: Option<HeatmapCell>)
    requires
        weekday_today < 7,
        days_ago <= usize::MAX - 6,
    ensures
        c == cell_of(weekday_today as int, days_ago as int),
{
    let offset = 6 - weekday_today;
    let logical = days_ago + offset;
    let week = logical / 7;
    if week < WEEKS {
        Some(HeatmapCell { day: weekday_for_age(weekday_today, days_ago), week: WEEKS - 1 - week })
    } else {
        None
    }
}

/// The day (days back from today) that the grid cell at `day`, `week` shows.
pub open spec fn age_at(weekday_today: int, day: int, week: int) -> int {
    7 * (WEEKS - 1 - week) + weekday_today - day
}

/// What the grid shows at `day`, `week`: that day's count, or 0 for days after today.
pub open spec fn grid_value(counts: Seq<usize>, weekday_today: int, day: int, week: int) -> usize {
    let age = age_at(weekday_today, day, week);
    if 0 <= age < TOTAL_DAYS { counts[age] } else { 0 }
}

proof fn lemma_cell_age(weekday_today: int, days_ago: int)
    requires
        0 <= weekday_today < 7,
        0 <= days_ago,
        cell_of(weekday_today, days_ago) is Some,
    ensures
        ({
            let c = cell_of(weekday_today, days_ago)->0;
            &&& c.day < DAYS && c.week < WEEKS
            &&& age_at(weekday_today, c.day as int, c.week as int) == days_ago
        }),
{
    let logical = days_ago + 6 - weekday_today;
    let q = logical / 7;
    let r = logical % 7;
    lemma_fundamental_div_mod(logical, 7);
    let m = days_ago % 7;
    lemma_fundamental_div_mod(days_ago, 7);
    // days_ago = 7q + r - 6 + weekday_today, so its weekday is 6 - r
    assert((weekday_today + 7 - m) % 7 == 6 - r) by (nonlinear_arith)
        requires
            days_ago == 7 * q + r - 6 + weekday_today,
            days_ago == 7 * (days_ago / 7) + m,
            0 <= m < 7,
            0 <= r < 7,
            0 <= weekday_today < 7,
    {
        let k = days_ago / 7;
        assert(7 * k + m == 7 * q + r - 6 + weekday_today);
        assert(weekday_today + 7 - m == 7 * (k - q + 1) + 6 - r);
    }
}

proof fn lemma_age_cell(weekday_today: int, day: int, week: int)
    requires
        0 <= weekday_today < 7,
        0 <= day < DAYS,
        0 <= week < WEEKS,
        age_at(weekday_today, day, week) >= 0,
    ensures
        cell_of(weekday_today, age_at(weekday_today, day, week)) == Some(HeatmapCell { day: day as usize, week: week as usize }),
{
    let a = age_at(weekday_today, day, week);
    let q = WEEKS - 1 - week;
    assert((a + 6 - weekday_today) / 7 == q) by (nonlinear_arith)
        requires
            a + 6 - weekday_today == 7 * q + 6 - day,
            0 <= day < 7,
            q >= 0;
    assert((weekday_today + 7 - a % 7) % 7 == day) by (nonlinear_arith)
        requires
            a == 7 * q + weekday_today - day,
            a >= 0,
            q >= 0,
            0 <= day < 7,
            0 <= weekday_today < 7,
    {
        lemma_fundamental_div_mod(a, 7);
    }
}

/// The heatmap grid for per-day counts (index 0 is today) and today's weekday (Monday 0).
pub fn build_heatmap_from_counts_for_day(counts: [usize; 371], weekday_today: usize) -> (grid: [[usize; 53]; 7])
    requires
        weekday_today < 7,
    ensures
        forall|day: int, week: int| 0 <= day < 7 && 0 <= week < 53 ==> #[trigger] grid@[day]@[week] == grid_value(counts@, weekday_today as int, day, week),
{
    let mut grid: [[usize; 53]; 7] = [[0usize; 53]; 7];
    let mut d: usize = 0;
    while d < 371
        invariant
            d <= 371,
            weekday_today < 7,
            forall|day: int, week: int| 0 <= day < 7 && 0 <= week < 53 ==> #[trigger] grid@[day]@[week] == ({
                let age = age_at(weekday_today as int, day, week);
                if 0 <= age < d { counts@[age] } else { 0 }
            }),
        decreases 371 - d,
    {
        match heatmap_cell(weekday_today, d) {
            Some(cell) => {
                proof {
                    lemma_cell_age(weekday_today as int, d as int);
                }
                let mut row = grid[cell.day];
                row[cell.week] = counts[d];
                grid[cell.day] = row;
                proof {
                    assert forall|day: int, week: int| 0 <= day < 7 && 0 <= week < 53 implies #[trigger] grid@[day]@[week] == ({
                        let age = age_at(weekday_today as int, day, week);
                        if 0 <= age < d + 1 { counts@[age] } else { 0 }
                    }) by {
                        let age = age_at(weekday_today as int, day, week);
                        if age == d {
                            lemma_age_cell(weekday_today as int, day, week);
                        }
                    }
                }
            },
            None => {
                proof {
                    assert forall|day: int, week: int| 0 <= day < 7 && 0 <= week < 53 && age_at(weekday_today as int, day, week) == d implies false by {
                        lemma_age_cell(weekday_today as int, day, week);
                    }
                }
            },
        }
        d += 1;
    }
    grid
}


/// Commit counts per day over the heatmap's window, for a fixed day.
pub struct HeatmapCounts {
    /// Today, as the day since 1970-01-01.
    pub today: i64,
    /// Today's weekday, Monday 0.
    pub weekday_today: usize,
    /// Commits per day; index 0 is today.
    pub counts: [usize; 371],
}

impl HeatmapCounts {
    pub open spec fn wf(&self) -> bool {
        self.weekday_today < 7
    }

    /// Empty counts for today (the clock's date, in UTC).
    pub fn new() -> (h: HeatmapCounts)
        ensures
            h.wf(),
            forall|d: int| 0 <= d < 371 ==> #[trigger] h.counts@[d] == 0,
    {
        let (today, weekday_today) = utc_today();
        HeatmapCounts { today, weekday_today, counts: [0usize; 371] }
    }

    /// Empty counts for the day `today` whose weekday is `weekday_today`.
    pub fn for_day(today: i64, weekday_today: usize) -> (h: HeatmapCounts)
        requires
            weekday_today < 7,
        ensures
            h.wf(),
            h.today == today,
            h.weekday_today == weekday_today,
            forall|d: int| 0 <= d < 371 ==> #[trigger] h.counts@[d] == 0,
    {
        HeatmapCounts { today, weekday_today, counts: [0usize; 371] }
    }

    /// Count one commit made at `seconds` (Unix time) when its day lies in the window.
    pub fn add_commit_seconds(&mut self, seconds: i64)
        requires
            forall|d: int| 0 <= d < 371 ==> #[trigger] old(self).counts@[d] < usize::MAX,
        ensures
            final(self).today == old(self).today,
            final(self).weekday_today == old(self).weekday_today,
            forall|d: int| 0 <= d < 371 ==> #[trigger] final(self).counts@[d] == old(self).counts@[d] + (if bucket_of(old(self).today, utc_day(seconds)) == DateBucket::Count(d as usize) {
                1int
            } else {
                0int
            }),
    {
        match bucket_seconds(self.today, seconds) {
            DateBucket::Count(days_ago) => {
                let before = self.counts[days_ago];
                self.counts[days_ago] = before + 1;
            },
            _ => {},
        }
    }

    /// The heatmap grid of these counts.
    pub fn build(&self) -> (grid: [[usize; 53]; 7])
        requires
            self.wf(),
        ensures
            forall|day: int, week: int| 0 <= day < 7 && 0 <= week < 53 ==> #[trigger] grid@[day]@[week] == grid_value(self.counts@, self.weekday_today as int, day, week),
    {
        build_heatmap_from_counts_for_day(self.counts, self.weekday_today)
    }
}

/// A heatmap grid with no commits.
pub fn empty_heatmap() -> (grid: [[usize; 53]; 7])
    ensures
        forall|day: int, week: int| 0 <= day < 7 && 0 <= week < 53 ==> #[trigger] grid@[day]@[week] == 0,
{
    [[0usize; 53]; 7]
}

/// The times among `times` that were read, in order.
pub open spec fn read_seconds(times: Seq<Option<i64>>) -> Seq<i64>
    decreases times.len(),
{
    if times.len() == 0 {
        Seq::empty()
    } else {
        match times.last() {
            Some(s) => read_seconds(times.drop_last()).push(s),
            None => read_seconds(times.drop_last()),
        }
    }
}

/// Whether `times` are answers `commit_time` can give for the commits `oids`, one each, in order.
pub open spec fn times_of<F: Fn(gix::ObjectId) -> Option<i64>>(commit_time: F, oids: Seq<gix::ObjectId>, times: Seq<Option<i64>>) -> bool {
    times.len() == oids.len() && forall|k: int| 0 <= k < oids.len() ==> #[trigger] call_ensures(commit_time, (oids[k],), times[k])
}

proof fn lemma_read_seconds_len(times: Seq<Option<i64>>)
    ensures
        read_seconds(times).len() <= times.len(),
    decreases times.len(),
{
    if times.len() > 0 {
        lemma_read_seconds_len(times.drop_last());
    }
}

proof fn lemma_first_read_second(times: Seq<Option<i64>>, s: i64)
    requires
        times.len() > 0,
        times[0] == Some(s),
    ensures
        read_seconds(times).len() > 0,
        read_seconds(times)[0] == s,
    decreases times.len(),
{
    if times.len() > 1 {
        let rest = times.drop_last();
        assert(rest[0] == times[0]);
        lemma_first_read_second(rest, s);
    } else {
        assert(times.drop_last() =~= Seq::<Option<i64>>::empty());
        assert(read_seconds(times.drop_last()) =~= Seq::<i64>::empty());
    }
}

proof fn lemma_count_grows(today: i64, seconds: Seq<i64>, n: int, day: int)
    requires
        1 <= n,
    ensures
        count_up_to(today, seconds, n, day) >= count_up_to(today, seconds, 1, day),
    decreases n,
{
    if n > 1 {
        lemma_count_grows(today, seconds, n - 1, day);
    }
}

/// The newest commit is counted: when the first commit's time is read and falls `day` days
/// before `today` within the window, that day's count is at least one.
pub proof fn law_newest_commit_counted(today: i64, times: Seq<Option<i64>>, s: i64, day: int)
    requires
        times.len() > 0,
        times[0] == Some(s),
        0 <= day < TOTAL_DAYS,
        bucket_of(today, utc_day(s)) == DateBucket::Count(day as usize),
    ensures
        day_counts(today, read_seconds(times), day) >= 1,
{
    let seconds = read_seconds(times);
    lemma_first_read_second(times, s);
    lemma_counted_prefix_bound(today, seconds.drop_first());
    assert(counted_prefix(today, seconds) >= 1);
    lemma_count_grows(today, seconds, counted_prefix(today, seconds), day);
    assert(count_up_to(today, seconds, 0, day) == 0);
    assert(count_up_to(today, seconds, 1, day) == 1);
}

/// A commit whose time cannot be read leaves the counts as they are: reading one more commit
/// after the others that gives no time changes no day's count.
pub proof fn law_unread_commit_uncounted(today: i64, times: Seq<Option<i64>>, day: int)
    ensures
        day_counts(today, read_seconds(times.push(None)), day) == day_counts(today, read_seconds(times), day),
{
    assert(times.push(None).drop_last() =~= times);
}

/// Commits per day over the window ending `today` (index 0 is today) for the commits `oids`
/// given newest first, with the committer times `commit_time` reads: every time that is read
/// counts on its day (see `counts_from_commit_seconds_for_day`); commits whose time cannot be
/// read are left out.
pub fn commits_per_day_with<F: Fn(gix::ObjectId) -> Option<i64>>(oids: &Vec<gix::ObjectId>, commit_time: &F, today: i64) -> (counts: [usize; 371])
    requires
        forall|o: gix::ObjectId| call_requires(*commit_time, (o,)),
    ensures
        exists|times: Seq<Option<i64>>| #[trigger] times_of(*commit_time, oids@, times)
            && forall|d: int| 0 <= d < 371 ==> #[trigger] counts@[d] == day_counts(today, read_seconds(times), d),
        forall|d: int| 0 <= d < 371 ==> #[trigger] counts@[d] <= oids@.len(),
{
    let mut seconds: Vec<i64> = Vec::new();
    let ghost mut times: Seq<Option<i64>> = Seq::empty();
    let mut i: usize = 0;
    while i < oids.len()
        invariant
            i <= oids@.len(),
            forall|o: gix::ObjectId| call_requires(*commit_time, (o,)),
            times.len() == i,
            forall|k: int| 0 <= k < i ==> #[trigger] call_ensures(*commit_time, (oids@[k],), times[k]),
            seconds@ == read_seconds(times),
        decreases oids@.len() - i,
    {
        let t = commit_time(oids[i]);
        let ghost prev = times;
        proof {
            times = prev.push(t);
            assert(times.drop_last() =~= prev);
        }
        match t {
            Some(s) => seconds.push(s),
            None => {},
        }
        i += 1;
    }
    let counts = counts_from_commit_seconds_for_day(&seconds, today);
    proof {
        assert(times_of(*commit_time, oids@, times));
        lemma_read_seconds_len(times);
        assert forall|d: int| 0 <= d < 371 implies #[trigger] counts@[d] <= oids@.len() by {
            lemma_counted_prefix_bound(today, seconds@);
            lemma_count_bounded(today, seconds@, counted_prefix(today, seconds@), d);
        }
    }
    counts
}

/// Commits per day over the window ending today (index 0 is today), for the commits `oids`
/// given newest first: commits that cannot be read are skipped, times after today are skipped,
/// and counting stops at the first commit before the window. Each count is at most the number
/// of commits.
pub fn commits_per_day(repo: &gix::Repository, oids: &Vec<gix::ObjectId>) -> (counts: [usize; 371])
    ensures
        forall|d: int| 0 <= d < 371 ==> #[trigger] counts@[d] <= oids@.len(),
{
    let (today, _) = utc_today();
    commits_per_day_with(oids, &|o: gix::ObjectId| {
        let mut buf: Vec<u8> = Vec::new();
        commit_seconds(repo, &o, &mut buf)
    }, today)
}

proof fn lemma_counted_prefix_bound(today: i64, seconds: Seq<i64>)
    ensures
        0 <= counted_prefix(today, seconds) <= seconds.len(),
    decreases seconds.len(),
{
    if seconds.len() > 0 {
        lemma_counted_prefix_bound(today, seconds.drop_first());
    }
}

/// Whether `grid` shows `counts` for a today with weekday `w`.
pub open spec fn grid_shows(grid: [[usize; 53]; 7], counts: Seq<usize>, w: int) -> bool {
    0 <= w < 7 && forall|day: int, week: int| 0 <= day < 7 && 0 <= week < 53 ==> #[trigger] grid@[day]@[week] == grid_value(counts, w, day, week)
}

/// The heatmap grid for per-day counts ending today (the clock's date, in UTC).
pub fn build_heatmap_from_counts(counts: [usize; 371]) -> (grid: [[usize; 53]; 7])
    ensures
        exists|w: int| #[trigger] grid_shows(grid, counts@, w),
{
    let (_, weekday_today) = utc_today();
    let grid = build_heatmap_from_counts_for_day(counts, weekday_today);
    assert(grid_shows(grid, counts@, weekday_today as int));
    grid
}

/// The activity heatmap of the commits `oids` (newest first), ending today: each cell holds the
/// commits of one day, at most the number of commits.
pub fn build_heatmap(repo: &gix::Repository, oids: &Vec<gix::ObjectId>) -> (grid: [[usize; 53]; 7])
    ensures
        forall|day: int, week: int| 0 <= day < 7 && 0 <= week < 53 ==> #[trigger] grid@[day]@[week] <= oids@.len(),
{
    let counts = commits_per_day(repo, oids);
    let grid = build_heatmap_from_counts(counts);
    proof {
        let w = choose|w: int| #[trigger] grid_shows(grid, counts@, w);
        assert forall|day: int, week: int| 0 <= day < 7 && 0 <= week < 53 implies #[trigger] grid@[day]@[week] <= oids@.len() by {
            assert(grid@[day]@[week] == grid_value(counts@, w, day, week));
            let age = age_at(w, day, week);
            if 0 <= age < TOTAL_DAYS {
                assert(counts@[age] <= oids@.len());
            }
        }
    }
    grid
}


/// The commits-per-day grid for the commits of the graph order, in that order (the row for
/// uncommitted changes stands for the zero id, which names no commit).
pub fn build_heatmap_from_sorted_aliases(repo: &gix::Repository, oids: &Oids) -> (grid: [[usize; 53]; 7])
    ensures
        forall|day: int, week: int| 0 <= day < 7 && 0 <= week < 53 ==> #[trigger] grid@[day]@[week] <= oids.sorted_aliases@.len(),
{
    let sorted = oids.get_sorted_aliases();
    let mut ids: Vec<gix::ObjectId> = Vec::new();
    let mut i: usize = 0;
    while i < sorted.len()
        invariant
            i <= sorted@.len(),
            ids@.len() == i,
            sorted@ == oids.sorted_aliases@,
        decreases sorted@.len() - i,
    {
        ids.push(*oids.get_oid_by_alias(sorted[i]));
        i += 1;
    }
    build_heatmap(repo, &ids)
}

} // verus!
