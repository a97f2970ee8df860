//! The statistics of a repository and the pass that accumulates them.

use crate::calendar::{
    calendar_slot, follows_within_one_day, in_trailing_year, timestamp_text, utc_text, weekday_of,
    weekday_on, LAST_DATED_TIMESTAMP,
};
use crate::commit::{author_key, Commit};
use crate::contributors::{lemma_tally_of, tally_total, Contributors};
use crate::laws::{
    lemma_calendar_covers_trailing_year, lemma_contributors_cover_commits,
    lemma_weekdays_cover_commits,
};
use crate::model::{
    authors_of, calendar_of, closing_run, counts_max, counts_sum, lemma_all_zero,
    lemma_calendar_sum, lemma_churn_bounded, lemma_counts_bounded, lemma_sum_take, longest_run,
    summary_of, tallied, weekdays_of, zeros, AnalysisOptions, StatsView,
};
use vstd::prelude::*;

verus! {

/// Counts as mathematical values.
pub open spec fn counts_view(counts: Seq<usize>) -> Seq<nat> {
    counts.map_values(|c: usize| c as nat)
}

/// The statistics of one repository.
#[derive(Debug)]
pub struct RepositoryStats {
    /// Number of commits visited.
    pub commit_count: usize,
    /// The greatest author time seen, in seconds since the epoch.
    pub last_commit_timestamp: u64,
    /// Commits per author name.
    pub contributors: Contributors,
    /// Files changed against first parents. Wide enough for any history.
    pub total_files_changed: u128,
    /// Lines inserted against first parents.
    pub total_lines_inserted: u128,
    /// Lines deleted against first parents.
    pub total_lines_deleted: u128,
    /// Commits of the trailing year by calendar slot.
    pub commits_per_calendar_day: [usize; 365],
    /// Commits of the trailing year.
    pub commits_last_year: usize,
    /// Longest run of calendar slots with commits.
    pub longest_commit_streak: usize,
    /// Longest run of commits that follow each other within one day.
    pub current_commit_streak: usize,
    /// Greatest number of commits in one calendar slot.
    pub max_commits_in_a_day: usize,
    /// Commits by day of the week, Monday first.
    pub commits_per_weekday: [usize; 7],
}

impl View for RepositoryStats {
    type V = StatsView;

    open spec fn view(&self) -> StatsView {
        StatsView {
            commit_count: self.commit_count as nat,
            last_commit_timestamp: self.last_commit_timestamp as nat,
            contributors: self.contributors@,
            total_files_changed: self.total_files_changed as nat,
            total_lines_inserted: self.total_lines_inserted as nat,
            total_lines_deleted: self.total_lines_deleted as nat,
            commits_per_calendar_day: counts_view(self.commits_per_calendar_day@),
            commits_last_year: self.commits_last_year as nat,
            longest_commit_streak: self.longest_commit_streak as nat,
            current_commit_streak: self.current_commit_streak as nat,
            max_commits_in_a_day: self.max_commits_in_a_day as nat,
            commits_per_weekday: counts_view(self.commits_per_weekday@),
        }
    }
}

/// The greatest of the counts, zero where there are none.
pub fn max_count(counts: &[usize]) -> (greatest: usize)
    ensures
        greatest == counts_max(counts_view(counts@)),
{
    let ghost view = counts_view(counts@);
    let mut greatest: usize = 0;
    let mut i: usize = 0;
    while i < counts.len()
        invariant
            i <= counts.len(),
            view == counts_view(counts@),
            greatest == counts_max(view.take(i as int)),
        decreases counts.len() - i,
    {
        assert(view.take(i + 1).drop_last() =~= view.take(i as int));
        if counts[i] > greatest {
            greatest = counts[i];
        }
        i += 1;
    }
    assert(view.take(counts.len() as int) =~= view);
    greatest
}

/// The sum of the counts.
pub fn total_count(counts: &[usize]) -> (sum: usize)
    requires
        counts_sum(counts_view(counts@)) <= usize::MAX,
    ensures
        sum == counts_sum(counts_view(counts@)),
{
    let ghost view = counts_view(counts@);
    let mut sum: usize = 0;
    let mut i: usize = 0;
    while i < counts.len()
        invariant
            i <= counts.len(),
            view == counts_view(counts@),
            counts_sum(view) <= usize::MAX,
            sum == counts_sum(view.take(i as int)),
        decreases counts.len() - i,
    {
        proof {
            lemma_sum_take(view, i as int);
            lemma_sum_take(view, i + 1);
        }
        sum = sum + counts[i];
        i += 1;
    }
    assert(view.take(counts.len() as int) =~= view);
    sum
}

/// The length of the longest run of consecutive nonzero counts, read in
/// index order. A single zero ends a run.
pub fn longest_nonzero_run(counts: &[usize]) -> (longest: usize)
    ensures
        longest == longest_run(counts_view(counts@)),
{
    let ghost view = counts_view(counts@);
    let mut longest: usize = 0;
    let mut run: usize = 0;
    let mut i: usize = 0;
    while i < counts.len()
        invariant
            i <= counts.len(),
            view == counts_view(counts@),
            run == closing_run(view.take(i as int)),
            run <= i,
            longest == longest_run(view.take(i as int)),
        decreases counts.len() - i,
    {
        assert(view.take(i + 1).drop_last() =~= view.take(i as int));
        if counts[i] > 0 {
            run = run + 1;
        } else {
            run = 0;
        }
        if run > longest {
            longest = run;
        }
        i += 1;
    }
    assert(view.take(counts.len() as int) =~= view);
    longest
}

impl RepositoryStats {
    /// The statistics of the empty history.
    pub fn new() -> (stats: Self)
        ensures
            forall|options: AnalysisOptions, now: int|
                stats@ == #[trigger] tallied(Seq::<Commit>::empty(), options, now),
    {
        let stats = RepositoryStats {
            commit_count: 0,
            last_commit_timestamp: 0,
            contributors: Contributors::new(),
            total_files_changed: 0,
            total_lines_inserted: 0,
            total_lines_deleted: 0,
            commits_per_calendar_day: [0;365],
            commits_last_year: 0,
            longest_commit_streak: 0,
            current_commit_streak: 0,
            max_commits_in_a_day: 0,
            commits_per_weekday: [0;7],
        };
        proof {
            assert forall|options: AnalysisOptions, now: int|
                stats@ == #[trigger] tallied(Seq::<Commit>::empty(), options, now) by {
                let model = tallied(Seq::<Commit>::empty(), options, now);
                assert(stats@.commits_per_calendar_day =~= model.commits_per_calendar_day);
                assert(stats@.commits_per_weekday =~= model.commits_per_weekday);
                assert(stats@.contributors =~= model.contributors);
            }
        }
        stats
    }

    /// The time of the last commit as text, in UTC and day first; `None`
    /// where that time is past the last date that can be named.
    pub fn last_commit_text(&self) -> (text: Option<String>)
        ensures
            self.last_commit_timestamp <= LAST_DATED_TIMESTAMP ==> text is Some && utc_text(
                self.last_commit_timestamp as int,
            ) == Some(text->0@),
            self.last_commit_timestamp > LAST_DATED_TIMESTAMP ==> text is None,
    {
        timestamp_text(self.last_commit_timestamp)
    }

    /// Fills in the metrics that need the complete calendar: the greatest
    /// number of commits in a day, the commits of the trailing year and the
    /// longest streak of days with commits.
    pub fn derive_metrics(&mut self)
        requires
            counts_sum(old(self)@.commits_per_calendar_day) <= usize::MAX,
        ensures
            final(self)@ == crate::model::with_derived(old(self)@),
    {
        self.max_commits_in_a_day = max_count(self.commits_per_calendar_day.as_slice());
        self.commits_last_year = total_count(self.commits_per_calendar_day.as_slice());
        self.longest_commit_streak = longest_nonzero_run(self.commits_per_calendar_day.as_slice());
    }
}

/// One pass over a history: commits are recorded in the order in which the
/// commit source yields them, then the statistics are taken out.
pub struct StatsAccumulator {
    stats: RepositoryStats,
    options: AnalysisOptions,
    now: u64,
    previous: Option<u64>,
    running: usize,
    seen: Ghost<Seq<Commit>>,
}

impl StatsAccumulator {
    /// The commits recorded so far, in order.
    pub closed spec fn history(&self) -> Seq<Commit> {
        self.seen@
    }

    /// The options that the pass was started with.
    pub closed spec fn options(&self) -> AnalysisOptions {
        self.options
    }

    /// The time that the pass was started with, which fixes the trailing year.
    pub closed spec fn now(&self) -> u64 {
        self.now
    }

    /// The aggregates as they stand.
    pub closed spec fn current(&self) -> StatsView {
        self.stats@
    }

    /// The aggregates are those of the recorded history.
    pub closed spec fn wf(&self) -> bool {
        &&& self.stats@ == tallied(self.seen@, self.options, self.now as int)
        &&& self.previous == if self.seen@.len() == 0 {
            None
        } else {
            Some(self.seen@.last().timestamp)
        }
        &&& self.options.calendar ==> self.running == crate::model::running_streak(self.seen@)
    }

    /// At every point of a pass the aggregates are exactly those of the
    /// commits recorded so far.
    pub proof fn lemma_current(&self)
        requires
            self.wf(),
        ensures
            self.current() == tallied(self.history(), self.options(), self.now() as int),
    {
    }

    /// Two passes that recorded the same commits in the same order, with the
    /// same options and the same time, hold the same aggregates.
    pub proof fn lemma_passes_agree(&self, other: &StatsAccumulator)
        requires
            self.wf(),
            other.wf(),
            self.history() == other.history(),
            self.options() == other.options(),
            self.now() == other.now(),
        ensures
            self.current() == other.current(),
    {
    }

    /// Starts a pass. `now` is the time against which the trailing year is
    /// measured for the whole pass.
    pub fn new(options: AnalysisOptions, now: u64) -> (pass: Self)
        ensures
            pass.wf(),
            pass.history() == Seq::<Commit>::empty(),
            pass.options() == options,
            pass.now() == now,
    {
        StatsAccumulator {
            stats: RepositoryStats::new(),
            options,
            now,
            previous: None,
            running: 0,
            seen: Ghost(Seq::empty()),
        }
    }

    /// Number of commits recorded so far.
    pub fn commit_count(&self) -> (n: usize)
        requires
            self.wf(),
        ensures
            n == self.history().len(),
    {
        self.stats.commit_count
    }

    /// Records the next commit of the stream.
    pub fn record(&mut self, commit: &Commit)
        requires
            old(self).wf(),
            old(self).history().len() < usize::MAX,
        ensures
            final(self).wf(),
            final(self).history() == old(self).history().push(*commit),
            final(self).options() == old(self).options(),
            final(self).now() == old(self).now(),
            final(self).current() == tallied(
                final(self).history(),
                final(self).options(),
                final(self).now() as int,
            ),
            final(self).current().total_files_changed >= old(self).current().total_files_changed,
            final(self).current().total_lines_inserted >= old(self).current().total_lines_inserted,
            final(self).current().total_lines_deleted >= old(self).current().total_lines_deleted,
    {
        let ghost before = self.seen@;
        let ghost after = before.push(*commit);
        let ghost now = self.now as int;
        let ghost start = self.stats@;
        let stamp: u64 = commit.timestamp;
        proof {
            assert(after.drop_last() =~= before);
            assert(authors_of(after).drop_last() =~= authors_of(before));
            assert(authors_of(after).last() == author_key(*commit));
            lemma_tally_of(authors_of(before));
            lemma_churn_bounded(before);
            assert(before.len() * usize::MAX + usize::MAX <= u128::MAX) by (nonlinear_arith)
                requires
                    before.len() < usize::MAX,
                    usize::MAX <= u64::MAX,
            ;
        }
        self.stats.commit_count = self.stats.commit_count + 1;
        self.stats.contributors.credit(commit.author());
        if self.stats.last_commit_timestamp < stamp {
            self.stats.last_commit_timestamp = stamp;
        }
        if self.options.churn {
            match commit.parent_diff {
                Some(diff) => {
                    self.stats.total_files_changed = self.stats.total_files_changed
                        + diff.files_changed as u128;
                    self.stats.total_lines_inserted = self.stats.total_lines_inserted
                        + diff.lines_inserted as u128;
                    self.stats.total_lines_deleted = self.stats.total_lines_deleted
                        + diff.lines_deleted as u128;
                },
                None => {},
            }
        }
        if self.options.calendar {
            if in_trailing_year(stamp, self.now) {
                let slot: usize = calendar_slot(stamp);
                proof {
                    lemma_counts_bounded(before, now, slot as int, 0);
                }
                let count: usize = self.stats.commits_per_calendar_day[slot];
                assert(count == calendar_of(before, now)[slot as int]) by {
                    assert(count == start.commits_per_calendar_day[slot as int]);
                }
                self.stats.commits_per_calendar_day[slot] = count + 1;
            }
            let close: bool = match self.previous {
                Some(previous) => follows_within_one_day(previous, stamp),
                None => false,
            };
            proof {
                lemma_counts_bounded(before, now, 0, 0);
            }
            if close {
                self.running = self.running + 1;
            } else {
                self.running = 0;
            }
            if self.running > self.stats.current_commit_streak {
                self.stats.current_commit_streak = self.running;
            }
        }
        self.previous = Some(stamp);
        if self.options.weekdays {
            match weekday_of(stamp) {
                Some(weekday) => {
                    let day: usize = weekday.num_days_from_monday();
                    proof {
                        lemma_counts_bounded(before, now, 0, day as int);
                    }
                    let count: usize = self.stats.commits_per_weekday[day];
                    assert(count == weekdays_of(before)[day as int]) by {
                        assert(count == start.commits_per_weekday[day as int]);
                    }
                    self.stats.commits_per_weekday[day] = count + 1;
                },
                None => {},
            }
        }
        self.seen = Ghost(after);
        proof {
            let model = tallied(after, self.options, now);
            assert forall|slot: int| 0 <= slot < 365 implies self.stats@.commits_per_calendar_day[slot]
                == model.commits_per_calendar_day[slot] by {
                assert(start.commits_per_calendar_day[slot] == tallied(
                    before,
                    self.options,
                    now,
                ).commits_per_calendar_day[slot]);
            }
            assert(self.stats@.commits_per_calendar_day =~= model.commits_per_calendar_day);
            assert forall|day: int| 0 <= day < 7 implies self.stats@.commits_per_weekday[day]
                == model.commits_per_weekday[day] by {
                assert(start.commits_per_weekday[day] == tallied(
                    before,
                    self.options,
                    now,
                ).commits_per_weekday[day]);
            }
            assert(self.stats@.commits_per_weekday =~= model.commits_per_weekday);
        }
    }

    /// Ends the pass: derives the metrics of the calendar and hands out the
    /// complete statistics of the recorded history.
    pub fn finish(self) -> (stats: RepositoryStats)
        requires
            self.wf(),
        ensures
            stats@ == summary_of(self.history(), self.options(), self.now() as int),
    {
        let mut stats = self.stats;
        proof {
            lemma_calendar_sum(self.seen@, self.now as int);
            lemma_all_zero(zeros(365));
        }
        if self.options.calendar {
            stats.derive_metrics();
        }
        stats
    }
}

/// Computes the statistics of a history in one pass over its commits, in the
/// order given. `now` is the time against which the trailing year is measured.
pub fn gather_stats(commits: &Vec<Commit>, options: AnalysisOptions, now: u64) -> (stats:
    RepositoryStats)
    ensures
        stats@ == summary_of(commits@, options, now as int),
        tally_total(stats.contributors@) == stats.commit_count,
        counts_sum(stats@.commits_per_calendar_day) == stats.commits_last_year,
        stats.commits_last_year <= stats.commit_count,
        options.weekdays && (forall|i: int|
            0 <= i < commits.len() ==> weekday_on((#[trigger] commits[i]).timestamp as int) is Some)
            ==> counts_sum(stats@.commits_per_weekday) == stats.commit_count,
{
    proof {
        lemma_contributors_cover_commits(commits@, options, now as int);
        lemma_calendar_covers_trailing_year(commits@, options, now as int);
        if options.weekdays && (forall|i: int|
            0 <= i < commits.len() ==> weekday_on((#[trigger] commits[i]).timestamp as int) is Some) {
            lemma_weekdays_cover_commits(commits@, options, now as int);
        }
    }
    let mut pass = StatsAccumulator::new(options, now);
    let mut i: usize = 0;
    while i < commits.len()
        invariant
            i <= commits.len(),
            pass.wf(),
            pass.history() == commits@.take(i as int),
            pass.options() == options,
            pass.now() == now,
        decreases commits.len() - i,
    {
        pass.record(&commits[i]);
        assert(commits@.take(i as int).push(commits@[i as int]) =~= commits@.take(i + 1));
        i += 1;
    }
    assert(commits@.take(commits.len() as int) =~= commits@);
    pass.finish()
}

} // verus!
