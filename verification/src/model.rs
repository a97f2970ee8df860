//! What the statistics of a history are: each aggregate as a function of the
//! stream of commits, the requested options and the time of the pass.

use crate::calendar::{slot_of, weekday_on, within_one_day, within_trailing_year};
use crate::commit::{author_key, Commit};
use crate::contributors::{tally_of, Tally};
use vstd::prelude::*;

verus! {

/// Which optional aggregates a pass computes. Commit count, contributors and
/// the last commit time are always computed.
#[derive(Clone, Copy, PartialEq, Eq, Structural, Debug)]
pub struct AnalysisOptions {
    /// Sum the differences to the first parents.
    pub churn: bool,
    /// Fill the calendar of the trailing year and track the commit streak.
    pub calendar: bool,
    /// Count the commits per day of the week.
    pub weekdays: bool,
}

/// The statistics of a history as mathematical values.
pub struct StatsView {
    pub commit_count: nat,
    pub last_commit_timestamp: nat,
    pub contributors: Tally,
    pub total_files_changed: nat,
    pub total_lines_inserted: nat,
    pub total_lines_deleted: nat,
    pub commits_per_calendar_day: Seq<nat>,
    pub commits_last_year: nat,
    pub longest_commit_streak: nat,
    pub current_commit_streak: nat,
    pub max_commits_in_a_day: nat,
    pub commits_per_weekday: Seq<nat>,
}

/// The names under which the commits of a stream are counted, in order.
pub open spec fn authors_of(commits: Seq<Commit>) -> Seq<Seq<char>> {
    commits.map_values(|c: Commit| author_key(c))
}

/// The greatest timestamp of a stream, zero for the empty stream.
pub open spec fn latest_of(commits: Seq<Commit>) -> nat
    decreases commits.len(),
{
    if commits.len() == 0 {
        0
    } else {
        let before = latest_of(commits.drop_last());
        if before < commits.last().timestamp {
            commits.last().timestamp as nat
        } else {
            before
        }
    }
}

/// Files changed by one commit against its first parent, zero without one.
pub open spec fn files_changed_by(commit: Commit) -> nat {
    match commit.parent_diff {
        Some(diff) => diff.files_changed as nat,
        None => 0,
    }
}

/// Lines inserted by one commit against its first parent, zero without one.
pub open spec fn lines_inserted_by(commit: Commit) -> nat {
    match commit.parent_diff {
        Some(diff) => diff.lines_inserted as nat,
        None => 0,
    }
}

/// Lines deleted by one commit against its first parent, zero without one.
pub open spec fn lines_deleted_by(commit: Commit) -> nat {
    match commit.parent_diff {
        Some(diff) => diff.lines_deleted as nat,
        None => 0,
    }
}

/// Files changed over a whole stream.
pub open spec fn files_changed_of(commits: Seq<Commit>) -> nat
    decreases commits.len(),
{
    if commits.len() == 0 {
        0
    } else {
        files_changed_of(commits.drop_last()) + files_changed_by(commits.last())
    }
}

/// Lines inserted over a whole stream.
pub open spec fn lines_inserted_of(commits: Seq<Commit>) -> nat
    decreases commits.len(),
{
    if commits.len() == 0 {
        0
    } else {
        lines_inserted_of(commits.drop_last()) + lines_inserted_by(commits.last())
    }
}

/// Lines deleted over a whole stream.
pub open spec fn lines_deleted_of(commits: Seq<Commit>) -> nat
    decreases commits.len(),
{
    if commits.len() == 0 {
        0
    } else {
        lines_deleted_of(commits.drop_last()) + lines_deleted_by(commits.last())
    }
}

/// Whether a commit is counted in calendar slot `slot` by a pass at `now`.
pub open spec fn falls_in_slot(commit: Commit, now: int, slot: int) -> bool {
    within_trailing_year(commit.timestamp as int, now) && slot_of(commit.timestamp as int) == slot
}

/// The number of commits of a stream counted in one calendar slot.
pub open spec fn slot_count(commits: Seq<Commit>, now: int, slot: int) -> nat
    decreases commits.len(),
{
    if commits.len() == 0 {
        0
    } else {
        slot_count(commits.drop_last(), now, slot) + if falls_in_slot(commits.last(), now, slot) {
            1nat
        } else {
            0nat
        }
    }
}

/// The number of commits of a stream within the trailing year of `now`.
pub open spec fn trailing_year_count(commits: Seq<Commit>, now: int) -> nat
    decreases commits.len(),
{
    if commits.len() == 0 {
        0
    } else {
        trailing_year_count(commits.drop_last(), now) + if within_trailing_year(
            commits.last().timestamp as int,
            now,
        ) {
            1nat
        } else {
            0nat
        }
    }
}

/// Whether a commit was made on the weekday `day` days after Monday.
pub open spec fn falls_on_weekday(commit: Commit, day: int) -> bool {
    match weekday_on(commit.timestamp as int) {
        Some(weekday) => weekday.index() == day,
        None => false,
    }
}

/// The number of commits of a stream made on one day of the week.
pub open spec fn weekday_count(commits: Seq<Commit>, day: int) -> nat
    decreases commits.len(),
{
    if commits.len() == 0 {
        0
    } else {
        weekday_count(commits.drop_last(), day) + if falls_on_weekday(commits.last(), day) {
            1nat
        } else {
            0nat
        }
    }
}

/// The number of commits of a stream whose timestamp names a calendar date.
pub open spec fn dated_count(commits: Seq<Commit>) -> nat
    decreases commits.len(),
{
    if commits.len() == 0 {
        0
    } else {
        dated_count(commits.drop_last()) + if weekday_on(commits.last().timestamp as int) is Some {
            1nat
        } else {
            0nat
        }
    }
}

/// The streak running at the end of a stream: how many commits in a row, up
/// to the last, each follow the commit visited before them within one day.
pub open spec fn running_streak(commits: Seq<Commit>) -> nat
    decreases commits.len(),
{
    if commits.len() < 2 {
        0
    } else if within_one_day(
        commits[commits.len() - 2].timestamp as int,
        commits.last().timestamp as int,
    ) {
        running_streak(commits.drop_last()) + 1
    } else {
        0
    }
}

/// The longest streak that was running at any point of a stream.
pub open spec fn best_streak(commits: Seq<Commit>) -> nat
    decreases commits.len(),
{
    if commits.len() == 0 {
        0
    } else {
        let before = best_streak(commits.drop_last());
        if before < running_streak(commits) {
            running_streak(commits)
        } else {
            before
        }
    }
}

/// The greatest entry of a sequence of counts, zero for the empty sequence.
pub open spec fn counts_max(counts: Seq<nat>) -> nat
    decreases counts.len(),
{
    if counts.len() == 0 {
        0
    } else {
        let before = counts_max(counts.drop_last());
        if before < counts.last() {
            counts.last()
        } else {
            before
        }
    }
}

/// The sum of a sequence of counts.
pub open spec fn counts_sum(counts: Seq<nat>) -> nat
    decreases counts.len(),
{
    if counts.len() == 0 {
        0
    } else {
        counts_sum(counts.drop_last()) + counts.last()
    }
}

/// The length of the run of nonzero counts that ends with the last entry.
pub open spec fn closing_run(counts: Seq<nat>) -> nat
    decreases counts.len(),
{
    if counts.len() == 0 || counts.last() == 0 {
        0
    } else {
        closing_run(counts.drop_last()) + 1
    }
}

/// The length of the longest run of consecutive nonzero counts.
pub open spec fn longest_run(counts: Seq<nat>) -> nat
    decreases counts.len(),
{
    if counts.len() == 0 {
        0
    } else {
        let before = longest_run(counts.drop_last());
        if before < closing_run(counts) {
            closing_run(counts)
        } else {
            before
        }
    }
}

/// The calendar of a stream: for each of the 365 slots the number of commits
/// of the trailing year that fall into it.
pub open spec fn calendar_of(commits: Seq<Commit>, now: int) -> Seq<nat> {
    Seq::new(365, |slot: int| slot_count(commits, now, slot))
}

/// The weekday histogram of a stream, Monday first.
pub open spec fn weekdays_of(commits: Seq<Commit>) -> Seq<nat> {
    Seq::new(7, |day: int| weekday_count(commits, day))
}

/// A sequence of zero counts.
pub open spec fn zeros(len: nat) -> Seq<nat> {
    Seq::new(len, |i: int| 0nat)
}

/// The aggregates of one pass over `commits` at time `now`, before the
/// derived metrics are computed: those are still zero.
pub open spec fn tallied(commits: Seq<Commit>, options: AnalysisOptions, now: int) -> StatsView {
    StatsView {
        commit_count: commits.len(),
        last_commit_timestamp: latest_of(commits),
        contributors: tally_of(authors_of(commits)),
        total_files_changed: if options.churn {
            files_changed_of(commits)
        } else {
            0
        },
        total_lines_inserted: if options.churn {
            lines_inserted_of(commits)
        } else {
            0
        },
        total_lines_deleted: if options.churn {
            lines_deleted_of(commits)
        } else {
            0
        },
        commits_per_calendar_day: if options.calendar {
            calendar_of(commits, now)
        } else {
            zeros(365)
        },
        commits_last_year: 0,
        longest_commit_streak: 0,
        current_commit_streak: if options.calendar {
            best_streak(commits)
        } else {
            0
        },
        max_commits_in_a_day: 0,
        commits_per_weekday: if options.weekdays {
            weekdays_of(commits)
        } else {
            zeros(7)
        },
    }
}

/// The statistics with the metrics derived from the calendar filled in.
pub open spec fn with_derived(v: StatsView) -> StatsView {
    StatsView {
        commits_last_year: counts_sum(v.commits_per_calendar_day),
        longest_commit_streak: longest_run(v.commits_per_calendar_day),
        max_commits_in_a_day: counts_max(v.commits_per_calendar_day),
        ..v
    }
}

/// The complete statistics of a history.
pub open spec fn summary_of(commits: Seq<Commit>, options: AnalysisOptions, now: int) -> StatsView {
    with_derived(tallied(commits, options, now))
}

/// Replacing one count changes the sum by the difference.
pub proof fn lemma_sum_update(counts: Seq<nat>, at: int, count: nat)
    requires
        0 <= at < counts.len(),
    ensures
        counts_sum(counts.update(at, count)) == counts_sum(counts) - counts[at] + count,
        counts[at] <= counts_sum(counts),
    decreases counts.len(),
{
    if at == counts.len() - 1 {
        assert(counts.update(at, count).drop_last() =~= counts.drop_last());
    } else {
        lemma_sum_update(counts.drop_last(), at, count);
        assert(counts.update(at, count).drop_last() =~= counts.drop_last().update(at, count));
    }
}

/// The sum of a prefix grows with the prefix and never exceeds the whole sum.
pub proof fn lemma_sum_take(counts: Seq<nat>, upto: int)
    requires
        0 <= upto <= counts.len(),
    ensures
        counts_sum(counts.take(upto)) <= counts_sum(counts),
        upto < counts.len() ==> counts_sum(counts.take(upto + 1)) == counts_sum(counts.take(upto))
            + counts[upto],
    decreases counts.len() - upto,
{
    if upto < counts.len() {
        assert(counts.take(upto + 1).drop_last() =~= counts.take(upto));
        lemma_sum_take(counts, upto + 1);
    } else {
        assert(counts.take(upto) =~= counts);
    }
}

/// Where every count is zero, the sum, the greatest count and the longest
/// run of nonzero counts are all zero.
pub proof fn lemma_all_zero(counts: Seq<nat>)
    requires
        forall|i: int| 0 <= i < counts.len() ==> counts[i] == 0,
    ensures
        counts_sum(counts) == 0,
        counts_max(counts) == 0,
        closing_run(counts) == 0,
        longest_run(counts) == 0,
    decreases counts.len(),
{
    if counts.len() > 0 {
        lemma_all_zero(counts.drop_last());
    }
}

/// No slot and no weekday counts more commits than the stream has, and the
/// running streak is shorter than the stream.
pub proof fn lemma_counts_bounded(commits: Seq<Commit>, now: int, slot: int, day: int)
    ensures
        slot_count(commits, now, slot) <= commits.len(),
        weekday_count(commits, day) <= commits.len(),
        trailing_year_count(commits, now) <= commits.len(),
        dated_count(commits) <= commits.len(),
        running_streak(commits) <= commits.len(),
        best_streak(commits) <= commits.len(),
    decreases commits.len(),
{
    if commits.len() > 0 {
        lemma_counts_bounded(commits.drop_last(), now, slot, day);
    }
}

/// The churn of a stream is at most its length times the greatest size that
/// one difference can have.
pub proof fn lemma_churn_bounded(commits: Seq<Commit>)
    ensures
        files_changed_of(commits) <= commits.len() * usize::MAX,
        lines_inserted_of(commits) <= commits.len() * usize::MAX,
        lines_deleted_of(commits) <= commits.len() * usize::MAX,
    decreases commits.len(),
{
    if commits.len() > 0 {
        lemma_churn_bounded(commits.drop_last());
        assert(commits.len() * usize::MAX == (commits.len() - 1) * usize::MAX + usize::MAX)
            by (nonlinear_arith);
    }
}

/// The calendar counts each commit of the trailing year exactly once: its
/// entries sum to the number of those commits, which is at most the number of
/// all commits.
pub proof fn lemma_calendar_sum(commits: Seq<Commit>, now: int)
    ensures
        counts_sum(calendar_of(commits, now)) == trailing_year_count(commits, now),
        trailing_year_count(commits, now) <= commits.len(),
    decreases commits.len(),
{
    let calendar = calendar_of(commits, now);
    if commits.len() == 0 {
        lemma_all_zero(calendar);
    } else {
        let before = calendar_of(commits.drop_last(), now);
        lemma_calendar_sum(commits.drop_last(), now);
        let stamp = commits.last().timestamp as int;
        if within_trailing_year(stamp, now) {
            let slot = slot_of(stamp);
            assert(0 <= slot < 365);
            assert(calendar =~= before.update(slot, before[slot] + 1));
            lemma_sum_update(before, slot, before[slot] + 1);
        } else {
            assert(calendar =~= before);
        }
    }
}

/// The weekday histogram counts each dated commit exactly once: its entries
/// sum to the number of commits whose timestamp names a calendar date.
pub proof fn lemma_weekdays_sum(commits: Seq<Commit>)
    ensures
        counts_sum(weekdays_of(commits)) == dated_count(commits),
        dated_count(commits) <= commits.len(),
        (forall|i: int| 0 <= i < commits.len() ==> weekday_on(
            (#[trigger] commits[i]).timestamp as int,
        ) is Some) ==> dated_count(commits) == commits.len(),
    decreases commits.len(),
{
    let histogram = weekdays_of(commits);
    if commits.len() == 0 {
        lemma_all_zero(histogram);
    } else {
        let earlier = commits.drop_last();
        let before = weekdays_of(earlier);
        lemma_weekdays_sum(earlier);
        match weekday_on(commits.last().timestamp as int) {
            Some(weekday) => {
                let day = weekday.index();
                assert(histogram =~= before.update(day, before[day] + 1));
                lemma_sum_update(before, day, before[day] + 1);
            },
            None => {
                assert(histogram =~= before);
            },
        }
        if forall|i: int| 0 <= i < commits.len() ==> weekday_on(
            (#[trigger] commits[i]).timestamp as int,
        ) is Some {
            assert(weekday_on(commits[commits.len() - 1].timestamp as int) is Some);
            assert forall|i: int| 0 <= i < earlier.len() implies weekday_on(
                (#[trigger] earlier[i]).timestamp as int,
            ) is Some by {
                assert(earlier[i] == commits[i]);
            }
        }
    }
}

} // verus!
