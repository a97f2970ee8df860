//! What holds of the statistics of every history.

use crate::calendar::weekday_on;
use crate::commit::Commit;
use crate::contributors::{distinct_names, lemma_tally_of, tally_total};
use crate::model::{
    authors_of, counts_sum, lemma_all_zero, lemma_calendar_sum, lemma_weekdays_sum, summary_of,
    zeros, AnalysisOptions,
};
use crate::stats::RepositoryStats;
use vstd::prelude::*;

verus! {

/// The commit counts of the contributors add up to the number of commits,
/// and no contributor is listed twice.
pub proof fn lemma_contributors_cover_commits(
    commits: Seq<Commit>,
    options: AnalysisOptions,
    now: int,
)
    ensures
        tally_total(summary_of(commits, options, now).contributors) == summary_of(
            commits,
            options,
            now,
        ).commit_count,
        distinct_names(summary_of(commits, options, now).contributors),
{
    lemma_tally_of(authors_of(commits));
}

/// Where weekday statistics are requested and the timestamp of every commit
/// names a calendar date, the weekday histogram adds up to the number of
/// commits.
pub proof fn lemma_weekdays_cover_commits(commits: Seq<Commit>, options: AnalysisOptions, now: int)
    requires
        options.weekdays,
        forall|i: int|
            0 <= i < commits.len() ==> weekday_on((#[trigger] commits[i]).timestamp as int) is Some,
    ensures
        counts_sum(summary_of(commits, options, now).commits_per_weekday) == summary_of(
            commits,
            options,
            now,
        ).commit_count,
{
    lemma_weekdays_sum(commits);
}

/// The calendar adds up to the commits of the trailing year, and those are
/// at most all commits.
pub proof fn lemma_calendar_covers_trailing_year(
    commits: Seq<Commit>,
    options: AnalysisOptions,
    now: int,
)
    ensures
        counts_sum(summary_of(commits, options, now).commits_per_calendar_day) == summary_of(
            commits,
            options,
            now,
        ).commits_last_year,
        summary_of(commits, options, now).commits_last_year <= summary_of(
            commits,
            options,
            now,
        ).commit_count,
{
    lemma_calendar_sum(commits, now);
    lemma_all_zero(zeros(365));
}

/// The statistics are a function of the stream, the options and the time of
/// the pass: two passes over the same stream give the same statistics.
pub proof fn lemma_pass_repeats(
    first: RepositoryStats,
    second: RepositoryStats,
    commits: Seq<Commit>,
    options: AnalysisOptions,
    now: int,
)
    requires
        first@ == summary_of(commits, options, now),
        second@ == summary_of(commits, options, now),
    ensures
        first@ == second@,
        first.commit_count == second.commit_count,
        first.last_commit_timestamp == second.last_commit_timestamp,
        first.contributors@ == second.contributors@,
        first.total_files_changed == second.total_files_changed,
        first.total_lines_inserted == second.total_lines_inserted,
        first.total_lines_deleted == second.total_lines_deleted,
        first.commits_per_calendar_day@ == second.commits_per_calendar_day@,
        first.commits_last_year == second.commits_last_year,
        first.longest_commit_streak == second.longest_commit_streak,
        first.current_commit_streak == second.current_commit_streak,
        first.max_commits_in_a_day == second.max_commits_in_a_day,
        first.commits_per_weekday@ == second.commits_per_weekday@,
{
    assert forall|i: int| 0 <= i < 365 implies first.commits_per_calendar_day@[i]
        == second.commits_per_calendar_day@[i] by {
        assert(first@.commits_per_calendar_day[i] == second@.commits_per_calendar_day[i]);
        assert(first@.commits_per_calendar_day[i] == first.commits_per_calendar_day@[i] as nat);
        assert(second@.commits_per_calendar_day[i] == second.commits_per_calendar_day@[i] as nat);
    }
    assert forall|i: int| 0 <= i < 7 implies first.commits_per_weekday@[i]
        == second.commits_per_weekday@[i] by {
        assert(first@.commits_per_weekday[i] == second@.commits_per_weekday[i]);
        assert(first@.commits_per_weekday[i] == first.commits_per_weekday@[i] as nat);
        assert(second@.commits_per_weekday[i] == second.commits_per_weekday@[i] as nat);
    }
    assert(first.commits_per_calendar_day@ =~= second.commits_per_calendar_day@);
    assert(first.commits_per_weekday@ =~= second.commits_per_weekday@);
}

} // verus!
