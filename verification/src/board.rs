//! The heat grid of the trailing year: intensity levels of the calendar
//! slots and one row of symbols per day of the week.

use crate::calendar::Weekday;
use crate::model::{counts_max, lemma_all_zero};
use crate::stats::{counts_view, max_count, RepositoryStats};
use vstd::prelude::*;
use vstd::string::StringExecFns;

verus! {

/// Number of intensity levels, from none to a lot.
pub const INTENSITY_LEVELS: usize = 5;

/// The boundaries of the intensity levels for a calendar whose busiest day
/// has `greatest` commits: multiples of a fifth of it, rounded down.
pub open spec fn boundaries_for(greatest: nat) -> Seq<nat> {
    let range = greatest / 5;
    seq![0nat, range, 2 * range, 3 * range, 4 * range]
}

/// The lowest level at or after `from` whose boundary `count` does not
/// exceed; the highest level where there is none.
pub open spec fn level_from(count: nat, bounds: Seq<nat>, from: int) -> int
    decreases bounds.len() - from,
{
    if from >= bounds.len() {
        bounds.len() - 1
    } else if count <= bounds[from] {
        from
    } else {
        level_from(count, bounds, from + 1)
    }
}

/// The intensity level of a day with `count` commits.
pub open spec fn level_of(count: nat, bounds: Seq<nat>) -> int {
    level_from(count, bounds, 0)
}

/// The symbol that stands for an intensity level.
pub open spec fn symbol_of(level: int) -> char {
    if level <= 0 {
        '~'
    } else if level == 1 {
        '\u{b7}'
    } else if level == 2 {
        '\u{25aa}'
    } else if level == 3 {
        '\u{25cf}'
    } else {
        '\u{2b1f}'
    }
}

/// How often the weekday `weekday` occurs among the `days` days that end
/// with a day whose weekday is `today`, both given as days since Monday.
pub open spec fn weekday_occurrences(today: int, weekday: int, days: int) -> nat
    decreases days,
{
    if days <= 0 {
        0
    } else {
        weekday_occurrences(today, weekday, days - 1) + if (today - (days - 1)) % 7 == weekday {
            1nat
        } else {
            0nat
        }
    }
}

/// The levels of one row of the grid: column `i` shows calendar slot
/// `7 * i + weekday`, and columns whose slot lies outside the calendar are
/// not drawn.
pub open spec fn row_levels(days: Seq<nat>, weekday: int, columns: int, bounds: Seq<nat>) -> Seq<
    int,
>
    decreases columns,
{
    if columns <= 0 {
        Seq::empty()
    } else {
        let drawn = row_levels(days, weekday, columns - 1, bounds);
        let slot = 7 * (columns - 1) + weekday;
        if slot < days.len() {
            drawn.push(level_of(days[slot], bounds))
        } else {
            drawn
        }
    }
}

/// The text of a row: for each column a blank and the symbol of its level.
pub open spec fn row_text(levels: Seq<int>) -> Seq<char> {
    Seq::new(
        2 * levels.len(),
        |k: int|
            if k % 2 == 0 {
                ' '
            } else {
                symbol_of(levels[k / 2])
            },
    )
}

/// The level of a day is the lowest whose boundary its count does not
/// exceed, and the highest where its count exceeds them all.
pub proof fn lemma_level_from(count: nat, bounds: Seq<nat>, from: int)
    requires
        0 <= from <= bounds.len(),
        bounds.len() > 0,
    ensures
        from <= level_from(count, bounds, from) || level_from(count, bounds, from) == bounds.len()
            - 1,
        0 <= level_from(count, bounds, from) < bounds.len(),
        forall|i: int| from <= i < level_from(count, bounds, from) ==> count > bounds[i],
        count <= bounds[level_from(count, bounds, from)] || (level_from(count, bounds, from)
            == bounds.len() - 1 && forall|i: int| from <= i < bounds.len() ==> count > bounds[i]),
    decreases bounds.len() - from,
{
    if from < bounds.len() && count > bounds[from] {
        lemma_level_from(count, bounds, from + 1);
    }
}

/// Within 365 days a weekday occurs 53 times if the last day falls on it,
/// and 52 times otherwise.
pub proof fn lemma_weekday_occurrences(today: int, weekday: int)
    requires
        0 <= today < 7,
        0 <= weekday < 7,
    ensures
        weekday_occurrences(today, weekday, 365) == if today == weekday {
            53nat
        } else {
            52nat
        },
{
    lemma_occurrences_upto(today, weekday, 365);
}

/// Counting back from the last day, a weekday occurs once in every seven
/// days, first on the day that lies as far back as the weekday lies before
/// the weekday of the last day.
proof fn lemma_occurrences_upto(today: int, weekday: int, days: int)
    requires
        0 <= today < 7,
        0 <= weekday < 7,
        0 <= days,
    ensures
        weekday_occurrences(today, weekday, days) == (days + 6 - (today - weekday) % 7) / 7,
    decreases days,
{
    if days > 0 {
        lemma_occurrences_upto(today, weekday, days - 1);
    }
}

/// With no commits in the trailing year the busiest day has none and every
/// day is at the lowest intensity level.
pub proof fn lemma_empty_calendar(days: Seq<nat>)
    requires
        forall|i: int| 0 <= i < days.len() ==> days[i] == 0,
    ensures
        counts_max(days) == 0,
        forall|i: int|
            0 <= i < days.len() ==> level_of(#[trigger] days[i], boundaries_for(counts_max(days)))
                == 0,
{
    lemma_all_zero(days);
}

/// The boundaries of the intensity levels of a calendar.
pub fn symbol_distribution(days: &[usize; 365]) -> (bounds: [usize; 5])
    ensures
        counts_view(bounds@) == boundaries_for(counts_max(counts_view(days@))),
{
    let greatest: usize = max_count(days.as_slice());
    let range: usize = greatest / INTENSITY_LEVELS;
    let bounds: [usize; 5] = [0, range, range * 2, range * 3, range * 4];
    assert(counts_view(bounds@) =~= boundaries_for(counts_max(counts_view(days@))));
    bounds
}

/// The intensity level of a day with `count` commits: the lowest level whose
/// boundary the count does not exceed, the highest where it exceeds them all.
pub fn intensity_level(count: usize, bounds: &[usize; 5]) -> (level: usize)
    ensures
        level == level_of(count as nat, counts_view(bounds@)),
        level < INTENSITY_LEVELS,
        forall|i: int| 0 <= i < level ==> count > bounds[i],
        count <= bounds[level as int] || (level == 4 && forall|i: int|
            0 <= i < 5 ==> count > bounds[i]),
{
    let ghost view = counts_view(bounds@);
    let mut level: usize = 0;
    while level < 5
        invariant
            level <= 5,
            view == counts_view(bounds@),
            level_of(count as nat, view) == level_from(count as nat, view, level as int),
            forall|i: int| 0 <= i < level ==> count > bounds[i],
        decreases 5 - level,
    {
        if count <= bounds[level] {
            return level;
        }
        level += 1;
    }
    4
}

/// The symbol of an intensity level as a character.
pub fn symbol_for(level: usize) -> (symbol: char)
    ensures
        symbol == symbol_of(level as int),
{
    if level == 0 {
        '~'
    } else if level == 1 {
        '\u{b7}'
    } else if level == 2 {
        '\u{25aa}'
    } else if level == 3 {
        '\u{25cf}'
    } else {
        '\u{2b1f}'
    }
}

/// The symbol of an intensity level as text.
fn symbol_text(level: usize) -> (text: &'static str)
    ensures
        text@ == seq![symbol_of(level as int)],
{
    proof {
        reveal_strlit("~");
        reveal_strlit("\u{b7}");
        reveal_strlit("\u{25aa}");
        reveal_strlit("\u{25cf}");
        reveal_strlit("\u{2b1f}");
    }
    let text = if level == 0 {
        "~"
    } else if level == 1 {
        "\u{b7}"
    } else if level == 2 {
        "\u{25aa}"
    } else if level == 3 {
        "\u{25cf}"
    } else {
        "\u{2b1f}"
    };
    assert(text@ =~= seq![symbol_of(level as int)]);
    text
}

/// The number of columns of a weekday's row: how often that weekday occurs
/// among the 365 days that end today.
pub fn weekday_columns(today: Weekday, weekday: Weekday) -> (columns: usize)
    ensures
        columns == weekday_occurrences(today.index(), weekday.index(), 365),
        columns == if today == weekday {
            53int
        } else {
            52int
        },
{
    proof {
        lemma_weekday_occurrences(today.index(), weekday.index());
    }
    if today == weekday {
        53
    } else {
        52
    }
}

/// The row of the grid for one day of the week: a blank and a symbol for
/// each week, read from the calendar in steps of seven slots from the
/// weekday's offset. A row ends early where the next slot would lie outside
/// the calendar.
pub fn day_commit_graph(days: &[usize; 365], weekday: Weekday, today: Weekday, bounds: &[
    usize; 5
]) -> (line: String)
    ensures
        line@ == row_text(
            row_levels(
                counts_view(days@),
                weekday.index(),
                weekday_occurrences(today.index(), weekday.index(), 365) as int,
                counts_view(bounds@),
            ),
        ),
{
    let columns: usize = weekday_columns(today, weekday);
    let offset: usize = weekday.num_days_from_monday();
    let ghost calendar = counts_view(days@);
    let ghost limits = counts_view(bounds@);
    let mut line = String::new();
    let mut i: usize = 0;
    proof {
        reveal_strlit(" ");
        assert(line@ =~= row_text(row_levels(calendar, offset as int, 0, limits)));
    }
    while i < columns
        invariant
            i <= columns,
            columns <= 53,
            offset < 7,
            calendar == counts_view(days@),
            limits == counts_view(bounds@),
            " "@ == seq![' '],
            line@ == row_text(row_levels(calendar, offset as int, i as int, limits)),
        decreases columns - i,
    {
        let slot: usize = 7 * i + offset;
        if slot < 365 {
            let level: usize = intensity_level(days[slot], bounds);
            let ghost drawn = row_levels(calendar, offset as int, i as int, limits);
            let ghost shown = line@;
            line.append(" ");
            line.append(symbol_text(level));
            proof {
                let grown = drawn.push(level as int);
                assert(row_levels(calendar, offset as int, i + 1, limits) == grown);
                assert(line@ == shown + seq![' '] + seq![symbol_of(level as int)]);
                assert(line@ =~= row_text(grown)) by {
                    assert forall|k: int| 0 <= k < 2 * grown.len() implies line@[k] == row_text(
                        grown,
                    )[k] by {
                        if k < 2 * drawn.len() {
                            assert(line@[k] == row_text(drawn)[k]);
                            assert(grown[k / 2] == drawn[k / 2]);
                        }
                    }
                }
            }
        }
        i += 1;
    }
    line
}

impl RepositoryStats {
    /// The seven rows of the heat grid, Monday first, as they stand on a day
    /// whose weekday is `today`.
    pub fn heat_rows(&self, today: Weekday) -> (rows: Vec<String>)
        ensures
            rows.len() == 7,
            forall|day: int|
                0 <= day < 7 ==> (#[trigger] rows[day])@ == row_text(
                    row_levels(
                        self@.commits_per_calendar_day,
                        day,
                        weekday_occurrences(today.index(), day, 365) as int,
                        boundaries_for(counts_max(self@.commits_per_calendar_day)),
                    ),
                ),
    {
        let bounds: [usize; 5] = symbol_distribution(&self.commits_per_calendar_day);
        let mut rows: Vec<String> = Vec::new();
        let mut day: u32 = 0;
        while day < 7
            invariant
                day <= 7,
                rows.len() == day,
                counts_view(bounds@) == boundaries_for(counts_max(self@.commits_per_calendar_day)),
                forall|d: int|
                    0 <= d < day ==> (#[trigger] rows[d])@ == row_text(
                        row_levels(
                            self@.commits_per_calendar_day,
                            d,
                            weekday_occurrences(today.index(), d, 365) as int,
                            boundaries_for(counts_max(self@.commits_per_calendar_day)),
                        ),
                    ),
            decreases 7 - day,
        {
            let weekday = Weekday::from_days_from_monday(day);
            rows.push(day_commit_graph(&self.commits_per_calendar_day, weekday, today, &bounds));
            day += 1;
        }
        rows
    }
}

} // verus!
