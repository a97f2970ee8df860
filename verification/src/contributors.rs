//! The tally of commits per author, in order of first appearance.

use vstd::prelude::*;

verus! {

/// The mathematical tally: author names with their commit counts, each name
/// at most once, in the order in which the names first appeared.
pub type Tally = Seq<(Seq<char>, nat)>;

/// Sum of all counts of a tally.
pub open spec fn tally_total(t: Tally) -> nat
    decreases t.len(),
{
    if t.len() == 0 {
        0
    } else {
        tally_total(t.drop_last()) + t.last().1
    }
}

/// Whether a name has an entry in the tally.
pub open spec fn has_name(t: Tally, name: Seq<char>) -> bool {
    exists|i: int| 0 <= i < t.len() && (#[trigger] t[i]).0 == name
}

/// A position at which the name stands; the only one where names are distinct.
pub open spec fn position_of(t: Tally, name: Seq<char>) -> int {
    choose|i: int| 0 <= i < t.len() && (#[trigger] t[i]).0 == name
}

/// The count recorded for a name, zero where it has no entry.
pub open spec fn count_for(t: Tally, name: Seq<char>) -> nat {
    if has_name(t, name) {
        t[position_of(t, name)].1
    } else {
        0
    }
}

/// No name occurs at two positions.
pub open spec fn distinct_names(t: Tally) -> bool {
    forall|i: int, j: int| 0 <= i < j < t.len() ==> (#[trigger] t[i]).0 != (#[trigger] t[j]).0
}

/// The tally after one more commit by `name`: its count goes up by one, and a
/// name not seen before is appended with count one.
pub open spec fn credited(t: Tally, name: Seq<char>) -> Tally {
    if has_name(t, name) {
        let i = position_of(t, name);
        t.update(i, (name, t[i].1 + 1))
    } else {
        t.push((name, 1nat))
    }
}

/// The tally of a stream of author names, read in order.
pub open spec fn tally_of(authors: Seq<Seq<char>>) -> Tally
    decreases authors.len(),
{
    if authors.len() == 0 {
        Seq::empty()
    } else {
        credited(tally_of(authors.drop_last()), authors.last())
    }
}

/// How often a name occurs in a stream of author names.
pub open spec fn occurrences(authors: Seq<Seq<char>>, name: Seq<char>) -> nat
    decreases authors.len(),
{
    if authors.len() == 0 {
        0
    } else {
        occurrences(authors.drop_last(), name) + if authors.last() == name {
            1nat
        } else {
            0nat
        }
    }
}

/// Appending an entry adds its count to the total.
pub proof fn lemma_total_push(t: Tally, entry: (Seq<char>, nat))
    ensures
        tally_total(t.push(entry)) == tally_total(t) + entry.1,
{
    assert(t.push(entry).drop_last() =~= t);
}

/// Replacing an entry changes the total by the difference of the counts.
pub proof fn lemma_total_update(t: Tally, i: int, entry: (Seq<char>, nat))
    requires
        0 <= i < t.len(),
    ensures
        tally_total(t.update(i, entry)) == tally_total(t) - t[i].1 + entry.1,
        t[i].1 <= tally_total(t),
    decreases t.len(),
{
    if i == t.len() - 1 {
        assert(t.update(i, entry).drop_last() =~= t.drop_last());
    } else {
        lemma_total_update(t.drop_last(), i, entry);
        assert(t.update(i, entry).drop_last() =~= t.drop_last().update(i, entry));
    }
}

/// Where names are distinct, a name stands at exactly one position.
pub proof fn lemma_position_unique(t: Tally, name: Seq<char>, i: int)
    requires
        distinct_names(t),
        0 <= i < t.len(),
        t[i].0 == name,
    ensures
        has_name(t, name),
        position_of(t, name) == i,
        count_for(t, name) == t[i].1,
{
    let p = position_of(t, name);
    if p < i {
        assert(t[p].0 != t[i].0);
    } else if i < p {
        assert(t[i].0 != t[p].0);
    }
}

/// One more commit keeps names distinct, raises the total by one, raises the
/// count of the credited name by one and leaves every other count as it was.
pub proof fn lemma_credited(t: Tally, name: Seq<char>)
    requires
        distinct_names(t),
    ensures
        distinct_names(credited(t, name)),
        tally_total(credited(t, name)) == tally_total(t) + 1,
        count_for(credited(t, name), name) == count_for(t, name) + 1,
        forall|other: Seq<char>|
            other != name ==> count_for(credited(t, name), other) == #[trigger] count_for(
                t,
                other,
            ),
{
    let c = credited(t, name);
    if has_name(t, name) {
        let i = position_of(t, name);
        lemma_total_update(t, i, (name, t[i].1 + 1));
        assert forall|a: int, b: int| 0 <= a < b < c.len() implies (#[trigger] c[a]).0 != (
        #[trigger] c[b]).0 by {
            assert(t[a].0 != t[b].0);
        }
        lemma_position_unique(c, name, i);
        assert forall|other: Seq<char>| other != name implies count_for(c, other)
            == #[trigger] count_for(t, other) by {
            if has_name(t, other) {
                let j = position_of(t, other);
                assert(c[j] == t[j]);
                lemma_position_unique(c, other, j);
            } else if has_name(c, other) {
                let j = position_of(c, other);
                assert(t[j].0 == other);
            }
        }
    } else {
        lemma_total_push(t, (name, 1nat));
        assert forall|a: int, b: int| 0 <= a < b < c.len() implies (#[trigger] c[a]).0 != (
        #[trigger] c[b]).0 by {
            if b < t.len() {
                assert(t[a].0 != t[b].0);
            } else {
                assert(c[a] == t[a]);
            }
        }
        lemma_position_unique(c, name, t.len() as int);
        assert forall|other: Seq<char>| other != name implies count_for(c, other)
            == #[trigger] count_for(t, other) by {
            if has_name(t, other) {
                let j = position_of(t, other);
                assert(c[j] == t[j]);
                lemma_position_unique(c, other, j);
            } else if has_name(c, other) {
                let j = position_of(c, other);
                assert(t[j].0 == other);
            }
        }
    }
}

/// In the tally of any stream of author names no name occurs twice, the counts
/// sum to the length of the stream, and each name's count is the number of
/// times it occurs in the stream.
pub proof fn lemma_tally_of(authors: Seq<Seq<char>>)
    ensures
        distinct_names(tally_of(authors)),
        tally_total(tally_of(authors)) == authors.len(),
        forall|name: Seq<char>| #[trigger]
            count_for(tally_of(authors), name) == occurrences(authors, name),
    decreases authors.len(),
{
    if authors.len() > 0 {
        let before = authors.drop_last();
        lemma_tally_of(before);
        lemma_credited(tally_of(before), authors.last());
        assert forall|name: Seq<char>| #[trigger]
            count_for(tally_of(authors), name) == occurrences(authors, name) by {
            assert(count_for(tally_of(before), name) == occurrences(before, name));
        }
    } else {
        assert forall|name: Seq<char>| #[trigger]
            count_for(tally_of(authors), name) == occurrences(authors, name) by {
            assert(!has_name(tally_of(authors), name));
        }
    }
}

/// One author with the number of commits counted for the name.
#[derive(Debug)]
pub struct Contributor {
    pub name: String,
    pub commits: u64,
}

impl View for Contributor {
    type V = (Seq<char>, nat);

    open spec fn view(&self) -> (Seq<char>, nat) {
        (self.name@, self.commits as nat)
    }
}

/// The tally that a list of contributors stands for.
pub open spec fn tally_view(entries: Seq<Contributor>) -> Tally {
    entries.map_values(|c: Contributor| c@)
}

/// The contributors of a history: each author name once, with its commit
/// count, in the order in which the names first appeared.
#[derive(Debug)]
pub struct Contributors {
    pub entries: Vec<Contributor>,
}

impl View for Contributors {
    type V = Tally;

    open spec fn view(&self) -> Tally {
        tally_view(self.entries@)
    }
}

impl Contributors {
    /// No name is listed twice.
    pub open spec fn wf(&self) -> bool {
        distinct_names(self@)
    }

    /// The empty tally.
    pub fn new() -> (c: Self)
        ensures
            c@ == Seq::<(Seq<char>, nat)>::empty(),
            c.wf(),
    {
        let c = Contributors { entries: Vec::new() };
        assert(c@ =~= Seq::<(Seq<char>, nat)>::empty());
        c
    }

    /// Number of distinct author names.
    pub fn len(&self) -> (n: usize)
        ensures
            n == self@.len(),
    {
        self.entries.len()
    }

    /// The position of a name in the list, if it is listed.
    pub fn position(&self, name: &String) -> (at: Option<usize>)
        ensures
            match at {
                Some(i) => i < self@.len() && self@[i as int].0 == name@ && has_name(
                    self@,
                    name@,
                ),
                None => !has_name(self@, name@),
            },
            self.wf() && at is Some ==> at->0 == position_of(self@, name@),
    {
        let mut i: usize = 0;
        while i < self.entries.len()
            invariant
                i <= self.entries.len(),
                forall|k: int| 0 <= k < i ==> (#[trigger] self@[k]).0 != name@,
            decreases self.entries.len() - i,
        {
            if self.entries[i].name == *name {
                assert(self@[i as int].0 == name@);
                proof {
                    if self.wf() {
                        lemma_position_unique(self@, name@, i as int);
                    }
                }
                return Some(i);
            }
            i += 1;
        }
        None
    }

    /// The number of commits counted for a name, zero for a name not listed.
    pub fn commits_of(&self, name: &String) -> (n: u64)
        requires
            self.wf(),
        ensures
            n == count_for(self@, name@),
    {
        match self.position(name) {
            Some(i) => self.entries[i].commits,
            None => 0,
        }
    }

    /// Counts one more commit for `name`, listing the name if it is new.
    pub fn credit(&mut self, name: String)
        requires
            old(self).wf(),
            tally_total(old(self)@) < u64::MAX,
        ensures
            final(self)@ == credited(old(self)@, name@),
            final(self).wf(),
    {
        proof {
            lemma_credited(self@, name@);
        }
        match self.position(&name) {
            Some(i) => {
                let count: u64 = self.entries[i].commits;
                proof {
                    lemma_total_update(self@, i as int, (name@, (count + 1) as nat));
                }
                self.entries.set(i, Contributor { name, commits: count + 1 });
                assert(self@ =~= credited(old(self)@, name@));
            },
            None => {
                self.entries.push(Contributor { name, commits: 1 });
                assert(self@ =~= credited(old(self)@, name@));
            },
        }
    }
}

} // verus!
