//! The contributor ranking: the entries with the most commits, and one share
//! that gathers everybody else.

use crate::contributors::{tally_total, tally_view, Contributor, Contributors, Tally};
use vstd::prelude::*;

verus! {

/// Label of the share that gathers all contributors below the ranking.
pub const OTHERS_LABEL: &'static str = "Others";

/// Number of contributors that a chart names before the rest is gathered.
pub const NAMED_SHARES: usize = 5;

/// The order of the ranking: the entry at `i` comes before the entry at `j`
/// when it has more commits, or as many and stands earlier in the tally.
pub open spec fn outranks(t: Tally, i: int, j: int) -> bool {
    t[i].1 > t[j].1 || (t[i].1 == t[j].1 && i < j)
}

/// `picks` lists, best first, the positions of the `width` best of the first
/// `upto` entries of `t` (all of them, where there are no more than `width`).
pub open spec fn ranks_prefix(t: Tally, upto: int, width: int, picks: Seq<int>) -> bool {
    &&& picks.len() == if width < upto {
        width
    } else {
        upto
    }
    &&& forall|k: int| 0 <= k < picks.len() ==> 0 <= #[trigger] picks[k] < upto
    &&& forall|k: int, l: int|
        0 <= k < l < picks.len() ==> outranks(t, #[trigger] picks[k], #[trigger] picks[l])
    &&& forall|k: int, m: int|
        0 <= k < picks.len() && 0 <= m < upto && !#[trigger] picks.contains(m) ==> outranks(
            t,
            #[trigger] picks[k],
            m,
        )
}

/// `picks` is the ranking of `t` cut off after `limit` places: positions in
/// range, each outranking all that follow it and all that were left out.
pub open spec fn is_ranking(t: Tally, limit: int, picks: Seq<int>) -> bool {
    ranks_prefix(t, t.len() as int, limit, picks)
}

/// The ranking of `t` cut off after `limit` places. There is exactly one.
pub open spec fn ranked_positions(t: Tally, limit: int) -> Seq<int> {
    choose|picks: Seq<int>| is_ranking(t, limit, picks)
}

/// The entries that stand at the given positions.
pub open spec fn entries_at(t: Tally, picks: Seq<int>) -> Tally {
    picks.map_values(|i: int| t[i])
}

/// The `limit` best entries of a tally, best first.
pub open spec fn top_of(t: Tally, limit: int) -> Tally {
    entries_at(t, ranked_positions(t, limit))
}

/// The commits of all contributors that the ranking leaves out.
pub open spec fn others_of(t: Tally, limit: int) -> int {
    tally_total(t) - tally_total(top_of(t, limit))
}

/// The shares of a chart: the `limit` best entries, followed by one entry
/// that gathers the rest where the rest has any commits.
pub open spec fn shares_of(t: Tally, limit: int) -> Tally {
    if others_of(t, limit) > 0 {
        top_of(t, limit).push((OTHERS_LABEL@, others_of(t, limit) as nat))
    } else {
        top_of(t, limit)
    }
}

/// Positions as mathematical integers.
pub open spec fn positions(picks: Seq<usize>) -> Seq<int> {
    picks.map_values(|p: usize| p as int)
}

/// What holds while the first `upto` entries have been ranked: `picks` ranks
/// them, `others` is the sum of the entries left out, and nothing is left out
/// while no more than `width` entries were seen.
pub open spec fn rank_state(t: Tally, upto: int, width: int, picks: Seq<int>, others: nat) -> bool {
    &&& 0 <= upto <= t.len()
    &&& 0 <= width
    &&& ranks_prefix(t, upto, width, picks)
    &&& upto <= width ==> others == 0 && forall|m: int|
        0 <= m < upto ==> #[trigger] picks.contains(m)
    &&& tally_total(entries_at(t, picks)) + others == tally_total(t.take(upto))
}

/// Inserting an entry adds its count to the total.
pub proof fn lemma_total_insert(t: Tally, at: int, entry: (Seq<char>, nat))
    requires
        0 <= at <= t.len(),
    ensures
        tally_total(t.insert(at, entry)) == tally_total(t) + entry.1,
    decreases t.len(),
{
    if at == t.len() {
        assert(t.insert(at, entry) =~= t.push(entry));
        assert(t.push(entry).drop_last() =~= t);
    } else {
        lemma_total_insert(t.drop_last(), at, entry);
        assert(t.insert(at, entry).drop_last() =~= t.drop_last().insert(at, entry));
        assert(t.insert(at, entry).last() == t.last());
    }
}

/// The total of a prefix is at most the total of the whole tally.
pub proof fn lemma_total_take(t: Tally, upto: int)
    requires
        0 <= upto <= t.len(),
    ensures
        tally_total(t.take(upto)) <= tally_total(t),
        upto < t.len() ==> tally_total(t.take(upto + 1)) == tally_total(t.take(upto)) + t[upto].1,
    decreases t.len() - upto,
{
    if upto < t.len() {
        assert(t.take(upto + 1).drop_last() =~= t.take(upto));
        lemma_total_take(t, upto + 1);
    } else {
        assert(t.take(upto) =~= t);
    }
}

/// One step of the ranking: the entry at `upto` enters the list at `at`, the
/// place behind all listed entries with at least as many commits, and the last
/// of the list leaves it if the list has grown beyond `width`.
pub proof fn lemma_rank_step(t: Tally, upto: int, width: int, picks: Seq<int>, others: nat, at: int)
    requires
        rank_state(t, upto, width, picks, others),
        upto < t.len(),
        0 <= at <= picks.len(),
        forall|k: int| 0 <= k < at ==> t[#[trigger] picks[k]].1 >= t[upto].1,
        at < picks.len() ==> t[picks[at]].1 < t[upto].1,
    ensures
        picks.len() + 1 > width ==> rank_state(
            t,
            upto + 1,
            width,
            picks.insert(at, upto).drop_last(),
            others + t[picks.insert(at, upto).last()].1,
        ),
        picks.len() + 1 <= width ==> rank_state(
            t,
            upto + 1,
            width,
            picks.insert(at, upto),
            others,
        ),
{
    let grown = picks.insert(at, upto);
    assert forall|k: int| at <= k < picks.len() implies t[#[trigger] picks[k]].1 < t[upto].1 by {
        if at < k {
            assert(outranks(t, picks[at], picks[k]));
        }
    }
    assert forall|k: int| 0 <= k < grown.len() implies 0 <= #[trigger] grown[k] < upto + 1 by {
        if k < at {
            assert(grown[k] == picks[k]);
        } else if k > at {
            assert(grown[k] == picks[k - 1]);
        }
    }
    assert forall|k: int, l: int| 0 <= k < l < grown.len() implies outranks(
        t,
        #[trigger] grown[k],
        #[trigger] grown[l],
    ) by {
        let a = if k < at {
            picks[k]
        } else if k == at {
            upto
        } else {
            picks[k - 1]
        };
        let b = if l < at {
            picks[l]
        } else if l == at {
            upto
        } else {
            picks[l - 1]
        };
        assert(grown[k] == a && grown[l] == b);
        if k != at && l != at {
            let ka = if k < at {
                k
            } else {
                k - 1
            };
            let la = if l < at {
                l
            } else {
                l - 1
            };
            assert(outranks(t, picks[ka], picks[la]));
        }
    }
    assert forall|m: int| 0 <= m < upto + 1 && !grown.contains(m) implies !picks.contains(m) && m
        != upto by {
        assert(grown[at] == upto);
        if picks.contains(m) {
            let k = choose|k: int| 0 <= k < picks.len() && picks[k] == m;
            if k < at {
                assert(grown[k] == m);
            } else {
                assert(grown[k + 1] == m);
            }
        }
    }
    assert(entries_at(t, grown) =~= entries_at(t, picks).insert(at, t[upto]));
    lemma_total_insert(entries_at(t, picks), at, t[upto]);
    lemma_total_take(t, upto);
    if picks.len() + 1 > width {
        let kept = grown.drop_last();
        let gone = grown.last();
        assert(picks.len() == width);
        assert(entries_at(t, kept) =~= entries_at(t, grown).drop_last());
        assert(entries_at(t, grown).last() == t[gone]);
        assert forall|k: int| 0 <= k < kept.len() implies 0 <= #[trigger] kept[k] < upto + 1 by {
            assert(kept[k] == grown[k]);
        }
        assert forall|k: int, l: int| 0 <= k < l < kept.len() implies outranks(
            t,
            #[trigger] kept[k],
            #[trigger] kept[l],
        ) by {
            assert(kept[k] == grown[k] && kept[l] == grown[l]);
        }
        assert forall|k: int, m: int|
            0 <= k < kept.len() && 0 <= m < upto + 1 && !#[trigger] kept.contains(m) implies outranks(
            t,
            #[trigger] kept[k],
            m,
        ) by {
            assert(kept[k] == grown[k]);
            if m == gone {
                assert(outranks(t, grown[k], grown[grown.len() - 1]));
            } else if grown.contains(m) {
                let w = choose|w: int| 0 <= w < grown.len() && grown[w] == m;
                assert(kept[w] == m);
            } else {
                assert(!picks.contains(m) && m != upto);
                if k < at {
                    assert(grown[k] == picks[k]);
                } else if k > at {
                    assert(grown[k] == picks[k - 1]);
                } else {
                    // the new entry stays, so the one behind it outranks
                    // what was left out, and the new entry outranks that one
                    assert(grown[k] == upto);
                    assert(outranks(t, picks[at], m));
                }
            }
        }
    } else {
        assert(upto < width);
        assert forall|m: int| 0 <= m < upto + 1 implies #[trigger] grown.contains(m) by {
            if m == upto {
                assert(grown[at] == upto);
            } else {
                assert(picks.contains(m));
                let k = choose|k: int| 0 <= k < picks.len() && picks[k] == m;
                if k < at {
                    assert(grown[k] == m);
                } else {
                    assert(grown[k + 1] == m);
                }
            }
        }
    }
}

/// A place at which an entry with `count` commits enters a ranked list:
/// behind every listed entry with at least as many commits.
proof fn lemma_insertion_place(t: Tally, picks: Seq<int>, count: nat, from: int) -> (at: int)
    requires
        0 <= from <= picks.len(),
        forall|k: int| 0 <= k < from ==> t[#[trigger] picks[k]].1 >= count,
    ensures
        0 <= at <= picks.len(),
        forall|k: int| 0 <= k < at ==> t[#[trigger] picks[k]].1 >= count,
        at < picks.len() ==> t[picks[at]].1 < count,
    decreases picks.len() - from,
{
    if from < picks.len() && t[picks[from]].1 >= count {
        lemma_insertion_place(t, picks, count, from + 1)
    } else {
        from
    }
}

/// The first `upto` entries of any tally can be ranked.
proof fn lemma_rank_prefix(t: Tally, upto: int, width: int) -> (r: (Seq<int>, nat))
    requires
        0 <= upto <= t.len(),
        0 <= width,
    ensures
        rank_state(t, upto, width, r.0, r.1),
    decreases upto,
{
    if upto == 0 {
        let picks = Seq::<int>::empty();
        assert(entries_at(t, picks) =~= Seq::<(Seq<char>, nat)>::empty());
        assert(t.take(0) =~= Seq::<(Seq<char>, nat)>::empty());
        (picks, 0nat)
    } else {
        let (picks, others) = lemma_rank_prefix(t, upto - 1, width);
        let at = lemma_insertion_place(t, picks, t[upto - 1].1, 0);
        lemma_rank_step(t, upto - 1, width, picks, others, at);
        let grown = picks.insert(at, upto - 1);
        if picks.len() + 1 > width {
            (grown.drop_last(), others + t[grown.last()].1)
        } else {
            (grown, others)
        }
    }
}

/// Two rankings of one tally agree on their first `upto` places.
proof fn lemma_rankings_agree(t: Tally, limit: int, p: Seq<int>, q: Seq<int>, upto: int)
    requires
        is_ranking(t, limit, p),
        is_ranking(t, limit, q),
        0 <= upto <= p.len(),
    ensures
        forall|k: int| 0 <= k < upto ==> p[k] == q[k],
    decreases upto,
{
    if upto > 0 {
        lemma_rankings_agree(t, limit, p, q, upto - 1);
        let c = upto - 1;
        if p[c] != q[c] {
            assert(outranks(t, p[c], q[c])) by {
                if p.contains(q[c]) {
                    let w = choose|w: int| 0 <= w < p.len() && p[w] == q[c];
                    if w < c {
                        assert(p[w] == q[w]);
                        assert(outranks(t, q[w], q[c]));
                    } else {
                        assert(outranks(t, p[c], p[w]));
                    }
                }
            }
            assert(outranks(t, q[c], p[c])) by {
                if q.contains(p[c]) {
                    let w = choose|w: int| 0 <= w < q.len() && q[w] == p[c];
                    if w < c {
                        assert(p[w] == q[w]);
                        assert(outranks(t, p[w], p[c]));
                    } else {
                        assert(outranks(t, q[c], q[w]));
                    }
                }
            }
        }
    }
}

/// A tally has only one ranking of a given length: ties are settled by the
/// order of the tally, so nothing is left open.
pub proof fn lemma_ranking_unique(t: Tally, limit: int, p: Seq<int>, q: Seq<int>)
    requires
        is_ranking(t, limit, p),
        is_ranking(t, limit, q),
    ensures
        p == q,
{
    lemma_rankings_agree(t, limit, p, q, p.len() as int);
    assert(p =~= q);
}

/// Every tally has its ranking. The ranking holds `limit` entries, or all
/// where there are fewer; the entries left out have no more commits than any
/// entry listed; and where all entries fit within `limit`, nothing is left
/// for a share of others.
pub proof fn lemma_ranking(t: Tally, limit: int)
    requires
        0 <= limit,
    ensures
        is_ranking(t, limit, ranked_positions(t, limit)),
        top_of(t, limit).len() == if limit < t.len() {
            limit
        } else {
            t.len() as int
        },
        0 <= others_of(t, limit),
        t.len() <= limit ==> others_of(t, limit) == 0 && shares_of(t, limit) == top_of(t, limit),
{
    let (picks, others) = lemma_rank_prefix(t, t.len() as int, limit);
    assert(t.take(t.len() as int) =~= t);
    assert(is_ranking(t, limit, picks));
    lemma_ranking_unique(t, limit, picks, ranked_positions(t, limit));
}

impl Contributors {
    /// Ranks the contributors: the positions of the `limit` entries with the
    /// most commits, best first and earlier entries first among equals,
    /// together with the sum of the commits of all entries left out.
    pub fn rank(&self, limit: usize) -> (r: (Vec<usize>, u64))
        requires
            tally_total(self@) <= u64::MAX,
        ensures
            is_ranking(self@, limit as int, positions(r.0@)),
            positions(r.0@) == ranked_positions(self@, limit as int),
            r.1 == others_of(self@, limit as int),
            forall|k: int| 0 <= k < r.0.len() ==> #[trigger] r.0[k] < self.entries.len(),
    {
        let n: usize = self.entries.len();
        let mut picks: Vec<usize> = Vec::new();
        let mut others: u64 = 0;
        let mut j: usize = 0;
        proof {
            assert(entries_at(self@, positions(picks@)) =~= Seq::<(Seq<char>, nat)>::empty());
            assert(self@.take(0) =~= Seq::<(Seq<char>, nat)>::empty());
        }
        while j < n
            invariant
                n == self.entries.len(),
                j <= n,
                rank_state(self@, j as int, limit as int, positions(picks@), others as nat),
                tally_total(self@) <= u64::MAX,
            decreases n - j,
        {
            let count: u64 = self.entries[j].commits;
            let mut at: usize = 0;
            assert forall|k: int| 0 <= k < picks.len() implies #[trigger] picks[k] < j by {
                assert(positions(picks@)[k] == picks[k]);
            }
            while at < picks.len() && self.entries[picks[at]].commits >= count
                invariant
                    at <= picks.len(),
                    j < n,
                    n == self.entries.len(),
                    count == self@[j as int].1,
                    forall|k: int| 0 <= k < picks.len() ==> #[trigger] picks[k] < j,
                    forall|k: int|
                        0 <= k < at ==> self@[#[trigger] positions(picks@)[k]].1 >= count,
                decreases picks.len() - at,
            {
                assert(positions(picks@)[at as int] == picks[at as int]);
                at += 1;
            }
            let ghost before = positions(picks@);
            proof {
                if at < picks.len() {
                    assert(before[at as int] == picks[at as int]);
                }
                lemma_rank_step(self@, j as int, limit as int, before, others as nat, at as int);
                lemma_total_take(self@, j + 1);
            }
            picks.insert(at, j);
            assert(positions(picks@) =~= before.insert(at as int, j as int));
            if picks.len() > limit {
                let ghost grown = positions(picks@);
                let gone: usize = picks.pop().unwrap();
                assert(positions(picks@) =~= grown.drop_last());
                assert(gone == grown.last());
                assert(0 <= grown[grown.len() - 1] < j + 1);
                others = others + self.entries[gone].commits;
            }
            j += 1;
        }
        proof {
            assert(self@.take(n as int) =~= self@);
            lemma_ranking(self@, limit as int);
            lemma_ranking_unique(
                self@,
                limit as int,
                positions(picks@),
                ranked_positions(self@, limit as int),
            );
            assert forall|k: int| 0 <= k < picks.len() implies #[trigger] picks[k]
                < self.entries.len() by {
                assert(positions(picks@)[k] == picks[k]);
            }
        }
        (picks, others)
    }

    /// The shares of a chart that names `limit` contributors: the entries with
    /// the most commits, best first, then one entry labelled "Others" with the
    /// commits of everybody else, unless those are zero.
    pub fn ranked_shares(&self, limit: usize) -> (shares: Vec<Contributor>)
        requires
            tally_total(self@) <= u64::MAX,
        ensures
            tally_view(shares@) == shares_of(self@, limit as int),
    {
        let (picks, others) = self.rank(limit);
        let ghost top = top_of(self@, limit as int);
        let mut shares: Vec<Contributor> = Vec::new();
        let mut k: usize = 0;
        while k < picks.len()
            invariant
                k <= picks.len(),
                shares.len() == k,
                top.len() == picks.len(),
                top == entries_at(self@, positions(picks@)),
                forall|i: int| 0 <= i < picks.len() ==> #[trigger] picks[i] < self.entries.len(),
                tally_view(shares@) =~= top.take(k as int),
            decreases picks.len() - k,
        {
            let at: usize = picks[k];
            let entry = &self.entries[at];
            let ghost listed = shares@;
            let share = Contributor { name: entry.name.clone(), commits: entry.commits };
            assert(share@ == self@[at as int]);
            shares.push(share);
            proof {
                assert(positions(picks@)[k as int] == at);
                assert(top[k as int] == self@[at as int]);
                assert forall|i: int| 0 <= i < k + 1 implies tally_view(shares@)[i] == top.take(
                    k + 1,
                )[i] by {
                    if i < k {
                        assert(shares@[i] == listed[i]);
                        assert(tally_view(listed)[i] == top.take(k as int)[i]);
                    }
                }
                assert(tally_view(shares@) =~= top.take(k + 1));
            }
            k += 1;
        }
        assert(top.take(picks.len() as int) =~= top);
        if others > 0 {
            shares.push(Contributor { name: OTHERS_LABEL.to_owned(), commits: others });
            assert(tally_view(shares@) =~= top.push((OTHERS_LABEL@, others as nat)));
        }
        shares
    }
}

} // verus!
