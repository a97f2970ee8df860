use repolyzer::contributors::{Contributor, Contributors};
use repolyzer::ranking::{NAMED_SHARES, OTHERS_LABEL};

fn tally(entries: &[(&str, u64)]) -> Contributors {
    Contributors {
        entries: entries
            .iter()
            .map(|(name, commits)| Contributor { name: name.to_string(), commits: *commits })
            .collect(),
    }
}

fn listed(shares: &Vec<Contributor>) -> Vec<(String, u64)> {
    shares.iter().map(|c| (c.name.clone(), c.commits)).collect()
}

fn expected(entries: &[(&str, u64)]) -> Vec<(String, u64)> {
    entries.iter().map(|(name, commits)| (name.to_string(), *commits)).collect()
}

#[test]
fn top_five_and_others() {
    let all = tally(&[("A", 10), ("B", 8), ("C", 5), ("D", 3), ("E", 2), ("F", 1), ("G", 1)]);
    assert_eq!(NAMED_SHARES, 5);
    assert_eq!(OTHERS_LABEL, "Others");
    let shares = all.ranked_shares(NAMED_SHARES);
    assert_eq!(
        listed(&shares),
        expected(&[("A", 10), ("B", 8), ("C", 5), ("D", 3), ("E", 2), ("Others", 2)])
    );
}

#[test]
fn top_five_of_an_unordered_tally() {
    let all = tally(&[("F", 1), ("C", 5), ("A", 10), ("G", 1), ("E", 2), ("B", 8), ("D", 3)]);
    let shares = all.ranked_shares(5);
    assert_eq!(
        listed(&shares),
        expected(&[("A", 10), ("B", 8), ("C", 5), ("D", 3), ("E", 2), ("Others", 2)])
    );
}

#[test]
fn others_is_omitted_when_all_contributors_fit() {
    let all = tally(&[("B", 2), ("A", 7), ("C", 1)]);
    let shares = all.ranked_shares(5);
    assert_eq!(listed(&shares), expected(&[("A", 7), ("B", 2), ("C", 1)]));
    let exact = tally(&[("A", 1), ("B", 2), ("C", 3), ("D", 4), ("E", 5)]);
    assert_eq!(
        listed(&exact.ranked_shares(5)),
        expected(&[("E", 5), ("D", 4), ("C", 3), ("B", 2), ("A", 1)])
    );
}

#[test]
fn others_is_omitted_when_the_rest_has_no_commits() {
    let all = tally(&[("A", 3), ("B", 0), ("C", 0)]);
    assert_eq!(listed(&all.ranked_shares(1)), expected(&[("A", 3)]));
}

#[test]
fn ties_keep_the_order_of_the_tally() {
    let all = tally(&[("first", 4), ("second", 9), ("third", 4), ("fourth", 4), ("fifth", 9)]);
    let (picks, others) = all.rank(3);
    assert_eq!(picks, vec![1, 4, 0]);
    assert_eq!(others, 8);
    assert_eq!(
        listed(&all.ranked_shares(3)),
        expected(&[("second", 9), ("fifth", 9), ("first", 4), ("Others", 8)])
    );
}

#[test]
fn ranking_of_an_empty_tally_is_empty() {
    let none = Contributors::new();
    assert_eq!(none.len(), 0);
    assert_eq!(none.rank(5), (vec![], 0));
    assert_eq!(none.ranked_shares(5).len(), 0);
}

#[test]
fn ranking_without_places_gathers_everybody() {
    let all = tally(&[("A", 3), ("B", 4)]);
    assert_eq!(all.rank(0), (vec![], 7));
    assert_eq!(listed(&all.ranked_shares(0)), expected(&[("Others", 7)]));
}

#[test]
fn ranking_with_more_places_than_entries_lists_all() {
    let all = tally(&[("A", 3), ("B", 4), ("C", 3)]);
    assert_eq!(all.rank(usize::MAX), (vec![1, 0, 2], 0));
}

#[test]
fn shares_sum_to_the_total_of_the_tally() {
    let all = tally(&[("A", 13), ("B", 1), ("C", 21), ("D", 8), ("E", 2), ("F", 5), ("G", 3), ("H", 1)]);
    for limit in 0..10usize {
        let shares = all.ranked_shares(limit);
        let sum: u64 = shares.iter().map(|c| c.commits).sum();
        assert_eq!(sum, 54);
        let named = if limit < 8 { limit } else { 8 };
        let with_others = if limit < 8 { 1 } else { 0 };
        assert_eq!(shares.len(), named + with_others);
    }
}

#[test]
fn credit_counts_and_lists_names_once() {
    let mut all = Contributors::new();
    all.credit("A".to_string());
    all.credit("B".to_string());
    all.credit("A".to_string());
    assert_eq!(all.len(), 2);
    assert_eq!(all.commits_of(&"A".to_string()), 2);
    assert_eq!(all.commits_of(&"B".to_string()), 1);
    assert_eq!(all.commits_of(&"C".to_string()), 0);
    assert_eq!(all.position(&"B".to_string()), Some(1));
    assert_eq!(all.position(&"C".to_string()), None);
    assert_eq!(listed(&all.entries), expected(&[("A", 2), ("B", 1)]));
}
