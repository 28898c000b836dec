use rusty_bote::lifecycle::calculate_poll_results;
use rusty_bote::models::{Poll, Vote, VotingMethod};
use rusty_bote::voting::{approval, percentage_tenths, plurality, ranked, star};

fn poll_with(method: VotingMethod, ids: &[&str]) -> Poll {
    let texts: Vec<String> = ids.iter().map(|s| format!("Option {}", s)).collect();
    let option_ids: Vec<String> = ids.iter().map(|s| s.to_string()).collect();
    Poll::from_parts(
        "poll-1".to_string(),
        "guild".to_string(),
        "channel".to_string(),
        "creator".to_string(),
        "Which one?".to_string(),
        texts,
        option_ids,
        method,
        1_000,
        Some(0),
        None,
    )
}

fn vote(user: &str, option: &str, rating: i32) -> Vote {
    Vote {
        user_id: user.to_string(),
        poll_id: "poll-1".to_string(),
        option_id: option.to_string(),
        rating,
        timestamp: 5,
    }
}

#[test]
fn plurality_majority_pick_wins() {
    let poll = poll_with(VotingMethod::Plurality, &["A", "B"]);
    let votes = vec![
        vote("u1", "A", 1),
        vote("u1", "B", 0),
        vote("u2", "A", 1),
        vote("u2", "B", 0),
        vote("u3", "A", 0),
        vote("u3", "B", 1),
    ];
    let r = plurality::calculate_results(&poll, &votes);
    assert_eq!(r.winner_id, "A");
    assert_eq!(r.winner, "Option A");
    assert_eq!(r.raw_results[0].option_id, "A");
    assert_eq!(r.raw_results[0].score, 2);
    assert_eq!(r.raw_results[1].score, 1);
    assert_eq!(percentage_tenths(2, 3), 667);
    assert!(r.summary.contains("Option A: 2 votes (66.7%)"));
    assert!(r.summary.contains("Option B: 1 votes (33.3%)"));
    assert!(r.summary.ends_with("3 voters participated."));
}

#[test]
fn plurality_multiple_picks_count_for_none() {
    let poll = poll_with(VotingMethod::Plurality, &["A", "B"]);
    let votes = vec![vote("u1", "A", 1), vote("u1", "B", 1), vote("u2", "B", 1)];
    let r = plurality::calculate_results(&poll, &votes);
    assert_eq!(r.winner_id, "B");
    assert_eq!(r.raw_results[0].option_id, "B");
    assert_eq!(r.raw_results[0].score, 1);
    assert_eq!(r.raw_results[1].score, 0);
    assert!(r.summary.ends_with("2 voters participated."));
}

#[test]
fn approval_tie_goes_to_smaller_identity() {
    let poll = poll_with(VotingMethod::Approval, &["B", "A"]);
    let votes = vec![
        vote("u1", "A", 1),
        vote("u1", "B", 0),
        vote("u2", "A", 1),
        vote("u2", "B", 1),
        vote("u3", "A", 0),
        vote("u3", "B", 1),
    ];
    let r = approval::calculate_results(&poll, &votes);
    assert_eq!(r.raw_results[0].option_id, "A");
    assert_eq!(r.raw_results[0].score, 2);
    assert_eq!(r.raw_results[0].rank, 1);
    assert_eq!(r.raw_results[1].option_id, "B");
    assert_eq!(r.raw_results[1].score, 2);
    assert_eq!(r.raw_results[1].rank, 2);
    assert_eq!(r.winner_id, "A");
    assert!(r.summary.contains("Option A: 2 approvals (66.7%)"));
}

#[test]
fn star_scores_then_runoff() {
    let poll = poll_with(VotingMethod::Star, &["A", "B"]);
    let votes = vec![
        vote("u1", "A", 5),
        vote("u1", "B", 3),
        vote("u2", "A", 5),
        vote("u2", "B", 3),
        vote("u3", "A", 0),
        vote("u3", "B", 5),
    ];
    let r = star::calculate_results(&poll, &votes);
    assert_eq!(r.raw_results[0].option_id, "B");
    assert_eq!(r.raw_results[0].score, 11);
    assert_eq!(r.raw_results[1].option_id, "A");
    assert_eq!(r.raw_results[1].score, 10);
    let t = star::runoff(&poll, &votes, 1, 0);
    assert_eq!(t.first, 1);
    assert_eq!(t.second, 2);
    assert_eq!(t.no_preference, 0);
    assert_eq!(r.winner_id, "A");
    assert!(r.summary.contains("Runoff: Option B vs Option A"));
    assert!(r.summary.contains("Option A: 2 preferred"));
    assert!(r.summary.contains("Option B: 1 preferred"));
    assert!(r.summary.ends_with("Total voters: 3"));
}

#[test]
fn star_runoff_tie_goes_to_higher_score() {
    let poll = poll_with(VotingMethod::Star, &["A", "B"]);
    let votes = vec![
        vote("u1", "A", 5),
        vote("u1", "B", 4),
        vote("u2", "A", 0),
        vote("u2", "B", 2),
        vote("u3", "A", 3),
        vote("u3", "B", 3),
    ];
    let r = star::calculate_results(&poll, &votes);
    assert_eq!(r.raw_results[0].option_id, "B");
    assert_eq!(r.raw_results[0].score, 9);
    assert_eq!(r.raw_results[1].score, 8);
    let t = star::runoff(&poll, &votes, 1, 0);
    assert_eq!((t.first, t.second, t.no_preference), (1, 1, 1));
    assert_eq!(r.winner_id, "B");
    assert!(r.summary.contains("No preference: 1"));
}

#[test]
fn star_single_scored_option_wins_outright() {
    let poll = poll_with(VotingMethod::Star, &["A", "B", "C"]);
    let votes = vec![vote("u1", "C", 4), vote("u2", "A", 0)];
    let r = star::calculate_results(&poll, &votes);
    assert_eq!(r.winner_id, "C");
    assert!(r.summary.contains("no runoff"));
}

#[test]
fn ranked_eliminates_lowest_and_transfers() {
    let poll = poll_with(VotingMethod::Ranked, &["C", "D", "E"]);
    let votes = vec![
        vote("v1", "C", 1),
        vote("v2", "C", 1),
        vote("v3", "D", 1),
        vote("v3", "E", 2),
        vote("v4", "E", 1),
        vote("v5", "E", 1),
    ];
    let r = ranked::calculate_results(&poll, &votes);
    assert_eq!(r.winner_id, "E");
    assert_eq!(r.raw_results.len(), 2);
    assert_eq!(r.raw_results[0].option_id, "E");
    assert_eq!(r.raw_results[0].score, 3);
    assert_eq!(r.raw_results[1].option_id, "C");
    assert_eq!(r.raw_results[1].score, 2);
    assert!(r.summary.contains("Round 1:"));
    assert!(r.summary.contains("Eliminated: Option D"));
    assert!(r.summary.contains("Round 2:"));
    assert!(r.summary.ends_with("Majority reached.\n"));
}

#[test]
fn ranked_eliminates_all_tied_at_lowest() {
    let poll = poll_with(VotingMethod::Ranked, &["C", "D", "E"]);
    let votes = vec![
        vote("v1", "C", 1),
        vote("v2", "C", 1),
        vote("v3", "D", 1),
        vote("v4", "E", 1),
    ];
    let r = ranked::calculate_results(&poll, &votes);
    assert!(r.summary.contains("Eliminated: Option D, Option E"));
    assert!(r.summary.contains("One option remains."));
    assert_eq!(r.winner_id, "C");
}

#[test]
fn ranked_full_tie() {
    let poll = poll_with(VotingMethod::Ranked, &["C", "D"]);
    let votes = vec![vote("v1", "C", 1), vote("v2", "D", 1)];
    let r = ranked::calculate_results(&poll, &votes);
    assert_eq!(r.winner, "Tie");
    assert_eq!(r.winner_id, "");
}

#[test]
fn no_votes_means_no_winner_for_every_method() {
    for method in [VotingMethod::Plurality, VotingMethod::Approval, VotingMethod::Star, VotingMethod::Ranked] {
        let poll = poll_with(method, &["A", "B"]);
        let r = calculate_poll_results(&poll, &[]);
        assert_eq!(r.winner_id, "");
    }
    assert_eq!(percentage_tenths(0, 0), 0);
    let poll = poll_with(VotingMethod::Plurality, &["A", "B"]);
    let r = plurality::calculate_results(&poll, &[]);
    assert_eq!(r.winner, "No votes were cast");
    assert_eq!(r.summary, "No votes were cast in this poll.");
}

#[test]
fn plurality_only_multiple_picks_goes_to_smallest_identity() {
    let poll = poll_with(VotingMethod::Plurality, &["B", "A"]);
    let votes = vec![vote("u1", "A", 1), vote("u1", "B", 1)];
    let r = plurality::calculate_results(&poll, &votes);
    assert_eq!(r.winner_id, "A");
    assert_eq!(r.raw_results[0].score, 0);
    assert!(r.summary.ends_with("1 voters participated."));
}

#[test]
fn star_without_stars_goes_to_smallest_identity() {
    let poll = poll_with(VotingMethod::Star, &["B", "A"]);
    let votes = vec![vote("u1", "A", 0), vote("u1", "B", 0)];
    let r = star::calculate_results(&poll, &votes);
    assert_eq!(r.winner_id, "A");
    assert!(r.summary.contains("No option received stars: no runoff."));
}

#[test]
fn plurality_abstainers_count_as_voters_only() {
    let poll = poll_with(VotingMethod::Plurality, &["A", "B"]);
    let votes = vec![vote("u1", "A", 1), vote("u2", "A", 0), vote("u2", "B", 0)];
    let r = plurality::calculate_results(&poll, &votes);
    assert_eq!(r.winner_id, "A");
    assert!(r.summary.contains("Option A: 1 votes (50.0%)"));
    assert!(r.summary.ends_with("2 voters participated."));
}

#[test]
fn approval_without_approvals_goes_to_smallest_identity() {
    let poll = poll_with(VotingMethod::Approval, &["B", "A"]);
    let votes = vec![vote("u1", "A", 0), vote("u1", "B", 0)];
    let r = approval::calculate_results(&poll, &votes);
    assert_eq!(r.winner_id, "A");
    assert_eq!(r.winner, "Option A");
    assert_eq!(r.raw_results[0].score, 0);
}

#[test]
fn ranked_ignores_unranked_entries_and_unknown_options() {
    let poll = poll_with(VotingMethod::Ranked, &["C", "D"]);
    let votes = vec![
        vote("v1", "C", 1),
        vote("v1", "D", 0),
        vote("v2", "D", 1),
        vote("v2", "Z", 1),
        vote("v3", "C", 2),
        vote("v3", "D", 1),
        vote("v4", "D", 0),
    ];
    let r = ranked::calculate_results(&poll, &votes);
    assert_eq!(r.winner_id, "D");
    assert_eq!(r.raw_results[0].score, 2);
    assert!(r.summary.contains("Option D: 2 votes (66.7%)"));
}

#[test]
fn ranked_without_rankings() {
    let poll = poll_with(VotingMethod::Ranked, &["C", "D"]);
    let r = ranked::calculate_results(&poll, &[vote("v1", "C", 0)]);
    assert_eq!(r.winner, "No winner");
    assert_eq!(r.summary, "No valid rankings were submitted.");
    assert!(r.raw_results.is_empty());
}

#[test]
fn star_out_of_range_entries_give_no_stars() {
    let poll = poll_with(VotingMethod::Star, &["A", "B"]);
    let votes = vec![vote("u1", "A", 9), vote("u1", "B", 2)];
    let r = star::calculate_results(&poll, &votes);
    assert_eq!(r.raw_results[0].option_id, "B");
    assert_eq!(r.raw_results[0].score, 2);
    assert_eq!(r.raw_results[1].score, 0);
    assert_eq!(r.winner_id, "B");
}

#[test]
fn deadlines_are_clamped_and_optional() {
    let p = Poll::from_parts(
        "x".into(), "g".into(), "c".into(), "u".into(), "Q".into(),
        vec![], vec![], VotingMethod::Star, i64::MAX - 10, Some(5), None,
    );
    assert_eq!(p.ends_at, Some(i64::MAX));
    let q = Poll::from_parts(
        "y".into(), "g".into(), "c".into(), "u".into(), "Q".into(),
        vec![], vec![], VotingMethod::Star, 1_000, Some(-2), None,
    );
    assert_eq!(q.ends_at, Some(1_000 - 120_000));
    assert_eq!(rusty_bote::models::deadline_of(0, Some(0)), None);
    assert_eq!(rusty_bote::models::deadline_of(0, None), Some(86_400_000));
}
