use rusty_bote::interaction::{
    apply_rank_action, parse_component, parse_poll_request, plurality_ballot, rank_ballot, ranks_of,
    split_options, star_page, toggle_approval, voter_allowed, ComponentAction, CreateError, RankAction,
    VoteGate,
};
use rusty_bote::models::{Poll, Vote, VotingMethod};

fn two_option_poll() -> Poll {
    Poll::from_parts(
        "poll-a".to_string(),
        "g".to_string(),
        "c".to_string(),
        "u".to_string(),
        "Q".to_string(),
        vec!["Red".to_string(), "Blue".to_string()],
        vec!["o1".to_string(), "o2".to_string()],
        VotingMethod::Ranked,
        0,
        Some(0),
        None,
    )
}

#[test]
fn component_ids_are_routed() {
    assert!(matches!(parse_component("voteButton"), ComponentAction::OpenBallot));
    assert!(matches!(parse_component("vote_button"), ComponentAction::OpenBallot));
    match parse_component("starSelect_poll-a_o2") {
        ComponentAction::StarSelect { poll_id, option_id } => {
            assert_eq!(poll_id, "poll-a");
            assert_eq!(option_id, "o2");
        }
        _ => panic!("expected a star select"),
    }
    match parse_component("starPage_poll-a_3") {
        ComponentAction::StarPage { poll_id, page } => {
            assert_eq!(poll_id, "poll-a");
            assert_eq!(page, 3);
        }
        _ => panic!("expected a star page"),
    }
    match parse_component("starPage_poll-a_x") {
        ComponentAction::StarPage { page, .. } => assert_eq!(page, 0),
        _ => panic!("expected a star page"),
    }
    match parse_component("approvalVote_poll-a_o1_1") {
        ComponentAction::ApprovalVote { poll_id, option_id, current } => {
            assert_eq!(poll_id, "poll-a");
            assert_eq!(option_id, "o1");
            assert_eq!(current, 1);
        }
        _ => panic!("expected an approval vote"),
    }
    match parse_component("approvalVote_poll-a_o1_-7") {
        ComponentAction::ApprovalVote { current, .. } => assert_eq!(current, -7),
        _ => panic!("expected an approval vote"),
    }
    match parse_component("rankDown_poll-a_o2") {
        ComponentAction::Rank { action, option_id, .. } => {
            assert_eq!(action, RankAction::Down);
            assert_eq!(option_id, "o2");
        }
        _ => panic!("expected a rank action"),
    }
    match parse_component("doneVoting_poll-a") {
        ComponentAction::DoneVoting { poll_id } => assert_eq!(poll_id, "poll-a"),
        _ => panic!("expected done voting"),
    }
    assert!(matches!(parse_component("pluralityVote_poll-a"), ComponentAction::Malformed));
    assert!(matches!(parse_component("rankLabel_poll-a_o1"), ComponentAction::RankLabel));
    assert!(matches!(parse_component("selectEndPoll"), ComponentAction::SelectEndPoll));
    assert!(matches!(parse_component("somethingElse"), ComponentAction::Unknown));
}

#[test]
fn create_requests_are_checked() {
    let texts = split_options(" Pizza , Tacos ,, Sushi ,");
    assert_eq!(texts, vec!["Pizza", "Tacos", "Sushi"]);
    let req = parse_poll_request("Lunch?".to_string(), "a, b", "star", Some(30), Some("role1".to_string())).unwrap();
    assert_eq!(req.options, vec!["a", "b"]);
    assert_eq!(req.voting_method, VotingMethod::Star);
    assert_eq!(req.allowed_roles, Some(vec!["role1".to_string()]));
    assert_eq!(
        parse_poll_request("Q".to_string(), "only", "star", None, None).err(),
        Some(CreateError::TooFewOptions)
    );
    assert_eq!(
        parse_poll_request("Q".to_string(), "1,2,3,4,5,6,7,8,9,10,11", "star", None, None).err(),
        Some(CreateError::TooManyOptions)
    );
    assert_eq!(
        parse_poll_request("Q".to_string(), "a,b", "borda", None, None).err(),
        Some(CreateError::InvalidMethod)
    );
    let req = parse_poll_request("Q".to_string(), "a,b", "ranked", None, Some(String::new())).unwrap();
    assert!(req.allowed_roles.is_none());
}

#[test]
fn rank_actions_reorder() {
    let ranks = vec![1, 2, 0];
    assert_eq!(apply_rank_action(&ranks, 1, RankAction::Up), vec![2, 1, 0]);
    assert_eq!(apply_rank_action(&ranks, 2, RankAction::Up), vec![1, 2, 3]);
    assert_eq!(apply_rank_action(&ranks, 0, RankAction::Down), vec![2, 1, 0]);
    assert_eq!(apply_rank_action(&ranks, 1, RankAction::Down), vec![1, 3, 0]);
    assert_eq!(apply_rank_action(&vec![1, 2, 3], 0, RankAction::Remove), vec![0, 1, 2]);
    assert_eq!(apply_rank_action(&ranks, 2, RankAction::Remove), vec![1, 2, 0]);
}

#[test]
fn ballots_carry_the_choice() {
    let poll = two_option_poll();
    let b = plurality_ballot(&poll, "u9", "o2", 77);
    assert_eq!(b.len(), 2);
    assert_eq!((b[0].option_id.as_str(), b[0].rating), ("o1", 0));
    assert_eq!((b[1].option_id.as_str(), b[1].rating), ("o2", 1));
    assert_eq!(b[1].timestamp, 77);
    let votes = vec![
        Vote { user_id: "u9".into(), poll_id: "poll-a".into(), option_id: "o2".into(), rating: 1, timestamp: 1 },
    ];
    let ranks = ranks_of(&poll.options, &votes);
    assert_eq!(ranks, vec![0, 1]);
    let rb = rank_ballot(&poll, "u9", &vec![2, 1], 5);
    assert_eq!(rb[0].rating, 2);
    assert_eq!(rb[1].rating, 1);
    assert_eq!(toggle_approval(0), 1);
    assert_eq!(toggle_approval(1), 0);
}

#[test]
fn role_gate() {
    let roles = Some(vec!["r1".to_string(), "r2".to_string()]);
    assert_eq!(voter_allowed(&None, &None), VoteGate::Allowed);
    assert_eq!(voter_allowed(&Some(vec![]), &None), VoteGate::Allowed);
    assert_eq!(voter_allowed(&roles, &None), VoteGate::Unverifiable);
    assert_eq!(voter_allowed(&roles, &Some(vec!["r2".to_string()])), VoteGate::Allowed);
    assert_eq!(voter_allowed(&roles, &Some(vec!["r3".to_string()])), VoteGate::Denied);
}

#[test]
fn star_pages() {
    let p = star_page(10, 1);
    assert_eq!((p.page, p.total_pages, p.start, p.end), (1, 3, 4, 8));
    let last = star_page(10, 9);
    assert_eq!((last.page, last.start, last.end), (2, 8, 10));
    let empty = star_page(0, 0);
    assert_eq!((empty.total_pages, empty.start, empty.end), (0, 0, 0));
}

#[test]
fn ballot_confirmation_lists_each_option() {
    let poll = two_option_poll();
    let votes = vec![
        Vote { user_id: "u".into(), poll_id: "poll-a".into(), option_id: "o2".into(), rating: 1, timestamp: 1 },
        Vote { user_id: "u".into(), poll_id: "poll-a".into(), option_id: "o1".into(), rating: 0, timestamp: 1 },
    ];
    let ratings = rusty_bote::interaction::ratings_of(&poll.options, &votes);
    assert_eq!(ratings, vec![0, 1]);
    let order = rusty_bote::interaction::ranked_display_order(&poll.options, &ratings);
    assert_eq!(order, vec![1, 0]);
    let text = rusty_bote::interaction::ballot_summary(&poll, &ratings);
    assert_eq!(text, "**Q**\nRanked Choice Voting\n\nYour vote has been recorded:\n#1: Blue\nUnranked: Red\n");
    let unranked = rusty_bote::interaction::ranked_display_order(&poll.options, &vec![0, 0]);
    assert_eq!(unranked, vec![1, 0]);
}

#[test]
fn options_are_trimmed_of_unicode_white_space() {
    let texts = split_options("\u{3000}A\u{a0},\tB\n, \u{2003} ");
    assert_eq!(texts, vec!["A", "B"]);
}
