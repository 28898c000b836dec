use rusty_bote::db::{Database, DbError};
use rusty_bote::lifecycle::end_poll_logic;
use rusty_bote::models::{Poll, Vote, VotingMethod};

fn poll(id: &str, guild: &str, method: VotingMethod, created_at: i64, duration: Option<i64>) -> Poll {
    Poll::from_parts(
        id.to_string(),
        guild.to_string(),
        "channel".to_string(),
        "creator".to_string(),
        "Question".to_string(),
        vec!["Yes".to_string(), "No".to_string()],
        vec![format!("{}-y", id), format!("{}-n", id)],
        method,
        created_at,
        duration,
        None,
    )
}

fn vote(poll_id: &str, user: &str, option: &str, rating: i32, timestamp: i64) -> Vote {
    Vote {
        user_id: user.to_string(),
        poll_id: poll_id.to_string(),
        option_id: option.to_string(),
        rating,
        timestamp,
    }
}

#[test]
fn closed_poll_rejects_ballots() {
    let mut db = Database::new();
    db.create_poll(&poll("p", "g", VotingMethod::Approval, 0, Some(0))).unwrap();
    assert_eq!(db.save_vote(&vote("p", "u1", "p-y", 1, 1)), Ok(()));
    assert_eq!(db.end_poll("p"), Ok(()));
    assert_eq!(db.save_vote(&vote("p", "u2", "p-y", 1, 2)), Err(DbError::PollClosed));
    assert_eq!(db.get_poll_votes("p").len(), 1);
}

#[test]
fn second_close_observes_already_closed() {
    let mut db = Database::new();
    db.create_poll(&poll("p", "g", VotingMethod::Plurality, 0, Some(0))).unwrap();
    assert_eq!(db.end_poll("p"), Ok(()));
    assert_eq!(db.end_poll("p"), Err(DbError::AlreadyClosed));
    assert_eq!(db.end_poll("missing"), Err(DbError::NotFound));
    assert!(!db.get_poll("p").unwrap().is_active);
}

#[test]
fn end_poll_logic_succeeds_once() {
    let mut db = Database::new();
    db.create_poll(&poll("p", "g", VotingMethod::Plurality, 0, Some(0))).unwrap();
    db.save_vote(&vote("p", "u1", "p-n", 1, 1)).unwrap();
    let (ended, results) = end_poll_logic(&mut db, "p").unwrap();
    assert!(!ended.is_active);
    assert_eq!(results.winner_id, "p-n");
    assert_eq!(end_poll_logic(&mut db, "p").err(), Some(DbError::AlreadyClosed));
}

#[test]
fn resubmitting_same_rating_is_idempotent() {
    let mut db = Database::new();
    db.create_poll(&poll("p", "g", VotingMethod::Star, 0, Some(0))).unwrap();
    db.save_vote(&vote("p", "u1", "p-y", 4, 10)).unwrap();
    let once = db.get_poll_votes("p");
    db.save_vote(&vote("p", "u1", "p-y", 4, 11)).unwrap();
    let twice = db.get_poll_votes("p");
    assert_eq!(once.len(), 1);
    assert_eq!(twice.len(), 1);
    assert_eq!(twice[0].rating, 4);
    let p = db.get_poll("p").unwrap();
    let r1 = rusty_bote::lifecycle::calculate_poll_results(&p, &once);
    let r2 = rusty_bote::lifecycle::calculate_poll_results(&p, &twice);
    assert_eq!(r1.summary, r2.summary);
    assert_eq!(r1.winner_id, r2.winner_id);
}

#[test]
fn new_rating_replaces_old_one() {
    let mut db = Database::new();
    db.create_poll(&poll("p", "g", VotingMethod::Star, 0, Some(0))).unwrap();
    db.save_vote(&vote("p", "u1", "p-y", 2, 10)).unwrap();
    db.save_vote(&vote("p", "u1", "p-y", 5, 20)).unwrap();
    let votes = db.get_poll_votes("p");
    assert_eq!(votes.len(), 1);
    assert_eq!(votes[0].rating, 5);
    // an older write arriving late does not win
    db.save_vote(&vote("p", "u1", "p-y", 1, 15)).unwrap();
    assert_eq!(db.get_poll_votes("p")[0].rating, 5);
}

#[test]
fn invalid_writes_are_refused() {
    let mut db = Database::new();
    db.create_poll(&poll("p", "g", VotingMethod::Star, 0, Some(0))).unwrap();
    assert_eq!(db.save_vote(&vote("q", "u1", "p-y", 1, 1)), Err(DbError::NotFound));
    assert_eq!(db.save_vote(&vote("p", "u1", "zzz", 1, 1)), Err(DbError::NotFound));
    assert_eq!(db.save_vote(&vote("p", "u1", "p-y", 6, 1)), Err(DbError::InvalidRating));
    assert_eq!(db.save_vote(&vote("p", "u1", "p-y", -1, 1)), Err(DbError::InvalidRating));
    assert_eq!(
        db.create_poll(&poll("p", "g", VotingMethod::Star, 0, Some(0))),
        Err(DbError::DuplicateId)
    );
    assert!(db.get_poll("nope").is_err());
}

#[test]
fn listings_are_newest_first() {
    let mut db = Database::new();
    db.create_poll(&poll("old", "g", VotingMethod::Plurality, 100, Some(10))).unwrap();
    db.create_poll(&poll("new", "g", VotingMethod::Plurality, 300, Some(10))).unwrap();
    db.create_poll(&poll("mid", "g", VotingMethod::Plurality, 200, Some(1))).unwrap();
    db.create_poll(&poll("other", "h", VotingMethod::Plurality, 400, None)).unwrap();
    let active: Vec<String> = db.get_active_polls_by_guild("g").into_iter().map(|p| p.id).collect();
    assert_eq!(active, vec!["new", "mid", "old"]);
    db.end_poll("old").unwrap();
    db.end_poll("mid").unwrap();
    db.end_poll("new").unwrap();
    let ended: Vec<String> = db.get_recently_ended_polls_by_guild("g", 2).into_iter().map(|p| p.id).collect();
    assert_eq!(ended, vec!["new", "old"]);
}

#[test]
fn expired_polls_are_found() {
    let mut db = Database::new();
    db.create_poll(&poll("a", "g", VotingMethod::Plurality, 0, Some(1))).unwrap();
    db.create_poll(&poll("b", "g", VotingMethod::Plurality, 0, Some(0))).unwrap();
    db.create_poll(&poll("c", "g", VotingMethod::Plurality, 0, None)).unwrap();
    let expired = db.get_expired_polls(120_000);
    assert_eq!(expired.len(), 1);
    assert_eq!(expired[0].0, "a");
    assert_eq!(db.get_expired_polls(86_400_001).len(), 2);
    db.update_poll_message_id("a", "m1").unwrap();
    assert_eq!(db.get_expired_polls(120_000)[0].2.as_deref(), Some("m1"));
}

#[test]
fn fresh_polls_get_random_identities() {
    let p = Poll::new(
        "g".to_string(),
        "c".to_string(),
        "u".to_string(),
        "Q".to_string(),
        vec!["x".to_string(), "y".to_string()],
        VotingMethod::Approval,
        Some(0),
        None,
    );
    assert_eq!(p.id.len(), 36);
    assert_ne!(p.options[0].id, p.options[1].id);
    assert!(p.created_at > 1_500_000_000_000);
    assert!(p.ends_at.is_none());
    let q = Poll::new("g".into(), "c".into(), "u".into(), "Q".into(), vec![], VotingMethod::Star, None, None);
    assert_eq!(q.ends_at, Some(q.created_at + 1440 * 60_000));
}

#[test]
fn expiry_tick_ends_each_expired_poll_once() {
    let mut db = Database::new();
    db.create_poll(&poll("a", "g", VotingMethod::Approval, 0, Some(1))).unwrap();
    db.create_poll(&poll("b", "g", VotingMethod::Approval, 0, Some(0))).unwrap();
    db.create_poll(&poll("c", "g", VotingMethod::Approval, 0, Some(2))).unwrap();
    db.save_vote(&vote("a", "u1", "a-n", 1, 1)).unwrap();
    db.end_poll("c").unwrap();
    let report = rusty_bote::lifecycle::end_expired_polls(&mut db, 1_000_000);
    assert_eq!(report.len(), 1);
    assert_eq!(report[0].0, "a");
    let (ended, results) = report[0].1.as_ref().unwrap();
    assert!(!ended.is_active);
    assert_eq!(results.winner_id, "a-n");
    assert!(!db.get_poll("a").unwrap().is_active);
    assert!(db.get_poll("b").unwrap().is_active);
    assert!(rusty_bote::lifecycle::end_expired_polls(&mut db, 2_000_000).is_empty());
}

#[test]
fn polls_need_two_to_ten_distinct_options() {
    let mut db = Database::new();
    let mut one = poll("one", "g", VotingMethod::Star, 0, Some(0));
    one.options.truncate(1);
    assert_eq!(db.create_poll(&one), Err(DbError::InvalidOptions));
    let mut twins = poll("twins", "g", VotingMethod::Star, 0, Some(0));
    twins.options[1].id = twins.options[0].id.clone();
    assert_eq!(db.create_poll(&twins), Err(DbError::InvalidOptions));
    assert!(db.get_poll("twins").is_err());
    db.create_poll(&poll("fresh", "g", VotingMethod::Star, 0, Some(0))).unwrap();
    assert!(db.get_poll_votes("fresh").is_empty());
}

#[test]
fn fresh_poll_option_ids_are_distinct() {
    let texts: Vec<String> = (0..10).map(|i| format!("opt {}", i)).collect();
    let p = Poll::new("g".into(), "c".into(), "u".into(), "Q".into(), texts, VotingMethod::Ranked, None, None);
    for i in 0..p.options.len() {
        assert_ne!(p.options[i].id, p.id);
        for j in (i + 1)..p.options.len() {
            assert_ne!(p.options[i].id, p.options[j].id);
        }
    }
}
