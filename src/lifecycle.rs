//! The poll lifecycle: ending a poll exactly once and tallying it.
use vstd::prelude::*;
use crate::db::{
    poll_index, ended, closed_state, votes_of, expired_at, expired_positions, ids_unique, ballot_view, is_latest, keys_unique, same_key, upserted,
    lemma_resubmit_idempotent, Database, DbError,
};
use crate::models::{Poll, PollOption, Vote, VotingMethod, same_poll};
use crate::voting::{
    approval, plurality, ranked, star, count_result, count_upto, entries_unique, first_of_voter, has_winner,
    lemma_count_ext, lines_match, percent_tenths, ranked_lines, slot, valid, voter_count, PollResults,
};
use crate::voting::star::MAX_BALLOTS;

verus! {

/// What tallying `votes` by `method` over the options `opts` returns.
pub open spec fn tally_result(opts: Seq<PollOption>, method: VotingMethod, votes: Seq<Vote>, r: PollResults) -> bool {
    match method {
        VotingMethod::Plurality => count_result(
            opts,
            plurality::plurality_scores(opts, votes),
            voter_count(opts, votes),
            " votes"@,
            r,
        ),
        VotingMethod::Approval => count_result(
            opts,
            approval::approval_scores(opts, votes),
            voter_count(opts, votes),
            " approvals"@,
            r,
        ),
        VotingMethod::Star => exists|order: Seq<usize>| star::star_outcome(opts, votes, order, r),
        VotingMethod::Ranked => ranked::ranked_result(opts, votes, r),
    }
}

/// With no ballot entries every method reports no winner, there are no
/// voters, and every share comes out as 0 rather than a division by zero.
pub proof fn lemma_no_votes_no_winner(opts: Seq<PollOption>, method: VotingMethod, r: PollResults)
    requires
        tally_result(opts, method, Seq::<Vote>::empty(), r),
    ensures
        r.winner_id@ == Seq::<char>::empty(),
        voter_count(opts, Seq::<Vote>::empty()) == 0,
        forall|c: nat| percent_tenths(c, voter_count(opts, Seq::<Vote>::empty())) == 0,
{
    let none = Seq::<Vote>::empty();
    match method {
        VotingMethod::Plurality => {
            assert(!has_winner(r.raw_results@, voter_count(opts, none)));
        },
        VotingMethod::Approval => {
            assert(!has_winner(r.raw_results@, voter_count(opts, none)));
        },
        VotingMethod::Star => {
            let order = choose|order: Seq<usize>| star::star_outcome(opts, none, order, r);
            let scores = star::star_scores(opts, none);
            if order.len() >= 1 {
                assert(scores[order[0] as int] == 0);
            }
            if order.len() >= 2 {
                assert(scores[order[1] as int] == 0);
            }
        },
        VotingMethod::Ranked => {
            assert(ranked::ranked_voters(opts, none) == 0);
        },
    }
}

/// Tallies a poll's ballot entries by its voting method.
pub fn calculate_poll_results(poll: &Poll, votes: &[Vote]) -> (r: PollResults)
    requires
        entries_unique(votes@),
        votes@.len() <= MAX_BALLOTS,
    ensures
        tally_result(poll.options@, poll.voting_method, votes@, r),
{
    match poll.voting_method {
        VotingMethod::Star => star::calculate_results(poll, votes),
        VotingMethod::Plurality => plurality::calculate_results(poll, votes),
        VotingMethod::Ranked => ranked::calculate_results(poll, votes),
        VotingMethod::Approval => approval::calculate_results(poll, votes),
    }
}

/// Ends a poll and tallies it. Succeeds only for an existing, active poll
/// whose ballot set a tally takes; then the poll is ended and the result is
/// that of its ballot entries. A poll that another caller ended first gives
/// `AlreadyClosed`, and nothing changes.
pub fn end_poll_logic(database: &mut Database, poll_id: &str) -> (r: Result<(Poll, PollResults), DbError>)
    requires
        old(database).wf(),
    ensures
        final(database).wf(),
        final(database).votes_view() == old(database).votes_view(),
        ({
            let i = poll_index(old(database).polls_view(), poll_id@);
            let ballots = votes_of(old(database).votes_view(), poll_id@);
            &&& i < 0 ==> r == Err::<(Poll, PollResults), DbError>(DbError::NotFound)
            &&& i >= 0 && !old(database).polls_view()[i].is_active ==> r == Err::<(Poll, PollResults), DbError>(
                DbError::AlreadyClosed,
            )
            &&& i >= 0 && old(database).polls_view()[i].is_active && ballots.len() > MAX_BALLOTS ==> r == Err::<
                (Poll, PollResults),
                DbError,
            >(DbError::TooManyBallots)
            &&& r is Err ==> final(database).polls_view() == old(database).polls_view()
            &&& i >= 0 && old(database).polls_view()[i].is_active && ballots.len() <= MAX_BALLOTS ==> {
                &&& r matches Ok((p, res)) && {
                    &&& ended(old(database).polls_view()[i], p)
                    &&& same_poll(p, final(database).polls_view()[i])
                    &&& tally_result(p.options@, p.voting_method, ballots, res)
                }
                &&& closed_state(old(database).polls_view(), final(database).polls_view(), poll_id@)
            }
        }),
{
    let ballots = database.get_poll_votes(poll_id);
    let current = match database.get_poll(poll_id) {
        Ok(p) => p,
        Err(e) => return Err(e),
    };
    if !current.is_active {
        return Err(DbError::AlreadyClosed);
    }
    if ballots.len() as u64 > MAX_BALLOTS {
        return Err(DbError::TooManyBallots);
    }
    match database.end_poll(poll_id) {
        Ok(()) => {},
        Err(e) => return Err(e),
    }
    let poll = match database.get_poll(poll_id) {
        Ok(p) => p,
        Err(e) => return Err(e),
    };
    let results = calculate_poll_results(&poll, ballots.as_slice());
    Ok((poll, results))
}

/// Two entry lists hold the same voters, options and ratings, entry by entry.
pub open spec fn same_ballots(a: Seq<Vote>, b: Seq<Vote>) -> bool {
    &&& a.len() == b.len()
    &&& forall|i: int|
        0 <= i < a.len() ==> {
            &&& #[trigger] a[i].user_id@ == b[i].user_id@
            &&& a[i].option_id@ == b[i].option_id@
            &&& a[i].rating == b[i].rating
        }
}

proof fn lemma_same_voters(opts: Seq<PollOption>, a: Seq<Vote>, b: Seq<Vote>)
    requires
        same_ballots(a, b),
    ensures
        forall|i: int| 0 <= i < a.len() ==> #[trigger] slot(opts, a, i) == slot(opts, b, i),
        forall|i: int| 0 <= i < a.len() ==> #[trigger] first_of_voter(opts, a, i) == first_of_voter(opts, b, i),
        voter_count(opts, a) == voter_count(opts, b),
{
    assert forall|i: int| 0 <= i < a.len() implies #[trigger] slot(opts, a, i) == slot(opts, b, i) by {
        assert(a[i].user_id@ == b[i].user_id@);
    }
    assert forall|i: int| 0 <= i < a.len() implies #[trigger] first_of_voter(opts, a, i) == first_of_voter(opts, b, i) by {
        assert(a[i].user_id@ == b[i].user_id@);
        assert forall|j: int| 0 <= j < i implies valid(opts, a, j) == valid(opts, b, j) && a[j].user_id@ == b[j].user_id@ by {
            assert(a[j].user_id@ == b[j].user_id@);
            assert(slot(opts, a, j) == slot(opts, b, j));
        }
    }
    lemma_count_ext(a.len() as int, |i: int| first_of_voter(opts, a, i), |i: int| first_of_voter(opts, b, i));
}

proof fn lemma_same_plurality(opts: Seq<PollOption>, a: Seq<Vote>, b: Seq<Vote>)
    requires
        same_ballots(a, b),
    ensures
        plurality::plurality_scores(opts, a) == plurality::plurality_scores(opts, b),
{
    lemma_same_voters(opts, a, b);
    let n = a.len() as int;
    assert forall|i: int| 0 <= i < n implies #[trigger] plurality::positive(opts, a, i) == plurality::positive(opts, b, i) by {
        assert(a[i].user_id@ == b[i].user_id@);
    }
    assert forall|u: Seq<char>| #[trigger] plurality::positives_of(opts, a, u) == plurality::positives_of(opts, b, u) by {
        assert forall|j: int| 0 <= j < n implies (plurality::positive(opts, a, j) && a[j].user_id@ == u) == (
        plurality::positive(opts, b, j) && b[j].user_id@ == u) by {
            assert(a[j].user_id@ == b[j].user_id@);
        }
        lemma_count_ext(
            n,
            |j: int| plurality::positive(opts, a, j) && a[j].user_id@ == u,
            |j: int| plurality::positive(opts, b, j) && b[j].user_id@ == u,
        );
    }
    assert forall|k: int| 0 <= k < opts.len() implies plurality::plurality_count(opts, a, k)
        == plurality::plurality_count(opts, b, k) by {
        assert forall|i: int| 0 <= i < n implies (plurality::single_pick(opts, a, i) && slot(opts, a, i) == k)
            == (plurality::single_pick(opts, b, i) && slot(opts, b, i) == k) by {
            assert(a[i].user_id@ == b[i].user_id@);
            assert(plurality::positives_of(opts, a, a[i].user_id@) == plurality::positives_of(opts, b, b[i].user_id@));
        }
        lemma_count_ext(
            n,
            |i: int| plurality::single_pick(opts, a, i) && slot(opts, a, i) == k,
            |i: int| plurality::single_pick(opts, b, i) && slot(opts, b, i) == k,
        );
    }
    assert(plurality::plurality_scores(opts, a) =~= plurality::plurality_scores(opts, b));
}

proof fn lemma_same_approval(opts: Seq<PollOption>, a: Seq<Vote>, b: Seq<Vote>)
    requires
        same_ballots(a, b),
    ensures
        approval::approval_scores(opts, a) == approval::approval_scores(opts, b),
{
    lemma_same_voters(opts, a, b);
    let n = a.len() as int;
    assert forall|k: int| 0 <= k < opts.len() implies approval::approval_count(opts, a, k)
        == approval::approval_count(opts, b, k) by {
        assert forall|i: int| 0 <= i < n implies (approval::approves(a, i) && slot(opts, a, i) == k) == (
        approval::approves(b, i) && slot(opts, b, i) == k) by {
            assert(a[i].user_id@ == b[i].user_id@);
        }
        lemma_count_ext(
            n,
            |i: int| approval::approves(a, i) && slot(opts, a, i) == k,
            |i: int| approval::approves(b, i) && slot(opts, b, i) == k,
        );
    }
    assert(approval::approval_scores(opts, a) =~= approval::approval_scores(opts, b));
}

proof fn lemma_same_star_sum(opts: Seq<PollOption>, a: Seq<Vote>, b: Seq<Vote>, k: int, n: int)
    requires
        same_ballots(a, b),
        n <= a.len(),
    ensures
        star::star_sum(opts, a, k, n) == star::star_sum(opts, b, k, n),
    decreases n,
{
    if n > 0 {
        lemma_same_star_sum(opts, a, b, k, n - 1);
        assert(a[n - 1].user_id@ == b[n - 1].user_id@);
    }
}

proof fn lemma_same_star(opts: Seq<PollOption>, a: Seq<Vote>, b: Seq<Vote>)
    requires
        same_ballots(a, b),
        entries_unique(a),
    ensures
        star::star_scores(opts, a) == star::star_scores(opts, b),
        forall|x: int, y: int|
            0 <= x < opts.len() && 0 <= y < opts.len() ==> #[trigger] star::runoff_of(opts, a, x, y)
                == star::runoff_of(opts, b, x, y),
{
    lemma_same_voters(opts, a, b);
    let n = a.len() as int;
    assert forall|k: int| 0 <= k < opts.len() implies star::star_sum(opts, a, k, n) == star::star_sum(opts, b, k, n) by {
        lemma_same_star_sum(opts, a, b, k, n);
    }
    assert(star::star_scores(opts, a) =~= star::star_scores(opts, b));
    assert(entries_unique(b)) by {
        assert forall|i: int, j: int| 0 <= i < j < b.len() implies !(b[i].user_id@ == b[j].user_id@
            && b[i].option_id@ == b[j].option_id@) by {
            assert(a[i].user_id@ == b[i].user_id@);
            assert(a[j].user_id@ == b[j].user_id@);
        }
    }
    assert forall|u: Seq<char>, k: int| 0 <= k < opts.len() implies #[trigger] star::stars_of(opts, a, u, k)
        == star::stars_of(opts, b, u, k) by {
        assert forall|j: int| #[trigger] star::entry_for(opts, a, u, k, j) == star::entry_for(opts, b, u, k, j) by {
            if 0 <= j < n {
                assert(a[j].user_id@ == b[j].user_id@);
            }
        }
        if exists|j: int| star::entry_for(opts, a, u, k, j) {
            let ja = choose|j: int| star::entry_for(opts, a, u, k, j);
            let jb = choose|j: int| star::entry_for(opts, b, u, k, j);
            assert(star::entry_for(opts, b, u, k, ja));
            assert(star::entry_for(opts, a, u, k, jb));
            crate::voting::star::lemma_slot_names(opts, a, ja);
            crate::voting::star::lemma_slot_names(opts, a, jb);
            if ja != jb {
                crate::voting::lemma_unique_entry(a, ja, jb);
            }
            assert(ja == jb);
            assert(a[ja].rating == b[ja].rating);
            assert(star::stars_of(opts, a, u, k) == star::star_value(a[ja].rating));
            assert(star::stars_of(opts, b, u, k) == star::star_value(b[jb].rating));
        }
        if exists|j: int| star::entry_for(opts, b, u, k, j) {
            let jb = choose|j: int| star::entry_for(opts, b, u, k, j);
            assert(star::entry_for(opts, a, u, k, jb));
        }
    }
    assert forall|x: int, y: int| 0 <= x < opts.len() && 0 <= y < opts.len() implies #[trigger] star::runoff_of(
        opts,
        a,
        x,
        y,
    ) == star::runoff_of(opts, b, x, y) by {
        assert forall|i: int| 0 <= i < n implies #[trigger] star::prefers(opts, a, x, y, i) == star::prefers(opts, b, x, y, i)
            && star::prefers(opts, a, y, x, i) == star::prefers(opts, b, y, x, i) && star::indifferent(opts, a, x, y, i)
            == star::indifferent(opts, b, x, y, i) by {
            assert(a[i].user_id@ == b[i].user_id@);
            assert(star::stars_of(opts, a, a[i].user_id@, x) == star::stars_of(opts, b, a[i].user_id@, x));
            assert(star::stars_of(opts, a, a[i].user_id@, y) == star::stars_of(opts, b, a[i].user_id@, y));
        }
        lemma_count_ext(n, |i: int| star::prefers(opts, a, x, y, i), |i: int| star::prefers(opts, b, x, y, i));
        lemma_count_ext(n, |i: int| star::prefers(opts, a, y, x, i), |i: int| star::prefers(opts, b, y, x, i));
        lemma_count_ext(n, |i: int| star::indifferent(opts, a, x, y, i), |i: int| star::indifferent(opts, b, x, y, i));
    }
}

proof fn lemma_same_round(opts: Seq<PollOption>, a: Seq<Vote>, b: Seq<Vote>, elim: Seq<bool>)
    requires
        same_ballots(a, b),
    ensures
        ranked::round_scores(opts, a, elim) == ranked::round_scores(opts, b, elim),
{
    lemma_same_voters(opts, a, b);
    let n = a.len() as int;
    assert forall|i: int| 0 <= i < n implies #[trigger] ranked::live(opts, a, elim, i) == ranked::live(opts, b, elim, i) by {
        assert(a[i].user_id@ == b[i].user_id@);
    }
    assert forall|i: int| 0 <= i < n implies #[trigger] ranked::top_choice(opts, a, elim, i) == ranked::top_choice(
        opts,
        b,
        elim,
        i,
    ) by {
        assert(a[i].user_id@ == b[i].user_id@);
        assert forall|j: int| 0 <= j < n implies a[j].user_id@ == b[j].user_id@ && a[j].rating == b[j].rating
            && ranked::live(opts, a, elim, j) == ranked::live(opts, b, elim, j) by {
            assert(a[j].user_id@ == b[j].user_id@);
        }
    }
    assert forall|k: int| 0 <= k < opts.len() implies ranked::round_count(opts, a, elim, k) == ranked::round_count(
        opts,
        b,
        elim,
        k,
    ) by {
        lemma_count_ext(
            n,
            |i: int| ranked::top_choice(opts, a, elim, i) && slot(opts, a, i) == k,
            |i: int| ranked::top_choice(opts, b, elim, i) && slot(opts, b, i) == k,
        );
    }
    assert(ranked::round_scores(opts, a, elim) =~= ranked::round_scores(opts, b, elim));
}

proof fn lemma_same_ranked_voters(opts: Seq<PollOption>, a: Seq<Vote>, b: Seq<Vote>)
    requires
        same_ballots(a, b),
    ensures
        ranked::ranked_voters(opts, a) == ranked::ranked_voters(opts, b),
{
    lemma_same_voters(opts, a, b);
    let n = a.len() as int;
    assert forall|i: int| 0 <= i < n implies #[trigger] ranked::first_ranked(opts, a, i) == ranked::first_ranked(opts, b, i) by {
        assert(a[i].user_id@ == b[i].user_id@);
        assert forall|j: int| 0 <= j < i implies ranked::ranked_entry(opts, a, j) == ranked::ranked_entry(opts, b, j)
            && a[j].user_id@ == b[j].user_id@ by {
            assert(a[j].user_id@ == b[j].user_id@);
        }
    }
    lemma_count_ext(n, |i: int| ranked::first_ranked(opts, a, i), |i: int| ranked::first_ranked(opts, b, i));
}

proof fn lemma_same_rounds(opts: Seq<PollOption>, a: Seq<Vote>, b: Seq<Vote>, elim: Seq<bool>, round: int)
    requires
        same_ballots(a, b),
    ensures
        ranked::final_round(opts, a, elim, round) == ranked::final_round(opts, b, elim, round),
        ranked::rounds_text(opts, a, elim, round) == ranked::rounds_text(opts, b, elim, round),
    decreases ranked::round_cap(opts) - round,
{
    lemma_same_round(opts, a, b, elim);
    lemma_same_ranked_voters(opts, a, b);
    if 1 <= round <= ranked::round_cap(opts) && ranked::round_end(opts, a, elim) is None && round + 1
        <= ranked::round_cap(opts) {
        lemma_same_rounds(opts, a, b, ranked::next_elim(opts, a, elim), round + 1);
    }
}

/// The tally of a poll reads only who rated which option how: entry lists
/// that agree on that, with one entry per voter and option, give every
/// method the same result.
pub proof fn lemma_tally_reads_ballots(opts: Seq<PollOption>, method: VotingMethod, a: Seq<Vote>, b: Seq<Vote>, r: PollResults)
    requires
        same_ballots(a, b),
        entries_unique(a),
    ensures
        tally_result(opts, method, a, r) == tally_result(opts, method, b, r),
{
    lemma_same_voters(opts, a, b);
    match method {
        VotingMethod::Plurality => {
            lemma_same_plurality(opts, a, b);
            assert(tally_result(opts, method, a, r) == tally_result(opts, method, b, r));
        },
        VotingMethod::Approval => {
            lemma_same_approval(opts, a, b);
            assert(tally_result(opts, method, a, r) == tally_result(opts, method, b, r));
        },
        VotingMethod::Star => {
            lemma_same_star(opts, a, b);
            assert forall|order: Seq<usize>|
                #![trigger star::star_outcome(opts, a, order, r)]
                #![trigger star::star_outcome(opts, b, order, r)]
                star::star_outcome(opts, a, order, r) == star::star_outcome(opts, b, order, r) by {
                if order.len() >= 2 && crate::voting::is_listing(
                    opts,
                    star::star_scores(opts, a),
                    crate::voting::all_options(opts.len() as int),
                    order,
                ) {
                    assert(order[0] < opts.len() && order[1] < opts.len());
                    assert(star::runoff_of(opts, a, order[0] as int, order[1] as int) == star::runoff_of(
                        opts,
                        b,
                        order[0] as int,
                        order[1] as int,
                    ));
                }
            }
            assert(tally_result(opts, method, a, r) == tally_result(opts, method, b, r));
        },
        VotingMethod::Ranked => {
            lemma_same_ranked_voters(opts, a, b);
            let start = ranked::no_elim(opts.len() as int);
            lemma_same_rounds(opts, a, b, start, 1);
            let fr = ranked::final_round(opts, a, start, 1);
            lemma_same_round(opts, a, b, fr.0);
            assert(tally_result(opts, method, a, r) == tally_result(opts, method, b, r));
        },
    }
}

proof fn lemma_votes_of_same(x: Seq<Vote>, y: Seq<Vote>, id: Seq<char>)
    requires
        ballot_view(x) == ballot_view(y),
    ensures
        same_ballots(votes_of(x, id), votes_of(y, id)),
    decreases x.len(),
{
    assert(x.len() == ballot_view(x).len());
    if x.len() > 0 {
        assert forall|i: int| 0 <= i < x.len() - 1 implies ballot_view(x.drop_last())[i] == ballot_view(
            y.drop_last(),
        )[i] by {
            assert(ballot_view(x)[i] == ballot_view(y)[i]);
        }
        assert(ballot_view(x.drop_last()) =~= ballot_view(y.drop_last()));
        lemma_votes_of_same(x.drop_last(), y.drop_last(), id);
        assert(ballot_view(x)[x.len() - 1] == ballot_view(y)[x.len() - 1]);
    }
}

/// Submitting the same (voter, option, rating) a second time, no earlier
/// than the first, leaves the tally of every poll as the first submission
/// left it, whatever the method.
pub proof fn lemma_resubmit_keeps_tally(
    votes: Seq<Vote>,
    v: Vote,
    w: Vote,
    poll_id: Seq<char>,
    opts: Seq<PollOption>,
    method: VotingMethod,
    r: PollResults,
)
    requires
        keys_unique(votes),
        is_latest(votes, v),
        same_key(v, w),
        v.rating == w.rating,
        v.timestamp <= w.timestamp,
    ensures
        tally_result(opts, method, votes_of(upserted(upserted(votes, v), w), poll_id), r) == tally_result(
            opts,
            method,
            votes_of(upserted(votes, v), poll_id),
            r,
        ),
{
    lemma_resubmit_idempotent(votes, v, w);
    crate::db::lemma_upserted_unique(votes, v);
    crate::db::lemma_upserted_unique(upserted(votes, v), w);
    crate::db::lemma_votes_of_unique(upserted(upserted(votes, v), w), poll_id);
    lemma_votes_of_same(upserted(upserted(votes, v), w), upserted(votes, v), poll_id);
    lemma_tally_reads_ballots(
        opts,
        method,
        votes_of(upserted(upserted(votes, v), w), poll_id),
        votes_of(upserted(votes, v), poll_id),
        r,
    );
}

/// Small enough for a tally: the poll at position `j` holds at most
/// `MAX_BALLOTS` entries.
pub open spec fn tallyable(polls: Seq<Poll>, votes: Seq<Vote>, j: int) -> bool {
    votes_of(votes, polls[j].id@).len() <= MAX_BALLOTS
}

/// What one tick reports for the expired poll at position `j`: its
/// identity, and the ended poll with its result, or why it was not ended.
pub open spec fn tick_report(
    polls: Seq<Poll>,
    votes: Seq<Vote>,
    j: int,
    item: (String, Result<(Poll, PollResults), DbError>),
) -> bool {
    &&& item.0@ == polls[j].id@
    &&& if tallyable(polls, votes, j) {
        item.1 matches Ok((p, res)) && ended(polls[j], p) && tally_result(
            p.options@,
            p.voting_method,
            votes_of(votes, polls[j].id@),
            res,
        )
    } else {
        item.1 == Err::<(Poll, PollResults), DbError>(DbError::TooManyBallots)
    }
}

/// One tick of the lifecycle: every active poll whose deadline is before
/// `now` is ended and tallied, in store order, and reported; a poll too
/// large to tally is reported and left as it is. No other poll changes.
pub fn end_expired_polls(database: &mut Database, now: i64) -> (r: Vec<(String, Result<(Poll, PollResults), DbError>)>)
    requires
        old(database).wf(),
    ensures
        final(database).wf(),
        final(database).votes_view() == old(database).votes_view(),
        final(database).polls_view().len() == old(database).polls_view().len(),
        forall|j: int|
            0 <= j < old(database).polls_view().len() ==> {
                &&& (expired_at(old(database).polls_view()[j], now) && tallyable(old(database).polls_view(), old(database).votes_view(), j))
                    ==> ended(old(database).polls_view()[j], final(database).polls_view()[j])
                &&& !(expired_at(old(database).polls_view()[j], now) && tallyable(old(database).polls_view(), old(database).votes_view(), j))
                    ==> final(database).polls_view()[j] == old(database).polls_view()[j]
            },
        r@.len() == expired_positions(old(database).polls_view(), now, old(database).polls_view().len() as int).len(),
        forall|m: int|
            #![trigger r@[m]]
            0 <= m < r@.len() ==> tick_report(
                old(database).polls_view(),
                old(database).votes_view(),
                expired_positions(old(database).polls_view(), now, old(database).polls_view().len() as int)[m] as int,
                r@[m],
            ),
{
    let ghost polls0 = database.polls_view();
    let ghost votes0 = database.votes_view();
    let n = database.polls.len();
    let mut r: Vec<(String, Result<(Poll, PollResults), DbError>)> = Vec::new();
    let mut k: usize = 0;
    while k < n
        invariant
            database.wf(),
            database.votes_view() == old(database).votes_view(),
            votes0 == old(database).votes_view(),
            database.polls_view().len() == n,
            polls0.len() == n,
            ids_unique(polls0),
            k <= n,
            forall|j: int| k <= j < n ==> database.polls_view()[j] == polls0[j],
            forall|j: int|
                0 <= j < k ==> {
                    &&& (expired_at(polls0[j], now) && tallyable(polls0, votes0, j)) ==> ended(polls0[j], database.polls_view()[j])
                    &&& !(expired_at(polls0[j], now) && tallyable(polls0, votes0, j)) ==> database.polls_view()[j] == polls0[j]
                },
            r@.len() == expired_positions(polls0, now, k as int).len(),
            forall|m: int|
                0 <= m < expired_positions(polls0, now, k as int).len() ==> #[trigger] expired_positions(
                    polls0,
                    now,
                    k as int,
                )[m] < k,
            forall|m: int|
                #![trigger r@[m]]
                0 <= m < r@.len() ==> tick_report(polls0, votes0, expired_positions(polls0, now, k as int)[m] as int, r@[m]),
        decreases n - k,
    {
        let expired = match database.polls[k].ends_at {
            Some(t) => database.polls[k].is_active && t < now,
            None => false,
        };
        if expired {
            let id = database.polls[k].id.clone();
            proof {
                crate::db::lemma_poll_index_at(database.polls_view(), id@, k as int);
            }
            let ghost before = database.polls_view();
            let outcome = end_poll_logic(database, id.as_str());
            proof {
                assert(poll_index(before, id@) == k);
                assert(votes_of(votes0, id@) == votes_of(votes0, polls0[k as int].id@));
                if tallyable(polls0, votes0, k as int) {
                    assert(closed_state(before, database.polls_view(), id@));
                }
            }
            r.push((id, outcome));
        }
        k = k + 1;
    }
    r
}

} // verus!
