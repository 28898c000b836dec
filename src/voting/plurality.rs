//! Plurality: each voter picks one option; the most picks wins.
use vstd::prelude::*;
use crate::models::{Poll, PollOption, Vote};
use crate::voting::{
    count_result, count_results, count_upto, count_voters, entry_slots, lemma_count_ext,
    marked_count, slot, tally_marked, valid, voter_count, PollResults,
};

verus! {

/// Entry `i` names an option of the poll with a positive rating.
pub open spec fn positive(opts: Seq<PollOption>, votes: Seq<Vote>, i: int) -> bool {
    valid(opts, votes, i) && votes[i].rating > 0
}

/// Number of positive entries of voter `u` among the first `n`.
pub open spec fn positives_upto(opts: Seq<PollOption>, votes: Seq<Vote>, u: Seq<char>, n: int) -> nat {
    count_upto(n, |j: int| positive(opts, votes, j) && votes[j].user_id@ == u)
}

/// Number of positive entries of voter `u`.
pub open spec fn positives_of(opts: Seq<PollOption>, votes: Seq<Vote>, u: Seq<char>) -> nat {
    positives_upto(opts, votes, u, votes.len() as int)
}

/// Entry `i` is its voter's single pick. A voter with several positive
/// entries has made no counted pick, and one with none has abstained.
pub open spec fn single_pick(opts: Seq<PollOption>, votes: Seq<Vote>, i: int) -> bool {
    positive(opts, votes, i) && positives_of(opts, votes, votes[i].user_id@) == 1
}

/// Number of voters whose single pick is option `k`.
pub open spec fn plurality_count(opts: Seq<PollOption>, votes: Seq<Vote>, k: int) -> nat {
    count_upto(votes.len() as int, |i: int| single_pick(opts, votes, i) && slot(opts, votes, i) == k)
}

/// The plurality count of every option.
pub open spec fn plurality_scores(opts: Seq<PollOption>, votes: Seq<Vote>) -> Seq<u64> {
    Seq::new(opts.len(), |k: int| plurality_count(opts, votes, k) as u64)
}

/// Number of positive entries of the voter of entry `i`.
fn count_positives(opts: &Vec<PollOption>, votes: &[Vote], slots: &Vec<usize>, i: usize) -> (r: u64)
    requires
        i < votes.len(),
        slots.len() == votes.len(),
        forall|q: int| 0 <= q < votes.len() ==> slots[q] == slot(opts@, votes@, q),
    ensures
        r == positives_of(opts@, votes@, votes@[i as int].user_id@),
{
    let ghost u = votes@[i as int].user_id@;
    let mut c: u64 = 0;
    let mut j: usize = 0;
    while j < votes.len()
        invariant
            i < votes.len(),
            slots.len() == votes.len(),
            forall|q: int| 0 <= q < votes.len() ==> slots[q] == slot(opts@, votes@, q),
            j <= votes.len(),
            c <= j,
            u == votes@[i as int].user_id@,
            c == positives_upto(opts@, votes@, u, j as int),
        decreases votes.len() - j,
    {
        proof {
            assert(positive(opts@, votes@, j as int) == (slots@[j as int] < opts.len() && votes@[j as int].rating > 0));
            assert(positives_upto(opts@, votes@, u, j + 1) == positives_upto(opts@, votes@, u, j as int)
                + if positive(opts@, votes@, j as int) && votes@[j as int].user_id@ == u { 1nat } else { 0nat });
        }
        if slots[j] < opts.len() && votes[j].rating > 0 && votes[j].user_id == votes[i].user_id {
            c = c + 1;
        }
        j = j + 1;
    }
    c
}

/// Plurality tally. Each voter's single positive entry counts one vote for
/// its option; voters with several positive entries count for none. The
/// options are listed by count, ties going to the lexicographically smaller
/// identity; the first one wins if its count is positive. Shares are of the
/// distinct voters.
pub fn calculate_results(poll: &Poll, votes: &[Vote]) -> (r: PollResults)
    ensures
        count_result(
            poll.options@,
            plurality_scores(poll.options@, votes@),
            voter_count(poll.options@, votes@),
            " votes"@,
            r,
        ),
{
    let opts = &poll.options;
    let slots = entry_slots(opts, votes);
    let mut marks: Vec<bool> = Vec::new();
    let mut i: usize = 0;
    while i < votes.len()
        invariant
            slots.len() == votes.len(),
            forall|q: int| 0 <= q < votes.len() ==> slots[q] == slot(opts@, votes@, q),
            i <= votes.len(),
            marks.len() == i,
            forall|q: int| 0 <= q < i ==> marks@[q] == single_pick(opts@, votes@, q),
        decreases votes.len() - i,
    {
        let m = slots[i] < opts.len() && votes[i].rating > 0 && count_positives(opts, votes, &slots, i) == 1;
        marks.push(m);
        i = i + 1;
    }
    let scores = tally_marked(&slots, &marks, opts.len());
    proof {
        assert forall|k: int| 0 <= k < opts.len() implies scores@[k] == plurality_scores(opts@, votes@)[k] by {
            lemma_count_ext(
                votes.len() as int,
                |q: int| marks@[q] && slots@[q] == k,
                |q: int| single_pick(opts@, votes@, q) && slot(opts@, votes@, q) == k,
            );
        }
        assert(scores@ =~= plurality_scores(opts@, votes@));
    }
    let voters = count_voters(opts, votes, &slots);
    let unit = " votes";
    count_results(opts, &scores, voters, unit)
}

} // verus!
