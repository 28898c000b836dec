//! Approval: each voter approves any number of options; the most approvals wins.
use vstd::prelude::*;
use crate::models::{Poll, PollOption, Vote};
use crate::voting::{
    count_result, count_results, count_upto, count_voters, entry_slots, lemma_count_ext, slot,
    tally_marked, voter_count, PollResults,
};

verus! {

/// Entry `i` approves its option: a rating of at least 1.
pub open spec fn approves(votes: Seq<Vote>, i: int) -> bool {
    votes[i].rating >= 1
}

/// Number of approving entries for option `k`; with one entry per voter and
/// option, the number of voters who approve it.
pub open spec fn approval_count(opts: Seq<PollOption>, votes: Seq<Vote>, k: int) -> nat {
    count_upto(votes.len() as int, |i: int| approves(votes, i) && slot(opts, votes, i) == k)
}

/// The approval count of every option.
pub open spec fn approval_scores(opts: Seq<PollOption>, votes: Seq<Vote>) -> Seq<u64> {
    Seq::new(opts.len(), |k: int| approval_count(opts, votes, k) as u64)
}

/// Approval tally. A rating of at least 1 approves the option. The options
/// are listed by approvals, ties going to the lexicographically smaller
/// identity; the first one wins if it has any approval. Shares are of the
/// distinct voters.
pub fn calculate_results(poll: &Poll, votes: &[Vote]) -> (r: PollResults)
    ensures
        count_result(
            poll.options@,
            approval_scores(poll.options@, votes@),
            voter_count(poll.options@, votes@),
            " approvals"@,
            r,
        ),
{
    let opts = &poll.options;
    let slots = entry_slots(opts, votes);
    let mut marks: Vec<bool> = Vec::new();
    let mut i: usize = 0;
    while i < votes.len()
        invariant
            i <= votes.len(),
            marks.len() == i,
            forall|q: int| 0 <= q < i ==> marks@[q] == approves(votes@, q),
        decreases votes.len() - i,
    {
        marks.push(votes[i].rating >= 1);
        i = i + 1;
    }
    let scores = tally_marked(&slots, &marks, opts.len());
    proof {
        assert forall|k: int| 0 <= k < opts.len() implies scores@[k] == approval_scores(opts@, votes@)[k] by {
            lemma_count_ext(
                votes.len() as int,
                |q: int| marks@[q] && slots@[q] == k,
                |q: int| approves(votes@, q) && slot(opts@, votes@, q) == k,
            );
        }
        assert(scores@ =~= approval_scores(opts@, votes@));
    }
    let voters = count_voters(opts, votes, &slots);
    count_results(opts, &scores, voters, " approvals")
}

} // verus!
