//! Ranked choice by instant runoff: the options with the fewest first
//! choices drop out round by round until one holds a majority.
use vstd::prelude::*;
use vstd::string::*;
use crate::models::{Poll, PollOption, Vote};
use crate::text::{decimal, push_decimal, push_str};
use crate::voting::{
    build_lines, count_upto, entry_slots, lemma_count_ext, lemma_listing_text, lines_match,
    listing, listing_text, list_options, marked_count, push_count_lines, slot, tally_marked,
    valid, PollResults, VoteCount,
};

verus! {

/// Entry `i` ranks an option of the poll (a positive rank; 1 is the most preferred).
pub open spec fn ranked_entry(opts: Seq<PollOption>, votes: Seq<Vote>, i: int) -> bool {
    valid(opts, votes, i) && votes[i].rating > 0
}

/// Entry `i` ranks an option that is not eliminated.
pub open spec fn live(opts: Seq<PollOption>, votes: Seq<Vote>, elim: Seq<bool>, i: int) -> bool {
    ranked_entry(opts, votes, i) && !elim[slot(opts, votes, i)]
}

/// Entry `i` is its voter's current first choice: the live entry with the
/// strictly lowest rank among the voter's live entries. A voter whose lowest
/// live rank is shared by two entries (which well-formed ballots never
/// hold) has no current first choice.
pub open spec fn top_choice(opts: Seq<PollOption>, votes: Seq<Vote>, elim: Seq<bool>, i: int) -> bool {
    &&& live(opts, votes, elim, i)
    &&& forall|j: int|
        0 <= j < votes.len() && j != i && votes[j].user_id@ == votes[i].user_id@ && live(
            opts,
            votes,
            elim,
            j,
        ) ==> votes[i].rating < votes[j].rating
}

/// The first-choice count of option `k` in a round with eliminated set `elim`.
pub open spec fn round_count(opts: Seq<PollOption>, votes: Seq<Vote>, elim: Seq<bool>, k: int) -> nat {
    count_upto(votes.len() as int, |i: int| top_choice(opts, votes, elim, i) && slot(opts, votes, i) == k)
}

/// The first-choice count of every option in a round.
pub open spec fn round_scores(opts: Seq<PollOption>, votes: Seq<Vote>, elim: Seq<bool>) -> Seq<u64> {
    Seq::new(opts.len(), |k: int| round_count(opts, votes, elim, k) as u64)
}

/// Entry `i` is the first ranked entry of its voter.
pub open spec fn first_ranked(opts: Seq<PollOption>, votes: Seq<Vote>, i: int) -> bool {
    &&& ranked_entry(opts, votes, i)
    &&& forall|j: int|
        0 <= j < i && ranked_entry(opts, votes, j) ==> votes[j].user_id@ != votes[i].user_id@
}

/// Number of distinct voters who ranked at least one option.
pub open spec fn ranked_voters(opts: Seq<PollOption>, votes: Seq<Vote>) -> nat {
    count_upto(votes.len() as int, |i: int| first_ranked(opts, votes, i))
}

/// Votes needed to win outright.
pub open spec fn majority(voters: nat) -> nat {
    voters / 2 + 1
}

/// Nothing eliminated yet.
pub open spec fn no_elim(n: int) -> Seq<bool> {
    Seq::new(n as nat, |k: int| false)
}

/// The options still in the count.
pub open spec fn remaining(elim: Seq<bool>) -> Seq<bool> {
    Seq::new(elim.len(), |k: int| !elim[k])
}

/// The remaining options of a round, by count, then identity.
pub open spec fn round_listing(opts: Seq<PollOption>, votes: Seq<Vote>, elim: Seq<bool>) -> Seq<usize> {
    listing(opts, round_scores(opts, votes, elim), remaining(elim), opts.len() as int)
}

/// How a ranked tally ends.
#[derive(Debug, Clone, Copy, PartialEq, Eq, Structural)]
pub enum RankedEnd {
    Majority,
    LastRemaining,
    Tie,
    Exhausted,
}

/// How a round ends, if it does: the leader reaches a majority; a single
/// option remains; or all remaining options are tied.
pub open spec fn round_end(opts: Seq<PollOption>, votes: Seq<Vote>, elim: Seq<bool>) -> Option<RankedEnd> {
    let sc = round_scores(opts, votes, elim);
    let order = round_listing(opts, votes, elim);
    if order.len() > 0 && sc[order[0] as int] >= majority(ranked_voters(opts, votes)) {
        Some(RankedEnd::Majority)
    } else if order.len() <= 1 {
        Some(RankedEnd::LastRemaining)
    } else if sc[order[0] as int] == sc[order.last() as int] {
        Some(RankedEnd::Tie)
    } else {
        None
    }
}

/// The lowest count of a round: that of the last listed option.
pub open spec fn lowest(opts: Seq<PollOption>, votes: Seq<Vote>, elim: Seq<bool>) -> u64 {
    round_scores(opts, votes, elim)[round_listing(opts, votes, elim).last() as int]
}

/// The eliminated set after a round: every option at the lowest count goes.
pub open spec fn next_elim(opts: Seq<PollOption>, votes: Seq<Vote>, elim: Seq<bool>) -> Seq<bool> {
    let low = lowest(opts, votes, elim);
    let sc = round_scores(opts, votes, elim);
    Seq::new(elim.len(), |k: int| elim[k] || sc[k] == low)
}

/// The round limit: the number of options plus five.
pub open spec fn round_cap(opts: Seq<PollOption>) -> int {
    opts.len() as int + 5
}

/// The eliminated set of the last round run from round `round`, and how the
/// count ended.
pub open spec fn final_round(opts: Seq<PollOption>, votes: Seq<Vote>, elim: Seq<bool>, round: int) -> (
    Seq<bool>,
    RankedEnd,
)
    decreases round_cap(opts) - round,
{
    if round < 1 || round > round_cap(opts) {
        (elim, RankedEnd::Exhausted)
    } else {
        match round_end(opts, votes, elim) {
            Some(e) => (elim, e),
            None => if round + 1 > round_cap(opts) {
                (elim, RankedEnd::Exhausted)
            } else {
                final_round(opts, votes, next_elim(opts, votes, elim), round + 1)
            },
        }
    }
}

/// A round that does not end eliminates at least one remaining option and
/// keeps at least one, so the count ends in a winner or a tie within as
/// many rounds as there are options.
pub proof fn lemma_round_progress(opts: Seq<PollOption>, votes: Seq<Vote>, elim: Seq<bool>)
    requires
        elim.len() == opts.len(),
        opts.len() <= usize::MAX,
        round_end(opts, votes, elim) is None,
    ensures
        exists|k: int| 0 <= k < elim.len() && !elim[k] && #[trigger] next_elim(opts, votes, elim)[k],
        exists|k: int| 0 <= k < elim.len() && !#[trigger] next_elim(opts, votes, elim)[k],
        forall|k: int| 0 <= k < elim.len() && elim[k] ==> #[trigger] next_elim(opts, votes, elim)[k],
{
    let sc = round_scores(opts, votes, elim);
    let order = round_listing(opts, votes, elim);
    crate::voting::lemma_listing_members(opts, sc, remaining(elim), opts.len() as int);
    let last = order.last();
    let first = order[0];
    assert(order[order.len() - 1] == last);
    assert(!elim[last as int]);
    assert(next_elim(opts, votes, elim)[last as int]);
    assert(!elim[first as int]);
    assert(!next_elim(opts, votes, elim)[first as int]);
}

/// Names joined by ", ".
pub open spec fn join_names(names: Seq<Seq<char>>) -> Seq<char>
    decreases names.len(),
{
    if names.len() == 0 {
        Seq::empty()
    } else if names.len() == 1 {
        names[0]
    } else {
        join_names(names.drop_last()) + ", "@ + names.last()
    }
}

/// The texts of the listed options whose score is `low`, in listing order.
pub open spec fn low_names(opts: Seq<PollOption>, scores: Seq<u64>, order: Seq<usize>, low: u64) -> Seq<
    Seq<char>,
>
    decreases order.len(),
{
    if order.len() == 0 {
        Seq::empty()
    } else {
        let p = low_names(opts, scores, order.drop_last(), low);
        if scores[order.last() as int] == low {
            p.push(opts[order.last() as int].text@)
        } else {
            p
        }
    }
}

/// The heading and count lines of a round.
pub open spec fn round_text(opts: Seq<PollOption>, votes: Seq<Vote>, elim: Seq<bool>, round: int) -> Seq<char> {
    "Round "@ + decimal(round as nat) + ":\n"@ + listing_text(
        opts,
        round_scores(opts, votes, elim),
        round_listing(opts, votes, elim),
        ranked_voters(opts, votes),
        " votes"@,
    )
}

/// The summary of every round from round `round` on.
pub open spec fn rounds_text(opts: Seq<PollOption>, votes: Seq<Vote>, elim: Seq<bool>, round: int) -> Seq<char>
    decreases round_cap(opts) - round,
{
    if round < 1 || round > round_cap(opts) {
        Seq::empty()
    } else {
        let head = round_text(opts, votes, elim, round);
        match round_end(opts, votes, elim) {
            Some(RankedEnd::Majority) => head + "Majority reached.\n"@,
            Some(RankedEnd::LastRemaining) => head + "One option remains.\n"@,
            Some(_) => head + "Tie among the remaining options.\n"@,
            None => {
                let el = head + "Eliminated: "@ + join_names(
                    low_names(
                        opts,
                        round_scores(opts, votes, elim),
                        round_listing(opts, votes, elim),
                        lowest(opts, votes, elim),
                    ),
                ) + "\n"@;
                if round + 1 > round_cap(opts) {
                    el + "Calculation stopped: round limit reached.\n"@
                } else {
                    el + rounds_text(opts, votes, next_elim(opts, votes, elim), round + 1)
                }
            },
        }
    }
}

/// The result of a tally that ended with `end` in the round with
/// eliminated set `fe`: the result lines are that round's counts; the
/// leader wins on a majority or as the last remaining option, and a tie or
/// the round limit leaves no winner.
pub open spec fn ranked_outcome(
    opts: Seq<PollOption>,
    votes: Seq<Vote>,
    fe: Seq<bool>,
    end: RankedEnd,
    r: PollResults,
) -> bool {
    let lines = r.raw_results@;
    &&& lines_match(opts, round_scores(opts, votes, fe), round_listing(opts, votes, fe), lines)
    &&& if (end == RankedEnd::Majority || end == RankedEnd::LastRemaining) && lines.len() > 0 {
        &&& r.winner_id@ == lines[0].option_id@
        &&& r.winner@ == lines[0].option_text@
    } else {
        &&& r.winner_id@ == Seq::<char>::empty()
        &&& r.winner@ == if end == RankedEnd::Tie {
            "Tie"@
        } else if end == RankedEnd::Exhausted {
            "No clear winner"@
        } else {
            "No winner"@
        }
    }
}

/// What a ranked tally returns. Without ranked entries there is no winner;
/// otherwise the outcome of the last round, with the text of every round.
pub open spec fn ranked_result(opts: Seq<PollOption>, votes: Seq<Vote>, r: PollResults) -> bool {
    if ranked_voters(opts, votes) == 0 {
        &&& r.winner@ == "No winner"@
        &&& r.winner_id@ == Seq::<char>::empty()
        &&& r.raw_results@.len() == 0
        &&& r.summary@ == "No valid rankings were submitted."@
    } else {
        let fr = final_round(opts, votes, no_elim(opts.len() as int), 1);
        &&& ranked_outcome(opts, votes, fr.0, fr.1, r)
        &&& r.summary@ == rounds_text(opts, votes, no_elim(opts.len() as int), 1)
    }
}

/// What one round leads to.
pub enum RoundStep {
    Done(PollResults),
    Next(Vec<bool>),
}

/// Whether entry `i` is live.
fn is_live(opts: &Vec<PollOption>, votes: &[Vote], slots: &Vec<usize>, elim: &Vec<bool>, i: usize) -> (r: bool)
    requires
        i < votes.len(),
        elim.len() == opts.len(),
        slots.len() == votes.len(),
        forall|q: int| 0 <= q < votes.len() ==> slots[q] == slot(opts@, votes@, q),
    ensures
        r == live(opts@, votes@, elim@, i as int),
{
    slots[i] < opts.len() && votes[i].rating > 0 && !elim[slots[i]]
}

/// Whether entry `i` is its voter's current first choice.
fn is_top_choice(opts: &Vec<PollOption>, votes: &[Vote], slots: &Vec<usize>, elim: &Vec<bool>, i: usize) -> (r: bool)
    requires
        i < votes.len(),
        elim.len() == opts.len(),
        slots.len() == votes.len(),
        forall|q: int| 0 <= q < votes.len() ==> slots[q] == slot(opts@, votes@, q),
    ensures
        r == top_choice(opts@, votes@, elim@, i as int),
{
    if !is_live(opts, votes, slots, elim, i) {
        return false;
    }
    let mut j: usize = 0;
    while j < votes.len()
        invariant
            i < votes.len(),
            elim.len() == opts.len(),
            slots.len() == votes.len(),
            forall|q: int| 0 <= q < votes.len() ==> slots[q] == slot(opts@, votes@, q),
            j <= votes.len(),
            forall|q: int|
                0 <= q < j && q != i && votes@[q].user_id@ == votes@[i as int].user_id@ && live(
                    opts@,
                    votes@,
                    elim@,
                    q,
                ) ==> votes@[i as int].rating < votes@[q].rating,
        decreases votes.len() - j,
    {
        if j != i && votes[j].user_id == votes[i].user_id && is_live(opts, votes, slots, elim, j)
            && votes[j].rating <= votes[i].rating {
            return false;
        }
        j = j + 1;
    }
    true
}

/// The first-choice count of every option in a round.
fn round_counts(opts: &Vec<PollOption>, votes: &[Vote], slots: &Vec<usize>, elim: &Vec<bool>) -> (r: Vec<u64>)
    requires
        elim.len() == opts.len(),
        slots.len() == votes.len(),
        forall|q: int| 0 <= q < votes.len() ==> slots[q] == slot(opts@, votes@, q),
    ensures
        r@ == round_scores(opts@, votes@, elim@),
{
    let mut marks: Vec<bool> = Vec::new();
    let mut i: usize = 0;
    while i < votes.len()
        invariant
            elim.len() == opts.len(),
            slots.len() == votes.len(),
            forall|q: int| 0 <= q < votes.len() ==> slots[q] == slot(opts@, votes@, q),
            i <= votes.len(),
            marks.len() == i,
            forall|q: int| 0 <= q < i ==> marks@[q] == top_choice(opts@, votes@, elim@, q),
        decreases votes.len() - i,
    {
        let m = is_top_choice(opts, votes, slots, elim, i);
        marks.push(m);
        i = i + 1;
    }
    let scores = tally_marked(slots, &marks, opts.len());
    proof {
        assert forall|k: int| 0 <= k < opts.len() implies scores@[k] == round_scores(opts@, votes@, elim@)[k] by {
            lemma_count_ext(
                votes.len() as int,
                |q: int| marks@[q] && slots@[q] == k,
                |q: int| top_choice(opts@, votes@, elim@, q) && slot(opts@, votes@, q) == k,
            );
        }
        assert(scores@ =~= round_scores(opts@, votes@, elim@));
    }
    scores
}

/// Number of distinct voters who ranked at least one option.
fn count_ranked_voters(opts: &Vec<PollOption>, votes: &[Vote], slots: &Vec<usize>) -> (r: u64)
    requires
        slots.len() == votes.len(),
        forall|q: int| 0 <= q < votes.len() ==> slots[q] == slot(opts@, votes@, q),
    ensures
        r == ranked_voters(opts@, votes@),
{
    let mut c: u64 = 0;
    let mut i: usize = 0;
    while i < votes.len()
        invariant
            slots.len() == votes.len(),
            forall|q: int| 0 <= q < votes.len() ==> slots[q] == slot(opts@, votes@, q),
            i <= votes.len(),
            c <= i,
            c == count_upto(i as int, |q: int| first_ranked(opts@, votes@, q)),
        decreases votes.len() - i,
    {
        let mut first = slots[i] < opts.len() && votes[i].rating > 0;
        assert(first == ranked_entry(opts@, votes@, i as int));
        let mut j: usize = 0;
        while j < i && first
            invariant
                slots.len() == votes.len(),
                forall|q: int| 0 <= q < votes.len() ==> slots[q] == slot(opts@, votes@, q),
                i < votes.len(),
                j <= i,
                first ==> ranked_entry(opts@, votes@, i as int),
                first ==> forall|q: int|
                    0 <= q < j && ranked_entry(opts@, votes@, q) ==> votes@[q].user_id@ != votes@[i as int].user_id@,
                !first ==> !first_ranked(opts@, votes@, i as int),
            decreases i - j,
        {
            if slots[j] < opts.len() && votes[j].rating > 0 && votes[j].user_id == votes[i].user_id {
                assert(ranked_entry(opts@, votes@, j as int));
                first = false;
            }
            j = j + 1;
        }
        if first {
            c = c + 1;
        }
        i = i + 1;
    }
    c
}

/// Appends the joined texts of the listed options at score `low`.
fn push_low_names(s: &mut String, opts: &Vec<PollOption>, scores: &Vec<u64>, order: &Vec<usize>, low: u64)
    requires
        scores.len() == opts.len(),
        forall|m: int| 0 <= m < order.len() ==> order[m] < opts.len(),
    ensures
        final(s)@ == old(s)@ + join_names(low_names(opts@, scores@, order@, low)),
{
    let mut cnt: usize = 0;
    let mut m: usize = 0;
    while m < order.len()
        invariant
            scores.len() == opts.len(),
            forall|q: int| 0 <= q < order.len() ==> order[q] < opts.len(),
            m <= order.len(),
            cnt <= m,
            cnt == low_names(opts@, scores@, order@.take(m as int), low).len(),
            s@ == old(s)@ + join_names(low_names(opts@, scores@, order@.take(m as int), low)),
        decreases order.len() - m,
    {
        let ghost prev = low_names(opts@, scores@, order@.take(m as int), low);
        let ghost before = s@;
        assert(order@.take(m + 1).drop_last() =~= order@.take(m as int));
        let k = order[m];
        if scores[k] == low {
            if cnt > 0 {
                push_str(s, ", ");
            }
            push_str(s, opts[k].text.as_str());
            proof {
                let next = prev.push(opts@[k as int].text@);
                assert(next.drop_last() =~= prev);
                assert(s@ =~= old(s)@ + join_names(next));
            }
            cnt = cnt + 1;
        }
        m = m + 1;
    }
    assert(order@.take(order.len() as int) =~= order@);
}

fn play_round(
    opts: &Vec<PollOption>,
    votes: &[Vote],
    slots: &Vec<usize>,
    voters: u64,
    elim: &Vec<bool>,
    round: u128,
    summary: &mut String,
) -> (r: RoundStep)
    requires
        elim.len() == opts.len(),
        1 <= round <= opts.len() + 5,
        voters == ranked_voters(opts@, votes@),
        slots.len() == votes.len(),
        forall|q: int| 0 <= q < votes.len() ==> slots[q] == slot(opts@, votes@, q),
    ensures
        match r {
            RoundStep::Done(res) => {
                &&& final_round(opts@, votes@, elim@, round as int).0 == elim@
                &&& ranked_outcome(opts@, votes@, elim@, final_round(opts@, votes@, elim@, round as int).1, res)
                &&& final(summary)@ == old(summary)@ + rounds_text(opts@, votes@, elim@, round as int)
            },
            RoundStep::Next(nx) => {
                &&& round + 1 <= opts.len() + 5
                &&& nx.len() == opts.len()
                &&& final_round(opts@, votes@, nx@, round + 1) == final_round(opts@, votes@, elim@, round as int)
                &&& final(summary)@ + rounds_text(opts@, votes@, nx@, round + 1) == old(summary)@ + rounds_text(
                    opts@,
                    votes@,
                    elim@,
                    round as int,
                )
            },
        },
{
    let n = opts.len();
    let cap: u128 = n as u128 + 5;
    let scores = round_counts(opts, votes, slots, elim);
    let mut rem: Vec<bool> = Vec::new();
    let mut q: usize = 0;
    while q < n
        invariant
            n == opts.len(),
            elim.len() == n,
            q <= n,
            rem.len() == q,
            forall|x: int| 0 <= x < q ==> rem@[x] == !elim@[x],
        decreases n - q,
    {
        rem.push(!elim[q]);
        q = q + 1;
    }
    assert(rem@ =~= remaining(elim@));
    let order = list_options(opts, &scores, &rem);
    let lines = build_lines(opts, &scores, &order);
    assert(scores@ == round_scores(opts@, votes@, elim@));
    assert(order@ == round_listing(opts@, votes@, elim@));
    let ghost before = summary@;
    push_str(summary, "Round ");
    push_decimal(summary, round);
    push_str(summary, ":\n");
    push_count_lines(summary, &lines, voters, " votes");
    proof {
        lemma_listing_text(opts@, scores@, order@, lines@, voters as nat, " votes"@);
        assert(summary@ =~= before + round_text(opts@, votes@, elim@, round as int));
    }
    if order.len() > 0 && scores[order[0]] >= voters / 2 + 1 {
        push_str(summary, "Majority reached.\n");
        assert(round_end(opts@, votes@, elim@) == Some(RankedEnd::Majority));
        assert(summary@ =~= before + rounds_text(opts@, votes@, elim@, round as int));
        let winner = lines[0].option_text.clone();
        let winner_id = lines[0].option_id.clone();
        return RoundStep::Done(PollResults { winner, summary: String::new(), winner_id, raw_results: lines });
    }
    if order.len() <= 1 {
        push_str(summary, "One option remains.\n");
        assert(round_end(opts@, votes@, elim@) == Some(RankedEnd::LastRemaining));
        assert(summary@ =~= before + rounds_text(opts@, votes@, elim@, round as int));
        if lines.len() > 0 {
            let winner = lines[0].option_text.clone();
            let winner_id = lines[0].option_id.clone();
            return RoundStep::Done(PollResults { winner, summary: String::new(), winner_id, raw_results: lines });
        }
        return RoundStep::Done(
            PollResults {
                winner: String::from_str("No winner"),
                summary: String::new(),
                winner_id: String::new(),
                raw_results: lines,
            },
        );
    }
    let last = order.len() - 1;
    let low = scores[order[last]];
    if scores[order[0]] == low {
        push_str(summary, "Tie among the remaining options.\n");
        assert(round_end(opts@, votes@, elim@) == Some(RankedEnd::Tie));
        assert(summary@ =~= before + rounds_text(opts@, votes@, elim@, round as int));
        return RoundStep::Done(
            PollResults {
                winner: String::from_str("Tie"),
                summary: String::new(),
                winner_id: String::new(),
                raw_results: lines,
            },
        );
    }
    assert(round_end(opts@, votes@, elim@) == None::<RankedEnd>);
    assert(low == lowest(opts@, votes@, elim@));
    push_str(summary, "Eliminated: ");
    push_low_names(summary, opts, &scores, &order, low);
    push_str(summary, "\n");
    let mut next: Vec<bool> = Vec::new();
    let mut q: usize = 0;
    while q < n
        invariant
            n == opts.len(),
            elim.len() == n,
            scores.len() == n,
            q <= n,
            next.len() == q,
            forall|x: int| 0 <= x < q ==> next@[x] == (elim@[x] || scores@[x] == low),
        decreases n - q,
    {
        next.push(elim[q] || scores[q] == low);
        q = q + 1;
    }
    assert(next@ =~= next_elim(opts@, votes@, elim@));
    if round + 1 > cap {
        push_str(summary, "Calculation stopped: round limit reached.\n");
        assert(summary@ =~= before + rounds_text(opts@, votes@, elim@, round as int));
        return RoundStep::Done(
            PollResults {
                winner: String::from_str("No clear winner"),
                summary: String::new(),
                winner_id: String::new(),
                raw_results: lines,
            },
        );
    }
    assert(summary@ + rounds_text(opts@, votes@, next@, round + 1) =~= before + rounds_text(
        opts@,
        votes@,
        elim@,
        round as int,
    ));
    RoundStep::Next(next)
}

/// Ranked-choice tally by instant runoff. Each round counts every voter's
/// current first choice among the remaining options. The leader wins with a
/// majority of the voters who ranked anything (half of them, rounded down,
/// plus one); a single remaining option wins by default; when all remaining
/// options are tied the tally ends in a tie; otherwise every option at the
/// lowest count is eliminated. After the number of options plus five
/// rounds the tally stops without a winner.
pub fn calculate_results(poll: &Poll, votes: &[Vote]) -> (r: PollResults)
    ensures
        ranked_result(poll.options@, votes@, r),
{
    let opts = &poll.options;
    let n = opts.len();
    let slots = entry_slots(opts, votes);
    let voters = count_ranked_voters(opts, votes, &slots);
    if voters == 0 {
        return PollResults {
            winner: String::from_str("No winner"),
            summary: String::from_str("No valid rankings were submitted."),
            winner_id: String::new(),
            raw_results: Vec::new(),
        };
    }
    let cap: u128 = n as u128 + 5;
    let mut elim: Vec<bool> = Vec::new();
    let mut k: usize = 0;
    while k < n
        invariant
            n == opts.len(),
            k <= n,
            elim.len() == k,
            forall|q: int| 0 <= q < k ==> !elim@[q],
        decreases n - k,
    {
        elim.push(false);
        k = k + 1;
    }
    assert(elim@ =~= no_elim(n as int));
    let ghost start = elim@;
    let mut round: u128 = 1;
    let mut summary = String::new();
    loop
        invariant
            opts@ == poll.options@,
            n == opts.len(),
            cap == n + 5,
            elim.len() == n,
            1 <= round <= cap,
            start == no_elim(n as int),
            voters == ranked_voters(opts@, votes@),
            voters > 0,
            slots.len() == votes.len(),
            forall|q: int| 0 <= q < votes.len() ==> slots[q] == slot(opts@, votes@, q),
            final_round(opts@, votes@, elim@, round as int) == final_round(opts@, votes@, start, 1),
            summary@ + rounds_text(opts@, votes@, elim@, round as int) == rounds_text(opts@, votes@, start, 1),
        decreases cap - round,
    {
        match play_round(opts, votes, &slots, voters, &elim, round, &mut summary) {
            RoundStep::Done(res) => {
                let ghost fr = final_round(opts@, votes@, elim@, round as int);
                assert(ranked_outcome(opts@, votes@, fr.0, fr.1, res));
                let r = PollResults {
                    winner: res.winner,
                    summary,
                    winner_id: res.winner_id,
                    raw_results: res.raw_results,
                };
                assert(ranked_outcome(opts@, votes@, fr.0, fr.1, r));
                assert(final_round(opts@, votes@, start, 1) == fr);
                assert(r.summary@ == rounds_text(opts@, votes@, start, 1));
                return r;
            },
            RoundStep::Next(nx) => {
                elim = nx;
                round = round + 1;
            },
        }
    }
}

} // verus!
