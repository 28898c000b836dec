//! STAR: score then automatic runoff between the two highest scores.
use vstd::prelude::*;
use vstd::string::*;
use crate::models::{Poll, PollOption, Vote};
use crate::text::{decimal, push_decimal, push_str};
use crate::voting::{
    build_lines, count_upto, entries_unique, entry_slots, first_of_voter, is_first_option,
    is_listing, lines_match, list_options, option_slot, ranked_lines, slot, valid, voter_count,
    count_voters, all_options, PollResults, VoteCount,
};

verus! {

/// The largest number of ballot entries a tally takes; a limit of memory
/// long before it is one of arithmetic.
pub const MAX_BALLOTS: u64 = 0x0fff_ffff_ffff_ffff;

/// The stars an entry gives: its rating when within 0..=5, else none.
pub open spec fn star_value(r: i32) -> nat {
    if 0 <= r <= 5 {
        r as nat
    } else {
        0
    }
}

/// Stars given to option `k` by the first `n` entries.
pub open spec fn star_sum(opts: Seq<PollOption>, votes: Seq<Vote>, k: int, n: int) -> nat
    decreases n,
{
    if n <= 0 {
        0
    } else {
        star_sum(opts, votes, k, n - 1) + if slot(opts, votes, n - 1) == k {
            star_value(votes[n - 1].rating)
        } else {
            0
        }
    }
}

/// The total stars of every option.
pub open spec fn star_scores(opts: Seq<PollOption>, votes: Seq<Vote>) -> Seq<u64> {
    Seq::new(opts.len(), |k: int| star_sum(opts, votes, k, votes.len() as int) as u64)
}

/// Voter `u`'s entry for option `k`.
pub open spec fn entry_for(opts: Seq<PollOption>, votes: Seq<Vote>, u: Seq<char>, k: int, j: int) -> bool {
    0 <= j < votes.len() && votes[j].user_id@ == u && slot(opts, votes, j) == k
}

/// The stars voter `u` gave option `k`; 0 when the voter gave none.
pub open spec fn stars_of(opts: Seq<PollOption>, votes: Seq<Vote>, u: Seq<char>, k: int) -> nat {
    if exists|j: int| entry_for(opts, votes, u, k, j) {
        star_value(votes[choose|j: int| entry_for(opts, votes, u, k, j)].rating)
    } else {
        0
    }
}

/// Entry `i` is the first of a voter who gives `a` more stars than `b`.
pub open spec fn prefers(opts: Seq<PollOption>, votes: Seq<Vote>, a: int, b: int, i: int) -> bool {
    first_of_voter(opts, votes, i) && stars_of(opts, votes, votes[i].user_id@, a) > stars_of(
        opts,
        votes,
        votes[i].user_id@,
        b,
    )
}

/// Entry `i` is the first of a voter who gives `a` and `b` the same stars.
pub open spec fn indifferent(opts: Seq<PollOption>, votes: Seq<Vote>, a: int, b: int, i: int) -> bool {
    first_of_voter(opts, votes, i) && stars_of(opts, votes, votes[i].user_id@, a) == stars_of(
        opts,
        votes,
        votes[i].user_id@,
        b,
    )
}

/// The runoff between two finalists, counted over distinct voters.
#[derive(Debug, Clone, Copy, PartialEq, Eq, Structural)]
pub struct RunoffTally {
    pub first: u64,
    pub second: u64,
    pub no_preference: u64,
}

/// The runoff between options `a` and `b`.
pub open spec fn runoff_of(opts: Seq<PollOption>, votes: Seq<Vote>, a: int, b: int) -> RunoffTally {
    RunoffTally {
        first: count_upto(votes.len() as int, |i: int| prefers(opts, votes, a, b, i)) as u64,
        second: count_upto(votes.len() as int, |i: int| prefers(opts, votes, b, a, i)) as u64,
        no_preference: count_upto(votes.len() as int, |i: int| indifferent(opts, votes, a, b, i)) as u64,
    }
}

pub proof fn lemma_slot_names(opts: Seq<PollOption>, votes: Seq<Vote>, j: int)
    requires
        0 <= j < votes.len(),
        valid(opts, votes, j),
    ensures
        votes[j].option_id@ == opts[slot(opts, votes, j)].id@,
{
    let id = votes[j].option_id@;
    if !exists|k: int| is_first_option(opts, id, k) {
        assert(option_slot(opts, id) == opts.len());
    }
}

/// The stars the voter of entry `i` gave option `k`.
fn stars_for(opts: &Vec<PollOption>, votes: &[Vote], slots: &Vec<usize>, i: usize, k: usize) -> (r: u64)
    requires
        i < votes.len(),
        k < opts.len(),
        entries_unique(votes@),
        slots.len() == votes.len(),
        forall|q: int| 0 <= q < votes.len() ==> slots[q] == slot(opts@, votes@, q),
    ensures
        r == stars_of(opts@, votes@, votes@[i as int].user_id@, k as int),
        r <= 5,
{
    let ghost u = votes@[i as int].user_id@;
    let mut j: usize = 0;
    while j < votes.len()
        invariant
            i < votes.len(),
            k < opts.len(),
            slots.len() == votes.len(),
            forall|q: int| 0 <= q < votes.len() ==> slots[q] == slot(opts@, votes@, q),
            u == votes@[i as int].user_id@,
            entries_unique(votes@),
            j <= votes.len(),
            forall|q: int| 0 <= q < j ==> !entry_for(opts@, votes@, u, k as int, q),
        decreases votes.len() - j,
    {
        if slots[j] == k && votes[j].user_id == votes[i].user_id {
            proof {
                assert(entry_for(opts@, votes@, u, k as int, j as int));
                let c = choose|c: int| entry_for(opts@, votes@, u, k as int, c);
                lemma_slot_names(opts@, votes@, c);
                lemma_slot_names(opts@, votes@, j as int);
                assert(votes@[c].option_id@ == votes@[j as int].option_id@);
                assert(votes@[c].user_id@ == votes@[j as int].user_id@);
                if c != j {
                    crate::voting::lemma_unique_entry(votes@, c, j as int);
                }
            }
            let r = votes[j].rating;
            if 0 <= r && r <= 5 {
                return r as u64;
            } else {
                return 0;
            }
        }
        j = j + 1;
    }
    0
}

/// The runoff between options `a` and `b`: for each distinct voter, which
/// of the two got more stars, or neither.
pub fn runoff(poll: &Poll, votes: &[Vote], a: usize, b: usize) -> (r: RunoffTally)
    requires
        a < poll.options.len(),
        b < poll.options.len(),
        entries_unique(votes@),
    ensures
        r == runoff_of(poll.options@, votes@, a as int, b as int),
{
    let slots = entry_slots(&poll.options, votes);
    runoff_with(&poll.options, votes, &slots, a, b)
}

fn runoff_with(opts: &Vec<PollOption>, votes: &[Vote], slots: &Vec<usize>, a: usize, b: usize) -> (r: RunoffTally)
    requires
        a < opts.len(),
        b < opts.len(),
        entries_unique(votes@),
        slots.len() == votes.len(),
        forall|q: int| 0 <= q < votes.len() ==> slots[q] == slot(opts@, votes@, q),
    ensures
        r == runoff_of(opts@, votes@, a as int, b as int),
{
    let mut first: u64 = 0;
    let mut second: u64 = 0;
    let mut none: u64 = 0;
    let mut i: usize = 0;
    while i < votes.len()
        invariant
            a < opts.len(),
            b < opts.len(),
            entries_unique(votes@),
            slots.len() == votes.len(),
            forall|q: int| 0 <= q < votes.len() ==> slots[q] == slot(opts@, votes@, q),
            i <= votes.len(),
            first <= i,
            second <= i,
            none <= i,
            first == count_upto(i as int, |q: int| prefers(opts@, votes@, a as int, b as int, q)),
            second == count_upto(i as int, |q: int| prefers(opts@, votes@, b as int, a as int, q)),
            none == count_upto(i as int, |q: int| indifferent(opts@, votes@, a as int, b as int, q)),
        decreases votes.len() - i,
    {
        let is_first = crate::voting::first_entry_of_voter(opts, votes, slots, i);
        if is_first {
            let sa = stars_for(opts, votes, slots, i, a);
            let sb = stars_for(opts, votes, slots, i, b);
            if sa > sb {
                first = first + 1;
            } else if sb > sa {
                second = second + 1;
            } else {
                none = none + 1;
            }
        }
        i = i + 1;
    }
    RunoffTally { first, second, no_preference: none }
}

/// One score line: `text: N total stars`.
pub open spec fn star_line(c: VoteCount) -> Seq<char> {
    c.option_text@ + ": "@ + decimal(c.score as nat) + " total stars\n"@
}

/// The score lines of all result lines, in order.
pub open spec fn star_lines(lines: Seq<VoteCount>) -> Seq<char>
    decreases lines.len(),
{
    if lines.len() == 0 {
        Seq::empty()
    } else {
        star_lines(lines.drop_last()) + star_line(lines.last())
    }
}

/// The runoff part of the summary.
pub open spec fn runoff_text(a: Seq<char>, b: Seq<char>, t: RunoffTally) -> Seq<char> {
    "Runoff: "@ + a + " vs "@ + b + "\n"@ + a + ": "@ + decimal(t.first as nat) + " preferred\n"@ + b
        + ": "@ + decimal(t.second as nat) + " preferred\n"@ + "No preference: "@ + decimal(
        t.no_preference as nat,
    ) + "\n"@
}

/// The STAR summary: the score phase, then the runoff or the reason there
/// was none, then the number of voters.
pub open spec fn star_summary(lines: Seq<VoteCount>, voters: nat, middle: Seq<char>) -> Seq<char> {
    if voters == 0 {
        "No votes were cast in this poll."@
    } else {
        "Scoring phase:\n"@ + star_lines(lines) + middle + "Total voters: "@ + decimal(voters)
    }
}

/// What a STAR tally returns for the listing `order` of the options by
/// total stars. With two options holding stars the two first are the
/// finalists and the runoff decides, a tie going to the higher scored one;
/// otherwise, once anyone voted, the top-scored option wins outright; with
/// no voters there is no winner.
pub open spec fn star_outcome(opts: Seq<PollOption>, votes: Seq<Vote>, order: Seq<usize>, r: PollResults) -> bool {
    let scores = star_scores(opts, votes);
    let voters = voter_count(opts, votes);
    &&& is_listing(opts, scores, all_options(opts.len() as int), order)
    &&& lines_match(opts, scores, order, r.raw_results@)
    &&& if order.len() >= 2 && scores[order[1] as int] > 0 {
        let a = order[0] as int;
        let b = order[1] as int;
        let t = runoff_of(opts, votes, a, b);
        let w = if t.first >= t.second { a } else { b };
        &&& r.winner_id@ == opts[w].id@
        &&& r.winner@ == opts[w].text@
        &&& r.summary@ == star_summary(r.raw_results@, voters, runoff_text(opts[a].text@, opts[b].text@, t))
    } else if voters > 0 && order.len() >= 1 {
        &&& r.winner_id@ == opts[order[0] as int].id@
        &&& r.winner@ == opts[order[0] as int].text@
        &&& r.summary@ == star_summary(
            r.raw_results@,
            voters,
            if scores[order[0] as int] > 0 {
                "Fewer than two options received stars: no runoff.\n"@
            } else {
                "No option received stars: no runoff.\n"@
            },
        )
    } else {
        &&& r.winner_id@ == Seq::<char>::empty()
        &&& r.winner@ == if voters == 0 {
            "No votes were cast"@
        } else {
            "No winner"@
        }
        &&& r.summary@ == star_summary(r.raw_results@, voters, "No option received stars.\n"@)
    }
}

proof fn lemma_three_way(opts: Seq<PollOption>, votes: Seq<Vote>, a: int, b: int, n: int)
    requires
        0 <= n <= votes.len(),
    ensures
        count_upto(n, |i: int| prefers(opts, votes, a, b, i)) + count_upto(n, |i: int| prefers(opts, votes, b, a, i))
            + count_upto(n, |i: int| indifferent(opts, votes, a, b, i)) == count_upto(
            n,
            |i: int| first_of_voter(opts, votes, i),
        ),
        count_upto(n, |i: int| first_of_voter(opts, votes, i)) <= n,
    decreases n,
{
    if n > 0 {
        lemma_three_way(opts, votes, a, b, n - 1);
    }
}

/// The runoff between two finalists counts every distinct voter exactly
/// once: for the first, for the second, or as having no preference (equal
/// stars, both 0 included).
pub proof fn lemma_runoff_counts_each_voter_once(opts: Seq<PollOption>, votes: Seq<Vote>, a: int, b: int)
    requires
        votes.len() <= MAX_BALLOTS,
    ensures
        runoff_of(opts, votes, a, b).first + runoff_of(opts, votes, a, b).second + runoff_of(
            opts,
            votes,
            a,
            b,
        ).no_preference == voter_count(opts, votes),
{
    lemma_three_way(opts, votes, a, b, votes.len() as int);
    crate::voting::lemma_count_le(votes.len() as int, |i: int| prefers(opts, votes, a, b, i));
    crate::voting::lemma_count_le(votes.len() as int, |i: int| prefers(opts, votes, b, a, i));
    crate::voting::lemma_count_le(votes.len() as int, |i: int| indifferent(opts, votes, a, b, i));
}

/// The total stars of every option.
fn star_totals(opts: &Vec<PollOption>, votes: &[Vote], slots: &Vec<usize>) -> (r: Vec<u64>)
    requires
        votes.len() <= MAX_BALLOTS,
        slots.len() == votes.len(),
        forall|q: int| 0 <= q < votes.len() ==> slots[q] == slot(opts@, votes@, q),
    ensures
        r@ == star_scores(opts@, votes@),
{
    let n = opts.len();
    let mut r: Vec<u64> = Vec::new();
    let mut k: usize = 0;
    while k < n
        invariant
            n == opts.len(),
            k <= n,
            r.len() == k,
            forall|q: int| 0 <= q < k ==> r[q] == 0,
        decreases n - k,
    {
        r.push(0);
        k = k + 1;
    }
    let mut i: usize = 0;
    while i < votes.len()
        invariant
            n == opts.len(),
            votes.len() <= MAX_BALLOTS,
            slots.len() == votes.len(),
            forall|q: int| 0 <= q < votes.len() ==> slots[q] == slot(opts@, votes@, q),
            i <= votes.len(),
            r.len() == n,
            forall|q: int| 0 <= q < n ==> r[q] == star_sum(opts@, votes@, q, i as int),
            forall|q: int| 0 <= q < n ==> r[q] <= 5 * i,
        decreases votes.len() - i,
    {
        let k = slots[i];
        let v = votes[i].rating;
        if k < n && 0 <= v && v <= 5 {
            let old_v = r[k];
            r.set(k, old_v + v as u64);
        }
        proof {
            assert forall|q: int| 0 <= q < n implies r[q] == star_sum(opts@, votes@, q, i + 1) by {
                assert(star_sum(opts@, votes@, q, i + 1) == star_sum(opts@, votes@, q, i as int) + if slot(
                    opts@,
                    votes@,
                    i as int,
                ) == q {
                    star_value(votes@[i as int].rating)
                } else {
                    0
                });
            }
        }
        i = i + 1;
    }
    assert(r@ =~= star_scores(opts@, votes@));
    r
}

fn push_star_lines(s: &mut String, lines: &Vec<VoteCount>)
    ensures
        final(s)@ == old(s)@ + star_lines(lines@),
{
    let mut m: usize = 0;
    while m < lines.len()
        invariant
            m <= lines.len(),
            s@ == old(s)@ + star_lines(lines@.take(m as int)),
        decreases lines.len() - m,
    {
        let ghost before = s@;
        let c = &lines[m];
        push_str(s, c.option_text.as_str());
        push_str(s, ": ");
        push_decimal(s, c.score as u128);
        push_str(s, " total stars\n");
        proof {
            assert(lines@.take(m + 1).drop_last() =~= lines@.take(m as int));
            assert(s@ =~= before + star_line(lines@[m as int]));
        }
        m = m + 1;
    }
    assert(lines@.take(lines.len() as int) =~= lines@);
}

fn push_runoff_text(s: &mut String, a: &String, b: &String, t: RunoffTally)
    ensures
        final(s)@ == old(s)@ + runoff_text(a@, b@, t),
{
    push_str(s, "Runoff: ");
    push_str(s, a.as_str());
    push_str(s, " vs ");
    push_str(s, b.as_str());
    push_str(s, "\n");
    push_str(s, a.as_str());
    push_str(s, ": ");
    push_decimal(s, t.first as u128);
    push_str(s, " preferred\n");
    push_str(s, b.as_str());
    push_str(s, ": ");
    push_decimal(s, t.second as u128);
    push_str(s, " preferred\n");
    push_str(s, "No preference: ");
    push_decimal(s, t.no_preference as u128);
    push_str(s, "\n");
    assert(s@ =~= old(s)@ + runoff_text(a@, b@, t));
}

fn summary_of(lines: &Vec<VoteCount>, voters: u64, middle: &String) -> (r: String)
    ensures
        r@ == star_summary(lines@, voters as nat, middle@),
{
    let mut s = String::new();
    if voters == 0 {
        push_str(&mut s, "No votes were cast in this poll.");
    } else {
        push_str(&mut s, "Scoring phase:\n");
        push_star_lines(&mut s, lines);
        push_str(&mut s, middle.as_str());
        push_str(&mut s, "Total voters: ");
        push_decimal(&mut s, voters as u128);
    }
    assert(s@ =~= star_summary(lines@, voters as nat, middle@));
    s
}

/// STAR tally. Each option's score is the sum of the stars (0 to 5) it got;
/// an entry outside 0..=5 gives none. Options are listed by score, ties
/// going to the lexicographically smaller identity. When two or more
/// options hold stars, the first two meet in a runoff: each voter counts
/// for the finalist given strictly more stars, voters who gave both the same
/// are reported as having no preference, and a tied runoff goes to the
/// higher scored finalist.
pub fn calculate_results(poll: &Poll, votes: &[Vote]) -> (r: PollResults)
    requires
        entries_unique(votes@),
        votes@.len() <= MAX_BALLOTS,
    ensures
        exists|order: Seq<usize>| star_outcome(poll.options@, votes@, order, r),
{
    let opts = &poll.options;
    let n = opts.len();
    let slots = entry_slots(opts, votes);
    let scores = star_totals(opts, votes, &slots);
    let voters = count_voters(opts, votes, &slots);
    let mut incl: Vec<bool> = Vec::new();
    let mut k: usize = 0;
    while k < n
        invariant
            n == opts.len(),
            k <= n,
            incl.len() == k,
            forall|q: int| 0 <= q < k ==> incl@[q],
        decreases n - k,
    {
        incl.push(true);
        k = k + 1;
    }
    assert(incl@ =~= all_options(n as int));
    let order = list_options(opts, &scores, &incl);
    let lines = build_lines(opts, &scores, &order);
    if order.len() >= 2 && scores[order[1]] > 0 {
        let a = order[0];
        let b = order[1];
        let t = runoff_with(opts, votes, &slots, a, b);
        let mut middle = String::new();
        push_runoff_text(&mut middle, &opts[a].text, &opts[b].text, t);
        let summary = summary_of(&lines, voters, &middle);
        let w = if t.first >= t.second { a } else { b };
        let r = PollResults {
            winner: opts[w].text.clone(),
            summary,
            winner_id: opts[w].id.clone(),
            raw_results: lines,
        };
        assert(star_outcome(opts@, votes@, order@, r));
        r
    } else if voters > 0 && order.len() >= 1 {
        let w = order[0];
        let middle = if scores[w] > 0 {
            String::from_str("Fewer than two options received stars: no runoff.\n")
        } else {
            String::from_str("No option received stars: no runoff.\n")
        };
        let summary = summary_of(&lines, voters, &middle);
        let r = PollResults {
            winner: opts[w].text.clone(),
            summary,
            winner_id: opts[w].id.clone(),
            raw_results: lines,
        };
        assert(star_outcome(opts@, votes@, order@, r));
        r
    } else {
        let middle = String::from_str("No option received stars.\n");
        let summary = summary_of(&lines, voters, &middle);
        let winner = if voters == 0 {
            String::from_str("No votes were cast")
        } else {
            String::from_str("No winner")
        };
        let r = PollResults { winner, summary, winner_id: String::new(), raw_results: lines };
        assert(star_outcome(opts@, votes@, order@, r));
        r
    }
}

} // verus!
