//! What the four tally methods share: ballot normalisation, the order in
//! which options are listed, and the result types.
use vstd::prelude::*;
use vstd::string::*;
use crate::models::{PollOption, Vote};
use crate::text::{
    decimal, lex_lt, str_less, tenths, lemma_lex_irreflexive, lemma_lex_total, lemma_lex_transitive,
    push_decimal, push_str, push_tenths,
};

pub mod approval;
pub mod plurality;
pub mod ranked;
pub mod star;

verus! {

/// One line of a result: an option, its score under the method, and its
/// 1-based place in the listing.
#[derive(Debug, Clone)]
pub struct VoteCount {
    pub option_id: String,
    pub option_text: String,
    pub score: u64,
    pub rank: usize,
}

/// The outcome of a tally. `winner_id` is empty when there is no winner.
#[derive(Debug, Clone)]
pub struct PollResults {
    pub winner: String,
    pub summary: String,
    pub winner_id: String,
    pub raw_results: Vec<VoteCount>,
}

/// Number of `i` in `0..n` for which `f(i)` holds.
pub open spec fn count_upto(n: int, f: spec_fn(int) -> bool) -> nat
    decreases n,
{
    if n <= 0 {
        0
    } else {
        count_upto(n - 1, f) + if f(n - 1) { 1nat } else { 0nat }
    }
}

pub proof fn lemma_count_le(n: int, f: spec_fn(int) -> bool)
    requires
        n >= 0,
    ensures
        count_upto(n, f) <= n,
    decreases n,
{
    if n > 0 {
        lemma_count_le(n - 1, f);
    }
}

pub proof fn lemma_count_ext(n: int, f: spec_fn(int) -> bool, g: spec_fn(int) -> bool)
    requires
        forall|i: int| 0 <= i < n ==> #[trigger] f(i) == g(i),
    ensures
        count_upto(n, f) == count_upto(n, g),
    decreases n,
{
    if n > 0 {
        lemma_count_ext(n - 1, f, g);
    }
}

/// No two entries share a (voter, option) pair: the store keeps one live
/// entry per voter and option of a poll.
pub open spec fn entries_unique(votes: Seq<Vote>) -> bool {
    forall|i: int, j: int|
        0 <= i < j < votes.len() ==> !(votes[i].user_id@ == votes[j].user_id@
            && votes[i].option_id@ == votes[j].option_id@)
}

pub proof fn lemma_unique_entry(votes: Seq<Vote>, a: int, b: int)
    requires
        entries_unique(votes),
        0 <= a < votes.len(),
        0 <= b < votes.len(),
        a != b,
    ensures
        !(votes[a].user_id@ == votes[b].user_id@ && votes[a].option_id@ == votes[b].option_id@),
{
    if a > b {
        assert(!(votes[b].user_id@ == votes[a].user_id@ && votes[b].option_id@ == votes[a].option_id@));
    }
}

/// `k` is the first position of an option with identity `id`.
pub open spec fn is_first_option(opts: Seq<PollOption>, id: Seq<char>, k: int) -> bool {
    &&& 0 <= k < opts.len()
    &&& opts[k].id@ == id
    &&& forall|j: int| 0 <= j < k ==> opts[j].id@ != id
}

/// The position of the option that a ballot entry names: the first option
/// with that identity, or `opts.len()` when there is none.
pub open spec fn option_slot(opts: Seq<PollOption>, id: Seq<char>) -> int {
    if exists|k: int| is_first_option(opts, id, k) {
        choose|k: int| is_first_option(opts, id, k)
    } else {
        opts.len() as int
    }
}

/// The option slot of entry `i`.
pub open spec fn slot(opts: Seq<PollOption>, votes: Seq<Vote>, i: int) -> int {
    option_slot(opts, votes[i].option_id@)
}

/// Entry `i` names an option of the poll.
pub open spec fn valid(opts: Seq<PollOption>, votes: Seq<Vote>, i: int) -> bool {
    slot(opts, votes, i) < opts.len()
}

/// Entry `i` is the first valid entry of its voter.
pub open spec fn first_of_voter(opts: Seq<PollOption>, votes: Seq<Vote>, i: int) -> bool {
    &&& valid(opts, votes, i)
    &&& forall|j: int|
        0 <= j < i && valid(opts, votes, j) ==> votes[j].user_id@ != votes[i].user_id@
}

/// Number of distinct voters with at least one entry naming an option of the poll.
pub open spec fn voter_count(opts: Seq<PollOption>, votes: Seq<Vote>) -> nat {
    count_upto(votes.len() as int, |i: int| first_of_voter(opts, votes, i))
}

/// A share in tenths of a percent, rounded half up; 0 when there are no voters.
pub open spec fn percent_tenths(count: nat, voters: nat) -> nat {
    if voters == 0 {
        0
    } else {
        ((count * 1000 + voters / 2) / voters) as nat
    }
}

/// Option `a` is listed before option `b`: higher score first, then the
/// lexicographically smaller identity, then the earlier position.
pub open spec fn precedes(opts: Seq<PollOption>, scores: Seq<u64>, a: int, b: int) -> bool {
    ||| scores[a] > scores[b]
    ||| (scores[a] == scores[b] && lex_lt(opts[a].id@, opts[b].id@))
    ||| (scores[a] == scores[b] && opts[a].id@ == opts[b].id@ && a < b)
}

/// `order` lists exactly the included options, each once, in `precedes` order.
pub open spec fn is_listing(
    opts: Seq<PollOption>,
    scores: Seq<u64>,
    incl: Seq<bool>,
    order: Seq<usize>,
) -> bool {
    &&& forall|m: int| 0 <= m < order.len() ==> order[m] < opts.len() && incl[order[m] as int]
    &&& forall|k: int| 0 <= k < opts.len() && incl[k] ==> exists|m: int| 0 <= m < order.len() && order[m] == k
    &&& forall|m1: int, m2: int|
        0 <= m1 < m2 < order.len() ==> precedes(opts, scores, order[m1] as int, order[m2] as int)
}

/// `s` with `x` inserted before the first element that `x` precedes.
pub open spec fn insert_listed(opts: Seq<PollOption>, scores: Seq<u64>, s: Seq<usize>, x: usize) -> Seq<usize>
    decreases s.len(),
{
    if s.len() == 0 {
        seq![x]
    } else if precedes(opts, scores, x as int, s[0] as int) {
        seq![x] + s
    } else {
        seq![s[0]] + insert_listed(opts, scores, s.drop_first(), x)
    }
}

/// The included options among the first `k`, in `precedes` order.
pub open spec fn listing(opts: Seq<PollOption>, scores: Seq<u64>, incl: Seq<bool>, k: int) -> Seq<usize>
    decreases k,
{
    if k <= 0 {
        Seq::empty()
    } else if incl[k - 1] {
        insert_listed(opts, scores, listing(opts, scores, incl, k - 1), (k - 1) as usize)
    } else {
        listing(opts, scores, incl, k - 1)
    }
}

proof fn lemma_insert_members(opts: Seq<PollOption>, scores: Seq<u64>, s: Seq<usize>, x: usize)
    ensures
        forall|m: int|
            0 <= m < insert_listed(opts, scores, s, x).len() ==> #[trigger] insert_listed(opts, scores, s, x)[m] == x
                || exists|q: int| 0 <= q < s.len() && s[q] == insert_listed(opts, scores, s, x)[m],
        insert_listed(opts, scores, s, x).len() == s.len() + 1,
    decreases s.len(),
{
    if s.len() > 0 && !precedes(opts, scores, x as int, s[0] as int) {
        let t = s.drop_first();
        lemma_insert_members(opts, scores, t, x);
        let r = insert_listed(opts, scores, s, x);
        assert forall|m: int| 0 <= m < r.len() implies #[trigger] r[m] == x || exists|q: int| 0 <= q < s.len() && s[q] == r[m] by {
            if m == 0 {
                assert(s[0] == r[m]);
            } else {
                let r2 = insert_listed(opts, scores, t, x);
                assert(r[m] == r2[m - 1]);
                if r2[m - 1] != x {
                    let q = choose|q: int| 0 <= q < t.len() && t[q] == r2[m - 1];
                    assert(s[q + 1] == r[m]);
                }
            }
        }
    } else if s.len() > 0 {
        let r = insert_listed(opts, scores, s, x);
        assert forall|m: int| 0 <= m < r.len() implies #[trigger] r[m] == x || exists|q: int| 0 <= q < s.len() && s[q] == r[m] by {
            if m > 0 {
                assert(s[m - 1] == r[m]);
            }
        }
    }
}

/// Every option a listing holds is among the first `k` and included.
pub proof fn lemma_listing_members(opts: Seq<PollOption>, scores: Seq<u64>, incl: Seq<bool>, k: int)
    requires
        0 <= k <= incl.len(),
        k <= usize::MAX + 1,
    ensures
        forall|m: int|
            0 <= m < listing(opts, scores, incl, k).len() ==> #[trigger] listing(opts, scores, incl, k)[m] < k
                && incl[listing(opts, scores, incl, k)[m] as int],
    decreases k,
{
    if k > 0 {
        lemma_listing_members(opts, scores, incl, k - 1);
        let p = listing(opts, scores, incl, k - 1);
        if incl[k - 1] {
            lemma_insert_members(opts, scores, p, (k - 1) as usize);
            let r = listing(opts, scores, incl, k);
            assert forall|m: int| 0 <= m < r.len() implies #[trigger] r[m] < k && incl[r[m] as int] by {
                if r[m] != (k - 1) as usize {
                    let q = choose|q: int| 0 <= q < p.len() && p[q] == r[m];
                    assert(p[q] < k - 1);
                }
            }
        }
    }
}

proof fn lemma_insert_at(opts: Seq<PollOption>, scores: Seq<u64>, s: Seq<usize>, x: usize, pos: int)
    requires
        0 <= pos <= s.len(),
        forall|m: int| 0 <= m < pos ==> !precedes(opts, scores, x as int, s[m] as int),
        pos < s.len() ==> precedes(opts, scores, x as int, s[pos] as int),
    ensures
        insert_listed(opts, scores, s, x) == s.insert(pos, x),
    decreases s.len(),
{
    if s.len() == 0 {
        assert(s.insert(pos, x) =~= seq![x]);
    } else if pos == 0 {
        assert(s.insert(pos, x) =~= seq![x] + s);
    } else {
        let t = s.drop_first();
        assert forall|m: int| 0 <= m < pos - 1 implies !precedes(opts, scores, x as int, t[m] as int) by {
            assert(t[m] == s[m + 1]);
        }
        lemma_insert_at(opts, scores, t, x, pos - 1);
        assert(s.insert(pos, x) =~= seq![s[0]] + t.insert(pos - 1, x));
    }
}

/// The result lines for a listing: option `order[m]` with its score, at place `m + 1`.
pub open spec fn lines_match(
    opts: Seq<PollOption>,
    scores: Seq<u64>,
    order: Seq<usize>,
    lines: Seq<VoteCount>,
) -> bool {
    &&& lines.len() == order.len()
    &&& forall|m: int|
        0 <= m < lines.len() ==> {
            &&& lines[m].option_id@ == opts[order[m] as int].id@
            &&& lines[m].option_text@ == opts[order[m] as int].text@
            &&& lines[m].score == scores[order[m] as int]
            &&& lines[m].rank == m + 1
        }
}

/// The result lines list the included options by `precedes`, with their scores.
pub open spec fn ranked_lines(
    opts: Seq<PollOption>,
    scores: Seq<u64>,
    incl: Seq<bool>,
    lines: Seq<VoteCount>,
) -> bool {
    exists|order: Seq<usize>|
        is_listing(opts, scores, incl, order) && lines_match(opts, scores, order, lines)
}

proof fn lemma_precedes_order(opts: Seq<PollOption>, scores: Seq<u64>, a: int, b: int, c: int)
    requires
        0 <= a < opts.len(),
        0 <= b < opts.len(),
        0 <= c < opts.len(),
        scores.len() == opts.len(),
    ensures
        !precedes(opts, scores, a, a),
        a != b ==> (precedes(opts, scores, a, b) || precedes(opts, scores, b, a)),
        !(precedes(opts, scores, a, b) && precedes(opts, scores, b, a)),
        precedes(opts, scores, a, b) && precedes(opts, scores, b, c) ==> precedes(opts, scores, a, c),
{
    lemma_lex_irreflexive(opts[a].id@);
    lemma_lex_total(opts[a].id@, opts[b].id@);
    lemma_lex_total(opts[b].id@, opts[c].id@);
    lemma_lex_total(opts[a].id@, opts[c].id@);
    if lex_lt(opts[a].id@, opts[b].id@) && lex_lt(opts[b].id@, opts[c].id@) {
        lemma_lex_transitive(opts[a].id@, opts[b].id@, opts[c].id@);
    }
}

/// Whether option `a` is listed before option `b`.
pub fn option_precedes(opts: &Vec<PollOption>, scores: &Vec<u64>, a: usize, b: usize) -> (r: bool)
    requires
        a < opts.len(),
        b < opts.len(),
        scores.len() == opts.len(),
    ensures
        r == precedes(opts@, scores@, a as int, b as int),
{
    if scores[a] != scores[b] {
        return scores[a] > scores[b];
    }
    let ida = opts[a].id.as_str();
    let idb = opts[b].id.as_str();
    if str_less(ida, idb) {
        return true;
    }
    if str_less(idb, ida) {
        proof {
            lemma_lex_total(opts@[a as int].id@, opts@[b as int].id@);
        }
        return false;
    }
    proof {
        lemma_lex_total(opts@[a as int].id@, opts@[b as int].id@);
    }
    a < b
}

/// Lists the included options by `precedes`.
pub fn list_options(opts: &Vec<PollOption>, scores: &Vec<u64>, incl: &Vec<bool>) -> (r: Vec<usize>)
    requires
        scores.len() == opts.len(),
        incl.len() == opts.len(),
    ensures
        is_listing(opts@, scores@, incl@, r@),
        r@ == listing(opts@, scores@, incl@, opts.len() as int),
{
    let n = opts.len();
    let mut order: Vec<usize> = Vec::new();
    let mut k: usize = 0;
    while k < n
        invariant
            n == opts.len(),
            scores.len() == n,
            incl.len() == n,
            k <= n,
            forall|m: int| 0 <= m < order.len() ==> order[m] < k && incl@[order[m] as int],
            forall|q: int| 0 <= q < k && incl@[q] ==> exists|m: int| 0 <= m < order.len() && order[m] == q,
            forall|m1: int, m2: int|
                0 <= m1 < m2 < order.len() ==> precedes(opts@, scores@, order[m1] as int, order[m2] as int),
            order@ == listing(opts@, scores@, incl@, k as int),
        decreases n - k,
    {
        if incl[k] {
            let mut pos: usize = 0;
            while pos < order.len() && !option_precedes(opts, scores, k, order[pos])
                invariant
                    n == opts.len(),
                    scores.len() == n,
                    k < n,
                    pos <= order.len(),
                    forall|m: int| 0 <= m < order.len() ==> order[m] < k,
                    forall|m: int| 0 <= m < pos ==> precedes(opts@, scores@, order[m] as int, k as int),
                    forall|m: int| 0 <= m < pos ==> !precedes(opts@, scores@, k as int, order[m] as int),
                decreases order.len() - pos,
            {
                proof {
                    lemma_precedes_order(opts@, scores@, k as int, order[pos as int] as int, 0);
                }
                pos = pos + 1;
            }
            let ghost old_order = order@;
            proof {
                assert forall|m: int| pos <= m < old_order.len() implies precedes(
                    opts@,
                    scores@,
                    k as int,
                    old_order[m] as int,
                ) by {
                    if m > pos {
                        lemma_precedes_order(opts@, scores@, k as int, old_order[pos as int] as int, old_order[m] as int);
                    }
                }
            }
            proof {
                lemma_insert_at(opts@, scores@, old_order, k, pos as int);
            }
            order.insert(pos, k);
            proof {
                assert forall|q: int| 0 <= q < k + 1 && incl@[q] implies exists|m: int|
                    0 <= m < order.len() && order[m] == q by {
                    if q == k {
                        assert(order[pos as int] == q);
                    } else {
                        let m0 = choose|m: int| 0 <= m < old_order.len() && old_order[m] == q;
                        if m0 < pos {
                            assert(order[m0] == q);
                        } else {
                            assert(order[m0 + 1] == q);
                        }
                    }
                }
                assert forall|m1: int, m2: int| 0 <= m1 < m2 < order.len() implies precedes(
                    opts@,
                    scores@,
                    order[m1] as int,
                    order[m2] as int,
                ) by {
                    if m1 < pos && m2 > pos {
                        lemma_precedes_order(opts@, scores@, order[m1] as int, k as int, order[m2] as int);
                    }
                }
            }
        }
        k = k + 1;
    }
    order
}

/// The result lines for a listing.
pub fn build_lines(opts: &Vec<PollOption>, scores: &Vec<u64>, order: &Vec<usize>) -> (r: Vec<VoteCount>)
    requires
        scores.len() == opts.len(),
        forall|m: int| 0 <= m < order.len() ==> order[m] < opts.len(),
    ensures
        lines_match(opts@, scores@, order@, r@),
{
    let mut lines: Vec<VoteCount> = Vec::new();
    let mut m: usize = 0;
    while m < order.len()
        invariant
            scores.len() == opts.len(),
            forall|q: int| 0 <= q < order.len() ==> order[q] < opts.len(),
            m <= order.len(),
            lines.len() == m,
            forall|q: int|
                0 <= q < m ==> {
                    &&& lines[q].option_id@ == opts@[order[q] as int].id@
                    &&& lines[q].option_text@ == opts@[order[q] as int].text@
                    &&& lines[q].score == scores@[order[q] as int]
                    &&& lines[q].rank == q + 1
                },
        decreases order.len() - m,
    {
        let k = order[m];
        lines.push(
            VoteCount {
                option_id: opts[k].id.clone(),
                option_text: opts[k].text.clone(),
                score: scores[k],
                rank: m + 1,
            },
        );
        m = m + 1;
    }
    lines
}

/// The position of the first option with identity `id`, or `opts.len()`.
pub fn find_option(opts: &Vec<PollOption>, id: &String) -> (r: usize)
    ensures
        r == option_slot(opts@, id@),
{
    let mut k: usize = 0;
    while k < opts.len()
        invariant
            k <= opts.len(),
            forall|j: int| 0 <= j < k ==> opts@[j].id@ != id@,
        decreases opts.len() - k,
    {
        if opts[k].id == *id {
            proof {
                assert(is_first_option(opts@, id@, k as int));
                let c = choose|c: int| is_first_option(opts@, id@, c);
                assert(c == k as int);
            }
            return k;
        }
        k = k + 1;
    }
    proof {
        assert(!exists|c: int| is_first_option(opts@, id@, c));
    }
    k
}

/// The option slot of every entry.
pub fn entry_slots(opts: &Vec<PollOption>, votes: &[Vote]) -> (r: Vec<usize>)
    ensures
        r.len() == votes.len(),
        forall|i: int| 0 <= i < votes.len() ==> r[i] == slot(opts@, votes@, i),
        forall|i: int| 0 <= i < votes.len() ==> r[i] <= opts.len(),
{
    let mut r: Vec<usize> = Vec::new();
    let mut i: usize = 0;
    while i < votes.len()
        invariant
            i <= votes.len(),
            r.len() == i,
            forall|q: int| 0 <= q < i ==> r[q] == slot(opts@, votes@, q),
            forall|q: int| 0 <= q < i ==> r[q] <= opts.len(),
        decreases votes.len() - i,
    {
        let s = find_option(opts, &votes[i].option_id);
        proof {
            if exists|c: int| is_first_option(opts@, votes@[i as int].option_id@, c) {
                let c = choose|c: int| is_first_option(opts@, votes@[i as int].option_id@, c);
                assert(is_first_option(opts@, votes@[i as int].option_id@, c));
            }
        }
        r.push(s);
        i = i + 1;
    }
    r
}

/// Number of entries among the first `n` that are marked and have slot `k`.
pub open spec fn marked_count(marks: Seq<bool>, slots: Seq<usize>, k: int, n: int) -> nat {
    count_upto(n, |i: int| marks[i] && slots[i] == k)
}

/// For each option `k`, the number of marked entries whose slot is `k`.
pub fn tally_marked(slots: &Vec<usize>, marks: &Vec<bool>, n_opts: usize) -> (r: Vec<u64>)
    requires
        marks.len() == slots.len(),
    ensures
        r.len() == n_opts,
        forall|k: int|
            0 <= k < n_opts ==> r[k] == marked_count(marks@, slots@, k, slots.len() as int),
{
    let mut r: Vec<u64> = Vec::new();
    let mut k: usize = 0;
    while k < n_opts
        invariant
            k <= n_opts,
            r.len() == k,
            forall|q: int| 0 <= q < k ==> r[q] == 0,
        decreases n_opts - k,
    {
        r.push(0);
        k = k + 1;
    }
    let mut i: usize = 0;
    while i < slots.len()
        invariant
            marks.len() == slots.len(),
            i <= slots.len(),
            r.len() == n_opts,
            forall|q: int| 0 <= q < n_opts ==> r[q] == marked_count(marks@, slots@, q, i as int),
            forall|q: int| 0 <= q < n_opts ==> r[q] <= i,
        decreases slots.len() - i,
    {
        proof {
            assert forall|q: int| 0 <= q < n_opts implies #[trigger] marked_count(
                marks@,
                slots@,
                q,
                i + 1,
            ) == marked_count(marks@, slots@, q, i as int) + if marks@[i as int] && slots@[i as int]
                == q {
                1nat
            } else {
                0nat
            } by {}
        }
        if marks[i] && slots[i] < n_opts {
            let k = slots[i];
            let v = r[k];
            r.set(k, v + 1);
        }
        i = i + 1;
    }
    r
}

/// Whether entry `i` is the first valid entry of its voter.
fn is_first_of_voter(votes: &[Vote], slots: &Vec<usize>, n_opts: usize, i: usize) -> (r: bool)
    requires
        slots.len() == votes.len(),
        i < votes.len(),
    ensures
        r == (slots@[i as int] < n_opts && forall|j: int|
            0 <= j < i && slots@[j] < n_opts ==> votes@[j].user_id@ != votes@[i as int].user_id@),
{
    if slots[i] >= n_opts {
        return false;
    }
    let mut j: usize = 0;
    while j < i
        invariant
            slots.len() == votes.len(),
            i < votes.len(),
            j <= i,
            forall|q: int| 0 <= q < j && slots@[q] < n_opts ==> votes@[q].user_id@ != votes@[i as int].user_id@,
        decreases i - j,
    {
        if slots[j] < n_opts && votes[j].user_id == votes[i].user_id {
            return false;
        }
        j = j + 1;
    }
    true
}

/// Whether entry `i` is the first valid entry of its voter.
pub fn first_entry_of_voter(opts: &Vec<PollOption>, votes: &[Vote], slots: &Vec<usize>, i: usize) -> (r: bool)
    requires
        i < votes.len(),
        slots.len() == votes.len(),
        forall|q: int| 0 <= q < votes.len() ==> slots[q] == slot(opts@, votes@, q),
    ensures
        r == first_of_voter(opts@, votes@, i as int),
{
    let first = is_first_of_voter(votes, slots, opts.len(), i);
    proof {
        if first {
            assert forall|j: int| 0 <= j < i && valid(opts@, votes@, j) implies votes@[j].user_id@
                != votes@[i as int].user_id@ by {
                assert(slots@[j] < opts.len());
            }
            assert(first_of_voter(opts@, votes@, i as int));
        } else if valid(opts@, votes@, i as int) {
            let j = choose|j: int|
                0 <= j < i && slots@[j] < opts.len() && votes@[j].user_id@ == votes@[i as int].user_id@;
            assert(valid(opts@, votes@, j));
        }
    }
    first
}

/// The number of distinct voters with an entry naming an option of the poll.
pub fn count_voters(opts: &Vec<PollOption>, votes: &[Vote], slots: &Vec<usize>) -> (r: u64)
    requires
        slots.len() == votes.len(),
        forall|i: int| 0 <= i < votes.len() ==> slots[i] == slot(opts@, votes@, i),
    ensures
        r == voter_count(opts@, votes@),
{
    let mut c: u64 = 0;
    let mut i: usize = 0;
    while i < votes.len()
        invariant
            slots.len() == votes.len(),
            forall|q: int| 0 <= q < votes.len() ==> slots[q] == slot(opts@, votes@, q),
            i <= votes.len(),
            c == count_upto(i as int, |q: int| first_of_voter(opts@, votes@, q)),
            c <= i,
        decreases votes.len() - i,
    {
        let first = first_entry_of_voter(opts, votes, slots, i);
        if first {
            c = c + 1;
        }
        i = i + 1;
    }
    c
}

/// One summary line: `text: score unit (pp.p%)`.
pub open spec fn score_line(text: Seq<char>, score: nat, voters: nat, unit: Seq<char>) -> Seq<char> {
    text + ": "@ + decimal(score) + unit + " ("@ + tenths(percent_tenths(score, voters)) + "%)\n"@
}

/// The summary line of a result line.
pub open spec fn count_line(c: VoteCount, voters: nat, unit: Seq<char>) -> Seq<char> {
    score_line(c.option_text@, c.score as nat, voters, unit)
}

/// The summary lines of the options of a listing, in order.
pub open spec fn listing_text(
    opts: Seq<PollOption>,
    scores: Seq<u64>,
    order: Seq<usize>,
    voters: nat,
    unit: Seq<char>,
) -> Seq<char>
    decreases order.len(),
{
    if order.len() == 0 {
        Seq::empty()
    } else {
        listing_text(opts, scores, order.drop_last(), voters, unit) + score_line(
            opts[order.last() as int].text@,
            scores[order.last() as int] as nat,
            voters,
            unit,
        )
    }
}

pub proof fn lemma_listing_text(
    opts: Seq<PollOption>,
    scores: Seq<u64>,
    order: Seq<usize>,
    lines: Seq<VoteCount>,
    voters: nat,
    unit: Seq<char>,
)
    requires
        lines_match(opts, scores, order, lines),
    ensures
        count_lines(lines, voters, unit) == listing_text(opts, scores, order, voters, unit),
    decreases order.len(),
{
    if order.len() > 0 {
        let o2 = order.drop_last();
        let l2 = lines.drop_last();
        assert(lines_match(opts, scores, o2, l2));
        lemma_listing_text(opts, scores, o2, l2, voters, unit);
    }
}

/// The summary lines of all result lines, in order.
pub open spec fn count_lines(lines: Seq<VoteCount>, voters: nat, unit: Seq<char>) -> Seq<char>
    decreases lines.len(),
{
    if lines.len() == 0 {
        Seq::empty()
    } else {
        count_lines(lines.drop_last(), voters, unit) + count_line(lines.last(), voters, unit)
    }
}

/// Appends the summary lines of `lines`.
pub fn push_count_lines(s: &mut String, lines: &Vec<VoteCount>, voters: u64, unit: &str)
    ensures
        final(s)@ == old(s)@ + count_lines(lines@, voters as nat, unit@),
{
    let mut m: usize = 0;
    while m < lines.len()
        invariant
            m <= lines.len(),
            s@ == old(s)@ + count_lines(lines@.take(m as int), voters as nat, unit@),
        decreases lines.len() - m,
    {
        let ghost before = s@;
        let c = &lines[m];
        push_str(s, c.option_text.as_str());
        push_str(s, ": ");
        push_decimal(s, c.score as u128);
        push_str(s, unit);
        push_str(s, " (");
        push_tenths(s, percentage_tenths(c.score, voters));
        push_str(s, "%)\n");
        proof {
            assert(lines@.take(m + 1).drop_last() =~= lines@.take(m as int));
            assert(s@ =~= before + count_line(lines@[m as int], voters as nat, unit@));
        }
        m = m + 1;
    }
    assert(lines@.take(lines.len() as int) =~= lines@);
}

/// Every option of a poll with `n` options.
pub open spec fn all_options(n: int) -> Seq<bool> {
    Seq::new(n as nat, |k: int| true)
}

/// A count-based tally has a winner once anyone voted: the first listed
/// option, whatever its count.
pub open spec fn has_winner(lines: Seq<VoteCount>, voters: nat) -> bool {
    voters > 0 && lines.len() > 0
}

/// The summary of a count-based tally (plurality, approval).
pub open spec fn count_summary(lines: Seq<VoteCount>, voters: nat, unit: Seq<char>) -> Seq<char> {
    if voters == 0 {
        "No votes were cast in this poll."@
    } else {
        count_lines(lines, voters, unit) + "\n"@ + decimal(voters) + " voters participated."@
    }
}

/// The result of a count-based tally: every option listed by `precedes`,
/// the first one winning once anyone voted, and the summary.
pub open spec fn count_result(
    opts: Seq<PollOption>,
    scores: Seq<u64>,
    voters: nat,
    unit: Seq<char>,
    r: PollResults,
) -> bool {
    &&& ranked_lines(opts, scores, all_options(opts.len() as int), r.raw_results@)
    &&& has_winner(r.raw_results@, voters) ==> {
        &&& r.winner_id@ == r.raw_results@[0].option_id@
        &&& r.winner@ == r.raw_results@[0].option_text@
    }
    &&& !has_winner(r.raw_results@, voters) ==> {
        &&& r.winner_id@ == Seq::<char>::empty()
        &&& r.winner@ == if voters == 0 {
            "No votes were cast"@
        } else {
            "No winner"@
        }
    }
    &&& r.summary@ == count_summary(r.raw_results@, voters, unit)
}

/// Builds the result of a count-based tally from the per-option counts.
pub fn count_results(opts: &Vec<PollOption>, scores: &Vec<u64>, voters: u64, unit: &str) -> (r: PollResults)
    requires
        scores.len() == opts.len(),
    ensures
        count_result(opts@, scores@, voters as nat, unit@, r),
{
    let n = opts.len();
    let mut incl: Vec<bool> = Vec::new();
    let mut k: usize = 0;
    while k < n
        invariant
            k <= n,
            incl.len() == k,
            forall|q: int| 0 <= q < k ==> incl@[q],
        decreases n - k,
    {
        incl.push(true);
        k = k + 1;
    }
    assert(incl@ =~= all_options(n as int));
    let order = list_options(opts, scores, &incl);
    let lines = build_lines(opts, scores, &order);
    assert(is_listing(opts@, scores@, incl@, order@) && lines_match(opts@, scores@, order@, lines@));
    let mut summary = String::new();
    if voters == 0 {
        push_str(&mut summary, "No votes were cast in this poll.");
    } else {
        push_count_lines(&mut summary, &lines, voters, unit);
        push_str(&mut summary, "\n");
        push_decimal(&mut summary, voters as u128);
        push_str(&mut summary, " voters participated.");
    }
    assert(summary@ =~= count_summary(lines@, voters as nat, unit@));
    if voters > 0 && lines.len() > 0 {
        let winner = lines[0].option_text.clone();
        let winner_id = lines[0].option_id.clone();
        PollResults { winner, summary, winner_id, raw_results: lines }
    } else {
        let winner = if voters == 0 {
            String::from_str("No votes were cast")
        } else {
            String::from_str("No winner")
        };
        PollResults { winner, summary, winner_id: String::new(), raw_results: lines }
    }
}

/// Whether no two entries share a voter and an option.
pub fn ballots_are_unique(votes: &[Vote]) -> (r: bool)
    ensures
        r == entries_unique(votes@),
{
    let n = votes.len();
    let mut j: usize = 0;
    while j < n
        invariant
            n == votes.len(),
            j <= n,
            forall|a: int, b: int|
                0 <= a < b < j ==> !(votes@[a].user_id@ == votes@[b].user_id@
                    && votes@[a].option_id@ == votes@[b].option_id@),
        decreases n - j,
    {
        let mut i: usize = 0;
        while i < j
            invariant
                n == votes.len(),
                i <= j,
                j < n,
                forall|a: int| 0 <= a < i ==> !(votes@[a].user_id@ == votes@[j as int].user_id@
                    && votes@[a].option_id@ == votes@[j as int].option_id@),
            decreases j - i,
        {
            if votes[i].user_id == votes[j].user_id && votes[i].option_id == votes[j].option_id {
                return false;
            }
            i = i + 1;
        }
        j = j + 1;
    }
    true
}

/// The share `count / voters` in tenths of a percent, rounded half up; 0
/// when there are no voters.
pub fn percentage_tenths(count: u64, voters: u64) -> (r: u128)
    ensures
        r == percent_tenths(count as nat, voters as nat),
{
    if voters == 0 {
        return 0;
    }
    let num: u128 = (count as u128) * 1000 + (voters as u128) / 2;
    num / (voters as u128)
}

} // verus!
