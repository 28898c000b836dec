//! The ballot store and poll registry: polls by identity, and one live
//! rating per (poll, voter, option), replaced by newer writes.
use vstd::prelude::*;
use crate::models::{Poll, Vote, VotingMethod, same_poll};
use crate::text::str_eq;
use crate::models::PollOption;
use crate::voting::{entries_unique, option_slot, find_option};

verus! {

/// Why a store operation was refused.
#[derive(Debug, Clone, Copy, PartialEq, Eq, Structural)]
pub enum DbError {
    /// The poll, or the option within it, does not exist.
    NotFound,
    /// The poll has ended and takes no more ballots.
    PollClosed,
    /// The poll had already ended.
    AlreadyClosed,
    /// The rating lies outside the poll's voting method's range.
    InvalidRating,
    /// A poll with that identity already exists.
    DuplicateId,
    /// The poll does not have 2 to 10 options with distinct identities.
    InvalidOptions,
    /// The poll holds more ballot entries than a tally takes.
    TooManyBallots,
}

/// Polls and ballot entries. `wf` is the invariant every operation keeps;
/// the fields are open for reading, and change only through the methods.
pub struct Database {
    pub(crate) polls: Vec<Poll>,
    pub(crate) votes: Vec<Vote>,
}

/// No two polls share an identity.
pub open spec fn ids_unique(polls: Seq<Poll>) -> bool {
    forall|i: int, j: int| 0 <= i < j < polls.len() ==> polls[i].id@ != polls[j].id@
}

/// Option identities differ from each other.
pub open spec fn option_ids_unique(opts: Seq<PollOption>) -> bool {
    forall|i: int, j: int| 0 <= i < j < opts.len() ==> opts[i].id@ != opts[j].id@
}

/// A poll offers 2 to 10 options, each with its own identity.
pub open spec fn options_ok(opts: Seq<PollOption>) -> bool {
    2 <= opts.len() <= 10 && option_ids_unique(opts)
}

/// Every stored poll has well-formed options.
pub open spec fn polls_ok(polls: Seq<Poll>) -> bool {
    forall|i: int| 0 <= i < polls.len() ==> options_ok(#[trigger] polls[i].options@)
}

/// Every entry names a stored poll and one of that poll's options.
pub open spec fn ballots_placed(polls: Seq<Poll>, votes: Seq<Vote>) -> bool {
    forall|i: int|
        #![trigger votes[i]]
        0 <= i < votes.len() ==> {
            let p = poll_index(polls, votes[i].poll_id@);
            &&& 0 <= p
            &&& option_slot(polls[p].options@, votes[i].option_id@) < polls[p].options@.len()
        }
}

/// Two entries are for the same poll, voter and option.
pub open spec fn same_key(a: Vote, b: Vote) -> bool {
    a.poll_id@ == b.poll_id@ && a.user_id@ == b.user_id@ && a.option_id@ == b.option_id@
}

/// At most one entry per poll, voter and option.
pub open spec fn keys_unique(votes: Seq<Vote>) -> bool {
    forall|i: int, j: int| 0 <= i < j < votes.len() ==> !same_key(votes[i], votes[j])
}

/// The position of the poll with identity `id`, or -1.
pub open spec fn poll_index(polls: Seq<Poll>, id: Seq<char>) -> int {
    if exists|i: int| 0 <= i < polls.len() && polls[i].id@ == id {
        choose|i: int| 0 <= i < polls.len() && polls[i].id@ == id
    } else {
        -1
    }
}

/// A rating lies in the range of the voting method: 0 or 1 for plurality
/// and approval, 0 to 5 stars, and any rank from 0 (unranked) up.
pub open spec fn rating_in_range(m: VotingMethod, rating: i32) -> bool {
    match m {
        VotingMethod::Plurality => 0 <= rating <= 1,
        VotingMethod::Approval => 0 <= rating <= 1,
        VotingMethod::Star => 0 <= rating <= 5,
        VotingMethod::Ranked => 0 <= rating,
    }
}

/// The entries after writing `v`: a new key is appended; an existing entry
/// is replaced unless it was written later than `v` (last write wins by
/// timestamp).
pub open spec fn upserted(votes: Seq<Vote>, v: Vote) -> Seq<Vote> {
    if exists|j: int| 0 <= j < votes.len() && same_key(votes[j], v) {
        let j = choose|j: int| 0 <= j < votes.len() && same_key(votes[j], v);
        if votes[j].timestamp > v.timestamp {
            votes
        } else {
            votes.update(j, v)
        }
    } else {
        votes.push(v)
    }
}

/// What the entries say, without their write times: poll, voter, option
/// and rating of each.
pub open spec fn ballot_view(votes: Seq<Vote>) -> Seq<(Seq<char>, Seq<char>, Seq<char>, i32)> {
    Seq::new(
        votes.len(),
        |i: int| (votes[i].poll_id@, votes[i].user_id@, votes[i].option_id@, votes[i].rating),
    )
}

/// No entry for the key of `v` was written after `v`.
pub open spec fn is_latest(votes: Seq<Vote>, v: Vote) -> bool {
    forall|j: int| 0 <= j < votes.len() && same_key(votes[j], v) ==> votes[j].timestamp <= v.timestamp
}

/// A write replaces, never adds to, an earlier rating by the same voter for
/// the same option: afterwards the key of `v` has one entry, `v` itself;
/// the store grows only for a new key, and every other entry stays where
/// it was.
pub proof fn lemma_upsert_replaces(votes: Seq<Vote>, v: Vote)
    requires
        keys_unique(votes),
        is_latest(votes, v),
    ensures
        upserted(votes, v).len() == votes.len() + if exists|j: int| 0 <= j < votes.len() && same_key(votes[j], v) {
            0int
        } else {
            1int
        },
        exists|i: int| 0 <= i < upserted(votes, v).len() && upserted(votes, v)[i] == v,
        forall|i: int| 0 <= i < upserted(votes, v).len() && same_key(upserted(votes, v)[i], v) ==> upserted(votes, v)[i] == v,
        forall|i: int| 0 <= i < votes.len() && !same_key(votes[i], v) ==> upserted(votes, v)[i] == votes[i],
{
    let u = upserted(votes, v);
    if exists|j: int| 0 <= j < votes.len() && same_key(votes[j], v) {
        let j = choose|j: int| 0 <= j < votes.len() && same_key(votes[j], v);
        assert(u[j] == v);
        assert forall|i: int| 0 <= i < u.len() && same_key(u[i], v) implies u[i] == v by {
            if i != j {
                if i < j {
                    assert(!same_key(votes[i], votes[j]));
                } else {
                    assert(!same_key(votes[j], votes[i]));
                }
            }
        }
    } else {
        assert(u[votes.len() as int] == v);
    }
}

/// Submitting the same (voter, option, rating) a second time, no earlier
/// than the first, leaves the entries as the first submission left them,
/// write times aside.
pub proof fn lemma_resubmit_idempotent(votes: Seq<Vote>, v: Vote, w: Vote)
    requires
        keys_unique(votes),
        is_latest(votes, v),
        same_key(v, w),
        v.rating == w.rating,
        v.timestamp <= w.timestamp,
    ensures
        ballot_view(upserted(upserted(votes, v), w)) == ballot_view(upserted(votes, v)),
{
    let s1 = upserted(votes, v);
    lemma_upsert_replaces(votes, v);
    let i0 = choose|i: int| 0 <= i < s1.len() && s1[i] == v;
    assert(same_key(s1[i0], w));
    let j = choose|j: int| 0 <= j < s1.len() && same_key(s1[j], w);
    assert(same_key(s1[j], v));
    assert(s1[j] == v);
    let s2 = upserted(s1, w);
    assert(s2 == s1.update(j, w));
    assert(ballot_view(s2) =~= ballot_view(s1));
}

/// `b` holds the data of `a`, but perhaps for the message that shows it.
pub open spec fn same_but_message(a: Poll, b: Poll) -> bool {
    &&& b.id == a.id
    &&& b.guild_id == a.guild_id
    &&& b.channel_id == a.channel_id
    &&& b.creator_id == a.creator_id
    &&& b.question == a.question
    &&& b.options@ == a.options@
    &&& b.voting_method == a.voting_method
    &&& b.created_at == a.created_at
    &&& b.ends_at == a.ends_at
    &&& b.is_active == a.is_active
    &&& crate::models::roles_view(b.allowed_roles) == crate::models::roles_view(a.allowed_roles)
}

/// `b` is `a` ended.
pub open spec fn ended(a: Poll, b: Poll) -> bool {
    &&& b.id == a.id
    &&& b.guild_id == a.guild_id
    &&& b.channel_id == a.channel_id
    &&& b.creator_id == a.creator_id
    &&& b.question == a.question
    &&& b.options@ == a.options@
    &&& b.voting_method == a.voting_method
    &&& b.created_at == a.created_at
    &&& b.ends_at == a.ends_at
    &&& !b.is_active
    &&& b.message_id == a.message_id
    &&& crate::models::roles_view(b.allowed_roles) == crate::models::roles_view(a.allowed_roles)
}

/// What closing poll `id` answers: `NotFound` for no such poll,
/// `AlreadyClosed` for an ended one, success for an active one.
pub open spec fn close_result(polls: Seq<Poll>, id: Seq<char>) -> Result<(), DbError> {
    let i = poll_index(polls, id);
    if i < 0 {
        Err(DbError::NotFound)
    } else if !polls[i].is_active {
        Err(DbError::AlreadyClosed)
    } else {
        Ok(())
    }
}

/// `after` is `before` with poll `id` ended and every other poll as it was.
pub open spec fn closed_state(before: Seq<Poll>, after: Seq<Poll>, id: Seq<char>) -> bool {
    let i = poll_index(before, id);
    &&& 0 <= i < before.len()
    &&& after.len() == before.len()
    &&& ended(before[i], after[i])
    &&& forall|j: int| 0 <= j < before.len() && j != i ==> after[j] == before[j]
}

/// Two requests to close the same poll, one after the other: at most one
/// succeeds, and once one has, the other observes `AlreadyClosed`.
pub proof fn lemma_close_once(before: Seq<Poll>, after: Seq<Poll>, id: Seq<char>)
    requires
        ids_unique(before),
        close_result(before, id) is Ok,
        closed_state(before, after, id),
    ensures
        close_result(after, id) == Err::<(), DbError>(DbError::AlreadyClosed),
{
    let i = poll_index(before, id);
    assert(after[i].id@ == id);
    assert(ids_unique(after)) by {
        assert forall|a: int, b: int| 0 <= a < b < after.len() implies after[a].id@ != after[b].id@ by {
            assert(before[a].id@ != before[b].id@);
        }
    }
    lemma_poll_index_at(after, id, i);
}

/// The entries of poll `id`, in store order.
pub open spec fn votes_of(votes: Seq<Vote>, id: Seq<char>) -> Seq<Vote>
    decreases votes.len(),
{
    if votes.len() == 0 {
        Seq::empty()
    } else {
        let p = votes_of(votes.drop_last(), id);
        if votes.last().poll_id@ == id {
            p.push(votes.last())
        } else {
            p
        }
    }
}

/// The entries of voter `user` in poll `id`, in store order.
pub open spec fn user_votes_of(votes: Seq<Vote>, id: Seq<char>, user: Seq<char>) -> Seq<Vote>
    decreases votes.len(),
{
    if votes.len() == 0 {
        Seq::empty()
    } else {
        let p = user_votes_of(votes.drop_last(), id, user);
        if votes.last().poll_id@ == id && votes.last().user_id@ == user {
            p.push(votes.last())
        } else {
            p
        }
    }
}

pub proof fn lemma_poll_index_at(polls: Seq<Poll>, id: Seq<char>, i: int)
    requires
        ids_unique(polls),
        0 <= i < polls.len(),
        polls[i].id@ == id,
    ensures
        poll_index(polls, id) == i,
{
    let c = choose|c: int| 0 <= c < polls.len() && polls[c].id@ == id;
    if c < i {
        assert(polls[c].id@ != polls[i].id@);
    } else if c > i {
        assert(polls[i].id@ != polls[c].id@);
    }
}

pub proof fn lemma_upserted_unique(votes: Seq<Vote>, v: Vote)
    requires
        keys_unique(votes),
    ensures
        keys_unique(upserted(votes, v)),
{
    if exists|j: int| 0 <= j < votes.len() && same_key(votes[j], v) {
        let j = choose|j: int| 0 <= j < votes.len() && same_key(votes[j], v);
        let u = votes.update(j, v);
        assert forall|a: int, b: int| 0 <= a < b < u.len() implies !same_key(u[a], u[b]) by {
            if a == j {
                assert(!same_key(votes[j], votes[b]));
            } else if b == j {
                assert(!same_key(votes[a], votes[j]));
            }
        }
    } else {
        let u = votes.push(v);
        assert forall|a: int, b: int| 0 <= a < b < u.len() implies !same_key(u[a], u[b]) by {
            if b == votes.len() {
                assert(!same_key(votes[a], v));
            }
        }
    }
}

/// Every entry of `votes_of` is an entry of the store for that poll.
proof fn lemma_votes_of_members(votes: Seq<Vote>, id: Seq<char>)
    ensures
        forall|m: int|
            0 <= m < votes_of(votes, id).len() ==> exists|j: int|
                0 <= j < votes.len() && votes[j] == #[trigger] votes_of(votes, id)[m] && votes[j].poll_id@ == id,
        votes_of(votes, id).len() <= votes.len(),
    decreases votes.len(),
{
    if votes.len() > 0 {
        let s = votes.drop_last();
        lemma_votes_of_members(s, id);
        let p = votes_of(s, id);
        assert forall|m: int| 0 <= m < votes_of(votes, id).len() implies exists|j: int|
            0 <= j < votes.len() && votes[j] == #[trigger] votes_of(votes, id)[m] && votes[j].poll_id@ == id by {
            if m < p.len() {
                let j = choose|j: int| 0 <= j < s.len() && s[j] == p[m] && s[j].poll_id@ == id;
                assert(votes[j] == s[j]);
            } else {
                assert(votes[votes.len() - 1] == votes_of(votes, id)[m]);
            }
        }
    }
}

/// The entries of one poll in a well-formed store have one entry per voter
/// and option.
pub proof fn lemma_votes_of_unique(votes: Seq<Vote>, id: Seq<char>)
    requires
        keys_unique(votes),
    ensures
        entries_unique(votes_of(votes, id)),
    decreases votes.len(),
{
    if votes.len() > 0 {
        let s = votes.drop_last();
        assert(keys_unique(s));
        lemma_votes_of_unique(s, id);
        lemma_votes_of_members(s, id);
        let p = votes_of(s, id);
        let r = votes_of(votes, id);
        if votes.last().poll_id@ == id {
            assert forall|a: int, b: int| 0 <= a < b < r.len() implies !(r[a].user_id@ == r[b].user_id@
                && r[a].option_id@ == r[b].option_id@) by {
                if b == p.len() {
                    let j = choose|j: int| 0 <= j < s.len() && s[j] == #[trigger] p[a] && s[j].poll_id@ == id;
                    assert(!same_key(votes[j], votes[votes.len() - 1]));
                }
            }
        }
    }
}

/// `s` with `x` inserted before the first element with a smaller key.
pub open spec fn insert_by_key(keys: Seq<i64>, s: Seq<usize>, x: usize) -> Seq<usize>
    decreases s.len(),
{
    if s.len() == 0 {
        seq![x]
    } else if keys[x as int] > keys[s[0] as int] {
        seq![x] + s
    } else {
        seq![s[0]] + insert_by_key(keys, s.drop_first(), x)
    }
}

/// The included positions among the first `k`, largest key first; equal
/// keys keep store order.
pub open spec fn newest_first(keys: Seq<i64>, incl: Seq<bool>, k: int) -> Seq<usize>
    decreases k,
{
    if k <= 0 {
        Seq::empty()
    } else if incl[k - 1] {
        insert_by_key(keys, newest_first(keys, incl, k - 1), (k - 1) as usize)
    } else {
        newest_first(keys, incl, k - 1)
    }
}

proof fn lemma_insert_by_key_at(keys: Seq<i64>, s: Seq<usize>, x: usize, pos: int)
    requires
        0 <= pos <= s.len(),
        forall|m: int| 0 <= m < pos ==> !(keys[x as int] > keys[s[m] as int]),
        pos < s.len() ==> keys[x as int] > keys[s[pos] as int],
    ensures
        insert_by_key(keys, s, x) == s.insert(pos, x),
    decreases s.len(),
{
    if s.len() == 0 {
        assert(s.insert(pos, x) =~= seq![x]);
    } else if pos == 0 {
        assert(s.insert(pos, x) =~= seq![x] + s);
    } else {
        let t = s.drop_first();
        assert forall|m: int| 0 <= m < pos - 1 implies !(keys[x as int] > keys[t[m] as int]) by {
            assert(t[m] == s[m + 1]);
        }
        lemma_insert_by_key_at(keys, t, x, pos - 1);
        assert(s.insert(pos, x) =~= seq![s[0]] + t.insert(pos - 1, x));
    }
}

/// Lists the included positions, largest key first, equal keys in order.
fn list_newest(keys: &Vec<i64>, incl: &Vec<bool>) -> (r: Vec<usize>)
    requires
        incl.len() == keys.len(),
    ensures
        r@ == newest_first(keys@, incl@, keys.len() as int),
        forall|m: int| 0 <= m < r.len() ==> r[m] < keys.len() && incl@[r[m] as int],
        forall|m1: int, m2: int| 0 <= m1 < m2 < r.len() ==> keys@[r[m1] as int] >= keys@[r[m2] as int],
{
    let n = keys.len();
    let mut order: Vec<usize> = Vec::new();
    let mut k: usize = 0;
    while k < n
        invariant
            n == keys.len(),
            incl.len() == n,
            k <= n,
            order@ == newest_first(keys@, incl@, k as int),
            forall|m: int| 0 <= m < order.len() ==> order[m] < k && incl@[order[m] as int],
            forall|m1: int, m2: int| 0 <= m1 < m2 < order.len() ==> keys@[order[m1] as int] >= keys@[order[m2] as int],
        decreases n - k,
    {
        if incl[k] {
            let mut pos: usize = 0;
            while pos < order.len() && !(keys[k] > keys[order[pos]])
                invariant
                    n == keys.len(),
                    k < n,
                    pos <= order.len(),
                    forall|m: int| 0 <= m < order.len() ==> order[m] < k,
                    forall|m: int| 0 <= m < pos ==> !(keys@[k as int] > keys@[order[m] as int]),
                decreases order.len() - pos,
            {
                pos = pos + 1;
            }
            let ghost old_order = order@;
            proof {
                lemma_insert_by_key_at(keys@, old_order, k, pos as int);
            }
            order.insert(pos, k);
            proof {
                assert forall|m1: int, m2: int| 0 <= m1 < m2 < order.len() implies keys@[order[m1] as int]
                    >= keys@[order[m2] as int] by {
                    if m1 < pos as int && m2 > pos as int {
                        assert(keys@[order[m1] as int] >= keys@[k as int]);
                    } else if m1 == pos as int && m2 > pos as int {
                        assert(keys@[k as int] > keys@[old_order[pos as int] as int]);
                        assert(keys@[old_order[pos as int] as int] >= keys@[old_order[m2 - 1] as int]) by {
                            if m2 - 1 > pos {
                            }
                        }
                    }
                }
            }
        }
        k = k + 1;
    }
    order
}

/// The poll is still active but its deadline is before `now`.
pub open spec fn expired_at(p: Poll, now: i64) -> bool {
    p.is_active && (p.ends_at matches Some(t) && t < now)
}

/// The positions of expired polls among the first `n`, in store order.
pub open spec fn expired_positions(polls: Seq<Poll>, now: i64, n: int) -> Seq<usize>
    decreases n,
{
    if n <= 0 {
        Seq::empty()
    } else if expired_at(polls[n - 1], now) {
        expired_positions(polls, now, n - 1).push((n - 1) as usize)
    } else {
        expired_positions(polls, now, n - 1)
    }
}

/// Positions of the active polls of a guild.
pub open spec fn active_in(polls: Seq<Poll>, guild: Seq<char>) -> Seq<bool> {
    Seq::new(polls.len(), |k: int| polls[k].guild_id@ == guild && polls[k].is_active)
}

/// Positions of the ended polls of a guild.
pub open spec fn ended_in(polls: Seq<Poll>, guild: Seq<char>) -> Seq<bool> {
    Seq::new(polls.len(), |k: int| polls[k].guild_id@ == guild && !polls[k].is_active)
}

/// Creation times.
pub open spec fn created_keys(polls: Seq<Poll>) -> Seq<i64> {
    Seq::new(polls.len(), |k: int| polls[k].created_at)
}

/// Deadlines, a poll without one counting as the oldest.
pub open spec fn deadline_keys(polls: Seq<Poll>) -> Seq<i64> {
    Seq::new(
        polls.len(),
        |k: int|
            match polls[k].ends_at {
                Some(t) => t,
                None => i64::MIN,
            },
    )
}

/// `r` holds copies of the polls at the positions `order`.
pub open spec fn polls_at(polls: Seq<Poll>, order: Seq<usize>, r: Seq<Poll>) -> bool {
    &&& r.len() == order.len()
    &&& forall|m: int| 0 <= m < r.len() ==> same_poll(r[m], polls[order[m] as int])
}

/// Ballots stay placed when polls keep their positions, identities and
/// options, and polls are only added.
proof fn lemma_placed_kept(earlier: Seq<Poll>, later: Seq<Poll>, votes: Seq<Vote>)
    requires
        ids_unique(later),
        later.len() >= earlier.len(),
        forall|j: int| 0 <= j < earlier.len() ==> later[j].id@ == earlier[j].id@ && later[j].options@ == earlier[j].options@,
        ballots_placed(earlier, votes),
    ensures
        ballots_placed(later, votes),
        forall|i: int| 0 <= i < votes.len() ==> poll_index(later, #[trigger] votes[i].poll_id@) == poll_index(earlier, votes[i].poll_id@),
{
    assert forall|i: int| 0 <= i < votes.len() implies poll_index(later, #[trigger] votes[i].poll_id@) == poll_index(
        earlier,
        votes[i].poll_id@,
    ) by {
        let id = votes[i].poll_id@;
        let p = poll_index(earlier, id);
        assert(0 <= p);
        assert(exists|c: int| 0 <= c < earlier.len() && earlier[c].id@ == id);
        assert(earlier[p].id@ == id);
        lemma_poll_index_at(later, id, p);
    }
}

/// No entry of `votes` is for poll `id`, so it has none.
proof fn lemma_votes_of_none(votes: Seq<Vote>, id: Seq<char>)
    requires
        forall|i: int| 0 <= i < votes.len() ==> #[trigger] votes[i].poll_id@ != id,
    ensures
        votes_of(votes, id).len() == 0,
    decreases votes.len(),
{
    if votes.len() > 0 {
        lemma_votes_of_none(votes.drop_last(), id);
    }
}

/// Whether a poll offers 2 to 10 options with distinct identities.
pub fn options_valid(opts: &Vec<PollOption>) -> (r: bool)
    ensures
        r == options_ok(opts@),
{
    let n = opts.len();
    if n < 2 || n > 10 {
        return false;
    }
    let mut j: usize = 0;
    while j < n
        invariant
            n == opts.len(),
            j <= n,
            forall|a: int, b: int| 0 <= a < b < j ==> opts@[a].id@ != opts@[b].id@,
        decreases n - j,
    {
        let mut i: usize = 0;
        while i < j
            invariant
                n == opts.len(),
                i <= j,
                j < n,
                forall|a: int, b: int| 0 <= a < b < j ==> opts@[a].id@ != opts@[b].id@,
                forall|a: int| 0 <= a < i ==> opts@[a].id@ != opts@[j as int].id@,
            decreases j - i,
        {
            if opts[i].id == opts[j].id {
                return false;
            }
            i = i + 1;
        }
        j = j + 1;
    }
    true
}

impl Database {
    /// The stored polls.
    pub open(crate) spec fn polls_view(&self) -> Seq<Poll> {
        self.polls@
    }

    /// The stored ballot entries.
    pub open(crate) spec fn votes_view(&self) -> Seq<Vote> {
        self.votes@
    }

    /// The store invariant.
    pub open(crate) spec fn wf(&self) -> bool {
        &&& ids_unique(self.polls_view())
        &&& keys_unique(self.votes_view())
        &&& polls_ok(self.polls_view())
        &&& ballots_placed(self.polls_view(), self.votes_view())
    }

    /// An empty store.
    pub fn new() -> (r: Database)
        ensures
            r.wf(),
            r.polls_view().len() == 0,
            r.votes_view().len() == 0,
    {
        Database { polls: Vec::new(), votes: Vec::new() }
    }

    /// The position of the poll with identity `id`.
    fn find_poll(&self, id: &str) -> (r: Option<usize>)
        requires
            self.wf(),
        ensures
            match r {
                Some(i) => i < self.polls.len() && poll_index(self.polls_view(), id@) == i,
                None => poll_index(self.polls_view(), id@) == -1,
            },
    {
        let mut i: usize = 0;
        while i < self.polls.len()
            invariant
                self.wf(),
                i <= self.polls.len(),
                forall|q: int| 0 <= q < i ==> self.polls_view()[q].id@ != id@,
            decreases self.polls.len() - i,
        {
            if str_eq(self.polls[i].id.as_str(), id) {
                proof {
                    lemma_poll_index_at(self.polls_view(), id@, i as int);
                }
                return Some(i);
            }
            i = i + 1;
        }
        None
    }

    /// Adds a poll. Refused when it does not offer 2 to 10 options with
    /// distinct identities, or when its identity is taken. A new poll has
    /// no ballot entries.
    pub fn create_poll(&mut self, poll: &Poll) -> (r: Result<(), DbError>)
        requires
            old(self).wf(),
        ensures
            final(self).wf(),
            final(self).votes_view() == old(self).votes_view(),
            !options_ok(poll.options@) ==> r == Err::<(), DbError>(DbError::InvalidOptions)
                && final(self).polls_view() == old(self).polls_view(),
            options_ok(poll.options@) && poll_index(old(self).polls_view(), poll.id@) >= 0 ==> r == Err::<(), DbError>(
                DbError::DuplicateId,
            ) && final(self).polls_view() == old(self).polls_view(),
            options_ok(poll.options@) && poll_index(old(self).polls_view(), poll.id@) < 0 ==> {
                &&& r is Ok
                &&& final(self).polls_view().len() == old(self).polls_view().len() + 1
                &&& final(self).polls_view().drop_last() == old(self).polls_view()
                &&& same_poll(final(self).polls_view().last(), *poll)
                &&& votes_of(final(self).votes_view(), poll.id@).len() == 0
            },
    {
        if !options_valid(&poll.options) {
            return Err(DbError::InvalidOptions);
        }
        match self.find_poll(poll.id.as_str()) {
            Some(_) => Err(DbError::DuplicateId),
            None => {
                let p = poll.duplicate();
                let ghost before = self.polls_view();
                self.polls.push(p);
                proof {
                    assert(self.polls_view().drop_last() =~= before);
                    assert forall|a: int, b: int| 0 <= a < b < self.polls_view().len() implies self.polls_view()[a].id@
                        != self.polls_view()[b].id@ by {
                        if b == before.len() && self.polls_view()[a].id@ == poll.id@ {
                            assert(before[a].id@ == poll.id@);
                        }
                    }
                    assert(polls_ok(self.polls_view())) by {
                        assert forall|i: int| 0 <= i < self.polls_view().len() implies options_ok(
                            #[trigger] self.polls_view()[i].options@,
                        ) by {
                            if i < before.len() {
                                assert(self.polls_view()[i] == before[i]);
                            }
                        }
                    }
                    lemma_placed_kept(before, self.polls_view(), self.votes_view());
                    assert forall|i: int| 0 <= i < self.votes_view().len() implies #[trigger] self.votes_view()[i].poll_id@
                        != poll.id@ by {
                        let q = poll_index(before, self.votes_view()[i].poll_id@);
                        assert(0 <= q);
                        assert(exists|c: int| 0 <= c < before.len() && before[c].id@ == self.votes_view()[i].poll_id@);
                    }
                    lemma_votes_of_none(self.votes_view(), poll.id@);
                }
                Ok(())
            },
        }
    }

    /// The poll with identity `poll_id`.
    pub fn get_poll(&self, poll_id: &str) -> (r: Result<Poll, DbError>)
        requires
            self.wf(),
        ensures
            match r {
                Ok(p) => poll_index(self.polls_view(), poll_id@) >= 0 && same_poll(
                    p,
                    self.polls_view()[poll_index(self.polls_view(), poll_id@)],
                ),
                Err(e) => poll_index(self.polls_view(), poll_id@) < 0 && e == DbError::NotFound,
            },
    {
        match self.find_poll(poll_id) {
            Some(i) => Ok(self.polls[i].duplicate()),
            None => Err(DbError::NotFound),
        }
    }

    /// Ends an active poll: succeeds at most once per poll, later calls
    /// observing `AlreadyClosed`.
    pub fn end_poll(&mut self, poll_id: &str) -> (r: Result<(), DbError>)
        requires
            old(self).wf(),
        ensures
            final(self).wf(),
            final(self).votes_view() == old(self).votes_view(),
            r == close_result(old(self).polls_view(), poll_id@),
            r is Ok ==> closed_state(old(self).polls_view(), final(self).polls_view(), poll_id@),
            r is Err ==> final(self).polls_view() == old(self).polls_view(),
    {
        match self.find_poll(poll_id) {
            None => Err(DbError::NotFound),
            Some(i) => {
                if !self.polls[i].is_active {
                    return Err(DbError::AlreadyClosed);
                }
                let mut p = self.polls[i].duplicate();
                p.is_active = false;
                let ghost before = self.polls_view();
                self.polls.set(i, p);
                proof {
                    assert forall|a: int, b: int| 0 <= a < b < self.polls_view().len() implies self.polls_view()[a].id@
                        != self.polls_view()[b].id@ by {
                        assert(before[a].id@ != before[b].id@);
                    }
                    assert(polls_ok(self.polls_view())) by {
                        assert forall|q: int| 0 <= q < self.polls_view().len() implies options_ok(
                            #[trigger] self.polls_view()[q].options@,
                        ) by {
                            assert(options_ok(before[q].options@));
                        }
                    }
                    lemma_placed_kept(before, self.polls_view(), self.votes_view());
                }
                Ok(())
            },
        }
    }

    /// Records the message that shows the poll.
    pub fn update_poll_message_id(&mut self, poll_id: &str, message_id: &str) -> (r: Result<(), DbError>)
        requires
            old(self).wf(),
        ensures
            final(self).wf(),
            final(self).votes_view() == old(self).votes_view(),
            ({
                let i = poll_index(old(self).polls_view(), poll_id@);
                &&& i < 0 ==> r == Err::<(), DbError>(DbError::NotFound) && final(self).polls_view() == old(self).polls_view()
                &&& i >= 0 ==> {
                    &&& r is Ok
                    &&& final(self).polls_view().len() == old(self).polls_view().len()
                    &&& final(self).polls_view()[i].message_id matches Some(m) && m@ == message_id@
                    &&& same_but_message(old(self).polls_view()[i], final(self).polls_view()[i])
                    &&& forall|j: int| 0 <= j < old(self).polls_view().len() && j != i ==> final(self).polls_view()[j] == old(self).polls_view()[j]
                }
            }),
    {
        match self.find_poll(poll_id) {
            None => Err(DbError::NotFound),
            Some(i) => {
                let mut p = self.polls[i].duplicate();
                p.message_id = Some(message_id.to_owned());
                let ghost before = self.polls_view();
                self.polls.set(i, p);
                proof {
                    assert forall|a: int, b: int| 0 <= a < b < self.polls_view().len() implies self.polls_view()[a].id@
                        != self.polls_view()[b].id@ by {
                        assert(before[a].id@ != before[b].id@);
                    }
                    assert(polls_ok(self.polls_view())) by {
                        assert forall|q: int| 0 <= q < self.polls_view().len() implies options_ok(
                            #[trigger] self.polls_view()[q].options@,
                        ) by {
                            assert(options_ok(before[q].options@));
                        }
                    }
                    lemma_placed_kept(before, self.polls_view(), self.votes_view());
                }
                Ok(())
            },
        }
    }

    /// Writes a ballot entry. Refused with `NotFound` when the poll or the
    /// option does not exist, with `PollClosed` once the poll has ended, and
    /// with `InvalidRating` outside the method's range; otherwise the entry
    /// is upserted, the latest timestamp winning.
    pub fn save_vote(&mut self, vote: &Vote) -> (r: Result<(), DbError>)
        requires
            old(self).wf(),
        ensures
            final(self).wf(),
            final(self).polls_view() == old(self).polls_view(),
            ({
                let i = poll_index(old(self).polls_view(), vote.poll_id@);
                let p = old(self).polls_view()[i];
                &&& i < 0 ==> r == Err::<(), DbError>(DbError::NotFound)
                &&& i >= 0 && option_slot(p.options@, vote.option_id@) >= p.options@.len() ==> r == Err::<
                    (),
                    DbError,
                >(DbError::NotFound)
                &&& i >= 0 && option_slot(p.options@, vote.option_id@) < p.options@.len() && !p.is_active ==> r
                    == Err::<(), DbError>(DbError::PollClosed)
                &&& i >= 0 && option_slot(p.options@, vote.option_id@) < p.options@.len() && p.is_active
                    && !rating_in_range(p.voting_method, vote.rating) ==> r == Err::<(), DbError>(
                    DbError::InvalidRating,
                )
                &&& i >= 0 && option_slot(p.options@, vote.option_id@) < p.options@.len() && p.is_active
                    && rating_in_range(p.voting_method, vote.rating) ==> r is Ok
            }),
            r is Ok ==> final(self).votes_view() == upserted(old(self).votes_view(), *vote),
            r is Err ==> final(self).votes_view() == old(self).votes_view(),
    {
        let i = match self.find_poll(vote.poll_id.as_str()) {
            None => return Err(DbError::NotFound),
            Some(i) => i,
        };
        let k = find_option(&self.polls[i].options, &vote.option_id);
        if k >= self.polls[i].options.len() {
            return Err(DbError::NotFound);
        }
        if !self.polls[i].is_active {
            return Err(DbError::PollClosed);
        }
        let in_range = match self.polls[i].voting_method {
            VotingMethod::Plurality => 0 <= vote.rating && vote.rating <= 1,
            VotingMethod::Approval => 0 <= vote.rating && vote.rating <= 1,
            VotingMethod::Star => 0 <= vote.rating && vote.rating <= 5,
            VotingMethod::Ranked => 0 <= vote.rating,
        };
        if !in_range {
            return Err(DbError::InvalidRating);
        }
        proof {
            lemma_upserted_unique(self.votes_view(), *vote);
        }
        let mut j: usize = 0;
        while j < self.votes.len()
            invariant
                j <= self.votes.len(),
                self.polls_view() == old(self).polls_view(),
                self.votes_view() == old(self).votes_view(),
                old(self).wf(),
                keys_unique(upserted(self.votes_view(), *vote)),
                i < self.polls.len(),
                i == poll_index(old(self).polls_view(), vote.poll_id@),
                option_slot(self.polls_view()[i as int].options@, vote.option_id@) < self.polls_view()[i as int].options@.len(),
                self.polls_view()[i as int].is_active,
                rating_in_range(self.polls_view()[i as int].voting_method, vote.rating),
                forall|q: int| 0 <= q < j ==> !same_key(self.votes_view()[q], *vote),
            decreases self.votes.len() - j,
        {
            let e = &self.votes[j];
            if e.poll_id == vote.poll_id && e.user_id == vote.user_id && e.option_id == vote.option_id {
                proof {
                    let c = choose|c: int| 0 <= c < self.votes_view().len() && same_key(self.votes_view()[c], *vote);
                    if c < j {
                        assert(!same_key(self.votes_view()[c], *vote));
                    } else if c > j {
                        assert(!same_key(self.votes_view()[j as int], self.votes_view()[c]));
                    }
                }
                if e.timestamp > vote.timestamp {
                    return Ok(());
                }
                self.votes.set(j, vote.duplicate());
                return Ok(());
            }
            j = j + 1;
        }
        self.votes.push(vote.duplicate());
        Ok(())
    }

    /// The ballot entries of a poll, in store order.
    #[verifier::rlimit(40)]
    pub fn get_poll_votes(&self, poll_id: &str) -> (r: Vec<Vote>)
        requires
            self.wf(),
        ensures
            r@ == votes_of(self.votes_view(), poll_id@),
            entries_unique(r@),
            r@.len() <= self.votes_view().len(),
    {
        let mut r: Vec<Vote> = Vec::new();
        let mut j: usize = 0;
        while j < self.votes.len()
            invariant
                j <= self.votes.len(),
                r@ == votes_of(self.votes_view().take(j as int), poll_id@),
            decreases self.votes.len() - j,
        {
            assert(self.votes_view().take(j + 1).drop_last() =~= self.votes_view().take(j as int));
            if str_eq(self.votes[j].poll_id.as_str(), poll_id) {
                r.push(self.votes[j].duplicate());
            }
            j = j + 1;
        }
        assert(self.votes_view().take(self.votes.len() as int) =~= self.votes_view());
        proof {
            lemma_votes_of_unique(self.votes_view(), poll_id@);
            lemma_votes_of_members(self.votes_view(), poll_id@);
        }
        r
    }

    /// The ballot entries of one voter in a poll, in store order.
    pub fn get_user_poll_votes(&self, poll_id: &str, user_id: &str) -> (r: Vec<Vote>)
        requires
            self.wf(),
        ensures
            r@ == user_votes_of(self.votes_view(), poll_id@, user_id@),
    {
        let mut r: Vec<Vote> = Vec::new();
        let mut j: usize = 0;
        while j < self.votes.len()
            invariant
                j <= self.votes.len(),
                r@ == user_votes_of(self.votes_view().take(j as int), poll_id@, user_id@),
            decreases self.votes.len() - j,
        {
            assert(self.votes_view().take(j + 1).drop_last() =~= self.votes_view().take(j as int));
            if str_eq(self.votes[j].poll_id.as_str(), poll_id) && str_eq(self.votes[j].user_id.as_str(), user_id) {
                r.push(self.votes[j].duplicate());
            }
            j = j + 1;
        }
        assert(self.votes_view().take(self.votes.len() as int) =~= self.votes_view());
        r
    }

    fn copies_at(&self, order: &Vec<usize>, limit: usize) -> (r: Vec<Poll>)
        requires
            forall|m: int| 0 <= m < order.len() ==> order[m] < self.polls.len(),
            limit <= order.len(),
        ensures
            polls_at(self.polls_view(), order@.take(limit as int), r@),
    {
        let mut r: Vec<Poll> = Vec::new();
        let mut m: usize = 0;
        while m < limit
            invariant
                forall|q: int| 0 <= q < order.len() ==> order[q] < self.polls.len(),
                limit <= order.len(),
                m <= limit,
                r.len() == m,
                forall|q: int| 0 <= q < m ==> same_poll(r@[q], self.polls_view()[order[q] as int]),
            decreases limit - m,
        {
            r.push(self.polls[order[m]].duplicate());
            m = m + 1;
        }
        r
    }

    /// The active polls whose deadline is before `now`, in store order:
    /// identity, channel and message of each.
    pub fn get_expired_polls(&self, now: i64) -> (r: Vec<(String, String, Option<String>)>)
        ensures
            r@.len() == expired_positions(self.polls_view(), now, self.polls_view().len() as int).len(),
            forall|m: int|
                #![trigger r@[m]]
                0 <= m < r@.len() ==> {
                    let p = self.polls_view()[expired_positions(self.polls_view(), now, self.polls_view().len() as int)[m] as int];
                    &&& r@[m].0 == p.id
                    &&& r@[m].1 == p.channel_id
                    &&& r@[m].2 == p.message_id
                },
    {
        let mut r: Vec<(String, String, Option<String>)> = Vec::new();
        let mut k: usize = 0;
        while k < self.polls.len()
            invariant
                k <= self.polls.len(),
                r@.len() == expired_positions(self.polls_view(), now, k as int).len(),
                forall|q: int| 0 <= q < expired_positions(self.polls_view(), now, k as int).len() ==> #[trigger] expired_positions(
                    self.polls_view(),
                    now,
                    k as int,
                )[q] < k,
                forall|m: int|
                    #![trigger r@[m]]
                    0 <= m < r@.len() ==> {
                        let p = self.polls_view()[expired_positions(self.polls_view(), now, k as int)[m] as int];
                        &&& r@[m].0 == p.id
                        &&& r@[m].1 == p.channel_id
                        &&& r@[m].2 == p.message_id
                    },
            decreases self.polls.len() - k,
        {
            let p = &self.polls[k];
            let expired = match p.ends_at {
                Some(t) => p.is_active && t < now,
                None => false,
            };
            if expired {
                r.push((p.id.clone(), p.channel_id.clone(), crate::models::copy_opt_string(&p.message_id)));
            }
            k = k + 1;
        }
        r
    }

    /// The active polls of a guild, newest first.
    pub fn get_active_polls_by_guild(&self, guild_id: &str) -> (r: Vec<Poll>)
        ensures
            polls_at(
                self.polls_view(),
                newest_first(created_keys(self.polls_view()), active_in(self.polls_view(), guild_id@), self.polls_view().len() as int),
                r@,
            ),
    {
        let n = self.polls.len();
        let mut keys: Vec<i64> = Vec::new();
        let mut incl: Vec<bool> = Vec::new();
        let mut k: usize = 0;
        while k < n
            invariant
                n == self.polls.len(),
                k <= n,
                keys.len() == k,
                incl.len() == k,
                forall|q: int| 0 <= q < k ==> keys@[q] == created_keys(self.polls_view())[q],
                forall|q: int| 0 <= q < k ==> incl@[q] == active_in(self.polls_view(), guild_id@)[q],
            decreases n - k,
        {
            keys.push(self.polls[k].created_at);
            incl.push(str_eq(self.polls[k].guild_id.as_str(), guild_id) && self.polls[k].is_active);
            k = k + 1;
        }
        assert(keys@ =~= created_keys(self.polls_view()));
        assert(incl@ =~= active_in(self.polls_view(), guild_id@));
        let order = list_newest(&keys, &incl);
        let r = self.copies_at(&order, order.len());
        assert(order@.take(order.len() as int) =~= order@);
        r
    }

    /// The ended polls of a guild, latest deadline first, at most `limit`.
    pub fn get_recently_ended_polls_by_guild(&self, guild_id: &str, limit: u32) -> (r: Vec<Poll>)
        ensures
            ({
                let all = newest_first(
                    deadline_keys(self.polls_view()),
                    ended_in(self.polls_view(), guild_id@),
                    self.polls_view().len() as int,
                );
                polls_at(self.polls_view(), all.take(if all.len() < limit { all.len() as int } else { limit as int }), r@)
            }),
    {
        let n = self.polls.len();
        let mut keys: Vec<i64> = Vec::new();
        let mut incl: Vec<bool> = Vec::new();
        let mut k: usize = 0;
        while k < n
            invariant
                n == self.polls.len(),
                k <= n,
                keys.len() == k,
                incl.len() == k,
                forall|q: int| 0 <= q < k ==> keys@[q] == deadline_keys(self.polls_view())[q],
                forall|q: int| 0 <= q < k ==> incl@[q] == ended_in(self.polls_view(), guild_id@)[q],
            decreases n - k,
        {
            let key = match self.polls[k].ends_at {
                Some(t) => t,
                None => i64::MIN,
            };
            keys.push(key);
            incl.push(str_eq(self.polls[k].guild_id.as_str(), guild_id) && !self.polls[k].is_active);
            k = k + 1;
        }
        assert(keys@ =~= deadline_keys(self.polls_view()));
        assert(incl@ =~= ended_in(self.polls_view(), guild_id@));
        let order = list_newest(&keys, &incl);
        let take: usize = if (order.len() as u64) < (limit as u64) { order.len() } else { limit as usize };
        self.copies_at(&order, take)
    }
}

} // verus!
