//! The decisions behind user interactions: which action a component
//! identifier names, what a create request holds, how a ranking changes,
//! who may vote.
use vstd::prelude::*;
use crate::models::{Poll, PollOption, Vote, VotingMethod};
use crate::voting::{all_options, count_upto, list_options, listing};
use crate::text::{decimal, push_decimal, push_str};
use crate::models::method_name;
use crate::text::{
    i32_literal, digits_value, all_digits, lemma_split_nonempty, parse_decimal, parse_i32, split_on,
    split_string, str_eq,
};

verus! {

/// A change to a voter's ranking.
#[derive(Debug, Clone, Copy, PartialEq, Eq, Structural)]
pub enum RankAction {
    Up,
    Down,
    Remove,
}

/// What a message component asks for, read from its identifier.
#[derive(Debug, Clone)]
pub enum ComponentAction {
    OpenBallot,
    StarSelect { poll_id: String, option_id: String },
    StarPage { poll_id: String, page: u64 },
    DoneVoting { poll_id: String },
    ChangeVote { poll_id: String },
    PluralityVote { poll_id: String, option_id: String },
    ApprovalVote { poll_id: String, option_id: String, current: i32 },
    Rank { poll_id: String, option_id: String, action: RankAction },
    RankLabel,
    SelectEndPoll,
    SelectResultsPoll,
    Malformed,
    Unknown,
}

/// The page a star-ballot page identifier names: its last piece read as a
/// number, 0 when it is none.
pub open spec fn page_of(piece: Seq<char>) -> u64 {
    if all_digits(piece) && digits_value(piece) <= u64::MAX {
        digits_value(piece) as u64
    } else {
        0
    }
}

/// What the component identifier `id` names. Identifiers are pieces joined
/// by `_`: a kind, then the poll identity, then what the kind needs.
pub open spec fn component_of(id: Seq<char>, r: ComponentAction) -> bool {
    let parts = split_on(id, '_');
    let head = parts[0];
    let multi = parts.len() >= 2;
    if id == "vote_button"@ || id == "voteButton"@ {
        r is OpenBallot
    } else if id == "selectEndPoll"@ {
        r is SelectEndPoll
    } else if id == "selectResultsPoll"@ {
        r is SelectResultsPoll
    } else if multi && head == "starSelect"@ {
        if parts.len() >= 3 {
            r matches ComponentAction::StarSelect { poll_id, option_id } && poll_id@ == parts[1]
                && option_id@ == parts[2]
        } else {
            r is Malformed
        }
    } else if multi && head == "starPage"@ {
        r matches ComponentAction::StarPage { poll_id, page } && poll_id@ == parts[1] && page == page_of(
            parts.last(),
        )
    } else if multi && head == "doneVoting"@ {
        r matches ComponentAction::DoneVoting { poll_id } && poll_id@ == parts[1]
    } else if multi && head == "voteChange"@ {
        r matches ComponentAction::ChangeVote { poll_id } && poll_id@ == parts[1]
    } else if multi && head == "pluralityVote"@ {
        if parts.len() >= 3 {
            r matches ComponentAction::PluralityVote { poll_id, option_id } && poll_id@ == parts[1]
                && option_id@ == parts[2]
        } else {
            r is Malformed
        }
    } else if multi && head == "approvalVote"@ {
        if parts.len() >= 4 {
            r matches ComponentAction::ApprovalVote { poll_id, option_id, current } && poll_id@ == parts[1]
                && option_id@ == parts[2] && current == match i32_literal(parts[3]) {
                Some(v) => v,
                None => 0,
            }
        } else {
            r is Malformed
        }
    } else if multi && (head == "rankUp"@ || head == "rankDown"@ || head == "rankRemove"@) {
        if parts.len() >= 3 {
            r matches ComponentAction::Rank { poll_id, option_id, action } && poll_id@ == parts[1]
                && option_id@ == parts[2] && action == if head == "rankUp"@ {
                RankAction::Up
            } else if head == "rankDown"@ {
                RankAction::Down
            } else {
                RankAction::Remove
            }
        } else {
            r is Malformed
        }
    } else if multi && head == "rankLabel"@ {
        r is RankLabel
    } else {
        r is Unknown
    }
}

/// Reads a component identifier.
pub fn parse_component(custom_id: &str) -> (r: ComponentAction)
    ensures
        component_of(custom_id@, r),
{
    if str_eq(custom_id, "vote_button") || str_eq(custom_id, "voteButton") {
        return ComponentAction::OpenBallot;
    }
    if str_eq(custom_id, "selectEndPoll") {
        return ComponentAction::SelectEndPoll;
    }
    if str_eq(custom_id, "selectResultsPoll") {
        return ComponentAction::SelectResultsPoll;
    }
    let parts = split_string(custom_id, '_');
    let ghost sp = split_on(custom_id@, '_');
    proof {
        lemma_split_nonempty(custom_id@, '_');
    }
    assert(parts@[0]@ == sp[0]);
    let n = parts.len();
    if n < 2 {
        return ComponentAction::Unknown;
    }
    assert(parts@[1]@ == sp[1]);
    let head = parts[0].as_str();
    if str_eq(head, "starSelect") {
        if n >= 3 {
            assert(parts@[2]@ == sp[2]);
            return ComponentAction::StarSelect { poll_id: parts[1].clone(), option_id: parts[2].clone() };
        }
        return ComponentAction::Malformed;
    }
    if str_eq(head, "starPage") {
        assert(parts@[n - 1]@ == sp.last());
        let page = match parse_decimal(parts[n - 1].as_str()) {
            Some(v) => v,
            None => 0,
        };
        return ComponentAction::StarPage { poll_id: parts[1].clone(), page };
    }
    if str_eq(head, "doneVoting") {
        return ComponentAction::DoneVoting { poll_id: parts[1].clone() };
    }
    if str_eq(head, "voteChange") {
        return ComponentAction::ChangeVote { poll_id: parts[1].clone() };
    }
    if str_eq(head, "pluralityVote") {
        if n >= 3 {
            assert(parts@[2]@ == sp[2]);
            return ComponentAction::PluralityVote { poll_id: parts[1].clone(), option_id: parts[2].clone() };
        }
        return ComponentAction::Malformed;
    }
    if str_eq(head, "approvalVote") {
        if n >= 4 {
            assert(parts@[2]@ == sp[2]);
            assert(parts@[3]@ == sp[3]);
            let current = match parse_i32(parts[3].as_str()) {
                Some(v) => v,
                None => 0,
            };
            return ComponentAction::ApprovalVote {
                poll_id: parts[1].clone(),
                option_id: parts[2].clone(),
                current,
            };
        }
        return ComponentAction::Malformed;
    }
    let up = str_eq(head, "rankUp");
    let down = str_eq(head, "rankDown");
    let remove = str_eq(head, "rankRemove");
    if up || down || remove {
        if n >= 3 {
            assert(parts@[2]@ == sp[2]);
            let action = if up {
                RankAction::Up
            } else if down {
                RankAction::Down
            } else {
                RankAction::Remove
            };
            return ComponentAction::Rank { poll_id: parts[1].clone(), option_id: parts[2].clone(), action };
        }
        return ComponentAction::Malformed;
    }
    if str_eq(head, "rankLabel") {
        return ComponentAction::RankLabel;
    }
    ComponentAction::Unknown
}

/// A character of the Unicode White_Space property: U+0009 to U+000D,
/// U+0020, U+0085, U+00A0, U+1680, U+2000 to U+200A, U+2028, U+2029,
/// U+202F, U+205F and U+3000.
pub open spec fn is_white_space(c: char) -> bool {
    let v = c as int;
    ||| 0x9 <= v <= 0xd
    ||| v == 0x20
    ||| v == 0x85
    ||| v == 0xa0
    ||| v == 0x1680
    ||| 0x2000 <= v <= 0x200a
    ||| v == 0x2028
    ||| v == 0x2029
    ||| v == 0x202f
    ||| v == 0x205f
    ||| v == 0x3000
}

/// `s` without its leading white space.
pub open spec fn trim_start_of(s: Seq<char>) -> Seq<char>
    decreases s.len(),
{
    if s.len() > 0 && is_white_space(s[0]) {
        trim_start_of(s.drop_first())
    } else {
        s
    }
}

/// `s` without its trailing white space.
pub open spec fn trim_end_of(s: Seq<char>) -> Seq<char>
    decreases s.len(),
{
    if s.len() > 0 && is_white_space(s.last()) {
        trim_end_of(s.drop_last())
    } else {
        s
    }
}

/// `s` without leading and trailing white space.
pub open spec fn trimmed(s: Seq<char>) -> Seq<char> {
    trim_end_of(trim_start_of(s))
}

/// Relies on std's `str::trim`, which removes the leading and trailing
/// characters of the Unicode White_Space property.
#[verifier::external_body]
fn trim_text(s: &str) -> (r: String)
    ensures
        r@ == trimmed(s@),
{
    s.trim().to_string()
}

/// The option texts of a comma-separated list: each piece trimmed, empty
/// pieces dropped.
pub open spec fn option_texts(pieces: Seq<Seq<char>>) -> Seq<Seq<char>>
    decreases pieces.len(),
{
    if pieces.len() == 0 {
        Seq::empty()
    } else {
        let p = option_texts(pieces.drop_last());
        let t = trimmed(pieces.last());
        if t.len() > 0 {
            p.push(t)
        } else {
            p
        }
    }
}

/// The voting method a name selects.
pub open spec fn method_named(name: Seq<char>) -> Option<VotingMethod> {
    if name == "star"@ {
        Some(VotingMethod::Star)
    } else if name == "plurality"@ {
        Some(VotingMethod::Plurality)
    } else if name == "ranked"@ {
        Some(VotingMethod::Ranked)
    } else if name == "approval"@ {
        Some(VotingMethod::Approval)
    } else {
        None
    }
}

/// Reads a voting method name.
pub fn parse_method(name: &str) -> (r: Option<VotingMethod>)
    ensures
        r == method_named(name@),
{
    if str_eq(name, "star") {
        Some(VotingMethod::Star)
    } else if str_eq(name, "plurality") {
        Some(VotingMethod::Plurality)
    } else if str_eq(name, "ranked") {
        Some(VotingMethod::Ranked)
    } else if str_eq(name, "approval") {
        Some(VotingMethod::Approval)
    } else {
        None
    }
}

/// Why a create request was refused.
#[derive(Debug, Clone, Copy, PartialEq, Eq, Structural)]
pub enum CreateError {
    TooFewOptions,
    TooManyOptions,
    InvalidMethod,
}

/// A checked request to create a poll.
#[derive(Debug, Clone)]
pub struct PollRequest {
    pub question: String,
    pub options: Vec<String>,
    pub voting_method: VotingMethod,
    pub duration_minutes: Option<i64>,
    pub allowed_roles: Option<Vec<String>>,
}

/// Reads the option list of a create request.
pub fn split_options(options: &str) -> (r: Vec<String>)
    ensures
        r@.len() == option_texts(split_on(options@, ',')).len(),
        forall|m: int| 0 <= m < r@.len() ==> #[trigger] r@[m]@ == option_texts(split_on(options@, ','))[m],
{
    let pieces = split_string(options, ',');
    let ghost sp = split_on(options@, ',');
    let mut r: Vec<String> = Vec::new();
    let mut i: usize = 0;
    while i < pieces.len()
        invariant
            pieces@.len() == sp.len(),
            forall|m: int| 0 <= m < pieces@.len() ==> #[trigger] pieces@[m]@ == sp[m],
            i <= pieces.len(),
            r@.len() == option_texts(sp.take(i as int)).len(),
            forall|m: int| 0 <= m < r@.len() ==> #[trigger] r@[m]@ == option_texts(sp.take(i as int))[m],
        decreases pieces.len() - i,
    {
        assert(sp.take(i + 1).drop_last() =~= sp.take(i as int));
        assert(pieces@[i as int]@ == sp[i as int]);
        let t = trim_text(pieces[i].as_str());
        if t.unicode_len() > 0 {
            r.push(t);
        }
        i = i + 1;
    }
    assert(sp.take(pieces.len() as int) =~= sp);
    r
}

/// Checks a request to create a poll: 2 to 10 options once trimmed and
/// empty ones dropped, and a known method name; a non-empty role restricts
/// voting to that role.
pub fn parse_poll_request(
    question: String,
    options: &str,
    method: &str,
    duration_minutes: Option<i64>,
    allowed_role: Option<String>,
) -> (r: Result<PollRequest, CreateError>)
    ensures
        ({
            let texts = option_texts(split_on(options@, ','));
            &&& texts.len() < 2 ==> r == Err::<PollRequest, CreateError>(CreateError::TooFewOptions)
            &&& texts.len() > 10 ==> r == Err::<PollRequest, CreateError>(CreateError::TooManyOptions)
            &&& 2 <= texts.len() <= 10 && method_named(method@) is None ==> r == Err::<PollRequest, CreateError>(
                CreateError::InvalidMethod,
            )
            &&& 2 <= texts.len() <= 10 && method_named(method@) is Some ==> (r matches Ok(req) && {
                &&& req.question == question
                &&& req.options@.len() == texts.len()
                &&& forall|m: int| 0 <= m < texts.len() ==> #[trigger] req.options@[m]@ == texts[m]
                &&& Some(req.voting_method) == method_named(method@)
                &&& req.duration_minutes == duration_minutes
                &&& match allowed_role {
                    Some(role) => if role@.len() > 0 {
                        req.allowed_roles matches Some(v) && v@ == seq![role]
                    } else {
                        req.allowed_roles is None
                    },
                    None => req.allowed_roles is None,
                }
            })
        }),
{
    let texts = split_options(options);
    if texts.len() < 2 {
        return Err(CreateError::TooFewOptions);
    }
    if texts.len() > 10 {
        return Err(CreateError::TooManyOptions);
    }
    let voting_method = match parse_method(method) {
        Some(m) => m,
        None => return Err(CreateError::InvalidMethod),
    };
    let allowed_roles = match allowed_role {
        Some(role) => {
            if role.as_str().unicode_len() > 0 {
                let mut v: Vec<String> = Vec::new();
                v.push(role);
                assert(v@ =~= seq![v@[0]]);
                Some(v)
            } else {
                None
            }
        },
        None => None,
    };
    Ok(PollRequest { question, options: texts, voting_method, duration_minutes, allowed_roles })
}

/// Whether a member may vote in a poll.
#[derive(Debug, Clone, Copy, PartialEq, Eq, Structural)]
pub enum VoteGate {
    Allowed,
    Denied,
    /// The poll is restricted and the member's roles are not known.
    Unverifiable,
}

/// A poll without a role list, or with an empty one, admits anyone; one
/// with roles admits members holding at least one of them.
pub open spec fn gate_of(allowed: Option<Seq<String>>, member: Option<Seq<String>>) -> VoteGate {
    match allowed {
        None => VoteGate::Allowed,
        Some(a) => if a.len() == 0 {
            VoteGate::Allowed
        } else {
            match member {
                None => VoteGate::Unverifiable,
                Some(m) => if exists|i: int, j: int| 0 <= i < m.len() && 0 <= j < a.len() && m[i]@ == a[j]@ {
                    VoteGate::Allowed
                } else {
                    VoteGate::Denied
                },
            }
        },
    }
}

/// Decides whether a member with roles `member_roles` may vote.
pub fn voter_allowed(allowed_roles: &Option<Vec<String>>, member_roles: &Option<Vec<String>>) -> (r: VoteGate)
    ensures
        r == gate_of(crate::models::roles_view(*allowed_roles), crate::models::roles_view(*member_roles)),
{
    let a = match allowed_roles {
        None => return VoteGate::Allowed,
        Some(a) => a,
    };
    if a.len() == 0 {
        return VoteGate::Allowed;
    }
    let m = match member_roles {
        None => return VoteGate::Unverifiable,
        Some(m) => m,
    };
    let mut i: usize = 0;
    while i < m.len()
        invariant
            crate::models::roles_view(*allowed_roles) == Some(a@),
            crate::models::roles_view(*member_roles) == Some(m@),
            a@.len() > 0,
            i <= m.len(),
            forall|x: int, y: int| 0 <= x < i && 0 <= y < a.len() ==> m@[x]@ != a@[y]@,
        decreases m.len() - i,
    {
        let mut j: usize = 0;
        while j < a.len()
            invariant
                crate::models::roles_view(*allowed_roles) == Some(a@),
                crate::models::roles_view(*member_roles) == Some(m@),
                a@.len() > 0,
                i < m.len(),
                j <= a.len(),
                forall|x: int, y: int| 0 <= x < i && 0 <= y < a.len() ==> m@[x]@ != a@[y]@,
                forall|y: int| 0 <= y < j ==> m@[i as int]@ != a@[y]@,
            decreases a.len() - j,
        {
            if m[i] == a[j] {
                proof {
                    let mm = m@;
                    let aa = a@;
                    assert(mm[i as int]@ == aa[j as int]@);
                    assert(exists|x: int, y: int| 0 <= x < mm.len() && 0 <= y < aa.len() && mm[x]@ == aa[y]@);
                    assert(gate_of(Some(aa), Some(mm)) == VoteGate::Allowed);
                }
                return VoteGate::Allowed;
            }
            j = j + 1;
        }
        i = i + 1;
    }
    VoteGate::Denied
}

/// The entries a plurality pick writes: 1 for the picked option, 0 for
/// every other option of the poll.
pub fn plurality_ballot(poll: &Poll, user_id: &str, option_id: &str, now: i64) -> (r: Vec<Vote>)
    ensures
        r@.len() == poll.options@.len(),
        forall|k: int|
            0 <= k < r@.len() ==> {
                &&& #[trigger] r@[k].user_id@ == user_id@
                &&& r@[k].poll_id == poll.id
                &&& r@[k].option_id == poll.options@[k].id
                &&& r@[k].rating == if poll.options@[k].id@ == option_id@ { 1i32 } else { 0i32 }
                &&& r@[k].timestamp == now
            },
{
    let mut r: Vec<Vote> = Vec::new();
    let mut k: usize = 0;
    while k < poll.options.len()
        invariant
            k <= poll.options.len(),
            r@.len() == k,
            forall|q: int|
                0 <= q < k ==> {
                    &&& #[trigger] r@[q].user_id@ == user_id@
                    &&& r@[q].poll_id == poll.id
                    &&& r@[q].option_id == poll.options@[q].id
                    &&& r@[q].rating == if poll.options@[q].id@ == option_id@ { 1i32 } else { 0i32 }
                    &&& r@[q].timestamp == now
                },
        decreases poll.options.len() - k,
    {
        let rating: i32 = if str_eq(poll.options[k].id.as_str(), option_id) { 1 } else { 0 };
        let v = Vote {
            user_id: user_id.to_owned(),
            poll_id: poll.id.clone(),
            option_id: poll.options[k].id.clone(),
            rating,
            timestamp: now,
        };
        assert(v.user_id@ == user_id@);
        r.push(v);
        assert(r@[k as int] == v);
        k = k + 1;
    }
    r
}

/// The approval rating a toggle writes: approved becomes not approved and
/// the other way round.
pub open spec fn toggled(current: i32) -> i32 {
    if current >= 1 {
        0
    } else {
        1
    }
}

/// Flips an approval rating.
pub fn toggle_approval(current: i32) -> (r: i32)
    ensures
        r == toggled(current),
{
    if current >= 1 {
        0
    } else {
        1
    }
}

/// The rank voter entries give option `id`: the latest positive rating, or 0.
pub open spec fn rank_in(votes: Seq<Vote>, id: Seq<char>) -> i32
    decreases votes.len(),
{
    if votes.len() == 0 {
        0
    } else if votes.last().option_id@ == id && votes.last().rating > 0 {
        votes.last().rating
    } else {
        rank_in(votes.drop_last(), id)
    }
}

/// A voter's rank for every option of a poll, from the voter's entries.
pub fn ranks_of(options: &Vec<PollOption>, user_votes: &Vec<Vote>) -> (r: Vec<i32>)
    ensures
        r@.len() == options@.len(),
        forall|k: int| 0 <= k < r@.len() ==> r@[k] == rank_in(user_votes@, options@[k].id@),
{
    let mut r: Vec<i32> = Vec::new();
    let mut k: usize = 0;
    while k < options.len()
        invariant
            k <= options.len(),
            r@.len() == k,
            forall|q: int| 0 <= q < k ==> r@[q] == rank_in(user_votes@, options@[q].id@),
        decreases options.len() - k,
    {
        let mut rank: i32 = 0;
        let mut j: usize = 0;
        while j < user_votes.len()
            invariant
                k < options.len(),
                j <= user_votes.len(),
                rank == rank_in(user_votes@.take(j as int), options@[k as int].id@),
            decreases user_votes.len() - j,
        {
            assert(user_votes@.take(j + 1).drop_last() =~= user_votes@.take(j as int));
            if user_votes[j].option_id == options[k].id && user_votes[j].rating > 0 {
                rank = user_votes[j].rating;
            }
            j = j + 1;
        }
        assert(user_votes@.take(user_votes.len() as int) =~= user_votes@);
        r.push(rank);
        k = k + 1;
    }
    r
}

/// The largest rank, 0 when none.
pub open spec fn max_rank(ranks: Seq<i32>) -> i32
    decreases ranks.len(),
{
    if ranks.len() == 0 {
        0
    } else {
        let m = max_rank(ranks.drop_last());
        if ranks.last() > m {
            ranks.last()
        } else {
            m
        }
    }
}

proof fn lemma_max_rank(ranks: Seq<i32>)
    requires
        forall|j: int| 0 <= j < ranks.len() ==> 0 <= #[trigger] ranks[j],
    ensures
        0 <= max_rank(ranks),
        forall|j: int| 0 <= j < ranks.len() ==> ranks[j] <= max_rank(ranks),
        ranks.len() == 0 || exists|j: int| 0 <= j < ranks.len() && ranks[j] == max_rank(ranks),
    decreases ranks.len(),
{
    if ranks.len() > 0 {
        let d = ranks.drop_last();
        lemma_max_rank(d);
        assert forall|j: int| 0 <= j < ranks.len() implies ranks[j] <= max_rank(ranks) by {
            if j < d.len() {
                assert(d[j] == ranks[j]);
            }
        }
        if d.len() > 0 && max_rank(ranks) == max_rank(d) {
            let j = choose|j: int| 0 <= j < d.len() && d[j] == max_rank(d);
            assert(ranks[j] == d[j]);
        }
    }
}

/// Number of options other than `k` among the first `n` ranked above rank `v`.
pub open spec fn ranked_before(ranks: Seq<i32>, k: int, v: i32, n: int) -> nat {
    count_upto(n, |x: int| x != k && 0 < ranks[x] && ranks[x] < v)
}

/// The ranks after `action` on option `k`. Up moves a ranked option one
/// place up, swapping with the one above, and ranks an unranked one last;
/// down moves it one place down, swapping with the one below, or past the
/// end when it is last, and ranks an unranked one last; remove unranks it
/// and numbers the others 1, 2, … in their order.
pub open spec fn ranks_after(ranks: Seq<i32>, k: int, action: RankAction) -> Seq<i32> {
    let cur = ranks[k];
    let top = max_rank(ranks);
    match action {
        RankAction::Up => if cur == 0 {
            ranks.update(k, (top + 1) as i32)
        } else if cur > 1 {
            Seq::new(
                ranks.len(),
                |j: int|
                    if j == k {
                        (cur - 1) as i32
                    } else if ranks[j] == cur - 1 {
                        cur
                    } else {
                        ranks[j]
                    },
            )
        } else {
            ranks
        },
        RankAction::Down => if cur > 0 && cur < top {
            Seq::new(
                ranks.len(),
                |j: int|
                    if j == k {
                        (cur + 1) as i32
                    } else if ranks[j] == cur + 1 {
                        cur
                    } else {
                        ranks[j]
                    },
            )
        } else {
            ranks.update(k, (top + 1) as i32)
        },
        RankAction::Remove => if cur > 0 {
            Seq::new(
                ranks.len(),
                |j: int|
                    if j == k || ranks[j] <= 0 {
                        0i32
                    } else {
                        (1 + ranked_before(ranks, k, ranks[j], ranks.len() as int)) as i32
                    },
            )
        } else {
            ranks
        },
    }
}

fn max_of(ranks: &Vec<i32>) -> (r: i32)
    ensures
        r == max_rank(ranks@),
{
    let mut m: i32 = 0;
    let mut j: usize = 0;
    while j < ranks.len()
        invariant
            j <= ranks.len(),
            m == max_rank(ranks@.take(j as int)),
        decreases ranks.len() - j,
    {
        assert(ranks@.take(j + 1).drop_last() =~= ranks@.take(j as int));
        if ranks[j] > m {
            m = ranks[j];
        }
        j = j + 1;
    }
    assert(ranks@.take(ranks.len() as int) =~= ranks@);
    m
}

/// Applies a ranking action to option `k`.
pub fn apply_rank_action(ranks: &Vec<i32>, k: usize, action: RankAction) -> (r: Vec<i32>)
    requires
        k < ranks.len(),
        ranks.len() < i32::MAX,
        forall|j: int| 0 <= j < ranks.len() ==> 0 <= #[trigger] ranks@[j] < i32::MAX,
    ensures
        r@ == ranks_after(ranks@, k as int, action),
{
    proof {
        lemma_max_rank(ranks@);
    }
    let cur = ranks[k];
    let top = max_of(ranks);
    let n = ranks.len();
    let mut r: Vec<i32> = Vec::new();
    match action {
        RankAction::Up => {
            if cur == 0 {
                let mut v = copy_ranks(ranks);
                v.set(k, top + 1);
                return v;
            } else if cur > 1 {
                let mut j: usize = 0;
                while j < n
                    invariant
                        n == ranks.len(),
                        k < n,
                        cur == ranks@[k as int],
                        cur > 1,
                        j <= n,
                        r@.len() == j,
                        forall|q: int|
                            0 <= q < j ==> r@[q] == (if q == k {
                                (cur - 1) as i32
                            } else if ranks@[q] == cur - 1 {
                                cur
                            } else {
                                ranks@[q]
                            }),
                    decreases n - j,
                {
                    let v = if j == k {
                        cur - 1
                    } else if ranks[j] == cur - 1 {
                        cur
                    } else {
                        ranks[j]
                    };
                    r.push(v);
                    j = j + 1;
                }
                assert(r@ =~= ranks_after(ranks@, k as int, action));
                return r;
            } else {
                return copy_ranks(ranks);
            }
        },
        RankAction::Down => {
            if cur > 0 && cur < top {
                let mut j: usize = 0;
                while j < n
                    invariant
                        n == ranks.len(),
                        k < n,
                        cur == ranks@[k as int],
                        0 < cur < i32::MAX,
                        j <= n,
                        r@.len() == j,
                        forall|q: int|
                            0 <= q < j ==> r@[q] == (if q == k {
                                (cur + 1) as i32
                            } else if ranks@[q] == cur + 1 {
                                cur
                            } else {
                                ranks@[q]
                            }),
                    decreases n - j,
                {
                    let v = if j == k {
                        cur + 1
                    } else if ranks[j] == cur + 1 {
                        cur
                    } else {
                        ranks[j]
                    };
                    r.push(v);
                    j = j + 1;
                }
                assert(r@ =~= ranks_after(ranks@, k as int, action));
                return r;
            } else {
                let mut v = copy_ranks(ranks);
                v.set(k, top + 1);
                return v;
            }
        },
        RankAction::Remove => {
            if cur <= 0 {
                return copy_ranks(ranks);
            }
            let mut j: usize = 0;
            while j < n
                invariant
                    n == ranks.len(),
                    n < i32::MAX,
                    k < n,
                    cur == ranks@[k as int],
                    cur > 0,
                    j <= n,
                    r@.len() == j,
                    forall|q: int|
                        0 <= q < j ==> r@[q] == (if q == k || ranks@[q] <= 0 {
                            0i32
                        } else {
                            (1 + ranked_before(ranks@, k as int, ranks@[q], n as int)) as i32
                        }),
                decreases n - j,
            {
                if j == k || ranks[j] <= 0 {
                    r.push(0);
                } else {
                    let mut c: usize = 0;
                    let mut x: usize = 0;
                    while x < n
                        invariant
                            n == ranks.len(),
                            j < n,
                            x <= n,
                            c <= x,
                            c == ranked_before(ranks@, k as int, ranks@[j as int], x as int),
                        decreases n - x,
                    {
                        if x != k && 0 < ranks[x] && ranks[x] < ranks[j] {
                            c = c + 1;
                        }
                        x = x + 1;
                    }
                    r.push((1 + c) as i32);
                }
                j = j + 1;
            }
            assert(r@ =~= ranks_after(ranks@, k as int, action));
            r
        },
    }
}

fn copy_ranks(ranks: &Vec<i32>) -> (r: Vec<i32>)
    ensures
        r@ == ranks@,
{
    let mut r: Vec<i32> = Vec::new();
    let mut j: usize = 0;
    while j < ranks.len()
        invariant
            j <= ranks.len(),
            r@ == ranks@.take(j as int),
        decreases ranks.len() - j,
    {
        r.push(ranks[j]);
        assert(r@ =~= ranks@.take(j + 1));
        j = j + 1;
    }
    assert(ranks@.take(ranks.len() as int) =~= ranks@);
    r
}

/// The entries a ranking writes: option `k` of the poll gets rank `ranks[k]`.
pub fn rank_ballot(poll: &Poll, user_id: &str, ranks: &Vec<i32>, now: i64) -> (r: Vec<Vote>)
    requires
        ranks.len() == poll.options.len(),
    ensures
        r@.len() == poll.options@.len(),
        forall|k: int|
            0 <= k < r@.len() ==> {
                &&& #[trigger] r@[k].user_id@ == user_id@
                &&& r@[k].poll_id == poll.id
                &&& r@[k].option_id == poll.options@[k].id
                &&& r@[k].rating == ranks@[k]
                &&& r@[k].timestamp == now
            },
{
    let mut r: Vec<Vote> = Vec::new();
    let mut k: usize = 0;
    while k < poll.options.len()
        invariant
            ranks.len() == poll.options.len(),
            k <= poll.options.len(),
            r@.len() == k,
            forall|q: int|
                0 <= q < k ==> {
                    &&& #[trigger] r@[q].user_id@ == user_id@
                    &&& r@[q].poll_id == poll.id
                    &&& r@[q].option_id == poll.options@[q].id
                    &&& r@[q].rating == ranks@[q]
                    &&& r@[q].timestamp == now
                },
        decreases poll.options.len() - k,
    {
        r.push(
            Vote {
                user_id: user_id.to_owned(),
                poll_id: poll.id.clone(),
                option_id: poll.options[k].id.clone(),
                rating: ranks[k],
                timestamp: now,
            },
        );
        k = k + 1;
    }
    r
}

/// Options shown on one page of a star ballot.
pub const OPTIONS_PER_PAGE: usize = 4;

/// One page of a star ballot: its number, the page count, and the range of
/// options it shows.
#[derive(Debug, Clone, Copy, PartialEq, Eq, Structural)]
pub struct StarPage {
    pub page: usize,
    pub total_pages: usize,
    pub start: usize,
    pub end: usize,
}

/// The page `page` of a star ballot over `n` options, four to a page; a
/// page past the end shows the last one.
pub open spec fn star_page_spec(n: nat, page: nat) -> StarPage {
    let total = (n + 3) / 4;
    let p = if total == 0 { 0 } else if page < total { page } else { (total - 1) as nat };
    let start = p * 4;
    let end = if start + 4 < n { start + 4 } else { n };
    StarPage { page: p as usize, total_pages: total as usize, start: start as usize, end: end as usize }
}

/// Computes the page of a star ballot.
pub fn star_page(n: usize, page: u64) -> (r: StarPage)
    ensures
        r == star_page_spec(n as nat, page as nat),
        r.start <= r.end <= n,
{
    let total: usize = n / 4 + if n % 4 == 0 { 0 } else { 1 };
    assert(total == (n + 3) / 4);
    let p: usize = if total == 0 {
        0
    } else if page < total as u64 {
        page as usize
    } else {
        total - 1
    };
    assert(p * 4 < n || n == 0) by (nonlinear_arith)
        requires
            total == (n + 3) / 4,
            total == 0 ==> p == 0,
            total > 0 ==> p < total;
    let start: usize = p * 4;
    let end: usize = if n - start > 4 { start + 4 } else { n };
    StarPage { page: p, total_pages: total, start, end }
}

/// The star-ballot page that shows option `option_id`; 0 when the poll has no such option.
pub fn star_page_of(options: &Vec<PollOption>, option_id: &String) -> (r: usize)
    ensures
        r == (if crate::voting::option_slot(options@, option_id@) < options@.len() {
            crate::voting::option_slot(options@, option_id@) / 4
        } else {
            0
        }),
{
    let k = crate::voting::find_option(options, option_id);
    if k < options.len() {
        k / 4
    } else {
        0
    }
}

/// The rating the latest of `votes` for option `id` gives, or 0.
pub open spec fn rating_in(votes: Seq<Vote>, id: Seq<char>) -> i32
    decreases votes.len(),
{
    if votes.len() == 0 {
        0
    } else if votes.last().option_id@ == id {
        votes.last().rating
    } else {
        rating_in(votes.drop_last(), id)
    }
}

/// A voter's rating of every option of a poll, from the voter's entries.
pub fn ratings_of(options: &Vec<PollOption>, user_votes: &Vec<Vote>) -> (r: Vec<i32>)
    ensures
        r@.len() == options@.len(),
        forall|k: int| 0 <= k < r@.len() ==> r@[k] == rating_in(user_votes@, options@[k].id@),
{
    let mut r: Vec<i32> = Vec::new();
    let mut k: usize = 0;
    while k < options.len()
        invariant
            k <= options.len(),
            r@.len() == k,
            forall|q: int| 0 <= q < k ==> r@[q] == rating_in(user_votes@, options@[q].id@),
        decreases options.len() - k,
    {
        let mut rating: i32 = 0;
        let mut j: usize = 0;
        while j < user_votes.len()
            invariant
                k < options.len(),
                j <= user_votes.len(),
                rating == rating_in(user_votes@.take(j as int), options@[k as int].id@),
            decreases user_votes.len() - j,
        {
            assert(user_votes@.take(j + 1).drop_last() =~= user_votes@.take(j as int));
            if user_votes[j].option_id == options[k].id {
                rating = user_votes[j].rating;
            }
            j = j + 1;
        }
        assert(user_votes@.take(user_votes.len() as int) =~= user_votes@);
        r.push(rating);
        k = k + 1;
    }
    r
}

/// The options keyed by their text, so that listing them orders ties by text.
pub open spec fn text_keyed(options: Seq<PollOption>) -> Seq<PollOption> {
    Seq::new(options.len(), |k: int| PollOption { id: options[k].text, text: options[k].text })
}

/// Display weights: a ranked option outweighs every unranked one, and a
/// better (smaller) rank outweighs a worse one.
pub open spec fn display_weights(ranks: Seq<i32>) -> Seq<u64> {
    Seq::new(ranks.len(), |k: int| if ranks[k] > 0 { (0x8000_0000 - ranks[k]) as u64 } else { 0u64 })
}

/// The order in which a ranking is shown: ranked options by rank, then the
/// unranked ones by text.
pub open spec fn display_order(options: Seq<PollOption>, ranks: Seq<i32>) -> Seq<usize> {
    listing(text_keyed(options), display_weights(ranks), all_options(options.len() as int), options.len() as int)
}

/// Computes `display_order`.
pub fn ranked_display_order(options: &Vec<PollOption>, ranks: &Vec<i32>) -> (r: Vec<usize>)
    requires
        ranks.len() == options.len(),
    ensures
        r@ == display_order(options@, ranks@),
        forall|m: int| 0 <= m < r@.len() ==> r@[m] < options@.len(),
{
    let n = options.len();
    let mut keyed: Vec<PollOption> = Vec::new();
    let mut weights: Vec<u64> = Vec::new();
    let mut all: Vec<bool> = Vec::new();
    let mut k: usize = 0;
    while k < n
        invariant
            n == options.len(),
            ranks.len() == n,
            k <= n,
            keyed@.len() == k,
            weights@.len() == k,
            all@.len() == k,
            forall|q: int| 0 <= q < k ==> keyed@[q] == text_keyed(options@)[q],
            forall|q: int| 0 <= q < k ==> weights@[q] == display_weights(ranks@)[q],
            forall|q: int| 0 <= q < k ==> all@[q],
        decreases n - k,
    {
        keyed.push(PollOption { id: options[k].text.clone(), text: options[k].text.clone() });
        let w: u64 = if ranks[k] > 0 { (2147483648i64 - ranks[k] as i64) as u64 } else { 0 };
        weights.push(w);
        all.push(true);
        k = k + 1;
    }
    assert(keyed@ =~= text_keyed(options@));
    assert(weights@ =~= display_weights(ranks@));
    assert(all@ =~= all_options(n as int));
    list_options(&keyed, &weights, &all)
}

/// `s` written `n` times.
pub open spec fn repeated(s: Seq<char>, n: nat) -> Seq<char>
    decreases n,
{
    if n == 0 {
        Seq::empty()
    } else {
        repeated(s, (n - 1) as nat) + s
    }
}

/// How the confirmation marks one option under each method.
pub open spec fn ballot_mark(method: VotingMethod, rating: i32) -> Seq<char> {
    match method {
        VotingMethod::Star => repeated("⭐"@, if rating > 0 { rating as nat } else { 0 }),
        VotingMethod::Plurality => if rating > 0 { "✓"@ } else { " "@ },
        VotingMethod::Approval => if rating == 1 { "✅"@ } else { "❌"@ },
        VotingMethod::Ranked => if rating > 0 { "#"@ + decimal(rating as nat) } else { "Unranked"@ },
    }
}

/// One confirmation line: `text: mark`, or for a ranking `mark: text`.
pub open spec fn ballot_line(method: VotingMethod, text: Seq<char>, rating: i32) -> Seq<char> {
    if method == VotingMethod::Ranked {
        ballot_mark(method, rating) + ": "@ + text + "\n"@
    } else {
        text + ": "@ + ballot_mark(method, rating) + "\n"@
    }
}

/// The confirmation lines for options `order[0..m]`.
pub open spec fn ballot_lines(
    method: VotingMethod,
    options: Seq<PollOption>,
    ratings: Seq<i32>,
    order: Seq<usize>,
) -> Seq<char>
    decreases order.len(),
{
    if order.len() == 0 {
        Seq::empty()
    } else {
        ballot_lines(method, options, ratings, order.drop_last()) + ballot_line(
            method,
            options[order.last() as int].text@,
            ratings[order.last() as int],
        )
    }
}

/// The order of the confirmation lines: the poll's order, or for a ranking
/// the display order.
pub open spec fn summary_order(poll: Poll, ratings: Seq<i32>) -> Seq<usize> {
    if poll.voting_method == VotingMethod::Ranked {
        display_order(poll.options@, ratings)
    } else {
        Seq::new(poll.options@.len(), |k: int| k as usize)
    }
}

/// What a voter sees after finishing a ballot.
pub open spec fn ballot_summary_text(poll: Poll, ratings: Seq<i32>) -> Seq<char> {
    "**"@ + poll.question@ + "**\n"@ + method_name(poll.voting_method) + " Voting\n\nYour vote has been recorded:\n"@
        + ballot_lines(poll.voting_method, poll.options@, ratings, summary_order(poll, ratings))
}

fn push_ballot_line(s: &mut String, method: VotingMethod, text: &String, rating: i32)
    ensures
        final(s)@ == old(s)@ + ballot_line(method, text@, rating),
{
    let ghost start = s@;
    if method == VotingMethod::Ranked {
        if rating > 0 {
            push_str(s, "#");
            push_decimal(s, rating as u128);
        } else {
            push_str(s, "Unranked");
        }
        push_str(s, ": ");
        push_str(s, text.as_str());
        push_str(s, "\n");
    } else {
        push_str(s, text.as_str());
        push_str(s, ": ");
        match method {
            VotingMethod::Star => {
                let mut i: i32 = 0;
                let ghost base = s@;
                while i < rating
                    invariant
                        0 <= i,
                        rating > 0 ==> i <= rating,
                        rating <= 0 ==> i == 0,
                        s@ == base + repeated("⭐"@, i as nat),
                    decreases rating - i,
                {
                    push_str(s, "⭐");
                    i = i + 1;
                }
                assert(repeated("⭐"@, if rating > 0 { rating as nat } else { 0 }) == repeated("⭐"@, i as nat));
            },
            VotingMethod::Plurality => {
                if rating > 0 {
                    push_str(s, "✓");
                } else {
                    push_str(s, " ");
                }
            },
            _ => {
                if rating == 1 {
                    push_str(s, "✅");
                } else {
                    push_str(s, "❌");
                }
            },
        }
        push_str(s, "\n");
    }
    assert(s@ =~= start + ballot_line(method, text@, rating));
}

fn lines_order(poll: &Poll, ratings: &Vec<i32>) -> (r: Vec<usize>)
    requires
        ratings.len() == poll.options.len(),
    ensures
        r@ == summary_order(*poll, ratings@),
        forall|q: int| 0 <= q < r@.len() ==> r@[q] < poll.options@.len(),
{
    if poll.voting_method == VotingMethod::Ranked {
        ranked_display_order(&poll.options, ratings)
    } else {
        let mut o: Vec<usize> = Vec::new();
        let mut k: usize = 0;
        while k < poll.options.len()
            invariant
                k <= poll.options.len(),
                o@.len() == k,
                forall|q: int| 0 <= q < k ==> o@[q] == q,
            decreases poll.options.len() - k,
        {
            o.push(k);
            k = k + 1;
        }
        assert(o@ =~= Seq::new(poll.options@.len(), |q: int| q as usize));
        o
    }
}

fn push_ballot_lines(s: &mut String, poll: &Poll, ratings: &Vec<i32>, order: &Vec<usize>)
    requires
        ratings.len() == poll.options.len(),
        forall|q: int| 0 <= q < order@.len() ==> order@[q] < poll.options@.len(),
    ensures
        final(s)@ == old(s)@ + ballot_lines(poll.voting_method, poll.options@, ratings@, order@),
{
    let mut m: usize = 0;
    while m < order.len()
        invariant
            ratings.len() == poll.options.len(),
            forall|q: int| 0 <= q < order@.len() ==> order@[q] < poll.options@.len(),
            m <= order.len(),
            s@ == old(s)@ + ballot_lines(poll.voting_method, poll.options@, ratings@, order@.take(m as int)),
        decreases order.len() - m,
    {
        assert(order@.take(m + 1).drop_last() =~= order@.take(m as int));
        let k = order[m];
        push_ballot_line(s, poll.voting_method, &poll.options[k].text, ratings[k]);
        assert(s@ =~= old(s)@ + ballot_lines(poll.voting_method, poll.options@, ratings@, order@.take(m + 1)));
        m = m + 1;
    }
    assert(order@.take(order.len() as int) =~= order@);
}

/// The confirmation a voter sees after finishing a ballot, given the
/// voter's rating of every option.
pub fn ballot_summary(poll: &Poll, ratings: &Vec<i32>) -> (r: String)
    requires
        ratings.len() == poll.options.len(),
    ensures
        r@ == ballot_summary_text(*poll, ratings@),
{
    let mut s = String::new();
    push_str(&mut s, "**");
    push_str(&mut s, poll.question.as_str());
    push_str(&mut s, "**\n");
    push_str(&mut s, poll.voting_method.name());
    push_str(&mut s, " Voting\n\nYour vote has been recorded:\n");
    let order = lines_order(poll, ratings);
    push_ballot_lines(&mut s, poll, ratings, &order);
    assert(s@ =~= ballot_summary_text(*poll, ratings@));
    s
}

} // verus!
