use vstd::prelude::*;
use crate::text::{decimal, digit_char, push_decimal, push_str, str_eq};

verus! {

/// One answer a poll offers; `id` is its stable identity.
#[derive(Debug, Clone)]
pub struct PollOption {
    pub id: String,
    pub text: String,
}

/// The voting methods a poll can be tallied by.
#[derive(Debug, Clone, Copy, PartialEq, Eq, Structural)]
pub enum VotingMethod {
    Star,
    Plurality,
    Ranked,
    Approval,
}

/// One ballot entry: `user_id`'s rating of option `option_id` in poll
/// `poll_id`, written at `timestamp` (milliseconds since the Unix epoch).
#[derive(Debug, Clone)]
pub struct Vote {
    pub user_id: String,
    pub poll_id: String,
    pub option_id: String,
    pub rating: i32,
    pub timestamp: i64,
}

/// A poll. Times are milliseconds since the Unix epoch; `ends_at` is `None`
/// for a poll that only closes on request, and `allowed_roles` restricts who
/// may vote (`None`: anyone).
#[derive(Debug, Clone)]
pub struct Poll {
    pub id: String,
    pub guild_id: String,
    pub channel_id: String,
    pub creator_id: String,
    pub question: String,
    pub options: Vec<PollOption>,
    pub voting_method: VotingMethod,
    pub created_at: i64,
    pub ends_at: Option<i64>,
    pub is_active: bool,
    pub message_id: Option<String>,
    pub allowed_roles: Option<Vec<String>>,
}

impl Vote {
    /// A field-by-field copy.
    pub fn duplicate(&self) -> (r: Vote)
        ensures
            r == *self,
    {
        Vote {
            user_id: self.user_id.clone(),
            poll_id: self.poll_id.clone(),
            option_id: self.option_id.clone(),
            rating: self.rating,
            timestamp: self.timestamp,
        }
    }
}

/// The roles a poll admits, as a sequence.
pub open spec fn roles_view(r: Option<Vec<String>>) -> Option<Seq<String>> {
    match r {
        Some(v) => Some(v@),
        None => None,
    }
}

/// Two polls hold the same data.
pub open spec fn same_poll(a: Poll, b: Poll) -> bool {
    &&& a.id == b.id
    &&& a.guild_id == b.guild_id
    &&& a.channel_id == b.channel_id
    &&& a.creator_id == b.creator_id
    &&& a.question == b.question
    &&& a.options@ == b.options@
    &&& a.voting_method == b.voting_method
    &&& a.created_at == b.created_at
    &&& a.ends_at == b.ends_at
    &&& a.is_active == b.is_active
    &&& a.message_id == b.message_id
    &&& roles_view(a.allowed_roles) == roles_view(b.allowed_roles)
}

/// A copy of a list of strings.
pub fn copy_strings(v: &Vec<String>) -> (r: Vec<String>)
    ensures
        r@ == v@,
{
    let mut r: Vec<String> = Vec::new();
    let mut i: usize = 0;
    while i < v.len()
        invariant
            i <= v.len(),
            r@ == v@.take(i as int),
        decreases v.len() - i,
    {
        r.push(v[i].clone());
        assert(r@ =~= v@.take(i + 1));
        i = i + 1;
    }
    assert(v@.take(v.len() as int) =~= v@);
    r
}

/// A copy of an optional string.
pub fn copy_opt_string(v: &Option<String>) -> (r: Option<String>)
    ensures
        r == *v,
{
    match v {
        Some(s) => Some(s.clone()),
        None => None,
    }
}

/// A copy of a list of options.
pub fn copy_options(v: &Vec<PollOption>) -> (r: Vec<PollOption>)
    ensures
        r@ == v@,
{
    let mut r: Vec<PollOption> = Vec::new();
    let mut i: usize = 0;
    while i < v.len()
        invariant
            i <= v.len(),
            r@ == v@.take(i as int),
        decreases v.len() - i,
    {
        r.push(v[i].duplicate());
        assert(r@ =~= v@.take(i + 1));
        i = i + 1;
    }
    assert(v@.take(v.len() as int) =~= v@);
    r
}

impl Poll {
    /// A field-by-field copy.
    pub fn duplicate(&self) -> (r: Poll)
        ensures
            same_poll(r, *self),
    {
        let allowed_roles = match &self.allowed_roles {
            Some(v) => Some(copy_strings(v)),
            None => None,
        };
        Poll {
            id: self.id.clone(),
            guild_id: self.guild_id.clone(),
            channel_id: self.channel_id.clone(),
            creator_id: self.creator_id.clone(),
            question: self.question.clone(),
            options: copy_options(&self.options),
            voting_method: self.voting_method,
            created_at: self.created_at,
            ends_at: self.ends_at,
            is_active: self.is_active,
            message_id: copy_opt_string(&self.message_id),
            allowed_roles,
        }
    }
}

/// One minute in milliseconds.
pub const MINUTE_MS: i64 = 60_000;

/// The deadline length used when none is given: one day, in minutes.
pub const DEFAULT_DURATION_MINUTES: i64 = 1440;

/// `created_at` plus `minutes` minutes, held within the range of `i64`.
pub open spec fn shifted(created_at: i64, minutes: i64) -> i64 {
    let t = created_at + minutes * 60_000;
    if t > i64::MAX {
        i64::MAX
    } else if t < i64::MIN {
        i64::MIN
    } else {
        t as i64
    }
}

/// The deadline of a poll created at `created_at`: one day later when no
/// duration is given, none (manual close only) for a duration of 0, else
/// that many minutes later.
pub open spec fn deadline(created_at: i64, duration_minutes: Option<i64>) -> Option<i64> {
    match duration_minutes {
        None => Some(shifted(created_at, 1440)),
        Some(m) => if m == 0 {
            None
        } else {
            Some(shifted(created_at, m))
        },
    }
}

/// Computes `deadline`.
pub fn deadline_of(created_at: i64, duration_minutes: Option<i64>) -> (r: Option<i64>)
    ensures
        r == deadline(created_at, duration_minutes),
{
    let m = match duration_minutes {
        None => DEFAULT_DURATION_MINUTES,
        Some(m) => {
            if m == 0 {
                return None;
            }
            m
        },
    };
    let t: i128 = created_at as i128 + (m as i128) * (MINUTE_MS as i128);
    if t > i64::MAX as i128 {
        Some(i64::MAX)
    } else if t < i64::MIN as i128 {
        Some(i64::MIN)
    } else {
        Some(t as i64)
    }
}

/// Relies on uuid's `Uuid::new_v4` and its `Display`: a random identity in
/// the 36-character hyphenated form.
#[verifier::external_body]
fn fresh_id() -> (r: String)
    ensures
        r@.len() == 36,
{
    uuid::Uuid::new_v4().to_string()
}

/// Relies on chrono's `Utc::now` and `timestamp_millis`: the current time in
/// milliseconds since the Unix epoch, which `Utc::now` never places before it.
#[verifier::external_body]
fn now_millis() -> (r: i64)
    ensures
        r >= 0,
{
    chrono::Utc::now().timestamp_millis()
}

/// The option identities differ from each other and from the poll's.
pub open spec fn ids_distinct(poll_id: Seq<char>, option_ids: Seq<String>) -> bool {
    &&& forall|i: int, j: int| 0 <= i < j < option_ids.len() ==> option_ids[i]@ != option_ids[j]@
    &&& forall|i: int| 0 <= i < option_ids.len() ==> option_ids[i]@ != poll_id
}

/// Whether the option identities differ from each other and from the poll's.
pub fn ids_are_distinct(poll_id: &String, option_ids: &Vec<String>) -> (r: bool)
    ensures
        r == ids_distinct(poll_id@, option_ids@),
{
    let n = option_ids.len();
    let mut j: usize = 0;
    while j < n
        invariant
            n == option_ids.len(),
            j <= n,
            forall|a: int, b: int| 0 <= a < b < j ==> option_ids@[a]@ != option_ids@[b]@,
            forall|a: int| 0 <= a < j ==> option_ids@[a]@ != poll_id@,
        decreases n - j,
    {
        if option_ids[j] == *poll_id {
            return false;
        }
        let mut i: usize = 0;
        while i < j
            invariant
                n == option_ids.len(),
                i <= j,
                j < n,
                forall|a: int| 0 <= a < i ==> option_ids@[a]@ != option_ids@[j as int]@,
            decreases j - i,
        {
            if option_ids[i] == option_ids[j] {
                return false;
            }
            i = i + 1;
        }
        j = j + 1;
    }
    true
}

proof fn lemma_decimal_len(n: nat)
    ensures
        decimal(n).len() >= 1,
        n >= 10 ==> decimal(n).len() >= 2,
    decreases n,
{
    if n >= 10 {
        lemma_decimal_len(n / 10);
    }
}

/// Different numbers have different decimal notations.
pub proof fn lemma_decimal_injective(a: nat, b: nat)
    requires
        decimal(a) == decimal(b),
    ensures
        a == b,
    decreases a,
{
    lemma_decimal_len(a);
    lemma_decimal_len(b);
    if a >= 10 && b >= 10 {
        let da = decimal(a);
        assert(da.last() == digit_char(a % 10));
        assert(decimal(b).last() == digit_char(b % 10));
        assert(da.drop_last() =~= decimal(a / 10));
        assert(decimal(b).drop_last() =~= decimal(b / 10));
        lemma_decimal_injective(a / 10, b / 10);
    } else if a < 10 && b < 10 {
        assert(decimal(a)[0] == digit_char(a));
        assert(decimal(b)[0] == digit_char(b));
    }
}

/// The identity derived for option `k` of poll `poll_id`: `poll_id-k`.
pub open spec fn derived_id(poll_id: Seq<char>, k: nat) -> Seq<char> {
    poll_id + "-"@ + decimal(k)
}

proof fn lemma_derived_distinct(poll_id: Seq<char>, a: nat, b: nat)
    ensures
        derived_id(poll_id, a) != poll_id,
        a != b ==> derived_id(poll_id, a) != derived_id(poll_id, b),
{
    lemma_decimal_len(a);
    lemma_decimal_len(b);
    assert(derived_id(poll_id, a).len() > poll_id.len());
    reveal_strlit("-");
    if a != b && derived_id(poll_id, a) == derived_id(poll_id, b) {
        let m = poll_id.len() + 1;
        assert(derived_id(poll_id, a).skip(m as int) =~= decimal(a));
        assert(derived_id(poll_id, b).skip(m as int) =~= decimal(b));
        lemma_decimal_injective(a, b);
    }
}

/// Identities `poll_id-0`, `poll_id-1`, … for `n` options.
fn derived_ids(poll_id: &String, n: usize) -> (r: Vec<String>)
    ensures
        r@.len() == n,
        forall|k: int| 0 <= k < n ==> #[trigger] r@[k]@ == derived_id(poll_id@, k as nat),
        ids_distinct(poll_id@, r@),
{
    let mut r: Vec<String> = Vec::new();
    let mut k: usize = 0;
    while k < n
        invariant
            k <= n,
            r@.len() == k,
            forall|q: int| 0 <= q < k ==> #[trigger] r@[q]@ == derived_id(poll_id@, q as nat),
        decreases n - k,
    {
        let mut id = poll_id.clone();
        push_str(&mut id, "-");
        push_decimal(&mut id, k as u128);
        r.push(id);
        k = k + 1;
    }
    proof {
        assert forall|i: int, j: int| 0 <= i < j < r@.len() implies r@[i]@ != r@[j]@ by {
            lemma_derived_distinct(poll_id@, i as nat, j as nat);
        }
        assert forall|i: int| 0 <= i < r@.len() implies r@[i]@ != poll_id@ by {
            lemma_derived_distinct(poll_id@, i as nat, i as nat);
        }
    }
    r
}

impl Poll {
    /// A new active poll with the given identities and creation time.
    pub fn from_parts(
        id: String,
        guild_id: String,
        channel_id: String,
        creator_id: String,
        question: String,
        options_text: Vec<String>,
        option_ids: Vec<String>,
        voting_method: VotingMethod,
        created_at: i64,
        duration_minutes: Option<i64>,
        allowed_roles: Option<Vec<String>>,
    ) -> (r: Poll)
        requires
            option_ids.len() == options_text.len(),
        ensures
            r.id == id,
            r.guild_id == guild_id,
            r.channel_id == channel_id,
            r.creator_id == creator_id,
            r.question == question,
            r.options@.len() == options_text@.len(),
            forall|k: int|
                0 <= k < options_text@.len() ==> r.options@[k].id == option_ids@[k] && r.options@[k].text
                    == options_text@[k],
            r.voting_method == voting_method,
            r.created_at == created_at,
            r.ends_at == deadline(created_at, duration_minutes),
            r.is_active,
            r.message_id.is_none(),
            roles_view(r.allowed_roles) == roles_view(allowed_roles),
    {
        let mut options: Vec<PollOption> = Vec::new();
        let mut k: usize = 0;
        while k < options_text.len()
            invariant
                option_ids.len() == options_text.len(),
                k <= options_text.len(),
                options.len() == k,
                forall|q: int|
                    0 <= q < k ==> options@[q].id == option_ids@[q] && options@[q].text == options_text@[q],
            decreases options_text.len() - k,
        {
            options.push(PollOption { id: option_ids[k].clone(), text: options_text[k].clone() });
            k = k + 1;
        }
        Poll {
            id,
            guild_id,
            channel_id,
            creator_id,
            question,
            options,
            voting_method,
            created_at,
            ends_at: deadline_of(created_at, duration_minutes),
            is_active: true,
            message_id: None,
            allowed_roles,
        }
    }

    /// A new active poll created now, with fresh random identities for the
    /// poll and each option. Should two drawn identities coincide, the
    /// options are named `poll-id-0`, `poll-id-1`, … instead, so that option
    /// identities always differ from each other and from the poll's.
    pub fn new(
        guild_id: String,
        channel_id: String,
        creator_id: String,
        question: String,
        options_text: Vec<String>,
        voting_method: VotingMethod,
        duration_minutes: Option<i64>,
        allowed_roles: Option<Vec<String>>,
    ) -> (r: Poll)
        ensures
            r.guild_id == guild_id,
            r.channel_id == channel_id,
            r.creator_id == creator_id,
            r.question == question,
            r.id@.len() == 36,
            r.options@.len() == options_text@.len(),
            forall|k: int| 0 <= k < options_text@.len() ==> r.options@[k].text == options_text@[k],
            forall|i: int, j: int| 0 <= i < j < r.options@.len() ==> r.options@[i].id@ != r.options@[j].id@,
            forall|i: int| 0 <= i < r.options@.len() ==> r.options@[i].id@ != r.id@,
            r.voting_method == voting_method,
            r.created_at >= 0,
            r.ends_at == deadline(r.created_at, duration_minutes),
            r.is_active,
            r.message_id.is_none(),
            roles_view(r.allowed_roles) == roles_view(allowed_roles),
    {
        let id = fresh_id();
        let mut option_ids: Vec<String> = Vec::new();
        let mut k: usize = 0;
        while k < options_text.len()
            invariant
                k <= options_text.len(),
                option_ids.len() == k,
                forall|q: int| 0 <= q < k ==> option_ids@[q]@.len() == 36,
            decreases options_text.len() - k,
        {
            option_ids.push(fresh_id());
            k = k + 1;
        }
        let option_ids = if ids_are_distinct(&id, &option_ids) {
            option_ids
        } else {
            derived_ids(&id, options_text.len())
        };
        let created_at = now_millis();
        let ghost oids = option_ids@;
        let ghost pid = id@;
        assert(ids_distinct(pid, oids));
        let r = Poll::from_parts(
            id,
            guild_id,
            channel_id,
            creator_id,
            question,
            options_text,
            option_ids,
            voting_method,
            created_at,
            duration_minutes,
            allowed_roles,
        );
        proof {
            assert forall|i: int, j: int| 0 <= i < j < r.options@.len() implies r.options@[i].id@ != r.options@[j].id@ by {
                assert(r.options@[i].id == oids[i]);
                assert(r.options@[j].id == oids[j]);
            }
            assert forall|i: int| 0 <= i < r.options@.len() implies r.options@[i].id@ != r.id@ by {
                assert(r.options@[i].id == oids[i]);
            }
        }
        r
    }
}

impl PollOption {
    /// A field-by-field copy.
    pub fn duplicate(&self) -> (r: PollOption)
        ensures
            r == *self,
    {
        PollOption { id: self.id.clone(), text: self.text.clone() }
    }
}

/// The display name of a voting method.
pub open spec fn method_name(m: VotingMethod) -> Seq<char> {
    match m {
        VotingMethod::Star => "STAR"@,
        VotingMethod::Plurality => "Plurality"@,
        VotingMethod::Ranked => "Ranked Choice"@,
        VotingMethod::Approval => "Approval"@,
    }
}

impl VotingMethod {
    /// The display name of the method.
    pub fn name(&self) -> (r: &'static str)
        ensures
            r@ == method_name(*self),
    {
        match self {
            VotingMethod::Star => "STAR",
            VotingMethod::Plurality => "Plurality",
            VotingMethod::Ranked => "Ranked Choice",
            VotingMethod::Approval => "Approval",
        }
    }
}

} // verus!
