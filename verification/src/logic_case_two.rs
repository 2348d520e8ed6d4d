//! Per-user recent tags: cookie sharding, adding a tag, and answering a profile query.

use crate::data::{
    read_tag, user_tag_readable, Action, UserTag, UserTagRaw, UserTagRawView, UserTagView,
};
use crate::kafka_aggregator::Aggregator;
use crate::nmax::{push_bounded, NMax};
use crate::time::{parse_time_spec, range_contains, split_on, time_range_parses, TimeRange};
use vstd::prelude::*;

verus! {

/// The sum of the code points of `s`.
pub open spec fn char_sum(s: Seq<char>) -> int
    decreases s.len(),
{
    if s.len() == 0 {
        0
    } else {
        char_sum(s.drop_last()) + (s.last() as u32)
    }
}

proof fn lemma_char_sum_prefix(s: Seq<char>, i: int)
    requires
        0 <= i <= s.len(),
    ensures
        0 <= char_sum(s.take(i)) <= char_sum(s),
    decreases s.len(),
{
    if s.len() > 0 {
        if i == s.len() {
            assert(s.take(i) =~= s);
            lemma_char_sum_prefix(s.drop_last(), i - 1);
            assert(s.drop_last().take(i - 1) =~= s.take(i - 1));
        } else {
            lemma_char_sum_prefix(s.drop_last(), i);
            assert(s.drop_last().take(i) =~= s.take(i));
        }
    }
}

/// Whether the code points of `cookie` sum to a `u32`, which computing its
/// shard needs.
pub fn shard_fits(cookie: &String) -> (r: bool)
    ensures
        r == (char_sum(cookie@) <= u32::MAX),
{
    broadcast use vstd::string::group_string_axioms;
    let mut sum: u32 = 0;
    for c in it: cookie.chars()
        invariant
            it.seq() == cookie@,
            sum == char_sum(cookie@.take(it.index())),
    {
        proof {
            let i = it.index();
            assert(cookie@.take(i + 1).drop_last() =~= cookie@.take(i));
        }
        match sum.checked_add(c as u32) {
            Some(next) => sum = next,
            None => {
                proof {
                    let i = it.index();
                    lemma_char_sum_prefix(cookie@, i + 1);
                }
                return false;
            },
        }
    }
    assert(cookie@.take(cookie@.len() as int) =~= cookie@);
    true
}

/// The shard of a cookie: the parity of the sum of its code points.
pub fn get_shard(cookie: String) -> (r: u32)
    requires
        char_sum(cookie@) <= u32::MAX,
    ensures
        r == char_sum(cookie@) % 2,
{
    broadcast use vstd::string::group_string_axioms;
    let mut shard: u32 = 0;
    for c in it: cookie.chars()
        invariant
            it.seq() == cookie@,
            char_sum(cookie@) <= u32::MAX,
            shard == char_sum(cookie@.take(it.index())),
    {
        proof {
            let i = it.index();
            assert(cookie@.take(i + 1).drop_last() =~= cookie@.take(i));
            lemma_char_sum_prefix(cookie@, i + 1);
        }
        shard += c as u32;
    }
    assert(cookie@.take(cookie@.len() as int) =~= cookie@);
    shard % 2
}


/// `c` is one of the ASCII digits `0` to `9`.
pub open spec fn is_ascii_digit(c: char) -> bool {
    '0' <= c && c <= '9'
}

/// The number that a string of decimal digits denotes.
pub open spec fn digits_value(s: Seq<char>) -> nat
    decreases s.len(),
{
    if s.len() == 0 {
        0
    } else {
        digits_value(s.drop_last()) * 10 + ((s.last() as u32) - ('0' as u32)) as nat
    }
}

/// The digits part of a number's text: the text without a leading `+`.
pub open spec fn unsigned_digits(s: Seq<char>) -> Seq<char> {
    if s.len() > 0 && s[0] == '+' {
        s.drop_first()
    } else {
        s
    }
}

/// Every character of `d` is an ASCII digit.
pub open spec fn all_ascii_digits(d: Seq<char>) -> bool {
    forall|i: int| 0 <= i < d.len() ==> is_ascii_digit(#[trigger] d[i])
}

/// What `str::parse::<usize>` gives, as std documents it: an optional `+`,
/// then one or more ASCII digits, denoting a number that fits in `usize`.
pub open spec fn usize_from_str(s: Seq<char>) -> Option<usize> {
    let d = unsigned_digits(s);
    if d.len() > 0 && all_ascii_digits(d) && digits_value(d) <= usize::MAX {
        Some(digits_value(d) as usize)
    } else {
        None
    }
}

proof fn lemma_digits_value_prefix(d: Seq<char>, j: int)
    requires
        0 <= j <= d.len(),
        all_ascii_digits(d),
    ensures
        digits_value(d.take(j)) <= digits_value(d),
    decreases d.len(),
{
    if j == d.len() {
        assert(d.take(j) =~= d);
    } else {
        let dl = d.drop_last();
        assert(is_ascii_digit(d[d.len() - 1]));
        lemma_digits_value_prefix(dl, j);
        assert(dl.take(j) =~= d.take(j));
    }
}

/// Reads a `usize` as std's `str::parse::<usize>` does: an optional `+`, then
/// one or more ASCII digits denoting a number that fits.
fn parse_usize(s: &str) -> (r: Option<usize>)
    ensures
        r == usize_from_str(s@),
{
    let n = s.unicode_len();
    let start: usize = if n > 0 && s.get_char(0) == '+' {
        1
    } else {
        0
    };
    let ghost d = s@.skip(start as int);
    assert(d =~= unsigned_digits(s@));
    if start == n {
        return None;
    }
    let mut value: usize = 0;
    let mut i: usize = start;
    while i < n
        invariant
            start <= i <= n,
            n == s@.len(),
            d == s@.skip(start as int),
            d == unsigned_digits(s@),
            forall|k: int| 0 <= k < i - start ==> is_ascii_digit(#[trigger] d[k]),
            value == digits_value(d.take(i - start)),
        decreases n - i,
    {
        let c = s.get_char(i);
        let cv = c as u32;
        assert(d[i - start] == c);
        if cv < 48 || cv > 57 {
            assert(!is_ascii_digit(d[i - start]));
            assert(!all_ascii_digits(d));
            return None;
        }
        let digit = (cv - 48) as usize;
        proof {
            assert(is_ascii_digit(d[i - start]));
            assert(('0' as u32) == 48);
            assert(d.take(i - start + 1).last() == c);
            assert(d.take(i - start + 1).drop_last() =~= d.take(i - start));
            assert(digits_value(d.take(i - start + 1)) == value * 10 + digit);
            if all_ascii_digits(d) {
                lemma_digits_value_prefix(d, i - start + 1);
            }
        }
        match value.checked_mul(10) {
            Some(v) => match v.checked_add(digit) {
                Some(w) => value = w,
                None => return None,
            },
            None => return None,
        }
        i = i + 1;
    }
    assert(d.take(n - start) =~= d);
    Some(value)
}

/// The contents of each received tag in `v`.
pub open spec fn raw_views(v: Seq<UserTagRaw>) -> Seq<UserTagRawView> {
    v.map_values(|r: UserTagRaw| r@)
}

/// `s` without the elements equal to the element kept just before them:
/// each run of equal adjacent elements kept once.
pub open spec fn dedup_adjacent(s: Seq<UserTagRawView>) -> Seq<UserTagRawView>
    decreases s.len(),
{
    if s.len() == 0 {
        s
    } else {
        let d = dedup_adjacent(s.drop_last());
        if d.len() > 0 && d.last() == s.last() {
            d
        } else {
            d.push(s.last())
        }
    }
}

/// Removes the elements equal to the element kept just before them.
pub fn dedup_raws(v: Vec<UserTagRaw>) -> (r: Vec<UserTagRaw>)
    ensures
        raw_views(r@) == dedup_adjacent(raw_views(v@)),
{
    let mut out: Vec<UserTagRaw> = Vec::new();
    let mut i: usize = 0;
    while i < v.len()
        invariant
            i <= v.len(),
            raw_views(out@) == dedup_adjacent(raw_views(v@.take(i as int))),
        decreases v.len() - i,
    {
        proof {
            assert(raw_views(v@.take(i + 1)).drop_last() =~= raw_views(v@.take(i as int)));
        }
        let keep = if out.len() == 0 {
            true
        } else {
            !(out[out.len() - 1] == v[i])
        };
        if keep {
            out.push(v[i].clone());
            proof {
                assert(raw_views(out@) =~= raw_views(out@.drop_last()).push(v@[i as int]@));
            }
        }
        i = i + 1;
    }
    assert(v@.take(v.len() as int) =~= v@);
    out
}


/// How many tags of each action are kept for a user.
pub const USER_TAG_LIMIT: usize = 200;

/// How many tags of each list a query answers with when it names no limit.
pub const DEFAULT_QUERY_LIMIT: usize = 2;

/// The contents of each tag in `s`.
pub open spec fn tag_views(s: Seq<UserTag>) -> Seq<UserTagView> {
    s.map_values(|t: UserTag| t@)
}

proof fn lemma_tag_views_push_bounded(s: Seq<UserTag>, t: UserTag, n: nat)
    ensures
        tag_views(push_bounded(s, t, n)) == push_bounded(tag_views(s), t@, n),
{
    assert(tag_views(seq![t] + s) =~= seq![t@] + tag_views(s));
    if (seq![t] + s).len() > n {
        assert(tag_views((seq![t] + s).take(n as int)) =~= (seq![t@] + tag_views(s)).take(
            n as int,
        ));
    }
}

/// A user's recent tags, newest first: those of views and those of buys.
pub struct UserStateView {
    pub views: Seq<UserTagView>,
    pub buys: Seq<UserTagView>,
}

/// The recent tags of one user.
#[derive(Debug)]
pub struct UserState {
    views: NMax<UserTag>,
    buys: NMax<UserTag>,
}

impl View for UserState {
    type V = UserStateView;

    closed spec fn view(&self) -> UserStateView {
        UserStateView { views: tag_views(self.views@), buys: tag_views(self.buys@) }
    }
}

/// A user with no tags.
pub open spec fn empty_user_state() -> UserStateView {
    UserStateView { views: Seq::empty(), buys: Seq::empty() }
}

/// The user's tags after `t`: `t` is put first in the list of its action, of
/// which at most `USER_TAG_LIMIT` are kept.
pub open spec fn with_tag(s: UserStateView, t: UserTagView) -> UserStateView {
    match t.action {
        Action::BUY => UserStateView {
            views: s.views,
            buys: push_bounded(s.buys, t, USER_TAG_LIMIT as nat),
        },
        Action::VIEW => UserStateView {
            views: push_bounded(s.views, t, USER_TAG_LIMIT as nat),
            buys: s.buys,
        },
    }
}

impl UserState {
    /// Both lists keep at most `USER_TAG_LIMIT` tags.
    pub closed spec fn wf(&self) -> bool {
        &&& self.views.wf()
        &&& self.buys.wf()
        &&& self.views.capacity() == USER_TAG_LIMIT
        &&& self.buys.capacity() == USER_TAG_LIMIT
    }

    fn empty() -> (r: UserState)
        ensures
            r.wf(),
            r@ == empty_user_state(),
    {
        let r = UserState { buys: NMax::new(USER_TAG_LIMIT), views: NMax::new(USER_TAG_LIMIT) };
        assert(r@.views =~= Seq::<UserTagView>::empty());
        assert(r@.buys =~= Seq::<UserTagView>::empty());
        r
    }
}

/// The users' states, by cookie. Users are kept in two parallel vectors, looked
/// up by comparing cookies, with no cookie twice: Verus's specification of
/// `HashMap` gives nothing to reason with for `String` keys.
#[derive(Debug)]
pub struct LocalState {
    cookies: Vec<String>,
    user_states: Vec<UserState>,
}

/// The states by cookie that parallel lists of cookies and states hold.
pub closed spec fn states_by_cookie(cookies: Seq<String>, states: Seq<UserState>) -> Map<
    Seq<char>,
    UserStateView,
> {
    Map::new(
        |k: Seq<char>| exists|i: int| 0 <= i < cookies.len() && #[trigger] cookies[i]@ == k,
        |k: Seq<char>|
            states[choose|i: int| 0 <= i < cookies.len() && #[trigger] cookies[i]@ == k]@,
    )
}

/// No cookie occurs twice.
pub closed spec fn distinct_cookies(cookies: Seq<String>) -> bool {
    forall|i: int, j: int|
        0 <= i < cookies.len() && 0 <= j < cookies.len() && i != j ==> #[trigger] cookies[i]@
            != #[trigger] cookies[j]@
}

proof fn lemma_states_by_cookie_update(
    cookies: Seq<String>,
    states: Seq<UserState>,
    idx: int,
    v: UserState,
)
    requires
        cookies.len() == states.len(),
        distinct_cookies(cookies),
        0 <= idx < cookies.len(),
    ensures
        states_by_cookie(cookies, states.update(idx, v)) == states_by_cookie(cookies, states).insert(
            cookies[idx]@,
            v@,
        ),
{
    let m1 = states_by_cookie(cookies, states.update(idx, v));
    let m0 = states_by_cookie(cookies, states).insert(cookies[idx]@, v@);
    assert forall|k: Seq<char>| #[trigger] m1.contains_key(k) <==> m0.contains_key(k) by {
        if k == cookies[idx]@ {
            assert(m1.contains_key(k));
        }
    }
    assert forall|k: Seq<char>| m1.contains_key(k) implies #[trigger] m1[k] == m0[k] by {
        let i = choose|i: int| 0 <= i < cookies.len() && #[trigger] cookies[i]@ == k;
        if k == cookies[idx]@ {
            assert(i == idx);
        } else {
            assert(states_by_cookie(cookies, states).contains_key(k));
        }
    }
    assert(m1 =~= m0);
}

proof fn lemma_states_by_cookie_push(
    cookies: Seq<String>,
    states: Seq<UserState>,
    c: String,
    v: UserState,
)
    requires
        cookies.len() == states.len(),
        distinct_cookies(cookies),
        !states_by_cookie(cookies, states).contains_key(c@),
    ensures
        distinct_cookies(cookies.push(c)),
        states_by_cookie(cookies.push(c), states.push(v)) == states_by_cookie(
            cookies,
            states,
        ).insert(c@, v@),
{
    let cs = cookies.push(c);
    let m1 = states_by_cookie(cs, states.push(v));
    let m0 = states_by_cookie(cookies, states).insert(c@, v@);
    assert forall|i: int, j: int|
        0 <= i < cs.len() && 0 <= j < cs.len() && i != j implies #[trigger] cs[i]@
        != #[trigger] cs[j]@ by {
        if i == cookies.len() && j < cookies.len() {
            assert(cookies[j]@ == cs[j]@);
        } else if j == cookies.len() && i < cookies.len() {
            assert(cookies[i]@ == cs[i]@);
        }
    }
    assert forall|k: Seq<char>| #[trigger] m1.contains_key(k) <==> m0.contains_key(k) by {
        if k == c@ {
            assert(cs[cookies.len() as int]@ == k);
        }
        if states_by_cookie(cookies, states).contains_key(k) {
            let i = choose|i: int| 0 <= i < cookies.len() && #[trigger] cookies[i]@ == k;
            assert(cs[i]@ == k);
        }
        if m1.contains_key(k) && k != c@ {
            let i = choose|i: int| 0 <= i < cs.len() && #[trigger] cs[i]@ == k;
            assert(cookies[i]@ == k);
        }
    }
    assert forall|k: Seq<char>| m1.contains_key(k) implies #[trigger] m1[k] == m0[k] by {
        let i = choose|i: int| 0 <= i < cs.len() && #[trigger] cs[i]@ == k;
        if k == c@ {
            assert(cs[cookies.len() as int]@ == k);
            assert(i == cookies.len());
        } else {
            assert(cookies[i]@ == k);
            assert(states_by_cookie(cookies, states).contains_key(k));
            let i0 = choose|i: int| 0 <= i < cookies.len() && #[trigger] cookies[i]@ == k;
            assert(cs[i0]@ == k);
        }
    }
    assert(m1 =~= m0);
}

impl View for LocalState {
    type V = Map<Seq<char>, UserStateView>;

    closed spec fn view(&self) -> Map<Seq<char>, UserStateView> {
        states_by_cookie(self.cookies@, self.user_states@)
    }
}

/// The users' states after `t`: the state of `t`'s user, new or kept, with `t`.
pub open spec fn with_user_tag(m: Map<Seq<char>, UserStateView>, t: UserTagView) -> Map<
    Seq<char>,
    UserStateView,
> {
    m.insert(t.cookie, with_tag(state_or_empty(m, t.cookie), t))
}

/// The state of the user with `cookie`; the empty state for a user not seen.
pub open spec fn state_or_empty(m: Map<Seq<char>, UserStateView>, cookie: Seq<char>) -> UserStateView {
    if m.contains_key(cookie) {
        m[cookie]
    } else {
        empty_user_state()
    }
}

/// The state `s` of the user with `cookie` holds only that user's tags, each
/// in the list of its action, and at most `USER_TAG_LIMIT` in each list.
pub open spec fn lists_of_user(cookie: Seq<char>, s: UserStateView) -> bool {
    &&& s.views.len() <= USER_TAG_LIMIT
    &&& s.buys.len() <= USER_TAG_LIMIT
    &&& forall|i: int|
        0 <= i < s.views.len() ==> (#[trigger] s.views[i]).cookie == cookie && s.views[i].action
            == Action::VIEW
    &&& forall|i: int|
        0 <= i < s.buys.len() ==> (#[trigger] s.buys[i]).cookie == cookie && s.buys[i].action
            == Action::BUY
}

/// Every user's state holds only that user's tags, by action, within the limit.
pub open spec fn users_consistent(m: Map<Seq<char>, UserStateView>) -> bool {
    forall|k: Seq<char>| #[trigger] m.contains_key(k) ==> lists_of_user(k, m[k])
}

proof fn lemma_with_tag_keeps_user(cookie: Seq<char>, s: UserStateView, t: UserTagView)
    requires
        lists_of_user(cookie, s),
        t.cookie == cookie,
    ensures
        lists_of_user(cookie, with_tag(s, t)),
{
}

/// Adding a tag keeps every user's state to that user's tags, by action,
/// within the limit.
pub proof fn lemma_with_user_tag_consistent(m: Map<Seq<char>, UserStateView>, t: UserTagView)
    requires
        users_consistent(m),
    ensures
        users_consistent(with_user_tag(m, t)),
{
    let s = state_or_empty(m, t.cookie);
    assert(lists_of_user(t.cookie, s));
    lemma_with_tag_keeps_user(t.cookie, s, t);
}

impl LocalState {
    /// Every cookie once, one state per cookie, every state within its limits
    /// and holding only its user's tags.
    pub closed spec fn wf(&self) -> bool {
        &&& self.cookies.len() == self.user_states.len()
        &&& distinct_cookies(self.cookies@)
        &&& forall|i: int| 0 <= i < self.user_states.len() ==> #[trigger] self.user_states@[i].wf()
        &&& users_consistent(self@)
    }

    /// A well-formed state holds, for every user, only that user's tags, by
    /// action, at most `USER_TAG_LIMIT` of each.
    pub proof fn lemma_users_consistent(&self)
        requires
            self.wf(),
        ensures
            users_consistent(self@),
    {
    }

    pub fn new() -> (r: Self)
        ensures
            r.wf(),
            r@ == Map::<Seq<char>, UserStateView>::empty(),
            users_consistent(r@),
    {
        let r = LocalState { cookies: Vec::new(), user_states: Vec::new() };
        assert(r@ =~= Map::<Seq<char>, UserStateView>::empty());
        r
    }

    /// The index of the user with `cookie`.
    fn find(&self, cookie: &String) -> (r: Option<usize>)
        requires
            self.wf(),
        ensures
            r is Some <==> self@.contains_key(cookie@),
            r matches Some(i) ==> i < self.cookies.len() && self.cookies@[i as int]@ == cookie@,
    {
        let n = self.cookies.len();
        let mut i: usize = 0;
        while i < n
            invariant
                n == self.cookies.len(),
                i <= n,
                forall|j: int| 0 <= j < i ==> #[trigger] self.cookies@[j]@ != cookie@,
            decreases n - i,
        {
            if self.cookies[i] == *cookie {
                return Some(i);
            }
            i = i + 1;
        }
        None
    }

    /// The state of the user with `cookie`, made empty first for a user not seen.
    pub fn get_user_state_mut(&mut self, cookie: String) -> (r: &mut UserState)
        requires
            old(self).wf(),
        ensures
            r@ == state_or_empty(old(self)@, cookie@),
            r.wf(),
            lists_of_user(cookie@, r@),
            final(self)@ == old(self)@.insert(cookie@, final(r)@),
            final(r).wf() && lists_of_user(cookie@, final(r)@) ==> final(self).wf(),
    {
        let ghost key = cookie@;
        let idx = match self.find(&cookie) {
            Some(i) => i,
            None => {
                let empty = UserState::empty();
                proof {
                    lemma_states_by_cookie_push(self.cookies@, self.user_states@, cookie, empty);
                }
                self.cookies.push(cookie);
                self.user_states.push(empty);
                self.user_states.len() - 1
            },
        };
        assert(self.cookies@[idx as int]@ == key);
        let ghost mid = *self;
        proof {
            let i = choose|i: int| 0 <= i < mid.cookies@.len() && #[trigger] mid.cookies@[i]@ == key;
            assert(i == idx);
        }
        let r = &mut self.user_states[idx];
        proof {
            lemma_states_by_cookie_update(mid.cookies@, mid.user_states@, idx as int, *final(r));
        }
        r
    }

    pub fn add_user_tag(&mut self, user_tag: UserTag)
        requires
            old(self).wf(),
        ensures
            final(self).wf(),
            final(self)@ == with_user_tag(old(self)@, user_tag@),
            users_consistent(final(self)@),
    {
        let user_state = self.get_user_state_mut(user_tag.cookie.clone());
        let ghost before = *user_state;
        proof {
            lemma_with_tag_keeps_user(user_tag.cookie@, before@, user_tag@);
            lemma_tag_views_push_bounded(before.buys@, user_tag, USER_TAG_LIMIT as nat);
            lemma_tag_views_push_bounded(before.views@, user_tag, USER_TAG_LIMIT as nat);
        }
        match user_tag.action {
            Action::BUY => user_state.buys.push(user_tag),
            Action::VIEW => user_state.views.push(user_tag),
        };
    }
}


/// The received tags of those of `tags` whose instant lies in `[start, end)`, in order.
pub open spec fn matching_raws(tags: Seq<UserTagView>, start: (i64, u32), end: (i64, u32)) -> Seq<
    UserTagRawView,
>
    decreases tags.len(),
{
    if tags.len() == 0 {
        Seq::empty()
    } else {
        let m = matching_raws(tags.drop_last(), start, end);
        if range_contains(start, end, tags.last().time) {
            m.push(tags.last().raw)
        } else {
            m
        }
    }
}

/// The first `n` elements of `s`, or all of them where there are fewer.
pub open spec fn first_n<A>(s: Seq<A>, n: nat) -> Seq<A> {
    if s.len() <= n {
        s
    } else {
        s.take(n as int)
    }
}

/// What a query answers for one list of tags: the first `limit` of those in
/// `[start, end)`, each run of equal adjacent ones kept once.
pub open spec fn select_raws(
    tags: Seq<UserTagView>,
    start: (i64, u32),
    end: (i64, u32),
    limit: nat,
) -> Seq<UserTagRawView> {
    dedup_adjacent(first_n(matching_raws(tags, start, end), limit))
}

/// The received tags of the first `limit` of `tags` whose instant lies in the range.
fn recent_in_range(tags: &NMax<UserTag>, range: &TimeRange, limit: usize) -> (r: Vec<UserTagRaw>)
    ensures
        raw_views(r@) == first_n(
            matching_raws(tag_views(tags@), range.start@, range.end@),
            limit as nat,
        ),
{
    let ghost start = range.start@;
    let ghost end = range.end@;
    let mut out: Vec<UserTagRaw> = Vec::new();
    for tag in it: tags.iter()
        invariant
            it.seq() == tags@.as_ref(),
            start == range.start@,
            end == range.end@,
            raw_views(out@) == first_n(
                matching_raws(tag_views(tags@.take(it.index())), start, end),
                limit as nat,
            ),
    {
        let ghost i = it.index();
        let ghost m = matching_raws(tag_views(tags@.take(i)), start, end);
        proof {
            assert(tag_views(tags@.take(i + 1)).drop_last() =~= tag_views(tags@.take(i)));
            assert(tag_views(tags@.take(i + 1)).last() == tags@[i]@);
        }
        assert(*tag == tags@[i]);
        if out.len() < limit && range.contains(&tag.time) {
            assert(raw_views(out@) == m);
            let ghost before = out@;
            out.push(tag.raw.clone());
            proof {
                assert(raw_views(out@) =~= raw_views(before).push(tags@[i].raw@));
                assert(raw_views(out@) =~= m.push(tags@[i].raw@));
            }
        } else {
            proof {
                if m.len() >= limit {
                    assert(first_n(m.push(tags@[i]@.raw), limit as nat) =~= first_n(m, limit as nat));
                }
            }
        }
    }
    assert(tags@.take(tags@.len() as int) =~= tags@);
    out
}

/// The answer to a profile query: the user's recent buys and views in the range.
pub struct QueryResponse {
    pub cookie: String,
    pub buys: Vec<UserTagRaw>,
    pub views: Vec<UserTagRaw>,
}

/// The limit that a query's limit text names; 2 where there is none.
pub open spec fn limit_spec(limit_str: Option<String>) -> Option<usize> {
    match limit_str {
        Some(s) => usize_from_str(s@),
        None => Some(DEFAULT_QUERY_LIMIT),
    }
}

/// A query that the state can answer: the user is known, the range parses,
/// and the limit, where there is one, is a number.
pub open spec fn query_answerable(
    m: Map<Seq<char>, UserStateView>,
    cookie: Seq<char>,
    time_range_str: Seq<char>,
    limit_str: Option<String>,
) -> bool {
    &&& m.contains_key(cookie)
    &&& time_range_parses(time_range_str)
    &&& limit_spec(limit_str) is Some
}

/// The start of the range that a range text names.
pub open spec fn range_start(time_range_str: Seq<char>) -> (i64, u32) {
    parse_time_spec(split_on(time_range_str, '_')[0]).unwrap()
}

/// The end of the range that a range text names.
pub open spec fn range_end(time_range_str: Seq<char>) -> (i64, u32) {
    parse_time_spec(split_on(time_range_str, '_')[1]).unwrap()
}

/// The answer to a query, given that the state can answer it.
pub open spec fn query_answer(
    r: QueryResponse,
    m: Map<Seq<char>, UserStateView>,
    cookie: String,
    time_range_str: Seq<char>,
    limit_str: Option<String>,
) -> bool {
    let start = range_start(time_range_str);
    let end = range_end(time_range_str);
    let limit = limit_spec(limit_str).unwrap() as nat;
    &&& r.cookie == cookie
    &&& raw_views(r.views@) == select_raws(m[cookie@].views, start, end, limit)
    &&& raw_views(r.buys@) == select_raws(m[cookie@].buys, start, end, limit)
}

impl LocalState {
    /// The user's buys and views whose instants lie in the range, the first
    /// `limit` of each (newest first), each run of equal adjacent ones kept once.
    pub fn query(&self, cookie: String, time_range_str: String, limit_str: Option<String>) -> (r:
        QueryResponse)
        requires
            self.wf(),
            query_answerable(self@, cookie@, time_range_str@, limit_str),
        ensures
            query_answer(r, self@, cookie, time_range_str@, limit_str),
            lists_of_user(cookie@, self@[cookie@]),
    {
        let ghost lim = limit_str;
        let time_range = TimeRange::parse(time_range_str.as_str());
        let limit: usize = match limit_str {
            Some(s) => parse_usize(s.as_str()).unwrap(),
            None => DEFAULT_QUERY_LIMIT,
        };
        let idx = self.find(&cookie).unwrap();
        let user_state = &self.user_states[idx];
        proof {
            let i = choose|i: int|
                0 <= i < self.cookies@.len() && #[trigger] self.cookies@[i]@ == cookie@;
            assert(i == idx);
        }
        let views = dedup_raws(recent_in_range(&user_state.views, &time_range, limit));
        let buys = dedup_raws(recent_in_range(&user_state.buys, &time_range, limit));
        QueryResponse { cookie, buys, views }
    }

    /// Answers a query as `query` does; `None` where the user is not known,
    /// the range does not parse or the limit is not a number.
    pub fn try_query(&self, cookie: String, time_range_str: String, limit_str: Option<String>) -> (r:
        Option<QueryResponse>)
        requires
            self.wf(),
        ensures
            r is Some <==> query_answerable(self@, cookie@, time_range_str@, limit_str),
            r matches Some(resp) ==> query_answer(resp, self@, cookie, time_range_str@, limit_str),
            users_consistent(self@),
    {
        let known = self.find(&cookie).is_some();
        let range_ok = TimeRange::try_parse(time_range_str.as_str()).is_some();
        let limit_ok = match &limit_str {
            Some(s) => parse_usize(s.as_str()).is_some(),
            None => true,
        };
        if known && range_ok && limit_ok {
            Some(self.query(cookie, time_range_str, limit_str))
        } else {
            None
        }
    }
}

impl Aggregator for LocalState {
    type Message = UserTagRaw;

    open spec fn wf(&self) -> bool {
        LocalState::wf(self)
    }

    /// A received tag whose time parses and whose action is named.
    open spec fn accepts(&self, msg: UserTagRaw) -> bool {
        user_tag_readable(msg@)
    }

    /// The tag, read, is added to its user's state.
    open spec fn aggregated(old: LocalState, msg: UserTagRaw, new: LocalState) -> bool {
        new@ == with_user_tag(old@, read_tag(msg@))
    }

    fn can_aggregate(&self, msg: &UserTagRaw) -> (r: bool) {
        UserTag::checked_from(msg.clone()).is_some()
    }

    fn aggregate(&mut self, msg: UserTagRaw) {
        let user_tag = UserTag::from(msg);
        self.add_user_tag(user_tag);
    }
}


proof fn lemma_dedup_shape(s: Seq<UserTagRawView>)
    ensures
        dedup_adjacent(s).len() <= s.len(),
        s.len() > 0 ==> dedup_adjacent(s).len() > 0 && dedup_adjacent(s)[0] == s[0],
        forall|j: int|
            0 <= j < dedup_adjacent(s).len() ==> exists|i: int|
                0 <= i < s.len() && #[trigger] s[i] == #[trigger] dedup_adjacent(s)[j],
        forall|j: int|
            0 <= j < dedup_adjacent(s).len() - 1 ==> #[trigger] dedup_adjacent(s)[j]
                != dedup_adjacent(s)[j + 1],
    decreases s.len(),
{
    if s.len() > 0 {
        let t = s.drop_last();
        lemma_dedup_shape(t);
        let d = dedup_adjacent(t);
        let r = dedup_adjacent(s);
        assert forall|j: int| 0 <= j < r.len() implies exists|i: int|
            0 <= i < s.len() && #[trigger] s[i] == #[trigger] r[j] by {
            if j < d.len() {
                let i = choose|i: int| 0 <= i < t.len() && #[trigger] t[i] == #[trigger] d[j];
                assert(s[i] == r[j]);
            } else {
                assert(s[s.len() - 1] == r[j]);
            }
        }
        if t.len() > 0 {
            assert(d[0] == t[0]);
        }
    }
}

/// `x` is the received form of one of `tags` whose instant lies in `[start, end)`.
pub open spec fn raw_of_tag_in_range(
    tags: Seq<UserTagView>,
    x: UserTagRawView,
    start: (i64, u32),
    end: (i64, u32),
) -> bool {
    exists|i: int|
        0 <= i < tags.len() && #[trigger] tags[i].raw == x && range_contains(
            start,
            end,
            tags[i].time,
        )
}

proof fn lemma_matching_shape(tags: Seq<UserTagView>, start: (i64, u32), end: (i64, u32))
    ensures
        matching_raws(tags, start, end).len() <= tags.len(),
        forall|j: int|
            0 <= j < matching_raws(tags, start, end).len() ==> raw_of_tag_in_range(
                tags,
                #[trigger] matching_raws(tags, start, end)[j],
                start,
                end,
            ),
    decreases tags.len(),
{
    if tags.len() > 0 {
        let t = tags.drop_last();
        lemma_matching_shape(t, start, end);
        let m = matching_raws(t, start, end);
        let r = matching_raws(tags, start, end);
        assert forall|j: int| 0 <= j < r.len() implies raw_of_tag_in_range(
            tags,
            #[trigger] r[j],
            start,
            end,
        ) by {
            if j < m.len() {
                assert(raw_of_tag_in_range(t, m[j], start, end));
                let i = choose|i: int|
                    0 <= i < t.len() && #[trigger] t[i].raw == m[j] && range_contains(
                        start,
                        end,
                        t[i].time,
                    );
                assert(tags[i] == t[i]);
                assert(r[j] == m[j]);
            } else {
                assert(tags[tags.len() - 1].raw == r[j]);
            }
        }
    }
}

proof fn lemma_matching_prepend(
    x: UserTagView,
    tags: Seq<UserTagView>,
    start: (i64, u32),
    end: (i64, u32),
)
    ensures
        matching_raws(seq![x] + tags, start, end) == (if range_contains(start, end, x.time) {
            seq![x.raw]
        } else {
            Seq::empty()
        }) + matching_raws(tags, start, end),
    decreases tags.len(),
{
    let head: Seq<UserTagRawView> = if range_contains(start, end, x.time) {
        seq![x.raw]
    } else {
        Seq::empty()
    };
    if tags.len() == 0 {
        assert((seq![x] + tags).drop_last() =~= Seq::<UserTagView>::empty());
        assert((seq![x] + tags).last() == x);
        assert(matching_raws(Seq::<UserTagView>::empty(), start, end) =~= Seq::<UserTagRawView>::empty());
        assert(head + matching_raws(tags, start, end) =~= head);
        if range_contains(start, end, x.time) {
            assert(Seq::<UserTagRawView>::empty().push(x.raw) =~= head);
        }
    } else {
        lemma_matching_prepend(x, tags.drop_last(), start, end);
        assert((seq![x] + tags).drop_last() =~= seq![x] + tags.drop_last());
        assert((seq![x] + tags).last() == tags.last());
        let m = matching_raws(tags.drop_last(), start, end);
        if range_contains(start, end, tags.last().time) {
            assert(head + m.push(tags.last().raw) =~= (head + m).push(tags.last().raw));
        }
    }
}

/// A query answers with at most `limit` tags of each list.
pub proof fn lemma_answer_within_limit(
    tags: Seq<UserTagView>,
    start: (i64, u32),
    end: (i64, u32),
    limit: nat,
)
    ensures
        select_raws(tags, start, end, limit).len() <= limit,
{
    lemma_dedup_shape(first_n(matching_raws(tags, start, end), limit));
}

/// Every tag that a query answers with is the received form of one of the
/// user's tags of that list, and that tag's instant lies in the range.
pub proof fn lemma_answer_in_range(
    tags: Seq<UserTagView>,
    start: (i64, u32),
    end: (i64, u32),
    limit: nat,
    j: int,
)
    requires
        0 <= j < select_raws(tags, start, end, limit).len(),
    ensures
        raw_of_tag_in_range(tags, select_raws(tags, start, end, limit)[j], start, end),
{
    let m = matching_raws(tags, start, end);
    let f = first_n(m, limit);
    lemma_dedup_shape(f);
    lemma_matching_shape(tags, start, end);
    let d = dedup_adjacent(f);
    let k = choose|k: int| 0 <= k < f.len() && #[trigger] f[k] == #[trigger] d[j];
    assert(m[k] == f[k]);
    assert(raw_of_tag_in_range(tags, m[k], start, end));
}

/// No two adjacent tags of a query's answer are equal.
pub proof fn lemma_answer_no_adjacent_repeats(
    tags: Seq<UserTagView>,
    start: (i64, u32),
    end: (i64, u32),
    limit: nat,
    j: int,
)
    requires
        0 <= j < select_raws(tags, start, end, limit).len() - 1,
    ensures
        select_raws(tags, start, end, limit)[j] != select_raws(tags, start, end, limit)[j + 1],
{
    lemma_dedup_shape(first_n(matching_raws(tags, start, end), limit));
}

/// The list of the tags of an action.
pub open spec fn tags_of(s: UserStateView, action: Action) -> Seq<UserTagView> {
    match action {
        Action::BUY => s.buys,
        Action::VIEW => s.views,
    }
}

/// Once a tag is added, a query for its user over a range that holds its
/// instant, with a positive limit, answers first with that tag in the list of
/// its action.
pub proof fn lemma_added_tag_answered_first(
    m: Map<Seq<char>, UserStateView>,
    t: UserTagView,
    start: (i64, u32),
    end: (i64, u32),
    limit: nat,
)
    requires
        range_contains(start, end, t.time),
        limit >= 1,
    ensures
        select_raws(tags_of(with_user_tag(m, t)[t.cookie], t.action), start, end, limit).len() > 0,
        select_raws(tags_of(with_user_tag(m, t)[t.cookie], t.action), start, end, limit)[0]
            == t.raw,
{
    let old_tags = tags_of(state_or_empty(m, t.cookie), t.action);
    let new_tags = tags_of(with_user_tag(m, t)[t.cookie], t.action);
    let n = USER_TAG_LIMIT as nat;
    assert(new_tags == push_bounded(old_tags, t, n));
    let rest = if old_tags.len() + 1 <= n {
        old_tags
    } else {
        old_tags.take(n - 1)
    };
    assert(new_tags =~= seq![t] + rest);
    lemma_matching_prepend(t, rest, start, end);
    let mm = matching_raws(new_tags, start, end);
    assert(mm[0] == t.raw);
    let f = first_n(mm, limit);
    assert(f[0] == t.raw);
    lemma_dedup_shape(f);
}

/// Adding a tag changes only the state of its user, and of that state only
/// the list of its action.
pub proof fn lemma_add_changes_one_list(m: Map<Seq<char>, UserStateView>, t: UserTagView, k: Seq<char>)
    ensures
        with_user_tag(m, t).contains_key(k) <==> (m.contains_key(k) || k == t.cookie),
        k != t.cookie && m.contains_key(k) ==> with_user_tag(m, t)[k] == m[k],
        t.action == Action::BUY ==> with_user_tag(m, t)[t.cookie].views == state_or_empty(
            m,
            t.cookie,
        ).views,
        t.action == Action::VIEW ==> with_user_tag(m, t)[t.cookie].buys == state_or_empty(
            m,
            t.cookie,
        ).buys,
{
}


/// The users' states after adding `tags`, in order, to the empty state.
pub open spec fn states_after(tags: Seq<UserTagView>) -> Map<Seq<char>, UserStateView>
    decreases tags.len(),
{
    if tags.len() == 0 {
        Map::empty()
    } else {
        with_user_tag(states_after(tags.drop_last()), tags.last())
    }
}

/// The tags of `tags` of the user with `cookie` and of `action`, newest first.
pub open spec fn arrivals_for(tags: Seq<UserTagView>, cookie: Seq<char>, action: Action) -> Seq<
    UserTagView,
>
    decreases tags.len(),
{
    if tags.len() == 0 {
        Seq::empty()
    } else {
        let rest = arrivals_for(tags.drop_last(), cookie, action);
        if tags.last().cookie == cookie && tags.last().action == action {
            seq![tags.last()] + rest
        } else {
            rest
        }
    }
}

proof fn lemma_push_bounded_first_n(r: Seq<UserTagView>, t: UserTagView, n: nat)
    ensures
        push_bounded(first_n(r, n), t, n) == first_n(seq![t] + r, n),
{
    if r.len() > n {
        if n == 0 {
            assert(push_bounded(first_n(r, n), t, n) =~= Seq::<UserTagView>::empty());
            assert(first_n(seq![t] + r, n) =~= Seq::<UserTagView>::empty());
        } else {
            assert(push_bounded(first_n(r, n), t, n) =~= first_n(seq![t] + r, n));
        }
    }
}

/// After a sequence of adds from the empty state, a user is known exactly when
/// one of the tags is theirs, and each of the user's lists holds the newest
/// `USER_TAG_LIMIT` of the user's tags of that action, newest first.
pub proof fn lemma_states_after_adds(tags: Seq<UserTagView>, cookie: Seq<char>)
    ensures
        states_after(tags).contains_key(cookie) <==> exists|i: int|
            0 <= i < tags.len() && #[trigger] tags[i].cookie == cookie,
        state_or_empty(states_after(tags), cookie).views == first_n(
            arrivals_for(tags, cookie, Action::VIEW),
            USER_TAG_LIMIT as nat,
        ),
        state_or_empty(states_after(tags), cookie).buys == first_n(
            arrivals_for(tags, cookie, Action::BUY),
            USER_TAG_LIMIT as nat,
        ),
    decreases tags.len(),
{
    let n = USER_TAG_LIMIT as nat;
    if tags.len() == 0 {
        assert(first_n(Seq::<UserTagView>::empty(), n) =~= Seq::<UserTagView>::empty());
    } else {
        let prev = tags.drop_last();
        let t = tags.last();
        lemma_states_after_adds(prev, cookie);
        let m = states_after(prev);
        if states_after(tags).contains_key(cookie) {
            if t.cookie == cookie {
                assert(tags[tags.len() - 1].cookie == cookie);
            } else {
                let i = choose|i: int| 0 <= i < prev.len() && #[trigger] prev[i].cookie == cookie;
                assert(tags[i].cookie == cookie);
            }
        }
        if exists|i: int| 0 <= i < tags.len() && #[trigger] tags[i].cookie == cookie {
            let i = choose|i: int| 0 <= i < tags.len() && #[trigger] tags[i].cookie == cookie;
            if i < prev.len() {
                assert(prev[i].cookie == cookie);
            }
        }
        if t.cookie == cookie {
            lemma_push_bounded_first_n(arrivals_for(prev, cookie, t.action), t, n);
        }
    }
}

/// Adds of tags of different users, or of different actions, commute.
pub proof fn lemma_adds_commute(m: Map<Seq<char>, UserStateView>, t1: UserTagView, t2: UserTagView)
    requires
        t1.cookie != t2.cookie || t1.action != t2.action,
    ensures
        with_user_tag(with_user_tag(m, t1), t2) == with_user_tag(with_user_tag(m, t2), t1),
{
    let a = with_user_tag(with_user_tag(m, t1), t2);
    let b = with_user_tag(with_user_tag(m, t2), t1);
    if t1.cookie != t2.cookie {
        assert(state_or_empty(with_user_tag(m, t1), t2.cookie) == state_or_empty(m, t2.cookie));
        assert(state_or_empty(with_user_tag(m, t2), t1.cookie) == state_or_empty(m, t1.cookie));
        assert(a =~= b);
    } else {
        let s = state_or_empty(m, t1.cookie);
        assert(with_tag(with_tag(s, t1), t2) == with_tag(with_tag(s, t2), t1));
        assert(a =~= b);
    }
}

/// Aggregating a received tag that can be read has the effect of adding the
/// tag that reading it gives, as `UserTag::from` and `add_user_tag` state.
pub proof fn lemma_aggregate_adds_read_tag(
    old: LocalState,
    msg: UserTagRaw,
    tag: UserTag,
    new: LocalState,
)
    requires
        user_tag_readable(msg@),
        tag@ == read_tag(msg@),
    ensures
        <LocalState as Aggregator>::aggregated(old, msg, new) <==> new@ == with_user_tag(
            old@,
            tag@,
        ),
{
}


/// Every received tag whose time parses and whose action is `VIEW` or `BUY`
/// is taken by every well-formed state.
pub proof fn lemma_readable_tags_accepted(state: LocalState, msg: UserTagRaw)
    requires
        state.wf(),
        parse_time_spec(msg.time@) is Some,
        msg.action@ == "VIEW"@ || msg.action@ == "BUY"@,
    ensures
        <LocalState as Aggregator>::accepts(&state, msg),
{
}

/// Folding in a received tag that can be read makes it, as received, the
/// first tag of its user's list of its action, and keeps that user known.
pub proof fn lemma_aggregated_tag_first(old: LocalState, msg: UserTagRaw, new: LocalState)
    requires
        parse_time_spec(msg.time@) is Some,
        msg.action@ == "VIEW"@ || msg.action@ == "BUY"@,
        <LocalState as Aggregator>::aggregated(old, msg, new),
    ensures
        new@.contains_key(msg.cookie@),
        msg.action@ == "VIEW"@ ==> new@[msg.cookie@].views.len() > 0
            && new@[msg.cookie@].views[0].raw == msg@,
        msg.action@ == "BUY"@ ==> new@[msg.cookie@].buys.len() > 0
            && new@[msg.cookie@].buys[0].raw == msg@,
{
    reveal_strlit("VIEW");
    reveal_strlit("BUY");
    assert("VIEW"@.len() == 4 && "BUY"@.len() == 3);
    if msg.action@ == "VIEW"@ {
        assert(msg.action@ != "BUY"@);
    }
}

/// A sequence whose adjacent elements all differ is its own deduplication:
/// only an element equal in every field to the one before it is dropped.
pub proof fn lemma_dedup_keeps_distinct_neighbours(s: Seq<UserTagRawView>)
    requires
        forall|i: int| 0 <= i < s.len() - 1 ==> #[trigger] s[i] != s[i + 1],
    ensures
        dedup_adjacent(s) == s,
    decreases s.len(),
{
    if s.len() > 0 {
        let t = s.drop_last();
        assert forall|i: int| 0 <= i < t.len() - 1 implies #[trigger] t[i] != t[i + 1] by {
            assert(s[i] != s[i + 1]);
        }
        lemma_dedup_keeps_distinct_neighbours(t);
        if t.len() > 0 {
            assert(s[s.len() - 2] != s[s.len() - 1]);
        }
        assert(dedup_adjacent(s) =~= s);
    }
}

/// A repeat of the last element adds nothing to the deduplication.
pub proof fn lemma_dedup_drops_repeat(s: Seq<UserTagRawView>, x: UserTagRawView)
    ensures
        dedup_adjacent(s.push(x).push(x)) == dedup_adjacent(s.push(x)),
        dedup_adjacent(s.push(x)).last() == x,
{
    assert(s.push(x).push(x).drop_last() =~= s.push(x));
    assert(s.push(x).drop_last() =~= s);
}

/// The code-point sum of a text grows by each character's code point, digits
/// and every other character alike.
pub proof fn lemma_char_sum_push(s: Seq<char>, c: char)
    ensures
        char_sum(Seq::<char>::empty()) == 0,
        char_sum(s.push(c)) == char_sum(s) + (c as u32),
{
    assert(s.push(c).drop_last() =~= s);
}

/// The code-point sum of two texts joined is the sum of their sums.
pub proof fn lemma_char_sum_concat(s: Seq<char>, t: Seq<char>)
    ensures
        char_sum(s + t) == char_sum(s) + char_sum(t),
    decreases t.len(),
{
    if t.len() == 0 {
        assert(s + t =~= s);
    } else {
        lemma_char_sum_concat(s, t.drop_last());
        assert((s + t).drop_last() =~= s + t.drop_last());
        assert((s + t).last() == t.last());
    }
}

} // verus!
