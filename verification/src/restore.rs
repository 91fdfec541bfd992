//! Building a world again from stored records, checking that they keep the
//! invariant.
use vstd::prelude::*;

use crate::browse::{all_rated, rating_sum, ratings_fit};
use crate::review::{is_rated, ReviewRecord};
use crate::skills::Skill;
use crate::students::{UserRecord, DURATION_MAX_NANOS};
use crate::world::{
    creators_ok, skill_reviews_ok, tags_ok, user_ok, user_reviews_ok, withdrawals_ok, world_ok,
    SkillRecord, TheWorld,
};

verus! {

/// Whether `v` holds `x`.
fn holds(v: &Vec<usize>, x: usize) -> (r: bool)
    ensures
        r == v@.contains(x),
{
    let n = v.len();
    for k in 0..n
        invariant
            n == v@.len(),
            forall|j: int| 0 <= j < k ==> v@[j] != x,
    {
        if v[k] == x {
            return true;
        }
    }
    false
}

/// Whether no position of `v` repeats an earlier one.
fn distinct_positions(v: &Vec<usize>) -> (r: bool)
    ensures
        r == v@.no_duplicates(),
{
    let n = v.len();
    for i in 0..n
        invariant
            n == v@.len(),
            forall|a: int, b: int| 0 <= a < b < i ==> v@[a] != v@[b],
    {
        for j in 0..i
            invariant
                n == v@.len(),
                i < n,
                forall|a: int, b: int| 0 <= a < b < i ==> v@[a] != v@[b],
                forall|a: int| 0 <= a < j ==> v@[a] != v@[i as int],
        {
            if v[j] == v[i] {
                assert(!v@.no_duplicates()) by {
                    assert(v@[j as int] == v@[i as int]);
                }
                return false;
            }
        }
    }
    assert forall|a: int, b: int| 0 <= a < n && 0 <= b < n && a != b implies v@[a] != v@[b] by {
        if a > b {
            assert(v@[b] != v@[a]);
        }
    }
    true
}

/// Whether no category of `v` repeats an earlier one.
fn distinct_tags(v: &Vec<Skill>) -> (r: bool)
    ensures
        r == v@.no_duplicates(),
{
    let n = v.len();
    for i in 0..n
        invariant
            n == v@.len(),
            forall|a: int, b: int| 0 <= a < b < i ==> v@[a] != v@[b],
    {
        for j in 0..i
            invariant
                n == v@.len(),
                i < n,
                forall|a: int, b: int| 0 <= a < b < i ==> v@[a] != v@[b],
                forall|a: int| 0 <= a < j ==> v@[a] != v@[i as int],
        {
            if v[j] == v[i] {
                assert(!v@.no_duplicates()) by {
                    assert(v@[j as int] == v@[i as int]);
                }
                return false;
            }
        }
    }
    assert forall|a: int, b: int| 0 <= a < n && 0 <= b < n && a != b implies v@[a] != v@[b] by {
        if a > b {
            assert(v@[b] != v@[a]);
        }
    }
    true
}

fn check_users(us: &Vec<UserRecord>) -> (r: bool)
    ensures
        r == forall|i: int| 0 <= i < us@.len() ==> user_ok(#[trigger] us@[i]),
{
    let n = us.len();
    for i in 0..n
        invariant
            n == us@.len(),
            forall|a: int| 0 <= a < i ==> user_ok(#[trigger] us@[a]),
    {
        let u = &us[i];
        let session_ok = match &u.session {
            Some(t) => t.elapsed <= DURATION_MAX_NANOS,
            None => u.session_token.is_none(),
        };
        let ok = (!u.current || u.online) && session_ok && u.time_spend <= DURATION_MAX_NANOS
            && u.registered <= DURATION_MAX_NANOS;
        if !ok {
            assert(!user_ok(us@[i as int]));
            return false;
        }
    }
    true
}


fn check_creators(us: &Vec<UserRecord>, ss: &Vec<SkillRecord>) -> (r: bool)
    ensures
        r == creators_ok(us@, ss@),
{
    let n = us.len();
    let m = ss.len();
    for s in 0..m
        invariant
            n == us@.len(),
            m == ss@.len(),
            forall|a: int|
                0 <= a < s ==> {
                    &&& 0 <= #[trigger] ss@[a].created_by < n
                    &&& us@[ss@[a].created_by as int].skills_created@.contains(a as usize)
                },
    {
        let c = ss[s].created_by;
        if c >= n || !holds(&us[c].skills_created, s) {
            return false;
        }
    }
    for u in 0..n
        invariant
            n == us@.len(),
            m == ss@.len(),
            forall|a: int|
                0 <= a < m ==> {
                    &&& 0 <= #[trigger] ss@[a].created_by < n
                    &&& us@[ss@[a].created_by as int].skills_created@.contains(a as usize)
                },
            forall|a: int, k: int|
                0 <= a < u && 0 <= k < us@[a].skills_created@.len() ==> {
                    &&& #[trigger] us@[a].skills_created@[k] < m
                    &&& ss@[us@[a].skills_created@[k] as int].created_by == a
                },
            forall|a: int| 0 <= a < u ==> (#[trigger] us@[a].skills_created@).no_duplicates(),
    {
        let list = &us[u].skills_created;
        let l = list.len();
        for k in 0..l
            invariant
                n == us@.len(),
                m == ss@.len(),
                u < n,
                *list == us@[u as int].skills_created,
                l == list@.len(),
                forall|j: int|
                    0 <= j < k ==> {
                        &&& #[trigger] list@[j] < m
                        &&& ss@[list@[j] as int].created_by == u
                    },
        {
            let e = list[k];
            if e >= m || ss[e].created_by != u {
                return false;
            }
        }
        if !distinct_positions(list) {
            return false;
        }
    }
    true
}

fn check_skill_reviews(ss: &Vec<SkillRecord>, rs: &Vec<ReviewRecord>) -> (r: bool)
    ensures
        r == skill_reviews_ok(ss@, rs@),
{
    let m = ss.len();
    let nr = rs.len();
    for r in 0..nr
        invariant
            m == ss@.len(),
            nr == rs@.len(),
            forall|a: int|
                0 <= a < r ==> (#[trigger] rs@[a].of_skill matches Some(s) ==> {
                    &&& s < m
                    &&& ss@[s as int].reviewed_from@.contains(a as usize)
                }),
    {
        match rs[r].of_skill {
            Some(s) => {
                if s >= m || !holds(&ss[s].reviewed_from, r) {
                    return false;
                }
            },
            None => {},
        }
    }
    for s in 0..m
        invariant
            m == ss@.len(),
            nr == rs@.len(),
            forall|a: int|
                0 <= a < nr ==> (#[trigger] rs@[a].of_skill matches Some(x) ==> {
                    &&& x < m
                    &&& ss@[x as int].reviewed_from@.contains(a as usize)
                }),
            forall|a: int, k: int|
                0 <= a < s && 0 <= k < ss@[a].reviewed_from@.len() ==> {
                    &&& #[trigger] ss@[a].reviewed_from@[k] < nr
                    &&& rs@[ss@[a].reviewed_from@[k] as int].of_skill == Some(a as usize)
                },
            forall|a: int| 0 <= a < s ==> (#[trigger] ss@[a].reviewed_from@).no_duplicates(),
            forall|a: int| 0 <= a < s ==> ratings_fit(rs@, #[trigger] ss@[a].reviewed_from@),
    {
        let list = &ss[s].reviewed_from;
        let l = list.len();
        for k in 0..l
            invariant
                m == ss@.len(),
                nr == rs@.len(),
                s < m,
                *list == ss@[s as int].reviewed_from,
                l == list@.len(),
                forall|j: int|
                    0 <= j < k ==> {
                        &&& #[trigger] list@[j] < nr
                        &&& rs@[list@[j] as int].of_skill == Some(s)
                    },
        {
            let e = list[k];
            if e >= nr {
                return false;
            }
            let back = match rs[e].of_skill {
                Some(x) => x == s,
                None => false,
            };
            if !back {
                return false;
            }
        }
        if !distinct_positions(list) {
            return false;
        }
        if !ratings_fit_in(rs, list) {
            return false;
        }
    }
    true
}

/// Whether every run of rated reviews leading `from` has ratings that add up
/// within `u32::MAX`.
fn ratings_fit_in(rs: &Vec<ReviewRecord>, from: &Vec<usize>) -> (r: bool)
    requires
        forall|k: int| 0 <= k < from@.len() ==> #[trigger] from@[k] < rs@.len(),
    ensures
        r == ratings_fit(rs@, from@),
{
    let n = from.len();
    let mut c: usize = 0;
    let mut sum: u64 = 0;
    while c < n
        invariant
            n == from@.len(),
            forall|k: int| 0 <= k < from@.len() ==> #[trigger] from@[k] < rs@.len(),
            c <= n,
            all_rated(rs@, from@, c as nat),
            sum == rating_sum(rs@, from@, c as nat),
            forall|k: nat| k <= c ==> #[trigger] rating_sum(rs@, from@, k) <= u32::MAX,
        decreases n - c,
    {
        let e = &rs[from[c]];
        let x: u8 = if e.withdrawn {
            0
        } else {
            match e.rating {
                None => 0,
                Some(v) => v,
            }
        };
        if e.withdrawn || e.rating.is_none() {
            assert forall|k: nat| #[trigger] all_rated(rs@, from@, k) implies rating_sum(
                rs@,
                from@,
                k,
            ) <= u32::MAX by {
                if k > c {
                    assert(is_rated(rs@[from@[c as int] as int]));
                }
            }
            return true;
        }
        if sum + (x as u64) > 4294967295 {
            assert(all_rated(rs@, from@, (c + 1) as nat));
            assert(rating_sum(rs@, from@, (c + 1) as nat) > u32::MAX);
            return false;
        }
        sum = sum + x as u64;
        c = c + 1;
    }
    true
}

fn check_user_reviews(us: &Vec<UserRecord>, rs: &Vec<ReviewRecord>) -> (r: bool)
    ensures
        r == user_reviews_ok(us@, rs@),
{
    let n = us.len();
    let nr = rs.len();
    for r in 0..nr
        invariant
            n == us@.len(),
            nr == rs@.len(),
            forall|a: int|
                0 <= a < r ==> (#[trigger] rs@[a].by_user matches Some(u) ==> {
                    &&& u < n
                    &&& us@[u as int].reviews_created@.contains(a as usize)
                }),
    {
        match rs[r].by_user {
            Some(u) => {
                if u >= n || !holds(&us[u].reviews_created, r) {
                    return false;
                }
            },
            None => {},
        }
    }
    for u in 0..n
        invariant
            n == us@.len(),
            nr == rs@.len(),
            forall|a: int|
                0 <= a < nr ==> (#[trigger] rs@[a].by_user matches Some(x) ==> {
                    &&& x < n
                    &&& us@[x as int].reviews_created@.contains(a as usize)
                }),
            forall|a: int, k: int|
                0 <= a < u && 0 <= k < us@[a].reviews_created@.len() ==> {
                    &&& #[trigger] us@[a].reviews_created@[k] < nr
                    &&& rs@[us@[a].reviews_created@[k] as int].by_user == Some(a as usize)
                },
            forall|a: int| 0 <= a < u ==> (#[trigger] us@[a].reviews_created@).no_duplicates(),
    {
        let list = &us[u].reviews_created;
        let l = list.len();
        for k in 0..l
            invariant
                n == us@.len(),
                nr == rs@.len(),
                u < n,
                *list == us@[u as int].reviews_created,
                l == list@.len(),
                forall|j: int|
                    0 <= j < k ==> {
                        &&& #[trigger] list@[j] < nr
                        &&& rs@[list@[j] as int].by_user == Some(u)
                    },
        {
            let e = list[k];
            if e >= nr {
                return false;
            }
            let back = match rs[e].by_user {
                Some(x) => x == u,
                None => false,
            };
            if !back {
                return false;
            }
        }
        if !distinct_positions(list) {
            return false;
        }
    }
    true
}

fn check_tags(ss: &Vec<SkillRecord>) -> (r: bool)
    ensures
        r == tags_ok(ss@),
{
    let m = ss.len();
    for s in 0..m
        invariant
            m == ss@.len(),
            forall|a: int| 0 <= a < s ==> (#[trigger] ss@[a].tags@).no_duplicates(),
    {
        if !distinct_tags(&ss[s].tags) {
            return false;
        }
    }
    true
}

/// Whether some review is withdrawn.
fn any_withdrawn(rs: &Vec<ReviewRecord>) -> (r: bool)
    ensures
        r == exists|i: int| 0 <= i < rs@.len() && (#[trigger] rs@[i]).withdrawn,
{
    let n = rs.len();
    for i in 0..n
        invariant
            n == rs@.len(),
            forall|a: int| 0 <= a < i ==> !(#[trigger] rs@[a]).withdrawn,
    {
        if rs[i].withdrawn {
            return true;
        }
    }
    false
}

impl TheWorld {
    /// The world of these stored records, when they keep its invariant:
    /// fewer than `u32::MAX` users and skills, sessions that hang together, links between users, skills and reviews that
    /// agree in both directions, and the withdrawal marker known to the world
    /// whenever a review is withdrawn.
    pub fn from_parts(
        users: Vec<UserRecord>,
        skills: Vec<SkillRecord>,
        reviews: Vec<ReviewRecord>,
        withdrawal_known: bool,
    ) -> (r: Option<TheWorld>)
        ensures
            r is Some <==> world_ok(users@, skills@, reviews@) && withdrawals_ok(
                reviews@,
                withdrawal_known,
            ),
            r matches Some(w) ==> w.users_view() == users@ && w.skills_view() == skills@
                && w.reviews_view() == reviews@ && w.withdrawal_view() == withdrawal_known,
    {
        let ok = users.len() < 4294967295 && skills.len() < 4294967295 && check_users(&users) && check_creators(&users, &skills) && check_skill_reviews(
            &skills,
            &reviews,
        ) && check_user_reviews(&users, &reviews) && check_tags(&skills) && (withdrawal_known
            || !any_withdrawn(&reviews));
        if ok {
            Some(TheWorld::assemble(users, skills, reviews, withdrawal_known))
        } else {
            None
        }
    }
}

} // verus!
