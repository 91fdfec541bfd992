//! Laws that span several operations of the site.
use vstd::prelude::*;

use crate::browse::{key_is, stably_sorted, Item, SortBy};
use crate::students::{saturating_span_add, ticked, UserRecord, DURATION_MAX_NANOS, SESSION_NANOS};
use crate::world::{
    after_tick, credentials_known, credentials_match, first_skill_with_id, first_with_credentials,
    holds_token, is_current, is_new_skill, is_new_user, is_online, login_taken, signed_in,
    signed_out, skill_ids_ok, skill_name_taken, sole, user_ids_ok, users_signed_in, SkillRecord,
};
use crate::seqs::lemma_filter_len_pointwise;
use crate::skills::Skill;

verus! {

/// A user who has just signed up can sign in with the same name and
/// password.
pub proof fn lemma_signed_up_can_sign_in(
    before: Seq<UserRecord>,
    after: Seq<UserRecord>,
    name: Seq<char>,
    password: Seq<char>,
    id: nat,
    now: nat,
)
    requires
        after.len() == before.len() + 1,
        is_new_user(after.last(), id, name, password, now),
    ensures
        credentials_known(after, name, password),
{
    assert(credentials_match(after[after.len() - 1], name, password));
}

/// Once a user has signed up under a name, the name is taken: a second
/// sign-up under it is refused.
pub proof fn lemma_sign_up_takes_name(
    before: Seq<UserRecord>,
    after: Seq<UserRecord>,
    name: Seq<char>,
    password: Seq<char>,
    id: nat,
    now: nat,
)
    requires
        after.len() == before.len() + 1,
        is_new_user(after.last(), id, name, password, now),
    ensures
        login_taken(after, name),
{
    assert(after[after.len() - 1].login_name@ == name);
}

/// When nobody is signed in, signing in leaves exactly one user signed in:
/// the first one with those credentials.
pub proof fn lemma_sign_in_gives_one_current(
    before: Seq<UserRecord>,
    after: Seq<UserRecord>,
    name: Seq<char>,
    password: Seq<char>,
    token: String,
)
    requires
        forall|k: int| 0 <= k < before.len() ==> !(#[trigger] before[k]).current,
        users_signed_in(before, after, name, password, token),
    ensures
        sole(after, |u: UserRecord| is_current(u)),
        exists|f: int| first_with_credentials(before, name, password, f) && (#[trigger] after[f]).current,
{
    let f = choose|f: int|
        #[trigger] first_with_credentials(before, name, password, f) && after == before.update(
            f,
            signed_in(before[f], token),
        );
    assert(after[f] == signed_in(before[f], token));
    assert forall|j: int| 0 <= j < after.len() && j != f implies !is_current(#[trigger] after[j]) by {
        assert(after[j] == before[j]);
    }
}

/// After a sign-in, the first user with the credentials holds the returned
/// token, so the session stored in the browser can be taken up again.
pub proof fn lemma_signed_in_holds_token(
    before: Seq<UserRecord>,
    after: Seq<UserRecord>,
    name: Seq<char>,
    password: Seq<char>,
    token: String,
    k: int,
)
    requires
        first_with_credentials(before, name, password, k),
        users_signed_in(before, after, name, password, token),
    ensures
        holds_token(after[k], token@),
        after[k].current,
{
    let f = choose|f: int|
        #[trigger] first_with_credentials(before, name, password, f) && after == before.update(
            f,
            signed_in(before[f], token),
        );
    if f < k {
        assert(!credentials_match(before[f], name, password));
    } else if k < f {
        assert(!credentials_match(before[k], name, password));
    }
    assert(after[k] == signed_in(before[k], token));
}

/// Signing out the only signed-in user leaves nobody signed in.
pub proof fn lemma_log_out_leaves_nobody(before: Seq<UserRecord>, after: Seq<UserRecord>)
    requires
        after.len() == before.len(),
        forall|k: int|
            0 <= k < before.len() ==> #[trigger] after[k] == if before[k].current {
                signed_out(before[k])
            } else {
                before[k]
            },
    ensures
        forall|k: int| 0 <= k < after.len() ==> !(#[trigger] after[k]).current,
{
    assert forall|k: int| 0 <= k < after.len() implies !(#[trigger] after[k]).current by {
        assert(after[k] == if before[k].current { signed_out(before[k]) } else { before[k] });
    }
}

/// A session ends once ten minutes pass: running the world that long ends
/// every session, signs its user out and takes it offline.
pub proof fn lemma_long_tick_ends_session(u: UserRecord, e: nat)
    requires
        e >= SESSION_NANOS,
        u.session is Some,
    ensures
        after_tick(u, e).session is None,
        after_tick(u, e).session_token is None,
        !after_tick(u, e).current,
        !after_tick(u, e).online,
{
    let t = u.session->0;
    assert(ticked(t, e).finished);
}

/// Running the world never takes time spent away from a user.
pub proof fn lemma_time_spend_grows(u: UserRecord, e: nat)
    requires
        u.time_spend <= DURATION_MAX_NANOS,
    ensures
        after_tick(u, e).time_spend >= u.time_spend,
{
}

/// Running the world for `a` and then for `b` is running it for `a + b`, as
/// long as the first run does not end the user's session.
pub proof fn lemma_ticks_add_up(u: UserRecord, a: nat, b: nat)
    requires
        u.time_spend <= DURATION_MAX_NANOS,
        u.session matches Some(t) ==> t.elapsed <= DURATION_MAX_NANOS && !ticked(t, a).finished,
    ensures
        after_tick(after_tick(u, a), b) == after_tick(u, a + b),
{
    let v = after_tick(u, a);
    if u.online {
        assert(v.time_spend == saturating_span_add(u.time_spend as nat, a));
    }
    match u.session {
        None => {},
        Some(t) => {
            assert(ticked(ticked(t, a), b) == ticked(t, a + b));
        },
    }
}

/// Without an order the browser keeps the cards as they come.
pub proof fn lemma_unsorted_keeps_order(out: Seq<Item>, input: Seq<Item>)
    requires
        stably_sorted(out, input, SortBy::Unsorted),
    ensures
        out == input,
{
    let p = key_is(SortBy::Unsorted, 0);
    assert(out.filter(p) == input.filter(p));
    lemma_filter_all(out, p);
    lemma_filter_all(input, p);
}

proof fn lemma_filter_all<A>(s: Seq<A>, p: spec_fn(A) -> bool)
    requires
        forall|x: A| #[trigger] p(x),
    ensures
        s.filter(p) == s,
    decreases s.len(),
{
    reveal_with_fuel(Seq::filter, 1);
    if s.len() > 0 {
        lemma_filter_all(s.drop_last(), p);
        assert(s.drop_last().push(s.last()) =~= s);
    }
}

/// A user signed up in a world whose user identifiers are `1..=n`, each
/// once, gets `n + 1`: the identifiers stay `1..=n + 1`, each once.
pub proof fn lemma_new_user_keeps_ids(
    before: Seq<UserRecord>,
    after: Seq<UserRecord>,
    name: Seq<char>,
    password: Seq<char>,
    now: nat,
)
    requires
        user_ids_ok(before),
        after.len() == before.len() + 1,
        after.drop_last() == before,
        is_new_user(after.last(), before.len() + 1, name, password, now),
    ensures
        user_ids_ok(after),
{
    let n = before.len() as int;
    assert forall|i: int| 0 <= i < n implies #[trigger] after[i] == before[i] by {
        assert(after.drop_last()[i] == after[i]);
    }
    assert forall|i: int, j: int|
        0 <= i < after.len() && 0 <= j < after.len() && i != j implies #[trigger] after[i].id
        != #[trigger] after[j].id by {
        if i < n && j < n {
            assert(before[i].id != before[j].id);
        } else if i < n {
            assert(before[i].id.0 <= n);
        } else {
            assert(before[j].id.0 <= n);
        }
    }
}

/// A skill created in a world whose skill identifiers are `1..=n`, each
/// once, gets `n + 1`: the identifiers stay `1..=n + 1`, each once, and
/// looking up any skill by its identifier finds that very skill.
pub proof fn lemma_new_skill_keeps_ids(
    before: Seq<SkillRecord>,
    after: Seq<SkillRecord>,
    name: Seq<char>,
    chosen: Seq<Skill>,
    creator: usize,
)
    requires
        skill_ids_ok(before),
        after.len() == before.len() + 1,
        after.drop_last() == before,
        is_new_skill(after.last(), before.len() + 1, name, chosen, creator),
    ensures
        skill_ids_ok(after),
        forall|i: int| 0 <= i < after.len() ==> first_skill_with_id(after, (#[trigger] after[i]).id.0, i),
{
    let n = before.len() as int;
    assert forall|i: int| 0 <= i < n implies #[trigger] after[i] == before[i] by {
        assert(after.drop_last()[i] == after[i]);
    }
    assert forall|i: int, j: int|
        0 <= i < after.len() && 0 <= j < after.len() && i != j implies #[trigger] after[i].id
        != #[trigger] after[j].id by {
        if i < n && j < n {
            assert(before[i].id != before[j].id);
        } else if i < n {
            assert(before[i].id.0 <= n);
        } else {
            assert(before[j].id.0 <= n);
        }
    }
    assert forall|i: int| 0 <= i < after.len() implies first_skill_with_id(
        after,
        (#[trigger] after[i]).id.0,
        i,
    ) by {
        assert forall|j: int| 0 <= j < i implies (#[trigger] after[j]).id.0 != after[i].id.0 by {
            assert(after[j].id != after[i].id);
        }
    }
}

/// Where skill identifiers are `1..=n`, each once, looking a skill up by its
/// identifier finds exactly that skill.
pub proof fn lemma_skill_id_finds_skill(ss: Seq<SkillRecord>, i: int)
    requires
        skill_ids_ok(ss),
        0 <= i < ss.len(),
    ensures
        first_skill_with_id(ss, ss[i].id.0, i),
{
    assert forall|j: int| 0 <= j < i implies (#[trigger] ss[j]).id.0 != ss[i].id.0 by {
        assert(ss[j].id != ss[i].id);
    }
}

/// Cards sorted for an order come in that order, field by field: by review
/// count or by rating sum, rising or falling, or by rising identifier.
pub proof fn lemma_sorted_cards_follow_order(out: Seq<Item>, input: Seq<Item>, by: SortBy)
    requires
        stably_sorted(out, input, by),
    ensures
        by == SortBy::RatingHighLow ==> forall|i: int, j: int|
            0 <= i < j < out.len() ==> (#[trigger] out[i]).rating >= (#[trigger] out[j]).rating,
        by == SortBy::RatingLowHigh ==> forall|i: int, j: int|
            0 <= i < j < out.len() ==> (#[trigger] out[i]).rating <= (#[trigger] out[j]).rating,
        by == SortBy::ReviewHighLow ==> forall|i: int, j: int|
            0 <= i < j < out.len() ==> (#[trigger] out[i]).total_review >= (
            #[trigger] out[j]).total_review,
        by == SortBy::ReviewLowHigh ==> forall|i: int, j: int|
            0 <= i < j < out.len() ==> (#[trigger] out[i]).total_review <= (
            #[trigger] out[j]).total_review,
        by == SortBy::Id ==> forall|i: int, j: int|
            0 <= i < j < out.len() ==> (#[trigger] out[i]).id.0 <= (#[trigger] out[j]).id.0,
{
}

/// Signing out keeps every user online or offline as before, so the number
/// of users online stays the same.
pub proof fn lemma_log_out_keeps_online(before: Seq<UserRecord>, after: Seq<UserRecord>)
    requires
        after.len() == before.len(),
        forall|k: int|
            0 <= k < before.len() ==> #[trigger] after[k] == if before[k].current {
                signed_out(before[k])
            } else {
                before[k]
            },
    ensures
        forall|k: int| 0 <= k < after.len() ==> (#[trigger] after[k]).online == before[k].online,
        after.filter(|u: UserRecord| is_online(u)).len() == before.filter(
            |u: UserRecord| is_online(u),
        ).len(),
        after.filter(|u: UserRecord| u.online).len() == before.filter(|u: UserRecord| u.online).len(),
{
    assert forall|k: int| 0 <= k < after.len() implies (#[trigger] after[k]).online
        == before[k].online by {
        assert(after[k] == if before[k].current { signed_out(before[k]) } else { before[k] });
    }
    lemma_filter_len_pointwise(after, before, |u: UserRecord| is_online(u));
    lemma_filter_len_pointwise(after, before, |u: UserRecord| u.online);
}

/// Running the world for `e` adds `e` to the time spent of an online user,
/// held at the longest duration, and leaves an offline user's time as it was.
pub proof fn lemma_tick_counts_online_time(u: UserRecord, e: nat)
    ensures
        u.online ==> after_tick(u, e).time_spend == saturating_span_add(u.time_spend as nat, e),
        !u.online ==> after_tick(u, e).time_spend == u.time_spend,
{
}

/// A user who signs out stays online, so running the world afterwards still
/// adds to the user's time spent.
pub proof fn lemma_signed_out_time_still_counts(u: UserRecord, e: nat)
    requires
        u.online,
    ensures
        after_tick(signed_out(u), e).time_spend == saturating_span_add(u.time_spend as nat, e),
{
}

/// A skill name that no skill has is free, however much it shares with
/// other names.
pub proof fn lemma_unused_skill_name_is_free(ss: Seq<SkillRecord>, name: Seq<char>)
    requires
        forall|i: int| 0 <= i < ss.len() ==> (#[trigger] ss[i]).name@ != name,
    ensures
        !skill_name_taken(ss, name),
{
}

/// The name of an existing skill is taken.
pub proof fn lemma_existing_skill_name_is_taken(ss: Seq<SkillRecord>, name: Seq<char>, i: int)
    requires
        0 <= i < ss.len(),
        ss[i].name@ == name,
    ensures
        skill_name_taken(ss, name),
{
}

} // verus!
