//! The world: every user, skill and review, the invariant that ties them
//! together, and the operations of the site on them.
use vstd::prelude::*;

use crate::review::{is_counted, ReviewRecord};
use crate::browse::{all_rated, rating_sum, ratings_fit};
use crate::seqs::{lemma_filter_take_step, lemma_take_all};
use crate::skills::{lemma_tag_set_unique, make_tag_set, tag_set, Skill, SkillID};
use crate::entropy::fill_random;
use crate::text::{token_from_bytes, token_text};
use crate::ui::{AfterOption, CreateState};
use crate::students::{
    UserID, add_span, saturating_span_add, ticked, SessionDuration, UserRecord, DURATION_MAX_NANOS,
};

verus! {

/// A skill and what belongs to it.  Its creator and its reviews are named by
/// their position in the world.
pub struct SkillRecord {
    pub id: SkillID,
    pub name: String,
    pub description: String,
    pub image: String,
    /// The categories of the skill, each once.
    pub tags: Vec<Skill>,
    pub created_by: usize,
    pub reviewed_from: Vec<usize>,
}

/// Every user, skill and review of the site, and whether the withdrawal
/// marker of reviews is known to the world: once any review has been
/// withdrawn the marker is known for good, and until then no query that
/// leaves withdrawn reviews out can be made, so such counts come out as zero.
pub struct TheWorld {
    users: Vec<UserRecord>,
    skills: Vec<SkillRecord>,
    reviews: Vec<ReviewRecord>,
    withdrawal_known: bool,
}

/// What a user's profile page shows.
#[derive(Clone, Debug, PartialEq, Eq)]
pub struct Profile {
    pub name: String,
    pub id: UserID,
    /// The name and identifier of each skill the user created, in order.
    pub skills: Vec<(String, SkillID)>,
    pub description: String,
    /// How many reviews the user wrote.
    pub reviews_written: usize,
    pub picture: String,
}

/// What a skill's page shows.
#[derive(Clone, Debug, PartialEq, Eq)]
pub struct SkillPage {
    pub name: String,
    pub id: SkillID,
    /// The creator's name and identifier.
    pub creator: Option<(String, UserID)>,
    pub description: String,
    pub image: String,
}


//////////////////////////////////////////////////////////////////////////////
// The invariant.
//////////////////////////////////////////////////////////////////////////////

/// The identifiers are `1..=n` in some order, each once.
pub open spec fn user_ids_ok(us: Seq<UserRecord>) -> bool {
    &&& forall|i: int| 0 <= i < us.len() ==> 1 <= #[trigger] us[i].id.0 <= us.len()
    &&& forall|i: int, j: int|
        0 <= i < us.len() && 0 <= j < us.len() && i != j ==> #[trigger] us[i].id != #[trigger] us[j].id
}

/// The identifiers are `1..=n` in some order, each once.
pub open spec fn skill_ids_ok(ss: Seq<SkillRecord>) -> bool {
    &&& forall|i: int| 0 <= i < ss.len() ==> 1 <= #[trigger] ss[i].id.0 <= ss.len()
    &&& forall|i: int, j: int|
        0 <= i < ss.len() && 0 <= j < ss.len() && i != j ==> #[trigger] ss[i].id != #[trigger] ss[j].id
}

/// A user's session state hangs together: a signed-in user is online, a
/// session token comes with its timer, and every span fits a duration.
pub open spec fn user_ok(u: UserRecord) -> bool {
    &&& u.current ==> u.online
    &&& u.session_token is Some ==> u.session is Some
    &&& u.time_spend <= DURATION_MAX_NANOS
    &&& u.registered <= DURATION_MAX_NANOS
    &&& u.session matches Some(t) ==> t.elapsed <= DURATION_MAX_NANOS
}

/// Each user lists exactly the skills it created, each once.
pub open spec fn creators_ok(us: Seq<UserRecord>, ss: Seq<SkillRecord>) -> bool {
    &&& forall|s: int|
        0 <= s < ss.len() ==> {
            &&& 0 <= #[trigger] ss[s].created_by < us.len()
            &&& us[ss[s].created_by as int].skills_created@.contains(s as usize)
        }
    &&& forall|u: int, k: int|
        0 <= u < us.len() && 0 <= k < us[u].skills_created@.len() ==> {
            &&& #[trigger] us[u].skills_created@[k] < ss.len()
            &&& ss[us[u].skills_created@[k] as int].created_by == u
        }
    &&& forall|u: int| 0 <= u < us.len() ==> (#[trigger] us[u].skills_created@).no_duplicates()
}

/// Each skill lists exactly the reviews of it, each once.
pub open spec fn skill_reviews_ok(ss: Seq<SkillRecord>, rs: Seq<ReviewRecord>) -> bool {
    &&& forall|r: int|
        0 <= r < rs.len() ==> (#[trigger] rs[r].of_skill matches Some(s) ==> {
            &&& s < ss.len()
            &&& ss[s as int].reviewed_from@.contains(r as usize)
        })
    &&& forall|s: int, k: int|
        0 <= s < ss.len() && 0 <= k < ss[s].reviewed_from@.len() ==> {
            &&& #[trigger] ss[s].reviewed_from@[k] < rs.len()
            &&& rs[ss[s].reviewed_from@[k] as int].of_skill == Some(s as usize)
        }
    &&& forall|s: int| 0 <= s < ss.len() ==> (#[trigger] ss[s].reviewed_from@).no_duplicates()
    &&& forall|s: int| 0 <= s < ss.len() ==> ratings_fit(rs, #[trigger] ss[s].reviewed_from@)
}

/// Each user lists exactly the reviews it wrote, each once.
pub open spec fn user_reviews_ok(us: Seq<UserRecord>, rs: Seq<ReviewRecord>) -> bool {
    &&& forall|r: int|
        0 <= r < rs.len() ==> (#[trigger] rs[r].by_user matches Some(u) ==> {
            &&& u < us.len()
            &&& us[u as int].reviews_created@.contains(r as usize)
        })
    &&& forall|u: int, k: int|
        0 <= u < us.len() && 0 <= k < us[u].reviews_created@.len() ==> {
            &&& #[trigger] us[u].reviews_created@[k] < rs.len()
            &&& rs[us[u].reviews_created@[k] as int].by_user == Some(u as usize)
        }
    &&& forall|u: int| 0 <= u < us.len() ==> (#[trigger] us[u].reviews_created@).no_duplicates()
}

/// Every skill carries each of its categories once.
pub open spec fn tags_ok(ss: Seq<SkillRecord>) -> bool {
    forall|s: int| 0 <= s < ss.len() ==> (#[trigger] ss[s].tags@).no_duplicates()
}

/// A withdrawn review makes the withdrawal marker known.
pub open spec fn withdrawals_ok(rs: Seq<ReviewRecord>, known: bool) -> bool {
    known || forall|r: int| 0 <= r < rs.len() ==> !(#[trigger] rs[r]).withdrawn
}

/// The invariant of the world.
pub open spec fn world_ok(us: Seq<UserRecord>, ss: Seq<SkillRecord>, rs: Seq<ReviewRecord>) -> bool {
    &&& us.len() < u32::MAX
    &&& ss.len() < u32::MAX
    &&& forall|i: int| 0 <= i < us.len() ==> user_ok(#[trigger] us[i])
    &&& creators_ok(us, ss)
    &&& skill_reviews_ok(ss, rs)
    &&& user_reviews_ok(us, rs)
    &&& tags_ok(ss)
}


//////////////////////////////////////////////////////////////////////////////
// What the contracts speak of.
//////////////////////////////////////////////////////////////////////////////

pub open spec fn is_online(u: UserRecord) -> bool {
    u.online
}

pub open spec fn is_current(u: UserRecord) -> bool {
    u.current
}

/// Exactly one user satisfies `p`.
pub open spec fn sole(us: Seq<UserRecord>, p: spec_fn(UserRecord) -> bool) -> bool {
    exists|i: int|
        0 <= i < us.len() && p(#[trigger] us[i]) && forall|j: int|
            0 <= j < us.len() && j != i ==> !p(#[trigger] us[j])
}

/// The signed-in user that has a picture.
pub open spec fn is_current_with_picture(u: UserRecord) -> bool {
    u.current && u.picture is Some
}

/// A user after the world has run for `e` nanoseconds: online users add the
/// time to their time spent; a session timer runs, and a session whose timer
/// finishes ends: token, timer, sign-in and online state all go.
pub open spec fn after_tick(u: UserRecord, e: nat) -> UserRecord {
    let time_spend = if u.online {
        saturating_span_add(u.time_spend as nat, e) as u128
    } else {
        u.time_spend
    };
    match u.session {
        None => UserRecord { time_spend, ..u },
        Some(t) => {
            let t2 = ticked(t, e);
            if t2.finished {
                UserRecord {
                    time_spend,
                    session: None,
                    session_token: None,
                    current: false,
                    online: false,
                    ..u
                }
            } else {
                UserRecord { time_spend, session: Some(t2), ..u }
            }
        },
    }
}

/// Some user has this login name.
pub open spec fn login_taken(us: Seq<UserRecord>, name: Seq<char>) -> bool {
    exists|i: int| 0 <= i < us.len() && #[trigger] us[i].login_name@ == name
}

/// The user a sign-up creates: named and logged in by `name`, with the next
/// identifier, signed up at `now`, offline, with nothing written or created.
pub open spec fn is_new_user(
    u: UserRecord,
    id: nat,
    name: Seq<char>,
    password: Seq<char>,
    now: nat,
) -> bool {
    &&& u.id.0 == id
    &&& u.name@ == name
    &&& u.login_name@ == name
    &&& u.password@ == password
    &&& u.description@ == Seq::<char>::empty()
    &&& u.picture is None
    &&& u.time_spend == 0
    &&& u.registered == now
    &&& !u.online
    &&& !u.current
    &&& u.session_token is None
    &&& u.session is None
    &&& u.skills_created@ == Seq::<usize>::empty()
    &&& u.reviews_created@ == Seq::<usize>::empty()
}

/// The user signs in with these credentials.
pub open spec fn credentials_match(u: UserRecord, name: Seq<char>, password: Seq<char>) -> bool {
    u.login_name@ == name && u.password@ == password
}

/// Some user signs in with these credentials.
pub open spec fn credentials_known(us: Seq<UserRecord>, name: Seq<char>, password: Seq<char>) -> bool {
    exists|i: int| 0 <= i < us.len() && credentials_match(#[trigger] us[i], name, password)
}

/// A user once signed in with `token`: signed in and online, holding the
/// token, and with a session timer: a fresh one where it had none, else the
/// one it had.
pub open spec fn signed_in(u: UserRecord, token: String) -> UserRecord {
    UserRecord {
        current: true,
        online: true,
        session_token: Some(token),
        session: if u.session is None {
            Some(SessionDuration { elapsed: 0, finished: false })
        } else {
            u.session
        },
        ..u
    }
}

/// `f` is the first position whose user has these credentials.
pub open spec fn first_with_credentials(
    us: Seq<UserRecord>,
    name: Seq<char>,
    password: Seq<char>,
    f: int,
) -> bool {
    &&& 0 <= f < us.len()
    &&& credentials_match(us[f], name, password)
    &&& forall|j: int| 0 <= j < f ==> !credentials_match(#[trigger] us[j], name, password)
}

/// The users after a sign-in with `token`: the first user with the
/// credentials signs in, every other user stays as it was.
pub open spec fn users_signed_in(
    old_us: Seq<UserRecord>,
    new_us: Seq<UserRecord>,
    name: Seq<char>,
    password: Seq<char>,
    token: String,
) -> bool {
    exists|f: int|
        #[trigger] first_with_credentials(old_us, name, password, f) && new_us == old_us.update(
            f,
            signed_in(old_us[f], token),
        )
}

/// A user after signing out: no longer signed in and without its token.
/// It stays online and keeps its session timer.
pub open spec fn signed_out(u: UserRecord) -> UserRecord {
    UserRecord { current: false, session_token: None, ..u }
}

/// The user holds a session with this token.
pub open spec fn holds_token(u: UserRecord, token: Seq<char>) -> bool {
    u.session_token matches Some(t) && t@ == token
}

/// A user whose stored session is taken up again: signed in and online.
pub open spec fn resumed(u: UserRecord) -> UserRecord {
    UserRecord { current: true, online: true, ..u }
}

/// The two users differ at most in their list of created skills.
pub open spec fn differ_in_skills_created(before: UserRecord, after: UserRecord) -> bool {
    UserRecord { skills_created: after.skills_created, ..before } == after
}

/// Some skill has this name.
pub open spec fn skill_name_taken(ss: Seq<SkillRecord>, name: Seq<char>) -> bool {
    exists|i: int| 0 <= i < ss.len() && #[trigger] ss[i].name@ == name
}

/// The skill a creation makes: the next identifier, the name, the chosen
/// categories as a set, no description or image, made by `creator`, with no
/// reviews.
pub open spec fn is_new_skill(
    s: SkillRecord,
    id: nat,
    name: Seq<char>,
    chosen: Seq<Skill>,
    creator: usize,
) -> bool {
    &&& s.id.0 == id
    &&& s.name@ == name
    &&& s.description@ == Seq::<char>::empty()
    &&& s.image@ == Seq::<char>::empty()
    &&& s.tags@ == tag_set(chosen)
    &&& s.created_by == creator
    &&& s.reviewed_from@ == Seq::<usize>::empty()
}

/// The two users differ at most in their description.
pub open spec fn differ_in_description(before: UserRecord, after: UserRecord) -> bool {
    UserRecord { description: after.description, ..before } == after
}

/// The two users differ at most in their picture.
pub open spec fn differ_in_picture(before: UserRecord, after: UserRecord) -> bool {
    UserRecord { picture: after.picture, ..before } == after
}

/// A user whose profile can be shown under this identifier: it has a picture.
pub open spec fn shows_profile(u: UserRecord, id: u32) -> bool {
    u.picture is Some && u.id.0 == id
}

/// `f` is the first position whose user shows the profile.
pub open spec fn first_profile(us: Seq<UserRecord>, id: u32, f: int) -> bool {
    &&& 0 <= f < us.len()
    &&& shows_profile(us[f], id)
    &&& forall|j: int| 0 <= j < f ==> !shows_profile(#[trigger] us[j], id)
}

/// `p` is the profile of the first user that shows a profile under `id`.
pub open spec fn profile_shows(p: Profile, us: Seq<UserRecord>, ss: Seq<SkillRecord>, id: u32) -> bool {
    exists|f: int|
        {
            &&& #[trigger] first_profile(us, id, f)
            &&& p.name == us[f].name
            &&& p.id == us[f].id
            &&& p.description == us[f].description
            &&& us[f].picture == Some(p.picture)
            &&& p.reviews_written == us[f].reviews_created@.len()
            &&& p.skills@.len() == us[f].skills_created@.len()
            &&& forall|k: int|
                0 <= k < p.skills@.len() ==> {
                    let s = ss[us[f].skills_created@[k] as int];
                    #[trigger] p.skills@[k] == (s.name, s.id)
                }
        }
}

/// What the profile page shows a visitor: nothing but a request to sign in
/// unless exactly one user is signed in; then the profile, or that there is
/// none.
#[derive(Clone, Debug, PartialEq, Eq)]
pub enum ProfilePage {
    RequireLogin,
    NotFound,
    Found(Profile),
}

/// `f` is the first position of a skill with this identifier.
pub open spec fn first_skill_with_id(ss: Seq<SkillRecord>, id: u32, f: int) -> bool {
    &&& 0 <= f < ss.len()
    &&& ss[f].id.0 == id
    &&& forall|j: int| 0 <= j < f ==> (#[trigger] ss[j]).id.0 != id
}


//////////////////////////////////////////////////////////////////////////////
// The operations.
//////////////////////////////////////////////////////////////////////////////

impl TheWorld {
    pub closed spec fn users_view(&self) -> Seq<UserRecord> {
        self.users@
    }

    pub closed spec fn skills_view(&self) -> Seq<SkillRecord> {
        self.skills@
    }

    pub closed spec fn reviews_view(&self) -> Seq<ReviewRecord> {
        self.reviews@
    }

    pub closed spec fn withdrawal_view(&self) -> bool {
        self.withdrawal_known
    }

    pub open spec fn wf(&self) -> bool {
        &&& world_ok(self.users_view(), self.skills_view(), self.reviews_view())
        &&& withdrawals_ok(self.reviews_view(), self.withdrawal_view())
    }

    /// Whether the withdrawal marker of reviews is known to the world.
    pub fn withdrawal_known(&self) -> (r: bool)
        ensures
            r == self.withdrawal_view(),
    {
        self.withdrawal_known
    }

    /// An empty world.
    pub fn new() -> (w: Self)
        ensures
            w.wf(),
            w.users_view().len() == 0,
            w.skills_view().len() == 0,
            w.reviews_view().len() == 0,
            !w.withdrawal_view(),
    {
        TheWorld {
            users: Vec::new(),
            skills: Vec::new(),
            reviews: Vec::new(),
            withdrawal_known: false,
        }
    }

    /// A world made of these records, which must keep the invariant.
    pub(crate) fn assemble(
        users: Vec<UserRecord>,
        skills: Vec<SkillRecord>,
        reviews: Vec<ReviewRecord>,
        withdrawal_known: bool,
    ) -> (w: Self)
        requires
            world_ok(users@, skills@, reviews@),
            withdrawals_ok(reviews@, withdrawal_known),
        ensures
            w.wf(),
            w.users_view() == users@,
            w.skills_view() == skills@,
            w.reviews_view() == reviews@,
            w.withdrawal_view() == withdrawal_known,
    {
        TheWorld { users, skills, reviews, withdrawal_known }
    }

    pub fn users(&self) -> (r: &Vec<UserRecord>)
        ensures
            r@ == self.users_view(),
    {
        &self.users
    }

    pub fn skills(&self) -> (r: &Vec<SkillRecord>)
        ensures
            r@ == self.skills_view(),
    {
        &self.skills
    }

    pub fn reviews(&self) -> (r: &Vec<ReviewRecord>)
        ensures
            r@ == self.reviews_view(),
    {
        &self.reviews
    }

    /// The number of users.
    pub fn total_user(&self) -> (n: usize)
        ensures
            n == self.users_view().len(),
    {
        self.users.len()
    }

    /// The number of skills.
    pub fn total_skill(&self) -> (n: usize)
        ensures
            n == self.skills_view().len(),
    {
        self.skills.len()
    }

    /// The number of users online.
    pub fn total_online_user(&self) -> (n: usize)
        ensures
            n == self.users_view().filter(|u: UserRecord| is_online(u)).len(),
            n == self.users_view().filter(|u: UserRecord| u.online).len(),
    {
        let ghost p = |u: UserRecord| is_online(u);
        let mut count: usize = 0;
        let len = self.users.len();
        for i in 0..len
            invariant
                len == self.users@.len(),
                p == (|u: UserRecord| is_online(u)),
                count == self.users@.take(i as int).filter(p).len(),
                count <= i,
        {
            proof {
                lemma_filter_take_step(self.users@, p, i as int);
            }
            if self.users[i].online {
                count = count + 1;
            }
        }
        proof {
            lemma_take_all(self.users@);
            assert(p =~= (|u: UserRecord| u.online));
        }
        count
    }

    /// The number of reviews that count: marked and not withdrawn.
    /// Until the withdrawal marker is known the query is not possible and the
    /// count is zero.
    pub fn total_review(&self) -> (n: usize)
        ensures
            n == if self.withdrawal_view() {
                self.reviews_view().filter(|r: ReviewRecord| is_counted(r)).len()
            } else {
                0
            },
    {
        if !self.withdrawal_known {
            return 0;
        }
        let ghost p = |r: ReviewRecord| is_counted(r);
        let mut count: usize = 0;
        let len = self.reviews.len();
        for i in 0..len
            invariant
                len == self.reviews@.len(),
                p == (|r: ReviewRecord| is_counted(r)),
                count == self.reviews@.take(i as int).filter(p).len(),
                count <= i,
        {
            proof {
                lemma_filter_take_step(self.reviews@, p, i as int);
            }
            if self.reviews[i].marked && !self.reviews[i].withdrawn {
                count = count + 1;
            }
        }
        proof {
            lemma_take_all(self.reviews@);
        }
        count
    }

    /// The time each user has spent online, in nanoseconds, user by user.
    pub fn user_time_spends(&self) -> (v: Vec<u128>)
        ensures
            v@.len() == self.users_view().len(),
            forall|i: int| 0 <= i < v@.len() ==> v@[i] == #[trigger] self.users_view()[i].time_spend,
    {
        let mut v: Vec<u128> = Vec::new();
        let len = self.users.len();
        for i in 0..len
            invariant
                len == self.users@.len(),
                v@.len() == i,
                forall|k: int| 0 <= k < i ==> v@[k] == #[trigger] self.users@[k].time_spend,
        {
            v.push(self.users[i].time_spend);
        }
        v
    }

    /// Finds the one user that is signed in, with a picture if asked.
    fn find_sole(&self, need_picture: bool) -> (r: Option<usize>)
        ensures
            need_picture ==> (r is Some <==> sole(self.users@, |u: UserRecord| is_current_with_picture(u))),
            !need_picture ==> (r is Some <==> sole(self.users@, |u: UserRecord| is_current(u))),
            r matches Some(i) ==> i < self.users@.len() && self.users@[i as int].current
                && (need_picture ==> self.users@[i as int].picture is Some),
    {
        let ghost p = if need_picture {
            |u: UserRecord| is_current_with_picture(u)
        } else {
            |u: UserRecord| is_current(u)
        };
        let len = self.users.len();
        let mut found: Option<usize> = None;
        for i in 0..len
            invariant
                len == self.users@.len(),
                p == if need_picture {
                    |u: UserRecord| is_current_with_picture(u)
                } else {
                    |u: UserRecord| is_current(u)
                },
                found matches Some(f) ==> f < i && p(self.users@[f as int]) && forall|j: int|
                    0 <= j < i && j != f ==> !p(#[trigger] self.users@[j]),
                found is None ==> forall|j: int| 0 <= j < i ==> !p(#[trigger] self.users@[j]),
        {
            let hit = self.users[i].current && (!need_picture || self.users[i].picture.is_some());
            if hit {
                if found.is_some() {
                    proof {
                        let f = found->0 as int;
                        assert forall|k: int| 0 <= k < len && p(#[trigger] self.users@[k]) implies !(forall|j: int|
                            0 <= j < len && j != k ==> !p(#[trigger] self.users@[j])) by {
                            if k == f {
                                assert(p(self.users@[i as int]));
                            } else {
                                assert(p(self.users@[f]));
                            }
                        }
                    }
                    return None;
                }
                found = Some(i);
            }
        }
        found
    }

    /// Only position `i` satisfies `p` when exactly one user does and `i` does.
    proof fn lemma_sole_is(&self, i: int, p: spec_fn(UserRecord) -> bool)
        requires
            sole(self.users@, p),
            0 <= i < self.users@.len(),
            p(self.users@[i]),
        ensures
            forall|j: int| 0 <= j < self.users@.len() && p(#[trigger] self.users@[j]) ==> j == i,
    {
        let w = choose|w: int| 0 <= w < self.users@.len() && p(#[trigger] self.users@[w]) && forall|j: int|
            0 <= j < self.users@.len() && j != w ==> !p(#[trigger] self.users@[j]);
        assert forall|j: int| 0 <= j < self.users@.len() && p(#[trigger] self.users@[j]) implies j == i by {
            if j != w {
                assert(!p(self.users@[j]));
            }
            if i != w {
                assert(!p(self.users@[i]));
            }
        }
    }

    /// Whether exactly one user is signed in.
    pub fn has_current_user(&self) -> (r: bool)
        ensures
            r == sole(self.users_view(), |u: UserRecord| is_current(u)),
    {
        self.find_sole(false).is_some()
    }

    /// The name and identifier of the signed-in user, when exactly one user is
    /// signed in.
    pub fn current_user(&self) -> (r: Option<(String, UserID)>)
        ensures
            r is Some <==> sole(self.users_view(), |u: UserRecord| is_current(u)),
            r matches Some((name, id)) ==> forall|i: int|
                0 <= i < self.users_view().len() && (#[trigger] self.users_view()[i]).current ==> name
                    == self.users_view()[i].name && id == self.users_view()[i].id,
    {
        match self.find_sole(false) {
            None => None,
            Some(i) => {
                proof {
                    self.lemma_sole_is(i as int, |u: UserRecord| is_current(u));
                }
                Some((self.users[i].name.clone(), self.users[i].id))
            },
        }
    }

    /// The picture of the signed-in user, when exactly one signed-in user has
    /// a picture.
    pub fn current_picture(&self) -> (r: Option<String>)
        ensures
            r is Some <==> sole(self.users_view(), |u: UserRecord| is_current_with_picture(u)),
            r matches Some(p) ==> forall|i: int|
                0 <= i < self.users_view().len() && is_current_with_picture(
                    #[trigger] self.users_view()[i],
                ) ==> self.users_view()[i].picture == Some(p),
    {
        match self.find_sole(true) {
            None => None,
            Some(i) => {
                proof {
                    self.lemma_sole_is(i as int, |u: UserRecord| is_current_with_picture(u));
                }
                self.users[i].picture.clone()
            },
        }
    }

    /// The description and picture of the signed-in user, for the profile
    /// editor, when exactly one signed-in user has a picture.
    pub fn current_profile_fields(&self) -> (r: Option<(String, String)>)
        ensures
            r is Some <==> sole(self.users_view(), |u: UserRecord| is_current_with_picture(u)),
            r matches Some((d, p)) ==> forall|i: int|
                0 <= i < self.users_view().len() && is_current_with_picture(
                    #[trigger] self.users_view()[i],
                ) ==> self.users_view()[i].description == d && self.users_view()[i].picture == Some(p),
    {
        match self.find_sole(true) {
            None => None,
            Some(i) => {
                proof {
                    self.lemma_sole_is(i as int, |u: UserRecord| is_current_with_picture(u));
                }
                match &self.users[i].picture {
                    Some(p) => Some((self.users[i].description.clone(), p.clone())),
                    None => None,
                }
            },
        }
    }

    /// The profile page of the user with this identifier.  Only users with a
    /// picture have a profile page; the first such user with the identifier
    /// is shown.
    pub fn profile(&self, id: u32) -> (r: Option<Profile>)
        requires
            self.wf(),
        ensures
            r is None <==> forall|i: int|
                0 <= i < self.users_view().len() ==> !shows_profile(#[trigger] self.users_view()[i], id),
            r matches Some(p) ==> profile_shows(p, self.users_view(), self.skills_view(), id),
    {
        let len = self.users.len();
        let mut i: usize = 0;
        while i < len
            invariant
                len == self.users@.len(),
                i <= len,
                forall|j: int| 0 <= j < i ==> !shows_profile(#[trigger] self.users@[j], id),
            ensures
                i <= len,
                forall|j: int| 0 <= j < i ==> !shows_profile(#[trigger] self.users@[j], id),
                i < len ==> shows_profile(self.users@[i as int], id),
            decreases len - i,
        {
            if self.users[i].id.0 == id && self.users[i].picture.is_some() {
                break;
            }
            i = i + 1;
        }
        if i == len {
            return None;
        }
        let u = &self.users[i];
        let mut skills: Vec<(String, SkillID)> = Vec::new();
        let n = u.skills_created.len();
        for k in 0..n
            invariant
                self.wf(),
                i < self.users@.len(),
                *u == self.users@[i as int],
                n == u.skills_created@.len(),
                skills@.len() == k,
                forall|j: int|
                    0 <= j < k ==> {
                        let s = self.skills@[u.skills_created@[j] as int];
                        #[trigger] skills@[j] == (s.name, s.id)
                    },
        {
            let s = u.skills_created[k];
            assert(s < self.skills@.len());
            skills.push((self.skills[s].name.clone(), self.skills[s].id));
        }
        let picture = match &u.picture {
            Some(p) => p.clone(),
            None => String::new(),
        };
        let page = Profile {
            name: u.name.clone(),
            id: u.id,
            skills,
            description: u.description.clone(),
            reviews_written: u.reviews_created.len(),
            picture,
        };
        assert(first_profile(self.users@, id, i as int));
        Some(page)
    }

    /// The profile page as a visitor sees it: signed-in visitors only.
    pub fn profile_view(&self, id: u32) -> (r: ProfilePage)
        requires
            self.wf(),
        ensures
            r is RequireLogin <==> !sole(self.users_view(), |u: UserRecord| is_current(u)),
            r is NotFound <==> sole(self.users_view(), |u: UserRecord| is_current(u)) && forall|i: int|
                0 <= i < self.users_view().len() ==> !shows_profile(#[trigger] self.users_view()[i], id),
            r matches ProfilePage::Found(p) ==> profile_shows(p, self.users_view(), self.skills_view(), id),
    {
        if !self.has_current_user() {
            return ProfilePage::RequireLogin;
        }
        match self.profile(id) {
            None => ProfilePage::NotFound,
            Some(p) => ProfilePage::Found(p),
        }
    }

    /// The page of the skill with this identifier: the first skill with it.
    pub fn skill_page(&self, id: u32) -> (r: Option<SkillPage>)
        requires
            self.wf(),
        ensures
            r is None <==> forall|i: int|
                0 <= i < self.skills_view().len() ==> (#[trigger] self.skills_view()[i]).id.0 != id,
            r matches Some(p) ==> exists|f: int| {
                &&& #[trigger] first_skill_with_id(self.skills_view(), id, f)
                &&& p.name == self.skills_view()[f].name
                &&& p.id == self.skills_view()[f].id
                &&& p.description == self.skills_view()[f].description
                &&& p.image == self.skills_view()[f].image
                &&& p.creator == Some(
                    (
                        self.users_view()[self.skills_view()[f].created_by as int].name,
                        self.users_view()[self.skills_view()[f].created_by as int].id,
                    ),
                )
            },
    {
        let len = self.skills.len();
        let mut i: usize = 0;
        while i < len
            invariant
                len == self.skills@.len(),
                i <= len,
                forall|j: int| 0 <= j < i ==> (#[trigger] self.skills@[j]).id.0 != id,
            ensures
                i <= len,
                forall|j: int| 0 <= j < i ==> (#[trigger] self.skills@[j]).id.0 != id,
                i < len ==> self.skills@[i as int].id.0 == id,
            decreases len - i,
        {
            if self.skills[i].id.0 == id {
                break;
            }
            i = i + 1;
        }
        if i == len {
            return None;
        }
        let s = &self.skills[i];
        let c = s.created_by;
        assert(c < self.users@.len());
        let creator = Some((self.users[c].name.clone(), self.users[c].id));
        let page = SkillPage {
            name: s.name.clone(),
            id: s.id,
            creator,
            description: s.description.clone(),
            image: s.image.clone(),
        };
        assert(first_skill_with_id(self.skills@, id, i as int));
        Some(page)
    }

    /// Runs the world for `elapsed` nanoseconds: adds the time to the users
    /// online and runs the session timers, ending the sessions whose timer
    /// finishes.
    pub fn update(&mut self, elapsed: u128)
        requires
            old(self).wf(),
            elapsed <= DURATION_MAX_NANOS,
        ensures
            final(self).wf(),
            final(self).users_view().len() == old(self).users_view().len(),
            forall|i: int|
                0 <= i < old(self).users_view().len() ==> #[trigger] final(self).users_view()[i]
                    == after_tick(old(self).users_view()[i], elapsed as nat),
            forall|i: int|
                0 <= i < old(self).users_view().len() && (#[trigger] old(self).users_view()[i]).online
                    ==> final(self).users_view()[i].time_spend == saturating_span_add(
                    old(self).users_view()[i].time_spend as nat,
                    elapsed as nat,
                ),
            forall|i: int|
                0 <= i < old(self).users_view().len() && !(#[trigger] old(self).users_view()[i]).online
                    ==> final(self).users_view()[i].time_spend == old(self).users_view()[i].time_spend,
            final(self).skills_view() == old(self).skills_view(),
            final(self).reviews_view() == old(self).reviews_view(),
            final(self).withdrawal_view() == old(self).withdrawal_view(),
    {
        let len = self.users.len();
        let ghost old_users = self.users@;
        for i in 0..len
            invariant
                len == self.users@.len(),
                old_users.len() == len,
                world_ok(old_users, self.skills@, self.reviews@),
                self.skills@ == old(self).skills@,
                self.reviews@ == old(self).reviews@,
                self.withdrawal_known == old(self).withdrawal_known,
                elapsed <= DURATION_MAX_NANOS,
                forall|k: int| 0 <= k < i ==> #[trigger] self.users@[k] == after_tick(old_users[k], elapsed as nat),
                forall|k: int| i <= k < len ==> #[trigger] self.users@[k] == old_users[k],
        {
            assert(user_ok(old_users[i as int]));
            if self.users[i].online {
                let t = add_span(self.users[i].time_spend, elapsed);
                self.users[i].time_spend = t;
            }
            let mut ends = false;
            if let Some(timer) = &mut self.users[i].session {
                timer.tick(elapsed);
                ends = timer.is_finished();
            }
            if ends {
                self.users[i].session = None;
                self.users[i].session_token = None;
                self.users[i].current = false;
                self.users[i].online = false;
            }
            assert(self.users@[i as int] == after_tick(old_users[i as int], elapsed as nat));
        }
        proof {
            assert forall|i: int| 0 <= i < self.users@.len() implies user_ok(#[trigger] self.users@[i]) by {
                assert(user_ok(old_users[i]));
            }
            assert forall|i: int| 0 <= i < old_users.len() implies same_links(#[trigger] old_users[i], self.users@[i]) by {
            }
            lemma_same_links_keep_world(old_users, self.users@, self.skills@, self.reviews@);
        }
    }

    /// Finds the user with this login name.
    fn find_login_name(&self, name: &String) -> (r: Option<usize>)
        ensures
            r matches Some(i) ==> i < self.users@.len() && self.users@[i as int].login_name@ == name@,
            r is None ==> !login_taken(self.users@, name@),
    {
        let len = self.users.len();
        for i in 0..len
            invariant
                len == self.users@.len(),
                forall|k: int| 0 <= k < i ==> #[trigger] self.users@[k].login_name@ != name@,
        {
            if self.users[i].login_name == *name {
                return Some(i);
            }
        }
        None
    }

    /// Signs up a user with `name` as both display and login name, at `now`
    /// (nanoseconds since the Unix epoch).  Both name and password must be
    /// given, and the login name must be free.  The new user gets the next
    /// identifier.
    pub fn sign_up(&mut self, name: &str, password: &str, now: u128) -> (r: AfterOption)
        requires
            old(self).wf(),
            now <= DURATION_MAX_NANOS,
            old(self).users_view().len() + 1 < u32::MAX,
        ensures
            final(self).wf(),
            name@.len() == 0 || password@.len() == 0 ==> r == AfterOption::RequireInput
                && *final(self) == *old(self),
            name@.len() != 0 && password@.len() != 0 && login_taken(old(self).users_view(), name@)
                ==> r == AfterOption::AlreadyExist && *final(self) == *old(self),
            name@.len() != 0 && password@.len() != 0 && !login_taken(old(self).users_view(), name@)
                ==> {
                &&& r == AfterOption::SignedUp
                &&& final(self).users_view().len() == old(self).users_view().len() + 1
                &&& final(self).users_view().drop_last() == old(self).users_view()
                &&& is_new_user(
                    final(self).users_view().last(),
                    old(self).users_view().len() + 1,
                    name@,
                    password@,
                    now as nat,
                )
                &&& final(self).skills_view() == old(self).skills_view()
                &&& final(self).reviews_view() == old(self).reviews_view()
                &&& final(self).withdrawal_view() == old(self).withdrawal_view()
            },
    {
        if name.is_empty() || password.is_empty() {
            return AfterOption::RequireInput;
        }
        let login = name.to_owned();
        if self.find_login_name(&login).is_some() {
            return AfterOption::AlreadyExist;
        }
        let ghost old_users = self.users@;
        let n = self.users.len();
        let user = UserRecord {
            id: UserID((n + 1) as u32),
            name: name.to_owned(),
            login_name: login,
            password: password.to_owned(),
            description: String::new(),
            picture: None,
            time_spend: 0,
            registered: now,
            online: false,
            current: false,
            session_token: None,
            session: None,
            skills_created: Vec::new(),
            reviews_created: Vec::new(),
        };
        self.users.push(user);
        proof {
            assert(self.users@.drop_last() =~= old_users);
            self.lemma_push_user_keeps_world(old_users);
        }
        AfterOption::SignedUp
    }

    /// Finds the first user with these credentials.
    fn find_credentials(&self, name: &String, password: &String) -> (r: Option<usize>)
        ensures
            r matches Some(i) ==> first_with_credentials(self.users@, name@, password@, i as int),
            r is None ==> !credentials_known(self.users@, name@, password@),
    {
        let len = self.users.len();
        for i in 0..len
            invariant
                len == self.users@.len(),
                forall|k: int|
                    0 <= k < i ==> !credentials_match(#[trigger] self.users@[k], name@, password@),
        {
            if self.users[i].login_name == *name && self.users[i].password == *password {
                return Some(i);
            }
        }
        None
    }

    /// Signs user `i` in with `token`.
    fn sign_in_at(&mut self, i: usize, token: String)
        requires
            old(self).wf(),
            i < old(self).users@.len(),
        ensures
            final(self).wf(),
            final(self).users@ == old(self).users@.update(i as int, signed_in(old(self).users@[i as int], token)),
            final(self).skills@ == old(self).skills@,
            final(self).reviews@ == old(self).reviews@,
            final(self).withdrawal_known == old(self).withdrawal_known,
    {
        let ghost old_users = self.users@;
        assert(user_ok(old_users[i as int]));
        self.users[i].current = true;
        self.users[i].online = true;
        self.users[i].session_token = Some(token);
        if self.users[i].session.is_none() {
            self.users[i].session = Some(SessionDuration::new());
        }
        proof {
            assert(self.users@ =~= old_users.update(i as int, signed_in(old_users[i as int], token)));
            assert forall|k: int| 0 <= k < self.users@.len() implies user_ok(#[trigger] self.users@[k]) by {
                assert(user_ok(old_users[k]));
            }
            assert forall|k: int| 0 <= k < old_users.len() implies same_links(#[trigger] old_users[k], self.users@[k]) by {
            }
            lemma_same_links_keep_world(old_users, self.users@, self.skills@, self.reviews@);
        }
    }

    /// Signs in the user with this login name and password, with the session
    /// token written from `bytes`.  On success the token is returned; with
    /// unknown credentials nothing changes and the panel reports it.
    pub fn login_with_bytes(&mut self, name: &str, password: &str, bytes: &[u8]) -> (r: Result<
        String,
        AfterOption,
    >)
        requires
            old(self).wf(),
        ensures
            final(self).wf(),
            !credentials_known(old(self).users_view(), name@, password@) ==> r == Err::<
                String,
                AfterOption,
            >(AfterOption::WrongEither) && *final(self) == *old(self),
            credentials_known(old(self).users_view(), name@, password@) ==> r is Ok,
            r matches Ok(token) ==> {
                &&& token@ == token_text(bytes@)
                &&& users_signed_in(
                    old(self).users_view(),
                    final(self).users_view(),
                    name@,
                    password@,
                    token,
                )
                &&& final(self).skills_view() == old(self).skills_view()
                &&& final(self).reviews_view() == old(self).reviews_view()
                &&& final(self).withdrawal_view() == old(self).withdrawal_view()
            },
    {
        let name = name.to_owned();
        let password = password.to_owned();
        match self.find_credentials(&name, &password) {
            None => Err(AfterOption::WrongEither),
            Some(i) => {
                let token = token_from_bytes(bytes);
                let ghost old_users = self.users@;
                self.sign_in_at(i, token.clone());
                assert(first_with_credentials(old_users, name@, password@, i as int));
                Ok(token)
            },
        }
    }

    /// Signs in the user with this login name and password, with a session
    /// token written from 16 random bytes.  Unknown credentials give
    /// `Some(Err(WrongEither))`; when the system gives no randomness for a
    /// known user the result is `None`.  Either way nothing changes then.
    pub fn login(&mut self, name: &str, password: &str) -> (r: Option<Result<String, AfterOption>>)
        requires
            old(self).wf(),
        ensures
            final(self).wf(),
            r == Some(Err::<String, AfterOption>(AfterOption::WrongEither)) <==> !credentials_known(
                old(self).users_view(),
                name@,
                password@,
            ),
            r matches Some(Err(e)) ==> e == AfterOption::WrongEither,
            (r is None || (r matches Some(Err(_)))) ==> *final(self) == *old(self),
            r matches Some(Ok(token)) ==> {
                &&& exists|bytes: Seq<u8>| bytes.len() == 16 && token@ == token_text(bytes)
                &&& users_signed_in(
                    old(self).users_view(),
                    final(self).users_view(),
                    name@,
                    password@,
                    token,
                )
                &&& final(self).skills_view() == old(self).skills_view()
                &&& final(self).reviews_view() == old(self).reviews_view()
                &&& final(self).withdrawal_view() == old(self).withdrawal_view()
            },
    {
        let owned_name = name.to_owned();
        let owned_password = password.to_owned();
        if self.find_credentials(&owned_name, &owned_password).is_none() {
            return Some(Err(AfterOption::WrongEither));
        }
        let mut bytes: Vec<u8> = Vec::new();
        for _i in 0..16
            invariant
                bytes@.len() == _i,
        {
            bytes.push(0);
        }
        match fill_random(&mut bytes) {
            Err(_) => None,
            Ok(()) => {
                let r = self.login_with_bytes(name, password, bytes.as_slice());
                Some(r)
            },
        }
    }

    /// Signs out the signed-in user: it loses its sign-in and token, keeps
    /// its timer and stays online.
    pub fn log_out(&mut self)
        requires
            old(self).wf(),
            sole(old(self).users_view(), |u: UserRecord| is_current(u)),
        ensures
            final(self).wf(),
            final(self).users_view().len() == old(self).users_view().len(),
            forall|k: int|
                0 <= k < old(self).users_view().len() ==> #[trigger] final(self).users_view()[k]
                    == if old(self).users_view()[k].current {
                    signed_out(old(self).users_view()[k])
                } else {
                    old(self).users_view()[k]
                },
            final(self).skills_view() == old(self).skills_view(),
            final(self).reviews_view() == old(self).reviews_view(),
            final(self).withdrawal_view() == old(self).withdrawal_view(),
    {
        let i = self.find_sole(false).unwrap();
        let ghost old_users = self.users@;
        self.users[i].current = false;
        self.users[i].session_token = None;
        proof {
            let p = |u: UserRecord| is_current(u);
            let w = choose|w: int| 0 <= w < old_users.len() && p(#[trigger] old_users[w]) && forall|j: int|
                0 <= j < old_users.len() && j != w ==> !p(#[trigger] old_users[j]);
            assert(w == i) by {
                if w != i {
                    assert(!p(old_users[i as int]));
                }
            }
            assert forall|k: int| 0 <= k < old_users.len() implies #[trigger] self.users@[k]
                == if old_users[k].current { signed_out(old_users[k]) } else { old_users[k] } by {
                if k != i {
                    assert(!p(old_users[k]));
                }
            }
            assert forall|k: int| 0 <= k < self.users@.len() implies user_ok(#[trigger] self.users@[k]) by {
                assert(user_ok(old_users[k]));
            }
            assert forall|k: int| 0 <= k < old_users.len() implies same_links(#[trigger] old_users[k], self.users@[k]) by {
            }
            lemma_same_links_keep_world(old_users, self.users@, self.skills@, self.reviews@);
        }
    }

    /// Takes up the session stored in this browser again: the first user
    /// holding `token` is signed in and online.  Reports whether one was found.
    pub fn resume_session(&mut self, token: &str) -> (found: bool)
        requires
            old(self).wf(),
        ensures
            final(self).wf(),
            found == exists|k: int|
                0 <= k < old(self).users_view().len() && holds_token(
                    #[trigger] old(self).users_view()[k],
                    token@,
                ),
            !found ==> *final(self) == *old(self),
            found ==> exists|f: int|
                0 <= f < old(self).users_view().len() && holds_token(
                    #[trigger] old(self).users_view()[f],
                    token@,
                ) && (forall|j: int|
                    0 <= j < f ==> !holds_token(#[trigger] old(self).users_view()[j], token@))
                    && final(self).users_view() == old(self).users_view().update(
                    f,
                    resumed(old(self).users_view()[f]),
                ),
            final(self).skills_view() == old(self).skills_view(),
            final(self).reviews_view() == old(self).reviews_view(),
            final(self).withdrawal_view() == old(self).withdrawal_view(),
    {
        let wanted = token.to_owned();
        let len = self.users.len();
        let mut at: Option<usize> = None;
        for i in 0..len
            invariant
                len == self.users@.len(),
                wanted@ == token@,
                at matches Some(f) ==> f < len && holds_token(self.users@[f as int], token@)
                    && forall|j: int| 0 <= j < f ==> !holds_token(#[trigger] self.users@[j], token@),
                at is None ==> forall|j: int| 0 <= j < i ==> !holds_token(#[trigger] self.users@[j], token@),
        {
            if at.is_none() {
                let hit = match &self.users[i].session_token {
                    Some(t) => *t == wanted,
                    None => false,
                };
                if hit {
                    at = Some(i);
                }
            }
        }
        match at {
            None => false,
            Some(f) => {
                let ghost old_users = self.users@;
                assert(user_ok(old_users[f as int]));
                self.users[f].current = true;
                self.users[f].online = true;
                proof {
                    assert(self.users@ =~= old_users.update(f as int, resumed(old_users[f as int])));
                    assert forall|k: int| 0 <= k < self.users@.len() implies user_ok(#[trigger] self.users@[k]) by {
                        assert(user_ok(old_users[k]));
                    }
                    assert forall|k: int| 0 <= k < old_users.len() implies same_links(#[trigger] old_users[k], self.users@[k]) by {
                    }
                    lemma_same_links_keep_world(old_users, self.users@, self.skills@, self.reviews@);
                }
                true
            },
        }
    }

    /// Sets the description of the signed-in user.
    pub fn set_description(&mut self, text: &str)
        requires
            old(self).wf(),
            sole(old(self).users_view(), |u: UserRecord| is_current(u)),
        ensures
            final(self).wf(),
            final(self).users_view().len() == old(self).users_view().len(),
            forall|i: int|
                0 <= i < old(self).users_view().len() ==> {
                    let before = #[trigger] old(self).users_view()[i];
                    let after = final(self).users_view()[i];
                    if before.current {
                        after.description@ == text@ && differ_in_description(before, after)
                    } else {
                        after == before
                    }
                },
            final(self).skills_view() == old(self).skills_view(),
            final(self).reviews_view() == old(self).reviews_view(),
            final(self).withdrawal_view() == old(self).withdrawal_view(),
    {
        let i = self.find_sole(false).unwrap();
        proof {
            self.lemma_sole_is(i as int, |u: UserRecord| is_current(u));
        }
        let ghost old_users = self.users@;
        self.users[i].description = text.to_owned();
        proof {
            assert forall|k: int| 0 <= k < self.users@.len() implies user_ok(#[trigger] self.users@[k]) by {
                assert(user_ok(old_users[k]));
            }
            assert forall|k: int| 0 <= k < old_users.len() implies same_links(#[trigger] old_users[k], self.users@[k]) by {
            }
            lemma_same_links_keep_world(old_users, self.users@, self.skills@, self.reviews@);
        }
    }

    /// Sets the picture of the signed-in user, which must have one already.
    pub fn set_picture(&mut self, link: &str)
        requires
            old(self).wf(),
            sole(old(self).users_view(), |u: UserRecord| is_current_with_picture(u)),
        ensures
            final(self).wf(),
            final(self).users_view().len() == old(self).users_view().len(),
            forall|i: int|
                0 <= i < old(self).users_view().len() ==> {
                    let before = #[trigger] old(self).users_view()[i];
                    let after = final(self).users_view()[i];
                    if is_current_with_picture(before) {
                        (after.picture matches Some(p) && p@ == link@) && differ_in_picture(before, after)
                    } else {
                        after == before
                    }
                },
            final(self).skills_view() == old(self).skills_view(),
            final(self).reviews_view() == old(self).reviews_view(),
            final(self).withdrawal_view() == old(self).withdrawal_view(),
    {
        let i = self.find_sole(true).unwrap();
        proof {
            self.lemma_sole_is(i as int, |u: UserRecord| is_current_with_picture(u));
        }
        let ghost old_users = self.users@;
        self.users[i].picture = Some(link.to_owned());
        proof {
            assert forall|k: int| 0 <= k < self.users@.len() implies user_ok(#[trigger] self.users@[k]) by {
                assert(user_ok(old_users[k]));
            }
            assert forall|k: int| 0 <= k < old_users.len() implies same_links(#[trigger] old_users[k], self.users@[k]) by {
            }
            lemma_same_links_keep_world(old_users, self.users@, self.skills@, self.reviews@);
        }
    }

    /// Whether some skill already has this name.
    fn skill_name_used(&self, name: &String) -> (r: bool)
        ensures
            r == skill_name_taken(self.skills@, name@),
    {
        let len = self.skills.len();
        for i in 0..len
            invariant
                len == self.skills@.len(),
                forall|k: int| 0 <= k < i ==> #[trigger] self.skills@[k].name@ != name@,
        {
            if self.skills[i].name == *name {
                return true;
            }
        }
        false
    }

    /// Creates a skill by the signed-in user, named `name` and tagged with the
    /// chosen categories.  A name and at least one category are needed, and
    /// the name must be free.  The skill gets the next identifier and joins
    /// its creator's list.
    pub fn create_skill(&mut self, name: &str, chosen: &Vec<Skill>) -> (r: CreateState)
        requires
            old(self).wf(),
            sole(old(self).users_view(), |u: UserRecord| is_current(u)),
            old(self).skills_view().len() + 1 < u32::MAX,
        ensures
            final(self).wf(),
            name@.len() == 0 || chosen@.len() == 0 ==> r == CreateState::RequireFull
                && *final(self) == *old(self),
            name@.len() != 0 && chosen@.len() != 0 && skill_name_taken(old(self).skills_view(), name@)
                ==> r == CreateState::NameAlreadyUsed && *final(self) == *old(self),
            name@.len() != 0 && chosen@.len() != 0 ==> (r == CreateState::NameAlreadyUsed <==> exists|
                i: int,
            |
                0 <= i < old(self).skills_view().len() && (#[trigger] old(self).skills_view()[i]).name@
                    == name@),
            name@.len() != 0 && chosen@.len() != 0 && !skill_name_taken(old(self).skills_view(), name@)
                ==> {
                &&& r == CreateState::Successful
                &&& final(self).skills_view().len() == old(self).skills_view().len() + 1
                &&& final(self).skills_view().drop_last() == old(self).skills_view()
                &&& final(self).users_view().len() == old(self).users_view().len()
                &&& forall|c: int|
                    0 <= c < old(self).users_view().len() ==> {
                        let before = #[trigger] old(self).users_view()[c];
                        let after = final(self).users_view()[c];
                        if before.current {
                            &&& is_new_skill(
                                final(self).skills_view().last(),
                                old(self).skills_view().len() + 1,
                                name@,
                                chosen@,
                                c as usize,
                            )
                            &&& after.skills_created@ == before.skills_created@.push(
                                old(self).skills_view().len() as usize,
                            )
                            &&& differ_in_skills_created(before, after)
                        } else {
                            after == before
                        }
                    }
                &&& final(self).reviews_view() == old(self).reviews_view()
                &&& final(self).withdrawal_view() == old(self).withdrawal_view()
            },
    {
        let creator = self.find_sole(false).unwrap();
        if name.is_empty() || chosen.len() == 0 {
            return CreateState::RequireFull;
        }
        let skill_name = name.to_owned();
        if self.skill_name_used(&skill_name) {
            return CreateState::NameAlreadyUsed;
        }
        let len = self.skills.len();
        let ghost old_users = self.users@;
        let ghost old_skills = self.skills@;
        let tags = make_tag_set(chosen);
        let skill = SkillRecord {
            id: SkillID((len + 1) as u32),
            name: skill_name,
            description: String::new(),
            image: String::new(),
            tags,
            created_by: creator,
            reviewed_from: Vec::new(),
        };
        self.skills.push(skill);
        self.users[creator].skills_created.push(len);
        proof {
            let p = |u: UserRecord| is_current(u);
            let w = choose|w: int| 0 <= w < old_users.len() && p(#[trigger] old_users[w]) && forall|j: int|
                0 <= j < old_users.len() && j != w ==> !p(#[trigger] old_users[j]);
            assert(w == creator) by {
                if w != creator {
                    assert(!p(old_users[creator as int]));
                }
            }
            assert(self.skills@.drop_last() =~= old_skills);
            assert forall|c: int| 0 <= c < old_users.len() && c != creator implies !(#[trigger] old_users[c]).current by {
                assert(!p(old_users[c]));
            }
            lemma_tag_set_unique(chosen@);
            self.lemma_push_skill_keeps_world(old_users, old_skills, creator);
        }
        CreateState::Successful
    }
}


//////////////////////////////////////////////////////////////////////////////
// Why the operations keep the invariant.
//////////////////////////////////////////////////////////////////////////////

/// The two users agree on everything the invariant ties to other records:
/// identifier, login name and the lists of skills and reviews.
pub open spec fn same_links(a: UserRecord, b: UserRecord) -> bool {
    &&& a.id == b.id
    &&& a.login_name@ == b.login_name@
    &&& a.skills_created@ == b.skills_created@
    &&& a.reviews_created@ == b.reviews_created@
}

/// Changing users without touching their links keeps the invariant, as long
/// as each changed user still hangs together.
pub proof fn lemma_same_links_keep_world(
    us: Seq<UserRecord>,
    us2: Seq<UserRecord>,
    ss: Seq<SkillRecord>,
    rs: Seq<ReviewRecord>,
)
    requires
        world_ok(us, ss, rs),
        us2.len() == us.len(),
        forall|i: int| 0 <= i < us.len() ==> same_links(#[trigger] us[i], us2[i]),
        forall|i: int| 0 <= i < us2.len() ==> user_ok(#[trigger] us2[i]),
    ensures
        world_ok(us2, ss, rs),
{
    assert forall|s: int| 0 <= s < ss.len() implies {
        &&& 0 <= #[trigger] ss[s].created_by < us2.len()
        &&& us2[ss[s].created_by as int].skills_created@.contains(s as usize)
    } by {
        assert(same_links(us[ss[s].created_by as int], us2[ss[s].created_by as int]));
    }
    assert forall|u: int, k: int|
        0 <= u < us2.len() && 0 <= k < us2[u].skills_created@.len() implies {
        &&& #[trigger] us2[u].skills_created@[k] < ss.len()
        &&& ss[us2[u].skills_created@[k] as int].created_by == u
    } by {
        assert(same_links(us[u], us2[u]));
        assert(us[u].skills_created@[k] == us2[u].skills_created@[k]);
    }
    assert forall|u: int| 0 <= u < us2.len() implies (#[trigger] us2[u].skills_created@).no_duplicates() by {
        assert(same_links(us[u], us2[u]));
        assert(us[u].skills_created@.no_duplicates());
    }
    assert forall|r: int| 0 <= r < rs.len() implies (#[trigger] rs[r].by_user matches Some(u) ==> {
        &&& u < us2.len()
        &&& us2[u as int].reviews_created@.contains(r as usize)
    }) by {
        if let Some(u) = rs[r].by_user {
            assert(same_links(us[u as int], us2[u as int]));
        }
    }
    assert forall|u: int, k: int|
        0 <= u < us2.len() && 0 <= k < us2[u].reviews_created@.len() implies {
        &&& #[trigger] us2[u].reviews_created@[k] < rs.len()
        &&& rs[us2[u].reviews_created@[k] as int].by_user == Some(u as usize)
    } by {
        assert(same_links(us[u], us2[u]));
        assert(us[u].reviews_created@[k] == us2[u].reviews_created@[k]);
    }
    assert forall|u: int| 0 <= u < us2.len() implies (#[trigger] us2[u].reviews_created@).no_duplicates() by {
        assert(same_links(us[u], us2[u]));
        assert(us[u].reviews_created@.no_duplicates());
    }
}

impl TheWorld {
    /// Adding a user with no links keeps the invariant.
    proof fn lemma_push_user_keeps_world(&self, old_users: Seq<UserRecord>)
        requires
            withdrawals_ok(self.reviews@, self.withdrawal_known),
            world_ok(old_users, self.skills@, self.reviews@),
            self.users@.len() == old_users.len() + 1,
            self.users@.len() < u32::MAX,
            self.users@.drop_last() == old_users,
            user_ok(self.users@.last()),
            self.users@.last().skills_created@.len() == 0,
            self.users@.last().reviews_created@.len() == 0,
        ensures
            self.wf(),
    {
        let us = self.users@;
        let n = old_users.len();
        assert forall|i: int| 0 <= i < n implies #[trigger] us[i] == old_users[i] by {
            assert(us.drop_last()[i] == us[i]);
        }
        assert forall|i: int| 0 <= i < us.len() implies user_ok(#[trigger] us[i]) by {
            if i < n {
                assert(us[i] == old_users[i]);
            }
        }
        let ss = self.skills@;
        let rs = self.reviews@;
        assert forall|s: int| 0 <= s < ss.len() implies {
            &&& 0 <= #[trigger] ss[s].created_by < us.len()
            &&& us[ss[s].created_by as int].skills_created@.contains(s as usize)
        } by {
            assert(us[ss[s].created_by as int] == old_users[ss[s].created_by as int]);
        }
        assert forall|u: int, k: int|
            0 <= u < us.len() && 0 <= k < us[u].skills_created@.len() implies {
            &&& #[trigger] us[u].skills_created@[k] < ss.len()
            &&& ss[us[u].skills_created@[k] as int].created_by == u
        } by {
            assert(us[u] == old_users[u]);
        }
        assert forall|u: int| 0 <= u < us.len() implies (#[trigger] us[u].skills_created@).no_duplicates() by {
            if u < n {
                assert(us[u] == old_users[u]);
            }
        }
        assert forall|r: int| 0 <= r < rs.len() implies (#[trigger] rs[r].by_user matches Some(u) ==> {
            &&& u < us.len()
            &&& us[u as int].reviews_created@.contains(r as usize)
        }) by {
            if let Some(u) = rs[r].by_user {
                assert(us[u as int] == old_users[u as int]);
            }
        }
        assert forall|u: int, k: int|
            0 <= u < us.len() && 0 <= k < us[u].reviews_created@.len() implies {
            &&& #[trigger] us[u].reviews_created@[k] < rs.len()
            &&& rs[us[u].reviews_created@[k] as int].by_user == Some(u as usize)
        } by {
            assert(us[u] == old_users[u]);
        }
        assert forall|u: int| 0 <= u < us.len() implies (#[trigger] us[u].reviews_created@).no_duplicates() by {
            if u < n {
                assert(us[u] == old_users[u]);
            }
        }
    }
}

impl TheWorld {
    /// Adding a skill without reviews, listed by its creator, keeps the
    /// invariant.
    proof fn lemma_push_skill_keeps_world(
        &self,
        old_users: Seq<UserRecord>,
        old_skills: Seq<SkillRecord>,
        creator: usize,
    )
        requires
            withdrawals_ok(self.reviews@, self.withdrawal_known),
            world_ok(old_users, old_skills, self.reviews@),
            creator < old_users.len(),
            self.users@.len() == old_users.len(),
            self.skills@.len() == old_skills.len() + 1,
            self.skills@.len() < u32::MAX,
            self.skills@.drop_last() == old_skills,
            self.skills@.last().created_by == creator,
            self.skills@.last().reviewed_from@.len() == 0,
            self.skills@.last().tags@.no_duplicates(),
            forall|k: int| 0 <= k < old_users.len() && k != creator ==> #[trigger] self.users@[k] == old_users[k],
            self.users@[creator as int].skills_created@ == old_users[creator as int].skills_created@.push(
                old_skills.len() as usize,
            ),
            differ_in_skills_created(old_users[creator as int], self.users@[creator as int]),
        ensures
            self.wf(),
    {
        let us = self.users@;
        let ss = self.skills@;
        let rs = self.reviews@;
        let m = old_skills.len();
        let c = creator as int;
        assert forall|i: int| 0 <= i < m implies #[trigger] ss[i] == old_skills[i] by {
            assert(ss.drop_last()[i] == ss[i]);
        }
        assert forall|k: int| 0 <= k < us.len() implies same_links(#[trigger] old_users[k], us[k]) || k == c by {
        }
        assert forall|i: int| 0 <= i < us.len() implies user_ok(#[trigger] us[i]) by {
            assert(user_ok(old_users[i]));
        }
        assert forall|s: int| 0 <= s < ss.len() implies {
            &&& 0 <= #[trigger] ss[s].created_by < us.len()
            &&& us[ss[s].created_by as int].skills_created@.contains(s as usize)
        } by {
            if s < m {
                assert(ss[s] == old_skills[s]);
                let u = ss[s].created_by as int;
                assert(old_users[u].skills_created@.contains(s as usize));
                if u == c {
                    let k = choose|k: int| 0 <= k < old_users[u].skills_created@.len() && old_users[u].skills_created@[k] == s as usize;
                    assert(us[u].skills_created@[k] == s as usize);
                }
            } else {
                assert(us[c].skills_created@.last() == m as usize);
            }
        }
        assert forall|u: int, k: int|
            0 <= u < us.len() && 0 <= k < us[u].skills_created@.len() implies {
            &&& #[trigger] us[u].skills_created@[k] < ss.len()
            &&& ss[us[u].skills_created@[k] as int].created_by == u
        } by {
            if u == c && k == old_users[c].skills_created@.len() {
            } else {
                assert(us[u].skills_created@[k] == old_users[u].skills_created@[k]);
                assert(old_users[u].skills_created@[k] < m);
                assert(ss[us[u].skills_created@[k] as int] == old_skills[us[u].skills_created@[k] as int]);
            }
        }
        assert forall|u: int| 0 <= u < us.len() implies (#[trigger] us[u].skills_created@).no_duplicates() by {
            assert(old_users[u].skills_created@.no_duplicates());
            if u == c {
                let l = old_users[c].skills_created@;
                let l2 = us[c].skills_created@;
                assert forall|i: int, j: int| 0 <= i < l2.len() && 0 <= j < l2.len() && i != j implies l2[i] != l2[j] by {
                    if i < l.len() {
                        assert(l[i] < m);
                    }
                    if j < l.len() {
                        assert(l[j] < m);
                    }
                }
            }
        }
        assert forall|r: int| 0 <= r < rs.len() implies (#[trigger] rs[r].of_skill matches Some(s) ==> {
            &&& s < ss.len()
            &&& ss[s as int].reviewed_from@.contains(r as usize)
        }) by {
            if let Some(s) = rs[r].of_skill {
                assert(ss[s as int] == old_skills[s as int]);
            }
        }
        assert forall|s: int, k: int|
            0 <= s < ss.len() && 0 <= k < ss[s].reviewed_from@.len() implies {
            &&& #[trigger] ss[s].reviewed_from@[k] < rs.len()
            &&& rs[ss[s].reviewed_from@[k] as int].of_skill == Some(s as usize)
        } by {
            assert(ss[s] == old_skills[s]);
        }
        assert forall|s: int| 0 <= s < ss.len() implies (#[trigger] ss[s].reviewed_from@).no_duplicates() by {
            if s < m {
                assert(ss[s] == old_skills[s]);
            }
        }
        assert forall|s: int| 0 <= s < ss.len() implies ratings_fit(rs, #[trigger] ss[s].reviewed_from@) by {
            if s < m {
                assert(ss[s] == old_skills[s]);
            } else {
                assert forall|c: nat| #[trigger] all_rated(rs, ss[s].reviewed_from@, c) implies rating_sum(
                    rs,
                    ss[s].reviewed_from@,
                    c,
                ) <= u32::MAX by {
                    assert(c == 0);
                }
            }
        }
        assert forall|r: int| 0 <= r < rs.len() implies (#[trigger] rs[r].by_user matches Some(u) ==> {
            &&& u < us.len()
            &&& us[u as int].reviews_created@.contains(r as usize)
        }) by {
            if let Some(u) = rs[r].by_user {
                assert(us[u as int].reviews_created == old_users[u as int].reviews_created);
            }
        }
        assert forall|u: int, k: int|
            0 <= u < us.len() && 0 <= k < us[u].reviews_created@.len() implies {
            &&& #[trigger] us[u].reviews_created@[k] < rs.len()
            &&& rs[us[u].reviews_created@[k] as int].by_user == Some(u as usize)
        } by {
            assert(us[u].reviews_created == old_users[u].reviews_created);
        }
        assert forall|u: int| 0 <= u < us.len() implies (#[trigger] us[u].reviews_created@).no_duplicates() by {
            assert(us[u].reviews_created == old_users[u].reviews_created);
        }
        assert forall|s: int| 0 <= s < ss.len() implies (#[trigger] ss[s].tags@).no_duplicates() by {
            if s < m {
                assert(ss[s] == old_skills[s]);
            }
        }
    }
}

} // verus!
