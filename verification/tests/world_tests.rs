use skill_lab::browse::{FilterState, SortBy};
use skill_lab::review::ReviewRecord;
use skill_lab::skills::{Skill, SkillID};
use skill_lab::students::{add_span, SessionDuration, UserID, UserRecord, DURATION_MAX_NANOS, SESSION_NANOS};
use skill_lab::ui::{AfterOption, CreateState};
use skill_lab::world::{ProfilePage, SkillRecord, TheWorld};

const SECOND: u128 = 1_000_000_000;

fn world_with(names: &[(&str, &str)]) -> TheWorld {
    let mut w = TheWorld::new();
    for (i, (n, p)) in names.iter().enumerate() {
        assert_eq!(w.sign_up(n, p, 100 + i as u128), AfterOption::SignedUp);
    }
    w
}

fn token_of(r: Result<String, AfterOption>) -> String {
    match r {
        Ok(t) => t,
        Err(e) => panic!("sign-in refused: {:?}", e),
    }
}

#[test]
fn new_world_is_empty() {
    let w = TheWorld::new();
    assert_eq!(w.total_user(), 0);
    assert_eq!(w.total_skill(), 0);
    assert_eq!(w.total_online_user(), 0);
    assert_eq!(w.total_review(), 0);
    assert!(!w.has_current_user());
    assert!(w.current_user().is_none());
}

#[test]
fn sign_up_requires_name_and_password() {
    let mut w = TheWorld::new();
    assert_eq!(w.sign_up("", "pw", 1), AfterOption::RequireInput);
    assert_eq!(w.sign_up("ann", "", 1), AfterOption::RequireInput);
    assert_eq!(w.total_user(), 0);
}

#[test]
fn sign_up_gives_next_ids_and_refuses_taken_names() {
    let mut w = world_with(&[("ann", "a1"), ("bob", "b1")]);
    assert_eq!(w.sign_up("ann", "other", 5), AfterOption::AlreadyExist);
    assert_eq!(w.total_user(), 2);
    let users = w.users();
    assert_eq!(users[0].id, UserID(1));
    assert_eq!(users[1].id, UserID(2));
    assert_eq!(users[1].name, "bob");
    assert_eq!(users[1].login_name, "bob");
    assert_eq!(users[1].password, "b1");
    assert_eq!(users[1].registered, 101);
    assert!(!users[1].online);
    assert!(users[1].description.is_empty());
    assert!(users[1].picture.is_none());
}

#[test]
fn sign_in_with_wrong_credentials_is_refused() {
    let mut w = world_with(&[("ann", "a1")]);
    assert_eq!(w.login_with_bytes("ann", "nope", &[1, 2]), Err(AfterOption::WrongEither));
    assert_eq!(w.login_with_bytes("bob", "a1", &[1, 2]), Err(AfterOption::WrongEither));
    assert_eq!(w.login("ann", "nope"), Some(Err(AfterOption::WrongEither)));
    assert!(!w.has_current_user());
}

#[test]
fn sign_up_then_sign_in() {
    let mut w = world_with(&[("ann", "a1"), ("bob", "b1")]);
    let token = token_of(w.login_with_bytes("bob", "b1", &[12, 0, 255]));
    assert_eq!(token, "120255");
    assert!(w.has_current_user());
    assert_eq!(w.current_user(), Some(("bob".to_string(), UserID(2))));
    assert_eq!(w.total_online_user(), 1);
    let bob = &w.users()[1];
    assert!(bob.current && bob.online);
    assert_eq!(bob.session_token.as_deref(), Some("120255"));
    assert_eq!(bob.session, Some(SessionDuration { elapsed: 0, finished: false }));
}

#[test]
fn random_sign_in_gives_a_decimal_token() {
    let mut w = world_with(&[("ann", "a1")]);
    match w.login("ann", "a1") {
        Some(Ok(token)) => {
            assert!(token.len() >= 16 && token.len() <= 48);
            assert!(token.chars().all(|c| c.is_ascii_digit()));
            assert_eq!(w.users()[0].session_token.as_deref(), Some(token.as_str()));
            assert!(w.has_current_user());
        }
        other => panic!("unexpected {:?}", other),
    }
}

#[test]
fn random_tokens_differ_between_sign_ins() {
    let mut w = world_with(&[("ann", "a1")]);
    let first = match w.login("ann", "a1") {
        Some(Ok(t)) => t,
        other => panic!("unexpected {:?}", other),
    };
    let second = match w.login("ann", "a1") {
        Some(Ok(t)) => t,
        other => panic!("unexpected {:?}", other),
    };
    assert_ne!(first, "0".repeat(16));
    assert_ne!(first, second);
    assert_eq!(w.users()[0].session_token.as_deref(), Some(second.as_str()));
}

#[test]
fn log_out_keeps_online_and_timer() {
    let mut w = world_with(&[("ann", "a1")]);
    token_of(w.login_with_bytes("ann", "a1", &[5]));
    w.log_out();
    assert!(!w.has_current_user());
    let ann = &w.users()[0];
    assert!(!ann.current);
    assert!(ann.online);
    assert!(ann.session_token.is_none());
    assert!(ann.session.is_some());
}

#[test]
fn resume_session_signs_the_holder_in() {
    let mut w = world_with(&[("ann", "a1"), ("bob", "b1")]);
    let token = token_of(w.login_with_bytes("bob", "b1", &[9, 9]));
    w.log_out();
    assert!(!w.resume_session(&token));
    let token = token_of(w.login_with_bytes("bob", "b1", &[9, 9]));
    assert!(w.resume_session(&token));
    assert_eq!(w.current_user(), Some(("bob".to_string(), UserID(2))));
    assert!(!w.resume_session("nobody"));
}

#[test]
fn update_adds_time_to_online_users_only() {
    let mut w = world_with(&[("ann", "a1"), ("bob", "b1")]);
    token_of(w.login_with_bytes("ann", "a1", &[1]));
    w.update(5 * SECOND);
    assert_eq!(w.users()[0].time_spend, 5 * SECOND);
    assert_eq!(w.users()[1].time_spend, 0);
    assert_eq!(w.user_time_spends(), vec![5 * SECOND, 0]);
    assert_eq!(w.users()[0].session, Some(SessionDuration { elapsed: 5 * SECOND, finished: false }));
}

#[test]
fn two_short_runs_equal_one_long_run() {
    let mut a = world_with(&[("ann", "a1"), ("bob", "b1")]);
    token_of(a.login_with_bytes("ann", "a1", &[1]));
    let mut b = world_with(&[("ann", "a1"), ("bob", "b1")]);
    token_of(b.login_with_bytes("ann", "a1", &[1]));
    a.update(100 * SECOND);
    a.update(250 * SECOND);
    b.update(350 * SECOND);
    for k in 0..2 {
        assert_eq!(a.users()[k].time_spend, b.users()[k].time_spend);
        assert_eq!(a.users()[k].session, b.users()[k].session);
        assert_eq!(a.users()[k].current, b.users()[k].current);
    }
    assert_eq!(a.users()[0].time_spend, 350 * SECOND);
}

#[test]
fn session_ends_after_ten_minutes() {
    let mut w = world_with(&[("ann", "a1")]);
    token_of(w.login_with_bytes("ann", "a1", &[1]));
    w.update(599 * SECOND);
    assert!(w.has_current_user());
    w.update(2 * SECOND);
    assert!(!w.has_current_user());
    let ann = &w.users()[0];
    assert!(!ann.online && !ann.current);
    assert!(ann.session.is_none() && ann.session_token.is_none());
    assert_eq!(ann.time_spend, 601 * SECOND);
    w.update(SECOND);
    assert_eq!(w.users()[0].time_spend, 601 * SECOND);
}

#[test]
fn signing_in_again_keeps_the_old_timer() {
    let mut w = world_with(&[("ann", "a1")]);
    token_of(w.login_with_bytes("ann", "a1", &[1]));
    w.update(500 * SECOND);
    w.log_out();
    token_of(w.login_with_bytes("ann", "a1", &[2]));
    w.update(200 * SECOND);
    assert!(!w.has_current_user());
}

#[test]
fn session_timer_ticks_once() {
    let mut t = SessionDuration::new();
    assert_eq!(t, SessionDuration::default());
    t.tick(SESSION_NANOS - 1);
    assert!(!t.is_finished());
    t.tick(5);
    assert!(t.is_finished());
    assert_eq!(t.elapsed, SESSION_NANOS);
    t.tick(100);
    assert_eq!(t, SessionDuration { elapsed: SESSION_NANOS, finished: true });
    assert_eq!(add_span(DURATION_MAX_NANOS, 1), DURATION_MAX_NANOS);
    assert_eq!(add_span(2, 3), 5);
}

#[test]
fn create_skill_checks_its_input() {
    let mut w = world_with(&[("ann", "a1")]);
    token_of(w.login_with_bytes("ann", "a1", &[1]));
    assert_eq!(w.create_skill("", &vec![Skill::Artist]), CreateState::RequireFull);
    assert_eq!(w.create_skill("Drawing", &vec![]), CreateState::RequireFull);
    assert_eq!(
        w.create_skill("Drawing", &vec![Skill::Designer, Skill::Artist, Skill::Artist]),
        CreateState::Successful
    );
    assert_eq!(w.create_skill("Drawing", &vec![Skill::Artist]), CreateState::NameAlreadyUsed);
    assert_eq!(w.create_skill("Rust", &vec![Skill::Programming]), CreateState::Successful);
    assert_eq!(w.total_skill(), 2);
    let skills = w.skills();
    assert_eq!(skills[0].id, SkillID(1));
    assert_eq!(skills[1].id, SkillID(2));
    assert_eq!(skills[0].tags, vec![Skill::Artist, Skill::Designer]);
    assert_eq!(skills[0].created_by, 0);
    assert!(skills[0].image.is_empty() && skills[0].description.is_empty());
    assert_eq!(w.users()[0].skills_created, vec![0, 1]);
}

#[test]
fn skill_page_shows_creator() {
    let mut w = world_with(&[("ann", "a1"), ("bob", "b1")]);
    token_of(w.login_with_bytes("bob", "b1", &[1]));
    assert_eq!(w.create_skill("Soldering", &vec![Skill::Electronical]), CreateState::Successful);
    let page = w.skill_page(1).unwrap();
    assert_eq!(page.name, "Soldering");
    assert_eq!(page.id, SkillID(1));
    assert_eq!(page.creator, Some(("bob".to_string(), UserID(2))));
    assert!(w.skill_page(2).is_none());
}

fn user(id: u32, name: &str, picture: Option<&str>, skills: Vec<usize>, reviews: Vec<usize>) -> UserRecord {
    UserRecord {
        id: UserID(id),
        name: name.to_string(),
        login_name: name.to_string(),
        password: "pw".to_string(),
        description: format!("about {}", name),
        picture: picture.map(|p| p.to_string()),
        time_spend: 0,
        registered: 0,
        online: false,
        current: false,
        session_token: None,
        session: None,
        skills_created: skills,
        reviews_created: reviews,
    }
}

fn skill(id: u32, name: &str, by: usize, tags: Vec<Skill>, reviews: Vec<usize>) -> SkillRecord {
    SkillRecord {
        id: SkillID(id),
        name: name.to_string(),
        description: String::new(),
        image: String::new(),
        tags,
        created_by: by,
        reviewed_from: reviews,
    }
}

fn review(rating: Option<u8>, withdrawn: bool, by: usize, of: usize) -> ReviewRecord {
    ReviewRecord {
        marked: true,
        withdrawn,
        rating,
        text: None,
        by_user: Some(by),
        of_skill: Some(of),
    }
}

fn sample_world() -> TheWorld {
    let users = vec![
        user(2, "Ann", Some("ann.png"), vec![0, 2], vec![]),
        user(1, "bob", None, vec![1], vec![0, 1, 2]),
    ];
    let skills = vec![
        skill(1, "Watercolour", 0, vec![Skill::Artist], vec![0, 1]),
        skill(3, "Rust basics", 1, vec![Skill::Programming], vec![2]),
        skill(2, "Pixel art", 0, vec![Skill::Artist, Skill::Programming], vec![]),
    ];
    let reviews = vec![
        review(Some(4), false, 1, 0),
        review(Some(5), false, 1, 0),
        review(Some(3), true, 1, 1),
    ];
    TheWorld::from_parts(users, skills, reviews, true).unwrap()
}

#[test]
fn restore_accepts_a_consistent_world() {
    let w = sample_world();
    assert_eq!(w.total_user(), 2);
    assert_eq!(w.total_skill(), 3);
    assert_eq!(w.total_review(), 2);
}

#[test]
fn restore_refuses_broken_records() {
    // A skill its creator does not list.
    let users = vec![user(1, "ann", None, vec![], vec![])];
    let skills = vec![skill(1, "x", 0, vec![], vec![])];
    assert!(TheWorld::from_parts(users, skills, vec![], false).is_none());
    // A category twice.
    let users = vec![user(1, "ann", None, vec![0], vec![])];
    let skills = vec![skill(1, "x", 0, vec![Skill::Artist, Skill::Artist], vec![])];
    assert!(TheWorld::from_parts(users, skills, vec![], false).is_none());
    // A signed-in user who is not online.
    let mut u = user(1, "ann", None, vec![], vec![]);
    u.current = true;
    assert!(TheWorld::from_parts(vec![u], vec![], vec![], false).is_none());
}

#[test]
fn restore_takes_repeated_names_and_ids_and_signs_in_the_first() {
    let mut second = user(7, "ann", None, vec![], vec![]);
    second.name = "Second Ann".to_string();
    let users = vec![user(7, "ann", None, vec![], vec![]), second];
    let skills = vec![skill(9, "x", 0, vec![], vec![]), skill(9, "x", 0, vec![], vec![])];
    let mut users = users;
    users[0].skills_created = vec![0, 1];
    let mut w = TheWorld::from_parts(users, skills, vec![], false).unwrap();
    assert_eq!(w.total_user(), 2);
    assert_eq!(w.total_skill(), 2);
    token_of(w.login_with_bytes("ann", "pw", &[1]));
    assert!(w.users()[0].current);
    assert!(!w.users()[1].current);
    assert_eq!(w.current_user(), Some(("ann".to_string(), UserID(7))));
    assert_eq!(w.skill_page(9).unwrap().name, "x");
}

#[test]
fn profile_needs_a_picture() {
    let w = sample_world();
    assert!(w.profile(1).is_none());
    let p = w.profile(2).unwrap();
    assert_eq!(p.name, "Ann");
    assert_eq!(p.id, UserID(2));
    assert_eq!(p.picture, "ann.png");
    assert_eq!(p.description, "about Ann");
    assert_eq!(p.reviews_written, 0);
    assert_eq!(
        p.skills,
        vec![("Watercolour".to_string(), SkillID(1)), ("Pixel art".to_string(), SkillID(2))]
    );
    assert!(w.profile(7).is_none());
}

#[test]
fn edit_profile_of_signed_in_user() {
    let users = vec![user(1, "ann", Some("old.png"), vec![], vec![])];
    let mut w = TheWorld::from_parts(users, vec![], vec![], false).unwrap();
    assert!(w.current_picture().is_none());
    assert!(w.resume_session("none") == false);
    token_of(w.login_with_bytes("ann", "pw", &[3]));
    assert_eq!(w.current_picture(), Some("old.png".to_string()));
    assert_eq!(w.current_profile_fields(), Some(("about ann".to_string(), "old.png".to_string())));
    w.set_description("hello");
    w.set_picture("new.png");
    assert_eq!(w.current_profile_fields(), Some(("hello".to_string(), "new.png".to_string())));
}

fn names(items: &[skill_lab::browse::Item]) -> Vec<String> {
    items.iter().map(|i| i.name.clone()).collect()
}

fn filter_with(sort_by: SortBy) -> FilterState {
    let mut f = FilterState::default();
    f.sort_by = sort_by;
    f
}

#[test]
fn default_filter_shows_every_skill_in_order() {
    let w = sample_world();
    let f = FilterState::default();
    assert_eq!(f.show, 15);
    assert_eq!(f.page, 0);
    let items = w.browse(&f);
    assert_eq!(names(&items), vec!["Watercolour", "Rust basics", "Pixel art"]);
    assert_eq!(items[0].creator, "Ann");
    assert_eq!(items[0].total_review, 2);
    assert_eq!(items[0].rating, 9);
    assert_eq!(items[1].creator, "bob");
    assert_eq!(items[1].total_review, 0);
    assert_eq!(items[1].rating, 0);
    assert_eq!(items[2].tags, vec![Skill::Artist, Skill::Programming]);
    assert_eq!(items[2].id, SkillID(2));
}

#[test]
fn browse_filters_by_names_ignoring_case_and_by_tags() {
    let w = sample_world();
    let mut f = FilterState::default();
    f.creator_name = "ANN".to_string();
    assert_eq!(names(&w.browse(&f)), vec!["Watercolour", "Pixel art"]);
    let mut f = FilterState::default();
    f.skill_name = "ART".to_string();
    assert_eq!(names(&w.browse(&f)), vec!["Pixel art"]);
    let mut f = FilterState::default();
    f.item_tags = vec![Skill::Programming];
    assert_eq!(names(&w.browse(&f)), vec!["Rust basics", "Pixel art"]);
    f.item_tags = vec![Skill::Programming, Skill::Artist];
    assert_eq!(names(&w.browse(&f)), vec!["Pixel art"]);
    let mut f = FilterState::default();
    f.creator_name = "zed".to_string();
    assert!(w.browse(&f).is_empty());
}

#[test]
fn browse_orders_stably() {
    let w = sample_world();
    assert_eq!(
        names(&w.browse(&filter_with(SortBy::ReviewHighLow))),
        vec!["Watercolour", "Rust basics", "Pixel art"]
    );
    assert_eq!(
        names(&w.browse(&filter_with(SortBy::ReviewLowHigh))),
        vec!["Rust basics", "Pixel art", "Watercolour"]
    );
    assert_eq!(
        names(&w.browse(&filter_with(SortBy::RatingLowHigh))),
        vec!["Rust basics", "Pixel art", "Watercolour"]
    );
    assert_eq!(
        names(&w.browse(&filter_with(SortBy::RatingHighLow))),
        vec!["Watercolour", "Rust basics", "Pixel art"]
    );
    assert_eq!(
        names(&w.browse(&filter_with(SortBy::Id))),
        vec!["Watercolour", "Pixel art", "Rust basics"]
    );
}

#[test]
fn card_counts_only_the_leading_rated_reviews() {
    let users = vec![user(1, "ann", None, vec![0], vec![0, 1, 2])];
    let skills = vec![skill(1, "x", 0, vec![], vec![0, 1, 2])];
    let reviews = vec![
        review(Some(2), false, 0, 0),
        review(None, false, 0, 0),
        review(Some(5), false, 0, 0),
    ];
    let w = TheWorld::from_parts(users, skills, reviews, true).unwrap();
    assert!(w.withdrawal_known());
    let items = w.browse(&FilterState::default());
    assert_eq!(items[0].total_review, 1);
    assert_eq!(items[0].rating, 2);
    assert_eq!(w.total_review(), 3);
}

fn one_rated_review_world(withdrawal_known: bool) -> Option<TheWorld> {
    let users = vec![user(1, "ann", None, vec![0], vec![0])];
    let skills = vec![skill(1, "x", 0, vec![], vec![0])];
    let reviews = vec![review(Some(5), false, 0, 0)];
    TheWorld::from_parts(users, skills, reviews, withdrawal_known)
}

#[test]
fn reviews_count_nothing_until_withdrawal_is_known() {
    let w = one_rated_review_world(false).unwrap();
    assert!(!w.withdrawal_known());
    let items = w.browse(&FilterState::default());
    assert_eq!(items[0].total_review, 0);
    assert_eq!(items[0].rating, 0);
    assert_eq!(w.total_review(), 0);
    let w = one_rated_review_world(true).unwrap();
    let items = w.browse(&FilterState::default());
    assert_eq!(items[0].total_review, 1);
    assert_eq!(items[0].rating, 5);
    assert_eq!(w.total_review(), 1);
    assert!(!TheWorld::new().withdrawal_known());
}

#[test]
fn restore_refuses_withdrawn_review_with_unknown_marker() {
    let users = vec![user(1, "ann", None, vec![0], vec![0])];
    let skills = vec![skill(1, "x", 0, vec![], vec![0])];
    let reviews = vec![review(Some(5), true, 0, 0)];
    assert!(TheWorld::from_parts(users, skills, reviews, false).is_none());
}

#[test]
fn profile_page_needs_a_signed_in_visitor() {
    let users = vec![
        user(1, "ann", Some("a.png"), vec![], vec![]),
        user(2, "bob", None, vec![], vec![]),
    ];
    let mut w = TheWorld::from_parts(users, vec![], vec![], false).unwrap();
    assert_eq!(w.profile_view(1), ProfilePage::RequireLogin);
    token_of(w.login_with_bytes("bob", "pw", &[4]));
    match w.profile_view(1) {
        ProfilePage::Found(p) => assert_eq!(p.name, "ann"),
        other => panic!("unexpected {:?}", other),
    }
    assert_eq!(w.profile_view(2), ProfilePage::NotFound);
}

#[test]
fn ids_count_up_from_one() {
    let mut w = world_with(&[("a", "1"), ("b", "2"), ("c", "3")]);
    let ids: Vec<u32> = w.users().iter().map(|u| u.id.0).collect();
    assert_eq!(ids, vec![1, 2, 3]);
    token_of(w.login_with_bytes("b", "2", &[1]));
    for (i, n) in ["s1", "s2", "s3"].iter().enumerate() {
        assert_eq!(w.create_skill(n, &vec![Skill::Artist]), CreateState::Successful);
        assert_eq!(w.skill_page(i as u32 + 1).unwrap().name, *n);
    }
}
