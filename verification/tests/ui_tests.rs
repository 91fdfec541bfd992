use skill_lab::browse::SortBy;
use skill_lab::playful::{peek_pos, peek_rect, peek_sprite, CursorPos, IRect, IVec2, Peek};
use skill_lab::skills::{make_tag_set, Skill};
use skill_lab::ui::{nav_collapsed, side_bar_shown, AfterOption, CreateState, Theme};

#[test]
fn after_option_messages() {
    assert_eq!(AfterOption::SignedUp.text(), "Signed up");
    assert_eq!(AfterOption::SignedUp.color(), "blue");
    assert_eq!(AfterOption::AlreadyExist.text(), "Already exist");
    assert_eq!(AfterOption::AlreadyExist.color(), "blue");
    assert_eq!(AfterOption::WrongEither.text(), "Wrong name or password");
    assert_eq!(AfterOption::WrongEither.color(), "red");
    assert_eq!(AfterOption::RequireInput.text(), "Require name and password");
    assert_eq!(AfterOption::RequireInput.color(), "red");
    assert_eq!(AfterOption::default(), AfterOption::Empty);
    assert_eq!(AfterOption::Empty.text(), "");
    assert_eq!(AfterOption::Empty.color(), "");
}

#[test]
fn create_state_messages() {
    assert_eq!(CreateState::Successful.text(), "Successful created");
    assert_eq!(CreateState::Successful.color(), "blue");
    assert_eq!(CreateState::NameAlreadyUsed.text(), "Skill name already used");
    assert_eq!(CreateState::NameAlreadyUsed.color(), "red");
    assert_eq!(CreateState::RequireFull.text(), "Require name and atleast 1 tag");
    assert_eq!(CreateState::RequireFull.color(), "red");
    assert_eq!(CreateState::default(), CreateState::Empty);
    assert_eq!(CreateState::Empty.text(), "");
}

#[test]
fn theme_toggles_and_names_itself() {
    assert_eq!(Theme::default(), Theme::Dark);
    assert_eq!(Theme::Dark.toggled(), Theme::Light);
    assert_eq!(Theme::Light.toggled(), Theme::Dark);
    assert_eq!(Theme::Dark.toggled().toggled(), Theme::Dark);
    assert_eq!(Theme::Dark.attribute(), "dark");
    assert_eq!(Theme::Light.attribute(), "light");
}

#[test]
fn nav_bar_folds_at_eight_hundred() {
    assert!(nav_collapsed(800));
    assert!(nav_collapsed(0));
    assert!(!nav_collapsed(801));
    assert!(side_bar_shown(true, 500));
    assert!(!side_bar_shown(false, 500));
    assert!(!side_bar_shown(true, 900));
}

#[test]
fn skill_categories() {
    let all = Skill::all();
    assert_eq!(all.len(), 6);
    assert_eq!(all[0], Skill::Artist);
    assert_eq!(all[5], Skill::Electronical);
    assert_eq!(Skill::ContentCreator.as_str(), "ContentCreator");
    assert_eq!(Skill::Programming.emoji(), "");
}

#[test]
fn tag_sets_are_deduplicated_and_ordered() {
    let tags = make_tag_set(&vec![Skill::Designer, Skill::Artist, Skill::Designer]);
    assert_eq!(tags, vec![Skill::Artist, Skill::Designer]);
    assert!(make_tag_set(&vec![]).is_empty());
}

#[test]
fn sort_by_names() {
    assert_eq!(SortBy::all().len(), 6);
    assert_eq!(SortBy::default(), SortBy::Unsorted);
    assert_eq!(SortBy::Unsorted.as_str(), "None");
    assert_eq!(SortBy::ReviewHighLow.as_str(), "ReviewHighLow");
    assert_eq!(SortBy::Id.emoji(), "🆔");
    assert_eq!(SortBy::Unsorted.emoji(), "❌");
}

#[test]
fn peek_rectangle_covers_scaled_picture() {
    assert_eq!(peek_pos(), IVec2 { x: 40, y: 0 });
    let r = peek_rect(10, 20);
    assert_eq!(r.min, IVec2 { x: 40, y: 0 });
    assert_eq!(r.max, IVec2 { x: 100, y: 120 });
    let start = IRect::from_corners(IVec2 { x: 5, y: 1 }, IVec2 { x: 2, y: 9 });
    assert_eq!(start.min, IVec2 { x: 2, y: 1 });
    assert_eq!(start.max, IVec2 { x: 5, y: 9 });
    let grown = start.union_point(IVec2 { x: -3, y: 4 });
    assert_eq!(grown.min, IVec2 { x: -3, y: 1 });
    assert_eq!(grown.max, IVec2 { x: 5, y: 9 });
}

#[test]
fn peek_follows_cursor() {
    let rect = peek_rect(10, 20); // x 40..=100, y 0..=120 from the bottom
    let height = 1000;
    let at = |x: i32, y_from_bottom: i32| CursorPos { pos: IVec2 { x, y: height - y_from_bottom } };
    assert_eq!(peek_sprite(at(10, 500), height, rect), Peek::TopLeft);
    assert_eq!(peek_sprite(at(300, 500), height, rect), Peek::TopRight);
    assert_eq!(peek_sprite(at(70, 500), height, rect), Peek::Up);
    assert_eq!(peek_sprite(at(10, 50), height, rect), Peek::Left);
    assert_eq!(peek_sprite(at(300, 50), height, rect), Peek::Right);
    assert_eq!(peek_sprite(at(70, 50), height, rect), Peek::Front);
}
