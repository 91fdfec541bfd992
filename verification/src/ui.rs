//! The small decisions of the pages: messages after a sign-in or a skill
//! creation, the colour theme and when the navigation bar folds away.
use vstd::prelude::*;

verus! {

/// What the sign-in panel reports after its last action.
#[derive(Clone, Copy, Debug, PartialEq, Eq, Structural)]
pub enum AfterOption {
    SignedUp,
    AlreadyExist,
    WrongEither,
    RequireInput,
    Empty,
}

impl AfterOption {
    pub fn color(&self) -> (c: &'static str)
        ensures
            c@ == match *self {
                AfterOption::SignedUp => "blue"@,
                AfterOption::AlreadyExist => "blue"@,
                AfterOption::WrongEither => "red"@,
                AfterOption::RequireInput => "red"@,
                AfterOption::Empty => ""@,
            },
    {
        match self {
            AfterOption::SignedUp => "blue",
            AfterOption::AlreadyExist => "blue",
            AfterOption::WrongEither => "red",
            AfterOption::RequireInput => "red",
            AfterOption::Empty => "",
        }
    }

    pub fn text(&self) -> (t: &'static str)
        ensures
            t@ == match *self {
                AfterOption::SignedUp => "Signed up"@,
                AfterOption::AlreadyExist => "Already exist"@,
                AfterOption::WrongEither => "Wrong name or password"@,
                AfterOption::RequireInput => "Require name and password"@,
                AfterOption::Empty => ""@,
            },
    {
        match self {
            AfterOption::SignedUp => "Signed up",
            AfterOption::AlreadyExist => "Already exist",
            AfterOption::WrongEither => "Wrong name or password",
            AfterOption::RequireInput => "Require name and password",
            AfterOption::Empty => "",
        }
    }
}

impl Default for AfterOption {
    fn default() -> (r: Self)
        ensures
            r == AfterOption::Empty,
    {
        AfterOption::Empty
    }
}

/// What the skill creation form reports after its last action.
#[derive(Clone, Copy, Debug, PartialEq, Eq, Structural)]
pub enum CreateState {
    Successful,
    NameAlreadyUsed,
    RequireFull,
    Empty,
}

impl CreateState {
    pub fn color(&self) -> (c: &'static str)
        ensures
            c@ == match *self {
                CreateState::Successful => "blue"@,
                CreateState::NameAlreadyUsed => "red"@,
                CreateState::RequireFull => "red"@,
                CreateState::Empty => ""@,
            },
    {
        match self {
            CreateState::Successful => "blue",
            CreateState::NameAlreadyUsed => "red",
            CreateState::RequireFull => "red",
            CreateState::Empty => "",
        }
    }

    pub fn text(&self) -> (t: &'static str)
        ensures
            t@ == match *self {
                CreateState::Successful => "Successful created"@,
                CreateState::NameAlreadyUsed => "Skill name already used"@,
                CreateState::RequireFull => "Require name and atleast 1 tag"@,
                CreateState::Empty => ""@,
            },
    {
        match self {
            CreateState::Successful => "Successful created",
            CreateState::NameAlreadyUsed => "Skill name already used",
            CreateState::RequireFull => "Require name and atleast 1 tag",
            CreateState::Empty => "",
        }
    }
}

impl Default for CreateState {
    fn default() -> (r: Self)
        ensures
            r == CreateState::Empty,
    {
        CreateState::Empty
    }
}

/// The colour theme of the site.
#[derive(Clone, Copy, Debug, PartialEq, Eq, Structural)]
pub enum Theme {
    Dark,
    Light,
}

/// The other theme.
pub open spec fn other_theme(t: Theme) -> Theme {
    match t {
        Theme::Dark => Theme::Light,
        Theme::Light => Theme::Dark,
    }
}

impl Theme {
    /// The theme the theme button switches to.
    pub fn toggled(&self) -> (t: Theme)
        ensures
            t == other_theme(*self),
    {
        match self {
            Theme::Dark => Theme::Light,
            Theme::Light => Theme::Dark,
        }
    }

    /// The value of the page's `data-theme` attribute: the variant's name in
    /// lower case.
    pub fn attribute(&self) -> (s: &'static str)
        ensures
            s@ == match *self {
                Theme::Dark => "dark"@,
                Theme::Light => "light"@,
            },
    {
        match self {
            Theme::Dark => "dark",
            Theme::Light => "light",
        }
    }
}

impl Default for Theme {
    fn default() -> (t: Self)
        ensures
            t == Theme::Dark,
    {
        Theme::Dark
    }
}

/// Switching the theme twice gives the theme back.
pub proof fn lemma_toggle_twice(t: Theme)
    ensures
        other_theme(other_theme(t)) == t,
{
}

/// The widest navigation bar, in pixels, that folds its links into a side panel.
pub const COLLAPSE_WHEN: u16 = 800;

/// Whether a navigation bar of this width folds its links away.
pub fn nav_collapsed(width: u16) -> (r: bool)
    ensures
        r == (width <= COLLAPSE_WHEN),
{
    width <= COLLAPSE_WHEN
}

/// Whether the side panel with the links shows: it was opened and the bar is
/// folded.
pub fn side_bar_shown(activated: bool, width: u16) -> (r: bool)
    ensures
        r == (activated && width <= COLLAPSE_WHEN),
{
    activated && nav_collapsed(width)
}

} // verus!
