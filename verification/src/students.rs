//! Users, their sessions and the time they spend online.
use vstd::prelude::*;

verus! {

/// The longest span a `std::time::Duration` holds, in nanoseconds.
pub const DURATION_MAX_NANOS: u128 = 18446744073709551615999999999;

/// How long a session lasts, in nanoseconds: ten minutes.
pub const SESSION_NANOS: u128 = 600000000000;

/// `a + b`, held at the longest span a duration holds (`Duration::saturating_add`).
pub open spec fn saturating_span_add(a: nat, b: nat) -> nat {
    if a + b > DURATION_MAX_NANOS {
        DURATION_MAX_NANOS as nat
    } else {
        a + b
    }
}

/// Adds two spans of nanoseconds, saturating at the longest duration.
pub fn add_span(a: u128, b: u128) -> (r: u128)
    requires
        a <= DURATION_MAX_NANOS,
        b <= DURATION_MAX_NANOS,
    ensures
        r == saturating_span_add(a as nat, b as nat),
        r <= DURATION_MAX_NANOS,
{
    if a > DURATION_MAX_NANOS - b {
        DURATION_MAX_NANOS
    } else {
        a + b
    }
}

/// The identifier of a user, given when the user signs up.
#[derive(Clone, Copy, Debug, PartialEq, Eq, Structural, Hash)]
pub struct UserID(pub u32);

impl UserID {
    pub fn new(n: u32) -> (id: Self)
        ensures
            id == UserID(n),
    {
        UserID(n)
    }
}

/// The one-shot timer of a session: the time it has run, held at the
/// session's length, and whether it has reached that length.
#[derive(Clone, Copy, Debug, PartialEq, Eq, Structural)]
pub struct SessionDuration {
    pub elapsed: u128,
    pub finished: bool,
}

/// The timer after it has run for `delta` more nanoseconds.  A finished
/// timer stays as it is; otherwise the time is added, and once it reaches the
/// session's length the timer finishes and holds exactly that length.
pub open spec fn ticked(t: SessionDuration, delta: nat) -> SessionDuration {
    if t.finished {
        t
    } else {
        let e = saturating_span_add(t.elapsed as nat, delta);
        if e >= SESSION_NANOS {
            SessionDuration { elapsed: SESSION_NANOS, finished: true }
        } else {
            SessionDuration { elapsed: e as u128, finished: false }
        }
    }
}

impl SessionDuration {
    /// A fresh session timer: nothing elapsed, not finished.
    pub fn new() -> (t: Self)
        ensures
            t == (SessionDuration { elapsed: 0, finished: false }),
    {
        SessionDuration { elapsed: 0, finished: false }
    }

    /// Runs the timer for `delta` nanoseconds.
    pub fn tick(&mut self, delta: u128)
        requires
            old(self).elapsed <= DURATION_MAX_NANOS,
            delta <= DURATION_MAX_NANOS,
        ensures
            *final(self) == ticked(*old(self), delta as nat),
    {
        if !self.finished {
            let e = add_span(self.elapsed, delta);
            if e >= SESSION_NANOS {
                self.elapsed = SESSION_NANOS;
                self.finished = true;
            } else {
                self.elapsed = e;
            }
        }
    }

    pub fn is_finished(&self) -> (r: bool)
        ensures
            r == self.finished,
    {
        self.finished
    }
}

impl Default for SessionDuration {
    fn default() -> (t: Self)
        ensures
            t == (SessionDuration { elapsed: 0, finished: false }),
    {
        SessionDuration::new()
    }
}

/// A user and what belongs to it.
///
/// `current` marks the signed-in user of this browser, `online` a user who
/// counts as online; a session is its token and its timer.  The lists name
/// skills and reviews by their position in the world.
pub struct UserRecord {
    pub id: UserID,
    pub name: String,
    pub login_name: String,
    pub password: String,
    pub description: String,
    pub picture: Option<String>,
    /// Time spent online, in nanoseconds.
    pub time_spend: u128,
    /// When the user signed up, in nanoseconds since the Unix epoch.
    pub registered: u128,
    pub online: bool,
    pub current: bool,
    pub session_token: Option<String>,
    pub session: Option<SessionDuration>,
    pub skills_created: Vec<usize>,
    pub reviews_created: Vec<usize>,
}

} // verus!
