# Skill Lab

A small skill-sharing site: people sign up and sign in, create skills tagged
with categories, and browse everyone's skills with filters and orderings.

`src/` is the library, verified with Verus. It holds the whole model of the
site and its rules:

- `world.rs` — users, skills and reviews, the invariant that ties them
  together (links between records that agree in both directions, sessions
  that hang together, rating sums that fit the cards), and every operation: sign-up, sign-in with a random token,
  sign-out, taking up a stored session, the clock tick that counts time
  online and ends sessions after ten minutes, skill creation, profile edits,
  statistics and page lookups.
- `browse.rs` — the skill browser: filtering by names (ignoring case) and
  categories, the counts and ratings on each card, and a stable sort for the
  orderings on offer.
- `restore.rs` — rebuilding a world from stored records, accepted exactly
  when they keep the invariant.
- `students.rs`, `skills.rs`, `review.rs` — the records and the session
  timer.
- `text.rs` — decimal numbers, the statistics lines, session tokens and
  substring search.
- `ui.rs`, `playful.rs` — messages, the theme, the navigation bar and the
  peeking character.
- `laws.rs` — properties that span several operations.

`app/` is the program around it: Dioxus pages, local storage, the clock and
the floating-point averages of the statistics page.

`tests/` exercises the library on concrete worlds.
