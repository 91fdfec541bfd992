//! Skill Lab: the data model and the rules of a small skill-sharing site.
//!
//! Users sign up and sign in, create skills tagged with categories, and browse
//! the skills of everyone with filters and orderings.  Everything that decides
//! or computes lives here; drawing pages, reading the clock and storage are
//! left to the program around the library.
pub mod browse;
pub mod entropy;
pub mod laws;
pub mod playful;
pub mod restore;
pub mod review;
pub mod seqs;
pub mod skills;
pub mod students;
pub mod text;
pub mod ui;
pub mod world;
