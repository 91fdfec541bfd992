//! Reviews of skills.
use vstd::prelude::*;

verus! {

/// A review: who wrote it, which skill it is of, its rating and text.
/// `marked` is the review marker; `withdrawn` marks a review that no longer
/// counts.  Users and skills are named by their position in the world.
pub struct ReviewRecord {
    pub marked: bool,
    pub withdrawn: bool,
    pub rating: Option<u8>,
    pub text: Option<String>,
    pub by_user: Option<usize>,
    pub of_skill: Option<usize>,
}

/// A review counted on a skill's card: it has a rating and is not withdrawn.
pub open spec fn is_rated(r: ReviewRecord) -> bool {
    r.rating is Some && !r.withdrawn
}

/// A review counted in the statistics: marked and not withdrawn.
pub open spec fn is_counted(r: ReviewRecord) -> bool {
    r.marked && !r.withdrawn
}

} // verus!
