//! Skill categories and skill identifiers.
use vstd::prelude::*;

use crate::seqs::lemma_filter_no_duplicates;

verus! {

/// The category of a skill; a skill carries a set of these as its tags.
#[derive(Clone, Copy, Debug, PartialEq, Eq, Structural, Hash, PartialOrd, Ord)]
pub enum Skill {
    Artist,
    Programming,
    Designer,
    ContentCreator,
    Communication,
    Electronical,
}

/// The identifier of a skill, given when the skill is created.
#[derive(Clone, Copy, Debug, PartialEq, Eq, Structural, Hash, PartialOrd, Ord)]
pub struct SkillID(pub u32);

/// Every category, in declaration order.
pub open spec fn all_skills() -> Seq<Skill> {
    seq![
        Skill::Artist,
        Skill::Programming,
        Skill::Designer,
        Skill::ContentCreator,
        Skill::Communication,
        Skill::Electronical,
    ]
}

/// The name of a category: the name of its variant.
pub open spec fn skill_name(s: Skill) -> Seq<char> {
    match s {
        Skill::Artist => "Artist"@,
        Skill::Programming => "Programming"@,
        Skill::Designer => "Designer"@,
        Skill::ContentCreator => "ContentCreator"@,
        Skill::Communication => "Communication"@,
        Skill::Electronical => "Electronical"@,
    }
}

/// The tags a skill stores for a chosen list of categories: each chosen
/// category once, in declaration order (the chosen list is read as a set).
pub open spec fn tag_set(chosen: Seq<Skill>) -> Seq<Skill> {
    all_skills().filter(|s: Skill| chosen.contains(s))
}

impl Skill {
    /// Every category, in declaration order.
    pub fn all() -> (v: Vec<Skill>)
        ensures
            v@ == all_skills(),
    {
        let v = vec![
            Skill::Artist,
            Skill::Programming,
            Skill::Designer,
            Skill::ContentCreator,
            Skill::Communication,
            Skill::Electronical,
        ];
        assert(v@ =~= all_skills());
        v
    }

    /// The name of the category, as it is shown.
    pub fn as_str(&self) -> (s: &'static str)
        ensures
            s@ == skill_name(*self),
    {
        match self {
            Skill::Artist => "Artist",
            Skill::Programming => "Programming",
            Skill::Designer => "Designer",
            Skill::ContentCreator => "ContentCreator",
            Skill::Communication => "Communication",
            Skill::Electronical => "Electronical",
        }
    }

    /// The emoji shown beside the category: none has one yet.
    pub fn emoji(&self) -> (s: &'static str)
        ensures
            s@ == ""@,
    {
        ""
    }
}

/// Whether `s` is among `tags`.
pub fn has_skill(tags: &Vec<Skill>, s: Skill) -> (r: bool)
    ensures
        r == tags@.contains(s),
{
    let n = tags.len();
    for i in 0..n
        invariant
            n == tags@.len(),
            forall|k: int| 0 <= k < i ==> tags@[k] != s,
    {
        if tags[i] == s {
            return true;
        }
    }
    false
}

/// The tag set of a skill made from the chosen categories: every chosen
/// category once, in declaration order.
pub fn make_tag_set(chosen: &Vec<Skill>) -> (tags: Vec<Skill>)
    ensures
        tags@ == tag_set(chosen@),
{
    let all = Skill::all();
    let mut tags: Vec<Skill> = Vec::new();
    let ghost pred = |s: Skill| chosen@.contains(s);
    for i in 0..6
        invariant
            all@ == all_skills(),
            pred == (|s: Skill| chosen@.contains(s)),
            tags@ == all_skills().take(i as int).filter(pred),
    {
        let ghost prefix = all_skills().take(i + 1);
        assert(prefix.drop_last() =~= all_skills().take(i as int));
        assert(prefix.last() == all@[i as int]);
        assert(prefix.filter(pred) == if pred(prefix.last()) {
            prefix.drop_last().filter(pred).push(prefix.last())
        } else {
            prefix.drop_last().filter(pred)
        }) by {
            reveal_with_fuel(Seq::filter, 1);
        }
        let x = all[i];
        let keep = has_skill(chosen, x);
        if keep {
            tags.push(x);
        }
    }
    assert(all_skills().take(6) =~= all_skills());
    tags
}


/// A tag set holds each category at most once.
pub proof fn lemma_tag_set_unique(chosen: Seq<Skill>)
    ensures
        tag_set(chosen).no_duplicates(),
{
    assert(all_skills().no_duplicates());
    lemma_filter_no_duplicates(all_skills(), |s: Skill| chosen.contains(s));
}

} // verus!
