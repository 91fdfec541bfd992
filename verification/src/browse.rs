//! The skill browser: the filter a visitor sets, the cards it shows and the
//! orders it can show them in.
use vstd::prelude::*;

use crate::review::{is_rated, ReviewRecord};
use crate::skills::{has_skill, Skill, SkillID};
use crate::students::UserRecord;
use crate::text::{occurs_ignoring_case, occurs_ignoring_case_in};
use crate::world::{SkillRecord, TheWorld};
use crate::laws::lemma_sorted_cards_follow_order;

verus! {

/// The orders the browser offers.
#[derive(Clone, Copy, Debug, PartialEq, Eq, Structural)]
pub enum SortBy {
    ReviewLowHigh,
    ReviewHighLow,
    RatingLowHigh,
    RatingHighLow,
    Id,
    Unsorted,
}

impl SortBy {
    /// Every order, in declaration order.
    pub fn all() -> (v: Vec<SortBy>)
        ensures
            v@ == seq![
                SortBy::ReviewLowHigh,
                SortBy::ReviewHighLow,
                SortBy::RatingLowHigh,
                SortBy::RatingHighLow,
                SortBy::Id,
                SortBy::Unsorted,
            ],
    {
        let v = vec![
            SortBy::ReviewLowHigh,
            SortBy::ReviewHighLow,
            SortBy::RatingLowHigh,
            SortBy::RatingHighLow,
            SortBy::Id,
            SortBy::Unsorted,
        ];
        assert(v@ =~= seq![
            SortBy::ReviewLowHigh,
            SortBy::ReviewHighLow,
            SortBy::RatingLowHigh,
            SortBy::RatingHighLow,
            SortBy::Id,
            SortBy::Unsorted,
        ]);
        v
    }

    /// The name of the order as the menu words it; the order that keeps the
    /// skills as they are is called "None".
    pub fn as_str(&self) -> (s: &'static str)
        ensures
            s@ == match *self {
                SortBy::ReviewLowHigh => "ReviewLowHigh"@,
                SortBy::ReviewHighLow => "ReviewHighLow"@,
                SortBy::RatingLowHigh => "RatingLowHigh"@,
                SortBy::RatingHighLow => "RatingHighLow"@,
                SortBy::Id => "Id"@,
                SortBy::Unsorted => "None"@,
            },
    {
        match self {
            SortBy::ReviewLowHigh => "ReviewLowHigh",
            SortBy::ReviewHighLow => "ReviewHighLow",
            SortBy::RatingLowHigh => "RatingLowHigh",
            SortBy::RatingHighLow => "RatingHighLow",
            SortBy::Id => "Id",
            SortBy::Unsorted => "None",
        }
    }

    pub fn emoji(&self) -> (s: &'static str)
        ensures
            s@ == match *self {
                SortBy::ReviewLowHigh => "📈"@,
                SortBy::ReviewHighLow => "📉"@,
                SortBy::RatingLowHigh => "📈"@,
                SortBy::RatingHighLow => "📉"@,
                SortBy::Id => "🆔"@,
                SortBy::Unsorted => "❌"@,
            },
    {
        match self {
            SortBy::ReviewLowHigh => "📈",
            SortBy::ReviewHighLow => "📉",
            SortBy::RatingLowHigh => "📈",
            SortBy::RatingHighLow => "📉",
            SortBy::Id => "🆔",
            SortBy::Unsorted => "❌",
        }
    }
}

impl Default for SortBy {
    fn default() -> (s: Self)
        ensures
            s == SortBy::Unsorted,
    {
        SortBy::Unsorted
    }
}

/// What the visitor has chosen in the browser.  `show` and `page` are kept
/// for paging; the browser does not use them yet.
pub struct FilterState {
    pub show: u8,
    pub sort_by: SortBy,
    pub item_tags: Vec<Skill>,
    pub creator_name: String,
    pub skill_name: String,
    pub page: usize,
}

impl Default for FilterState {
    /// Fifteen cards a page, no order, no categories, no names.
    fn default() -> (f: Self)
        ensures
            f.show == 15,
            f.sort_by == SortBy::Unsorted,
            f.item_tags@.len() == 0,
            f.creator_name@.len() == 0,
            f.skill_name@.len() == 0,
            f.page == 0,
    {
        FilterState {
            show: 15,
            sort_by: SortBy::Unsorted,
            item_tags: Vec::new(),
            creator_name: String::new(),
            skill_name: String::new(),
            page: 0,
        }
    }
}

/// A card of the browser.
#[derive(Clone, Debug, PartialEq, Eq, PartialOrd, Ord)]
pub struct Item {
    pub id: SkillID,
    pub img: String,
    pub name: String,
    pub creator: String,
    pub tags: Vec<Skill>,
    /// The sum of the ratings counted on the card.
    pub rating: u32,
    /// How many reviews are counted on the card.
    pub total_review: usize,
}


/// `c` reviews lead `from` that are all rated, and the next one, if any, is
/// not: the run of reviews a card counts.
pub open spec fn rated_run_is(rs: Seq<ReviewRecord>, from: Seq<usize>, c: nat) -> bool {
    &&& c <= from.len()
    &&& forall|j: int| 0 <= j < c ==> is_rated(rs[#[trigger] from[j] as int])
    &&& c < from.len() ==> !is_rated(rs[from[c as int] as int])
}

/// The sum of the ratings of the first `c` reviews of `from`.
pub open spec fn rating_sum(rs: Seq<ReviewRecord>, from: Seq<usize>, c: nat) -> nat
    decreases c,
{
    if c == 0 {
        0
    } else {
        rating_sum(rs, from, (c - 1) as nat) + (rs[from[c - 1] as int].rating->0) as nat
    }
}

/// The first `c` reviews of `from` are all rated.
pub open spec fn all_rated(rs: Seq<ReviewRecord>, from: Seq<usize>, c: nat) -> bool {
    &&& c <= from.len()
    &&& forall|j: int| 0 <= j < c ==> is_rated(rs[#[trigger] from[j] as int])
}

/// Every sum a card can count over `from` fits the `u32` of the card: the
/// ratings of each run of rated reviews leading `from` add up to at most
/// `u32::MAX`.
pub open spec fn ratings_fit(rs: Seq<ReviewRecord>, from: Seq<usize>) -> bool {
    forall|c: nat| #[trigger] all_rated(rs, from, c) ==> rating_sum(rs, from, c) <= u32::MAX
}

/// Skill `s` passes the filter: its name holds the wanted skill name (when
/// one is given), its creator's name holds the wanted creator name, both
/// ignoring case, and it has every wanted category.
pub open spec fn skill_matches(us: Seq<UserRecord>, ss: Seq<SkillRecord>, f: FilterState, s: int) -> bool {
    let sk = ss[s];
    &&& (f.skill_name@.len() == 0 || occurs_ignoring_case(sk.name@, f.skill_name@))
    &&& occurs_ignoring_case(us[sk.created_by as int].name@, f.creator_name@)
    &&& forall|k: int| 0 <= k < f.item_tags@.len() ==> sk.tags@.contains(#[trigger] f.item_tags@[k])
}

/// The positions of the skills that pass the filter, in order.
pub open spec fn matching(us: Seq<UserRecord>, ss: Seq<SkillRecord>, f: FilterState) -> Seq<int> {
    Seq::new(ss.len(), |i: int| i).filter(|i: int| skill_matches(us, ss, f, i))
}

/// The filter wants no skill name, no creator name and no category.
pub open spec fn filter_is_open(f: FilterState) -> bool {
    &&& f.skill_name@.len() == 0
    &&& f.creator_name@.len() == 0
    &&& f.item_tags@.len() == 0
}

/// `item` is the card of skill `s`.  Its count and rating are those of the
/// leading run of rated reviews; while the withdrawal marker is unknown to
/// the world (`withdrawal_known` false) the reviews cannot be queried and
/// both are zero.
pub open spec fn describes(
    item: Item,
    us: Seq<UserRecord>,
    ss: Seq<SkillRecord>,
    rs: Seq<ReviewRecord>,
    withdrawal_known: bool,
    s: int,
) -> bool {
    let sk = ss[s];
    &&& item.id == sk.id
    &&& item.img == sk.image
    &&& item.name == sk.name
    &&& item.creator == us[sk.created_by as int].name
    &&& item.tags@ == sk.tags@
    &&& if withdrawal_known {
        &&& rated_run_is(rs, sk.reviewed_from@, item.total_review as nat)
        &&& item.rating == rating_sum(rs, sk.reviewed_from@, item.total_review as nat)
    } else {
        item.total_review == 0 && item.rating == 0
    }
}

/// `items` are the cards of the skills at `positions`, in that order.
pub open spec fn cards_of(
    items: Seq<Item>,
    us: Seq<UserRecord>,
    ss: Seq<SkillRecord>,
    rs: Seq<ReviewRecord>,
    withdrawal_known: bool,
    positions: Seq<int>,
) -> bool {
    &&& items.len() == positions.len()
    &&& forall|k: int|
        0 <= k < items.len() ==> describes(#[trigger] items[k], us, ss, rs, withdrawal_known, positions[k])
}

/// Whether the skill has every wanted category.
fn has_all_tags(tags: &Vec<Skill>, wanted: &Vec<Skill>) -> (r: bool)
    ensures
        r == forall|k: int| 0 <= k < wanted@.len() ==> tags@.contains(#[trigger] wanted@[k]),
{
    let n = wanted.len();
    for k in 0..n
        invariant
            n == wanted@.len(),
            forall|j: int| 0 <= j < k ==> tags@.contains(#[trigger] wanted@[j]),
    {
        if !has_skill(tags, wanted[k]) {
            return false;
        }
    }
    true
}

fn copy_tags(tags: &Vec<Skill>) -> (r: Vec<Skill>)
    ensures
        r@ == tags@,
{
    let mut r: Vec<Skill> = Vec::new();
    let n = tags.len();
    for k in 0..n
        invariant
            n == tags@.len(),
            r@ == tags@.take(k as int),
    {
        r.push(tags[k]);
        assert(r@ =~= tags@.take(k + 1));
    }
    assert(r@ =~= tags@);
    r
}

/// Counts the run of rated reviews that leads `from`, and sums their ratings.
fn rated_run(reviews: &Vec<ReviewRecord>, from: &Vec<usize>) -> (r: (usize, u32))
    requires
        forall|k: int| 0 <= k < from@.len() ==> #[trigger] from@[k] < reviews@.len(),
        ratings_fit(reviews@, from@),
    ensures
        rated_run_is(reviews@, from@, r.0 as nat),
        r.1 == rating_sum(reviews@, from@, r.0 as nat),
{
    let n = from.len();
    let mut c: usize = 0;
    let mut sum: u32 = 0;
    while c < n
        invariant
            n == from@.len(),
            ratings_fit(reviews@, from@),
            forall|k: int| 0 <= k < from@.len() ==> #[trigger] from@[k] < reviews@.len(),
            c <= n,
            forall|j: int| 0 <= j < c ==> is_rated(reviews@[#[trigger] from@[j] as int]),
            sum == rating_sum(reviews@, from@, c as nat),
        ensures
            c <= n,
            forall|j: int| 0 <= j < c ==> is_rated(reviews@[#[trigger] from@[j] as int]),
            c < n ==> !is_rated(reviews@[from@[c as int] as int]),
            sum == rating_sum(reviews@, from@, c as nat),
        decreases n - c,
    {
        let r = &reviews[from[c]];
        if r.withdrawn {
            break;
        }
        match r.rating {
            None => {
                break;
            },
            Some(x) => {
                assert(all_rated(reviews@, from@, (c + 1) as nat));
                sum = sum + x as u32;
                c = c + 1;
            },
        }
    }
    (c, sum)
}

/// The key a card is ordered by: ascending orders use the count or sum,
/// descending ones its negation; identifiers ascend; without an order every
/// card has the same key.
pub open spec fn sort_key(item: Item, by: SortBy) -> int {
    match by {
        SortBy::ReviewLowHigh => item.total_review as int,
        SortBy::ReviewHighLow => -(item.total_review as int),
        SortBy::RatingLowHigh => item.rating as int,
        SortBy::RatingHighLow => -(item.rating as int),
        SortBy::Id => item.id.0 as int,
        SortBy::Unsorted => 0,
    }
}

/// The cards whose key is `v`.
pub open spec fn key_is(by: SortBy, v: int) -> spec_fn(Item) -> bool {
    |x: Item| sort_key(x, by) == v
}

/// The keys never go down.
pub open spec fn sorted_by_key(s: Seq<Item>, by: SortBy) -> bool {
    forall|i: int, j: int| 0 <= i < j < s.len() ==> sort_key(#[trigger] s[i], by) <= sort_key(#[trigger] s[j], by)
}

/// `out` is `input` stably sorted by key: the keys never go down, and the
/// cards of each key come in the order they had in `input`.
pub open spec fn stably_sorted(out: Seq<Item>, input: Seq<Item>, by: SortBy) -> bool {
    &&& sorted_by_key(out, by)
    &&& forall|v: int| #[trigger] out.filter(key_is(by, v)) == input.filter(key_is(by, v))
}

fn item_key(item: &Item, by: SortBy) -> (k: i128)
    ensures
        k == sort_key(*item, by),
{
    match by {
        SortBy::ReviewLowHigh => item.total_review as i128,
        SortBy::ReviewHighLow => -(item.total_review as i128),
        SortBy::RatingLowHigh => item.rating as i128,
        SortBy::RatingHighLow => -(item.rating as i128),
        SortBy::Id => item.id.0 as i128,
        SortBy::Unsorted => 0,
    }
}

/// A sequence none of whose elements passes the filter filters to nothing.
proof fn lemma_filter_none<A>(s: Seq<A>, p: spec_fn(A) -> bool)
    requires
        forall|i: int| 0 <= i < s.len() ==> !p(#[trigger] s[i]),
    ensures
        s.filter(p) == Seq::<A>::empty(),
{
    broadcast use vstd::seq_lib::group_filter_ensures;

    if s.filter(p).len() > 0 {
        crate::seqs::lemma_filter_from(s, p);
        assert(s.contains(s.filter(p)[0]));
        assert(p(s.filter(p)[0]));
    }
    assert(s.filter(p) =~= Seq::<A>::empty());
}

/// A one-element sequence keeps its element exactly when it passes.
proof fn lemma_filter_one<A>(x: A, p: spec_fn(A) -> bool)
    ensures
        seq![x].filter(p) == if p(x) {
            seq![x]
        } else {
            Seq::<A>::empty()
        },
{
    reveal_with_fuel(Seq::filter, 2);
    assert(seq![x].drop_last() =~= Seq::<A>::empty());
    assert(Seq::<A>::empty().push(x) =~= seq![x]);
}

/// Inserting `x` after the cards with smaller keys keeps the cards of each key
/// equal to those of `x` followed by the rest of the input.
proof fn lemma_insert_keeps_groups(out: Seq<Item>, j: int, x: Item, tail: Seq<Item>, by: SortBy)
    requires
        0 <= j <= out.len(),
        forall|i: int| 0 <= i < j ==> sort_key(#[trigger] out[i], by) < sort_key(x, by),
        forall|v: int| #[trigger] out.filter(key_is(by, v)) == tail.filter(key_is(by, v)),
    ensures
        forall|v: int| #[trigger] out.insert(j, x).filter(key_is(by, v)) == (seq![x] + tail).filter(
            key_is(by, v),
        ),
{
    broadcast use vstd::seq::Seq::filter_distributes_over_add;

    let front = out.take(j);
    let back = out.skip(j);
    assert(out == front + back);
    assert(out.insert(j, x) == front + seq![x] + back);
    assert forall|v: int| #[trigger] out.insert(j, x).filter(key_is(by, v)) == (seq![x] + tail).filter(
        key_is(by, v),
    ) by {
        let p = key_is(by, v);
        lemma_filter_one(x, p);
        assert(out.filter(p) == tail.filter(p));
        assert(out.filter(p) == front.filter(p) + back.filter(p));
        assert((front + seq![x] + back).filter(p) == (front + seq![x]).filter(p) + back.filter(p));
        assert((front + seq![x]).filter(p) == front.filter(p) + seq![x].filter(p));
        assert((seq![x] + tail).filter(p) == seq![x].filter(p) + tail.filter(p));
        if v == sort_key(x, by) {
            lemma_filter_none(front, p);
            assert(front.filter(p) + seq![x] + back.filter(p) =~= seq![x] + (front.filter(p) + back.filter(p)));
        } else {
            assert(front.filter(p) + Seq::<Item>::empty() =~= front.filter(p));
        }
    }
}

/// Orders the cards stably by the key of the chosen order; without an order
/// they stay as they are.
pub fn sort_items(items: Vec<Item>, by: SortBy) -> (out: Vec<Item>)
    ensures
        stably_sorted(out@, items@, by),
        out@.len() == items@.len(),
{
    if by == SortBy::Unsorted {
        return items;
    }
    let ghost orig = items@;
    let mut rest = items;
    let mut out: Vec<Item> = Vec::new();
    while rest.len() > 0
        invariant
            rest@.len() <= orig.len(),
            rest@.len() + out@.len() == orig.len(),
            rest@ == orig.take(rest@.len() as int),
            sorted_by_key(out@, by),
            forall|v: int| #[trigger] out@.filter(key_is(by, v)) == orig.skip(rest@.len() as int).filter(
                key_is(by, v),
            ),
        decreases rest@.len(),
    {
        let ghost n = rest@.len() as int;
        let x = rest.pop().unwrap();
        assert(x == orig[n - 1]);
        assert(rest@ =~= orig.take(n - 1));
        let k = item_key(&x, by);
        let mut j: usize = 0;
        while j < out.len()
            invariant
                j <= out@.len(),
                forall|i: int| 0 <= i < j ==> sort_key(#[trigger] out@[i], by) < k,
            ensures
                j <= out@.len(),
                forall|i: int| 0 <= i < j ==> sort_key(#[trigger] out@[i], by) < k,
                j < out@.len() ==> sort_key(out@[j as int], by) >= k,
            decreases out@.len() - j,
        {
            if item_key(&out[j], by) >= k {
                break;
            }
            j = j + 1;
        }
        let ghost before = out@;
        proof {
            lemma_insert_keeps_groups(before, j as int, x, orig.skip(n), by);
            assert(orig.skip(n - 1) =~= seq![x] + orig.skip(n));
        }
        out.insert(j, x);
        proof {
            assert(out@ == before.insert(j as int, x));
            assert forall|a: int, b: int| 0 <= a < b < out@.len() implies sort_key(#[trigger] out@[a], by)
                <= sort_key(#[trigger] out@[b], by) by {
                if j < before.len() {
                    assert(sort_key(before[j as int], by) >= k);
                }
                if a < j && b > j {
                    assert(out@[a] == before[a]);
                    assert(out@[b] == before[b - 1]);
                    if j < before.len() {
                        assert(sort_key(before[j as int], by) <= sort_key(before[b - 1], by) || b - 1 == j);
                    }
                } else if a > j {
                    assert(out@[a] == before[a - 1]);
                    assert(out@[b] == before[b - 1]);
                } else if b < j {
                    assert(out@[a] == before[a]);
                    assert(out@[b] == before[b]);
                } else if a == j {
                    assert(out@[b] == before[b - 1]);
                    assert(sort_key(before[j as int], by) <= sort_key(before[b - 1], by) || b - 1 == j);
                } else {
                    assert(out@[a] == before[a]);
                }
            }
        }
    }
    assert(orig.skip(0) =~= orig);
    out
}

impl TheWorld {
    /// The cards of the skills that pass the filter, in the order of the
    /// world, before any ordering.  While the withdrawal marker is unknown to
    /// the world, every card counts no reviews and no rating.
    pub fn matching_cards(&self, filter: &FilterState) -> (items: Vec<Item>)
        requires
            self.wf(),
        ensures
            cards_of(
                items@,
                self.users_view(),
                self.skills_view(),
                self.reviews_view(),
                self.withdrawal_view(),
                matching(self.users_view(), self.skills_view(), *filter),
            ),
            filter_is_open(*filter) ==> matching(self.users_view(), self.skills_view(), *filter)
                == Seq::new(self.skills_view().len(), |i: int| i),
    {
        let users = self.users();
        let skills = self.skills();
        let reviews = self.reviews();
        let ghost us = users@;
        let ghost ss = skills@;
        let ghost rs = reviews@;
        let known = self.withdrawal_known();
        let ghost p = |i: int| skill_matches(us, ss, *filter, i);
        let ghost all = Seq::new(ss.len(), |i: int| i);
        let mut items: Vec<Item> = Vec::new();
        let m = skills.len();
        for s in 0..m
            invariant
                self.wf(),
                us == self.users_view(),
                ss == self.skills_view(),
                rs == self.reviews_view(),
                users@ == us,
                skills@ == ss,
                reviews@ == rs,
                known == self.withdrawal_view(),
                m == ss.len(),
                p == (|i: int| skill_matches(us, ss, *filter, i)),
                all == Seq::new(ss.len(), |i: int| i),
                cards_of(items@, us, ss, rs, known, all.take(s as int).filter(p)),
                filter_is_open(*filter) ==> all.take(s as int).filter(p) == all.take(s as int),
        {
            proof {
                crate::seqs::lemma_filter_take_step(all, p, s as int);
            }
            let sk = &skills[s];
            let c = sk.created_by;
            assert(c < users@.len());
            let name_ok = filter.skill_name.as_str().is_empty() || occurs_ignoring_case_in(
                sk.name.as_str(),
                filter.skill_name.as_str(),
            );
            let creator_ok = occurs_ignoring_case_in(
                users[c].name.as_str(),
                filter.creator_name.as_str(),
            );
            let tags_ok = has_all_tags(&sk.tags, &filter.item_tags);
            if name_ok && creator_ok && tags_ok {
                assert(forall|k: int|
                    0 <= k < sk.reviewed_from@.len() ==> #[trigger] sk.reviewed_from@[k] < reviews@.len());
                let (count, sum) = if known {
                    rated_run(reviews, &sk.reviewed_from)
                } else {
                    (0, 0)
                };
                let item = Item {
                    id: sk.id,
                    img: sk.image.clone(),
                    name: sk.name.clone(),
                    creator: users[c].name.clone(),
                    tags: copy_tags(&sk.tags),
                    rating: sum,
                    total_review: count,
                };
                let ghost before = items@;
                items.push(item);
                proof {
                    let t = all.take(s + 1).filter(p);
                    assert(t == all.take(s as int).filter(p).push(s as int));
                    assert forall|k: int| 0 <= k < items@.len() implies describes(
                        #[trigger] items@[k],
                        us,
                        ss,
                        rs,
                        known,
                        t[k],
                    ) by {
                        if k < before.len() {
                            assert(items@[k] == before[k]);
                        }
                    }
                }
            } else {
                assert(!p(s as int));
            }
            proof {
                if filter_is_open(*filter) {
                    assert(all.take(s + 1) =~= all.take(s as int).push(s as int));
                }
            }
        }
        proof {
            crate::seqs::lemma_take_all(all);
        }
        items
    }

    /// The cards the browser shows for the filter: the cards of the skills
    /// that pass it, in the order of the world, then stably ordered by the
    /// chosen order.
    pub fn browse(&self, filter: &FilterState) -> (out: Vec<Item>)
        requires
            self.wf(),
        ensures
            exists|cards: Seq<Item>|
                cards_of(
                    cards,
                    self.users_view(),
                    self.skills_view(),
                    self.reviews_view(),
                    self.withdrawal_view(),
                    matching(self.users_view(), self.skills_view(), *filter),
                ) && stably_sorted(out@, cards, filter.sort_by) && out@.len() == cards.len(),
            filter_is_open(*filter) ==> matching(self.users_view(), self.skills_view(), *filter)
                == Seq::new(self.skills_view().len(), |i: int| i),
            filter.sort_by == SortBy::RatingHighLow ==> forall|i: int, j: int|
                0 <= i < j < out@.len() ==> (#[trigger] out@[i]).rating >= (#[trigger] out@[j]).rating,
            filter.sort_by == SortBy::RatingLowHigh ==> forall|i: int, j: int|
                0 <= i < j < out@.len() ==> (#[trigger] out@[i]).rating <= (#[trigger] out@[j]).rating,
            filter.sort_by == SortBy::ReviewHighLow ==> forall|i: int, j: int|
                0 <= i < j < out@.len() ==> (#[trigger] out@[i]).total_review >= (
                #[trigger] out@[j]).total_review,
            filter.sort_by == SortBy::ReviewLowHigh ==> forall|i: int, j: int|
                0 <= i < j < out@.len() ==> (#[trigger] out@[i]).total_review <= (
                #[trigger] out@[j]).total_review,
            filter.sort_by == SortBy::Id ==> forall|i: int, j: int|
                0 <= i < j < out@.len() ==> (#[trigger] out@[i]).id.0 <= (#[trigger] out@[j]).id.0,
    {
        let cards = self.matching_cards(filter);
        let ghost c = cards@;
        let out = sort_items(cards, filter.sort_by);
        assert(cards_of(
            c,
            self.users_view(),
            self.skills_view(),
            self.reviews_view(),
            self.withdrawal_view(),
            matching(self.users_view(), self.skills_view(), *filter),
        ) && stably_sorted(out@, c, filter.sort_by) && out@.len() == c.len());
        proof {
            lemma_sorted_cards_follow_order(out@, c, filter.sort_by);
        }
        out
    }
}

} // verus!
