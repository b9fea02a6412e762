//! Orders: of texts, and of items by what they are ranked by.

use crate::manifest::{
    CaptionCue, CaptionCueModel, TimelineClip, TimelineClipModel, TimelineGap, TimelineGapModel, VisualLayer,
    VisualLayerModel,
};
use crate::model::Model;
use crate::text::{chars_of, text_eq};
use crate::time::TimeRange;
use vstd::prelude::*;

verus! {

/// Whether one text comes before another that agrees with it up to `index`, character by character.
pub open spec fn text_less_from(left: Seq<char>, right: Seq<char>, index: int) -> bool
    decreases left.len() - index,
{
    if index < 0 || index >= right.len() {
        false
    } else if index >= left.len() {
        true
    } else if left[index] != right[index] {
        left[index] < right[index]
    } else {
        text_less_from(left, right, index + 1)
    }
}

/// The order of texts: by their first difference, the shorter first where there is none.
pub open spec fn text_less(left: Seq<char>, right: Seq<char>) -> bool {
    text_less_from(left, right, 0)
}

proof fn lemma_text_order_from(a: Seq<char>, b: Seq<char>, c: Seq<char>, index: int)
    requires
        0 <= index,
        index <= a.len() && index <= b.len() && index <= c.len(),
        forall|i: int| 0 <= i < index ==> a[i] == b[i] && b[i] == c[i],
    ensures
        !text_less_from(a, a, index),
        !(text_less_from(a, b, index) && text_less_from(b, a, index)),
        text_less_from(a, b, index) || text_less_from(b, a, index) || a =~= b,
        text_less_from(a, b, index) && text_less_from(b, c, index) ==> text_less_from(a, c, index),
    decreases a.len() - index,
{
    if index < a.len() && index < b.len() && a[index] == b[index] {
        if index < c.len() && b[index] == c[index] {
            lemma_text_order_from(a, b, c, index + 1);
        } else {
            lemma_text_order_from(a, b, a, index + 1);
        }
    } else if index < a.len() {
        lemma_text_order_self(a, index);
    }
}

proof fn lemma_text_order_self(a: Seq<char>, index: int)
    requires
        0 <= index <= a.len(),
    ensures
        !text_less_from(a, a, index),
    decreases a.len() - index,
{
    if index < a.len() {
        lemma_text_order_self(a, index + 1);
    }
}

/// The order of texts is strict and total.
pub proof fn text_order(a: Seq<char>, b: Seq<char>, c: Seq<char>)
    ensures
        !text_less(a, a),
        !(text_less(a, b) && text_less(b, a)),
        text_less(a, b) || text_less(b, a) || a == b,
        text_less(a, b) && text_less(b, c) ==> text_less(a, c),
{
    lemma_text_order_from(a, b, c, 0);
}

/// Whether one text comes before another.
pub fn text_before(left: &str, right: &str) -> (result: bool)
    ensures
        result == text_less(left@, right@),
{
    let a: Vec<char> = chars_of(left);
    let b: Vec<char> = chars_of(right);
    let mut index: usize = 0;
    while index < a.len() && index < b.len() && a[index] == b[index]
        invariant
            a@ == left@,
            b@ == right@,
            index <= a.len(),
            index <= b.len(),
            text_less(left@, right@) == text_less_from(left@, right@, index as int),
        decreases a.len() - index,
    {
        index += 1;
    }
    if index >= b.len() {
        false
    } else if index >= a.len() {
        true
    } else {
        a[index] < b[index]
    }
}

/// Items that can be put in order.
pub trait Ranked: DeepView + Sized {
    /// Whether the first item belongs strictly before the second.
    spec fn before(left: Self::V, right: Self::V) -> bool;

    fn comes_before(&self, other: &Self) -> (result: bool)
        ensures
            result == Self::before(self.deep_view(), other.deep_view()),
    ;

    /// Belonging before is strict, and what belongs before neither belongs beside.
    proof fn before_is_an_order(a: Self::V, b: Self::V, c: Self::V)
        ensures
            !Self::before(a, a),
            Self::before(a, b) && Self::before(b, c) ==> Self::before(a, c),
            !Self::before(a, b) && !Self::before(b, c) ==> !Self::before(a, c),
    ;
}

/// A sequence with one more item, put after everything that it does not belong before.
pub open spec fn insert_ranked<T: Ranked>(items: Seq<T::V>, item: T::V) -> Seq<T::V>
    decreases items.len(),
{
    if items.len() > 0 && T::before(item, items.last()) {
        insert_ranked::<T>(items.drop_last(), item).push(items.last())
    } else {
        items.push(item)
    }
}

/// The items in order. Items that belong beside each other stay as they stood.
pub open spec fn ranked<T: Ranked>(items: Seq<T::V>) -> Seq<T::V>
    decreases items.len(),
{
    if items.len() == 0 {
        items
    } else {
        insert_ranked::<T>(ranked::<T>(items.drop_last()), items.last())
    }
}

pub open spec fn is_ranked<T: Ranked>(items: Seq<T::V>) -> bool {
    forall|i: int, j: int| 0 <= i < j < items.len() ==> !T::before(#[trigger] items[j], #[trigger] items[i])
}

proof fn lemma_insert_ranked<T: Ranked>(items: Seq<T::V>, item: T::V)
    requires
        is_ranked::<T>(items),
    ensures
        is_ranked::<T>(insert_ranked::<T>(items, item)),
        insert_ranked::<T>(items, item).len() == items.len() + 1,
        insert_ranked::<T>(items, item).to_multiset() =~= items.to_multiset().insert(item),
        forall|i: int| 0 <= i < items.len() + 1 ==> {
            let placed = #[trigger] insert_ranked::<T>(items, item)[i];
            placed == item || exists|k: int| 0 <= k < items.len() && items[k] == placed
        },
    decreases items.len(),
{
    broadcast use vstd::seq_lib::group_to_multiset_ensures;
    let result = insert_ranked::<T>(items, item);
    if items.len() > 0 && T::before(item, items.last()) {
        let rest = items.drop_last();
        lemma_insert_ranked::<T>(rest, item);
        let inner = insert_ranked::<T>(rest, item);
        assert(items =~= rest.push(items.last()));
        assert forall|i: int, j: int| 0 <= i < j < result.len() implies !T::before(
            #[trigger] result[j],
            #[trigger] result[i],
        ) by {
            if j == result.len() - 1 {
                let placed = inner[i];
                T::before_is_an_order(items.last(), item, placed);
                T::before_is_an_order(item, items.last(), item);
                if placed == item {
                    T::before_is_an_order(items.last(), item, items.last());
                } else {
                    let k = choose|k: int| 0 <= k < rest.len() && rest[k] == placed;
                    assert(items[k] == placed);
                }
            } else {
                assert(result[i] == inner[i] && result[j] == inner[j]);
            }
        }
        assert forall|i: int| 0 <= i < items.len() + 1 implies {
            let placed = #[trigger] result[i];
            placed == item || exists|k: int| 0 <= k < items.len() && items[k] == placed
        } by {
            if i < inner.len() {
                let placed = inner[i];
                if placed != item {
                    let k = choose|k: int| 0 <= k < rest.len() && rest[k] == placed;
                    assert(items[k] == placed);
                }
            } else {
                assert(result[i] == items[items.len() - 1]);
            }
        }
    } else {
        assert forall|i: int, j: int| 0 <= i < j < result.len() implies !T::before(
            #[trigger] result[j],
            #[trigger] result[i],
        ) by {
            if j == items.len() {
                if i < items.len() - 1 {
                    T::before_is_an_order(item, items.last(), items[i]);
                }
            } else {
                assert(result[i] == items[i] && result[j] == items[j]);
            }
        }
        assert forall|i: int| 0 <= i < items.len() + 1 implies {
            let placed = #[trigger] result[i];
            placed == item || exists|k: int| 0 <= k < items.len() && items[k] == placed
        } by {
            if i < items.len() {
                assert(result[i] == items[i]);
            }
        }
    }
}

/// Putting items in order keeps every item, and afterwards none stands before one it belongs after.
pub proof fn ranked_is_a_sorted_permutation<T: Ranked>(items: Seq<T::V>)
    ensures
        is_ranked::<T>(ranked::<T>(items)),
        ranked::<T>(items).len() == items.len(),
        ranked::<T>(items).to_multiset() =~= items.to_multiset(),
    decreases items.len(),
{
    broadcast use vstd::seq_lib::group_to_multiset_ensures;
    if items.len() > 0 {
        ranked_is_a_sorted_permutation::<T>(items.drop_last());
        lemma_insert_ranked::<T>(ranked::<T>(items.drop_last()), items.last());
        assert(items =~= items.drop_last().push(items.last()));
    }
}

/// Where only equal items belong beside each other, the order in which items came does not show
/// once they are put in order.
pub proof fn ranking_forgets_the_order<T: Ranked>(left: Seq<T::V>, right: Seq<T::V>)
    requires
        left.to_multiset() == right.to_multiset(),
        forall|x: T::V, y: T::V| !#[trigger] T::before(x, y) && !T::before(y, x) ==> x == y,
    ensures
        ranked::<T>(left) == ranked::<T>(right),
{
    let leq = |x: T::V, y: T::V| !T::before(y, x);
    ranked_is_a_sorted_permutation::<T>(left);
    ranked_is_a_sorted_permutation::<T>(right);
    assert forall|x: T::V| #[trigger] leq(x, x) by {
        T::before_is_an_order(x, x, x);
    }
    assert forall|x: T::V, y: T::V| #[trigger] leq(x, y) && #[trigger] leq(y, x) implies x == y by {
    }
    assert forall|x: T::V, y: T::V, z: T::V| #[trigger] leq(x, y) && #[trigger] leq(y, z) implies leq(x, z) by {
        T::before_is_an_order(z, y, x);
    }
    assert forall|x: T::V, y: T::V| #[trigger] leq(x, y) || #[trigger] leq(y, x) by {
        T::before_is_an_order(x, y, x);
    }
    assert(vstd::relations::total_ordering(leq));
    vstd::seq_lib::lemma_sorted_unique(ranked::<T>(left), ranked::<T>(right), leq);
}

/// Two orders of the same items are one, where of those items only equal ones belong beside each other.
proof fn lemma_one_order<T: Ranked>(left: Seq<T::V>, right: Seq<T::V>)
    requires
        is_ranked::<T>(left),
        is_ranked::<T>(right),
        left.to_multiset() == right.to_multiset(),
        forall|i: int, j: int|
            0 <= i < left.len() && 0 <= j < left.len() && !T::before(#[trigger] left[i], #[trigger] left[j])
                && !T::before(left[j], left[i]) ==> left[i] == left[j],
    ensures
        left == right,
    decreases left.len(),
{
    broadcast use vstd::seq_lib::group_to_multiset_ensures;

    assert(left.len() == left.to_multiset().len());
    assert(right.len() == right.to_multiset().len());
    if left.len() > 0 {
        let last = left.len() - 1;
        let x = left[last];
        let y = right[last];
        assert(right.contains(y));
        assert(right.to_multiset().count(y) > 0);
        assert(left.contains(y));
        let i = choose|i: int| 0 <= i < left.len() && left[i] == y;
        assert(left.contains(x));
        assert(left.to_multiset().count(x) > 0);
        assert(right.contains(x));
        let j = choose|j: int| 0 <= j < right.len() && right[j] == x;
        T::before_is_an_order(x, x, x);
        assert(!T::before(left[last], left[i]));
        assert(!T::before(right[last], right[j]));
        assert(x == y);
        assert(left =~= left.drop_last().push(x));
        assert(right =~= right.drop_last().push(y));
        assert(left.drop_last().to_multiset() =~= left.to_multiset().remove(x));
        assert(right.drop_last().to_multiset() =~= right.to_multiset().remove(y));
        assert forall|a: int, b: int| 0 <= a < b < last implies !T::before(
            #[trigger] left.drop_last()[b],
            #[trigger] left.drop_last()[a],
        ) by {
            assert(!T::before(left[b], left[a]));
        }
        assert forall|a: int, b: int| 0 <= a < b < last implies !T::before(
            #[trigger] right.drop_last()[b],
            #[trigger] right.drop_last()[a],
        ) by {
            assert(!T::before(right[b], right[a]));
        }
        assert forall|a: int, b: int|
            0 <= a < last && 0 <= b < last && !T::before(
                #[trigger] left.drop_last()[a],
                #[trigger] left.drop_last()[b],
            ) && !T::before(left.drop_last()[b], left.drop_last()[a]) implies left.drop_last()[a]
            == left.drop_last()[b] by {
            assert(left[a] == left.drop_last()[a] && left[b] == left.drop_last()[b]);
        }
        lemma_one_order::<T>(left.drop_last(), right.drop_last());
    } else {
        assert(left =~= right);
    }
}

/// Where, of some items, only equal ones belong beside each other, the order in which they came does not
/// show once they are put in order.
pub proof fn distinct_items_rank_alike<T: Ranked>(left: Seq<T::V>, right: Seq<T::V>)
    requires
        left.to_multiset() == right.to_multiset(),
        forall|i: int, j: int|
            0 <= i < left.len() && 0 <= j < left.len() && !T::before(#[trigger] left[i], #[trigger] left[j])
                && !T::before(left[j], left[i]) ==> left[i] == left[j],
    ensures
        ranked::<T>(left) == ranked::<T>(right),
{
    broadcast use vstd::seq_lib::group_to_multiset_ensures;

    ranked_is_a_sorted_permutation::<T>(left);
    ranked_is_a_sorted_permutation::<T>(right);
    let first = ranked::<T>(left);
    assert forall|i: int, j: int|
        0 <= i < first.len() && 0 <= j < first.len() && !T::before(#[trigger] first[i], #[trigger] first[j])
            && !T::before(first[j], first[i]) implies first[i] == first[j] by {
        assert(first.contains(first[i]) && first.contains(first[j]));
        assert(first.to_multiset().count(first[i]) > 0 && first.to_multiset().count(first[j]) > 0);
        assert(left.contains(first[i]) && left.contains(first[j]));
        let a = choose|a: int| 0 <= a < left.len() && left[a] == first[i];
        let b = choose|b: int| 0 <= b < left.len() && left[b] == first[j];
        assert(left[a] == left[b]);
    }
    lemma_one_order::<T>(first, ranked::<T>(right));
}

/// Whether items are in order and none occurs twice.
pub open spec fn is_ordered_set<T: Ranked>(items: Seq<T::V>) -> bool {
    is_ranked::<T>(items) && items.no_duplicates()
}

/// Where only equal items belong beside each other, an ordered set is written in one way only.
pub proof fn an_ordered_set_has_one_form<T: Ranked>(left: Seq<T::V>, right: Seq<T::V>)
    requires
        is_ordered_set::<T>(left),
        is_ordered_set::<T>(right),
        left.to_set() == right.to_set(),
        forall|x: T::V, y: T::V| !#[trigger] T::before(x, y) && !T::before(y, x) ==> x == y,
    ensures
        left == right,
{
    same_items_once(left, right);
    ranking_forgets_the_order::<T>(left, right);
    lemma_ranked_stays::<T>(left);
    lemma_ranked_stays::<T>(right);
}

/// Sequences of the same items, none of which occurs twice, differ in their order alone.
pub proof fn same_items_once<V>(left: Seq<V>, right: Seq<V>)
    requires
        left.no_duplicates(),
        right.no_duplicates(),
        left.to_set() == right.to_set(),
    ensures
        left.to_multiset() == right.to_multiset(),
{
    broadcast use vstd::seq_lib::group_to_multiset_ensures;

    left.lemma_multiset_has_no_duplicates();
    right.lemma_multiset_has_no_duplicates();
    assert forall|x: V| left.to_multiset().count(x) == right.to_multiset().count(x) by {
        assert(left.to_set().contains(x) <==> left.contains(x));
        assert(right.to_set().contains(x) <==> right.contains(x));
        if left.contains(x) {
            assert(left.to_multiset().contains(x));
            assert(right.to_multiset().contains(x));
        }
    }
    assert(left.to_multiset() =~= right.to_multiset());
}

proof fn lemma_ranked_stays<T: Ranked>(items: Seq<T::V>)
    requires
        is_ranked::<T>(items),
    ensures
        ranked::<T>(items) == items,
    decreases items.len(),
{
    if items.len() > 0 {
        let rest = items.drop_last();
        assert forall|i: int, j: int| 0 <= i < j < rest.len() implies !T::before(
            #[trigger] rest[j],
            #[trigger] rest[i],
        ) by {
            assert(rest[i] == items[i] && rest[j] == items[j]);
        }
        lemma_ranked_stays::<T>(rest);
        if rest.len() > 0 {
            assert(rest.last() == items[items.len() - 2]);
            assert(items.last() == items[items.len() - 1]);
        }
        assert(items =~= rest.push(items.last()));
    }
}

/// An ordered set with one more item. What is there already stays as it is.
pub fn with_item<T: Ranked + Model>(items: &Vec<T>, item: T) -> (result: Vec<T>)
    ensures
        result.deep_view().to_set() == items.deep_view().to_set().insert(item.deep_view()),
        is_ordered_set::<T>(items.deep_view()) ==> is_ordered_set::<T>(result.deep_view()),
{
    let ghost model = items.deep_view();
    let ghost own = item.deep_view();
    let mut copies: Vec<T> = Vec::new();
    let mut index: usize = 0;
    while index < items.len()
        invariant
            index <= items.len(),
            model == items.deep_view(),
            own == item.deep_view(),
            copies.len() == index,
            forall|i: int| 0 <= i < index ==> (#[trigger] copies[i]).deep_view() == model[i],
            forall|i: int| 0 <= i < index ==> #[trigger] model[i] != own,
        decreases items.len() - index,
    {
        assert(model[index as int] == items[index as int].deep_view());
        if items[index].same(&item) {
            let result: Vec<T> = items.duplicate();
            assert(model.contains(own));
            assert(model.to_set().insert(own) =~= model.to_set());
            return result;
        }
        copies.push(items[index].duplicate());
        index += 1;
    }
    assert(copies.deep_view() =~= model);
    copies.push(item);
    assert(copies.deep_view() =~= model.push(own));
    proof {
        broadcast use vstd::seq_lib::group_to_multiset_ensures;

        let all = model.push(own);
        let sorted = ranked::<T>(all);
        ranked_is_a_sorted_permutation::<T>(all);
        model.lemma_push_to_set_commute(own);
        assert forall|x: T::V| #[trigger] sorted.to_set().contains(x) <==> all.to_set().contains(x) by {
            assert(sorted.contains(x) <==> sorted.to_multiset().count(x) > 0);
            assert(all.contains(x) <==> all.to_multiset().count(x) > 0);
        }
        assert(sorted.to_set() =~= all.to_set());
        if is_ordered_set::<T>(model) {
            assert(all.no_duplicates());
            all.lemma_multiset_has_no_duplicates();
            sorted.lemma_multiset_has_no_duplicates_conv();
        }
    }
    rank(copies)
}

proof fn lemma_insert_ranked_at<T: Ranked>(items: Seq<T::V>, item: T::V, place: int)
    requires
        0 <= place <= items.len(),
        place == 0 || !T::before(item, items[place - 1]),
        forall|i: int| place <= i < items.len() ==> T::before(item, #[trigger] items[i]),
    ensures
        insert_ranked::<T>(items, item) =~= items.insert(place, item),
    decreases items.len(),
{
    if place < items.len() {
        assert(items[items.len() - 1] == items.last());
        assert forall|i: int| place <= i < items.drop_last().len() implies T::before(
            item,
            #[trigger] items.drop_last()[i],
        ) by {
            assert(items.drop_last()[i] == items[i]);
        }
        lemma_insert_ranked_at::<T>(items.drop_last(), item, place);
    }
}

/// Puts items in order. Items that belong beside each other stay as they stood.
pub fn rank<T: Ranked>(items: Vec<T>) -> (result: Vec<T>)
    ensures
        result.deep_view() == ranked::<T>(items.deep_view()),
        result.len() == items.len(),
{
    let ghost model = items.deep_view();
    let ghost count = items.len() as int;
    let mut result: Vec<T> = Vec::new();
    assert(result.deep_view() =~= ranked::<T>(model.take(0)));
    for item in it: items
        invariant
            it.seq() == items@,
            model == items.deep_view(),
            result.len() == it.index(),
            result.deep_view() == ranked::<T>(model.take(it.index())),
    {
        let ghost index = it.index();
        let ghost before = result.deep_view();
        let ghost view = item.deep_view();
        let mut place: usize = result.len();
        while place > 0 && item.comes_before(&result[place - 1])
            invariant
                place <= result.len(),
                before == result.deep_view(),
                view == item.deep_view(),
                forall|i: int| place <= i < before.len() ==> T::before(view, #[trigger] before[i]),
            decreases place,
        {
            place -= 1;
        }
        proof {
            lemma_insert_ranked_at::<T>(before, view, place as int);
            assert(model.take(index + 1).drop_last() =~= model.take(index));
            assert(model.take(index + 1).last() == view);
        }
        result.insert(place, item);
        assert(result.deep_view() =~= before.insert(place as int, view));
    }
    assert(model.take(count) =~= model);
    result
}

/// Ranges are ranked by where they start, then by where they end.
impl Ranked for TimeRange {
    open spec fn before(left: TimeRange, right: TimeRange) -> bool {
        left.start() < right.start() || (left.start() == right.start() && left.end() < right.end())
    }

    fn comes_before(&self, other: &Self) -> (result: bool) {
        self.start_us.0 < other.start_us.0 || (self.start_us.0 == other.start_us.0 && self.end_us.0
            < other.end_us.0)
    }

    proof fn before_is_an_order(a: TimeRange, b: TimeRange, c: TimeRange) {
    }
}

/// Clips are ranked by where they start, then by identifier.
impl Ranked for TimelineClip {
    open spec fn before(left: TimelineClipModel, right: TimelineClipModel) -> bool {
        left.timeline_start_us.0 < right.timeline_start_us.0 || (left.timeline_start_us
            == right.timeline_start_us && text_less(left.id, right.id))
    }

    fn comes_before(&self, other: &Self) -> (result: bool) {
        self.timeline_start_us.0 < other.timeline_start_us.0 || (self.timeline_start_us.0
            == other.timeline_start_us.0 && text_before(self.id.as_str(), other.id.as_str()))
    }

    proof fn before_is_an_order(a: TimelineClipModel, b: TimelineClipModel, c: TimelineClipModel) {
        lemma_text_ranks(a.id, b.id, c.id);
    }
}

/// Gaps are ranked by track, then by where they start, then by identifier.
impl Ranked for TimelineGap {
    open spec fn before(left: TimelineGapModel, right: TimelineGapModel) -> bool {
        text_less(left.track_id, right.track_id) || (left.track_id == right.track_id && (left.range.start()
            < right.range.start() || (left.range.start() == right.range.start() && text_less(
            left.id,
            right.id,
        ))))
    }

    fn comes_before(&self, other: &Self) -> (result: bool) {
        text_before(self.track_id.as_str(), other.track_id.as_str()) || (text_eq(
            self.track_id.as_str(),
            other.track_id.as_str(),
        ) && (self.range.start_us.0 < other.range.start_us.0 || (self.range.start_us.0 == other.range.start_us.0
            && text_before(self.id.as_str(), other.id.as_str()))))
    }

    proof fn before_is_an_order(a: TimelineGapModel, b: TimelineGapModel, c: TimelineGapModel) {
        lemma_text_ranks(a.track_id, b.track_id, c.track_id);
        lemma_text_ranks(a.id, b.id, c.id);
    }
}

/// Captions are ranked by where they start, then by identifier.
impl Ranked for CaptionCue {
    open spec fn before(left: CaptionCueModel, right: CaptionCueModel) -> bool {
        left.range.start() < right.range.start() || (left.range.start() == right.range.start() && text_less(
            left.id,
            right.id,
        ))
    }

    fn comes_before(&self, other: &Self) -> (result: bool) {
        self.range.start_us.0 < other.range.start_us.0 || (self.range.start_us.0 == other.range.start_us.0
            && text_before(self.id.as_str(), other.id.as_str()))
    }

    proof fn before_is_an_order(a: CaptionCueModel, b: CaptionCueModel, c: CaptionCueModel) {
        lemma_text_ranks(a.id, b.id, c.id);
    }
}

/// Visual layers are ranked by where they start, then by depth, then by identifier.
impl Ranked for VisualLayer {
    open spec fn before(left: VisualLayerModel, right: VisualLayerModel) -> bool {
        left.range.start() < right.range.start() || (left.range.start() == right.range.start() && (left.z_index
            < right.z_index || (left.z_index == right.z_index && text_less(left.id, right.id))))
    }

    fn comes_before(&self, other: &Self) -> (result: bool) {
        self.range.start_us.0 < other.range.start_us.0 || (self.range.start_us.0 == other.range.start_us.0 && (
        self.z_index < other.z_index || (self.z_index == other.z_index && text_before(
            self.id.as_str(),
            other.id.as_str(),
        ))))
    }

    proof fn before_is_an_order(a: VisualLayerModel, b: VisualLayerModel, c: VisualLayerModel) {
        lemma_text_ranks(a.id, b.id, c.id);
    }
}

/// What the order of texts says of any three.
pub proof fn lemma_text_ranks(a: Seq<char>, b: Seq<char>, c: Seq<char>)
    ensures
        !text_less(a, a),
        text_less(a, b) && text_less(b, c) ==> text_less(a, c),
        !text_less(a, b) && !text_less(b, c) ==> !text_less(a, c),
        !text_less(a, b) && !text_less(b, a) ==> a == b,
        !text_less(b, c) && !text_less(c, b) ==> b == c,
        !(text_less(a, b) && text_less(b, a)),
        !(text_less(b, c) && text_less(c, b)),
        !(text_less(a, c) && text_less(c, a)),
        !text_less(a, c) && !text_less(c, a) ==> a == c,
{
    text_order(a, b, c);
    text_order(b, c, a);
    text_order(c, b, a);
    text_order(a, c, b);
    text_order(c, a, b);
    text_order(b, a, c);
}

/// Two texts are ordered by their first difference, and a text comes before every longer one that it begins.
pub proof fn texts_are_ordered_by_their_first_difference(left: Seq<char>, right: Seq<char>, at: int)
    requires
        0 <= at <= left.len(),
        at < right.len(),
        forall|i: int| 0 <= i < at ==> left[i] == right[i],
        at == left.len() || left[at] < right[at],
    ensures
        text_less(left, right),
        !text_less(right, left),
{
    lemma_first_difference(left, right, 0, at);
    text_order(left, right, left);
}

proof fn lemma_first_difference(left: Seq<char>, right: Seq<char>, from: int, at: int)
    requires
        0 <= from <= at <= left.len(),
        at < right.len(),
        forall|i: int| from <= i < at ==> left[i] == right[i],
        at == left.len() || left[at] < right[at],
    ensures
        text_less_from(left, right, from),
    decreases at - from,
{
    if from < at {
        lemma_first_difference(left, right, from + 1, at);
    }
}

} // verus!
