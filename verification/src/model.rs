//! Values with a mathematical view: copying them and comparing them by it.

use crate::text::text_eq;
use vstd::prelude::*;

verus! {

/// A value that is what its deep view says it is.
pub trait Model: DeepView + Sized {
    fn duplicate(&self) -> (copy: Self)
        ensures
            copy.deep_view() == self.deep_view(),
    ;

    fn same(&self, other: &Self) -> (equal: bool)
        ensures
            equal == (self.deep_view() == other.deep_view()),
    ;
}

impl Model for String {
    fn duplicate(&self) -> (copy: Self) {
        self.clone()
    }

    fn same(&self, other: &Self) -> (equal: bool) {
        *self == *other
    }
}

impl Model for bool {
    fn duplicate(&self) -> (copy: Self) {
        *self
    }

    fn same(&self, other: &Self) -> (equal: bool) {
        *self == *other
    }
}

impl Model for u16 {
    fn duplicate(&self) -> (copy: Self) {
        *self
    }

    fn same(&self, other: &Self) -> (equal: bool) {
        *self == *other
    }
}

impl Model for u32 {
    fn duplicate(&self) -> (copy: Self) {
        *self
    }

    fn same(&self, other: &Self) -> (equal: bool) {
        *self == *other
    }
}

impl Model for u64 {
    fn duplicate(&self) -> (copy: Self) {
        *self
    }

    fn same(&self, other: &Self) -> (equal: bool) {
        *self == *other
    }
}

impl Model for i16 {
    fn duplicate(&self) -> (copy: Self) {
        *self
    }

    fn same(&self, other: &Self) -> (equal: bool) {
        *self == *other
    }
}

impl Model for i32 {
    fn duplicate(&self) -> (copy: Self) {
        *self
    }

    fn same(&self, other: &Self) -> (equal: bool) {
        *self == *other
    }
}

impl Model for [u8; 4] {
    fn duplicate(&self) -> (copy: Self) {
        let copy: [u8; 4] = [self[0], self[1], self[2], self[3]];
        assert(copy.deep_view() =~= self.deep_view());
        copy
    }

    fn same(&self, other: &Self) -> (equal: bool) {
        let equal: bool = self[0] == other[0] && self[1] == other[1] && self[2] == other[2] && self[3]
            == other[3];
        proof {
            if equal {
                assert(self.deep_view() =~= other.deep_view());
            } else {
                assert(self.deep_view()[0] == self[0] && other.deep_view()[0] == other[0]);
                assert(self.deep_view()[1] == self[1] && other.deep_view()[1] == other[1]);
                assert(self.deep_view()[2] == self[2] && other.deep_view()[2] == other[2]);
                assert(self.deep_view()[3] == self[3] && other.deep_view()[3] == other[3]);
            }
        }
        equal
    }
}

impl<T: Model> Model for Option<T> {
    fn duplicate(&self) -> (copy: Self) {
        match self {
            Some(value) => Some(value.duplicate()),
            None => None,
        }
    }

    fn same(&self, other: &Self) -> (equal: bool) {
        match (self, other) {
            (Some(left), Some(right)) => left.same(right),
            (None, None) => true,
            _ => false,
        }
    }
}

impl<T: Model> Model for Vec<T> {
    fn duplicate(&self) -> (copy: Self) {
        let mut copy: Vec<T> = Vec::new();
        let mut index: usize = 0;
        while index < self.len()
            invariant
                index <= self.len(),
                copy.len() == index,
                forall|i: int| 0 <= i < index ==> copy[i].deep_view() == self[i].deep_view(),
            decreases self.len() - index,
        {
            copy.push(self[index].duplicate());
            index += 1;
        }
        assert(copy.deep_view() =~= self.deep_view());
        copy
    }

    fn same(&self, other: &Self) -> (equal: bool) {
        if self.len() != other.len() {
            assert(self.deep_view().len() != other.deep_view().len());
            return false;
        }
        let mut index: usize = 0;
        while index < self.len()
            invariant
                index <= self.len(),
                self.len() == other.len(),
                forall|i: int| 0 <= i < index ==> self[i].deep_view() == other[i].deep_view(),
            decreases self.len() - index,
        {
            if !self[index].same(&other[index]) {
                assert(self.deep_view()[index as int] != other.deep_view()[index as int]);
                return false;
            }
            index += 1;
        }
        assert(self.deep_view() =~= other.deep_view());
        true
    }
}

/// Items that a name picks out.
pub trait Named: DeepView {
    spec fn name_of(model: Self::V) -> Seq<char>;

    fn name(&self) -> (name: &String)
        ensures
            name@ == Self::name_of(self.deep_view()),
    ;
}

/// The names of some items, in their order.
pub open spec fn names<T: Named>(items: Seq<T::V>) -> Seq<Seq<char>> {
    Seq::new(items.len(), |i: int| T::name_of(items[i]))
}

/// The first place from `index` on that holds an item of the name.
pub open spec fn place_from<T: Named>(items: Seq<T::V>, name: Seq<char>, index: int) -> Option<int>
    decreases items.len() - index,
{
    if index < 0 || index >= items.len() {
        None
    } else if T::name_of(items[index]) == name {
        Some(index)
    } else {
        place_from::<T>(items, name, index + 1)
    }
}

/// The first place that holds an item of the name.
pub open spec fn place_of<T: Named>(items: Seq<T::V>, name: Seq<char>) -> Option<int> {
    place_from::<T>(items, name, 0)
}

/// Whether an item of the name is there.
pub open spec fn holds<T: Named>(items: Seq<T::V>, name: Seq<char>) -> bool {
    place_of::<T>(items, name) is Some
}

/// The first item of the name.
pub open spec fn find<T: Named>(items: Seq<T::V>, name: Seq<char>) -> Option<T::V> {
    match place_of::<T>(items, name) {
        Some(place) => Some(items[place]),
        None => None,
    }
}

/// The last item of the name among the first ones.
pub open spec fn last_named_to<T: Named>(items: Seq<T::V>, name: Seq<char>, count: int) -> Option<T::V>
    decreases count,
{
    if count <= 0 {
        None
    } else if T::name_of(items[count - 1]) == name {
        Some(items[count - 1])
    } else {
        last_named_to::<T>(items, name, count - 1)
    }
}

/// The last item of the name.
pub open spec fn find_last<T: Named>(items: Seq<T::V>, name: Seq<char>) -> Option<T::V> {
    last_named_to::<T>(items, name, items.len() as int)
}

/// What the first place of a name is.
pub proof fn lemma_place_from<T: Named>(items: Seq<T::V>, name: Seq<char>, index: int)
    requires
        0 <= index <= items.len(),
    ensures
        match place_from::<T>(items, name, index) {
            Some(place) => {
                &&& index <= place < items.len()
                &&& T::name_of(items[place]) == name
                &&& forall|i: int| index <= i < place ==> T::name_of(#[trigger] items[i]) != name
            },
            None => forall|i: int| index <= i < items.len() ==> T::name_of(#[trigger] items[i]) != name,
        },
    decreases items.len() - index,
{
    if index < items.len() && T::name_of(items[index]) != name {
        lemma_place_from::<T>(items, name, index + 1);
    }
}

/// The names of some items.
pub fn collect_names<T: Named>(items: &Vec<T>) -> (result: Vec<String>)
    ensures
        result.deep_view() == names::<T>(items.deep_view()),
{
    let mut result: Vec<String> = Vec::new();
    let mut index: usize = 0;
    while index < items.len()
        invariant
            index <= items.len(),
            result.len() == index,
            forall|i: int| 0 <= i < index ==> result[i]@ == T::name_of(#[trigger] items[i].deep_view()),
        decreases items.len() - index,
    {
        result.push(items[index].name().clone());
        index += 1;
    }
    assert(result.deep_view() =~= names::<T>(items.deep_view()));
    result
}

/// The first place that holds an item of the name.
pub fn find_place<T: Named>(items: &Vec<T>, name: &str) -> (result: Option<usize>)
    ensures
        match result {
            Some(place) => place < items.len() && place_of::<T>(items.deep_view(), name@) == Some(
                place as int,
            ),
            None => place_of::<T>(items.deep_view(), name@) is None,
        },
{
    let mut index: usize = 0;
    while index < items.len()
        invariant
            index <= items.len(),
            place_of::<T>(items.deep_view(), name@) == place_from::<T>(
                items.deep_view(),
                name@,
                index as int,
            ),
        decreases items.len() - index,
    {
        if text_eq(items[index].name().as_str(), name) {
            return Some(index);
        }
        index += 1;
    }
    None
}

/// Whether an item of the name is there.
pub fn has_name<T: Named>(items: &Vec<T>, name: &str) -> (result: bool)
    ensures
        result == holds::<T>(items.deep_view(), name@),
{
    find_place(items, name).is_some()
}

/// The first item of the name.
pub fn find_named<'a, T: Named>(items: &'a Vec<T>, name: &str) -> (result: Option<&'a T>)
    ensures
        match result {
            Some(item) => find::<T>(items.deep_view(), name@) == Some(item.deep_view()),
            None => find::<T>(items.deep_view(), name@) is None,
        },
{
    match find_place(items, name) {
        Some(place) => Some(&items[place]),
        None => None,
    }
}

/// The last item of the name.
pub fn find_last_named<'a, T: Named>(items: &'a Vec<T>, name: &str) -> (result: Option<&'a T>)
    ensures
        match result {
            Some(item) => find_last::<T>(items.deep_view(), name@) == Some(item.deep_view()),
            None => find_last::<T>(items.deep_view(), name@) is None,
        },
{
    let ghost model = items.deep_view();
    let mut count: usize = items.len();
    while count > 0
        invariant
            count <= items.len(),
            model == items.deep_view(),
            find_last::<T>(model, name@) == last_named_to::<T>(model, name@, count as int),
        decreases count,
    {
        assert(model[count - 1] == items[count - 1].deep_view());
        if text_eq(items[count - 1].name().as_str(), name) {
            return Some(&items[count - 1]);
        }
        count -= 1;
    }
    None
}

/// Items with one more: it takes the place of the first of its name, or comes last.
pub open spec fn put<T: Named>(items: Seq<T::V>, item: T::V) -> Seq<T::V> {
    match place_of::<T>(items, T::name_of(item)) {
        Some(place) => items.update(place, item),
        None => items.push(item),
    }
}

/// Items with the one at a place replaced.
pub fn replace_at<T: Model>(items: &Vec<T>, place: usize, item: T) -> (result: Vec<T>)
    requires
        place < items.len(),
    ensures
        result.deep_view() == items.deep_view().update(place as int, item.deep_view()),
{
    let ghost model = items.deep_view();
    let ghost view = item.deep_view();
    let mut result: Vec<T> = items.duplicate();
    assert(result.deep_view().len() == result.len());
    let ghost before = result.deep_view();
    result.set(place, item);
    assert(result.deep_view() =~= before.update(place as int, view));
    result
}

/// Items with one more at the end.
pub fn with_last<T: Model>(items: &Vec<T>, item: T) -> (result: Vec<T>)
    ensures
        result.deep_view() == items.deep_view().push(item.deep_view()),
{
    let ghost view = item.deep_view();
    let mut result: Vec<T> = items.duplicate();
    let ghost before = result.deep_view();
    result.push(item);
    assert(result.deep_view() =~= before.push(view));
    result
}

/// Items with one more: it takes the place of the first of its name, or comes last.
pub fn put_named<T: Named + Model>(items: &Vec<T>, item: T) -> (result: Vec<T>)
    ensures
        result.deep_view() == put::<T>(items.deep_view(), item.deep_view()),
{
    match find_place(items, item.name().as_str()) {
        Some(place) => replace_at(items, place, item),
        None => with_last(items, item),
    }
}

/// The items from a place on that are kept.
pub open spec fn kept_from<V>(items: Seq<V>, keep: spec_fn(V) -> bool, index: int) -> Seq<V>
    decreases items.len() - index,
{
    if index < 0 || index >= items.len() {
        Seq::empty()
    } else if keep(items[index]) {
        seq![items[index]] + kept_from(items, keep, index + 1)
    } else {
        kept_from(items, keep, index + 1)
    }
}

/// The items that are kept.
pub open spec fn kept<V>(items: Seq<V>, keep: spec_fn(V) -> bool) -> Seq<V> {
    kept_from(items, keep, 0)
}

/// An item that is to be kept is among those that are.
pub proof fn what_is_kept_stays<V>(items: Seq<V>, keep: spec_fn(V) -> bool, from: int, index: int)
    requires
        0 <= from <= index < items.len(),
        keep(items[index]),
    ensures
        kept_from(items, keep, from).contains(items[index]),
    decreases index - from,
{
    let all = kept_from(items, keep, from);
    let rest = kept_from(items, keep, from + 1);
    if from == index {
        assert(all == seq![items[index]] + rest);
        assert(all[0] == items[index]);
    } else {
        what_is_kept_stays(items, keep, from + 1, index);
        let place = choose|place: int| 0 <= place < rest.len() && rest[place] == items[index];
        if keep(items[from]) {
            assert(all == seq![items[from]] + rest);
            assert(all[place + 1] == rest[place]);
        }
    }
}

/// Where every item is to be kept, all are.
pub proof fn all_are_kept<V>(items: Seq<V>, keep: spec_fn(V) -> bool, index: int)
    requires
        0 <= index <= items.len(),
        forall|i: int| 0 <= i < items.len() ==> keep(#[trigger] items[i]),
    ensures
        kept_from(items, keep, index) == items.skip(index),
    decreases items.len() - index,
{
    if index < items.len() {
        all_are_kept(items, keep, index + 1);
        assert(items.skip(index) =~= seq![items[index]] + items.skip(index + 1));
    } else {
        assert(items.skip(index) =~= Seq::empty());
    }
}

/// A last item that is not to be kept leaves the others as they are.
pub proof fn a_last_item_may_go<V>(items: Seq<V>, item: V, keep: spec_fn(V) -> bool, index: int)
    requires
        0 <= index <= items.len(),
        !keep(item),
    ensures
        kept_from(items.push(item), keep, index) == kept_from(items, keep, index),
    decreases items.len() - index,
{
    if index < items.len() {
        a_last_item_may_go(items, item, keep, index + 1);
    } else {
        assert(kept_from(items.push(item), keep, index + 1) =~= Seq::empty());
    }
}

/// Taking out what is not to be kept first changes nothing.
pub proof fn what_goes_may_go_first<V>(items: Seq<V>, first: spec_fn(V) -> bool, keep: spec_fn(V) -> bool, index: int)
    requires
        0 <= index,
        forall|i: int| 0 <= i < items.len() && keep(#[trigger] items[i]) ==> first(items[i]),
    ensures
        kept(kept_from(items, first, index), keep) == kept_from(items, keep, index),
    decreases items.len() - index,
{
    if index < items.len() {
        what_goes_may_go_first(items, first, keep, index + 1);
        let own = items[index];
        let rest = kept_from(items, first, index + 1);
        if first(own) {
            lemma_kept_with_first(own, rest, keep, 0);
        }
    } else {
        assert(kept(Seq::<V>::empty(), keep) =~= Seq::empty());
    }
}

proof fn lemma_kept_with_first<V>(own: V, rest: Seq<V>, keep: spec_fn(V) -> bool, index: int)
    requires
        0 <= index <= rest.len(),
    ensures
        kept_from(seq![own] + rest, keep, index + 1) == kept_from(rest, keep, index),
        index == 0 ==> kept(seq![own] + rest, keep) == if keep(own) {
            seq![own] + kept(rest, keep)
        } else {
            kept(rest, keep)
        },
    decreases rest.len() - index,
{
    let all = seq![own] + rest;
    if index < rest.len() {
        lemma_kept_with_first(own, rest, keep, index + 1);
        assert(all[index + 1] == rest[index]);
    }
    assert(kept_from(all, keep, index + 1) == kept_from(rest, keep, index));
    if index == 0 {
        assert(all[0] == own && all.len() > 0);
        assert(kept_from(all, keep, 0) == if keep(all[0]) {
            seq![all[0]] + kept_from(all, keep, 1)
        } else {
            kept_from(all, keep, 1)
        });
    }
}

/// What keeps every item of another name.
pub open spec fn other_than<T: Named>(name: Seq<char>) -> spec_fn(T::V) -> bool {
    |item: T::V| T::name_of(item) != name
}

/// The items of other names.
pub fn remove_named<T: Named + Model>(items: &Vec<T>, name: &str) -> (result: Vec<T>)
    ensures
        result.deep_view() == kept(items.deep_view(), other_than::<T>(name@)),
{
    let ghost model = items.deep_view();
    let ghost keep = other_than::<T>(name@);
    let mut result: Vec<T> = Vec::new();
    let mut index: usize = 0;
    assert(result.deep_view() + kept(model, keep) =~= kept(model, keep));
    while index < items.len()
        invariant
            index <= items.len(),
            model == items.deep_view(),
            keep == other_than::<T>(name@),
            result.deep_view() + kept_from(model, keep, index as int) == kept(model, keep),
        decreases items.len() - index,
    {
        let ghost own = model[index as int];
        assert(own == items[index as int].deep_view());
        if !text_eq(items[index].name().as_str(), name) {
            let ghost before = result.deep_view();
            let ghost rest = kept_from(model, keep, index + 1);
            result.push(items[index].duplicate());
            assert(result.deep_view() =~= before.push(own));
            assert(result.deep_view() + rest =~= before + (seq![own] + rest));
        }
        index += 1;
    }
    assert(result.deep_view() =~= kept(model, keep));
    result
}

/// What is found by a name is there and bears it, and stands before all others that do; nothing is found only
/// where nothing bears it.
pub proof fn what_is_found_bears_the_name<T: Named>(items: Seq<T::V>, name: Seq<char>)
    ensures
        match place_of::<T>(items, name) {
            Some(place) => {
                &&& 0 <= place < items.len()
                &&& T::name_of(items[place]) == name
                &&& find::<T>(items, name) == Some(items[place])
                &&& holds::<T>(items, name)
                &&& forall|i: int| 0 <= i < place ==> T::name_of(#[trigger] items[i]) != name
            },
            None => {
                &&& find::<T>(items, name) is None
                &&& !holds::<T>(items, name)
                &&& forall|i: int| 0 <= i < items.len() ==> T::name_of(#[trigger] items[i]) != name
            },
        },
{
    lemma_place_from::<T>(items, name, 0);
}

/// What is found last by a name is there and bears it, and no other behind it does.
pub proof fn what_is_found_last_bears_the_name<T: Named>(items: Seq<T::V>, name: Seq<char>) -> (place: int)
    ensures
        match find_last::<T>(items, name) {
            Some(item) => {
                &&& 0 <= place < items.len()
                &&& items[place] == item
                &&& T::name_of(item) == name
                &&& forall|i: int| place < i < items.len() ==> T::name_of(#[trigger] items[i]) != name
            },
            None => forall|i: int| 0 <= i < items.len() ==> T::name_of(#[trigger] items[i]) != name,
        },
{
    lemma_last_named::<T>(items, name, items.len() as int)
}

proof fn lemma_last_named<T: Named>(items: Seq<T::V>, name: Seq<char>, count: int) -> (place: int)
    requires
        0 <= count <= items.len(),
    ensures
        match last_named_to::<T>(items, name, count) {
            Some(item) => {
                &&& 0 <= place < count
                &&& items[place] == item
                &&& T::name_of(item) == name
                &&& forall|i: int| place < i < count ==> T::name_of(#[trigger] items[i]) != name
            },
            None => forall|i: int| 0 <= i < count ==> T::name_of(#[trigger] items[i]) != name,
        },
    decreases count,
{
    if count > 0 && T::name_of(items[count - 1]) != name {
        lemma_last_named::<T>(items, name, count - 1)
    } else {
        count - 1
    }
}

/// An item that was put is found by its name, every other item stands where it stood, and at most one more is
/// there than before.
pub proof fn what_is_put_is_found<T: Named>(items: Seq<T::V>, item: T::V)
    ensures
        ({
            let after = put::<T>(items, item);
            &&& find::<T>(after, T::name_of(item)) == Some(item)
            &&& after.len() == items.len() + if holds::<T>(items, T::name_of(item)) { 0int } else { 1 }
            &&& forall|i: int|
                0 <= i < items.len() && T::name_of(#[trigger] items[i]) != T::name_of(item) ==> after[i] == items[i]
            &&& forall|name: Seq<char>|
                name != T::name_of(item) ==> #[trigger] find::<T>(after, name) == find::<T>(items, name)
        }),
{
    let after = put::<T>(items, item);
    let own = T::name_of(item);
    what_is_found_bears_the_name::<T>(items, own);
    what_is_found_bears_the_name::<T>(after, own);
    assert forall|name: Seq<char>| name != own implies #[trigger] find::<T>(after, name) == find::<T>(items, name) by {
        what_is_found_bears_the_name::<T>(items, name);
        what_is_found_bears_the_name::<T>(after, name);
        match place_of::<T>(items, name) {
            Some(place) => {
                assert(after[place] == items[place]);
            },
            None => {},
        }
        match place_of::<T>(after, name) {
            Some(place) => {
                assert(place < items.len());
                assert(T::name_of(items[place]) == name);
            },
            None => {},
        }
    }
    match place_of::<T>(items, own) {
        Some(place) => {
            assert(after[place] == item);
            assert forall|i: int| 0 <= i < place implies T::name_of(#[trigger] after[i]) != own by {
                assert(after[i] == items[i]);
            }
        },
        None => {
            assert(after[items.len() as int] == item);
            assert forall|i: int| 0 <= i < items.len() implies T::name_of(#[trigger] after[i]) != own by {
                assert(after[i] == items[i]);
            }
        },
    }
}

/// What is kept is each item that is to be kept, once, in the order in which they stood, and nothing else.
pub proof fn what_is_kept_keeps_its_order<V>(items: Seq<V>, keep: spec_fn(V) -> bool) -> (places: Seq<int>)
    ensures
        places.len() == kept(items, keep).len(),
        forall|k: int|
            0 <= k < places.len() ==> 0 <= #[trigger] places[k] < items.len() && keep(items[places[k]]) && kept(
                items,
                keep,
            )[k] == items[places[k]],
        forall|j: int, k: int| 0 <= j < k < places.len() ==> places[j] < places[k],
        forall|i: int| 0 <= i < items.len() && keep(#[trigger] items[i]) ==> places.contains(i),
{
    lemma_kept_places(items, keep, 0)
}

proof fn lemma_kept_places<V>(items: Seq<V>, keep: spec_fn(V) -> bool, index: int) -> (places: Seq<int>)
    requires
        0 <= index <= items.len(),
    ensures
        places.len() == kept_from(items, keep, index).len(),
        forall|k: int|
            0 <= k < places.len() ==> index <= #[trigger] places[k] < items.len() && keep(items[places[k]])
                && kept_from(items, keep, index)[k] == items[places[k]],
        forall|j: int, k: int| 0 <= j < k < places.len() ==> places[j] < places[k],
        forall|i: int| index <= i < items.len() && keep(#[trigger] items[i]) ==> places.contains(i),
    decreases items.len() - index,
{
    if index == items.len() {
        Seq::empty()
    } else {
        let rest = lemma_kept_places(items, keep, index + 1);
        if keep(items[index]) {
            let places = seq![index] + rest;
            assert forall|i: int| index <= i < items.len() && keep(#[trigger] items[i]) implies places.contains(i) by {
                if i == index {
                    assert(places[0] == i);
                } else {
                    let k = choose|k: int| 0 <= k < rest.len() && rest[k] == i;
                    assert(places[k + 1] == i);
                }
            }
            places
        } else {
            rest
        }
    }
}

} // verus!
