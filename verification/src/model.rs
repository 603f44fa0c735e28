//! Values that have a mathematical model.

use vstd::prelude::*;

use crate::names::TypeName;
use crate::text::{option_view, same_text, views};
use crate::types::Ty;

verus! {

broadcast use crate::text::group_views;

/// A value that can be copied and compared by its model.
pub trait Modelled: View + Sized {
    /// A value with the same model.
    fn duplicate(&self) -> (copy: Self)
        ensures
            copy@ == self@,
    ;

    /// Whether two values have the same model.
    fn same(&self, other: &Self) -> (same: bool)
        ensures
            same == (self@ == other@),
    ;
}

impl Modelled for String {
    fn duplicate(&self) -> (copy: Self) {
        self.clone()
    }

    fn same(&self, other: &Self) -> (same: bool) {
        same_text(self.as_str(), other.as_str())
    }
}

impl Modelled for TypeName {
    fn duplicate(&self) -> (copy: Self) {
        self.clone()
    }

    fn same(&self, other: &Self) -> (same: bool) {
        *self == *other
    }
}

impl Modelled for Ty {
    fn duplicate(&self) -> (copy: Self) {
        self.clone()
    }

    fn same(&self, other: &Self) -> (same: bool) {
        *self == *other
    }
}

impl Modelled for (String, Ty) {
    fn duplicate(&self) -> (copy: Self) {
        (self.0.clone(), self.1.clone())
    }

    fn same(&self, other: &Self) -> (same: bool) {
        same_text(self.0.as_str(), other.0.as_str()) && self.1 == other.1
    }
}

/// Copy a list.
pub fn copy_all<T: Modelled>(items: &Vec<T>) -> (out: Vec<T>)
    ensures
        views(out@) == views(items@),
{
    let mut out: Vec<T> = Vec::new();
    let mut index: usize = 0;
    while index < items.len()
        invariant
            index <= items@.len(),
            out@.len() == index,
            forall|k: int| 0 <= k < index ==> out@[k]@ == items@[k]@,
        decreases items@.len() - index,
    {
        out.push(items[index].duplicate());
        index += 1;
    }
    assert(views(out@) =~= views(items@));
    out
}

/// Copy an optional value.
pub fn copy_optional<T: Modelled>(item: &Option<T>) -> (out: Option<T>)
    ensures
        option_view(out) == option_view(*item),
{
    match item {
        Some(inner) => Some(inner.duplicate()),
        None => None,
    }
}

/// Compare two lists.
pub fn same_all<T: Modelled>(left: &Vec<T>, right: &Vec<T>) -> (same: bool)
    ensures
        same == (views(left@) == views(right@)),
{
    if left.len() != right.len() {
        assert(views(left@).len() != views(right@).len());
        return false;
    }
    let mut index: usize = 0;
    while index < left.len()
        invariant
            index <= left@.len(),
            left@.len() == right@.len(),
            forall|k: int| 0 <= k < index ==> left@[k]@ == right@[k]@,
        decreases left@.len() - index,
    {
        if !left[index].same(&right[index]) {
            assert(views(left@)[index as int] != views(right@)[index as int]);
            return false;
        }
        index += 1;
    }
    assert(views(left@) =~= views(right@));
    true
}

/// Compare two optional values.
pub fn same_optional<T: Modelled>(left: &Option<T>, right: &Option<T>) -> (same: bool)
    ensures
        same == (option_view(*left) == option_view(*right)),
{
    match (left, right) {
        (Some(a), Some(b)) => a.same(b),
        (None, None) => true,
        _ => false,
    }
}

/// Whether a list holds a value with the same model.
pub fn holds<T: Modelled>(items: &Vec<T>, wanted: &T) -> (found: bool)
    ensures
        found == views(items@).contains(wanted@),
{
    let mut index: usize = 0;
    while index < items.len()
        invariant
            index <= items@.len(),
            forall|k: int| 0 <= k < index ==> items@[k]@ != wanted@,
        decreases items@.len() - index,
    {
        if items[index].same(wanted) {
            assert(views(items@)[index as int] == wanted@);
            return true;
        }
        index += 1;
    }
    false
}

/// The models of the lists in a list.
pub open spec fn deep_views<T: View>(items: Seq<Vec<T>>) -> Seq<Seq<T::V>> {
    Seq::new(items.len(), |i: int| views(items[i]@))
}

/// Copy a list of lists.
pub fn copy_lists<T: Modelled>(items: &Vec<Vec<T>>) -> (out: Vec<Vec<T>>)
    ensures
        deep_views(out@) == deep_views(items@),
{
    let mut out: Vec<Vec<T>> = Vec::new();
    let mut index: usize = 0;
    while index < items.len()
        invariant
            index <= items@.len(),
            out@.len() == index,
            forall|k: int| 0 <= k < index ==> views(out@[k]@) == views(items@[k]@),
        decreases items@.len() - index,
    {
        out.push(copy_all(&items[index]));
        index += 1;
    }
    assert(deep_views(out@) =~= deep_views(items@));
    out
}

/// Compare two lists of lists.
pub fn same_lists<T: Modelled>(left: &Vec<Vec<T>>, right: &Vec<Vec<T>>) -> (same: bool)
    ensures
        same == (deep_views(left@) == deep_views(right@)),
{
    if left.len() != right.len() {
        assert(deep_views(left@).len() != deep_views(right@).len());
        return false;
    }
    let mut index: usize = 0;
    while index < left.len()
        invariant
            index <= left@.len(),
            left@.len() == right@.len(),
            forall|k: int| 0 <= k < index ==> views(left@[k]@) == views(right@[k]@),
        decreases left@.len() - index,
    {
        if !same_all(&left[index], &right[index]) {
            assert(deep_views(left@)[index as int] != deep_views(right@)[index as int]);
            return false;
        }
        index += 1;
    }
    assert(deep_views(left@) =~= deep_views(right@));
    true
}

/// Copy a list of plain values.
pub fn copy_plain<T: Copy>(items: &Vec<T>) -> (out: Vec<T>)
    ensures
        out@ == items@,
{
    let mut out: Vec<T> = Vec::new();
    let mut index: usize = 0;
    while index < items.len()
        invariant
            index <= items@.len(),
            out@ == items@.take(index as int),
        decreases items@.len() - index,
    {
        out.push(items[index]);
        assert(items@.take(index as int + 1) =~= items@.take(index as int).push(items@[index as int]));
        index += 1;
    }
    assert(items@.take(index as int) =~= items@);
    out
}

/// Compare two lists of flags.
pub fn same_flags(left: &Vec<bool>, right: &Vec<bool>) -> (same: bool)
    ensures
        same == (left@ == right@),
{
    if left.len() != right.len() {
        return false;
    }
    let mut index: usize = 0;
    while index < left.len()
        invariant
            index <= left@.len(),
            left@.len() == right@.len(),
            forall|k: int| 0 <= k < index ==> left@[k] == right@[k],
        decreases left@.len() - index,
    {
        if left[index] != right[index] {
            return false;
        }
        index += 1;
    }
    assert(left@ =~= right@);
    true
}

/// The first place at which `wanted` stands.
pub open spec fn first_place<T>(items: Seq<T>, wanted: T) -> Option<nat>
    decreases items.len(),
{
    if items.len() == 0 {
        None
    } else {
        match first_place(items.drop_last(), wanted) {
            Some(place) => Some(place),
            None => if items.last() == wanted {
                Some((items.len() - 1) as nat)
            } else {
                None
            },
        }
    }
}

/// A place found among the first items stays the first place.
pub proof fn lemma_first_place_stays<T>(items: Seq<T>, seen: int, wanted: T)
    requires
        0 <= seen <= items.len(),
        first_place(items.take(seen), wanted) is Some,
    ensures
        first_place(items, wanted) == first_place(items.take(seen), wanted),
    decreases items.len() - seen,
{
    if seen < items.len() {
        assert(items.take(seen + 1).drop_last() =~= items.take(seen));
        lemma_first_place_stays(items, seen + 1, wanted);
    } else {
        assert(items.take(seen) =~= items);
    }
}

/// The first place holds what was looked for, and no earlier one does.
pub proof fn lemma_first_place<T>(items: Seq<T>, wanted: T)
    ensures
        match first_place(items, wanted) {
            Some(place) => place < items.len() && items[place as int] == wanted && forall|k: int|
                0 <= k < place ==> items[k] != wanted,
            None => !items.contains(wanted),
        },
    decreases items.len(),
{
    if items.len() > 0 {
        lemma_first_place(items.drop_last(), wanted);
        assert forall|k: int| 0 <= k < items.len() - 1 implies items[k] == items.drop_last()[k] by {}
    }
}

/// The first place at which `wanted` stands.
pub fn position<T: Modelled>(items: &[T], wanted: &T) -> (found: Option<usize>)
    ensures
        match found {
            Some(place) => first_place(views(items@), wanted@) == Some(place as nat) && place
                < items@.len(),
            None => first_place(views(items@), wanted@) is None,
        },
{
    let mut index: usize = 0;
    while index < items.len()
        invariant
            index <= items@.len(),
            first_place(views(items@).take(index as int), wanted@) is None,
        decreases items@.len() - index,
    {
        assert(views(items@).take(index as int + 1).drop_last() =~= views(items@).take(
            index as int,
        ));
        if items[index].same(wanted) {
            proof {
                lemma_first_place_stays(views(items@), index as int + 1, wanted@);
            }
            return Some(index);
        }
        index += 1;
    }
    assert(views(items@).take(index as int) =~= views(items@));
    None
}

/// The first place at which the number `wanted` stands.
pub fn position_of(items: &[usize], wanted: usize) -> (found: Option<usize>)
    ensures
        match found {
            Some(place) => first_place(items@, wanted) == Some(place as nat) && place < items@.len(),
            None => first_place(items@, wanted) is None,
        },
{
    let mut index: usize = 0;
    while index < items.len()
        invariant
            index <= items@.len(),
            first_place(items@.take(index as int), wanted) is None,
        decreases items@.len() - index,
    {
        assert(items@.take(index as int + 1).drop_last() =~= items@.take(index as int));
        if items[index] == wanted {
            proof {
                lemma_first_place_stays(items@, index as int + 1, wanted);
            }
            return Some(index);
        }
        index += 1;
    }
    assert(items@.take(index as int) =~= items@);
    None
}

} // verus!
