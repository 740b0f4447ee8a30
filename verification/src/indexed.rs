//! The `indexmap` collections that steps and workspace searches use:
//! their declarations, a name for what a set holds, and the methods that
//! the verified code calls, each with what the crate's source shows of it.
use vstd::prelude::*;
use indexmap::{IndexMap, IndexSet};
use crate::path::{RelPath, string_views};
use crate::path_set::paths_view;

verus! {

#[verifier::external_type_specification]
#[verifier::external_body]
#[verifier::reject_recursive_types(T)]
#[verifier::reject_recursive_types(S)]
pub struct ExIndexSet<T, S>(IndexSet<T, S>);

#[verifier::external_type_specification]
#[verifier::external_body]
#[verifier::reject_recursive_types(K)]
#[verifier::reject_recursive_types(V)]
#[verifier::reject_recursive_types(S)]
pub struct ExIndexMap<K, V, S>(IndexMap<K, V, S>);

/// The strings an `IndexSet<String>` holds, in insertion order.
pub uninterp spec fn string_set_items(s: IndexSet<String>) -> Seq<Seq<char>>;

/// The paths an `IndexSet<RelPath>` holds, in insertion order.
pub uninterp spec fn path_set_items(s: IndexSet<RelPath>) -> Seq<Seq<Seq<char>>>;

/// Whether a value is not among `items`.
pub open spec fn outside_of(items: Seq<Seq<char>>) -> spec_fn(Seq<char>) -> bool {
    |x: Seq<char>| !items.contains(x)
}

/// Whether a value is among `items`.
pub open spec fn inside_of(items: Seq<Seq<char>>) -> spec_fn(Seq<char>) -> bool {
    |x: Seq<char>| items.contains(x)
}

/// `IndexSet::new`: a set that holds nothing.
#[verifier::external_body]
pub(crate) fn new_string_set() -> (res: IndexSet<String>)
    ensures
        string_set_items(res) == Seq::<Seq<char>>::empty(),
{
    IndexSet::new()
}

/// `IndexSet::new`: a set that holds nothing.
#[verifier::external_body]
pub(crate) fn new_path_set() -> (res: IndexSet<RelPath>)
    ensures
        path_set_items(res) == Seq::<Seq<Seq<char>>>::empty(),
{
    IndexSet::new()
}

/// `IndexSet::insert`: a value already held leaves the set as it was and
/// gives `false`; a new one goes to the end and gives `true`.
#[verifier::external_body]
pub(crate) fn insert_string(set: &mut IndexSet<String>, value: String) -> (res: bool)
    ensures
        res == !string_set_items(*old(set)).contains(value@),
        string_set_items(*final(set)) == (if res {
            string_set_items(*old(set)).push(value@)
        } else {
            string_set_items(*old(set))
        }),
{
    set.insert(value)
}

/// `IndexSet::insert`: a path already held leaves the set as it was and
/// gives `false`; a new one goes to the end and gives `true`.
#[verifier::external_body]
pub(crate) fn insert_path(set: &mut IndexSet<RelPath>, value: RelPath) -> (res: bool)
    ensures
        res == !path_set_items(*old(set)).contains(value@),
        path_set_items(*final(set)) == (if res {
            path_set_items(*old(set)).push(value@)
        } else {
            path_set_items(*old(set))
        }),
{
    set.insert(value)
}

/// `IndexSet::reverse`: the same paths, in the opposite order.
#[verifier::external_body]
pub(crate) fn reverse_path_set(set: &mut IndexSet<RelPath>)
    ensures
        path_set_items(*final(set)) == path_set_items(*old(set)).reverse(),
{
    set.reverse()
}

/// `IndexSet::difference`, collected: the values of `a` that `b` does not
/// hold, in `a`'s order.
#[verifier::external_body]
pub(crate) fn string_set_difference(a: &IndexSet<String>, b: &IndexSet<String>) -> (res: Vec<String>)
    ensures
        string_views(res@) == string_set_items(*a).filter(outside_of(string_set_items(*b))),
{
    a.difference(b).cloned().collect()
}

/// `IndexSet::intersection`, collected: the values of `a` that `b` also
/// holds, in `a`'s order.
#[verifier::external_body]
pub(crate) fn string_set_intersection(a: &IndexSet<String>, b: &IndexSet<String>) -> (res: Vec<String>)
    ensures
        string_views(res@) == string_set_items(*a).filter(inside_of(string_set_items(*b))),
{
    a.intersection(b).cloned().collect()
}

} // verus!
