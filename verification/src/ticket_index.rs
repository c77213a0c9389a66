//! The table that finds an open batch by its ticket.
//!
//! The table is a `hashbrown::HashMap` with the FNV hasher. Verus does not look inside
//! it: this module names what the table holds and states, without proof, what each
//! method that the engine calls does to it.

use vstd::prelude::*;

verus! {

/// Trusted declaration of `hashbrown::HashMap`. Its contents are spoken of only
/// through [`index_entries`].
#[verifier::external_type_specification]
#[verifier::external_body]
#[verifier::reject_recursive_types(K)]
#[verifier::reject_recursive_types(V)]
#[verifier::reject_recursive_types(S)]
pub struct ExHashMap<K, V, S>(hashbrown::HashMap<K, V, S>);

/// Trusted declaration of `fnv::FnvHasher`, which only occurs as a type argument.
#[verifier::external_type_specification]
#[verifier::external_body]
pub struct ExFnvHasher(fnv::FnvHasher);

/// Trusted declaration of `core::hash::BuildHasherDefault`, which only occurs as a type
/// argument.
#[verifier::external_type_specification]
#[verifier::external_body]
#[verifier::reject_recursive_types(H)]
pub struct ExBuildHasherDefault<H>(core::hash::BuildHasherDefault<H>);

/// Table from the ticket of an open batch to the position where the batch is stored.
pub type TicketIndex = hashbrown::HashMap<u64, usize, fnv::FnvBuildHasher>;

/// The entries of a table: each key with the value stored under it.
pub uninterp spec fn index_entries(index: TicketIndex) -> Map<u64, usize>;

/// Largest capacity that [`index_with_capacity`] is asked for.
pub const INDEX_MAX_CAPACITY: usize = 0x1_0000;

/// Calls `hashbrown::HashMap::with_capacity_and_hasher` with the default FNV hasher.
///
/// Trusted: the new table holds no entry. The capacity is bounded because the call
/// panics when the size of the allocation overflows `usize`.
#[verifier::external_body]
pub(crate) fn index_with_capacity(capacity: usize) -> (index: TicketIndex)
    requires
        capacity <= INDEX_MAX_CAPACITY,
    ensures
        index_entries(index) == (Map::<u64, usize>::empty()),
{
    hashbrown::HashMap::with_capacity_and_hasher(capacity, Default::default())
}

/// Calls `hashbrown::HashMap::get`.
///
/// Trusted: the result is the value stored under `ticket`, or `None` when the table has
/// no such key.
#[verifier::external_body]
pub(crate) fn index_get(index: &TicketIndex, ticket: u64) -> (position: Option<usize>)
    ensures
        position == (if index_entries(*index).dom().contains(ticket) {
            Some(index_entries(*index)[ticket])
        } else {
            None
        }),
{
    index.get(&ticket).copied()
}

/// Calls `hashbrown::HashMap::insert`.
///
/// Trusted: afterwards `ticket` maps to `position` and every other key is as before;
/// the result is the value that was stored under `ticket`, if there was one. Like
/// `Vec::push`, the call fails only when memory runs out.
#[verifier::external_body]
pub(crate) fn index_insert(index: &mut TicketIndex, ticket: u64, position: usize) -> (previous:
    Option<usize>)
    ensures
        index_entries(*final(index)) == index_entries(*old(index)).insert(ticket, position),
        previous == (if index_entries(*old(index)).dom().contains(ticket) {
            Some(index_entries(*old(index))[ticket])
        } else {
            None
        }),
{
    index.insert(ticket, position)
}

/// Calls `hashbrown::HashMap::remove`.
///
/// Trusted: afterwards `ticket` is no key of the table and every other key is as
/// before; the result is the value that was stored under `ticket`, if there was one.
#[verifier::external_body]
pub(crate) fn index_remove(index: &mut TicketIndex, ticket: u64) -> (previous: Option<usize>)
    ensures
        index_entries(*final(index)) == index_entries(*old(index)).remove(ticket),
        previous == (if index_entries(*old(index)).dom().contains(ticket) {
            Some(index_entries(*old(index))[ticket])
        } else {
            None
        }),
{
    index.remove(&ticket)
}

/// Calls `hashbrown::HashMap::shrink_to_fit`.
///
/// Trusted: the table gives up spare capacity and holds the same entries as before.
/// Like `Vec::push`, the call fails only when memory runs out.
#[verifier::external_body]
pub(crate) fn index_shrink_to_fit(index: &mut TicketIndex)
    ensures
        index_entries(*final(index)) == index_entries(*old(index)),
{
    index.shrink_to_fit()
}

} // verus!
