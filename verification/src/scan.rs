//! The order in which the open batches are examined, as a mathematical function.
//!
//! [`BatchesState::next_event`](crate::batches::BatchesState::next_event) walks through
//! the open batches and stops at the first that has something to offer. [`scan`] says
//! which batch that is and which batches leave the collection on the way; the lemmas
//! say what follows for the batches that stay.

use crate::batch::BatchView;
use crate::batches::{entries_wf, EntryView};
use vstd::prelude::*;

verus! {

/// What examining the open batches, one after the other, comes to.
#[verifier::ext_equal]
pub enum Scan<T> {
    /// No batch has anything to hand out. `entries` are the batches that stay open.
    Idle { entries: Seq<EntryView<T>> },
    /// The batch at `position` of `entries` hands out its next call.
    Advance { entries: Seq<EntryView<T>>, position: int },
    /// The batch `retired` is complete and has a response; `entries` are the batches
    /// that stay open.
    Respond { entries: Seq<EntryView<T>>, retired: EntryView<T> },
}

/// `entries` without the one at `position`: the last entry takes its place.
pub open spec fn swap_removed<T>(entries: Seq<EntryView<T>>, position: int) -> Seq<EntryView<T>>
    recommends
        0 <= position < entries.len(),
{
    entries.update(position, entries.last()).drop_last()
}

/// `entries` with the batch at `position` in state `batch` and with user value
/// `user_param`.
pub open spec fn entries_with<T>(
    entries: Seq<EntryView<T>>,
    position: int,
    batch: BatchView,
    user_param: T,
) -> Seq<EntryView<T>>
    recommends
        0 <= position < entries.len(),
{
    entries.update(position, EntryView { ticket: entries[position].ticket, batch, user_param })
}

/// Examines the batches of `entries` from `position` on, in order.
///
/// The first batch that has a call to hand out, or that is complete and has a response,
/// ends the scan. A batch that is complete and has no response leaves the collection
/// on the way, and the last batch takes its place.
pub open spec fn scan<T>(entries: Seq<EntryView<T>>, position: int) -> Scan<T>
    decreases entries.len() - position,
{
    if position < 0 || position >= entries.len() {
        Scan::Idle { entries }
    } else if entries[position].batch.pending.len() > 0 {
        Scan::Advance { entries, position }
    } else if entries[position].batch.is_ready() {
        if entries[position].batch.response() is Some {
            Scan::Respond { entries: swap_removed(entries, position), retired: entries[position] }
        } else {
            scan(swap_removed(entries, position), position)
        }
    } else {
        scan(entries, position + 1)
    }
}

/// The batches that a scan leaves in the collection.
pub open spec fn scan_entries<T>(outcome: Scan<T>) -> Seq<EntryView<T>> {
    match outcome {
        Scan::Idle { entries } => entries,
        Scan::Advance { entries, .. } => entries,
        Scan::Respond { entries, .. } => entries,
    }
}

/// A batch that waits: every call has been handed out and some request is unanswered.
pub open spec fn is_waiting(batch: BatchView) -> bool {
    batch.pending.len() == 0 && !batch.is_ready()
}

/// `entry` is one of `entries`.
pub open spec fn holds<T>(entries: Seq<EntryView<T>>, entry: EntryView<T>) -> bool {
    exists|p: int| 0 <= p < entries.len() && #[trigger] entries[p] == entry
}

/// Taking a batch out neither invents a batch nor loses another one.
proof fn lemma_swap_removed_holds<T>(entries: Seq<EntryView<T>>, position: int, entry: EntryView<T>)
    requires
        0 <= position < entries.len(),
    ensures
        holds(swap_removed(entries, position), entry) ==> holds(entries, entry),
        holds(entries, entry) ==> entry == entries[position] || holds(
            swap_removed(entries, position),
            entry,
        ),
{
    let shorter = swap_removed(entries, position);
    if holds(shorter, entry) {
        let q = choose|q: int| 0 <= q < shorter.len() && #[trigger] shorter[q] == entry;
        if q == position {
            assert(entries[entries.len() - 1] == entry);
        } else {
            assert(entries[q] == entry);
        }
    }
    if holds(entries, entry) && entry != entries[position] {
        let p = choose|p: int| 0 <= p < entries.len() && #[trigger] entries[p] == entry;
        if p == entries.len() - 1 {
            assert(shorter[position] == entry);
        } else {
            assert(shorter[p] == entry);
        }
    }
}

/// A batch that a scan from `position` on leaves in the collection was there before.
proof fn lemma_scan_subset<T>(entries: Seq<EntryView<T>>, position: int, entry: EntryView<T>)
    requires
        0 <= position <= entries.len(),
        holds(scan_entries(scan(entries, position)), entry),
    ensures
        holds(entries, entry),
    decreases entries.len() - position,
{
    if position >= entries.len() {
    } else if entries[position].batch.pending.len() > 0 {
    } else if entries[position].batch.is_ready() {
        let shorter = swap_removed(entries, position);
        if entries[position].batch.response() is None {
            lemma_scan_subset(shorter, position, entry);
        }
        lemma_swap_removed_holds(entries, position, entry);
    } else {
        lemma_scan_subset(entries, position + 1, entry);
    }
}

/// A batch that a scan from `position` on takes out of the collection is complete.
proof fn lemma_scan_departed<T>(entries: Seq<EntryView<T>>, position: int, entry: EntryView<T>)
    requires
        0 <= position <= entries.len(),
        holds(entries, entry),
    ensures
        entry.batch.is_ready() || holds(scan_entries(scan(entries, position)), entry),
    decreases entries.len() - position,
{
    if position >= entries.len() {
    } else if entries[position].batch.pending.len() > 0 {
    } else if entries[position].batch.is_ready() {
        let shorter = swap_removed(entries, position);
        lemma_swap_removed_holds(entries, position, entry);
        if entries[position].batch.response() is None && entry != entries[position] {
            lemma_scan_departed(shorter, position, entry);
        }
    } else {
        lemma_scan_departed(entries, position + 1, entry);
    }
}

/// A scan from `position` on leaves the batches before `position` alone, passes only
/// batches that wait, and stops at a batch that has what the outcome says.
proof fn lemma_scan_passes_waiting<T>(entries: Seq<EntryView<T>>, position: int)
    requires
        0 <= position <= entries.len(),
    ensures
        position <= scan_entries(scan(entries, position)).len() <= entries.len(),
        forall|q: int|
            0 <= q < position ==> (#[trigger] scan_entries(scan(entries, position))[q])
                == entries[q],
        scan(entries, position) matches Scan::Idle { entries: rest } ==> forall|q: int|
            position <= q < rest.len() ==> is_waiting((#[trigger] rest[q]).batch),
        scan(entries, position) matches Scan::Advance { entries: rest, position: found } ==> {
            &&& position <= found < rest.len()
            &&& rest[found].batch.pending.len() > 0
            &&& forall|q: int| position <= q < found ==> is_waiting((#[trigger] rest[q]).batch)
        },
        scan(entries, position) matches Scan::Respond { retired, .. } ==> {
            &&& retired.batch.is_ready()
            &&& retired.batch.response() is Some
            &&& holds(entries, retired)
        },
    decreases entries.len() - position,
{
    if position >= entries.len() {
    } else if entries[position].batch.pending.len() > 0 {
    } else if entries[position].batch.is_ready() {
        let shorter = swap_removed(entries, position);
        if entries[position].batch.response() is None {
            lemma_scan_passes_waiting(shorter, position);
            if scan(entries, position) is Respond {
                lemma_swap_removed_holds(entries, position, scan(entries, position)->retired);
            }
        } else {
            assert(entries[position] == scan(entries, position)->retired);
        }
    } else {
        lemma_scan_passes_waiting(entries, position + 1);
    }
}

/// When the collection has nothing to hand out, every batch that stays open waits for
/// an answer: none has a call left to hand out and none is complete.
pub proof fn lemma_idle_means_waiting<T>(entries: Seq<EntryView<T>>)
    requires
        scan(entries, 0) is Idle,
    ensures
        forall|q: int|
            0 <= q < scan_entries(scan(entries, 0)).len() ==> is_waiting(
                (#[trigger] scan_entries(scan(entries, 0))[q]).batch,
            ),
{
    lemma_scan_passes_waiting(entries, 0);
}

/// The batch that hands out a call is the first, in the order of the scan, that has
/// one: every batch before it waits for an answer.
pub proof fn lemma_advance_is_first<T>(entries: Seq<EntryView<T>>)
    requires
        scan(entries, 0) is Advance,
    ensures
        0 <= scan(entries, 0)->position < scan_entries(scan(entries, 0)).len(),
        scan_entries(scan(entries, 0))[scan(entries, 0)->position].batch.pending.len() > 0,
        forall|q: int|
            0 <= q < scan(entries, 0)->position ==> is_waiting(
                (#[trigger] scan_entries(scan(entries, 0))[q]).batch,
            ),
{
    lemma_scan_passes_waiting(entries, 0);
}

/// The batch whose response is sent was open, is complete, and holds a request.
pub proof fn lemma_respond_is_complete<T>(entries: Seq<EntryView<T>>)
    requires
        scan(entries, 0) is Respond,
    ensures
        holds(entries, scan(entries, 0)->retired),
        scan(entries, 0)->retired.batch.is_ready(),
        scan(entries, 0)->retired.batch.response() is Some,
{
    lemma_scan_passes_waiting(entries, 0);
}

/// A scan invents no batch and changes none: every batch that it leaves in the
/// collection was there before, in the same state, and a batch leaves the collection
/// only when it is complete.
pub proof fn lemma_scan_keeps_batches<T>(entries: Seq<EntryView<T>>, entry: EntryView<T>)
    ensures
        holds(scan_entries(scan(entries, 0)), entry) ==> holds(entries, entry),
        holds(entries, entry) ==> entry.batch.is_ready() || holds(
            scan_entries(scan(entries, 0)),
            entry,
        ),
{
    if holds(scan_entries(scan(entries, 0)), entry) {
        lemma_scan_subset(entries, 0, entry);
    }
    if holds(entries, entry) {
        lemma_scan_departed(entries, 0, entry);
    }
}

/// Taking a batch out leaves the tickets of the others distinct.
proof fn lemma_swap_removed_keeps_wf<T>(entries: Seq<EntryView<T>>, position: int)
    requires
        entries_wf(entries),
        0 <= position < entries.len(),
    ensures
        entries_wf(swap_removed(entries, position)),
{
    let shorter = swap_removed(entries, position);
    assert forall|p: int, q: int| 0 <= p < q < shorter.len() implies (#[trigger] shorter[p]).ticket
        != (#[trigger] shorter[q]).ticket by {
        let from_p = if p == position { entries.len() - 1 } else { p };
        let from_q = if q == position { entries.len() - 1 } else { q };
        assert(shorter[p] == entries[from_p]);
        assert(shorter[q] == entries[from_q]);
        if from_p < from_q {
            assert(entries[from_p].ticket != entries[from_q].ticket);
        } else {
            assert(entries[from_q].ticket != entries[from_p].ticket);
        }
    }
    assert forall|p: int| 0 <= p < shorter.len() implies (#[trigger] shorter[p]).batch.wf() by {
        let from_p = if p == position { entries.len() - 1 } else { p };
        assert(shorter[p] == entries[from_p]);
    }
}

/// Examining the batches leaves the tickets of the open batches distinct, and every
/// batch well formed.
pub proof fn lemma_scan_keeps_wf<T>(entries: Seq<EntryView<T>>, position: int)
    requires
        entries_wf(entries),
        0 <= position,
    ensures
        entries_wf(scan_entries(scan(entries, position))),
    decreases entries.len() - position,
{
    if position >= entries.len() {
    } else if entries[position].batch.pending.len() > 0 {
    } else if entries[position].batch.is_ready() {
        lemma_swap_removed_keeps_wf(entries, position);
        if entries[position].batch.response() is None {
            lemma_scan_keeps_wf(swap_removed(entries, position), position);
        }
    } else {
        lemma_scan_keeps_wf(entries, position + 1);
    }
}

} // verus!
