//! Request identifiers stay valid.
//!
//! A [`BatchesElemId`] is carried away while its request is executed elsewhere, and
//! comes back with the answer after any number of other operations on the collection.
//! The lemmas of this module say that none of these operations loses the request or
//! touches it: as long as the request is unanswered, its identifier finds it, and
//! finds it unchanged.

use crate::batch::{BatchView, RequestSlot};
use crate::batches::{BatchesElemId, BatchesView, EntryView};
use crate::common::{Error, JsonValue, Request};
use crate::scan::{holds, lemma_scan_keeps_batches, lemma_scan_keeps_wf, scan, scan_entries};
use vstd::prelude::*;

verus! {

impl<T> BatchesView<T> {
    /// The request that `id` names, with the place for its answer.
    pub open spec fn slot(self, id: BatchesElemId) -> RequestSlot
        recommends
            self.is_live(id.outer),
    {
        self.entries[self.position_of(id.outer)].batch.slots[id.inner as int]
    }

    /// The collection with `entries` in place of its own.
    pub open spec fn with_entries(self, entries: Seq<EntryView<T>>) -> BatchesView<T> {
        BatchesView { entries, ..self }
    }

    /// A request that is unanswered where batch `entry` is open is unanswered in every
    /// well-formed collection that holds `entry`, and is the same request there.
    proof fn lemma_found_in(self, other: BatchesView<T>, id: BatchesElemId)
        requires
            self.wf(),
            other.wf(),
            self.is_unanswered(id),
            holds(other.entries, self.entries[self.position_of(id.outer)]),
        ensures
            other.is_unanswered(id),
            other.slot(id) == self.slot(id),
    {
        let entry = self.entries[self.position_of(id.outer)];
        let p = choose|p: int| 0 <= p < other.entries.len() && #[trigger] other.entries[p] == entry;
        other.lemma_position_of(p);
    }

    /// A new batch leaves every unanswered request where it is.
    pub proof fn lemma_inject_keeps_requests(
        self,
        ticket: u64,
        request: Request,
        user_param: T,
        id: BatchesElemId,
    )
        requires
            self.wf(),
            !self.is_live(ticket),
            self.is_unanswered(id),
        ensures
            self.injected(ticket, request, user_param).is_unanswered(id),
            self.injected(ticket, request, user_param).slot(id) == self.slot(id),
    {
        let after = self.injected(ticket, request, user_param);
        self.lemma_inject_keeps_tickets_distinct(ticket, request, user_param);
        let p = self.position_of(id.outer);
        assert(after.entries[p] == self.entries[p]);
        self.lemma_found_in(after, id);
    }

    /// The batches that leave the collection while it is examined take no unanswered
    /// request with them: a batch with an unanswered request stays, and its requests
    /// are found under the same identifiers although the batch may have moved.
    pub proof fn lemma_scan_keeps_requests(self, id: BatchesElemId)
        requires
            self.wf(),
            self.is_unanswered(id),
        ensures
            self.with_entries(scan_entries(scan(self.entries, 0))).wf(),
            self.with_entries(scan_entries(scan(self.entries, 0))).is_unanswered(id),
            self.with_entries(scan_entries(scan(self.entries, 0))).slot(id) == self.slot(id),
    {
        let after = self.with_entries(scan_entries(scan(self.entries, 0)));
        lemma_scan_keeps_wf(self.entries, 0);
        let entry = self.entries[self.position_of(id.outer)];
        assert(holds(self.entries, entry));
        lemma_scan_keeps_batches(self.entries, entry);
        assert(!entry.batch.is_ready());
        self.lemma_found_in(after, id);
    }

    /// Handing out the next call of the batch at `position` leaves every unanswered
    /// request where it is, whatever the holder of the handle does to the user value
    /// and, when the call is a request, to the slot of that request.
    pub proof fn lemma_advance_keeps_requests(
        self,
        position: int,
        slot: RequestSlot,
        user_param: T,
        id: BatchesElemId,
    )
        requires
            self.wf(),
            0 <= position < self.entries.len(),
            self.entries[position].batch.pending.len() > 0,
            self.is_unanswered(id),
        ensures
            self.with_entry(
                position,
                self.entries[position].batch.after_notification(),
                user_param,
            ).is_unanswered(id),
            self.with_entry(
                position,
                self.entries[position].batch.after_notification(),
                user_param,
            ).slot(id) == self.slot(id),
            self.with_entry(
                position,
                self.entries[position].batch.after_request(slot),
                user_param,
            ).is_unanswered(id),
            self.with_entry(
                position,
                self.entries[position].batch.after_request(slot),
                user_param,
            ).slot(id) == self.slot(id),
    {
        let batch = self.entries[position].batch;
        self.lemma_replace_keeps_requests(position, batch.after_notification(), user_param, id);
        self.lemma_replace_keeps_requests(position, batch.after_request(slot), user_param, id);
    }

    /// Answering a request leaves every other unanswered request where it is.
    pub proof fn lemma_answer_keeps_requests(
        self,
        answered: BatchesElemId,
        response: Result<JsonValue, Error>,
        id: BatchesElemId,
    )
        requires
            self.wf(),
            self.is_unanswered(answered),
            self.is_unanswered(id),
            id != answered,
        ensures
            self.answered(answered, response).is_unanswered(id),
            self.answered(answered, response).slot(id) == self.slot(id),
    {
        let position = self.position_of(answered.outer);
        let batch = self.entries[position].batch;
        self.lemma_replace_keeps_requests(
            position,
            batch.answered(answered.inner as int, response),
            self.entries[position].user_param,
            id,
        );
    }

    /// A batch that changes keeps the requests that it leaves alone.
    proof fn lemma_replace_keeps_requests(
        self,
        position: int,
        batch: BatchView,
        user_param: T,
        id: BatchesElemId,
    )
        requires
            self.wf(),
            0 <= position < self.entries.len(),
            self.is_unanswered(id),
            self.entries[position].ticket == id.outer ==> id.inner < batch.slots.len()
                && batch.slots[id.inner as int] == self.entries[position].batch.slots[id.inner as int],
        ensures
            self.with_entry(position, batch, user_param).is_unanswered(id),
            self.with_entry(position, batch, user_param).slot(id) == self.slot(id),
    {
        let after = self.with_entry(position, batch, user_param);
        let found = self.position_of(id.outer);
        self.lemma_position_of(position);
        assert(after.entries[found].ticket == id.outer);
        assert forall|p: int, q: int| 0 <= p < q < after.entries.len() implies (
        #[trigger] after.entries[p]).ticket != (#[trigger] after.entries[q]).ticket by {
            assert(after.entries[p].ticket == self.entries[p].ticket);
            assert(after.entries[q].ticket == self.entries[q].ticket);
        }
        assert(after.is_live(id.outer));
        let there = after.position_of(id.outer);
        if there < found {
            assert(after.entries[there].ticket != after.entries[found].ticket);
        } else if found < there {
            assert(after.entries[found].ticket != after.entries[there].ticket);
        }
    }
}

} // verus!
