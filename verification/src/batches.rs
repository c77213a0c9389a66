//! Collection of the client messages that are being processed.
//!
//! Every message that the server receives becomes a batch, even when it holds a single
//! call. [`BatchesState`] keeps the open batches, hands their calls out as events, takes
//! the answers to their requests, and emits the response of a batch once all of its
//! requests have been answered.
//!
//! # Usage
//!
//! - Create an empty collection with [`BatchesState::new`].
//! - Whenever a message arrives, pass it to [`BatchesState::inject`].
//! - Call [`BatchesState::next_event`] until it returns `None`.
//! - Answer a request through the handle that came with its event, or later through
//!   [`BatchesState::request_by_id`] or [`BatchesState::answer`] with the identifier
//!   taken from the handle.

use crate::batch::{AnswerError, BatchElem, BatchInc, BatchState, BatchView, RequestSlot};
use crate::common::{Call, Error, Id, JsonValue, Params, Request, Response};
use crate::notification::Notification;
use crate::scan::{entries_with, scan, swap_removed, Scan};
use crate::ticket_index::{
    index_entries, index_get, index_insert, index_remove, index_shrink_to_fit,
    index_with_capacity, TicketIndex,
};
use vstd::prelude::*;

verus! {

/// Capacity that the table of tickets starts with.
pub const BATCHES_MIN_CAPACITY: usize = 256;

/// Number of tickets after which the table of tickets gives up its spare capacity.
pub const SHRINK_INTERVAL: u64 = 256;

/// Number of distinct tickets.
pub open spec fn ticket_range() -> int {
    u64::MAX + 1
}

/// One open batch.
#[derive(Debug)]
struct BatchEntry<T> {
    /// Ticket of the batch.
    ticket: u64,
    /// State of the batch.
    batch: BatchState,
    /// Value that the user attached to the batch.
    user_param: T,
}

/// Collection of the client messages that are being processed.
#[derive(Debug)]
pub struct BatchesState<T> {
    /// Ticket that the next batch gets, unless it is in use.
    next_batch_id: u64,
    /// Position in `entries` of each open batch, by ticket.
    ///
    /// Tickets are never sent to a client and never leave this module except inside a
    /// [`BatchesElemId`].
    index: TicketIndex,
    /// The open batches.
    entries: Vec<BatchEntry<T>>,
}

/// Mathematical model of one open batch.
#[verifier::ext_equal]
pub struct EntryView<T> {
    /// Ticket of the batch.
    pub ticket: u64,
    /// State of the batch.
    pub batch: BatchView,
    /// Value that the user attached to the batch.
    pub user_param: T,
}

/// Mathematical model of a [`BatchesState`].
#[verifier::ext_equal]
pub struct BatchesView<T> {
    /// Ticket that the next batch gets, unless it is in use.
    pub next_batch_id: u64,
    /// The open batches, in the order in which they are examined.
    pub entries: Seq<EntryView<T>>,
}

/// Identifier of a request within a [`BatchesState`].
///
/// It stays valid, whatever happens to other batches and requests, until the request is
/// answered.
#[derive(Debug, Copy, Clone, PartialEq, Eq, Structural)]
pub struct BatchesElemId {
    /// Ticket of the batch that holds the request.
    pub outer: u64,
    /// Position of the request among the requests of its batch.
    pub inner: usize,
}

/// Exclusive access to one unanswered request and to the user value of its batch.
///
/// The fields are public so that contracts can speak of the request and the user value
/// before and after the borrow; in programs, use the methods.
#[derive(Debug)]
pub struct BatchesElem<'a, T> {
    /// Ticket of the batch that holds the request.
    pub batch_id: u64,
    /// Access to the request within its batch.
    pub inner: BatchElem<'a>,
    /// Value that the user attached to the batch.
    pub user_param: &'a mut T,
}

/// Event generated by [`BatchesState::next_event`].
#[derive(Debug)]
pub enum BatchesEvent<'a, T> {
    /// A notification has been taken out of a batch.
    Notification {
        /// The notification.
        notification: Notification,
        /// Value that the user attached to the batch.
        user_param: &'a mut T,
    },
    /// A request has been taken out of a batch and waits for its answer.
    Request(BatchesElem<'a, T>),
    /// All requests of a batch have been answered; the batch has left the collection.
    ReadyToSend {
        /// Response to send to the client.
        response: Response,
        /// Value that the user attached to the batch.
        user_param: T,
    },
}

/// What one batch has to offer when it is examined.
enum Step {
    /// Nothing: the batch waits for answers.
    Nothing,
    /// Every call has been handed out and every request has been answered.
    ReadyToRespond,
    /// A notification, which has been taken out of the batch.
    Notification(Notification),
    /// The request with this position among the requests of the batch.
    Request(usize),
}

/// The ticket that lies `steps` places after `start`, going round after the largest.
pub open spec fn ticket_after(start: u64, steps: int) -> u64
    recommends
        0 <= steps < ticket_range(),
{
    if start + steps < ticket_range() {
        (start + steps) as u64
    } else {
        (start + steps - ticket_range()) as u64
    }
}

/// The number of places from `start` forward to `ticket`, going round after the largest.
pub open spec fn ticket_distance(start: u64, ticket: u64) -> int {
    if ticket >= start {
        ticket - start
    } else {
        ticket - start + ticket_range()
    }
}

/// No two of `entries` have the same ticket, and every batch is well formed.
pub open spec fn entries_wf<T>(entries: Seq<EntryView<T>>) -> bool {
    &&& forall|p: int, q: int|
        0 <= p < q < entries.len() ==> (#[trigger] entries[p]).ticket != (#[trigger] entries[q]).ticket
    &&& forall|p: int| 0 <= p < entries.len() ==> (#[trigger] entries[p]).batch.wf()
}

impl<T> BatchesView<T> {
    /// Some open batch has this ticket.
    pub open spec fn is_live(self, ticket: u64) -> bool {
        exists|p: int| 0 <= p < self.entries.len() && (#[trigger] self.entries[p]).ticket == ticket
    }

    /// Position of the open batch with this ticket.
    pub open spec fn position_of(self, ticket: u64) -> int
        recommends
            self.is_live(ticket),
    {
        choose|p: int| 0 <= p < self.entries.len() && (#[trigger] self.entries[p]).ticket == ticket
    }

    /// No two open batches have the same ticket, and every batch is well formed.
    pub open spec fn wf(self) -> bool {
        entries_wf(self.entries)
    }

    /// `ticket` is the first ticket, from `next_batch_id` on and going round after the
    /// largest, that no open batch has.
    pub open spec fn is_first_free(self, ticket: u64) -> bool {
        &&& !self.is_live(ticket)
        &&& forall|steps: int|
            0 <= steps < ticket_distance(self.next_batch_id, ticket) ==> self.is_live(
                #[trigger] ticket_after(self.next_batch_id, steps),
            )
    }

    /// The ticket that the next batch gets.
    pub open spec fn first_free(self) -> u64 {
        choose|ticket: u64| self.is_first_free(ticket)
    }

    /// At most one ticket is the first free one.
    pub proof fn lemma_first_free_unique(self, a: u64, b: u64)
        requires
            self.is_first_free(a),
            self.is_first_free(b),
        ensures
            a == b,
    {
        let start = self.next_batch_id;
        let da = ticket_distance(start, a);
        let db = ticket_distance(start, b);
        assert(ticket_after(start, da) == a);
        assert(ticket_after(start, db) == b);
        if da < db {
            assert(self.is_live(ticket_after(start, da)));
        } else if db < da {
            assert(self.is_live(ticket_after(start, db)));
        }
    }

    /// The collection after a message has become the batch `ticket`.
    pub open spec fn injected(self, ticket: u64, request: Request, user_param: T) -> BatchesView<T> {
        BatchesView {
            next_batch_id: ticket_after(ticket, 1),
            entries: self.entries.push(
                EntryView { ticket, batch: BatchView::of_request(request), user_param },
            ),
        }
    }

    /// `id` names a request that has been handed out and not been answered, in a batch
    /// that is open.
    pub open spec fn is_unanswered(self, id: BatchesElemId) -> bool {
        &&& self.is_live(id.outer)
        &&& self.entries[self.position_of(id.outer)].batch.is_unanswered(id.inner as int)
    }

    /// The collection in which the batch at `position` is in state `batch` and its user
    /// value is `user_param`.
    pub open spec fn with_entry(self, position: int, batch: BatchView, user_param: T) -> BatchesView<
        T,
    > {
        BatchesView { entries: entries_with(self.entries, position, batch, user_param), ..self }
    }

    /// The collection after the request `id` has been answered with `response`.
    pub open spec fn answered(self, id: BatchesElemId, response: Result<JsonValue, Error>) -> BatchesView<
        T,
    > {
        let position = self.position_of(id.outer);
        self.with_entry(
            position,
            self.entries[position].batch.answered(id.inner as int, response),
            self.entries[position].user_param,
        )
    }
}

impl<T> BatchesView<T> {
    /// In a well-formed collection a ticket finds its batch: the batch at `position` is
    /// the only one with its ticket.
    pub proof fn lemma_position_of(self, position: int)
        requires
            self.wf(),
            0 <= position < self.entries.len(),
        ensures
            self.is_live(self.entries[position].ticket),
            self.position_of(self.entries[position].ticket) == position,
    {
        let ticket = self.entries[position].ticket;
        assert(self.is_live(ticket));
        let found = self.position_of(ticket);
        if found < position {
            assert(self.entries[found].ticket != self.entries[position].ticket);
        } else if position < found {
            assert(self.entries[position].ticket != self.entries[found].ticket);
        }
    }

    /// A ticket is never shared: a batch that gets a ticket that no open batch has
    /// leaves the tickets of the open batches distinct, and changes no other batch.
    pub proof fn lemma_inject_keeps_tickets_distinct(
        self,
        ticket: u64,
        request: Request,
        user_param: T,
    )
        requires
            self.wf(),
            !self.is_live(ticket),
        ensures
            self.injected(ticket, request, user_param).wf(),
            self.injected(ticket, request, user_param).is_live(ticket),
            forall|other: u64|
                other != ticket ==> (self.injected(ticket, request, user_param).is_live(other)
                    <==> self.is_live(other)),
            forall|p: int|
                0 <= p < self.entries.len() ==> self.injected(
                    ticket,
                    request,
                    user_param,
                ).entries[p] == self.entries[p],
    {
        let after = self.injected(ticket, request, user_param);
        assert(after.entries[self.entries.len() as int].ticket == ticket);
        assert forall|p: int, q: int| 0 <= p < q < after.entries.len() implies (
        #[trigger] after.entries[p]).ticket != (#[trigger] after.entries[q]).ticket by {
            assert(after.entries[p] == self.entries[p]);
            if q < self.entries.len() {
                assert(after.entries[q] == self.entries[q]);
            }
        }
        assert forall|other: u64| other != ticket implies (after.is_live(other) <==> self.is_live(
            other,
        )) by {
            if after.is_live(other) {
                let p = after.position_of(other);
                assert(self.entries[p].ticket == other);
            }
            if self.is_live(other) {
                let p = self.position_of(other);
                assert(after.entries[p].ticket == other);
            }
        }
    }

    /// An answer is given once: after the request `id` has been answered it is no
    /// longer unanswered, so that answering it again is refused, and the answer that was
    /// given stays. Every other request, answered or not, is as it was.
    pub proof fn lemma_answer_is_final(self, id: BatchesElemId, response: Result<JsonValue, Error>)
        requires
            self.wf(),
            self.is_unanswered(id),
        ensures
            self.answered(id, response).wf(),
            !self.answered(id, response).is_unanswered(id),
            self.answered(id, response).is_live(id.outer),
            self.answered(id, response).position_of(id.outer) == self.position_of(id.outer),
            self.answered(id, response).entries[self.position_of(id.outer)].batch.slots[id.inner as int].answer
                == Some(response),
            forall|other: BatchesElemId|
                other != id ==> (self.answered(id, response).is_unanswered(other)
                    <==> self.is_unanswered(other)),
    {
        let after = self.answered(id, response);
        let position = self.position_of(id.outer);
        assert(after.entries[position].ticket == id.outer);
        assert forall|p: int, q: int| 0 <= p < q < after.entries.len() implies (
        #[trigger] after.entries[p]).ticket != (#[trigger] after.entries[q]).ticket by {
            assert(after.entries[p].ticket == self.entries[p].ticket);
            assert(after.entries[q].ticket == self.entries[q].ticket);
        }
        assert forall|p: int| 0 <= p < after.entries.len() implies (
        #[trigger] after.entries[p]).batch.wf() by {
            assert(self.entries[p].batch.wf());
        }
        assert forall|ticket: u64| after.is_live(ticket) <==> self.is_live(ticket) by {
            if after.is_live(ticket) {
                let p = after.position_of(ticket);
                assert(self.entries[p].ticket == ticket);
            }
            if self.is_live(ticket) {
                let p = self.position_of(ticket);
                assert(after.entries[p].ticket == ticket);
            }
        }
        assert forall|ticket: u64| self.is_live(ticket) implies after.position_of(ticket)
            == self.position_of(ticket) by {
            let p = self.position_of(ticket);
            assert(after.entries[p].ticket == ticket);
            after.lemma_position_of(p);
        }
        assert forall|other: BatchesElemId| other != id implies (after.is_unanswered(other)
            <==> self.is_unanswered(other)) by {
            if self.is_live(other.outer) {
                let p = self.position_of(other.outer);
                if p == position {
                    assert(other.outer == id.outer);
                    assert(other.inner != id.inner);
                }
            }
        }
    }
}

/// Borrows the user value of every batch of `slice`, in order.
fn collect_user_params<'a, T>(slice: &'a mut [BatchEntry<T>]) -> (params: Vec<&'a mut T>)
    ensures
        params@.len() == old(slice)@.len(),
        final(slice)@.len() == old(slice)@.len(),
        forall|p: int|
            0 <= p < params@.len() ==> *(#[trigger] params@[p]) == old(slice)@[p].user_param,
        forall|p: int|
            0 <= p < params@.len() ==> {
                &&& (#[trigger] final(slice)@[p]).ticket == old(slice)@[p].ticket
                &&& final(slice)@[p].batch == old(slice)@[p].batch
                &&& final(slice)@[p].user_param == *final(params@[p])
            },
{
    let ghost total = slice@.len();
    let ghost eventual = final(slice)@;
    let mut rest: &mut [BatchEntry<T>] = slice;
    let mut params: Vec<&mut T> = Vec::new();
    while rest.len() > 0
        invariant
            total == old(slice)@.len(),
            params@.len() + rest@.len() == total,
            rest@ == old(slice)@.subrange(params@.len() as int, total as int),
            forall|p: int|
                0 <= p < params@.len() ==> *(#[trigger] params@[p]) == old(slice)@[p].user_param,
            eventual.len() == params@.len() + final(rest)@.len(),
            eventual.subrange(params@.len() as int, eventual.len() as int) == final(rest)@,
            forall|p: int|
                0 <= p < params@.len() ==> {
                    &&& (#[trigger] eventual[p]).ticket == old(slice)@[p].ticket
                    &&& eventual[p].batch == old(slice)@[p].batch
                    &&& eventual[p].user_param == *final(params@[p])
                },
        decreases rest.len(),
    {
        let ghost count = params@.len() as int;
        let ghost earlier = params@;
        let ghost whole_eventual = final(rest)@;
        let whole = rest;
        let (head, tail) = whole.split_at_mut(1);
        let ghost head_now = head@;
        let ghost head_eventual = final(head)@;
        let ghost tail_eventual = final(tail)@;
        assert(whole_eventual == head_eventual + tail_eventual);
        let user_param = &mut head[0].user_param;
        assert(head_eventual.len() == 1);
        assert(head_eventual[0].ticket == head_now[0].ticket);
        assert(head_eventual[0].batch == head_now[0].batch);
        assert(head_eventual[0].user_param == *final(user_param));
        params.push(user_param);
        rest = tail;
        proof {
            assert(eventual.subrange(count, eventual.len() as int) == whole_eventual);
            assert(eventual[count] == whole_eventual[0]);
            assert(whole_eventual.len() == 1 + tail_eventual.len());
            assert forall|i: int| 0 <= i < tail_eventual.len() implies eventual.subrange(
                count + 1,
                eventual.len() as int,
            )[i] == tail_eventual[i] by {
                assert(whole_eventual[i + 1] == tail_eventual[i]);
                assert(eventual.subrange(count, eventual.len() as int)[i + 1] == eventual[count
                    + 1 + i]);
            }
            assert(eventual.subrange(count + 1, eventual.len() as int) =~= tail_eventual);
            assert forall|p: int| 0 <= p < params@.len() implies {
                &&& (#[trigger] eventual[p]).ticket == old(slice)@[p].ticket
                &&& eventual[p].batch == old(slice)@[p].batch
                &&& eventual[p].user_param == *final(params@[p])
            } by {
                if p < count {
                    assert(params@[p] == earlier[p]);
                }
            }
        }
    }
    params
}

impl<T> BatchEntry<T> {
    spec fn view(&self) -> EntryView<T> {
        EntryView { ticket: self.ticket, batch: self.batch@, user_param: self.user_param }
    }
}

impl<T> View for BatchesState<T> {
    type V = BatchesView<T>;

    closed spec fn view(&self) -> BatchesView<T> {
        BatchesView {
            next_batch_id: self.next_batch_id,
            entries: Seq::new(self.entries@.len(), |p: int| self.entries@[p].view()),
        }
    }
}

impl<T> BatchesState<T> {
    /// The table of tickets finds exactly the open batches, each at its position, and
    /// every batch is well formed.
    pub closed spec fn wf(&self) -> bool {
        let index = index_entries(self.index);
        &&& forall|p: int|
            0 <= p < self.entries@.len() ==> {
                &&& index.dom().contains((#[trigger] self.entries@[p]).ticket)
                &&& index[self.entries@[p].ticket] == p
            }
        &&& forall|ticket: u64| #[trigger]
            index.dom().contains(ticket) ==> {
                &&& index[ticket] < self.entries@.len()
                &&& self.entries@[index[ticket] as int].ticket == ticket
            }
        &&& forall|p: int| 0 <= p < self.entries@.len() ==> (#[trigger] self.entries@[p]).batch@.wf()
    }

    /// In a well-formed collection no two open batches have the same ticket.
    pub proof fn lemma_wf_view(&self)
        requires
            self.wf(),
        ensures
            self@.wf(),
    {
        let index = index_entries(self.index);
        assert forall|p: int, q: int| 0 <= p < q < self@.entries.len() implies (
        #[trigger] self@.entries[p]).ticket != (#[trigger] self@.entries[q]).ticket by {
            assert(index[self.entries@[p].ticket] == p);
            assert(index[self.entries@[q].ticket] == q);
        }
    }

    /// The table of tickets has a key exactly for the tickets of the open batches, and
    /// finds each batch at its position.
    proof fn lemma_index_finds(&self, ticket: u64)
        requires
            self.wf(),
        ensures
            self@.is_live(ticket) <==> index_entries(self.index).dom().contains(ticket),
            self@.is_live(ticket) ==> self@.position_of(ticket) == index_entries(self.index)[ticket],
    {
        let index = index_entries(self.index);
        if self@.is_live(ticket) {
            let p = self@.position_of(ticket);
            assert(self.entries@[p].ticket == ticket);
        }
        if index.dom().contains(ticket) {
            assert(self@.entries[index[ticket] as int].ticket == ticket);
        }
    }

    /// The tickets in the table are those of finitely many batches: no more than a
    /// `usize` can count.
    proof fn lemma_index_bounded(&self)
        requires
            self.wf(),
        ensures
            index_entries(self.index).dom().finite(),
            index_entries(self.index).dom().len() <= usize::MAX,
    {
        let tickets = Seq::new(self.entries@.len(), |p: int| self.entries@[p].ticket);
        let live = index_entries(self.index).dom();
        assert forall|ticket: u64| live.contains(ticket) <==> tickets.to_set().contains(
            ticket,
        ) by {
            if live.contains(ticket) {
                let p = index_entries(self.index)[ticket] as int;
                assert(tickets[p] == ticket);
            }
            if tickets.to_set().contains(ticket) {
                let p = choose|p: int| 0 <= p < tickets.len() && tickets[p] == ticket;
                assert(self.entries@[p].ticket == ticket);
            }
        }
        assert(live =~= tickets.to_set());
        vstd::seq_lib::seq_to_set_is_finite(tickets);
        tickets.lemma_cardinality_of_set();
        assert(tickets.len() == self.entries.len());
    }

    /// Creates an empty collection. The first batch gets ticket 0.
    pub fn new() -> (state: BatchesState<T>)
        ensures
            state.wf(),
            state@.next_batch_id == 0,
            state@.entries.len() == 0,
    {
        BatchesState {
            next_batch_id: 0,
            index: index_with_capacity(BATCHES_MIN_CAPACITY),
            entries: Vec::new(),
        }
    }

    /// Adds a message that has just been received. Call
    /// [`next_event`](BatchesState::next_event) afterwards to process it.
    ///
    /// The batch gets the first ticket, from the next one on and going round after the
    /// largest, that no open batch has.
    pub fn inject(&mut self, request: Request, user_param: T)
        requires
            old(self).wf(),
        ensures
            final(self).wf(),
            old(self)@.is_first_free(old(self)@.first_free()),
            final(self)@ == old(self)@.injected(old(self)@.first_free(), request, user_param),
    {
        let batch = BatchState::from_request(request);
        let ghost start = self.next_batch_id;
        let ghost live = index_entries(self.index).dom();
        let ghost mut unprobed = live;
        let ghost mut steps: int = 0;
        proof {
            self.lemma_index_bounded();
        }
        loop
            invariant
                self.wf(),
                self.entries@ == old(self).entries@,
                old(self)@.next_batch_id == start,
                batch@ == BatchView::of_request(request),
                batch@.wf(),
                live == index_entries(self.index).dom(),
                live.len() <= usize::MAX,
                unprobed.finite(),
                0 <= steps,
                steps + unprobed.len() == live.len(),
                self.next_batch_id == ticket_after(start, steps),
                forall|j: int| 0 <= j < steps ==> live.contains(#[trigger] ticket_after(start, j)),
                forall|ticket: u64| #[trigger]
                    unprobed.contains(ticket) <==> live.contains(ticket) && ticket_distance(
                        start,
                        ticket,
                    ) >= steps,
            decreases unprobed.len(),
        {
            let id = self.next_batch_id;
            self.next_batch_id = self.next_batch_id.wrapping_add(1);
            // The table is trimmed from time to time so that a burst of batches does not
            // hold memory for ever.
            if id % SHRINK_INTERVAL == 0 {
                index_shrink_to_fit(&mut self.index);
            }
            assert(ticket_distance(start, id) == steps);
            if index_get(&self.index, id).is_none() {
                let position = self.entries.len();
                let ghost before = *self;
                index_insert(&mut self.index, id, position);
                self.entries.push(BatchEntry { ticket: id, batch, user_param });
                proof {
                    let view = old(self)@;
                    assert(view.entries =~= before@.entries);
                    assert forall|ticket: u64| view.is_live(ticket) <==> live.contains(
                        ticket,
                    ) by {
                        before.lemma_index_finds(ticket);
                    }
                    assert(view.is_first_free(id));
                    view.lemma_first_free_unique(id, view.first_free());
                    assert(self@.entries =~= view.injected(id, request, user_param).entries);
                }
                return;
            }
            proof {
                assert(unprobed.contains(id));
                unprobed = unprobed.remove(id);
                steps = steps + 1;
            }
        }
    }

    /// Takes the batch at `position` out of the collection; the last batch takes its
    /// place.
    fn remove_at(&mut self, position: usize) -> (entry: BatchEntry<T>)
        requires
            old(self).wf(),
            position < old(self).entries@.len(),
        ensures
            final(self).wf(),
            final(self).next_batch_id == old(self).next_batch_id,
            entry == old(self).entries@[position as int],
            final(self)@.entries == swap_removed(old(self)@.entries, position as int),
    {
        let ticket = self.entries[position].ticket;
        index_remove(&mut self.index, ticket);
        let entry = self.entries.swap_remove(position);
        if position < self.entries.len() {
            let moved = self.entries[position].ticket;
            index_insert(&mut self.index, moved, position);
        }
        proof {
            let before = old(self).entries@;
            let last = before.len() - 1;
            assert(index_entries(old(self).index)[before[last].ticket] == last);
            assert(index_entries(old(self).index)[before[position as int].ticket] == position);
            assert(self@.entries =~= swap_removed(old(self)@.entries, position as int));
        }
        entry
    }

    /// Examines the batch at `position`: takes its next call out if there is one, and
    /// else says whether the batch is complete.
    fn step_at(&mut self, position: usize) -> (step: Step)
        requires
            old(self).wf(),
            position < old(self).entries@.len(),
        ensures
            final(self).wf(),
            final(self).next_batch_id == old(self).next_batch_id,
            final(self).entries@.len() == old(self).entries@.len(),
            match step {
                Step::Nothing => {
                    &&& old(self)@.entries[position as int].batch.pending.len() == 0
                    &&& !old(self)@.entries[position as int].batch.is_ready()
                    &&& final(self)@.entries == old(self)@.entries
                },
                Step::ReadyToRespond => {
                    &&& old(self)@.entries[position as int].batch.pending.len() == 0
                    &&& old(self)@.entries[position as int].batch.is_ready()
                    &&& final(self)@.entries == old(self)@.entries
                },
                Step::Notification(notification) => {
                    &&& old(self)@.entries[position as int].batch.pending.len() > 0
                    &&& old(self)@.entries[position as int].batch.pending[0] == Call::Notification(
                        notification.0,
                    )
                    &&& final(self)@.entries == entries_with(
                        old(self)@.entries,
                        position as int,
                        old(self)@.entries[position as int].batch.after_notification(),
                        old(self)@.entries[position as int].user_param,
                    )
                },
                Step::Request(id) => {
                    &&& old(self)@.entries[position as int].batch.pending.len() > 0
                    &&& old(self)@.entries[position as int].batch.pending[0] is MethodCall
                    &&& id == old(self)@.entries[position as int].batch.slots.len()
                    &&& final(self)@.entries == entries_with(
                        old(self)@.entries,
                        position as int,
                        old(self)@.entries[position as int].batch.after_request(
                            RequestSlot {
                                call: old(self)@.entries[position as int].batch.pending[0]->MethodCall_0,
                                answer: None,
                            },
                        ),
                        old(self)@.entries[position as int].user_param,
                    )
                },
            },
    {
        let entry = &mut self.entries[position];
        let ready = entry.batch.is_ready_to_respond();
        let step = match entry.batch.next() {
            None => if ready {
                Step::ReadyToRespond
            } else {
                Step::Nothing
            },
            Some(BatchInc::Notification(notification)) => Step::Notification(notification),
            Some(BatchInc::Request(elem)) => Step::Request(elem.id()),
        };
        proof {
            assert(self@.entries.len() == old(self)@.entries.len());
            match step {
                Step::Nothing => {
                    assert(self@.entries =~= old(self)@.entries);
                },
                Step::ReadyToRespond => {
                    assert(self@.entries =~= old(self)@.entries);
                },
                Step::Notification(_) => {
                    assert(self@.entries =~= entries_with(
                        old(self)@.entries,
                        position as int,
                        old(self)@.entries[position as int].batch.after_notification(),
                        old(self)@.entries[position as int].user_param,
                    ));
                },
                Step::Request(_) => {
                    assert(self@.entries =~= entries_with(
                        old(self)@.entries,
                        position as int,
                        old(self)@.entries[position as int].batch.after_request(
                            RequestSlot {
                                call: old(self)@.entries[position as int].batch.pending[0]->MethodCall_0,
                                answer: None,
                            },
                        ),
                        old(self)@.entries[position as int].user_param,
                    ));
                },
            }
        }
        step
    }

    /// Processes one step of one batch and returns the event that it produces, or `None`
    /// when no batch has anything to hand out.
    ///
    /// The batches are examined as [`scan`] says. A batch that is complete leaves the
    /// collection: with a [`ReadyToSend`](BatchesEvent::ReadyToSend) event when it has a
    /// response, silently when all its calls were notifications or it held no call.
    pub fn next_event(&mut self) -> (event: Option<BatchesEvent<'_, T>>)
        requires
            old(self).wf(),
        ensures
            final(self).wf(),
            final(self)@.next_batch_id == old(self)@.next_batch_id,
            match scan(old(self)@.entries, 0) {
                Scan::Idle { entries } => event is None && final(self)@.entries == entries,
                Scan::Respond { entries, retired } => {
                    &&& event matches Some(BatchesEvent::ReadyToSend { response, user_param })
                    &&& Some(response@) == retired.batch.response()
                    &&& user_param == retired.user_param
                    &&& final(self)@.entries == entries
                },
                Scan::Advance { entries, position } => match entries[position].batch.pending[0] {
                    Call::Notification(expected) => {
                        &&& event matches Some(
                            BatchesEvent::Notification { notification, user_param },
                        )
                        &&& notification.0 == expected
                        &&& *user_param == entries[position].user_param
                        &&& final(self)@.entries == entries_with(
                            entries,
                            position,
                            entries[position].batch.after_notification(),
                            *final(user_param),
                        )
                    },
                    Call::MethodCall(expected) => {
                        &&& event matches Some(BatchesEvent::Request(elem))
                        &&& elem.batch_id == entries[position].ticket
                        &&& elem.inner.index == entries[position].batch.slots.len()
                        &&& elem.inner.slot.call == expected
                        &&& elem.inner.slot.answer is None
                        &&& *elem.user_param == entries[position].user_param
                        &&& final(self)@.entries == entries_with(
                            entries,
                            position,
                            entries[position].batch.after_request(*final(elem.inner.slot)),
                            *final(elem.user_param),
                        )
                    },
                },
            },
    {
        let mut position: usize = 0;
        while position < self.entries.len()
            invariant
                self.wf(),
                self.next_batch_id == old(self).next_batch_id,
                scan(self@.entries, position as int) == scan(old(self)@.entries, 0),
            decreases self.entries.len() - position,
        {
            let ghost before = self@.entries;
            match self.step_at(position) {
                Step::Nothing => {
                    position += 1;
                },
                Step::ReadyToRespond => {
                    let entry = self.remove_at(position);
                    match entry.batch.into_response() {
                        Ok(Some(response)) => {
                            return Some(
                                BatchesEvent::ReadyToSend { response, user_param: entry.user_param },
                            );
                        },
                        _ => {},
                    }
                },
                Step::Notification(notification) => {
                    let ghost taken = self@.entries;
                    let user_param = &mut self.entries[position].user_param;
                    assert(entries_with(
                        before,
                        position as int,
                        before[position as int].batch.after_notification(),
                        *final(user_param),
                    ) =~= entries_with(
                        taken,
                        position as int,
                        taken[position as int].batch,
                        *final(user_param),
                    ));
                    return Some(BatchesEvent::Notification { notification, user_param });
                },
                Step::Request(id) => {
                    let ghost taken = self@.entries;
                    assert(taken[position as int] == self.entries@[position as int].view());
                    assert(taken[position as int].batch.is_unanswered(id as int));
                    let entry = &mut self.entries[position];
                    let inner = entry.batch.request_by_id(id).unwrap();
                    let user_param = &mut entry.user_param;
                    assert(taken[position as int].batch.with_slot(id as int, *final(inner.slot)).slots
                        =~= before[position as int].batch.after_request(*final(inner.slot)).slots);
                    assert(entries_with(
                        before,
                        position as int,
                        before[position as int].batch.after_request(*final(inner.slot)),
                        *final(user_param),
                    ) =~= entries_with(
                        taken,
                        position as int,
                        taken[position as int].batch.with_slot(id as int, *final(inner.slot)),
                        *final(user_param),
                    ));
                    return Some(
                        BatchesEvent::Request(
                            BatchesElem { batch_id: entry.ticket, inner, user_param },
                        ),
                    );
                },
            }
        }
        None
    }

    /// Gives access to the user value of every open batch, in the order in which the
    /// batches are examined.
    pub fn batches(&mut self) -> (params: Vec<&mut T>)
        requires
            old(self).wf(),
        ensures
            final(self).wf(),
            final(self)@.next_batch_id == old(self)@.next_batch_id,
            params@.len() == old(self)@.entries.len(),
            final(self)@.entries.len() == old(self)@.entries.len(),
            forall|p: int|
                0 <= p < params@.len() ==> *(#[trigger] params@[p]) == old(
                    self,
                )@.entries[p].user_param,
            forall|p: int|
                0 <= p < params@.len() ==> (#[trigger] final(self)@.entries[p]) == (EntryView {
                    ticket: old(self)@.entries[p].ticket,
                    batch: old(self)@.entries[p].batch,
                    user_param: *final(params@[p]),
                }),
    {
        collect_user_params(self.entries.as_mut_slice())
    }

    /// Finds a request that an earlier [`Request`](BatchesEvent::Request) event handed
    /// out, by the identifier taken from its handle.
    ///
    /// Returns `None` when the identifier names no request of an open batch or the
    /// request has been answered. Notifications have no identifier.
    pub fn request_by_id(&mut self, id: BatchesElemId) -> (found: Option<BatchesElem<'_, T>>)
        requires
            old(self).wf(),
        ensures
            final(self).wf(),
            found is Some <==> old(self)@.is_unanswered(id),
            match found {
                Some(elem) => {
                    let position = old(self)@.position_of(id.outer);
                    &&& elem.batch_id == id.outer
                    &&& elem.inner.index == id.inner
                    &&& *elem.inner.slot == old(self)@.entries[position].batch.slots[id.inner as int]
                    &&& *elem.user_param == old(self)@.entries[position].user_param
                    &&& final(self)@ == old(self)@.with_entry(
                        position,
                        old(self)@.entries[position].batch.with_slot(
                            id.inner as int,
                            *final(elem.inner.slot),
                        ),
                        *final(elem.user_param),
                    )
                },
                None => final(self)@ == old(self)@,
            },
    {
        proof {
            self.lemma_index_finds(id.outer);
        }
        match index_get(&self.index, id.outer) {
            Some(position) => {
                let ghost before = self@.entries;
                let entry = &mut self.entries[position];
                match entry.batch.request_by_id(id.inner) {
                    Some(inner) => {
                        let user_param = &mut entry.user_param;
                        Some(BatchesElem { batch_id: id.outer, inner, user_param })
                    },
                    None => None,
                }
            },
            None => None,
        }
    }

    /// Answers the request `id` with `response`. Afterwards the request can no longer
    /// be found by its identifier.
    ///
    /// A request is answered once. When `id` names no request of an open batch, or one
    /// that has been answered, the collection stays as it is and the error says which.
    pub fn answer(&mut self, id: BatchesElemId, response: Result<JsonValue, Error>) -> (done: Result<
        (),
        AnswerError,
    >)
        requires
            old(self).wf(),
        ensures
            final(self).wf(),
            match done {
                Ok(_) => {
                    &&& old(self)@.is_unanswered(id)
                    &&& final(self)@ == old(self)@.answered(id, response)
                },
                Err(error) => {
                    &&& !old(self)@.is_unanswered(id)
                    &&& final(self)@ == old(self)@
                    &&& error == AnswerError::AlreadyAnswered <==> {
                        &&& old(self)@.is_live(id.outer)
                        &&& id.inner < old(self)@.entries[old(self)@.position_of(
                            id.outer,
                        )].batch.slots.len()
                    }
                },
            },
    {
        proof {
            self.lemma_index_finds(id.outer);
        }
        match index_get(&self.index, id.outer) {
            Some(position) => {
                let done = self.entries[position].batch.fill(id.inner, response);
                done
            },
            None => Err(AnswerError::NotFound),
        }
    }
}

impl<T> Default for BatchesState<T> {
    fn default() -> (state: Self)
        ensures
            state.wf(),
            state@.next_batch_id == 0,
            state@.entries.len() == 0,
    {
        Self::new()
    }
}

impl<'a, T> BatchesElem<'a, T> {
    /// Identifier of the request within the [`BatchesState`]. It is not the identifier
    /// that the client gave to the request.
    pub fn id(&self) -> (id: BatchesElemId)
        ensures
            id.outer == self.batch_id,
            id.inner == self.inner.index,
    {
        BatchesElemId { outer: self.batch_id, inner: self.inner.id() }
    }

    /// The value that the user attached to the batch of the request.
    pub fn user_param(&mut self) -> (user_param: &mut T)
        ensures
            *user_param == *old(self).user_param,
            *final(self).user_param == *final(user_param),
            *final(final(self).user_param) == *final(old(self).user_param),
            final(self).batch_id == old(self).batch_id,
            final(self).inner == old(self).inner,
    {
        &mut *self.user_param
    }

    /// Identifier that the client gave to the request.
    pub fn request_id(&self) -> (id: &Id)
        ensures
            *id == old(self.inner.slot).call.id,
    {
        self.inner.request_id()
    }

    /// Name of the method that the client invokes.
    pub fn method(&self) -> (method: &str)
        ensures
            method@ == old(self.inner.slot).call.method@,
    {
        self.inner.method()
    }

    /// Parameters that the client passes to the method.
    pub fn params(&self) -> (params: &Params)
        ensures
            *params == old(self.inner.slot).call.params,
    {
        self.inner.params()
    }

    /// Answers the request. The handle is used up, and the request can no longer be
    /// found by its identifier. Once every request of the batch has been answered,
    /// [`next_event`](BatchesState::next_event) emits the response of the batch.
    pub fn set_response(self, response: Result<JsonValue, Error>)
        ensures
            final(self.inner.slot).call == old(self.inner.slot).call,
            final(self.inner.slot).answer == Some(response),
            *final(self.user_param) == *old(self.user_param),
    {
        self.inner.set_response(response)
    }
}

} // verus!
