//! State of one client message.
//!
//! A client message is a single call or a list of calls. Its [`BatchState`] hands the
//! calls out one by one, remembers the answer given to each request, and builds the
//! response once every call has been handed out and every request has been answered.

use crate::common::{
    output_id, output_of, request_calls, Call, Error, Id, JsonValue, MethodCall, Output, Params,
    Request, Response, ResponseView, Version,
};
use crate::notification::Notification;
use std::collections::VecDeque;
use vstd::prelude::*;

verus! {

/// A request that has been handed out, together with the place for its answer.
#[derive(Debug)]
pub struct RequestSlot {
    /// The request as the client sent it.
    pub call: MethodCall,
    /// Outcome of the request; `None` until it is answered.
    pub answer: Option<Result<JsonValue, Error>>,
}

/// Why an answer was not accepted.
#[derive(Debug, Clone, Copy, PartialEq, Eq)]
pub enum AnswerError {
    /// The identifier names no request that has been handed out and is still tracked.
    NotFound,
    /// The request has been answered before.
    AlreadyAnswered,
}

/// State of one client message.
#[derive(Debug)]
pub struct BatchState {
    /// Calls that have not been handed out yet, in the order of the message.
    to_yield: VecDeque<Call>,
    /// Requests that have been handed out, in the order of the message.
    requests: Vec<RequestSlot>,
    /// Whether the message was a list of calls.
    is_batch: bool,
}

/// Mathematical model of a [`BatchState`].
pub struct BatchView {
    /// Calls that have not been handed out yet, in the order of the message.
    pub pending: Seq<Call>,
    /// Requests that have been handed out, in the order of the message.
    pub slots: Seq<RequestSlot>,
    /// Whether the message was a list of calls.
    pub is_batch: bool,
}

/// What [`BatchState::next`] hands out.
#[derive(Debug)]
pub enum BatchInc<'a> {
    /// The next call is a notification.
    Notification(Notification),
    /// The next call is a request.
    Request(BatchElem<'a>),
}

/// Exclusive access to one unanswered request of a [`BatchState`].
///
/// The fields are public so that contracts can speak of the slot before and after the
/// borrow; in programs, use the methods.
#[derive(Debug)]
pub struct BatchElem<'a> {
    /// Position of the request among the requests of its message.
    pub index: usize,
    /// The request and the place for its answer.
    pub slot: &'a mut RequestSlot,
}

/// The requests among `calls`, in order.
pub open spec fn requests_among(calls: Seq<Call>) -> Seq<MethodCall>
    decreases calls.len(),
{
    if calls.len() == 0 {
        Seq::empty()
    } else {
        match calls.first() {
            Call::MethodCall(call) => seq![call] + requests_among(calls.drop_first()),
            Call::Notification(_) => requests_among(calls.drop_first()),
        }
    }
}

impl RequestSlot {
    /// The answer object of an answered request.
    pub open spec fn output(self) -> Output
        recommends
            self.answer is Some,
    {
        output_of(self.answer->0, self.call.id)
    }
}

impl BatchView {
    /// The state of a message that has just been received.
    pub open spec fn of_request(request: Request) -> BatchView {
        BatchView {
            pending: request_calls(request),
            slots: Seq::empty(),
            is_batch: request is Batch,
        }
    }

    /// A message that is not a list holds one call.
    pub open spec fn wf(self) -> bool {
        !self.is_batch ==> self.pending.len() + self.slots.len() <= 1
    }

    /// Every call has been handed out and every request has been answered.
    pub open spec fn is_ready(self) -> bool {
        &&& self.pending.len() == 0
        &&& forall|i: int| 0 <= i < self.slots.len() ==> (#[trigger] self.slots[i]).answer is Some
    }

    /// `id` names a request that has been handed out and not been answered.
    pub open spec fn is_unanswered(self, id: int) -> bool {
        0 <= id < self.slots.len() && self.slots[id].answer is None
    }

    /// The state after the first pending call, a notification, has been handed out.
    pub open spec fn after_notification(self) -> BatchView {
        BatchView { pending: self.pending.drop_first(), ..self }
    }

    /// The state after the first pending call, a request, has been handed out, where
    /// `slot` is what the request's slot holds once its handle is released.
    pub open spec fn after_request(self, slot: RequestSlot) -> BatchView {
        BatchView { pending: self.pending.drop_first(), slots: self.slots.push(slot), ..self }
    }

    /// The state in which the slot of request `id` holds `slot`.
    pub open spec fn with_slot(self, id: int, slot: RequestSlot) -> BatchView {
        BatchView { slots: self.slots.update(id, slot), ..self }
    }

    /// The state after request `id` has been answered with `response`.
    pub open spec fn answered(self, id: int, response: Result<JsonValue, Error>) -> BatchView {
        self.with_slot(id, RequestSlot { call: self.slots[id].call, answer: Some(response) })
    }

    /// The answer objects of the requests, in the order of the message.
    pub open spec fn outputs(self) -> Seq<Output> {
        Seq::new(self.slots.len(), |i: int| self.slots[i].output())
    }

    /// What is sent back once the message is ready: nothing when it held no request,
    /// one answer when it was a single request, else the list of answers.
    pub open spec fn response(self) -> Option<ResponseView> {
        if self.slots.len() == 0 {
            None
        } else if self.is_batch {
            Some(ResponseView::Batch(self.outputs()))
        } else {
            Some(ResponseView::Single(self.slots[0].output()))
        }
    }

    /// Every request of the message that the state still knows of, in the order of the
    /// message: those handed out, then those still pending.
    pub open spec fn requests(self) -> Seq<MethodCall> {
        Seq::new(self.slots.len(), |i: int| self.slots[i].call) + requests_among(self.pending)
    }
}

impl View for BatchState {
    type V = BatchView;

    closed spec fn view(&self) -> BatchView {
        BatchView { pending: self.to_yield@, slots: self.requests@, is_batch: self.is_batch }
    }
}

impl BatchState {
    /// Starts tracking a message that has just been received.
    pub fn from_request(request: Request) -> (state: BatchState)
        ensures
            state@ == BatchView::of_request(request),
            state@.wf(),
    {
        match request {
            Request::Single(call) => {
                let mut to_yield = VecDeque::new();
                to_yield.push_back(call);
                assert(to_yield@ =~= seq![call]);
                BatchState { to_yield, requests: Vec::new(), is_batch: false }
            },
            Request::Batch(calls) => {
                let ghost all = calls@;
                let mut calls = calls;
                let mut to_yield = VecDeque::new();
                while calls.len() > 0
                    invariant
                        calls@ + to_yield@ == all,
                    decreases calls.len(),
                {
                    let ghost before = calls@;
                    let ghost queued = to_yield@;
                    match calls.pop() {
                        Some(call) => {
                            to_yield.push_front(call);
                            assert(calls@ + to_yield@ =~= before + queued);
                        },
                        None => {},
                    }
                }
                assert(to_yield@ =~= all);
                BatchState { to_yield, requests: Vec::new(), is_batch: true }
            },
        }
    }

    /// Hands out the next call of the message, or `None` when every call has been
    /// handed out.
    ///
    /// A notification is given away. A request gets a slot for its answer, and the
    /// handle that is returned gives access to that slot.
    pub fn next(&mut self) -> (inc: Option<BatchInc<'_>>)
        ensures
            old(self)@.wf() ==> final(self)@.wf(),
            match inc {
                None => old(self)@.pending.len() == 0 && final(self)@ == old(self)@,
                Some(BatchInc::Notification(notification)) => {
                    &&& old(self)@.pending.len() > 0
                    &&& old(self)@.pending[0] == Call::Notification(notification.0)
                    &&& final(self)@ == old(self)@.after_notification()
                },
                Some(BatchInc::Request(elem)) => {
                    &&& old(self)@.pending.len() > 0
                    &&& old(self)@.pending[0] == Call::MethodCall(elem.slot.call)
                    &&& elem.slot.answer is None
                    &&& elem.index == old(self)@.slots.len()
                    &&& final(self)@ == old(self)@.after_request(*final(elem.slot))
                },
            },
    {
        match self.to_yield.pop_front() {
            None => {
                return None;
            },
            Some(Call::Notification(notification)) => {
                assert(self.to_yield@ =~= old(self).to_yield@.drop_first());
                Some(BatchInc::Notification(Notification::from(notification)))
            },
            Some(Call::MethodCall(call)) => {
                assert(self.to_yield@ =~= old(self).to_yield@.drop_first());
                let index = self.requests.len();
                self.requests.push(RequestSlot { call, answer: None });
                let ghost grown = self.requests@;
                let slot = &mut self.requests[index];
                assert(grown.update(index as int, *final(slot)) =~= old(self).requests@.push(
                    *final(slot),
                ));
                Some(BatchInc::Request(BatchElem { index, slot }))
            },
        }
    }

    /// Gives access to the request `id` if it has been handed out and not been
    /// answered; else `None`.
    pub fn request_by_id(&mut self, id: usize) -> (found: Option<BatchElem<'_>>)
        ensures
            old(self)@.wf() ==> final(self)@.wf(),
            found is Some <==> old(self)@.is_unanswered(id as int),
            match found {
                Some(elem) => {
                    &&& elem.index == id
                    &&& *elem.slot == old(self)@.slots[id as int]
                    &&& final(self)@ == old(self)@.with_slot(id as int, *final(elem.slot))
                },
                None => final(self)@ == old(self)@,
            },
    {
        if id < self.requests.len() {
            if self.requests[id].answer.is_none() {
                return Some(BatchElem { index: id, slot: &mut self.requests[id] });
            }
        }
        None
    }

    /// Records `response` as the answer to the request `id`.
    ///
    /// A request is answered once: when `id` names no request that has been handed out,
    /// or one that has been answered, the state stays as it is and the error says which.
    pub fn fill(&mut self, id: usize, response: Result<JsonValue, Error>) -> (done: Result<
        (),
        AnswerError,
    >)
        ensures
            old(self)@.wf() ==> final(self)@.wf(),
            match done {
                Ok(_) => {
                    &&& old(self)@.is_unanswered(id as int)
                    &&& final(self)@ == old(self)@.answered(id as int, response)
                },
                Err(AnswerError::NotFound) => {
                    &&& id >= old(self)@.slots.len()
                    &&& final(self)@ == old(self)@
                },
                Err(AnswerError::AlreadyAnswered) => {
                    &&& id < old(self)@.slots.len()
                    &&& old(self)@.slots[id as int].answer is Some
                    &&& final(self)@ == old(self)@
                },
            },
    {
        if id >= self.requests.len() {
            return Err(AnswerError::NotFound);
        }
        match self.request_by_id(id) {
            Some(elem) => {
                elem.set_response(response);
                Ok(())
            },
            None => Err(AnswerError::AlreadyAnswered),
        }
    }

    /// Whether every call has been handed out and every request has been answered.
    pub fn is_ready_to_respond(&self) -> (ready: bool)
        ensures
            ready == self@.is_ready(),
    {
        if self.to_yield.len() > 0 {
            return false;
        }
        let mut i: usize = 0;
        while i < self.requests.len()
            invariant
                i <= self.requests.len(),
                forall|j: int| 0 <= j < i ==> (#[trigger] self.requests@[j]).answer is Some,
            decreases self.requests.len() - i,
        {
            if self.requests[i].answer.is_none() {
                return false;
            }
            i += 1;
        }
        true
    }

    /// Turns the state into the response to send back.
    ///
    /// A state that is not ready is given back unchanged. A ready state gives `None`
    /// when the message held no request, the answer of the request when the message
    /// was a single call, and otherwise the answers of its requests in the order in
    /// which the client wrote them.
    pub fn into_response(self) -> (response: Result<Option<Response>, BatchState>)
        ensures
            response is Ok <==> self@.is_ready(),
            match response {
                Ok(Some(sent)) => self@.response() == Some(sent@),
                Ok(None) => self@.response() is None,
                Err(state) => state == self,
            },
    {
        if !self.is_ready_to_respond() {
            return Err(self);
        }
        let ghost view = self@;
        let is_batch = self.is_batch;
        let mut outputs: Vec<Output> = Vec::new();
        for slot in iter: self.requests
            invariant
                iter.seq() == view.slots,
                forall|j: int| 0 <= j < view.slots.len() ==> (#[trigger] view.slots[j]).answer is Some,
                outputs@.len() == iter.index(),
                forall|j: int| 0 <= j < iter.index() ==> outputs@[j] == view.slots[j].output(),
        {
            match slot.answer {
                Some(answer) => {
                    outputs.push(Output::from(answer, slot.call.id, Version::V2));
                },
                None => {},
            }
        }
        assert(outputs@ =~= view.outputs());
        if outputs.len() == 0 {
            Ok(None)
        } else if is_batch {
            Ok(Some(Response::Batch(outputs)))
        } else {
            Ok(Some(Response::Single(outputs.swap_remove(0))))
        }
    }
}

impl<'a> BatchElem<'a> {
    /// Position of the request among the requests of its message. Together with the
    /// message's ticket it identifies the request for as long as it is unanswered.
    pub fn id(&self) -> (id: usize)
        ensures
            id == self.index,
    {
        self.index
    }

    /// Identifier that the client gave to the request.
    pub fn request_id(&self) -> (id: &Id)
        ensures
            *id == old(self.slot).call.id,
    {
        &self.slot.call.id
    }

    /// Name of the method that the client invokes.
    pub fn method(&self) -> (method: &str)
        ensures
            method@ == old(self.slot).call.method@,
    {
        self.slot.call.method.as_str()
    }

    /// Parameters that the client passes to the method.
    pub fn params(&self) -> (params: &Params)
        ensures
            *params == old(self.slot).call.params,
    {
        &self.slot.call.params
    }

    /// Answers the request. The handle is used up, and the request can no longer be
    /// found by its identifier.
    pub fn set_response(self, response: Result<JsonValue, Error>)
        ensures
            final(self.slot).call == old(self.slot).call,
            final(self.slot).answer == Some(response),
    {
        self.slot.answer = Some(response);
    }
}

impl BatchView {
    /// A message that has just been received knows exactly its own requests.
    pub proof fn lemma_requests_of_request(request: Request)
        ensures
            BatchView::of_request(request).requests() == requests_among(request_calls(request)),
    {
        assert(BatchView::of_request(request).requests() =~= requests_among(
            request_calls(request),
        ));
    }

    /// Handing out a call neither adds a request to the message, nor drops one, nor
    /// changes their order, whatever the slot of a request that is handed out holds
    /// beside the request.
    pub proof fn lemma_next_keeps_requests(self, slot: RequestSlot)
        requires
            self.pending.len() > 0,
        ensures
            self.pending[0] is Notification ==> self.after_notification().requests()
                == self.requests(),
            self.pending[0] == Call::MethodCall(slot.call) ==> self.after_request(slot).requests()
                == self.requests(),
    {
        if self.pending[0] is Notification {
            assert(self.after_notification().requests() =~= self.requests());
        }
        if self.pending[0] == Call::MethodCall(slot.call) {
            assert(self.after_request(slot).requests() =~= self.requests());
        }
    }

    /// Answering a request neither adds a request to the message, nor drops one, nor
    /// changes their order.
    pub proof fn lemma_answer_keeps_requests(self, id: int, response: Result<JsonValue, Error>)
        requires
            self.is_unanswered(id),
        ensures
            self.answered(id, response).requests() == self.requests(),
    {
        assert(self.answered(id, response).requests() =~= self.requests());
    }

    /// The answers of a ready message stand in the order in which the client wrote the
    /// requests, whatever the order in which they were given: the answer at each place
    /// is the one given to the request at that place and carries its identifier.
    pub proof fn lemma_response_follows_requests(self)
        requires
            self.is_ready(),
        ensures
            self.outputs().len() == self.requests().len(),
            forall|i: int|
                0 <= i < self.outputs().len() ==> #[trigger] self.outputs()[i] == output_of(
                    self.slots[i].answer->0,
                    self.requests()[i].id,
                ),
            forall|i: int|
                0 <= i < self.outputs().len() ==> output_id(#[trigger] self.outputs()[i])
                    == self.requests()[i].id,
    {
        assert(requests_among(self.pending) =~= Seq::<MethodCall>::empty());
    }

    /// An answer is given once: after request `id` has been answered it is no longer
    /// unanswered, its answer is the one that was given, and every other request is as
    /// it was.
    pub proof fn lemma_answer_is_final(self, id: int, response: Result<JsonValue, Error>)
        requires
            self.is_unanswered(id),
        ensures
            !self.answered(id, response).is_unanswered(id),
            self.answered(id, response).slots[id].answer == Some(response),
            self.answered(id, response).slots[id].call == self.slots[id].call,
            forall|other: int|
                0 <= other < self.slots.len() && other != id ==> self.answered(
                    id,
                    response,
                ).slots[other] == self.slots[other],
            self.answered(id, response).pending == self.pending,
    {
    }
}

} // verus!
