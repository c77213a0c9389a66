use pdiem::batch::AnswerError;
use pdiem::batches::{BatchesElemId, BatchesEvent, BatchesState};
use pdiem::common;
use pdiem::notification::Notification;

fn notification(method: &str) -> common::Notification {
    common::Notification {
        jsonrpc: common::Version::V2,
        method: method.to_string(),
        params: common::Params::Omitted,
    }
}

fn method_call(id: u64, method: &str) -> common::MethodCall {
    common::MethodCall {
        jsonrpc: common::Version::V2,
        method: method.to_string(),
        params: common::Params::Omitted,
        id: common::Id::Num(id),
    }
}

fn success(id: u64, value: u64) -> common::Output {
    common::Output::Success(common::Success {
        jsonrpc: common::Version::V2,
        result: common::JsonValue::from(value),
        id: common::Id::Num(id),
    })
}

/// Takes the next event, which must be a request, and returns its identifier with the
/// identifier that the client chose.
fn expect_request<T>(state: &mut BatchesState<T>) -> (BatchesElemId, common::Id) {
    match state.next_event() {
        Some(BatchesEvent::Request(rq)) => (rq.id(), rq.request_id().clone()),
        _ => panic!(),
    }
}

#[test]
fn basic_notification() {
    let notif = common::Notification {
        jsonrpc: common::Version::V2,
        method: "foo".to_string(),
        params: common::Params::Omitted,
    };

    let mut state = BatchesState::new();
    assert!(state.next_event().is_none());
    state.inject(
        common::Request::Single(common::Call::Notification(notif.clone())),
        (),
    );
    match state.next_event() {
        Some(BatchesEvent::Notification {
            ref notification, ..
        }) if *notification == Notification::from(notif) => {}
        _ => panic!(),
    }
    assert!(state.next_event().is_none());
}

#[test]
fn basic_request() {
    let call = common::MethodCall {
        jsonrpc: common::Version::V2,
        method: "foo".to_string(),
        params: common::Params::Object(serde_json::from_str("{\"test\":\"foo\"}").unwrap()),
        id: common::Id::Num(123),
    };

    let mut state = BatchesState::new();
    assert!(state.next_event().is_none());
    state.inject(
        common::Request::Single(common::Call::MethodCall(call)),
        8889,
    );

    let rq_id = match state.next_event() {
        Some(BatchesEvent::Request(rq)) => {
            assert_eq!(rq.method(), "foo");
            assert_eq!(
                {
                    let v: String = match rq.params() {
                        common::Params::Object(map) => {
                            map.get("test").unwrap().as_str().unwrap().to_string()
                        }
                        _ => panic!(),
                    };
                    v
                },
                "foo"
            );
            assert_eq!(rq.request_id(), &common::Id::Num(123));
            rq.id()
        }
        _ => panic!(),
    };

    assert!(state.next_event().is_none());

    assert_eq!(state.request_by_id(rq_id).unwrap().method(), "foo");
    state
        .request_by_id(rq_id)
        .unwrap()
        .set_response(Err(common::Error::method_not_found()));
    assert!(state.request_by_id(rq_id).is_none());

    match state.next_event() {
        Some(BatchesEvent::ReadyToSend {
            response,
            user_param,
        }) => {
            assert_eq!(user_param, 8889);
            match response {
                common::Response::Single(common::Output::Failure(f)) => {
                    assert_eq!(f.id, common::Id::Num(123));
                }
                _ => panic!(),
            }
        }
        _ => panic!(),
    };
}

#[test]
fn empty_batch() {
    let mut state = BatchesState::new();
    assert!(state.next_event().is_none());
    state.inject(common::Request::Batch(Vec::new()), ());
    assert!(state.next_event().is_none());
}

#[test]
fn batch_of_notifs() {
    let notif1 = common::Notification {
        jsonrpc: common::Version::V2,
        method: "foo".to_string(),
        params: common::Params::Omitted,
    };

    let notif2 = common::Notification {
        jsonrpc: common::Version::V2,
        method: "bar".to_string(),
        params: common::Params::Omitted,
    };

    let mut state = BatchesState::new();
    assert!(state.next_event().is_none());
    state.inject(
        common::Request::Batch(vec![
            common::Call::Notification(notif1.clone()),
            common::Call::Notification(notif2.clone()),
        ]),
        2,
    );

    match state.next_event() {
        Some(BatchesEvent::Notification {
            ref notification,
            ref user_param,
        }) if *notification == Notification::from(notif1) && **user_param == 2 => {}
        _ => panic!(),
    }

    match state.next_event() {
        Some(BatchesEvent::Notification {
            ref notification,
            ref user_param,
        }) if *notification == Notification::from(notif2) && **user_param == 2 => {}
        _ => panic!(),
    }

    assert!(state.next_event().is_none());
}

#[test]
fn request_after_answer_leaves_no_event() {
    let mut state = BatchesState::new();
    state.inject(
        common::Request::Single(common::Call::MethodCall(method_call(123, "foo"))),
        8889,
    );
    let (rq_id, _) = expect_request(&mut state);
    state
        .request_by_id(rq_id)
        .unwrap()
        .set_response(Err(common::Error::method_not_found()));
    match state.next_event() {
        Some(BatchesEvent::ReadyToSend { response, .. }) => match response {
            common::Response::Single(common::Output::Failure(f)) => {
                assert_eq!(f.error, common::Error::method_not_found());
                assert_eq!(f.jsonrpc, common::Version::V2);
            }
            _ => panic!(),
        },
        _ => panic!(),
    }
    assert!(state.next_event().is_none());
    assert!(state.request_by_id(rq_id).is_none());
}

#[test]
fn mixed_batch_answers_in_request_order() {
    let mut state = BatchesState::new();
    state.inject(
        common::Request::Batch(vec![
            common::Call::MethodCall(method_call(1, "first")),
            common::Call::Notification(notification("between")),
            common::Call::MethodCall(method_call(2, "second")),
        ]),
        "ctx",
    );

    let (first, first_client_id) = expect_request(&mut state);
    assert_eq!(first_client_id, common::Id::Num(1));
    match state.next_event() {
        Some(BatchesEvent::Notification {
            notification,
            user_param,
        }) => {
            assert_eq!(notification.method(), "between");
            assert_eq!(*user_param, "ctx");
        }
        _ => panic!(),
    }
    let (second, second_client_id) = expect_request(&mut state);
    assert_eq!(second_client_id, common::Id::Num(2));
    assert_eq!(first.outer, second.outer);
    assert_eq!(first.inner, 0);
    assert_eq!(second.inner, 1);

    // Nothing is ready while a request is unanswered.
    assert!(state.next_event().is_none());
    assert_eq!(
        state.answer(second, Ok(common::JsonValue::from(20u64))),
        Ok(())
    );
    assert!(state.next_event().is_none());
    assert_eq!(
        state.answer(first, Ok(common::JsonValue::from(10u64))),
        Ok(())
    );

    match state.next_event() {
        Some(BatchesEvent::ReadyToSend {
            response,
            user_param,
        }) => {
            assert_eq!(user_param, "ctx");
            assert_eq!(
                response,
                common::Response::Batch(vec![success(1, 10), success(2, 20)])
            );
        }
        _ => panic!(),
    }
    assert!(state.next_event().is_none());
}

#[test]
fn batch_with_one_request_answers_with_a_list() {
    let mut state = BatchesState::new();
    state.inject(
        common::Request::Batch(vec![common::Call::MethodCall(method_call(5, "only"))]),
        (),
    );
    let (id, _) = expect_request(&mut state);
    assert_eq!(state.answer(id, Ok(common::JsonValue::from(1u64))), Ok(()));
    match state.next_event() {
        Some(BatchesEvent::ReadyToSend { response, .. }) => {
            assert_eq!(response, common::Response::Batch(vec![success(5, 1)]));
        }
        _ => panic!(),
    }
}

#[test]
fn answer_is_accepted_once() {
    let mut state = BatchesState::new();
    state.inject(
        common::Request::Single(common::Call::MethodCall(method_call(9, "once"))),
        (),
    );
    let (id, _) = expect_request(&mut state);
    assert_eq!(state.answer(id, Ok(common::JsonValue::from(1u64))), Ok(()));
    assert_eq!(
        state.answer(id, Ok(common::JsonValue::from(2u64))),
        Err(AnswerError::AlreadyAnswered)
    );
    assert!(state.request_by_id(id).is_none());
    match state.next_event() {
        Some(BatchesEvent::ReadyToSend { response, .. }) => {
            assert_eq!(response, common::Response::Single(success(9, 1)));
        }
        _ => panic!(),
    }
    // The batch has left the collection: its requests are unknown.
    assert_eq!(
        state.answer(id, Ok(common::JsonValue::from(3u64))),
        Err(AnswerError::NotFound)
    );
    assert!(state.next_event().is_none());
}

#[test]
fn unknown_identifiers_are_not_found() {
    let mut state = BatchesState::new();
    let nowhere = BatchesElemId { outer: 7, inner: 0 };
    assert!(state.request_by_id(nowhere).is_none());
    assert_eq!(
        state.answer(nowhere, Ok(common::JsonValue::Null)),
        Err(AnswerError::NotFound)
    );

    state.inject(
        common::Request::Batch(vec![
            common::Call::MethodCall(method_call(1, "a")),
            common::Call::MethodCall(method_call(2, "b")),
        ]),
        (),
    );
    let (first, _) = expect_request(&mut state);
    // The second request has not been handed out: it cannot be found yet.
    let second = BatchesElemId {
        outer: first.outer,
        inner: 1,
    };
    assert!(state.request_by_id(second).is_none());
    assert_eq!(
        state.answer(second, Ok(common::JsonValue::Null)),
        Err(AnswerError::NotFound)
    );
    let (handed_out, _) = expect_request(&mut state);
    assert_eq!(handed_out, second);
    assert!(state.request_by_id(second).is_some());
}

#[test]
fn tickets_of_open_batches_differ() {
    let mut state = BatchesState::new();
    state.inject(
        common::Request::Single(common::Call::MethodCall(method_call(1, "a"))),
        'a',
    );
    state.inject(
        common::Request::Single(common::Call::MethodCall(method_call(2, "b"))),
        'b',
    );
    let (a, _) = expect_request(&mut state);
    let (b, _) = expect_request(&mut state);
    assert_eq!(a, BatchesElemId { outer: 0, inner: 0 });
    assert_eq!(b, BatchesElemId { outer: 1, inner: 0 });

    // The first batch leaves; the ticket of the next batch is a new one.
    assert_eq!(state.answer(a, Ok(common::JsonValue::Null)), Ok(()));
    match state.next_event() {
        Some(BatchesEvent::ReadyToSend { user_param, .. }) => assert_eq!(user_param, 'a'),
        _ => panic!(),
    }
    state.inject(
        common::Request::Single(common::Call::MethodCall(method_call(3, "c"))),
        'c',
    );
    let (c, client_id) = expect_request(&mut state);
    assert_eq!(c, BatchesElemId { outer: 2, inner: 0 });
    assert_eq!(client_id, common::Id::Num(3));
    // The batch that stayed is still found under its own ticket.
    assert_eq!(state.request_by_id(b).unwrap().method(), "b");
    assert!(state.request_by_id(a).is_none());
}

#[test]
fn batches_are_found_after_others_leave() {
    let mut state = BatchesState::new();
    let mut ids = Vec::new();
    for n in 0..5u64 {
        state.inject(
            common::Request::Single(common::Call::MethodCall(method_call(n, "m"))),
            n,
        );
    }
    for _ in 0..5 {
        ids.push(expect_request(&mut state).0);
    }
    // Batches leave from the front and from the middle.
    for &gone in &[0usize, 2usize] {
        assert_eq!(state.answer(ids[gone], Ok(common::JsonValue::Null)), Ok(()));
        match state.next_event() {
            Some(BatchesEvent::ReadyToSend { user_param, .. }) => {
                assert_eq!(user_param, gone as u64)
            }
            _ => panic!(),
        }
    }
    for &stays in &[1usize, 3usize, 4usize] {
        let mut rq = state.request_by_id(ids[stays]).unwrap();
        assert_eq!(rq.request_id(), &common::Id::Num(stays as u64));
        assert_eq!(*rq.user_param(), stays as u64);
        assert_eq!(rq.id(), ids[stays]);
    }
    for &gone in &[0usize, 2usize] {
        assert!(state.request_by_id(ids[gone]).is_none());
    }
}

#[test]
fn many_batches_survive_trimming() {
    let mut state = BatchesState::new();
    for n in 0..600u64 {
        state.inject(
            common::Request::Single(common::Call::MethodCall(method_call(n, "m"))),
            n,
        );
    }
    let mut ids = Vec::new();
    for n in 0..600u64 {
        let (id, client_id) = expect_request(&mut state);
        assert_eq!(id.outer, n);
        assert_eq!(client_id, common::Id::Num(n));
        ids.push(id);
    }
    assert!(state.next_event().is_none());
    for id in ids.iter().rev() {
        assert_eq!(state.answer(*id, Ok(common::JsonValue::Null)), Ok(()));
    }
    let mut sent = 0;
    while let Some(event) = state.next_event() {
        match event {
            BatchesEvent::ReadyToSend { .. } => sent += 1,
            _ => panic!(),
        }
    }
    assert_eq!(sent, 600);
    assert_eq!(state.batches().len(), 0);
}

#[test]
fn user_values_can_be_changed_in_place() {
    let mut state = BatchesState::new();
    state.inject(
        common::Request::Batch(vec![
            common::Call::Notification(notification("n")),
            common::Call::MethodCall(method_call(1, "r")),
        ]),
        10,
    );
    state.inject(common::Request::Batch(vec![common::Call::Notification(notification("x"))]), 100);

    {
        let mut values = state.batches();
        assert_eq!(values.len(), 2);
        assert_eq!(*values[0], 10);
        assert_eq!(*values[1], 100);
        *values[0] += 1;
        *values[1] += 1;
    }
    match state.next_event() {
        Some(BatchesEvent::Notification { user_param, .. }) => {
            assert_eq!(*user_param, 11);
            *user_param += 1;
        }
        _ => panic!(),
    }
    match state.next_event() {
        Some(BatchesEvent::Request(mut rq)) => {
            assert_eq!(*rq.user_param(), 12);
            *rq.user_param() += 1;
            rq.set_response(Ok(common::JsonValue::Bool(true)));
        }
        _ => panic!(),
    }
    match state.next_event() {
        Some(BatchesEvent::ReadyToSend { user_param, .. }) => assert_eq!(user_param, 13),
        _ => panic!(),
    }
    match state.next_event() {
        Some(BatchesEvent::Notification { notification, user_param }) => {
            assert_eq!(notification.method(), "x");
            assert_eq!(*user_param, 101);
        }
        _ => panic!(),
    }
    assert!(state.next_event().is_none());
    assert_eq!(state.batches().len(), 0);
}

#[test]
fn default_collection_is_empty() {
    let mut state: BatchesState<u8> = Default::default();
    assert!(state.next_event().is_none());
    assert!(state.batches().is_empty());
}
