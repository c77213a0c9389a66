use pdiem::batch::{AnswerError, BatchInc, BatchState};
use pdiem::common;
use pdiem::notification::Notification;

fn call(id: u64, method: &str) -> common::Call {
    common::Call::MethodCall(common::MethodCall {
        jsonrpc: common::Version::V2,
        method: method.to_string(),
        params: common::Params::Array(vec![common::JsonValue::from(id)]),
        id: common::Id::Num(id),
    })
}

fn notify(method: &str) -> common::Call {
    common::Call::Notification(common::Notification {
        jsonrpc: common::Version::V2,
        method: method.to_string(),
        params: common::Params::Omitted,
    })
}

#[test]
fn single_notification_has_no_response() {
    let mut state = BatchState::from_request(common::Request::Single(notify("ping")));
    assert!(!state.is_ready_to_respond());
    match state.next() {
        Some(BatchInc::Notification(n)) => {
            assert_eq!(n.method(), "ping");
            assert_eq!(n.params(), &common::Params::Omitted);
        }
        _ => panic!(),
    }
    assert!(state.next().is_none());
    assert!(state.next().is_none());
    assert!(state.is_ready_to_respond());
    assert_eq!(state.into_response().unwrap(), None);
}

#[test]
fn empty_list_is_ready_at_once() {
    let mut state = BatchState::from_request(common::Request::Batch(Vec::new()));
    assert!(state.is_ready_to_respond());
    assert!(state.next().is_none());
    assert_eq!(state.into_response().unwrap(), None);
}

#[test]
fn single_request_is_answered_alone() {
    let mut state = BatchState::from_request(common::Request::Single(call(7, "seven")));
    match state.next() {
        Some(BatchInc::Request(rq)) => {
            assert_eq!(rq.id(), 0);
            assert_eq!(rq.method(), "seven");
            assert_eq!(rq.request_id(), &common::Id::Num(7));
            assert_eq!(
                rq.params(),
                &common::Params::Array(vec![common::JsonValue::from(7u64)])
            );
            rq.set_response(Ok(common::JsonValue::String("done".to_string())));
        }
        _ => panic!(),
    }
    assert!(state.is_ready_to_respond());
    assert_eq!(
        state.into_response().unwrap(),
        Some(common::Response::Single(common::Output::Success(
            common::Success {
                jsonrpc: common::Version::V2,
                result: common::JsonValue::String("done".to_string()),
                id: common::Id::Num(7),
            }
        )))
    );
}

#[test]
fn unready_state_is_given_back() {
    let mut state = BatchState::from_request(common::Request::Batch(vec![
        call(1, "a"),
        notify("n"),
    ]));
    // A call is still to be handed out.
    let mut state = state_back(state.into_response());
    assert!(state.next().is_some());
    assert!(state.next().is_some());
    assert!(state.next().is_none());
    // A request is still unanswered.
    assert!(!state.is_ready_to_respond());
    let mut state = state_back(state.into_response());
    assert!(state.request_by_id(0).is_some());
    assert_eq!(state.fill(0, Err(common::Error::method_not_found())), Ok(()));
    assert!(state.is_ready_to_respond());
    match state.into_response() {
        Ok(Some(common::Response::Batch(outputs))) => {
            assert_eq!(outputs.len(), 1);
            assert_eq!(outputs[0].id(), &common::Id::Num(1));
            assert_eq!(
                outputs[0],
                common::Output::Failure(common::Failure {
                    jsonrpc: common::Version::V2,
                    error: common::Error {
                        code: common::ErrorCode::MethodNotFound,
                        message: "Method not found".to_string(),
                        data: None,
                    },
                    id: common::Id::Num(1),
                })
            );
        }
        _ => panic!(),
    }
}

fn state_back(outcome: Result<Option<common::Response>, BatchState>) -> BatchState {
    match outcome {
        Err(state) => state,
        Ok(_) => panic!(),
    }
}

#[test]
fn fill_refuses_what_it_cannot_place() {
    let mut state = BatchState::from_request(common::Request::Batch(vec![
        notify("n"),
        call(1, "a"),
        call(2, "b"),
    ]));
    // Nothing has been handed out.
    assert_eq!(
        state.fill(0, Ok(common::JsonValue::Null)),
        Err(AnswerError::NotFound)
    );
    assert!(matches!(state.next(), Some(BatchInc::Notification(_))));
    // A notification has no slot.
    assert_eq!(
        state.fill(0, Ok(common::JsonValue::Null)),
        Err(AnswerError::NotFound)
    );
    assert!(matches!(state.next(), Some(BatchInc::Request(_))));
    assert_eq!(
        state.fill(1, Ok(common::JsonValue::Null)),
        Err(AnswerError::NotFound)
    );
    assert_eq!(state.fill(0, Ok(common::JsonValue::from(1u64))), Ok(()));
    assert_eq!(
        state.fill(0, Ok(common::JsonValue::from(2u64))),
        Err(AnswerError::AlreadyAnswered)
    );
    assert!(state.request_by_id(0).is_none());
    assert!(matches!(state.next(), Some(BatchInc::Request(_))));
    assert_eq!(state.fill(1, Ok(common::JsonValue::from(3u64))), Ok(()));
    match state.into_response() {
        Ok(Some(common::Response::Batch(outputs))) => {
            assert_eq!(outputs.len(), 2);
            match (&outputs[0], &outputs[1]) {
                (common::Output::Success(first), common::Output::Success(second)) => {
                    assert_eq!(first.id, common::Id::Num(1));
                    assert_eq!(first.result, common::JsonValue::from(1u64));
                    assert_eq!(second.id, common::Id::Num(2));
                    assert_eq!(second.result, common::JsonValue::from(3u64));
                }
                _ => panic!(),
            }
        }
        _ => panic!(),
    }
}

#[test]
fn output_is_built_from_the_outcome() {
    let ok = common::Output::from(
        Ok(common::JsonValue::from(5u64)),
        common::Id::Str("a".to_string()),
        common::Version::V2,
    );
    assert_eq!(
        ok,
        common::Output::Success(common::Success {
            jsonrpc: common::Version::V2,
            result: common::JsonValue::from(5u64),
            id: common::Id::Str("a".to_string()),
        })
    );
    assert_eq!(ok.id(), &common::Id::Str("a".to_string()));
    let failed = common::Output::from(
        Err(common::Error::method_not_found()),
        common::Id::Null,
        common::Version::V2,
    );
    match failed {
        common::Output::Failure(f) => {
            assert_eq!(f.id, common::Id::Null);
            assert_eq!(f.error.code, common::ErrorCode::MethodNotFound);
            assert_eq!(f.error.message, "Method not found");
            assert_eq!(f.error.data, None);
        }
        _ => panic!(),
    }
}

#[test]
fn notification_gives_back_what_it_was_made_from() {
    let plain = common::Notification {
        jsonrpc: common::Version::V2,
        method: "tick".to_string(),
        params: common::Params::Array(vec![common::JsonValue::Bool(false)]),
    };
    let wrapped = Notification::from(plain.clone());
    assert_eq!(wrapped.method(), "tick");
    assert_eq!(
        wrapped.params(),
        &common::Params::Array(vec![common::JsonValue::Bool(false)])
    );
    assert_eq!(wrapped.into_inner(), plain);
}
