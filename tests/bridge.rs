use dry::bridge::{
    begin_call, finish_call, response_script, route_message, send_outcome, CallResponse, CallStep,
    HostOutcome, Route, SendError,
};
use dry::value::Value;

fn table(names: &[&str]) -> Vec<String> {
    names.iter().map(|n| n.to_string()).collect()
}

#[test]
fn greet_call_delivers_result_script() {
    let raw = r#"{"call_id":"a1","function":"greet","arguments":["World"]}"#;
    let step = begin_call(raw, &table(&["greet"]));
    let (req, index) = match step {
        CallStep::Invoke(req, index) => (req, index),
        _ => panic!("expected an invocation"),
    };
    assert_eq!(index, 0);
    assert_eq!(req.call_id, "a1");
    assert_eq!(req.function, "greet");
    assert_eq!(req.arguments, Some(vec![Value::Text("World".to_string())]));
    let resp = finish_call(req.call_id, HostOutcome::Returned(Value::Text("Hello, World".to_string())));
    assert_eq!(
        response_script(&resp),
        r#"window.ipcCallback({"callId":"a1","result":"Hello, World"})"#
    );
}

#[test]
fn invoke_picks_matching_index() {
    let raw = r#"{"function":"b","call_id":"x"}"#;
    match begin_call(raw, &table(&["a", "b", "b"])) {
        CallStep::Invoke(req, index) => {
            assert_eq!(index, 1);
            assert_eq!(req.arguments, None);
        },
        _ => panic!("expected an invocation"),
    }
}

#[test]
fn missing_function_answers_error_with_call_id() {
    let raw = r#"{"call_id":"b2","function":"nope","arguments":[]}"#;
    match begin_call(raw, &table(&["greet"])) {
        CallStep::Respond(resp) => {
            assert_eq!(resp.call_id, "b2");
            assert!(resp.result.is_none());
            assert_eq!(resp.error.as_deref(), Some("function 'nope' not found"));
            assert_eq!(
                response_script(&resp),
                r#"window.ipcCallback({"callId":"b2","error":"function 'nope' not found"})"#
            );
        },
        _ => panic!("expected a response"),
    }
}

#[test]
fn missing_function_with_empty_table() {
    match begin_call(r#"{"call_id":"q","function":"f"}"#, &Vec::new()) {
        CallStep::Respond(resp) => {
            assert_eq!(resp.call_id, "q");
            assert!(resp.result.is_none());
            assert!(resp.error.is_some());
        },
        _ => panic!("expected a response"),
    }
}

#[test]
fn malformed_payload_is_dropped() {
    for raw in ["", "{not json", "[1,", "{\"call_id\":\"a\"", "tru", "\"open"] {
        assert!(matches!(begin_call(raw, &table(&["greet"])), CallStep::Drop), "{raw}");
    }
}

#[test]
fn invalid_request_keeps_readable_call_id() {
    match begin_call(r#"{"call_id":"c3","function":5}"#, &table(&["greet"])) {
        CallStep::Respond(resp) => {
            assert_eq!(resp.call_id, "c3");
            assert_eq!(resp.error.as_deref(), Some("invalid request format"));
            assert!(resp.result.is_none());
        },
        _ => panic!("expected a response"),
    }
}

#[test]
fn invalid_request_without_call_id_has_empty_id() {
    for raw in [r#"{"function":"greet"}"#, "[1,2]", "7", r#"{"call_id":"z","function":"greet","arguments":3}"#] {
        match begin_call(raw, &table(&["greet"])) {
            CallStep::Respond(resp) => {
                assert_eq!(resp.error.as_deref(), Some("invalid request format"));
            },
            _ => panic!("expected a response for {raw}"),
        }
    }
    match begin_call(r#"{"function":"greet"}"#, &table(&["greet"])) {
        CallStep::Respond(resp) => assert_eq!(resp.call_id, ""),
        _ => panic!("expected a response"),
    }
}

#[test]
fn raised_error_is_reported() {
    let resp = finish_call("e1".to_string(), HostOutcome::Raised("boom \"x\"".to_string()));
    assert!(resp.result.is_none());
    assert_eq!(
        response_script(&resp),
        r#"window.ipcCallback({"callId":"e1","error":"boom \"x\""})"#
    );
}

#[test]
fn no_value_is_a_null_result() {
    let resp = finish_call("n".to_string(), HostOutcome::NoValue);
    assert_eq!(response_script(&resp), r#"window.ipcCallback({"callId":"n","result":null})"#);
}

#[test]
fn nested_result_is_encoded() {
    let resp = CallResponse {
        call_id: "r".to_string(),
        result: Some(Value::List(vec![Value::Int(-3), Value::Bool(false)])),
        error: None,
    };
    assert_eq!(response_script(&resp), r#"window.ipcCallback({"callId":"r","result":[-3,false]})"#);
}

#[test]
fn routes_messages() {
    assert_eq!(route_message("window_control:close", false), Route::WindowControl);
    assert_eq!(route_message("window_control", true), Route::WindowControl);
    assert_eq!(route_message("{\"call_id\":\"a\"}", true), Route::Call);
    assert_eq!(route_message("{\"call_id\":\"a\"}", false), Route::Ignore);
    assert_eq!(route_message("window_contro", true), Route::Call);
}

#[test]
fn send_outcomes() {
    assert_eq!(send_outcome(false, false), Err(SendError::NotInitialized));
    assert_eq!(send_outcome(false, true), Err(SendError::NotInitialized));
    assert_eq!(send_outcome(true, false), Err(SendError::LoopClosed));
    assert_eq!(send_outcome(true, true), Ok(()));
}
