use ast_rs::codec::{ByteCursor, FrameError};
use ast_rs::connection::{judge_shutdown_followup, shutdown_response, FollowupEvent, MessageQueue};
use ast_rs::json::{JsonMember, JsonValue};
use ast_rs::msg::{
    IdRepr, Message, Notification, ReadError, Request, RequestId, Response, ResponseError,
};

fn sample_params() -> JsonValue {
    JsonValue::Object(vec![
        JsonMember {
            key: "language".to_string(),
            value: JsonValue::Str("python".to_string()),
        },
        JsonMember {
            key: "count".to_string(),
            value: JsonValue::Int(-7),
        },
        JsonMember {
            key: "flags".to_string(),
            value: JsonValue::Array(vec![JsonValue::Bool(true), JsonValue::Null]),
        },
    ])
}

fn read_one(bytes: Vec<u8>) -> Result<Option<Message>, ReadError> {
    let mut cur = ByteCursor::new(bytes);
    Message::read(&mut cur)
}

#[test]
fn round_trip_request_numeric_id() {
    let req = Request {
        id: RequestId::from(92),
        method: "ParseAstInRange".to_string(),
        params: sample_params(),
    };
    let mut wire: Vec<u8> = Vec::new();
    Message::Request(req).write(&mut wire);
    let got = read_one(wire).unwrap().unwrap();
    match got {
        Message::Request(r) => {
            assert_eq!(r.id, RequestId::from(92));
            assert_eq!(r.method, "ParseAstInRange");
            assert!(r.params.deep_eq(&sample_params()));
        }
        other => panic!("expected a request, got {other:?}"),
    }
}

#[test]
fn round_trip_distinguishes_numeric_and_string_ids() {
    let numeric = Request {
        id: RequestId::from(92),
        method: "m".to_string(),
        params: JsonValue::Null,
    };
    let text = Request {
        id: RequestId::from("92".to_string()),
        method: "m".to_string(),
        params: JsonValue::Null,
    };
    let mut w1: Vec<u8> = Vec::new();
    let mut w2: Vec<u8> = Vec::new();
    Message::Request(numeric).write(&mut w1);
    Message::Request(text).write(&mut w2);
    let id1 = match read_one(w1).unwrap().unwrap() {
        Message::Request(r) => r.id,
        other => panic!("unexpected {other:?}"),
    };
    let id2 = match read_one(w2).unwrap().unwrap() {
        Message::Request(r) => r.id,
        other => panic!("unexpected {other:?}"),
    };
    assert_eq!(id1, RequestId(IdRepr::I32(92)));
    assert_eq!(id2, RequestId(IdRepr::Str("92".to_string())));
    assert_ne!(id1, id2);
}

#[test]
fn round_trip_response_with_error() {
    let resp = Response {
        id: RequestId::from("job-1".to_string()),
        result: None,
        error: Some(ResponseError {
            code: -32601,
            message: "method not found".to_string(),
            data: Some(JsonValue::Int(5)),
        }),
    };
    let mut wire: Vec<u8> = Vec::new();
    Message::Response(resp).write(&mut wire);
    match read_one(wire).unwrap().unwrap() {
        Message::Response(r) => {
            assert_eq!(r.id, RequestId::from("job-1".to_string()));
            assert!(r.result.is_none());
            let e = r.error.unwrap();
            assert_eq!(e.code, -32601);
            assert_eq!(e.message, "method not found");
            assert!(e.data.unwrap().deep_eq(&JsonValue::Int(5)));
        }
        other => panic!("expected a response, got {other:?}"),
    }
}

#[test]
fn round_trip_response_without_payload() {
    let resp = Response {
        id: RequestId::from(1),
        result: None,
        error: None,
    };
    let mut wire: Vec<u8> = Vec::new();
    Message::Response(resp).write(&mut wire);
    match read_one(wire).unwrap().unwrap() {
        Message::Response(r) => {
            assert_eq!(r.id, RequestId::from(1));
            assert!(r.result.is_none());
            assert!(r.error.is_none());
        }
        other => panic!("expected a response, got {other:?}"),
    }
}

#[test]
fn round_trip_notification() {
    let note = Notification {
        method: "exit".to_string(),
        params: JsonValue::Null,
    };
    let mut wire: Vec<u8> = Vec::new();
    Message::Notification(note).write(&mut wire);
    match read_one(wire).unwrap().unwrap() {
        Message::Notification(n) => {
            assert_eq!(n.method, "exit");
            assert!(n.params.deep_eq(&JsonValue::Null));
        }
        other => panic!("expected a notification, got {other:?}"),
    }
}

#[test]
fn payload_survives_serde_json() {
    // the produced payload is real JSON: an outside parser reads it back
    let req = Request {
        id: RequestId::from(7),
        method: "do/it".to_string(),
        params: sample_params(),
    };
    let mut wire: Vec<u8> = Vec::new();
    Message::Request(req).write(&mut wire);
    let blank = wire.windows(4).position(|w| w == b"\r\n\r\n").unwrap();
    let payload = std::str::from_utf8(&wire[blank + 4..]).unwrap();
    let v: serde_json::Value = serde_json::from_str(payload).unwrap();
    assert_eq!(v["jsonrpc"], serde_json::Value::String("2.0".to_string()));
    assert_eq!(v["id"], serde_json::Value::from(7));
    assert_eq!(v["method"], serde_json::Value::String("do/it".to_string()));
    assert_eq!(v["params"]["count"], serde_json::Value::from(-7));
    // and what serde_json re-serializes, this library reads back unchanged
    let reserialized = serde_json::to_string(&v).unwrap();
    let reparsed = ast_rs::parse::parse_text(&reserialized).unwrap();
    let m2 = Message::from_json(&reparsed).unwrap();
    match m2 {
        Message::Request(r) => {
            assert_eq!(r.method, "do/it");
            // serde_json orders members alphabetically when re-serializing
            let sorted = JsonValue::Object(vec![
                JsonMember {
                    key: "count".to_string(),
                    value: JsonValue::Int(-7),
                },
                JsonMember {
                    key: "flags".to_string(),
                    value: JsonValue::Array(vec![JsonValue::Bool(true), JsonValue::Null]),
                },
                JsonMember {
                    key: "language".to_string(),
                    value: JsonValue::Str("python".to_string()),
                },
            ]);
            assert!(r.params.deep_eq(&sorted));
        }
        other => panic!("expected a request, got {other:?}"),
    }
}

#[test]
fn round_trip_non_ascii_payload() {
    let note = Notification {
        method: "héllo/∑".to_string(),
        params: JsonValue::Str("grüße 😀".to_string()),
    };
    let mut wire: Vec<u8> = Vec::new();
    Message::Notification(note).write(&mut wire);
    match read_one(wire).unwrap().unwrap() {
        Message::Notification(n) => {
            assert_eq!(n.method, "héllo/∑");
            assert!(n.params.deep_eq(&JsonValue::Str("grüße 😀".to_string())));
        }
        other => panic!("expected a notification, got {other:?}"),
    }
}

#[test]
fn framing_missing_terminator_is_error() {
    // header block never ends: the trailing bytes form a line without CRLF
    let bytes = b"Content-Length: 5\r\nhello".to_vec();
    assert!(matches!(
        read_one(bytes),
        Err(ReadError::Frame(FrameError::MalformedHeader))
    ));
}

#[test]
fn framing_line_without_crlf_is_error() {
    let bytes = b"Content-Length: 5\n\r\nhello".to_vec();
    assert!(matches!(
        read_one(bytes),
        Err(ReadError::Frame(FrameError::MalformedHeader))
    ));
}

#[test]
fn framing_non_numeric_length_is_error() {
    let bytes = b"Content-Length: five\r\n\r\nhello".to_vec();
    assert!(matches!(
        read_one(bytes),
        Err(ReadError::Frame(FrameError::MalformedHeader))
    ));
}

#[test]
fn framing_missing_content_length_is_error() {
    let bytes = b"Content-Type: text\r\n\r\nhello".to_vec();
    assert!(matches!(
        read_one(bytes),
        Err(ReadError::Frame(FrameError::MissingContentLength))
    ));
}

#[test]
fn exact_length_is_consumed_and_no_more() {
    let frame_len = b"Content-Length: 4\r\n\r\nnull".len();
    let mut cur = ByteCursor::new(b"Content-Length: 4\r\n\r\nnullEXTRA".to_vec());
    let text = ast_rs::codec::read_msg_text(&mut cur).unwrap().unwrap();
    assert_eq!(text, "null");
    assert_eq!(cur.pos, frame_len);
}

#[test]
fn truncated_payload_is_error() {
    let bytes = b"Content-Length: 10\r\n\r\nhi".to_vec();
    assert!(matches!(
        read_one(bytes),
        Err(ReadError::Frame(FrameError::UnexpectedEof))
    ));
}

#[test]
fn invalid_utf8_payload_is_error() {
    let mut bytes = b"Content-Length: 1\r\n\r\n".to_vec();
    bytes.push(0xff);
    assert!(matches!(
        read_one(bytes),
        Err(ReadError::Frame(FrameError::InvalidUtf8))
    ));
}

#[test]
fn end_of_stream_yields_no_message_repeatedly() {
    let mut cur = ByteCursor::new(Vec::new());
    assert!(matches!(Message::read(&mut cur), Ok(None)));
    assert!(matches!(Message::read(&mut cur), Ok(None)));
    assert_eq!(cur.pos, 0);
}

#[test]
fn queue_is_fifo() {
    let a = Message::Notification(Notification {
        method: "a".to_string(),
        params: JsonValue::Null,
    });
    let b = Message::Notification(Notification {
        method: "b".to_string(),
        params: JsonValue::Null,
    });
    let c = Message::Notification(Notification {
        method: "c".to_string(),
        params: JsonValue::Null,
    });
    let mut q = MessageQueue::new();
    q.send(a);
    q.send(b);
    q.send(c);
    let names: Vec<String> = (0..3)
        .map(|_| match q.recv().unwrap() {
            Message::Notification(n) => n.method,
            other => panic!("unexpected {other:?}"),
        })
        .collect();
    assert_eq!(names, vec!["a".to_string(), "b".to_string(), "c".to_string()]);
    assert!(q.recv().is_none());
}

#[test]
fn stream_writes_preserve_submission_order() {
    let mut wire: Vec<u8> = Vec::new();
    for name in ["x", "y", "z"] {
        Message::Notification(Notification {
            method: name.to_string(),
            params: JsonValue::Null,
        })
        .write(&mut wire);
    }
    let mut cur = ByteCursor::new(wire);
    let mut seen: Vec<String> = Vec::new();
    while let Ok(Some(m)) = Message::read(&mut cur) {
        match m {
            Message::Notification(n) => seen.push(n.method),
            other => panic!("unexpected {other:?}"),
        }
    }
    assert_eq!(seen, vec!["x".to_string(), "y".to_string(), "z".to_string()]);
}

#[test]
fn shutdown_request_gets_success_response() {
    let req = Request {
        id: RequestId::from(1),
        method: "shutdown".to_string(),
        params: JsonValue::Null,
    };
    let resp = shutdown_response(&req).unwrap();
    assert_eq!(resp.id, RequestId::from(1));
    assert!(resp.result.unwrap().deep_eq(&JsonValue::Null));
    assert!(resp.error.is_none());
}

#[test]
fn shutdown_followed_by_exit_is_clean() {
    let exit = Message::Notification(Notification {
        method: "exit".to_string(),
        params: JsonValue::Null,
    });
    assert!(judge_shutdown_followup(FollowupEvent::Received(exit)).is_ok());
}

#[test]
fn shutdown_followed_by_other_message_is_violation() {
    let other = Message::Notification(Notification {
        method: "initialized".to_string(),
        params: JsonValue::Null,
    });
    let err = judge_shutdown_followup(FollowupEvent::Received(other)).unwrap_err();
    assert_eq!(err.message(), "unexpected message during shutdown");
}

#[test]
fn shutdown_timeout_is_violation() {
    let err = judge_shutdown_followup(FollowupEvent::TimedOut).unwrap_err();
    assert_eq!(err.message(), "unexpected error during shutdown");
    let err2 = judge_shutdown_followup(FollowupEvent::Closed).unwrap_err();
    assert_eq!(err2.message(), "unexpected error during shutdown");
}

#[test]
fn non_shutdown_request_passes_through() {
    let req = Request {
        id: RequestId::from(5),
        method: "ParseAstInRange".to_string(),
        params: JsonValue::Null,
    };
    assert!(shutdown_response(&req).is_none());
}
