use ast_rs::ast::{
    language_from_name, plan_request, AstBlock, LanguageKind, ParseAstInRangeParams,
    ParseAstInRangeResponse, Position, RequestPlan,
};
use ast_rs::json::{JsonMember, JsonValue};
use ast_rs::msg::{Request, RequestId};
use ast_rs::parse::parse_text;
use ast_rs::render::to_text;

fn obj(members: Vec<(&str, JsonValue)>) -> JsonValue {
    JsonValue::Object(
        members
            .into_iter()
            .map(|(k, v)| JsonMember {
                key: k.to_string(),
                value: v,
            })
            .collect(),
    )
}

fn s(text: &str) -> JsonValue {
    JsonValue::Str(text.to_string())
}

#[test]
fn render_produces_exact_text() {
    let v = obj(vec![
        ("a", JsonValue::Array(vec![JsonValue::Int(1), JsonValue::Int(-2)])),
        ("b", s("x\"y\\z\n")),
        ("c", JsonValue::Bool(false)),
        ("d", JsonValue::Null),
    ]);
    assert_eq!(
        to_text(&v),
        "{\"a\":[1,-2],\"b\":\"x\\\"y\\\\z\\n\",\"c\":false,\"d\":null}"
    );
}

#[test]
fn render_escapes_control_characters() {
    let v = s("\u{0001}\u{0008}");
    assert_eq!(to_text(&v), "\"\\u0001\\u0008\"");
}

#[test]
fn render_extreme_integers() {
    assert_eq!(to_text(&JsonValue::Int(i64::MIN)), "-9223372036854775808");
    assert_eq!(to_text(&JsonValue::Int(i64::MAX)), "9223372036854775807");
    assert_eq!(to_text(&JsonValue::Int(0)), "0");
}

#[test]
fn parse_reads_whitespace_and_nesting() {
    let v = parse_text(" { \"k\" : [ 1 , true , null , \"a b\" ] } ").unwrap();
    let expected = obj(vec![(
        "k",
        JsonValue::Array(vec![JsonValue::Int(1), JsonValue::Bool(true), JsonValue::Null, s("a b")]),
    )]);
    assert!(v.deep_eq(&expected));
}

#[test]
fn parse_handles_escapes_and_surrogates() {
    let v = parse_text("\"\\u0041\\n\\t\\\\ \\ud83d\\ude00\"").unwrap();
    assert!(v.deep_eq(&s("A\n\t\\ \u{1F600}")));
}

#[test]
fn parse_round_trips_rendered_text() {
    let v = obj(vec![
        ("text", s("héllo\r\n\t\"quoted\"")),
        ("n", JsonValue::Int(-42)),
        ("deep", JsonValue::Array(vec![obj(vec![("x", JsonValue::Null)])])),
    ]);
    let text = to_text(&v);
    let back = parse_text(&text).unwrap();
    assert!(back.deep_eq(&v));
}

#[test]
fn parse_rejects_broken_text() {
    assert!(parse_text("").is_none());
    assert!(parse_text("{").is_none());
    assert!(parse_text("[1,]").is_none());
    assert!(parse_text("{\"a\" 1}").is_none());
    assert!(parse_text("\"unterminated").is_none());
    assert!(parse_text("nul").is_none());
    assert!(parse_text("1 2").is_none());
    assert!(parse_text("\"\\ud800\"").is_none());
}

#[test]
fn parse_rejects_leading_zeros() {
    assert!(parse_text("01").is_none());
    assert!(parse_text("-01").is_none());
    assert!(parse_text("0").unwrap().deep_eq(&JsonValue::Int(0)));
    assert!(parse_text("-0").unwrap().deep_eq(&JsonValue::Int(0)));
}

#[test]
fn parse_rejects_fractions_and_overflow() {
    assert!(parse_text("1.5").is_none());
    assert!(parse_text("1e3").is_none());
    assert!(parse_text("9223372036854775808").is_none());
    assert!(parse_text("-9223372036854775809").is_none());
    assert!(parse_text("-9223372036854775808")
        .unwrap()
        .deep_eq(&JsonValue::Int(i64::MIN)));
}

#[test]
fn language_table_matches_names() {
    assert_eq!(language_from_name("python"), Some(LanguageKind::Python));
    assert_eq!(language_from_name("c"), Some(LanguageKind::C));
    assert_eq!(language_from_name("javascript"), Some(LanguageKind::Javascript));
    assert_eq!(language_from_name("typescript"), Some(LanguageKind::Typescript));
    assert_eq!(language_from_name("golang"), Some(LanguageKind::Golang));
    assert_eq!(language_from_name("java"), Some(LanguageKind::Java));
    assert_eq!(language_from_name("cpp"), Some(LanguageKind::Cpp));
    assert_eq!(language_from_name("csharp"), Some(LanguageKind::Csharp));
    assert_eq!(language_from_name("rust"), Some(LanguageKind::Rust));
    assert_eq!(language_from_name("go"), None);
    assert_eq!(language_from_name("Python"), None);
}

fn params_json(language: &str, code: &str) -> JsonValue {
    obj(vec![
        ("language", s(language)),
        (
            "cursorPosition",
            obj(vec![
                ("line", JsonValue::Int(3)),
                ("character", JsonValue::Int(14)),
            ]),
        ),
        ("code", s(code)),
    ])
}

#[test]
fn params_decode_from_wire_shape() {
    let p = ParseAstInRangeParams::from_json(&params_json("python", "x = 1")).unwrap();
    assert_eq!(p.language, "python");
    assert_eq!(p.cursor_position, Position { line: 3, character: 14 });
    assert_eq!(p.code, "x = 1");
    assert!(ParseAstInRangeParams::from_json(&s("nope")).is_none());
    assert!(ParseAstInRangeParams::from_json(&obj(vec![("language", s("c"))])).is_none());
}

#[test]
fn plan_answers_invalid_method() {
    let req = Request {
        id: RequestId::from(2),
        method: "textDocument/hover".to_string(),
        params: JsonValue::Null,
    };
    match plan_request(&req) {
        RequestPlan::Reply(resp) => {
            assert_eq!(resp.id, RequestId::from(2));
            let e = resp.error.unwrap();
            assert_eq!(e.code, 1);
            assert_eq!(e.message, "invalid method");
        }
        other => panic!("unexpected plan {other:?}"),
    }
}

#[test]
fn plan_answers_invalid_language() {
    let req = Request {
        id: RequestId::from(3),
        method: "ParseAstInRange".to_string(),
        params: params_json("cobol", "x"),
    };
    match plan_request(&req) {
        RequestPlan::Reply(resp) => {
            let e = resp.error.unwrap();
            assert_eq!(e.code, 1);
            assert_eq!(e.message, "invalid language");
        }
        other => panic!("unexpected plan {other:?}"),
    }
}

#[test]
fn plan_answers_empty_code() {
    let req = Request {
        id: RequestId::from(4),
        method: "ParseAstInRange".to_string(),
        params: params_json("rust", ""),
    };
    match plan_request(&req) {
        RequestPlan::Reply(resp) => {
            let e = resp.error.unwrap();
            assert_eq!(e.code, 1);
            assert_eq!(e.message, "code is empty");
        }
        other => panic!("unexpected plan {other:?}"),
    }
}

#[test]
fn plan_accepts_well_formed_request() {
    let req = Request {
        id: RequestId::from(5),
        method: "ParseAstInRange".to_string(),
        params: params_json("java", "class A {}"),
    };
    match plan_request(&req) {
        RequestPlan::Ast(kind, p) => {
            assert_eq!(kind, LanguageKind::Java);
            assert_eq!(p.code, "class A {}");
        }
        other => panic!("unexpected plan {other:?}"),
    }
}

#[test]
fn plan_is_fatal_on_undecodable_params() {
    let req = Request {
        id: RequestId::from(6),
        method: "ParseAstInRange".to_string(),
        params: JsonValue::Int(3),
    };
    assert!(matches!(plan_request(&req), RequestPlan::Fatal));
}

#[test]
fn plan_recognizes_shutdown() {
    let req = Request {
        id: RequestId::from(1),
        method: "shutdown".to_string(),
        params: JsonValue::Null,
    };
    assert!(matches!(plan_request(&req), RequestPlan::Shutdown));
}

#[test]
fn ast_answer_renders_camel_case_members() {
    let answer = ParseAstInRangeResponse {
        ast_result: "(identifier)".to_string(),
        parent: Some(AstBlock {
            ast_result: "(module)".to_string(),
            start_point: Position { line: 0, character: 0 },
            end_point: Position { line: 2, character: 0 },
        }),
        start_point: Position { line: 1, character: 4 },
        end_point: Position { line: 1, character: 9 },
    };
    let v = answer.to_json();
    let text = to_text(&v);
    let outside: serde_json::Value = serde_json::from_str(&text).unwrap();
    assert_eq!(outside["astResult"], serde_json::Value::String("(identifier)".to_string()));
    assert_eq!(outside["parent"]["astResult"], serde_json::Value::String("(module)".to_string()));
    assert_eq!(outside["startPoint"]["line"], serde_json::Value::from(1));
    assert_eq!(outside["endPoint"]["character"], serde_json::Value::from(9));
}
