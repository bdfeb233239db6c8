//! The AST request payloads and the dispatch decisions of the server's main
//! loop: which language a request names, which error response a bad request
//! earns, and how results are shaped for the wire.

use vstd::prelude::*;

use crate::json::{lemma_jv_members, obj_get, JsonMember, JsonValue, Jv};
use crate::msg::{ErrV, Request, RespV, Response};

verus! {

broadcast use vstd::string::group_string_axioms;

/// A zero-based line/column position in a source text.
#[derive(Debug, Clone, PartialEq, Eq, Structural)]
pub struct Position {
    pub line: usize,
    pub character: usize,
}

/// The parameters of a request to parse a source text and describe the
/// syntax node under the cursor.
#[derive(Debug, Clone, PartialEq, Eq)]
pub struct ParseAstInRangeParams {
    pub language: String,
    pub cursor_position: Position,
    pub code: String,
}

/// One described syntax node: its s-expression and its extent.
#[derive(Debug, Clone, PartialEq, Eq)]
pub struct AstBlock {
    pub ast_result: String,
    pub start_point: Position,
    pub end_point: Position,
}

/// The answer to an AST request: the node under the cursor and, when it has
/// one, its parent.
#[derive(Debug, Clone, PartialEq, Eq)]
pub struct ParseAstInRangeResponse {
    pub ast_result: String,
    pub parent: Option<AstBlock>,
    pub start_point: Position,
    pub end_point: Position,
}

/// The model of the parameters.
pub struct ParamsV {
    pub language: Seq<char>,
    pub line: int,
    pub character: int,
    pub code: Seq<char>,
}

impl ParseAstInRangeParams {
    /// The model of these parameters.
    pub open spec fn pav(self) -> ParamsV {
        ParamsV {
            language: self.language@,
            line: self.cursor_position.line as int,
            character: self.cursor_position.character as int,
            code: self.code@,
        }
    }
}

/// How a position decodes from its wire object: non-negative `line` and
/// `character` numbers that fit the machine's word.
pub open spec fn parse_position_jv(j: Jv) -> Option<(int, int)> {
    match j {
        Jv::Obj(es) => match (obj_get(es, "line"@), obj_get(es, "character"@)) {
            (Some(Jv::Int(l)), Some(Jv::Int(c))) => if 0 <= l <= usize::MAX && 0 <= c
                <= usize::MAX {
                Some((l, c))
            } else {
                None
            },
            _ => None,
        },
        _ => None,
    }
}

/// How the parameters decode from their wire object: a string `language`,
/// a `cursorPosition` object, and a string `code`.
pub open spec fn parse_params_jv(j: Jv) -> Option<ParamsV> {
    match j {
        Jv::Obj(ms) => match (
            obj_get(ms, "language"@),
            obj_get(ms, "cursorPosition"@),
            obj_get(ms, "code"@),
        ) {
            (Some(Jv::Str(lang)), Some(pj), Some(Jv::Str(code))) => match parse_position_jv(pj) {
                Some((l, c)) => Some(ParamsV { language: lang, line: l, character: c, code }),
                None => None,
            },
            _ => None,
        },
        _ => None,
    }
}

/// The decoded position of a wire value, if it has the required shape.
fn position_from_json(v: &JsonValue) -> (r: Option<Position>)
    ensures
        match r {
            Some(p) => parse_position_jv(v.jv()) == Some((p.line as int, p.character as int)),
            None => parse_position_jv(v.jv()) is None,
        },
{
    let es = match v {
        JsonValue::Object(fs) => fs,
        _ => {
            return None;
        },
    };
    let line: usize = match crate::json::lookup(es, "line") {
        Some(JsonValue::Int(l)) => if *l >= 0 && (*l as u64) <= (usize::MAX as u64) {
            *l as usize
        } else {
            return None;
        },
        _ => {
            return None;
        },
    };
    let character: usize = match crate::json::lookup(es, "character") {
        Some(JsonValue::Int(c)) => if *c >= 0 && (*c as u64) <= (usize::MAX as u64) {
            *c as usize
        } else {
            return None;
        },
        _ => {
            return None;
        },
    };
    Some(Position { line, character })
}

impl ParseAstInRangeParams {
    /// The decoded parameters of a wire value, if it has the required
    /// shape.
    pub fn from_json(v: &JsonValue) -> (r: Option<ParseAstInRangeParams>)
        ensures
            match r {
                Some(p) => parse_params_jv(v.jv()) == Some(p.pav()),
                None => parse_params_jv(v.jv()) is None,
            },
    {
        let ms = match v {
            JsonValue::Object(fs) => fs,
            _ => {
                return None;
            },
        };
        let language: String = match crate::json::lookup(ms, "language") {
            Some(JsonValue::Str(s)) => s.clone(),
            _ => {
                return None;
            },
        };
        let cursor_position: Position = match crate::json::lookup(ms, "cursorPosition") {
            Some(pj) => match position_from_json(pj) {
                Some(p) => p,
                None => {
                    return None;
                },
            },
            _ => {
                return None;
            },
        };
        let code: String = match crate::json::lookup(ms, "code") {
            Some(JsonValue::Str(s)) => s.clone(),
            _ => {
                return None;
            },
        };
        Some(ParseAstInRangeParams { language, cursor_position, code })
    }
}

/// The wire object of a position.
pub open spec fn position_jv(line: int, character: int) -> Jv {
    Jv::Obj(seq![("line"@, Jv::Int(line)), ("character"@, Jv::Int(character))])
}

/// The wire object of a described node.
pub open spec fn ast_block_jv(b: AstBlock) -> Jv {
    Jv::Obj(
        seq![
            ("astResult"@, Jv::Str(b.ast_result@)),
            ("startPoint"@, position_jv(b.start_point.line as int, b.start_point.character as int)),
            ("endPoint"@, position_jv(b.end_point.line as int, b.end_point.character as int)),
        ],
    )
}

/// The wire object of an AST answer: the parent is null when absent.
pub open spec fn ast_response_jv(a: ParseAstInRangeResponse) -> Jv {
    Jv::Obj(
        seq![
            ("astResult"@, Jv::Str(a.ast_result@)),
            (
                "parent"@,
                match a.parent {
                    Some(b) => ast_block_jv(b),
                    None => Jv::Null,
                },
            ),
            ("startPoint"@, position_jv(a.start_point.line as int, a.start_point.character as int)),
            ("endPoint"@, position_jv(a.end_point.line as int, a.end_point.character as int)),
        ],
    )
}

/// Whether a position's coordinates fit the wire's 64-bit signed numbers.
pub open spec fn position_wf(p: Position) -> bool {
    p.line as int <= i64::MAX as int && p.character as int <= i64::MAX as int
}

/// Whether a node description's coordinates fit the wire's numbers.
pub open spec fn block_wf(b: AstBlock) -> bool {
    position_wf(b.start_point) && position_wf(b.end_point)
}

/// Whether an answer's coordinates fit the wire's numbers.
pub open spec fn answer_wf(a: ParseAstInRangeResponse) -> bool {
    position_wf(a.start_point) && position_wf(a.end_point) && (match a.parent {
        Some(b) => block_wf(b),
        None => true,
    })
}

impl Position {
    /// The wire object of this position.
    pub fn to_json(&self) -> (r: JsonValue)
        requires
            position_wf(*self),
        ensures
            r.jv() == position_jv(self.line as int, self.character as int),
    {
        let mut es: Vec<JsonMember> = Vec::new();
        es.push(JsonMember { key: "line".to_owned(), value: JsonValue::Int(self.line as i64) });
        es.push(
            JsonMember {
                key: "character".to_owned(),
                value: JsonValue::Int(self.character as i64),
            },
        );
        proof {
            lemma_jv_members(es, 0);
            assert(JsonValue::jv_members(es, 0) =~= (
            match position_jv(self.line as int, self.character as int) {
                Jv::Obj(s) => s,
                _ => Seq::empty(),
            }));
        }
        JsonValue::Object(es)
    }
}

impl AstBlock {
    /// The wire object of this node description.
    pub fn to_json(&self) -> (r: JsonValue)
        requires
            block_wf(*self),
        ensures
            r.jv() == ast_block_jv(*self),
    {
        let mut es: Vec<JsonMember> = Vec::new();
        es.push(
            JsonMember {
                key: "astResult".to_owned(),
                value: JsonValue::Str(self.ast_result.clone()),
            },
        );
        es.push(JsonMember { key: "startPoint".to_owned(), value: self.start_point.to_json() });
        es.push(JsonMember { key: "endPoint".to_owned(), value: self.end_point.to_json() });
        proof {
            lemma_jv_members(es, 0);
            assert(JsonValue::jv_members(es, 0) =~= (
            match ast_block_jv(*self) {
                Jv::Obj(s) => s,
                _ => Seq::empty(),
            }));
        }
        JsonValue::Object(es)
    }
}

impl ParseAstInRangeResponse {
    /// The wire object of this answer.
    pub fn to_json(&self) -> (r: JsonValue)
        requires
            answer_wf(*self),
        ensures
            r.jv() == ast_response_jv(*self),
    {
        let mut es: Vec<JsonMember> = Vec::new();
        es.push(
            JsonMember {
                key: "astResult".to_owned(),
                value: JsonValue::Str(self.ast_result.clone()),
            },
        );
        let parent_value = match &self.parent {
            Some(b) => b.to_json(),
            None => JsonValue::Null,
        };
        es.push(JsonMember { key: "parent".to_owned(), value: parent_value });
        es.push(JsonMember { key: "startPoint".to_owned(), value: self.start_point.to_json() });
        es.push(JsonMember { key: "endPoint".to_owned(), value: self.end_point.to_json() });
        proof {
            lemma_jv_members(es, 0);
            assert(JsonValue::jv_members(es, 0) =~= (
            match ast_response_jv(*self) {
                Jv::Obj(s) => s,
                _ => Seq::empty(),
            }));
        }
        JsonValue::Object(es)
    }
}

/// A language whose grammar the server can load.
#[derive(Debug, Clone, Copy, PartialEq, Eq, Structural)]
pub enum LanguageKind {
    Python,
    C,
    Javascript,
    Typescript,
    Golang,
    Java,
    Cpp,
    Csharp,
    Rust,
}

/// The name under which each supported language is requested.
pub open spec fn language_kind_of(s: Seq<char>) -> Option<LanguageKind> {
    if s == "python"@ {
        Some(LanguageKind::Python)
    } else if s == "c"@ {
        Some(LanguageKind::C)
    } else if s == "javascript"@ {
        Some(LanguageKind::Javascript)
    } else if s == "typescript"@ {
        Some(LanguageKind::Typescript)
    } else if s == "golang"@ {
        Some(LanguageKind::Golang)
    } else if s == "java"@ {
        Some(LanguageKind::Java)
    } else if s == "cpp"@ {
        Some(LanguageKind::Cpp)
    } else if s == "csharp"@ {
        Some(LanguageKind::Csharp)
    } else if s == "rust"@ {
        Some(LanguageKind::Rust)
    } else {
        None
    }
}

/// The language a request names, if it is supported.
pub fn language_from_name(s: &str) -> (r: Option<LanguageKind>)
    ensures
        r == language_kind_of(s@),
{
    if crate::text::str_eq(s, "python") {
        Some(LanguageKind::Python)
    } else if crate::text::str_eq(s, "c") {
        Some(LanguageKind::C)
    } else if crate::text::str_eq(s, "javascript") {
        Some(LanguageKind::Javascript)
    } else if crate::text::str_eq(s, "typescript") {
        Some(LanguageKind::Typescript)
    } else if crate::text::str_eq(s, "golang") {
        Some(LanguageKind::Golang)
    } else if crate::text::str_eq(s, "java") {
        Some(LanguageKind::Java)
    } else if crate::text::str_eq(s, "cpp") {
        Some(LanguageKind::Cpp)
    } else if crate::text::str_eq(s, "csharp") {
        Some(LanguageKind::Csharp)
    } else if crate::text::str_eq(s, "rust") {
        Some(LanguageKind::Rust)
    } else {
        None
    }
}

/// What the main loop decides to do with one inbound request.
#[derive(Debug)]
pub enum RequestPlan {
    /// The request asks to shut the session down.
    Shutdown,
    /// A well-formed AST request for a supported language: parse and
    /// answer.
    Ast(LanguageKind, ParseAstInRangeParams),
    /// The request earns this error response.
    Reply(Response),
    /// The AST request's parameters do not decode; the session is torn
    /// down.
    Fatal,
}

/// The error response with code 1 and the given text.
pub open spec fn err_reply(id: crate::msg::IdV, message: Seq<char>) -> RespV {
    RespV { id, result: None, error: Some(ErrV { code: 1, message, data: None }) }
}

/// The decision the main loop owes each inbound request: the shutdown
/// request starts the handshake; an AST request with undecodable
/// parameters is fatal; an unsupported language or empty code earns the
/// matching error response; a well-formed AST request is handed to the
/// parser; and any other method earns the `invalid method` response.
pub fn plan_request(req: &Request) -> (r: RequestPlan)
    ensures
        match r {
            RequestPlan::Shutdown => req.method@ == "shutdown"@,
            RequestPlan::Fatal => req.method@ == "ParseAstInRange"@ && parse_params_jv(
                req.params.jv(),
            ) is None,
            RequestPlan::Ast(kind, p) => req.method@ == "ParseAstInRange"@ && parse_params_jv(
                req.params.jv(),
            ) == Some(p.pav()) && language_kind_of(p.language@) == Some(kind) && p.code@.len()
                > 0,
            RequestPlan::Reply(resp) => req.method@ != "shutdown"@ && (if req.method@
                != "ParseAstInRange"@ {
                resp.pv() == err_reply(req.id.idv(), "invalid method"@)
            } else {
                match parse_params_jv(req.params.jv()) {
                    Some(pv) => (language_kind_of(pv.language) is None && resp.pv() == err_reply(
                        req.id.idv(),
                        "invalid language"@,
                    )) || (language_kind_of(pv.language) is Some && pv.code.len() == 0
                        && resp.pv() == err_reply(req.id.idv(), "code is empty"@)),
                    None => false,
                }
            }),
        },
{
    if req.is_shutdown() {
        return RequestPlan::Shutdown;
    }
    if !crate::text::str_eq(req.method.as_str(), "ParseAstInRange") {
        return RequestPlan::Reply(
            Response::new_err(req.id.deep_clone(), 1, "invalid method".to_owned()),
        );
    }
    let params = match ParseAstInRangeParams::from_json(&req.params) {
        Some(p) => p,
        None => {
            return RequestPlan::Fatal;
        },
    };
    let kind = match language_from_name(params.language.as_str()) {
        Some(k) => k,
        None => {
            return RequestPlan::Reply(
                Response::new_err(req.id.deep_clone(), 1, "invalid language".to_owned()),
            );
        },
    };
    if params.code.as_str().is_empty() {
        return RequestPlan::Reply(
            Response::new_err(req.id.deep_clone(), 1, "code is empty".to_owned()),
        );
    }
    RequestPlan::Ast(kind, params)
}

/// The success response answering an AST request: the answer's wire object
/// as the result, under the request's id.
pub fn ast_success_response(id: crate::msg::RequestId, answer: &ParseAstInRangeResponse) -> (r:
    Response)
    requires
        answer_wf(*answer),
    ensures
        r.pv() == (RespV {
            id: id.idv(),
            result: Some(ast_response_jv(*answer)),
            error: None,
        }),
{
    Response::new_ok(id, answer.to_json())
}

} // verus!
