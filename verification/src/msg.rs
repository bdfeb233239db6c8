//! The message model: the tagged union of requests, responses and
//! notifications, its mathematical model, and the translation to and from
//! the untagged JSON wire shape.

use vstd::prelude::*;

use crate::json::{
    lemma_jv_members, lemma_obj_get_hit, lemma_obj_get_miss, obj_get, JsonMember, JsonValue, Jv,
};

verus! {

broadcast use vstd::string::group_string_axioms;

/// A request identifier: either a 32-bit signed integer or a string.
/// The two representations are distinct end to end: the numeric id `92`
/// is a different identifier from the string id `"92"`.
#[derive(Debug, Clone, PartialEq, Eq, PartialOrd, Ord, Hash)]
pub enum IdRepr {
    I32(i32),
    Str(String),
}

/// An opaque request identifier, echoed back in responses.
#[derive(Debug, Clone, PartialEq, Eq, PartialOrd, Ord, Hash)]
pub struct RequestId(pub IdRepr);

/// The model of a request identifier.
pub enum IdV {
    Num(int),
    Name(Seq<char>),
}

impl RequestId {
    /// The model of this identifier.
    pub open spec fn idv(self) -> IdV {
        match self.0 {
            IdRepr::I32(n) => IdV::Num(n as int),
            IdRepr::Str(s) => IdV::Name(s@),
        }
    }

    /// An identifier denoting the same id.
    pub fn deep_clone(&self) -> (r: RequestId)
        ensures
            r.idv() == self.idv(),
    {
        match &self.0 {
            IdRepr::I32(n) => RequestId(IdRepr::I32(*n)),
            IdRepr::Str(s) => RequestId(IdRepr::Str(s.clone())),
        }
    }
}

impl From<i32> for RequestId {
    fn from(id: i32) -> (r: RequestId) {
        RequestId(IdRepr::I32(id))
    }
}

impl vstd::std_specs::convert::FromSpecImpl<i32> for RequestId {
    open spec fn obeys_from_spec() -> bool {
        true
    }

    open spec fn from_spec(id: i32) -> RequestId {
        RequestId(IdRepr::I32(id))
    }
}

impl From<String> for RequestId {
    fn from(id: String) -> (r: RequestId) {
        RequestId(IdRepr::Str(id))
    }
}

impl vstd::std_specs::convert::FromSpecImpl<String> for RequestId {
    open spec fn obeys_from_spec() -> bool {
        true
    }

    open spec fn from_spec(id: String) -> RequestId {
        RequestId(IdRepr::Str(id))
    }
}

/// A call expecting a response correlated by `id`.
#[derive(Debug)]
pub struct Request {
    pub id: RequestId,
    pub method: String,
    pub params: JsonValue,
}

/// The answer to a request, carrying the request's id and either a result
/// or an error (well-formed peers send exactly one; both may be absent on
/// the wire, which decodes as a response with no payload).
#[derive(Debug)]
pub struct Response {
    pub id: RequestId,
    pub result: Option<JsonValue>,
    pub error: Option<ResponseError>,
}

/// The error payload of a failed response.
#[derive(Debug)]
pub struct ResponseError {
    pub code: i32,
    pub message: String,
    pub data: Option<JsonValue>,
}

/// A one-way message; no response is expected.
#[derive(Debug)]
pub struct Notification {
    pub method: String,
    pub params: JsonValue,
}

/// The tagged union of the three message kinds. The wire shape is untagged:
/// the variant is inferred from which fields are present.
#[derive(Debug)]
pub enum Message {
    Request(Request),
    Response(Response),
    Notification(Notification),
}

/// The model of a request.
pub struct ReqV {
    pub id: IdV,
    pub method: Seq<char>,
    pub params: Jv,
}

/// The model of a response error.
pub struct ErrV {
    pub code: int,
    pub message: Seq<char>,
    pub data: Option<Jv>,
}

/// The model of a response.
pub struct RespV {
    pub id: IdV,
    pub result: Option<Jv>,
    pub error: Option<ErrV>,
}

/// The model of a notification.
pub struct NoteV {
    pub method: Seq<char>,
    pub params: Jv,
}

/// The model of a message.
pub enum MsgV {
    Request(ReqV),
    Response(RespV),
    Notification(NoteV),
}

impl ResponseError {
    /// The model of this error payload.
    pub open spec fn ev(self) -> ErrV {
        ErrV {
            code: self.code as int,
            message: self.message@,
            data: match self.data {
                Some(d) => Some(d.jv()),
                None => None,
            },
        }
    }
}

impl Request {
    /// The model of this request.
    pub open spec fn rv(self) -> ReqV {
        ReqV { id: self.id.idv(), method: self.method@, params: self.params.jv() }
    }
}

impl Response {
    /// The model of this response.
    pub open spec fn pv(self) -> RespV {
        RespV {
            id: self.id.idv(),
            result: match self.result {
                Some(r) => Some(r.jv()),
                None => None,
            },
            error: match self.error {
                Some(e) => Some(e.ev()),
                None => None,
            },
        }
    }
}

impl Notification {
    /// The model of this notification.
    pub open spec fn nv(self) -> NoteV {
        NoteV { method: self.method@, params: self.params.jv() }
    }
}

impl Message {
    /// The model of this message.
    pub open spec fn mv(self) -> MsgV {
        match self {
            Message::Request(r) => MsgV::Request(r.rv()),
            Message::Response(r) => MsgV::Response(r.pv()),
            Message::Notification(n) => MsgV::Notification(n.nv()),
        }
    }
}

impl From<Request> for Message {
    fn from(request: Request) -> (r: Message) {
        Message::Request(request)
    }
}

impl vstd::std_specs::convert::FromSpecImpl<Request> for Message {
    open spec fn obeys_from_spec() -> bool {
        true
    }

    open spec fn from_spec(request: Request) -> Message {
        Message::Request(request)
    }
}

impl From<Response> for Message {
    fn from(response: Response) -> (r: Message) {
        Message::Response(response)
    }
}

impl vstd::std_specs::convert::FromSpecImpl<Response> for Message {
    open spec fn obeys_from_spec() -> bool {
        true
    }

    open spec fn from_spec(response: Response) -> Message {
        Message::Response(response)
    }
}

impl From<Notification> for Message {
    fn from(notification: Notification) -> (r: Message) {
        Message::Notification(notification)
    }
}

impl vstd::std_specs::convert::FromSpecImpl<Notification> for Message {
    open spec fn obeys_from_spec() -> bool {
        true
    }

    open spec fn from_spec(notification: Notification) -> Message {
        Message::Notification(notification)
    }
}

impl Response {
    /// A success response answering `id` with the given result.
    pub fn new_ok(id: RequestId, result: JsonValue) -> (r: Response)
        ensures
            r.pv() == (RespV { id: id.idv(), result: Some(result.jv()), error: None }),
    {
        Response { id, result: Some(result), error: None }
    }

    /// A failure response answering `id` with the given code and message.
    pub fn new_err(id: RequestId, code: i32, message: String) -> (r: Response)
        ensures
            r.pv() == (RespV {
                id: id.idv(),
                result: None,
                error: Some(ErrV { code: code as int, message: message@, data: None }),
            }),
    {
        let error = ResponseError { code, message, data: None };
        Response { id, result: None, error: Some(error) }
    }
}

/// The outcome of extracting the payload of a message whose method did
/// not match: the message is handed back untouched.
#[derive(Debug)]
pub enum ExtractError<T> {
    MethodMismatch(T),
}

impl Request {
    /// A request built from its parts.
    pub fn new(id: RequestId, method: String, params: JsonValue) -> (r: Request)
        ensures
            r.rv() == (ReqV { id: id.idv(), method: method@, params: params.jv() }),
    {
        Request { id, method, params }
    }

    /// The id and parameters, if this request's method is `method`;
    /// otherwise the request itself, unchanged.
    pub fn extract(self, method: &str) -> (r: Result<(RequestId, JsonValue), ExtractError<
        Request,
    >>)
        ensures
            match r {
                Ok((id, params)) => self.method@ == method@ && id.idv() == self.id.idv()
                    && params.jv() == self.params.jv(),
                Err(ExtractError::MethodMismatch(req)) => self.method@ != method@ && req.rv()
                    == self.rv(),
            },
    {
        if !crate::text::str_eq(self.method.as_str(), method) {
            return Err(ExtractError::MethodMismatch(self));
        }
        Ok((self.id, self.params))
    }

    /// Whether this request asks the session to shut down.
    pub fn is_shutdown(&self) -> (r: bool)
        ensures
            r == (self.method@ == "shutdown"@),
    {
        crate::text::str_eq(self.method.as_str(), "shutdown")
    }
}

impl Notification {
    /// A notification built from its parts.
    pub fn new(method: String, params: JsonValue) -> (r: Notification)
        ensures
            r.nv() == (NoteV { method: method@, params: params.jv() }),
    {
        Notification { method, params }
    }

    /// The parameters, if this notification's method is `method`;
    /// otherwise the notification itself, unchanged.
    pub fn extract(self, method: &str) -> (r: Result<JsonValue, ExtractError<Notification>>)
        ensures
            match r {
                Ok(params) => self.method@ == method@ && params.jv() == self.params.jv(),
                Err(ExtractError::MethodMismatch(n)) => self.method@ != method@ && n.nv()
                    == self.nv(),
            },
    {
        if !crate::text::str_eq(self.method.as_str(), method) {
            return Err(ExtractError::MethodMismatch(self));
        }
        Ok(self.params)
    }

    /// Whether this notification announces that the peer is exiting.
    pub fn is_exit(&self) -> (r: bool)
        ensures
            r == (self.method@ == "exit"@),
    {
        crate::text::str_eq(self.method.as_str(), "exit")
    }
}

/// The wire shape of an identifier: a number or a string.
pub open spec fn id_jv(id: IdV) -> Jv {
    match id {
        IdV::Num(n) => Jv::Int(n),
        IdV::Name(s) => Jv::Str(s),
    }
}

/// A `params` member carrying `p`, omitted when `p` is null.
pub open spec fn params_tail(p: Jv) -> Seq<(Seq<char>, Jv)> {
    if p == Jv::Null {
        Seq::empty()
    } else {
        seq![("params"@, p)]
    }
}

/// The members of the wire object of a request.
pub open spec fn req_jv(r: ReqV) -> Seq<(Seq<char>, Jv)> {
    seq![
        ("jsonrpc"@, Jv::Str("2.0"@)),
        ("id"@, id_jv(r.id)),
        ("method"@, Jv::Str(r.method)),
    ] + params_tail(r.params)
}

/// The wire object of a response error.
pub open spec fn err_jv(e: ErrV) -> Jv {
    Jv::Obj(
        seq![("code"@, Jv::Int(e.code)), ("message"@, Jv::Str(e.message))] + match e.data {
            Some(d) => seq![("data"@, d)],
            None => Seq::empty(),
        },
    )
}

/// The members of the wire object of a response.
pub open spec fn resp_jv(p: RespV) -> Seq<(Seq<char>, Jv)> {
    seq![("jsonrpc"@, Jv::Str("2.0"@)), ("id"@, id_jv(p.id))] + (match p.result {
        Some(r) => seq![("result"@, r)],
        None => Seq::empty(),
    }) + (match p.error {
        Some(e) => seq![("error"@, err_jv(e))],
        None => Seq::empty(),
    })
}

/// The members of the wire object of a notification.
pub open spec fn note_jv(n: NoteV) -> Seq<(Seq<char>, Jv)> {
    seq![("jsonrpc"@, Jv::Str("2.0"@)), ("method"@, Jv::Str(n.method))] + params_tail(n.params)
}

/// The wire object of a message: its own members plus the fixed
/// `jsonrpc: "2.0"` envelope member.
pub open spec fn msg_jv(m: MsgV) -> Jv {
    match m {
        MsgV::Request(r) => Jv::Obj(req_jv(r)),
        MsgV::Response(p) => Jv::Obj(resp_jv(p)),
        MsgV::Notification(n) => Jv::Obj(note_jv(n)),
    }
}

/// How an `id` member decodes: a number must fit in 32 signed bits,
/// a string stands for itself, anything else is rejected.
pub open spec fn parse_idv(j: Jv) -> Option<IdV> {
    match j {
        Jv::Int(n) => if i32::MIN <= n <= i32::MAX {
            Some(IdV::Num(n))
        } else {
            None
        },
        Jv::Str(s) => Some(IdV::Name(s)),
        _ => None,
    }
}

/// The decoded parameters of a wire object: the `params` member, or null
/// when absent.
pub open spec fn params_of(ms: Seq<(Seq<char>, Jv)>) -> Jv {
    match obj_get(ms, "params"@) {
        Some(p) => p,
        None => Jv::Null,
    }
}

/// How an `error` member decodes: an object with an integer `code` fitting
/// 32 signed bits, a string `message`, and an optional `data` member.
pub open spec fn parse_errv(j: Jv) -> Option<ErrV> {
    match j {
        Jv::Obj(es) => match (obj_get(es, "code"@), obj_get(es, "message"@)) {
            (Some(Jv::Int(c)), Some(Jv::Str(m))) => if i32::MIN <= c <= i32::MAX {
                Some(ErrV { code: c, message: m, data: obj_get(es, "data"@) })
            } else {
                None
            },
            _ => None,
        },
        _ => None,
    }
}

/// The structural classification of a decoded JSON value as a message:
/// an object with both `id` and `method` is a request, with `id` alone a
/// response, with `method` alone a notification; anything else is rejected.
pub open spec fn classify_jv(j: Jv) -> Option<MsgV> {
    match j {
        Jv::Obj(ms) => {
            let idm = obj_get(ms, "id"@);
            let methodm = obj_get(ms, "method"@);
            match idm {
                Some(idj) => match methodm {
                    Some(mj) => match (parse_idv(idj), mj) {
                        (Some(id), Jv::Str(m)) => Some(
                            MsgV::Request(ReqV { id, method: m, params: params_of(ms) }),
                        ),
                        _ => None,
                    },
                    None => match parse_idv(idj) {
                        Some(id) => match obj_get(ms, "error"@) {
                            Some(ej) => match parse_errv(ej) {
                                Some(e) => Some(
                                    MsgV::Response(
                                        RespV {
                                            id,
                                            result: obj_get(ms, "result"@),
                                            error: Some(e),
                                        },
                                    ),
                                ),
                                None => None,
                            },
                            None => Some(
                                MsgV::Response(
                                    RespV { id, result: obj_get(ms, "result"@), error: None },
                                ),
                            ),
                        },
                        None => None,
                    },
                },
                None => match methodm {
                    Some(Jv::Str(m)) => Some(
                        MsgV::Notification(NoteV { method: m, params: params_of(ms) }),
                    ),
                    _ => None,
                },
            }
        },
        _ => None,
    }
}

/// Identifiers whose number, if any, fits in 32 signed bits.
pub open spec fn idv_wf(id: IdV) -> bool {
    match id {
        IdV::Num(n) => i32::MIN <= n <= i32::MAX,
        IdV::Name(_) => true,
    }
}

/// Messages whose identifier and error code, if any, fit in 32 signed
/// bits. Every `Message` value models to a well-formed `MsgV`.
pub open spec fn msgv_wf(m: MsgV) -> bool {
    match m {
        MsgV::Request(r) => idv_wf(r.id),
        MsgV::Response(p) => idv_wf(p.id) && (match p.error {
            Some(e) => i32::MIN <= e.code <= i32::MAX,
            None => true,
        }),
        MsgV::Notification(_) => true,
    }
}

/// Messages whose embedded payloads — parameters, result, error data —
/// carry only 64-bit integers. Every `Message` value models to one.
pub open spec fn msgv_payloads_wf(m: MsgV) -> bool {
    match m {
        MsgV::Request(r) => crate::parse::jv_wf(r.params),
        MsgV::Response(p) => (match p.result {
            Some(j) => crate::parse::jv_wf(j),
            None => true,
        }) && (match p.error {
            Some(e) => match e.data {
                Some(d) => crate::parse::jv_wf(d),
                None => true,
            },
            None => true,
        }),
        MsgV::Notification(n) => crate::parse::jv_wf(n.params),
    }
}

/// The model of any message value is well-formed, payloads included.
pub proof fn lemma_message_wf(m: Message)
    ensures
        msgv_wf(m.mv()),
        msgv_payloads_wf(m.mv()),
{
    match m {
        Message::Request(r) => {
            crate::parse::lemma_jsonvalue_wf(r.params);
        },
        Message::Response(p) => {
            match p.result {
                Some(j) => {
                    crate::parse::lemma_jsonvalue_wf(j);
                },
                None => {},
            }
            match p.error {
                Some(e) => {
                    match e.data {
                        Some(d) => {
                            crate::parse::lemma_jsonvalue_wf(d);
                        },
                        None => {},
                    }
                },
                None => {},
            }
        },
        Message::Notification(n) => {
            crate::parse::lemma_jsonvalue_wf(n.params);
        },
    }
}

/// The wire object of a well-formed message is itself a well-formed value.
#[verifier::rlimit(100)]
#[verifier::spinoff_prover]
pub proof fn lemma_msg_jv_wf(m: MsgV)
    requires
        msgv_wf(m),
        msgv_payloads_wf(m),
    ensures
        crate::parse::jv_wf(msg_jv(m)),
{
    match m {
        MsgV::Request(r) => {
            let ms = req_jv(r);
            assert(ms[0] == ("jsonrpc"@, Jv::Str("2.0"@)));
            assert(ms[1] == ("id"@, id_jv(r.id)));
            assert(ms[2] == ("method"@, Jv::Str(r.method)));
            assert forall|j: int| 0 <= j < ms.len() implies crate::parse::jv_wf(
                #[trigger] ms[j].1,
            ) by {
                if j == 3 {
                    assert(ms[3] == ("params"@, r.params));
                }
            }
            crate::parse::lemma_jv_obj_wf_build(ms, 0);
        },
        MsgV::Response(p) => {
            let ms = resp_jv(p);
            assert(ms[0] == ("jsonrpc"@, Jv::Str("2.0"@)));
            assert(ms[1] == ("id"@, id_jv(p.id)));
            match p.error {
                Some(e) => {
                    let es = match err_jv(e) {
                        Jv::Obj(s) => s,
                        _ => Seq::empty(),
                    };
                    assert(es[0] == ("code"@, Jv::Int(e.code)));
                    assert(es[1] == ("message"@, Jv::Str(e.message)));
                    assert forall|j: int| 0 <= j < es.len() implies crate::parse::jv_wf(
                        #[trigger] es[j].1,
                    ) by {
                        if j == 2 {
                            match e.data {
                                Some(d) => {
                                    assert(es[2] == ("data"@, d));
                                },
                                None => {},
                            }
                        }
                    }
                    crate::parse::lemma_jv_obj_wf_build(es, 0);
                },
                None => {},
            }
            assert forall|j: int| 0 <= j < ms.len() implies crate::parse::jv_wf(
                #[trigger] ms[j].1,
            ) by {
                match (p.result, p.error) {
                    (Some(res), Some(e)) => {
                        assert(ms[2] == ("result"@, res));
                        assert(ms[3] == ("error"@, err_jv(e)));
                    },
                    (Some(res), None) => {
                        assert(ms[2] == ("result"@, res));
                    },
                    (None, Some(e)) => {
                        assert(ms[2] == ("error"@, err_jv(e)));
                    },
                    (None, None) => {},
                }
            }
            crate::parse::lemma_jv_obj_wf_build(ms, 0);
        },
        MsgV::Notification(n) => {
            let ms = note_jv(n);
            assert(ms[0] == ("jsonrpc"@, Jv::Str("2.0"@)));
            assert(ms[1] == ("method"@, Jv::Str(n.method)));
            assert forall|j: int| 0 <= j < ms.len() implies crate::parse::jv_wf(
                #[trigger] ms[j].1,
            ) by {
                if j == 2 {
                    assert(ms[2] == ("params"@, n.params));
                }
            }
            crate::parse::lemma_jv_obj_wf_build(ms, 0);
        },
    }
}

/// The member keys of the wire objects are pairwise distinct.
proof fn lemma_wire_lits()
    ensures
        "jsonrpc"@.len() == 7,
        "id"@.len() == 2,
        "method"@.len() == 6,
        "params"@.len() == 6,
        "result"@.len() == 6,
        "error"@.len() == 5,
        "code"@.len() == 4,
        "message"@.len() == 7,
        "data"@.len() == 4,
        "method"@ != "params"@,
        "method"@ != "result"@,
        "params"@ != "result"@,
        "code"@ != "data"@,
{
    reveal_strlit("jsonrpc");
    reveal_strlit("id");
    reveal_strlit("method");
    reveal_strlit("params");
    reveal_strlit("result");
    reveal_strlit("error");
    reveal_strlit("code");
    reveal_strlit("message");
    reveal_strlit("data");
    assert("method"@[0] == 'm');
    assert("params"@[0] == 'p');
    assert("result"@[0] == 'r');
    assert("code"@[0] == 'c');
    assert("data"@[0] == 'd');
}

/// A well-formed error payload survives the trip onto the wire shape and
/// back.
pub proof fn lemma_err_round_trip(e: ErrV)
    requires
        i32::MIN <= e.code <= i32::MAX,
    ensures
        parse_errv(err_jv(e)) == Some(e),
{
    lemma_wire_lits();
    let es = match err_jv(e) {
        Jv::Obj(s) => s,
        _ => Seq::empty(),
    };
    assert(es[0] == ("code"@, Jv::Int(e.code)));
    assert(es[1] == ("message"@, Jv::Str(e.message)));
    lemma_obj_get_hit(es, "code"@, 0);
    lemma_obj_get_hit(es, "message"@, 1);
    match e.data {
        Some(d) => {
            assert(es[2] == ("data"@, d));
            lemma_obj_get_hit(es, "data"@, 2);
        },
        None => {
            lemma_obj_get_miss(es, "data"@);
        },
    }
    assert(parse_errv(err_jv(e)) == Some(
        ErrV { code: e.code, message: e.message, data: e.data },
    ));
}

/// Round trip of the wire object: a well-formed message, rendered into its
/// untagged wire shape, classifies back to exactly itself — requests stay
/// requests, responses stay responses, notifications stay notifications,
/// and every field, the numeric-or-string identifier included, is
/// preserved.
pub proof fn lemma_wire_round_trip(m: MsgV)
    requires
        msgv_wf(m),
    ensures
        classify_jv(msg_jv(m)) == Some(m),
{
    lemma_wire_lits();
    match m {
        MsgV::Request(r) => {
            let ms = req_jv(r);
            assert(ms[0] == ("jsonrpc"@, Jv::Str("2.0"@)));
            assert(ms[1] == ("id"@, id_jv(r.id)));
            assert(ms[2] == ("method"@, Jv::Str(r.method)));
            lemma_obj_get_hit(ms, "id"@, 1);
            lemma_obj_get_hit(ms, "method"@, 2);
            if r.params == Jv::Null {
                lemma_obj_get_miss(ms, "params"@);
            } else {
                assert(ms[3] == ("params"@, r.params));
                lemma_obj_get_hit(ms, "params"@, 3);
            }
            assert(params_of(ms) == r.params);
            assert(classify_jv(msg_jv(m)) == Some(
                MsgV::Request(ReqV { id: r.id, method: r.method, params: r.params }),
            ));
        },
        MsgV::Response(p) => {
            let ms = resp_jv(p);
            assert(ms[0] == ("jsonrpc"@, Jv::Str("2.0"@)));
            assert(ms[1] == ("id"@, id_jv(p.id)));
            match (p.result, p.error) {
                (Some(res), Some(e)) => {
                    assert(ms[2] == ("result"@, res));
                    assert(ms[3] == ("error"@, err_jv(e)));
                    lemma_obj_get_hit(ms, "id"@, 1);
                    lemma_obj_get_miss(ms, "method"@);
                    lemma_obj_get_hit(ms, "result"@, 2);
                    lemma_obj_get_hit(ms, "error"@, 3);
                    lemma_err_round_trip(e);
                },
                (Some(res), None) => {
                    assert(ms[2] == ("result"@, res));
                    lemma_obj_get_hit(ms, "id"@, 1);
                    lemma_obj_get_miss(ms, "method"@);
                    lemma_obj_get_hit(ms, "result"@, 2);
                    lemma_obj_get_miss(ms, "error"@);
                },
                (None, Some(e)) => {
                    assert(ms[2] == ("error"@, err_jv(e)));
                    lemma_obj_get_hit(ms, "id"@, 1);
                    lemma_obj_get_miss(ms, "method"@);
                    lemma_obj_get_miss(ms, "result"@);
                    lemma_obj_get_hit(ms, "error"@, 2);
                    lemma_err_round_trip(e);
                },
                (None, None) => {
                    lemma_obj_get_hit(ms, "id"@, 1);
                    lemma_obj_get_miss(ms, "method"@);
                    lemma_obj_get_miss(ms, "result"@);
                    lemma_obj_get_miss(ms, "error"@);
                },
            }
            assert(classify_jv(msg_jv(m)) == Some(
                MsgV::Response(RespV { id: p.id, result: p.result, error: p.error }),
            ));
        },
        MsgV::Notification(n) => {
            let ms = note_jv(n);
            assert(ms[0] == ("jsonrpc"@, Jv::Str("2.0"@)));
            assert(ms[1] == ("method"@, Jv::Str(n.method)));
            lemma_obj_get_miss(ms, "id"@);
            lemma_obj_get_hit(ms, "method"@, 1);
            if n.params == Jv::Null {
                lemma_obj_get_miss(ms, "params"@);
            } else {
                assert(ms[2] == ("params"@, n.params));
                lemma_obj_get_hit(ms, "params"@, 2);
            }
            assert(params_of(ms) == n.params);
            assert(classify_jv(msg_jv(m)) == Some(
                MsgV::Notification(NoteV { method: n.method, params: n.params }),
            ));
        },
    }
}

/// The wire shape of an identifier, as a value.
fn id_to_json(id: &RequestId) -> (r: JsonValue)
    ensures
        r.jv() == id_jv(id.idv()),
{
    match &id.0 {
        IdRepr::I32(n) => JsonValue::Int(*n as i64),
        IdRepr::Str(s) => JsonValue::Str(s.clone()),
    }
}

/// The wire shape of a response error, as a value.
fn err_to_json(e: &ResponseError) -> (r: JsonValue)
    ensures
        r.jv() == err_jv(e.ev()),
{
    let mut es: Vec<JsonMember> = Vec::new();
    es.push(JsonMember { key: "code".to_owned(), value: JsonValue::Int(e.code as i64) });
    es.push(
        JsonMember { key: "message".to_owned(), value: JsonValue::Str(e.message.clone()) },
    );
    match &e.data {
        Some(d) => {
            es.push(JsonMember { key: "data".to_owned(), value: d.deep_clone() });
        },
        None => {},
    }
    proof {
        lemma_jv_members(es, 0);
        assert(JsonValue::jv_members(es, 0) =~= (
        match err_jv(e.ev()) {
            Jv::Obj(s) => s,
            _ => Seq::empty(),
        }));
    }
    JsonValue::Object(es)
}

impl Message {
    /// The wire object of this message.
    pub fn to_json(&self) -> (r: JsonValue)
        ensures
            r.jv() == msg_jv(self.mv()),
    {
        let mut ms: Vec<JsonMember> = Vec::new();
        ms.push(
            JsonMember { key: "jsonrpc".to_owned(), value: JsonValue::Str("2.0".to_owned()) },
        );
        match self {
            Message::Request(req) => {
                ms.push(JsonMember { key: "id".to_owned(), value: id_to_json(&req.id) });
                ms.push(
                    JsonMember {
                        key: "method".to_owned(),
                        value: JsonValue::Str(req.method.clone()),
                    },
                );
                if !req.params.is_null() {
                    ms.push(
                        JsonMember { key: "params".to_owned(), value: req.params.deep_clone() },
                    );
                }
                proof {
                    lemma_jv_members(ms, 0);
                    assert(JsonValue::jv_members(ms, 0) =~= req_jv(req.rv()));
                }
            },
            Message::Response(resp) => {
                ms.push(JsonMember { key: "id".to_owned(), value: id_to_json(&resp.id) });
                match &resp.result {
                    Some(r) => {
                        ms.push(JsonMember { key: "result".to_owned(), value: r.deep_clone() });
                    },
                    None => {},
                }
                match &resp.error {
                    Some(e) => {
                        ms.push(JsonMember { key: "error".to_owned(), value: err_to_json(e) });
                    },
                    None => {},
                }
                proof {
                    lemma_jv_members(ms, 0);
                    assert(JsonValue::jv_members(ms, 0) =~= resp_jv(resp.pv()));
                }
            },
            Message::Notification(note) => {
                ms.push(
                    JsonMember {
                        key: "method".to_owned(),
                        value: JsonValue::Str(note.method.clone()),
                    },
                );
                if !note.params.is_null() {
                    ms.push(
                        JsonMember {
                            key: "params".to_owned(),
                            value: note.params.deep_clone(),
                        },
                    );
                }
                proof {
                    lemma_jv_members(ms, 0);
                    assert(JsonValue::jv_members(ms, 0) =~= note_jv(note.nv()));
                }
            },
        }
        JsonValue::Object(ms)
    }
}

/// The decoded identifier of an `id` member, if it has an accepted shape.
fn parse_id(v: &JsonValue) -> (r: Option<RequestId>)
    ensures
        match r {
            Some(id) => parse_idv(v.jv()) == Some(id.idv()),
            None => parse_idv(v.jv()) is None,
        },
{
    match v {
        JsonValue::Int(n) => if *n >= i32::MIN as i64 && *n <= i32::MAX as i64 {
            Some(RequestId(IdRepr::I32(*n as i32)))
        } else {
            None
        },
        JsonValue::Str(s) => Some(RequestId(IdRepr::Str(s.clone()))),
        _ => None,
    }
}

/// The decoded error payload of an `error` member, if it has the required
/// shape.
fn parse_err(v: &JsonValue) -> (r: Option<ResponseError>)
    ensures
        match r {
            Some(e) => parse_errv(v.jv()) == Some(e.ev()),
            None => parse_errv(v.jv()) is None,
        },
{
    let es = match v {
        JsonValue::Object(fs) => fs,
        _ => {
            return None;
        },
    };
    let code: i32 = match crate::json::lookup(es, "code") {
        Some(JsonValue::Int(c)) => if *c >= i32::MIN as i64 && *c <= i32::MAX as i64 {
            *c as i32
        } else {
            return None;
        },
        _ => {
            return None;
        },
    };
    let message: String = match crate::json::lookup(es, "message") {
        Some(JsonValue::Str(m)) => m.clone(),
        _ => {
            return None;
        },
    };
    let data: Option<JsonValue> = match crate::json::lookup(es, "data") {
        Some(d) => Some(d.deep_clone()),
        None => None,
    };
    Some(ResponseError { code, message, data })
}

/// The decoded parameters of a wire object: its `params` member, or null
/// when absent.
fn params_from(fields: &Vec<JsonMember>) -> (r: JsonValue)
    ensures
        r.jv() == params_of(JsonValue::jv_members(*fields, 0)),
{
    match crate::json::lookup(fields, "params") {
        Some(p) => p.deep_clone(),
        None => JsonValue::Null,
    }
}

impl Message {
    /// The message a decoded JSON value stands for, classified by which
    /// fields are present, or nothing if the value fits no message kind.
    pub fn from_json(v: &JsonValue) -> (r: Option<Message>)
        ensures
            match r {
                Some(m) => classify_jv(v.jv()) == Some(m.mv()),
                None => classify_jv(v.jv()) is None,
            },
    {
        let fields = match v {
            JsonValue::Object(fs) => fs,
            _ => {
                return None;
            },
        };
        let id_member = crate::json::lookup(fields, "id");
        let method_member = crate::json::lookup(fields, "method");
        match id_member {
            Some(idj) => {
                match method_member {
                    Some(JsonValue::Str(m)) => {
                        let id = match parse_id(idj) {
                            Some(id) => id,
                            None => {
                                return None;
                            },
                        };
                        let params = params_from(fields);
                        Some(
                            Message::Request(Request { id, method: m.clone(), params }),
                        )
                    },
                    Some(_) => None,
                    None => {
                        let id = match parse_id(idj) {
                            Some(id) => id,
                            None => {
                                return None;
                            },
                        };
                        let result: Option<JsonValue> = match crate::json::lookup(
                            fields,
                            "result",
                        ) {
                            Some(r) => Some(r.deep_clone()),
                            None => None,
                        };
                        let error: Option<ResponseError> = match crate::json::lookup(
                            fields,
                            "error",
                        ) {
                            Some(ej) => match parse_err(ej) {
                                Some(e) => Some(e),
                                None => {
                                    return None;
                                },
                            },
                            None => None,
                        };
                        Some(Message::Response(Response { id, result, error }))
                    },
                }
            },
            None => {
                match method_member {
                    Some(JsonValue::Str(m)) => {
                        let params = params_from(fields);
                        Some(
                            Message::Notification(
                                Notification { method: m.clone(), params },
                            ),
                        )
                    },
                    _ => None,
                }
            },
        }
    }
}

/// Round trip of a whole written message, through every layer: the frame
/// written for a well-formed message `m`, followed by anything else on the
/// stream, parses back to exactly the text of `m`'s wire object, consuming
/// exactly the frame; that text parses back to exactly `m`'s wire object;
/// and the wire object classifies back to `m` itself — ids, numeric or
/// string, methods, and every payload preserved.
pub proof fn lemma_message_bytes_round_trip(m: MsgV, rest: Seq<u8>)
    requires
        msgv_wf(m),
        msgv_payloads_wf(m),
        vstd::utf8::encode_utf8(crate::render::print_jv(msg_jv(m))).len() <= usize::MAX,
    ensures
        ({
            let bytes = vstd::utf8::encode_utf8(crate::render::print_jv(msg_jv(m)));
            crate::codec::frame_parse(crate::codec::frame_of(bytes) + rest)
                == (crate::codec::FrameParse::Msg {
                text: crate::render::print_jv(msg_jv(m)),
                used: crate::codec::frame_of(bytes).len() as int,
            })
        }),
        crate::parse::json_parse(crate::render::print_jv(msg_jv(m))) == Some(msg_jv(m)),
        classify_jv(msg_jv(m)) == Some(m),
{
    let text = crate::render::print_jv(msg_jv(m));
    let bytes = vstd::utf8::encode_utf8(text);
    vstd::utf8::encode_utf8_valid_utf8(text);
    vstd::utf8::encode_utf8_decode_utf8(text);
    crate::codec::lemma_frame_round_trip(bytes, rest);
    lemma_msg_jv_wf(m);
    crate::parse::lemma_json_parse_print(msg_jv(m));
    lemma_wire_round_trip(m);
}

/// Why a message could not be read.
#[derive(Debug, Clone, Copy, PartialEq, Eq)]
pub enum ReadError {
    /// The frame around the payload is broken.
    Frame(crate::codec::FrameError),
    /// The payload is not a JSON value of any message shape.
    JsonDecode,
}

impl Message {
    /// One message read off the stream: a frame, its payload parsed as
    /// JSON (`json_parse`), and the value classified as a message
    /// (`classify_jv`). An exhausted stream at a line boundary yields no
    /// message; a broken frame yields its framing error; a payload that is
    /// not the JSON of any message kind yields the decode error; and a
    /// payload that is yields exactly the message it denotes.
    pub fn read(r: &mut crate::codec::ByteCursor) -> (res: Result<Option<Message>, ReadError>)
        requires
            old(r).wf(),
        ensures
            final(r).wf(),
            final(r).data@ == old(r).data@,
            match crate::codec::frame_parse(old(r).remaining()) {
                crate::codec::FrameParse::NoMsg { used } => res == Ok::<
                    Option<Message>,
                    ReadError,
                >(None) && final(r).pos == old(r).pos + used,
                crate::codec::FrameParse::Fail { err, used } => res == Err::<
                    Option<Message>,
                    ReadError,
                >(ReadError::Frame(err)) && final(r).pos == old(r).pos + used,
                crate::codec::FrameParse::Msg { text, used } => final(r).pos == old(r).pos + used
                    && (match res {
                    Ok(Some(m)) => msgv_wf(m.mv()) && (match crate::parse::json_parse(text) {
                        Some(j) => classify_jv(j) == Some(m.mv()),
                        None => false,
                    }),
                    Ok(None) => false,
                    Err(e) => e == ReadError::JsonDecode && (match crate::parse::json_parse(
                        text,
                    ) {
                        Some(j) => classify_jv(j) is None,
                        None => true,
                    }),
                }),
            },
    {
        let text = match crate::codec::read_msg_text(r) {
            Ok(Some(t)) => t,
            Ok(None) => {
                return Ok(None);
            },
            Err(e) => {
                return Err(ReadError::Frame(e));
            },
        };
        let v = match crate::parse::parse_text(text.as_str()) {
            Some(v) => v,
            None => {
                return Err(ReadError::JsonDecode);
            },
        };
        match Message::from_json(&v) {
            Some(m) => {
                proof {
                    lemma_message_wf(m);
                }
                Ok(Some(m))
            },
            None => Err(ReadError::JsonDecode),
        }
    }

    /// This message written onto the stream: exactly one frame whose
    /// payload is the message's wire object rendered as JSON text.
    pub fn write(self, w: &mut Vec<u8>)
        ensures
            final(w)@ == old(w)@ + crate::codec::frame_of(
                vstd::utf8::encode_utf8(crate::render::print_jv(msg_jv(self.mv()))),
            ),
    {
        let v = self.to_json();
        let text = crate::render::to_text(&v);
        crate::codec::write_msg_text(w, text.as_str());
    }
}

} // verus!
