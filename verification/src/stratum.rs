//! A server for miners that speak stratum: one JSON request per line, one JSON answer per line.
use crate::text::{copy_text, decimal_text};
use std::marker::PhantomData;
use vstd::prelude::*;
use vstd::string::*;

verus! {

/// The port that a server listens on if none is given.
pub const DEFAULT_PORT: u16 = 3333;

/// A request of a miner.
#[derive(Debug, Clone)]
pub enum StratumRequest {
    /// A miner introduces itself.
    Login { id: String, login: String, pass: String, agent: String },
    /// A miner found a nonce.
    Submit { id: String, job_id: String, nonce: String },
}

/// What a [`StratumRequest`] holds.
pub enum RequestView {
    Login { id: Seq<char>, login: Seq<char>, pass: Seq<char>, agent: Seq<char> },
    Submit { id: Seq<char>, job_id: Seq<char>, nonce: Seq<char> },
}

impl View for StratumRequest {
    type V = RequestView;

    open spec fn view(&self) -> RequestView {
        match *self {
            StratumRequest::Login { id, login, pass, agent } => RequestView::Login {
                id: id@,
                login: login@,
                pass: pass@,
                agent: agent@,
            },
            StratumRequest::Submit { id, job_id, nonce } => RequestView::Submit {
                id: id@,
                job_id: job_id@,
                nonce: nonce@,
            },
        }
    }
}

impl RequestView {
    /// The request's number.
    pub open spec fn number(self) -> Seq<char> {
        match self {
            RequestView::Login { id, .. } => id,
            RequestView::Submit { id, .. } => id,
        }
    }
}

impl StratumRequest {
    /// The request's number.
    pub fn id(&self) -> (id: &str)
        ensures
            id@ == self@.number(),
    {
        match self {
            StratumRequest::Login { id, .. } => id.as_str(),
            StratumRequest::Submit { id, .. } => id.as_str(),
        }
    }
}

/// Why a line is no request.
#[derive(Debug, Clone, Copy, PartialEq, Eq, Structural)]
pub enum StratumError {
    /// The line is not JSON.
    NotJson,
    /// There is no method, or it is no text.
    NoMethod,
    /// There is no number, or it is no integer.
    NoId,
    /// A login has no object of parameters.
    NoParams,
    /// A login has no login.
    NoLogin,
    /// A login has no password.
    NoPass,
    /// A login has no agent.
    NoAgent,
    /// A submission does not list a job and a nonce.
    BadSubmit,
    /// There is no such method.
    UnknownMethod,
}

impl StratumError {
    /// What users are told.
    pub open spec fn text(self) -> Seq<char> {
        match self {
            StratumError::NotJson => "Invalid JSON"@,
            StratumError::NoMethod => "Json missing method field"@,
            StratumError::NoId => "Invalid JSON. Json missing id field"@,
            StratumError::NoParams => "Invalid JSON.params missing"@,
            StratumError::NoLogin => "Invalid JSON. login missing"@,
            StratumError::NoPass => "Invalid JSON. pass missing"@,
            StratumError::NoAgent => "Invalid JSON. agent missing"@,
            StratumError::BadSubmit => "Invalid JSON"@,
            StratumError::UnknownMethod => "Unknown method"@,
        }
    }

    /// What users are told.
    pub fn message(&self) -> (text: &'static str)
        ensures
            text@ == self.text(),
    {
        match self {
            StratumError::NotJson => "Invalid JSON",
            StratumError::NoMethod => "Json missing method field",
            StratumError::NoId => "Invalid JSON. Json missing id field",
            StratumError::NoParams => "Invalid JSON.params missing",
            StratumError::NoLogin => "Invalid JSON. login missing",
            StratumError::NoPass => "Invalid JSON. pass missing",
            StratumError::NoAgent => "Invalid JSON. agent missing",
            StratumError::BadSubmit => "Invalid JSON",
            StratumError::UnknownMethod => "Unknown method",
        }
    }
}

/// A value in a JSON text, without what lists and objects hold.
pub enum Json {
    Null,
    Bool(bool),
    /// A number, where it is an integer that fits.
    Number(Option<i64>),
    Text(String),
    List,
    Object,
}

/// What a [`Json`] holds.
pub enum JsonView {
    Null,
    Bool(bool),
    Number(Option<i64>),
    Text(Seq<char>),
    List,
    Object,
}

impl View for Json {
    type V = JsonView;

    open spec fn view(&self) -> JsonView {
        match *self {
            Json::Null => JsonView::Null,
            Json::Bool(value) => JsonView::Bool(value),
            Json::Number(value) => JsonView::Number(value),
            Json::Text(text) => JsonView::Text(text@),
            Json::List => JsonView::List,
            Json::Object => JsonView::Object,
        }
    }
}

/// Why `serde_json` could not read a text.
#[verifier::external_type_specification]
#[verifier::external_body]
pub struct ExJsonError(serde_json::Error);

/// The value at a place of a JSON text, if there is one; `None` if the text is not JSON.
pub uninterp spec fn json_value_at(text: Seq<char>, pointer: Seq<char>) -> Option<Option<JsonView>>;

/// What an optional value holds.
pub open spec fn opt_json(value: Option<Json>) -> Option<JsonView> {
    match value {
        Some(v) => Some(v@),
        None => None,
    }
}

/// `serde_json::from_str` and `serde_json::Value::pointer`: reads a text as JSON, and finds the value at a place that is
/// named by a JSON pointer. What comes of it depends on the text and the pointer alone, and is given a name; nothing
/// more is claimed of it.
#[verifier::external_body]
fn json_at(text: &str, pointer: &str) -> (found: Result<Option<Json>, serde_json::Error>)
    ensures
        match found {
            Ok(value) => json_value_at(text@, pointer@) == Some(opt_json(value)),
            Err(_) => json_value_at(text@, pointer@) is None,
        },
{
    let document: serde_json::Value = serde_json::from_str(text)?;
    Ok(match document.pointer(pointer) {
        None => None,
        Some(serde_json::Value::Null) => Some(Json::Null),
        Some(serde_json::Value::Bool(value)) => Some(Json::Bool(*value)),
        Some(serde_json::Value::Number(value)) => Some(Json::Number(value.as_i64())),
        Some(serde_json::Value::String(value)) => Some(Json::Text(value.to_owned())),
        Some(serde_json::Value::Array(_)) => Some(Json::List),
        Some(serde_json::Value::Object(_)) => Some(Json::Object),
    })
}

/// What a request may hold. What is missing is `None`.
pub struct Fields {
    pub method: Option<Json>,
    pub id: Option<Json>,
    pub params: Option<Json>,
    pub login: Option<Json>,
    pub pass: Option<Json>,
    pub agent: Option<Json>,
    /// The first of the listed parameters.
    pub job_id: Option<Json>,
    /// The second of the listed parameters.
    pub nonce: Option<Json>,
}

/// What a [`Fields`] holds.
pub struct FieldsView {
    pub method: Option<JsonView>,
    pub id: Option<JsonView>,
    pub params: Option<JsonView>,
    pub login: Option<JsonView>,
    pub pass: Option<JsonView>,
    pub agent: Option<JsonView>,
    pub job_id: Option<JsonView>,
    pub nonce: Option<JsonView>,
}

impl View for Fields {
    type V = FieldsView;

    open spec fn view(&self) -> FieldsView {
        FieldsView {
            method: opt_json(self.method),
            id: opt_json(self.id),
            params: opt_json(self.params),
            login: opt_json(self.login),
            pass: opt_json(self.pass),
            agent: opt_json(self.agent),
            job_id: opt_json(self.job_id),
            nonce: opt_json(self.nonce),
        }
    }
}

/// The value at a place of a JSON text.
pub open spec fn place(text: Seq<char>, pointer: Seq<char>) -> Option<JsonView> {
    json_value_at(text, pointer).unwrap()
}

impl FieldsView {
    /// What a line holds; `None` if it is not JSON.
    pub open spec fn of_line(line: Seq<char>) -> Option<FieldsView> {
        if json_value_at(line, "/method"@) is None || json_value_at(line, "/id"@) is None || json_value_at(
            line,
            "/params"@,
        ) is None || json_value_at(line, "/params/login"@) is None || json_value_at(line, "/params/pass"@) is None
            || json_value_at(line, "/params/agent"@) is None || json_value_at(line, "/params/0"@) is None
            || json_value_at(line, "/params/1"@) is None {
            None
        } else {
            Some(
                FieldsView {
                    method: place(line, "/method"@),
                    id: place(line, "/id"@),
                    params: place(line, "/params"@),
                    login: place(line, "/params/login"@),
                    pass: place(line, "/params/pass"@),
                    agent: place(line, "/params/agent"@),
                    job_id: place(line, "/params/0"@),
                    nonce: place(line, "/params/1"@),
                },
            )
        }
    }

    /// The request, or why there is none.
    pub open spec fn request(self) -> Result<RequestView, StratumError> {
        match (self.method, self.id) {
            (Some(JsonView::Text(method)), Some(JsonView::Number(Some(number)))) => {
                let id = signed_decimal(number as int);
                if method == "login"@ {
                    match (self.params, self.login, self.pass, self.agent) {
                        (
                            Some(JsonView::Object),
                            Some(JsonView::Text(login)),
                            Some(JsonView::Text(pass)),
                            Some(JsonView::Text(agent)),
                        ) => Ok(RequestView::Login { id, login, pass, agent }),
                        (Some(JsonView::Object), Some(JsonView::Text(_)), Some(JsonView::Text(_)), _) => Err(
                            StratumError::NoAgent,
                        ),
                        (Some(JsonView::Object), Some(JsonView::Text(_)), _, _) => Err(StratumError::NoPass),
                        (Some(JsonView::Object), _, _, _) => Err(StratumError::NoLogin),
                        _ => Err(StratumError::NoParams),
                    }
                } else if method == "submit"@ {
                    match (self.params, self.job_id, self.nonce) {
                        (Some(JsonView::List), Some(JsonView::Text(job_id)), Some(JsonView::Text(nonce))) => Ok(
                            RequestView::Submit { id, job_id, nonce },
                        ),
                        _ => Err(StratumError::BadSubmit),
                    }
                } else {
                    Err(StratumError::UnknownMethod)
                }
            },
            (Some(JsonView::Text(_)), _) => Err(StratumError::NoId),
            _ => Err(StratumError::NoMethod),
        }
    }
}

/// An integer in decimal.
pub open spec fn signed_decimal(n: int) -> Seq<char> {
    if n < 0 {
        seq!['-'] + crate::text::decimal((-n) as nat)
    } else {
        crate::text::decimal(n as nat)
    }
}

fn signed_decimal_text(n: i64) -> (text: String)
    ensures
        text@ == signed_decimal(n as int),
{
    if n >= 0 {
        return decimal_text(n as u64);
    }
    let mut text = copy_text("-");
    proof {
        reveal_strlit("-");
        assert("-"@ =~= seq!['-']);
    }
    let size: u64 = if n == i64::MIN {
        0x8000_0000_0000_0000
    } else {
        (-n) as u64
    };
    text.append(decimal_text(size).as_str());
    text
}

/// Whether a result is the one that was meant.
pub open spec fn same_request(
    result: Result<StratumRequest, StratumError>,
    meant: Result<RequestView, StratumError>,
) -> bool {
    match result {
        Ok(request) => meant == Ok::<RequestView, StratumError>(request@),
        Err(error) => meant == Err::<RequestView, StratumError>(error),
    }
}

impl Fields {
    /// The request that the fields make up.
    pub fn request(self) -> (result: Result<StratumRequest, StratumError>)
        ensures
            same_request(result, self@.request()),
    {
        let method = match self.method {
            Some(Json::Text(method)) => method,
            _ => {
                return Err(StratumError::NoMethod);
            },
        };
        let id = match self.id {
            Some(Json::Number(Some(number))) => signed_decimal_text(number),
            _ => {
                return Err(StratumError::NoId);
            },
        };
        if method == copy_text("login") {
            match self.params {
                Some(Json::Object) => {},
                _ => {
                    return Err(StratumError::NoParams);
                },
            }
            let login = match self.login {
                Some(Json::Text(login)) => login,
                _ => {
                    return Err(StratumError::NoLogin);
                },
            };
            let pass = match self.pass {
                Some(Json::Text(pass)) => pass,
                _ => {
                    return Err(StratumError::NoPass);
                },
            };
            let agent = match self.agent {
                Some(Json::Text(agent)) => agent,
                _ => {
                    return Err(StratumError::NoAgent);
                },
            };
            Ok(StratumRequest::Login { id, login, pass, agent })
        } else if method == copy_text("submit") {
            match (self.params, self.job_id, self.nonce) {
                (Some(Json::List), Some(Json::Text(job_id)), Some(Json::Text(nonce))) => Ok(
                    StratumRequest::Submit { id, job_id, nonce },
                ),
                _ => Err(StratumError::BadSubmit),
            }
        } else {
            Err(StratumError::UnknownMethod)
        }
    }
}

/// Answers requests.
pub trait StratumJobHandler: Clone + Send + Sync {
    /// The answer in JSON, or why there is none.
    fn handle_request(&self, request: StratumRequest) -> Result<String, String>;
}

/// Reads requests.
pub trait StratumStreamAdapter {
    /// The request of a line.
    fn try_convert(line: String) -> Result<StratumRequest, StratumError>;
}

/// Reads requests as miners of NiceHash write them.
pub struct NiceHashStyleStatumStreamAdapter {}

impl StratumStreamAdapter for NiceHashStyleStatumStreamAdapter {
    fn try_convert(line: String) -> (result: Result<StratumRequest, StratumError>)
        ensures
            match FieldsView::of_line(line@) {
                Some(fields) => same_request(result, fields.request()),
                None => result matches Err(error) && error == StratumError::NotJson,
            },
    {
        let text = line.as_str();
        match (
            json_at(text, "/method"),
            json_at(text, "/id"),
            json_at(text, "/params"),
            json_at(text, "/params/login"),
            json_at(text, "/params/pass"),
            json_at(text, "/params/agent"),
            json_at(text, "/params/0"),
            json_at(text, "/params/1"),
        ) {
            (Ok(method), Ok(id), Ok(params), Ok(login), Ok(pass), Ok(agent), Ok(job_id), Ok(nonce)) => {
                let fields = Fields { method, id, params, login, pass, agent, job_id, nonce };
                fields.request()
            },
            _ => Err(StratumError::NotJson),
        }
    }
}

/// Builds a [`StratumServer`].
pub struct StratumServerBuilder<T, TAdapter: StratumStreamAdapter> {
    pub port: Option<u16>,
    pub with_job_handler: Option<T>,
    pub _marker: PhantomData<TAdapter>,
}

impl<T: StratumJobHandler, TAdapter: StratumStreamAdapter> StratumServerBuilder<T, TAdapter> {
    /// Nothing is given.
    pub fn new() -> (builder: Self)
        ensures
            builder.port is None,
            builder.with_job_handler is None,
    {
        StratumServerBuilder { port: None, with_job_handler: None, _marker: PhantomData }
    }

    /// Sets the port to listen on.
    pub fn with_port(self, port: u16) -> (builder: Self)
        ensures
            builder == (StratumServerBuilder { port: Some(port), ..self }),
    {
        StratumServerBuilder { port: Some(port), ..self }
    }

    /// Sets what answers requests.
    pub fn with_job_handler(self, handler: T) -> (builder: Self)
        ensures
            builder == (StratumServerBuilder { with_job_handler: Some(handler), ..self }),
    {
        StratumServerBuilder { with_job_handler: Some(handler), ..self }
    }

    /// The server. What answers requests must be given.
    pub fn build(self) -> (server: StratumServer<T, TAdapter>)
        requires
            self.with_job_handler is Some,
        ensures
            server.port == (match self.port {
                Some(port) => port,
                None => DEFAULT_PORT,
            }),
            server.hander == self.with_job_handler.unwrap(),
    {
        let port: u16 = match self.port {
            Some(port) => port,
            None => DEFAULT_PORT,
        };
        StratumServer { port, hander: self.with_job_handler.unwrap(), adapter: PhantomData }
    }
}

/// A server for miners.
pub struct StratumServer<T: StratumJobHandler, TAdapter: StratumStreamAdapter> {
    /// The port to listen on.
    pub port: u16,
    /// What answers requests.
    pub hander: T,
    pub adapter: PhantomData<TAdapter>,
}

impl<T: StratumJobHandler, TAdapter: StratumStreamAdapter> StratumServer<T, TAdapter> {
    /// The line that answers a line; none if the line is no request.
    pub fn answer(&self, line: String) -> (reply: Option<String>)
        ensures
            exists|request: Result<StratumRequest, StratumError>|
                {
                    &&& #[trigger] call_ensures(TAdapter::try_convert, (line,), request)
                    &&& match request {
                        Err(_) => reply is None,
                        Ok(request) => exists|outcome: Result<String, String>|
                            {
                                &&& #[trigger] call_ensures(
                                    T::handle_request,
                                    (&self.hander, request),
                                    outcome,
                                )
                                &&& reply matches Some(text)
                                &&& text@ == answer_line(request@.number(), outcome)
                            },
                    }
                },
    {
        match TAdapter::try_convert(line) {
            Ok(request) => {
                let id = copy_text(request.id());
                let outcome = self.hander.handle_request(request);
                Some(write_answer(id.as_str(), outcome))
            },
            Err(_) => None,
        }
    }
}

/// The line that answers a request.
pub open spec fn answer_line(id: Seq<char>, outcome: Result<String, String>) -> Seq<char> {
    match outcome {
        Ok(json) => "{\"id\": \""@ + id + "\", \"result\": "@ + json@ + ", \"error\": null}\n"@,
        Err(error) => "{\"id\": \""@ + id + "\", \"error\": \"Failed to handle request:"@ + error@
            + "\", \"result\": null}\n"@,
    }
}

/// The line that answers a request: the answer in JSON, or why there is none.
pub fn write_answer(id: &str, outcome: Result<String, String>) -> (line: String)
    ensures
        line@ == answer_line(id@, outcome),
{
    let mut line = copy_text("{\"id\": \"");
    line.append(id);
    match outcome {
        Ok(json) => {
            line.append("\", \"result\": ");
            line.append(json.as_str());
            line.append(", \"error\": null}\n");
        },
        Err(error) => {
            line.append("\", \"error\": \"Failed to handle request:");
            line.append(error.as_str());
            line.append("\", \"result\": null}\n");
        },
    }
    line
}

/// Each answer names the request that it answers, whatever came of it.
pub proof fn law_answers_name_their_request(id: Seq<char>, outcome: Result<String, String>)
    ensures
        ("{\"id\": \""@ + id + "\", \""@).is_prefix_of(answer_line(id, outcome)),
{
    reveal_strlit("\", \"");
    reveal_strlit("\", \"result\": ");
    reveal_strlit("\", \"error\": \"Failed to handle request:");
    let head = "{\"id\": \""@ + id + "\", \""@;
    match outcome {
        Ok(json) => {
            assert(answer_line(id, outcome).subrange(0, head.len() as int) =~= head);
        },
        Err(error) => {
            assert(answer_line(id, outcome).subrange(0, head.len() as int) =~= head);
        },
    }
}

/// A login is read as it was written: its number in decimal, and who logs in with what. So is a submission. Whatever else
/// there is, a request without a method or without a number that is an integer is none.
pub proof fn law_requests_are_read(fields: FieldsView)
    ensures
        fields.request() matches Ok(RequestView::Login { id, login, pass, agent }) ==> {
            &&& fields.method == Some(JsonView::Text("login"@))
            &&& fields.id matches Some(JsonView::Number(Some(number)))
            &&& number >= 0 ==> crate::text::number(id) == Some(number as nat)
            &&& number < 0 ==> id[0] == '-' && crate::text::number(id.skip(1)) == Some((-number) as nat)
            &&& fields.login == Some(JsonView::Text(login))
            &&& fields.pass == Some(JsonView::Text(pass))
            &&& fields.agent == Some(JsonView::Text(agent))
        },
        fields.request() matches Ok(RequestView::Submit { id, job_id, nonce }) ==> {
            &&& fields.method == Some(JsonView::Text("submit"@))
            &&& fields.id matches Some(JsonView::Number(Some(number)))
            &&& number >= 0 ==> crate::text::number(id) == Some(number as nat)
            &&& number < 0 ==> id[0] == '-' && crate::text::number(id.skip(1)) == Some((-number) as nat)
            &&& fields.job_id == Some(JsonView::Text(job_id))
            &&& fields.nonce == Some(JsonView::Text(nonce))
        },
        fields.method == Some(JsonView::Text("login"@)) && fields.params == Some(JsonView::Object) && (
        fields.id matches Some(JsonView::Number(Some(_)))) && (fields.login matches Some(JsonView::Text(_))) && (
        fields.pass matches Some(JsonView::Text(_))) && (fields.agent matches Some(JsonView::Text(_)))
            ==> fields.request() is Ok,
        fields.method == Some(JsonView::Text("submit"@)) && fields.params == Some(JsonView::List) && (
        fields.id matches Some(JsonView::Number(Some(_)))) && (fields.job_id matches Some(JsonView::Text(_))) && (
        fields.nonce matches Some(JsonView::Text(_))) ==> fields.request() is Ok,
        fields.request() == Err::<RequestView, _>(StratumError::NoMethod) <==> !(
        fields.method matches Some(JsonView::Text(_))),
        fields.request() == Err::<RequestView, _>(StratumError::NoId) <==> (
        fields.method matches Some(JsonView::Text(_))) && !(fields.id matches Some(JsonView::Number(Some(_)))),
{
    reveal_strlit("login");
    reveal_strlit("submit");
    assert("login"@[0] != "submit"@[0]);
    if let Some(JsonView::Number(Some(number))) = fields.id {
        let size = if number < 0 {
            (-number) as nat
        } else {
            number as nat
        };
        crate::text::law_decimals_are_read_back(size);
        let text = signed_decimal(number as int);
        if number < 0 {
            assert(text.skip(1) =~= crate::text::decimal(size));
        }
    }
}

}
