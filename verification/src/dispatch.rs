//! Request assembly: turning one selected entry, the descriptor's defaults,
//! the stored credential and the (already loaded) body file into a concrete
//! transport plan — final URL, header list, and payload — and deciding, from
//! the response status and the entry's flags, whether the response is
//! persisted.
//!
//! The transport itself is outside this crate: the caller sends the plan and
//! hands the parsed response back.

use vstd::prelude::*;
use vstd::string::StrSliceExecFns;
use vstd::string::StringExecFns;

use crate::descriptor::BodyKind;
use crate::descriptor::EntrySpec;
use crate::descriptor::Method;
use crate::descriptor::RequestEntry;
use crate::json::JsonSpec;
use crate::json::JsonValue;
use crate::json::lemma_model_members;
use crate::json::model_members;
use crate::placeholder::substitute;
use crate::placeholder::substitute_spec;
use crate::render::render;
use crate::render::to_pretty_string;
use crate::text::i64_to_string;
use crate::text::int_str;
use crate::text::trim;
use crate::text::trim_spec;

verus! {

/// An optional string's characters, empty when absent.
pub open spec fn opt_str(o: Option<Seq<char>>) -> Seq<char> {
    match o {
        Some(s) => s,
        None => Seq::empty(),
    }
}

/// The final URL of an entry: base URL, endpoint and raw query suffix
/// concatenated, with no escaping or validation.
pub open spec fn build_url_spec(base: Seq<char>, endpoint: Seq<char>, params: Option<Seq<char>>) -> Seq<
    char,
> {
    base + endpoint + opt_str(params)
}

/// The final URL, computed.
pub fn build_url(base: &str, endpoint: &str, params: &Option<String>) -> (r: String)
    ensures
        r@ == build_url_spec(base@, endpoint@, params.deep_view()),
{
    let mut r = String::from_str(base);
    r.append(endpoint);
    match params {
        Some(p) => {
            r.append(p.as_str());
            proof {
                assert(r@ =~= build_url_spec(base@, endpoint@, params.deep_view()));
            }
        },
        None => {
            proof {
                assert(r@ =~= build_url_spec(base@, endpoint@, params.deep_view()));
            }
        },
    }
    r
}

/// The credential put in the `Authorization` header: the token prefixed
/// with its type, whitespace-trimmed at both ends. An absent type or token
/// counts as empty, so a missing token degrades to a bare prefix (or to an
/// empty credential) rather than failing the call.
pub open spec fn credential_spec(token_type: Option<Seq<char>>, token: Option<Seq<char>>) -> Seq<
    char,
> {
    trim_spec(opt_str(token_type) + seq![' '] + opt_str(token))
}

/// The credential, computed.
pub fn build_credential(token_type: &Option<String>, token: &Option<String>) -> (r: String)
    ensures
        r@ == credential_spec(token_type.deep_view(), token.deep_view()),
{
    let mut raw = match token_type {
        Some(t) => t.clone(),
        None => String::new(),
    };
    raw.append(" ");
    match token {
        Some(t) => raw.append(t.as_str()),
        None => (),
    }
    proof {
        reveal_strlit(" ");
        assert(" "@ =~= seq![' ']);
        assert(raw@ =~= opt_str(token_type.deep_view()) + seq![' '] + opt_str(token.deep_view()));
    }
    trim(raw.as_str())
}

/// What a request sends: nothing, rendered JSON text, or form fields.
#[derive(Clone, Debug, PartialEq, Eq)]
pub enum Payload {
    Empty,
    JsonText(String),
    Form(Vec<(String, String)>),
}

/// The model of a payload.
pub enum PayloadSpec {
    Empty,
    JsonText(Seq<char>),
    Form(Seq<(Seq<char>, Seq<char>)>),
}

impl View for Payload {
    type V = PayloadSpec;

    open spec fn view(&self) -> PayloadSpec {
        match self {
            Payload::Empty => PayloadSpec::Empty,
            Payload::JsonText(s) => PayloadSpec::JsonText(s@),
            Payload::Form(fields) => PayloadSpec::Form(fields.deep_view()),
        }
    }
}

/// One fully assembled request, ready for the transport.
#[derive(Clone, Debug, PartialEq, Eq)]
pub struct HttpPlan {
    pub method: Method,
    pub url: String,
    /// The default headers in order, then the `Authorization` header.
    pub headers: Vec<(String, String)>,
    pub payload: Payload,
}

/// The model of a plan.
pub struct HttpPlanSpec {
    pub method: Method,
    pub url: Seq<char>,
    pub headers: Seq<(Seq<char>, Seq<char>)>,
    pub payload: PayloadSpec,
}

impl View for HttpPlan {
    type V = HttpPlanSpec;

    open spec fn view(&self) -> HttpPlanSpec {
        HttpPlanSpec {
            method: self.method,
            url: self.url@,
            headers: self.headers.deep_view(),
            payload: self.payload@,
        }
    }
}

/// Why a request could not be assembled.
#[derive(Clone, Debug, PartialEq, Eq)]
pub enum DispatchError {
    /// A placeholder named a variable whose file could not be read.
    MissingVariable { variable: String },
    /// A form body's member holds a value no form field can carry.
    NonScalarFormField { key: String },
    /// A form body is not a JSON object.
    FormBodyNotObject,
}

/// The model of a dispatch error.
pub enum DispatchProblem {
    MissingVariable(Seq<char>),
    NonScalarField(Seq<char>),
    FormBodyNotObject,
}

impl View for DispatchError {
    type V = DispatchProblem;

    open spec fn view(&self) -> DispatchProblem {
        match self {
            DispatchError::MissingVariable { variable } => DispatchProblem::MissingVariable(
                variable@,
            ),
            DispatchError::NonScalarFormField { key } => DispatchProblem::NonScalarField(key@),
            DispatchError::FormBodyNotObject => DispatchProblem::FormBodyNotObject,
        }
    }
}

/// The text a scalar value puts in a form field; composite values and null
/// have none.
pub open spec fn scalar_text(j: JsonSpec) -> Option<Seq<char>> {
    match j {
        JsonSpec::Text(s) => Some(s),
        JsonSpec::Bool(b) => Some(
            if b {
                "true"@
            } else {
                "false"@
            },
        ),
        JsonSpec::Number(n) => Some(int_str(n)),
        _ => None,
    }
}

/// The form fields of an object body, member by member, or the key of the
/// first member whose value no form field can carry.
pub open spec fn form_fields(members: Seq<(Seq<char>, JsonSpec)>) -> Result<
    Seq<(Seq<char>, Seq<char>)>,
    Seq<char>,
>
    decreases members.len(),
{
    if members.len() == 0 {
        Ok(Seq::empty())
    } else {
        match scalar_text(members[0].1) {
            Some(text) => match form_fields(members.drop_first()) {
                Ok(rest) => Ok(seq![(members[0].0, text)] + rest),
                Err(e) => Err(e),
            },
            None => Err(members[0].0),
        }
    }
}

/// The form encoding of a body: the fields of an object whose members are
/// all scalar; anything else fails clearly.
pub open spec fn form_payload(body: JsonSpec) -> Result<
    Seq<(Seq<char>, Seq<char>)>,
    DispatchProblem,
> {
    match body {
        JsonSpec::Object(members) => match form_fields(members) {
            Ok(fields) => Ok(fields),
            Err(key) => Err(DispatchProblem::NonScalarField(key)),
        },
        _ => Err(DispatchProblem::FormBodyNotObject),
    }
}

/// The text `v` puts in a form field, computed.
fn scalar_text_exec(v: &JsonValue) -> (r: Option<String>)
    ensures
        match r {
            Some(s) => scalar_text(v@) == Some(s@),
            None => scalar_text(v@) is None,
        },
{
    match v {
        JsonValue::Text(s) => Some(s.clone()),
        JsonValue::Bool(b) => {
            if *b {
                Some(String::from_str("true"))
            } else {
                Some(String::from_str("false"))
            }
        },
        JsonValue::Number(n) => Some(i64_to_string(*n)),
        _ => None,
    }
}

/// The form fields of `body`, or why it cannot be form-encoded.
pub fn form_fields_exec(body: &JsonValue) -> (r: Result<Vec<(String, String)>, DispatchError>)
    ensures
        match r {
            Ok(fields) => form_payload(body@) == Ok::<Seq<(Seq<char>, Seq<char>)>, DispatchProblem>(
                fields.deep_view(),
            ),
            Err(e) => form_payload(body@) == Err::<Seq<(Seq<char>, Seq<char>)>, DispatchProblem>(
                e@,
            ),
        },
{
    match body {
        JsonValue::Object(members) => {
            proof {
                lemma_model_members(members@);
                assert(*body == JsonValue::Object(*members));
                assert(body@ == JsonSpec::Object(model_members(members@)));
            }
            let ghost ms = model_members(members@);
            let mut fields: Vec<(String, String)> = Vec::new();
            proof {
                assert(ms.skip(0) =~= ms);
                assert(fields.deep_view() =~= Seq::<(Seq<char>, Seq<char>)>::empty());
            }
            let n = members.len();
            let mut i: usize = 0;
            while i < n
                invariant
                    0 <= i <= n,
                    n == members@.len(),
                    ms == model_members(members@),
                    body@ == JsonSpec::Object(ms),
                    ms.len() == n,
                    forall|j: int|
                        0 <= j < n ==> #[trigger] ms[j] == (members@[j].0@, members@[j].1@),
                    form_fields(ms) == match form_fields(ms.skip(i as int)) {
                        Ok(rest) => Ok::<Seq<(Seq<char>, Seq<char>)>, Seq<char>>(
                            fields.deep_view() + rest,
                        ),
                        Err(e) => Err::<Seq<(Seq<char>, Seq<char>)>, Seq<char>>(e),
                    },
                decreases n - i,
            {
                proof {
                    assert(ms.skip(i as int)[0] == ms[i as int]);
                    assert(ms.skip(i as int).drop_first() =~= ms.skip(i as int + 1));
                }
                let member = &members[i];
                match scalar_text_exec(&member.1) {
                    Some(text) => {
                        let ghost before = fields.deep_view();
                        fields.push((member.0.clone(), text));
                        proof {
                            assert(fields.deep_view() =~= before + seq![
                                (ms[i as int].0, scalar_text(ms[i as int].1)->Some_0),
                            ]);
                            match form_fields(ms.skip(i as int + 1)) {
                                Ok(rest) => {
                                    assert(before + (seq![
                                        (ms[i as int].0, scalar_text(ms[i as int].1)->Some_0),
                                    ] + rest) =~= fields.deep_view() + rest);
                                },
                                Err(_) => {},
                            }
                        }
                    },
                    None => {
                        return Err(DispatchError::NonScalarFormField { key: member.0.clone() });
                    },
                }
                i = i + 1;
            }
            proof {
                assert(ms.skip(n as int) =~= Seq::<(Seq<char>, JsonSpec)>::empty());
                assert(fields.deep_view() + Seq::<(Seq<char>, Seq<char>)>::empty()
                    =~= fields.deep_view());
            }
            Ok(fields)
        },
        _ => Err(DispatchError::FormBodyNotObject),
    }
}

/// The payload an entry sends: nothing for GET and DELETE, and nothing when
/// the entry names no body; otherwise the body after placeholder
/// substitution, rendered as JSON text or flattened to form fields as the
/// body source says.
pub open spec fn payload_spec(
    method: Method,
    body_kind: Option<BodyKind>,
    body: Option<JsonSpec>,
    vars: Seq<(Seq<char>, Seq<char>)>,
) -> Result<PayloadSpec, DispatchProblem> {
    match method {
        Method::Get | Method::Delete => Ok(PayloadSpec::Empty),
        Method::Post | Method::Put => {
            match (body_kind, body) {
                (Some(kind), Some(b)) => match substitute_spec(b, vars) {
                    Ok(nb) => match kind {
                        BodyKind::Json => Ok(PayloadSpec::JsonText(render(nb, 0))),
                        BodyKind::FormData => match form_payload(nb) {
                            Ok(fields) => Ok(PayloadSpec::Form(fields)),
                            Err(e) => Err(e),
                        },
                    },
                    Err(name) => Err(DispatchProblem::MissingVariable(name)),
                },
                _ => Ok(PayloadSpec::Empty),
            }
        },
    }
}

/// The assembled plan of one entry: its method, the concatenated URL, the
/// default headers followed by the `Authorization` credential, and the
/// payload `payload_spec` gives.
pub open spec fn spec_prepare(
    entry: EntrySpec,
    base_url: Seq<char>,
    default_headers: Seq<(Seq<char>, Seq<char>)>,
    token: Option<Seq<char>>,
    body: Option<JsonSpec>,
    vars: Seq<(Seq<char>, Seq<char>)>,
) -> Result<HttpPlanSpec, DispatchProblem> {
    let kind = match entry.body {
        Some(bs) => Some(bs.kind),
        None => None,
    };
    match payload_spec(entry.method, kind, body, vars) {
        Ok(p) => Ok(
            HttpPlanSpec {
                method: entry.method,
                url: build_url_spec(base_url, entry.endpoint, entry.params),
                headers: default_headers + seq![
                    ("Authorization"@, credential_spec(entry.token_type, token)),
                ],
                payload: p,
            },
        ),
        Err(e) => Err(e),
    }
}

/// A copy of the header list.
fn clone_headers(headers: &Vec<(String, String)>) -> (r: Vec<(String, String)>)
    ensures
        r.deep_view() == headers.deep_view(),
{
    let mut out: Vec<(String, String)> = Vec::new();
    let n = headers.len();
    let mut i: usize = 0;
    while i < n
        invariant
            0 <= i <= n,
            n == headers@.len(),
            out@.len() == i,
            forall|j: int|
                0 <= j < i ==> (#[trigger] out@[j]).0@ == headers@[j].0@ && out@[j].1@
                    == headers@[j].1@,
        decreases n - i,
    {
        let header = &headers[i];
        out.push((header.0.clone(), header.1.clone()));
        i = i + 1;
    }
    proof {
        assert forall|j: int|
            0 <= j < n implies out.deep_view()[j] == headers.deep_view()[j] by {
            assert(out@[j].0@ == headers@[j].0@ && out@[j].1@ == headers@[j].1@);
        }
        assert(out.deep_view() =~= headers.deep_view());
    }
    out
}

/// The transport plan for `entry`: URL and headers assembled from the
/// descriptor's defaults and the stored credential, and the payload built
/// from `body` (the loaded content of the entry's body file, when it has
/// one) after placeholder substitution against the variable table `vars`.
pub fn prepare_request(
    entry: &RequestEntry,
    base_url: &str,
    default_headers: &Vec<(String, String)>,
    token: &Option<String>,
    body: &Option<JsonValue>,
    vars: &Vec<(String, String)>,
) -> (r: Result<HttpPlan, DispatchError>)
    ensures
        match r {
            Ok(plan) => spec_prepare(
                entry@,
                base_url@,
                default_headers.deep_view(),
                token.deep_view(),
                body.deep_view(),
                vars.deep_view(),
            ) == Ok::<HttpPlanSpec, DispatchProblem>(plan@),
            Err(e) => spec_prepare(
                entry@,
                base_url@,
                default_headers.deep_view(),
                token.deep_view(),
                body.deep_view(),
                vars.deep_view(),
            ) == Err::<HttpPlanSpec, DispatchProblem>(e@),
        },
{
    let is_bodyless = match entry.method {
        Method::Get | Method::Delete => true,
        Method::Post | Method::Put => false,
    };
    let payload: Payload = if is_bodyless {
        Payload::Empty
    } else {
        match &entry.body {
            Some(source) => {
                match body {
                    Some(b) => {
                        match substitute(b, vars) {
                            Ok(substituted) => {
                                match source.kind {
                                    BodyKind::Json => Payload::JsonText(
                                        to_pretty_string(&substituted),
                                    ),
                                    BodyKind::FormData => {
                                        match form_fields_exec(&substituted) {
                                            Ok(fields) => Payload::Form(fields),
                                            Err(e) => {
                                                return Err(e);
                                            },
                                        }
                                    },
                                }
                            },
                            Err(e) => {
                                return Err(
                                    DispatchError::MissingVariable { variable: e.variable },
                                );
                            },
                        }
                    },
                    None => Payload::Empty,
                }
            },
            None => Payload::Empty,
        }
    };
    let url = build_url(base_url, entry.endpoint.as_str(), &entry.params);
    let credential = build_credential(&entry.token_type, token);
    let mut headers = clone_headers(default_headers);
    let ghost headers_before = headers.deep_view();
    headers.push((String::from_str("Authorization"), credential));
    proof {
        assert(headers.deep_view() =~= headers_before + seq![
            ("Authorization"@, credential_spec(entry@.token_type, token.deep_view())),
        ]);
    }
    Ok(HttpPlan { method: entry.method, url, headers, payload })
}

/// The diagnostic body put in place of a response that did not parse as
/// JSON, so that display and persistence always have a value to work with.
pub open spec fn error_body_spec() -> JsonSpec {
    JsonSpec::Object(seq![("error"@, JsonSpec::Text("Failed to parse response as JSON"@))])
}

/// The body the rest of the pipeline sees for a response: the parsed JSON
/// when parsing succeeded, else the diagnostic object.
pub open spec fn response_body_spec(parsed: Option<JsonSpec>) -> JsonSpec {
    match parsed {
        Some(v) => v,
        None => error_body_spec(),
    }
}

/// The body the pipeline works with, computed from the parse outcome.
pub fn response_body(parsed: Option<JsonValue>) -> (r: JsonValue)
    ensures
        r@ == response_body_spec(parsed.deep_view()),
{
    match parsed {
        Some(v) => v,
        None => {
            let mut members: Vec<(String, JsonValue)> = Vec::new();
            members.push(
                (
                    String::from_str("error"),
                    JsonValue::Text(String::from_str("Failed to parse response as JSON")),
                ),
            );
            let r = JsonValue::Object(members);
            proof {
                lemma_model_members(members@);
                assert(members@.len() == 1);
                assert(members@[0].0@ == "error"@);
                assert(members@[0].1@ == JsonSpec::Text("Failed to parse response as JSON"@));
                assert(model_members(members@) =~= seq![
                    ("error"@, JsonSpec::Text("Failed to parse response as JSON"@)),
                ]);
            }
            r
        },
    }
}

/// Whether an HTTP status code reports success.
pub open spec fn is_success_status(code: int) -> bool {
    200 <= code < 300
}

/// Whether `code` reports success, computed.
pub fn status_is_success(code: u16) -> (r: bool)
    ensures
        r == is_success_status(code as int),
{
    200 <= code && code < 300
}

/// Whether the response is persisted: only a successful status, an entry
/// that asks for saving, and a configured target path together cause a
/// write.
pub open spec fn should_persist_spec(
    status: int,
    token_save: Option<bool>,
    token_path: Option<Seq<char>>,
) -> bool {
    is_success_status(status) && token_save == Some(true) && token_path is Some
}

/// Whether the response is persisted, computed.
pub fn should_persist(status: u16, token_save: &Option<bool>, token_path: &Option<String>) -> (r:
    bool)
    ensures
        r == should_persist_spec(status as int, *token_save, token_path.deep_view()),
{
    let save = match token_save {
        Some(b) => *b,
        None => false,
    };
    status_is_success(status) && save && token_path.is_some()
}

} // verus!
