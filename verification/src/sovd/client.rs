//! What is asked of a SOVD gateway, and what its replies mean.
//!
//! The requests themselves are sent from outside. [`SovdClient`] says what to
//! send and takes in what came back.

use crate::config::{SovdConfig, SovdView};
use crate::error::{ProxyError, Result, SovdError};
use crate::json::{
    lemma_lookup_with_entry, lemma_with_entry_unique, lookup, names_unique, with_entry, JsonMap,
    JsonNumber, JsonValue,
};
use crate::number::decimal_text;
use crate::service_resolver::metadata::is_data_param;
use crate::service_resolver::model::{ParameterTypeMetadata, ResponseParameterInfo};
use crate::service_resolver::response::param_value;
use crate::service_resolver::uds_helpers::{
    find_mux_case_prefix, is_marker, is_mux_marker, mux_case_prefix,
};
use crate::sovd::schema::DataResponse;
use crate::text::{
    chars_of, concat, contains_char, last_segment, lemma_last_segment, segment_after_last_slash,
    starts_with, string_of,
};
use vstd::prelude::*;

verus! {

/// The reason phrase that is displayed for an HTTP status code.
pub uninterp spec fn reason_phrase(status: u16) -> Seq<char>;

/// `reqwest::StatusCode::from_u16`, and `to_string` on its result: the code in
/// decimal, a space and the reason phrase. The codes are those with three
/// digits.
#[verifier::external_body]
fn status_display(status: u16) -> (text: Option<String>)
    ensures
        match text {
            Some(t) => 100 <= status <= 999 && t@ == decimal_text(status as nat) + " "@
                + reason_phrase(status),
            None => !(100 <= status <= 999),
        },
{
    reqwest::StatusCode::from_u16(status).ok().map(|s| s.to_string())
}

/// An HTTP status as it is displayed.
pub open spec fn status_text(status: u16) -> Seq<char> {
    decimal_text(status as nat) + " "@ + reason_phrase(status)
}

/// The text for a reply with an unexpected status.
pub open spec fn http_text(status: u16, body: Seq<char>) -> Seq<char> {
    "HTTP "@ + status_text(status) + ": "@ + body
}

fn http_message(status: u16, body: &str) -> (message: String)
    requires
        100 <= status <= 999,
    ensures
        message@ == http_text(status, body@),
{
    let text = match status_display(status) {
        Some(text) => text,
        None => String::new(),
    };
    let mut message = concat("HTTP ", text.as_str());
    message.append(": ");
    message.append(body);
    message
}

/// How much of a reply's body matters.
#[derive(Debug, Clone, Copy, PartialEq, Eq, Structural)]
pub enum BodyKind {
    /// The body is a JSON document.
    Json,
    /// The body is a text for an error.
    Text,
    /// The body is not looked at.
    Unread,
}

/// The body of a reply, as far as it matters.
#[derive(Debug)]
pub enum ReplyBody<T> {
    /// A JSON document.
    Json(T),
    /// What should have been a JSON document, with the reason why it is not.
    Malformed(String),
    /// A text.
    Text(String),
    /// Not looked at.
    Unread,
}

impl<T> ReplyBody<T> {
    /// What was made of the body.
    pub open spec fn kind(&self) -> BodyKind {
        match self {
            ReplyBody::Json(_) | ReplyBody::Malformed(_) => BodyKind::Json,
            ReplyBody::Text(_) => BodyKind::Text,
            ReplyBody::Unread => BodyKind::Unread,
        }
    }
}

/// What matters in the reply to an authentication: the token where it
/// succeeded, else the error text.
pub open spec fn auth_body(status: u16) -> BodyKind {
    if 200 <= status < 300 {
        BodyKind::Json
    } else {
        BodyKind::Text
    }
}

/// What matters in the reply to a read: the data, nothing if there is none, or
/// the error text.
pub open spec fn read_body(status: u16) -> BodyKind {
    if status == 200 {
        BodyKind::Json
    } else if status == 404 {
        BodyKind::Unread
    } else {
        BodyKind::Text
    }
}

/// The status says that a write was carried out or taken on.
pub open spec fn is_written(status: u16) -> bool {
    status == 200 || status == 202 || status == 204
}

/// What matters in the reply to a write: nothing if it was written or there is
/// no such data, else the error text.
pub open spec fn write_body(status: u16) -> BodyKind {
    if is_written(status) || status == 404 {
        BodyKind::Unread
    } else {
        BodyKind::Text
    }
}

/// The result is an HTTP error with this text.
pub open spec fn is_http_error<T>(result: Result<T>, text: Seq<char>) -> bool {
    result matches Err(ProxyError::Sovd(SovdError::Http(message))) && message@ == text
}

/// The result is an error about missing data with this identifier.
pub open spec fn is_not_found<T>(result: Result<T>, data_id: Seq<char>) -> bool {
    result matches Err(ProxyError::Sovd(SovdError::DataIdNotFound(id))) && id@ == data_id
}

/// An OAuth2 token request.
#[derive(Debug)]
pub struct AuthRequest {
    /// Where to post the request.
    pub url: String,
    /// OAuth2 client ID.
    pub client_id: String,
    /// OAuth2 client secret.
    pub client_secret: String,
}

/// A token, or what to ask for one.
#[derive(Debug)]
pub enum AuthAction {
    /// Use this token.
    Authenticated(String),
    /// Post this request.
    Request(AuthRequest),
}

/// A request for diagnostic data.
#[derive(Debug)]
pub struct ReadRequest {
    /// Where to get the data.
    pub url: String,
    /// Whether to add the query `include_schema=true`.
    pub include_schema: bool,
}

/// The URL for authentication.
pub open spec fn authorize_url(config: SovdView) -> Seq<char> {
    config.gateway_url + "/vehicle/"@ + config.api_version + "/authorize"@
}

/// The URL of some data of a component.
pub open spec fn component_url(
    config: SovdView,
    component: Seq<char>,
    collection: Seq<char>,
    data_id: Seq<char>,
) -> Seq<char> {
    config.gateway_url + "/vehicle/"@ + config.api_version + "/components/"@ + component
        + collection + data_id
}

fn build_component_url(
    config: &SovdConfig,
    component: &str,
    collection: &str,
    data_id: &str,
) -> (url: String)
    ensures
        url@ == component_url(config@, component@, collection@, data_id@),
{
    let mut url = concat(config.gateway_url.as_str(), "/vehicle/");
    url.append(config.api_version.as_str());
    url.append("/components/");
    url.append(component);
    url.append(collection);
    url.append(data_id);
    url
}

/// The token of mock mode.
pub open spec fn mock_token() -> Seq<char> {
    "mock-access-token"@
}

/// What a client knows.
pub struct Client {
    /// SOVD gateway connection settings.
    pub config: SovdView,
    /// Cached OAuth2 access token.
    pub token: Option<Seq<char>>,
}

/// `action` is how to authenticate: with the mock token in mock mode, else by
/// asking the gateway.
pub open spec fn is_authentication(action: AuthAction, config: SovdView) -> bool {
    if config.mock_gateway {
        action matches AuthAction::Authenticated(token) && token@ == mock_token()
    } else {
        action matches AuthAction::Request(request) && request.url@ == authorize_url(config)
            && request.client_id@ == config.client_id && request.client_secret@
            == config.client_secret
    }
}

/// `action` is how to get a token: the cached one, or by authentication.
pub open spec fn is_token_action(action: AuthAction, client: Client) -> bool {
    match client.token {
        Some(token) => action matches AuthAction::Authenticated(t) && t@ == token,
        None => is_authentication(action, client.config),
    }
}

/// Once a token is cached, the gateway is not asked for another one.
pub proof fn lemma_cached_token_is_used(action: AuthAction, client: Client)
    requires
        client.token is Some,
        is_token_action(action, client),
    ensures
        action matches AuthAction::Authenticated(t) && client.token == Some(t@),
{
}

/// A client for communicating with a SOVD gateway.
pub struct SovdClient {
    config: SovdConfig,
    access_token: Option<String>,
}

impl View for SovdClient {
    type V = Client;

    closed spec fn view(&self) -> Client {
        Client {
            config: self.config@,
            token: match self.access_token {
                Some(token) => Some(token@),
                None => None,
            },
        }
    }
}

impl SovdClient {
    /// Create a new SOVD client with the given configuration.
    pub fn new(config: SovdConfig) -> (client: Self)
        ensures
            client@ == (Client { config: config@, token: None }),
    {
        SovdClient { config, access_token: None }
    }

    /// Authenticate with the SOVD gateway. In mock mode the access token is
    /// cached at once.
    pub fn authenticate(&mut self) -> (action: AuthAction)
        ensures
            is_authentication(action, old(self)@.config),
            final(self)@ == (if old(self)@.config.mock_gateway {
                Client { token: Some(mock_token()), ..old(self)@ }
            } else {
                old(self)@
            }),
    {
        if self.config.mock_gateway {
            let token = "mock-access-token".to_owned();
            self.access_token = Some(token.clone());
            return AuthAction::Authenticated(token);
        }
        let mut url = concat(self.config.gateway_url.as_str(), "/vehicle/");
        url.append(self.config.api_version.as_str());
        url.append("/authorize");
        AuthAction::Request(
            AuthRequest {
                url,
                client_id: self.config.client_id.clone(),
                client_secret: self.config.client_secret.clone(),
            },
        )
    }

    /// Tells how to read the body of a reply to an authentication.
    pub fn auth_body_kind(status: u16) -> (kind: BodyKind)
        ensures
            kind == auth_body(status),
    {
        if 200 <= status && status < 300 {
            BodyKind::Json
        } else {
            BodyKind::Text
        }
    }

    /// Take in the reply to an authentication and cache the access token.
    ///
    /// # Errors
    /// Returns an error if authentication fails.
    pub fn authenticated(&mut self, status: u16, body: ReplyBody<String>) -> (token: Result<String>)
        requires
            100 <= status <= 999,
            body.kind() == auth_body(status),
        ensures
            match body {
                ReplyBody::Json(access_token) => {
                    &&& token == Ok::<String, ProxyError>(access_token)
                    &&& final(self)@ == (Client { token: Some(access_token@), ..old(self)@ })
                },
                ReplyBody::Malformed(reason) => is_http_error(token, reason@) && final(self)@
                    == old(self)@,
                ReplyBody::Text(text) => {
                    &&& token matches Err(ProxyError::Sovd(SovdError::Auth(message))) && message@
                        == http_text(status, text@)
                    &&& final(self)@ == old(self)@
                },
                ReplyBody::Unread => true,
            },
    {
        match body {
            ReplyBody::Json(access_token) => {
                self.access_token = Some(access_token.clone());
                Ok(access_token)
            },
            ReplyBody::Malformed(reason) => Err(ProxyError::from(SovdError::Http(reason))),
            ReplyBody::Text(text) => Err(
                ProxyError::from(SovdError::Auth(http_message(status, text.as_str()))),
            ),
            ReplyBody::Unread => Err(ProxyError::from(SovdError::Http(String::new()))),
        }
    }

    /// The cached access token, if there is one.
    pub fn cached_token(&self) -> (token: Option<String>)
        ensures
            match token {
                Some(token) => self@.token == Some(token@),
                None => self@.token is None,
            },
    {
        match &self.access_token {
            Some(token) => Some(token.clone()),
            None => None,
        }
    }

    /// Return the cached access token, or authenticate if there is none.
    pub fn get_token(&mut self) -> (action: AuthAction)
        ensures
            is_token_action(action, old(self)@),
            final(self)@ == (if old(self)@.token is None && old(self)@.config.mock_gateway {
                Client { token: Some(mock_token()), ..old(self)@ }
            } else {
                old(self)@
            }),
    {
        if let Some(token) = self.cached_token() {
            return AuthAction::Authenticated(token);
        }
        self.authenticate()
    }

    /// The request that reads diagnostic data from the SOVD gateway.
    pub fn read_data(&self, component: &str, data_id: &str) -> (request: ReadRequest)
        ensures
            request.url@ == component_url(self@.config, component@, "/data/"@, data_id@),
            request.include_schema == self@.config.include_schema,
    {
        ReadRequest {
            url: build_component_url(&self.config, component, "/data/", data_id),
            include_schema: self.config.include_schema,
        }
    }

    /// Tells how to read the body of a reply to a read.
    pub fn read_body_kind(status: u16) -> (kind: BodyKind)
        ensures
            kind == read_body(status),
    {
        if status == 200 {
            BodyKind::Json
        } else if status == 404 {
            BodyKind::Unread
        } else {
            BodyKind::Text
        }
    }

    /// What the reply to a read means.
    ///
    /// # Errors
    /// Returns an error if the read request failed.
    pub fn read_outcome(data_id: &str, status: u16, body: ReplyBody<DataResponse>) -> (data: Result<
        DataResponse,
    >)
        requires
            100 <= status <= 999,
            body.kind() == read_body(status),
        ensures
            match body {
                ReplyBody::Json(response) => data == Ok::<DataResponse, ProxyError>(response),
                ReplyBody::Malformed(reason) => is_http_error(data, reason@),
                ReplyBody::Unread => is_not_found(data, data_id@),
                ReplyBody::Text(text) => is_http_error(data, http_text(status, text@)),
            },
    {
        match body {
            ReplyBody::Json(response) => Ok(response),
            ReplyBody::Malformed(reason) => Err(ProxyError::from(SovdError::Http(reason))),
            ReplyBody::Unread => Err(
                ProxyError::from(SovdError::DataIdNotFound(data_id.to_owned())),
            ),
            ReplyBody::Text(text) => Err(
                ProxyError::from(SovdError::Http(http_message(status, text.as_str()))),
            ),
        }
    }

    /// Where to put diagnostic data, or `None` in mock mode, in which nothing
    /// is sent and every write succeeds.
    pub fn write_data(&self, component: &str, data_id: &str) -> (url: Option<String>)
        ensures
            match url {
                Some(url) => !self@.config.mock_gateway && url@ == component_url(
                    self@.config,
                    component@,
                    "/configurations/"@,
                    data_id@,
                ),
                None => self@.config.mock_gateway,
            },
    {
        if self.config.mock_gateway {
            return None;
        }
        Some(build_component_url(&self.config, component, "/configurations/", data_id))
    }

    /// Tells how to read the body of a reply to a write.
    pub fn write_body_kind(status: u16) -> (kind: BodyKind)
        ensures
            kind == write_body(status),
    {
        if status == 200 || status == 202 || status == 204 || status == 404 {
            BodyKind::Unread
        } else {
            BodyKind::Text
        }
    }

    /// What the reply to a write means. `body` is its text where that matters.
    ///
    /// # Errors
    /// Returns an error if the write request failed.
    pub fn write_outcome(data_id: &str, status: u16, body: &str) -> (written: Result<()>)
        requires
            100 <= status <= 999,
        ensures
            if is_written(status) {
                written is Ok
            } else if status == 400 {
                written matches Err(ProxyError::Sovd(SovdError::SchemaMismatch(message)))
                    && message@ == "Invalid request: "@ + body@
            } else if status == 404 {
                is_not_found(written, data_id@)
            } else {
                is_http_error(written, http_text(status, body@))
            },
    {
        if status == 200 || status == 202 || status == 204 {
            Ok(())
        } else if status == 400 {
            Err(ProxyError::from(SovdError::SchemaMismatch(concat("Invalid request: ", body))))
        } else if status == 404 {
            Err(ProxyError::from(SovdError::DataIdNotFound(data_id.to_owned())))
        } else {
            Err(ProxyError::from(SovdError::Http(http_message(status, body))))
        }
    }
}

/// A mock value: a number, or a list of zeros.
pub enum MockValue {
    Number(u64),
    Zeros(nat),
}

impl MockValue {
    /// A JSON value that says the same.
    pub open spec fn is_json(self, value: JsonValue) -> bool {
        match self {
            MockValue::Number(n) => value == JsonValue::Number(JsonNumber::PosInt(n)),
            MockValue::Zeros(count) => {
                &&& value matches JsonValue::Array(items)
                &&& items@.len() == count
                &&& forall|i: int|
                    0 <= i < items@.len() ==> (#[trigger] items@[i]) == JsonValue::Number(
                        JsonNumber::PosInt(0),
                    )
            },
        }
    }
}

/// A parameter has a mock value: it is no case marker, and where it belongs to
/// a MUX case, it belongs to the one for the DID.
pub open spec fn is_mocked(p: ResponseParameterInfo, mux_prefix: Option<Seq<char>>) -> bool {
    &&& !is_mux_marker(p)
    &&& p.name@.contains('/') ==> mux_prefix is Some && mux_prefix->0.is_prefix_of(p.name@)
}

/// The mocked parameters that bear data, in order.
pub open spec fn mocked_params(
    meta: Seq<ResponseParameterInfo>,
    mux_prefix: Option<Seq<char>>,
) -> Seq<ResponseParameterInfo>
    decreases meta.len(),
{
    if meta.len() == 0 {
        Seq::empty()
    } else if is_mocked(meta.last(), mux_prefix) && is_data_param(meta.last()) {
        mocked_params(meta.drop_last(), mux_prefix).push(meta.last())
    } else {
        mocked_params(meta.drop_last(), mux_prefix)
    }
}

/// One value of unknown size carries the whole payload.
pub open spec fn is_opaque_single(params: Seq<ResponseParameterInfo>) -> bool {
    params.len() == 1 && params[0].param_type is Value && params[0].byte_size is None
}

/// The default for a value of a size: the size itself for up to eight bytes,
/// zeros for more, zero if the size is unknown.
pub open spec fn default_value(byte_size: Option<u32>) -> MockValue {
    match byte_size {
        Some(size) => if 1 <= size <= 8 {
            MockValue::Number(size as u64)
        } else {
            MockValue::Zeros(size as nat)
        },
        None => MockValue::Number(0),
    }
}

/// The mock value of a parameter.
pub open spec fn mock_value(p: ResponseParameterInfo, opaque: bool) -> MockValue {
    match p.param_type {
        ParameterTypeMetadata::PhysConst { coded_value, .. } => MockValue::Number(
            match coded_value {
                Some(value) => value,
                None => 0,
            },
        ),
        _ => if p.byte_size is None && opaque {
            MockValue::Zeros(4)
        } else {
            default_value(p.byte_size)
        },
    }
}

/// The mock values of some parameters, by the last part of their names.
pub open spec fn mock_entries(params: Seq<ResponseParameterInfo>, opaque: bool) -> Seq<
    (Seq<char>, MockValue),
>
    decreases params.len(),
{
    if params.len() == 0 {
        Seq::empty()
    } else {
        with_entry(
            mock_entries(params.drop_last(), opaque),
            last_segment(params.last().name@),
            mock_value(params.last(), opaque),
        )
    }
}

/// The mock response to a read of a DID.
pub open spec fn mock_response(meta: Seq<ResponseParameterInfo>, did: u16) -> Seq<
    (Seq<char>, MockValue),
> {
    let params = mocked_params(meta, mux_case_prefix(meta, did));
    mock_entries(params, is_opaque_single(params))
}

/// Every mocked parameter has a mock value under the last part of its name,
/// and nothing else has one.
pub proof fn lemma_mock_names(params: Seq<ResponseParameterInfo>, opaque: bool, name: Seq<char>)
    ensures
        names_unique(mock_entries(params, opaque)),
        lookup(mock_entries(params, opaque), name) is Some <==> exists|i: int|
            0 <= i < params.len() && last_segment((#[trigger] params[i]).name@) == name,
    decreases params.len(),
{
    if params.len() > 0 {
        let before = params.drop_last();
        lemma_mock_names(before, opaque, name);
        let last = last_segment(params.last().name@);
        let value = mock_value(params.last(), opaque);
        lemma_lookup_with_entry(mock_entries(before, opaque), last, value, name);
        lemma_with_entry_unique(mock_entries(before, opaque), last, value);
        if last == name {
            assert(last_segment(params[params.len() - 1].name@) == name);
        } else if lookup(mock_entries(before, opaque), name) is Some {
            let i = choose|i: int|
                0 <= i < before.len() && last_segment((#[trigger] before[i]).name@) == name;
            assert(last_segment(params[i].name@) == name);
        } else {
            assert forall|i: int| 0 <= i < params.len() implies last_segment(
                (#[trigger] params[i]).name@,
            ) != name by {
                if i < before.len() {
                    assert(last_segment(before[i].name@) != name);
                }
            }
        }
    }
}

/// JSON entries that say what some mock entries say.
pub open spec fn is_json_of(
    data: Seq<(Seq<char>, JsonValue)>,
    entries: Seq<(Seq<char>, MockValue)>,
) -> bool {
    &&& data.len() == entries.len()
    &&& forall|i: int|
        0 <= i < entries.len() ==> (#[trigger] data[i]).0 == entries[i].0 && entries[i].1.is_json(
            data[i].1,
        )
}

proof fn lemma_json_with_entry(
    data: Seq<(Seq<char>, JsonValue)>,
    entries: Seq<(Seq<char>, MockValue)>,
    name: Seq<char>,
    value: JsonValue,
    mock: MockValue,
)
    requires
        is_json_of(data, entries),
        mock.is_json(value),
    ensures
        is_json_of(with_entry(data, name, value), with_entry(entries, name, mock)),
    decreases data.len(),
{
    if data.len() > 0 {
        assert(data[0].0 == entries[0].0);
        let (later, later_entries) = (data.skip(1), entries.skip(1));
        assert forall|i: int| 0 <= i < later_entries.len() implies (#[trigger] later[i]).0
            == later_entries[i].0 && later_entries[i].1.is_json(later[i].1) by {
            assert(data[i + 1].0 == entries[i + 1].0);
        }
        lemma_json_with_entry(later, later_entries, name, value, mock);
        let (after, after_entries) = (
            with_entry(data, name, value),
            with_entry(entries, name, mock),
        );
        assert forall|i: int| 0 <= i < after_entries.len() implies (#[trigger] after[i]).0
            == after_entries[i].0 && after_entries[i].1.is_json(after[i].1) by {
            if i > 0 {
                if data[0].0 == name {
                    assert(later[i - 1].0 == later_entries[i - 1].0);
                } else {
                    let inner = with_entry(later, name, value);
                    assert(inner[i - 1].0 == with_entry(later_entries, name, mock)[i - 1].0);
                }
            }
        }
    }
}

/// JSON entries that say what mock entries say have a value for the same names,
/// and each says what the mock value says.
pub proof fn lemma_json_lookup(
    data: Seq<(Seq<char>, JsonValue)>,
    entries: Seq<(Seq<char>, MockValue)>,
    name: Seq<char>,
)
    requires
        is_json_of(data, entries),
    ensures
        match lookup(entries, name) {
            Some(mock) => lookup(data, name) matches Some(value) && mock.is_json(value),
            None => lookup(data, name) is None,
        },
    decreases data.len(),
{
    if data.len() > 0 {
        assert(data[0].0 == entries[0].0);
        let (later, later_entries) = (data.skip(1), entries.skip(1));
        assert forall|i: int| 0 <= i < later_entries.len() implies (#[trigger] later[i]).0
            == later_entries[i].0 && later_entries[i].1.is_json(later[i].1) by {
            assert(data[i + 1].0 == entries[i + 1].0);
        }
        lemma_json_lookup(later, later_entries, name);
    }
}

/// A parameter's mock value stands under the last part of its name, unless a
/// later parameter has the same last part.
pub proof fn lemma_own_mock_entry(params: Seq<ResponseParameterInfo>, opaque: bool, i: int)
    requires
        0 <= i < params.len(),
        forall|j: int|
            i < j < params.len() ==> last_segment((#[trigger] params[j]).name@) != last_segment(
                params[i].name@,
            ),
    ensures
        lookup(mock_entries(params, opaque), last_segment(params[i].name@)) == Some(
            mock_value(params[i], opaque),
        ),
    decreases params.len(),
{
    let before = params.drop_last();
    let last = last_segment(params.last().name@);
    let value = mock_value(params.last(), opaque);
    let own = last_segment(params[i].name@);
    lemma_lookup_with_entry(mock_entries(before, opaque), last, value, own);
    if i < params.len() - 1 {
        assert forall|j: int| i < j < before.len() implies last_segment(
            (#[trigger] before[j]).name@,
        ) != last_segment(before[i].name@) by {
            assert(last_segment(params[j].name@) != own);
        }
        lemma_own_mock_entry(before, opaque, i);
        assert(last_segment(params[params.len() - 1].name@) != own);
    }
}

/// When a mock response is encoded, each parameter gets the mock value that
/// was made for it, unless a later one has the same last part of its name.
pub proof fn lemma_mock_value_is_found(
    params: Seq<ResponseParameterInfo>,
    opaque: bool,
    data: Seq<(Seq<char>, JsonValue)>,
    i: int,
)
    requires
        0 <= i < params.len(),
        is_json_of(data, mock_entries(params, opaque)),
        forall|j: int|
            i < j < params.len() ==> last_segment((#[trigger] params[j]).name@) != last_segment(
                params[i].name@,
            ),
    ensures
        param_value(data, params[i].name@) matches Some(value) && mock_value(
            params[i],
            opaque,
        ).is_json(value),
{
    let name = params[i].name@;
    let entries = mock_entries(params, opaque);
    lemma_own_mock_entry(params, opaque, i);
    lemma_json_lookup(data, entries, last_segment(name));
    lemma_json_lookup(data, entries, name);
    lemma_last_segment(name);
    if name.contains('/') {
        lemma_mock_names(params, opaque, name);
        assert forall|j: int| 0 <= j < params.len() implies last_segment(
            (#[trigger] params[j]).name@,
        ) != name by {
            lemma_last_segment(params[j].name@);
        }
    }
}

fn zeros(count: usize) -> (value: JsonValue)
    ensures
        MockValue::Zeros(count as nat).is_json(value),
{
    let mut items: Vec<JsonValue> = Vec::new();
    while items.len() < count
        invariant
            items@.len() <= count,
            forall|i: int|
                0 <= i < items@.len() ==> (#[trigger] items@[i]) == JsonValue::Number(
                    JsonNumber::PosInt(0),
                ),
        decreases count - items@.len(),
    {
        items.push(JsonValue::Number(JsonNumber::PosInt(0)));
    }
    JsonValue::Array(items)
}

impl SovdClient {
    /// Derive a generic default value for a VALUE parameter based on its
    /// byte size only.
    ///
    /// For small fields (1 to 8 bytes), produces a numeric equal to the byte
    /// size as a distinguishable non-zero placeholder. Larger fields are
    /// emitted as zero-filled byte arrays.
    pub fn default_value_for_param(byte_size: Option<u32>) -> (value: JsonValue)
        ensures
            default_value(byte_size).is_json(value),
    {
        match byte_size {
            Some(size) => if 1 <= size && size <= 8 {
                JsonValue::Number(JsonNumber::PosInt(size as u64))
            } else {
                zeros(size as usize)
            },
            None => JsonValue::Number(JsonNumber::PosInt(0)),
        }
    }

    /// Generate a generic mock payload for an opaque STRUCTURE parameter
    /// whose `byte_size` is unknown (END-OF-PDU / variable-length).
    ///
    /// Uses a fixed conservative size (4 bytes of zeros) that satisfies the
    /// MDD response encoder without assuming any ECU-specific layout.
    pub fn mock_opaque_payload(_did: u16) -> (value: JsonValue)
        ensures
            MockValue::Zeros(4).is_json(value),
    {
        zeros(4)
    }

    /// Generate a mock SOVD response from MDD POS-RESPONSE metadata.
    ///
    /// For each VALUE/PhysConst parameter in the response structure, emits a
    /// default derived from the parameter definition:
    ///
    /// - `PhysConst`: uses the `coded_value` from MDD (e.g. diagnostic
    ///   session `1` for default session).
    /// - VALUE with known `byte_size`: uses a placeholder for the field width.
    /// - `CodedConst` / `MatchingRequestParam`: skipped, the MDD response
    ///   encoder fills those automatically.
    ///
    /// When the service uses MUX cases, only parameters belonging to the
    /// case that matches `did` are included.
    pub fn generate_mock_response_data(
        &self,
        _data_id: &str,
        response_meta: &[ResponseParameterInfo],
        did: u16,
    ) -> (data: JsonMap)
        ensures
            is_json_of(data@, mock_response(response_meta@, did)),
    {
        let ghost prefix_view = mux_case_prefix(response_meta@, did);
        let prefix: Option<Vec<char>> = match find_mux_case_prefix(response_meta, did) {
            Some(prefix) => Some(chars_of(prefix.as_str())),
            None => None,
        };
        let mut params: Vec<&ResponseParameterInfo> = Vec::new();
        let mut i: usize = 0;
        while i < response_meta.len()
            invariant
                i <= response_meta@.len(),
                prefix_view == match prefix {
                    Some(prefix) => Some(prefix@),
                    None => None,
                },
                param_values(params@) == mocked_params(
                    response_meta@.take(i as int),
                    prefix_view,
                ),
                forall|k: int| 0 <= k < params@.len() ==> is_data_param(*#[trigger] params@[k]),
            decreases response_meta@.len() - i,
        {
            let p = &response_meta[i];
            let ghost before = params@;
            proof {
                assert(response_meta@.take(i + 1).drop_last() =~= response_meta@.take(i as int));
                assert(response_meta@.take(i + 1).last() == *p);
            }
            let name = chars_of(p.name.as_str());
            let in_case = match &prefix {
                Some(prefix) => starts_with(name.as_slice(), prefix.as_slice()),
                None => false,
            };
            let included = !is_marker(p.name.as_str()) && (!contains_char(name.as_slice(), '/')
                || in_case);
            let bears_data = match &p.param_type {
                ParameterTypeMetadata::Value { .. } | ParameterTypeMetadata::PhysConst {
                    ..
                } => true,
                _ => false,
            };
            if included && bears_data {
                params.push(p);
                assert(param_values(params@) =~= param_values(before).push(*p));
            }
            i = i + 1;
        }
        assert(response_meta@.take(i as int) =~= response_meta@);
        let ghost chosen = param_values(params@);
        let opaque = params.len() == 1 && match &params[0].param_type {
            ParameterTypeMetadata::Value { .. } => params[0].byte_size.is_none(),
            _ => false,
        };
        assert(opaque == is_opaque_single(chosen));
        assert forall|k: int| 0 <= k < chosen.len() implies is_data_param(#[trigger] chosen[k]) by {
            assert(is_data_param(*params@[k]));
        }
        let mut data = JsonMap::new();
        let mut j: usize = 0;
        while j < params.len()
            invariant
                j <= params@.len(),
                chosen == param_values(params@),
                forall|k: int| 0 <= k < chosen.len() ==> is_data_param(#[trigger] chosen[k]),
                is_json_of(data@, mock_entries(chosen.take(j as int), opaque)),
            decreases params@.len() - j,
        {
            let p = params[j];
            proof {
                assert(chosen.take(j + 1).drop_last() =~= chosen.take(j as int));
                assert(chosen.take(j + 1).last() == *p);
                assert(is_data_param(chosen[j as int]));
            }
            let chars = chars_of(p.name.as_str());
            let key = string_of(segment_after_last_slash(chars.as_slice()));
            let value = match &p.param_type {
                ParameterTypeMetadata::PhysConst { coded_value, .. } => JsonValue::Number(
                    JsonNumber::PosInt(
                        match coded_value {
                            Some(value) => *value,
                            None => 0,
                        },
                    ),
                ),
                _ => if p.byte_size.is_none() && opaque {
                    Self::mock_opaque_payload(did)
                } else {
                    Self::default_value_for_param(p.byte_size)
                },
            };
            proof {
                lemma_json_with_entry(
                    data@,
                    mock_entries(chosen.take(j as int), opaque),
                    key@,
                    value,
                    mock_value(*p, opaque),
                );
            }
            data.insert(key, value);
            j = j + 1;
        }
        assert(chosen.take(j as int) =~= chosen);
        data
    }
}

/// The referenced parameters.
spec fn param_values(params: Seq<&ResponseParameterInfo>) -> Seq<ResponseParameterInfo> {
    params.map_values(|p: &ResponseParameterInfo| *p)
}

} // verus!
