//! What the SOVD layer promises, in terms of statuses, URLs and mock values.

use crate::config::SovdView;
use crate::error::{ProxyError, Result, SovdError};
use crate::json::{law_set_value, lookup, JsonMap, JsonNumber, JsonValue};
use crate::number::decimal_text;
use crate::service_resolver::model::{ParameterTypeMetadata, ResponseParameterInfo};
use crate::service_resolver::resolve::texts;
use crate::service_resolver::response::{metadata_response, naive_response};
use crate::service_resolver::uds_helpers::{array_bytes, mux_case_prefix};
use crate::sovd::client::{
    auth_body, authorize_url, component_url, default_value, http_text, is_authentication,
    is_json_of, is_opaque_single, is_token_action, is_written, lemma_json_lookup,
    lemma_own_mock_entry, mock_entries, mock_response, mock_value, mocked_params, read_body,
    reason_phrase, write_body, AuthAction, BodyKind, Client, MockValue, ReadRequest, ReplyBody,
    SovdClient,
};
use crate::sovd::diag_handler::{chosen_ecu, SovdDiagHandler};
use crate::sovd::mapper::{
    is_read_plan, is_write_plan, lowercase_of, read_response_bytes, write_response_bytes, Mapper,
    ReadPlan, SovdMapper, WritePlan,
};
use crate::sovd::schema::DataResponse;
use crate::text::last_segment;
use vstd::prelude::*;

verus! {

/// An authentication succeeded exactly if the status is one of the hundred that
/// start with a two. Every other reply is read as a text.
pub proof fn law_auth_status(status: u16)
    ensures
        status / 100 == 2 <==> auth_body(status) == BodyKind::Json,
        status / 100 != 2 <==> auth_body(status) == BodyKind::Text,
{
}

/// Only a reply with status 200 to a read holds data, only the one with status
/// 404 says that there is none, and every other is read as a text.
pub proof fn law_read_status(status: u16)
    ensures
        status == 200 <==> read_body(status) == BodyKind::Json,
        status == 404 <==> read_body(status) == BodyKind::Unread,
        status != 200 && status != 404 <==> read_body(status) == BodyKind::Text,
{
}

/// Exactly three statuses say that a write was carried out or taken on. For
/// these and for 404 the body is not looked at, for every other it is a text.
pub proof fn law_write_status(status: u16)
    ensures
        is_written(status) <==> status == 200 || status == 202 || status == 204,
        is_written(status) ==> write_body(status) == BodyKind::Unread,
        write_body(404) == BodyKind::Unread,
        !is_written(status) && status != 404 ==> write_body(status) == BodyKind::Text,
{
}

/// The text for an unexpected reply starts with `HTTP`, the status and its
/// reason phrase, and ends with the whole body.
pub proof fn law_http_text(status: u16, body: Seq<char>)
    ensures
        http_text(status, body) == http_text(status, Seq::empty()) + body,
        (seq!['H', 'T', 'T', 'P', ' '] + decimal_text(status as nat)).is_prefix_of(
            http_text(status, body),
        ),
        http_text(status, body).len() == 5 + decimal_text(status as nat).len() + 1 + reason_phrase(
            status,
        ).len() + 2 + body.len(),
        http_text(status, body).subrange(
            6 + decimal_text(status as nat).len() as int,
            6 + decimal_text(status as nat).len() as int + reason_phrase(status).len(),
        ) == reason_phrase(status),
{
    reveal_strlit("HTTP ");
    reveal_strlit(" ");
    reveal_strlit(": ");
    let text = http_text(status, body);
    let digits = decimal_text(status as nat);
    let phrase = reason_phrase(status);
    assert(text =~= http_text(status, Seq::empty()) + body);
    let start = seq!['H', 'T', 'T', 'P', ' '] + digits;
    assert(text.subrange(0, start.len() as int) =~= start);
    assert(text.subrange(6 + digits.len() as int, 6 + digits.len() as int + phrase.len()) =~= phrase);
}

/// Some parts with a slash between each and the next.
pub open spec fn slash_joined(parts: Seq<Seq<char>>) -> Seq<char>
    decreases parts.len(),
{
    if parts.len() == 0 {
        Seq::empty()
    } else if parts.len() == 1 {
        parts[0]
    } else {
        slash_joined(parts.drop_last()) + seq!['/'] + parts.last()
    }
}

/// The URLs as paths below the URL of the gateway: `vehicle`, the version, and
/// then `authorize`, or `components`, the component, the collection and the
/// data identifier.
pub proof fn law_urls(config: SovdView, component: Seq<char>, data_id: Seq<char>)
    ensures
        authorize_url(config) == slash_joined(
            seq![config.gateway_url, "vehicle"@, config.api_version, "authorize"@],
        ),
        component_url(config, component, "/data/"@, data_id) == slash_joined(
            seq![
                config.gateway_url,
                "vehicle"@,
                config.api_version,
                "components"@,
                component,
                "data"@,
                data_id,
            ],
        ),
        component_url(config, component, "/configurations/"@, data_id) == slash_joined(
            seq![
                config.gateway_url,
                "vehicle"@,
                config.api_version,
                "components"@,
                component,
                "configurations"@,
                data_id,
            ],
        ),
{
    reveal_strlit("/vehicle/");
    reveal_strlit("vehicle");
    reveal_strlit("/authorize");
    reveal_strlit("authorize");
    reveal_strlit("/components/");
    reveal_strlit("components");
    reveal_strlit("/data/");
    reveal_strlit("data");
    reveal_strlit("/configurations/");
    reveal_strlit("configurations");
    let version = seq![config.gateway_url, "vehicle"@, config.api_version];
    lemma_slash_joined_3(config.gateway_url, "vehicle"@, config.api_version);
    let auth = version.push("authorize"@);
    assert(auth =~= seq![config.gateway_url, "vehicle"@, config.api_version, "authorize"@]);
    lemma_slash_joined_push(version, "authorize"@);
    assert(slash_joined(auth) =~= authorize_url(config));
    let parts = version.push("components"@).push(component);
    lemma_slash_joined_push(version, "components"@);
    lemma_slash_joined_push(version.push("components"@), component);
    lemma_slash_joined_push(parts, "data"@);
    lemma_slash_joined_push(parts.push("data"@), data_id);
    lemma_slash_joined_push(parts, "configurations"@);
    lemma_slash_joined_push(parts.push("configurations"@), data_id);
    assert(parts.push("data"@).push(data_id) =~= seq![
        config.gateway_url,
        "vehicle"@,
        config.api_version,
        "components"@,
        component,
        "data"@,
        data_id,
    ]);
    assert(parts.push("configurations"@).push(data_id) =~= seq![
        config.gateway_url,
        "vehicle"@,
        config.api_version,
        "components"@,
        component,
        "configurations"@,
        data_id,
    ]);
    assert(slash_joined(parts.push("data"@).push(data_id)) =~= component_url(
        config,
        component,
        "/data/"@,
        data_id,
    ));
    assert(slash_joined(parts.push("configurations"@).push(data_id)) =~= component_url(
        config,
        component,
        "/configurations/"@,
        data_id,
    ));
}

proof fn lemma_slash_joined_push(parts: Seq<Seq<char>>, part: Seq<char>)
    requires
        parts.len() > 0,
    ensures
        slash_joined(parts.push(part)) == slash_joined(parts) + seq!['/'] + part,
{
    assert(parts.push(part).drop_last() =~= parts);
}

proof fn lemma_slash_joined_3(a: Seq<char>, b: Seq<char>, c: Seq<char>)
    ensures
        slash_joined(seq![a, b, c]) == a + seq!['/'] + b + seq!['/'] + c,
{
    lemma_slash_joined_push(seq![a], b);
    lemma_slash_joined_push(seq![a].push(b), c);
    assert(seq![a].push(b).push(c) =~= seq![a, b, c]);
}

/// Without a cached token, mock mode gives its own token without asking, and
/// otherwise the gateway is asked with the configured credentials.
pub proof fn law_authentication(action: AuthAction, client: Client)
    requires
        is_token_action(action, client),
    ensures
        client.token is Some ==> (action matches AuthAction::Authenticated(t) && client.token
            == Some(t@)),
        client.token is None && client.config.mock_gateway ==> (
        action matches AuthAction::Authenticated(t) && t@ == "mock-access-token"@),
        client.token is None && !client.config.mock_gateway ==> (
        action matches AuthAction::Request(request) && request.client_id@ == client.config.client_id
            && request.client_secret@ == client.config.client_secret && request.url@
            == slash_joined(
            seq![
                client.config.gateway_url,
                "vehicle"@,
                client.config.api_version,
                "authorize"@,
            ],
        )),
        is_authentication(action, client.config) || client.token is Some,
{
    law_urls(client.config, Seq::empty(), Seq::empty());
}

// ---------------------------------------------------------------------------
// Mock responses
// ---------------------------------------------------------------------------

/// The default for a field of one to eight bytes is a number that the field
/// holds, the size itself. Any other field of known size gets a zero for each
/// byte, and one of unknown size the number zero.
pub proof fn law_default_values(size: u32)
    ensures
        1 <= size <= 8 ==> (default_value(Some(size)) matches MockValue::Number(n) && n == size),
        size == 0 || size > 8 ==> (default_value(Some(size)) matches MockValue::Zeros(count)
            && count == size),
        default_value(None) == MockValue::Number(0),
{
}

/// A mock number is a JSON number of its value, and mock zeros are a list that
/// encodes to as many zero bytes.
pub proof fn law_mock_values_as_json(n: u64, count: nat, value: JsonValue)
    ensures
        MockValue::Number(n).is_json(value) <==> value == JsonValue::Number(JsonNumber::PosInt(n)),
        MockValue::Zeros(count).is_json(value) ==> (value matches JsonValue::Array(items)
            && items@.len() == count && array_bytes(items@) == Seq::new(count, |i: int| 0u8)),
        (value matches JsonValue::Array(items) && items@ == Seq::new(
            count,
            |i: int| JsonValue::Number(JsonNumber::PosInt(0)),
        )) ==> MockValue::Zeros(count).is_json(value),
{
    if MockValue::Zeros(count).is_json(value) {
        if let JsonValue::Array(items) = value {
            lemma_zero_items(items@);
        }
    }
}

proof fn lemma_zero_items(items: Seq<JsonValue>)
    requires
        forall|i: int|
            0 <= i < items.len() ==> #[trigger] items[i] == JsonValue::Number(
                JsonNumber::PosInt(0),
            ),
    ensures
        array_bytes(items) == Seq::new(items.len(), |i: int| 0u8),
    decreases items.len(),
{
    if items.len() > 0 {
        let shorter = items.drop_last();
        assert forall|i: int| 0 <= i < shorter.len() implies #[trigger] shorter[i]
            == JsonValue::Number(JsonNumber::PosInt(0)) by {
            assert(items[i] == shorter[i]);
        }
        lemma_zero_items(shorter);
        assert(items[items.len() - 1] == items.last());
    }
    assert(array_bytes(items) =~= Seq::new(items.len(), |i: int| 0u8));
}

/// The mock value of a physical constant is its coded value, or zero without
/// one, whatever its size.
pub proof fn law_mock_physical_constant(p: ResponseParameterInfo, opaque: bool)
    ensures
        p.param_type matches ParameterTypeMetadata::PhysConst { phys_constant_value, coded_value }
            ==> mock_value(p, opaque) == MockValue::Number(
            match coded_value {
                Some(coded) => coded,
                None => 0,
            },
        ),
{
}

/// The mock value of a value goes by its size. One of unknown size that carries
/// the whole payload is four zeros.
pub proof fn law_mock_value_by_size(p: ResponseParameterInfo, opaque: bool)
    requires
        p.param_type is Value,
    ensures
        p.byte_size is Some ==> mock_value(p, opaque) == default_value(p.byte_size),
        p.byte_size is None && opaque ==> mock_value(p, opaque) == MockValue::Zeros(4),
        p.byte_size is None && !opaque ==> mock_value(p, opaque) == MockValue::Number(0),
{
}

/// A single parameter carries the whole payload exactly if it is a value of
/// unknown size. Where there are more or none, no parameter does.
pub proof fn law_whole_payload(params: Seq<ResponseParameterInfo>, p: ResponseParameterInfo)
    ensures
        is_opaque_single(seq![p]) <==> p.param_type is Value && p.byte_size is None,
        params.len() != 1 ==> !is_opaque_single(params),
{
}

/// The mocked parameters are chosen one by one and keep their order.
pub proof fn law_mocked_params_one_by_one(
    a: Seq<ResponseParameterInfo>,
    b: Seq<ResponseParameterInfo>,
    prefix: Option<Seq<char>>,
)
    ensures
        mocked_params(a + b, prefix) == mocked_params(a, prefix) + mocked_params(b, prefix),
    decreases b.len(),
{
    if b.len() == 0 {
        assert(a + b =~= a);
        assert(mocked_params(a, prefix) + mocked_params(b, prefix) =~= mocked_params(a, prefix));
    } else {
        assert((a + b).drop_last() =~= a + b.drop_last());
        law_mocked_params_one_by_one(a, b.drop_last(), prefix);
        assert(mocked_params(a + b, prefix) =~= mocked_params(a, prefix) + mocked_params(
            b,
            prefix,
        ));
    }
}

/// A parameter is mocked exactly if it is a value or a physical constant, is no
/// case marker, and has no slash in its name or a name that starts with the
/// prefix of the case.
pub proof fn law_mocked_param(p: ResponseParameterInfo, prefix: Option<Seq<char>>)
    ensures
        ({
            let bears_data = !(p.param_type is CodedConst) && !(
            p.param_type is MatchingRequestParam);
            let marker = "__mux_case__/"@.is_prefix_of(p.name@);
            let in_case = prefix matches Some(start) && start.is_prefix_of(p.name@);
            if bears_data && !marker && (!p.name@.contains('/') || in_case) {
                mocked_params(seq![p], prefix) == seq![p]
            } else {
                mocked_params(seq![p], prefix) == Seq::<ResponseParameterInfo>::empty()
            }
        }),
{
    reveal_with_fuel(mocked_params, 2);
    assert(seq![p].drop_last() =~= Seq::<ResponseParameterInfo>::empty());
    assert(seq![p].last() == p);
    let none = Seq::<ResponseParameterInfo>::empty();
    assert(none.push(p) =~= seq![p]);
}

/// In a mock response every mocked parameter has its mock value under the last
/// part of its name, unless a later one has the same last part.
pub proof fn law_mock_response_entry(meta: Seq<ResponseParameterInfo>, did: u16, i: int)
    requires
        ({
            let params = mocked_params(meta, mux_case_prefix(meta, did));
            &&& 0 <= i < params.len()
            &&& forall|j: int|
                i < j < params.len() ==> last_segment((#[trigger] params[j]).name@) != last_segment(
                    params[i].name@,
                )
        }),
    ensures
        ({
            let params = mocked_params(meta, mux_case_prefix(meta, did));
            let p = params[i];
            let found = lookup(mock_response(meta, did), last_segment(p.name@));
            match p.param_type {
                ParameterTypeMetadata::PhysConst { coded_value, .. } => found == Some(
                    MockValue::Number(
                        match coded_value {
                            Some(coded) => coded,
                            None => 0,
                        },
                    ),
                ),
                ParameterTypeMetadata::Value { .. } => match p.byte_size {
                    Some(size) => found == Some(
                        if 1 <= size <= 8 {
                            MockValue::Number(size as u64)
                        } else {
                            MockValue::Zeros(size as nat)
                        },
                    ),
                    None => found == Some(
                        if params.len() == 1 {
                            MockValue::Zeros(4)
                        } else {
                            MockValue::Number(0)
                        },
                    ),
                },
                _ => true,
            }
        }),
{
    let params = mocked_params(meta, mux_case_prefix(meta, did));
    lemma_own_mock_entry(params, is_opaque_single(params), i);
}

/// The mock values come in the order of their parameters, one for each where no
/// two have the same last part of their names.
pub proof fn law_mock_values_in_order(params: Seq<ResponseParameterInfo>, opaque: bool)
    requires
        forall|i: int, j: int|
            0 <= i < j < params.len() ==> last_segment((#[trigger] params[i]).name@)
                != last_segment((#[trigger] params[j]).name@),
    ensures
        mock_entries(params, opaque).len() == params.len(),
        forall|i: int|
            0 <= i < params.len() ==> #[trigger] mock_entries(params, opaque)[i] == (
                last_segment(params[i].name@),
                mock_value(params[i], opaque),
            ),
    decreases params.len(),
{
    if params.len() > 0 {
        let shorter = params.drop_last();
        let last = params.len() - 1;
        let name = last_segment(params[last].name@);
        let value = mock_value(params[last], opaque);
        assert forall|i: int, j: int| 0 <= i < j < shorter.len() implies last_segment(
            (#[trigger] shorter[i]).name@,
        ) != last_segment((#[trigger] shorter[j]).name@) by {
            assert(last_segment(params[i].name@) != last_segment(params[j].name@));
        }
        law_mock_values_in_order(shorter, opaque);
        let before = mock_entries(shorter, opaque);
        assert forall|i: int| 0 <= i < before.len() implies (#[trigger] before[i]).0 != name by {
            assert(last_segment(params[i].name@) != last_segment(params[last].name@));
            assert(shorter[i] == params[i]);
        }
        law_set_value(before, name, value, value, Seq::empty());
        assert(mock_entries(params, opaque) == before.push((name, value)));
        assert forall|i: int| 0 <= i < params.len() implies #[trigger] mock_entries(
            params,
            opaque,
        )[i] == (last_segment(params[i].name@), mock_value(params[i], opaque)) by {
            if i < last {
                assert(shorter[i] == params[i]);
                assert(before[i] == (
                    last_segment(shorter[i].name@),
                    mock_value(shorter[i], opaque),
                ));
            }
        }
    }
}

/// JSON data that says what mock entries say has the same names, and under each
/// the same value.
pub proof fn law_mock_data_by_name(
    data: Seq<(Seq<char>, JsonValue)>,
    entries: Seq<(Seq<char>, MockValue)>,
    name: Seq<char>,
)
    requires
        is_json_of(data, entries),
    ensures
        data.len() == entries.len(),
        lookup(data, name) is Some <==> lookup(entries, name) is Some,
        lookup(entries, name) matches Some(MockValue::Number(n)) ==> lookup(data, name) == Some(
            JsonValue::Number(JsonNumber::PosInt(n)),
        ),
        lookup(entries, name) matches Some(MockValue::Zeros(count)) ==> (lookup(
            data,
            name,
        ) matches Some(JsonValue::Array(items)) && array_bytes(items@) == Seq::new(
            count,
            |i: int| 0u8,
        )),
{
    lemma_json_lookup(data, entries, name);
    if let Some(MockValue::Zeros(count)) = lookup(entries, name) {
        law_mock_values_as_json(0, count, lookup(data, name)->0);
    }
}

// ---------------------------------------------------------------------------
// Requests and responses
// ---------------------------------------------------------------------------

/// A read goes to the data of the ECU, under the name of the service in lower
/// case: in mock mode it is made up, and nothing is asked.
pub proof fn law_read_plan(plan: ReadPlan, mapper: Mapper, service_name: Seq<char>)
    requires
        is_read_plan(plan, mapper, service_name),
    ensures
        mapper.mock_gateway <==> plan is Mock,
        plan matches ReadPlan::Mock { endpoint, url } ==> endpoint@ == lowercase_of(service_name)
            && url@ == slash_joined(
            seq![
                mapper.gateway_url,
                "vehicle"@,
                mapper.api_version,
                "components"@,
                mapper.ecu_name,
                "data"@,
                lowercase_of(service_name),
            ],
        ),
        plan matches ReadPlan::Fetch { endpoint, request } ==> endpoint@ == lowercase_of(
            service_name,
        ) && request.include_schema == mapper.client.config.include_schema && request.url@
            == slash_joined(
            seq![
                mapper.client.config.gateway_url,
                "vehicle"@,
                mapper.client.config.api_version,
                "components"@,
                mapper.ecu_name,
                "data"@,
                lowercase_of(service_name),
            ],
        ),
{
    law_urls(mapper.client.config, mapper.ecu_name, lowercase_of(service_name));
    let own = SovdView {
        gateway_url: mapper.gateway_url,
        api_version: mapper.api_version,
        ..mapper.client.config
    };
    law_urls(own, mapper.ecu_name, lowercase_of(service_name));
}

/// Every write request with at least four bytes, however long, is planned with
/// all of its data. It goes to the configurations of the ECU, and in mock mode
/// nowhere. A shorter one is refused.
pub proof fn law_write_plan(
    plan: Result<WritePlan>,
    mapper: Mapper,
    uds_request: Seq<u8>,
    service_name: Seq<char>,
    data: JsonMap,
)
    requires
        is_write_plan(plan, mapper, uds_request, service_name, data),
    ensures
        uds_request.len() >= 4 <==> plan is Ok,
        uds_request.len() < 4 ==> (plan matches Err(
            ProxyError::Sovd(SovdError::SchemaMismatch(message)),
        ) && message@ == "Write request missing data"@),
        plan matches Ok(p) ==> {
            &&& p.data == data
            &&& p.endpoint@ == lowercase_of(service_name)
            &&& mapper.client.config.mock_gateway <==> p.url is None
            &&& p.url matches Some(url) ==> url@ == slash_joined(
                seq![
                    mapper.client.config.gateway_url,
                    "vehicle"@,
                    mapper.client.config.api_version,
                    "components"@,
                    mapper.ecu_name,
                    "configurations"@,
                    lowercase_of(service_name),
                ],
            )
        },
{
    law_urls(mapper.client.config, mapper.ecu_name, lowercase_of(service_name));
}

/// The response to a write is three bytes: 0x6E and the DID, high byte first.
pub proof fn law_write_response(did: u16)
    ensures
        ({
            let response = write_response_bytes(did);
            &&& response.len() == 3
            &&& response[0] == 0x6E
            &&& response[1] as int * 256 + response[2] as int == did
        }),
{
}

/// The response to a read follows the layout where there is one that is not
/// empty. Otherwise it starts with 0x62 and the DID.
pub proof fn law_read_response(
    did: u16,
    data: Seq<(Seq<char>, JsonValue)>,
    meta: Vec<ResponseParameterInfo>,
    service: String,
)
    ensures
        meta@.len() > 0 ==> read_response_bytes(did, data, Some((meta, service)))
            == metadata_response(meta@, data, did),
        meta@.len() == 0 ==> read_response_bytes(did, data, Some((meta, service)))
            == read_response_bytes(did, data, None),
        read_response_bytes(did, data, None).len() >= 3,
        read_response_bytes(did, data, None)[0] == 0x62,
        read_response_bytes(did, data, None)[1] as int * 256 + read_response_bytes(
            did,
            data,
            None,
        )[2] as int == did,
        read_response_bytes(did, data, None) == naive_response(0x22, did, data),
{
}

/// The ECU with the default name is served where it is loaded, and the first
/// of several with that name. Otherwise the first one is served.
pub proof fn law_chosen_ecu(front: Seq<Seq<char>>, name: Seq<char>, back: Seq<Seq<char>>)
    requires
        !front.contains(name),
    ensures
        chosen_ecu(name, front + seq![name] + back) == Some(front.len() as int),
        front.len() > 0 ==> chosen_ecu(name, front) == Some(0int),
        chosen_ecu(name, Seq::empty()) is None,
{
    let names = front + seq![name] + back;
    let at = front.len() as int;
    assert(names[at] == name);
    names.index_of_first_ensures(name);
    let first = names.index_of_first(name)->0;
    if first < at {
        assert(front[first] == name);
    }
}

/// What a reply to a write means, for every status: three say that it was
/// written, 400 that the data does not fit, 404 that there is no such data, and
/// every other is an HTTP error.
pub proof fn law_write_outcome(data_id: &str, status: u16, body: &str, written: Result<()>)
    requires
        call_ensures(SovdClient::write_outcome, (data_id, status, body), written),
    ensures
        written is Ok <==> status == 200 || status == 202 || status == 204,
        status == 404 <==> (written matches Err(
            ProxyError::Sovd(SovdError::DataIdNotFound(id)),
        ) && id@ == data_id@),
        status == 400 <==> written matches Err(ProxyError::Sovd(SovdError::SchemaMismatch(_))),
        written matches Err(ProxyError::Sovd(SovdError::SchemaMismatch(message))) ==> message@
            == "Invalid request: "@ + body@,
        written matches Err(ProxyError::Sovd(SovdError::Http(message))) ==> message@ == http_text(
            status,
            body@,
        ),
        written matches Err(e) ==> e is Sovd,
{
}

/// A reply to a read gives exactly the data that came in. Without data it is an
/// error about the identifier that was asked for.
pub proof fn law_read_outcome(
    data_id: &str,
    status: u16,
    body: ReplyBody<DataResponse>,
    data: Result<DataResponse>,
)
    requires
        call_ensures(SovdClient::read_outcome, (data_id, status, body), data),
    ensures
        body matches ReplyBody::Json(response) ==> (data matches Ok(d) && d == response),
        body is Unread ==> (data matches Err(
            ProxyError::Sovd(SovdError::DataIdNotFound(id)),
        ) && id@ == data_id@),
        body matches ReplyBody::Malformed(reason) ==> (data matches Err(
            ProxyError::Sovd(SovdError::Http(message)),
        ) && message@ == reason@),
        body matches ReplyBody::Text(text) ==> (data matches Err(
            ProxyError::Sovd(SovdError::Http(message)),
        ) && message@ == http_text(status, text@)),
{
}

/// A write that was carried out is answered with 0x6E and its DID, and one that
/// failed with its error.
pub proof fn law_complete_write(did: u16, written: Result<()>, response: Result<Vec<u8>>)
    requires
        call_ensures(SovdMapper::complete_write, (did, written), response),
    ensures
        written is Ok ==> (response matches Ok(bytes) && bytes@.len() == 3 && bytes@[0] == 0x6E
            && bytes@[1] as int * 256 + bytes@[2] as int == did),
        written matches Err(e) ==> (response matches Err(f) && f == e),
{
}

/// A read of data is answered with the response that follows its layout, and
/// one that failed with its error.
pub proof fn law_complete_read(
    mapper: SovdMapper,
    did: u16,
    read: Result<DataResponse>,
    meta: Vec<ResponseParameterInfo>,
    service: String,
    service_name: &str,
    response: Result<Vec<u8>>,
)
    requires
        meta@.len() > 0,
        call_ensures(
            SovdMapper::complete_read,
            (&mapper, did, read, Some(&(meta, service)), service_name),
            response,
        ),
    ensures
        read matches Ok(data) ==> (response matches Ok(bytes) && bytes@ == metadata_response(
            meta@,
            data.data@,
            did,
        )),
        read matches Err(e) ==> (response matches Err(f) && f == e),
{
}

/// The request for a read is the URL below the data of the component.
pub proof fn law_read_request(
    client: SovdClient,
    component: &str,
    data_id: &str,
    request: ReadRequest,
)
    requires
        call_ensures(SovdClient::read_data, (&client, component, data_id), request),
    ensures
        request.include_schema == client@.config.include_schema,
        request.url@ == slash_joined(
            seq![
                client@.config.gateway_url,
                "vehicle"@,
                client@.config.api_version,
                "components"@,
                component@,
                "data"@,
                data_id@,
            ],
        ),
{
    law_urls(client@.config, component@, data_id@);
}

/// Without a database there is no ECU to serve, and with one there is.
pub proof fn law_some_ecu_is_served(
    handler: SovdDiagHandler,
    loaded: &[String],
    index: Result<usize>,
)
    requires
        call_ensures(SovdDiagHandler::ecu_manager, (&handler, loaded), index),
    ensures
        loaded@.len() == 0 <==> index is Err,
        index matches Ok(i) ==> i < loaded@.len() && (loaded@[i as int]@ == handler.ecu() || i == 0
            && forall|j: int| 0 <= j < loaded@.len() ==> (#[trigger] loaded@[j])@ != handler.ecu()),
{
    let names = texts(loaded@);
    names.index_of_first_ensures(handler.ecu());
    if let Ok(i) = index {
        if names.contains(handler.ecu()) {
            let first = names.index_of_first(handler.ecu())->0;
            assert(names[first] == handler.ecu());
        } else {
            assert forall|j: int| 0 <= j < loaded@.len() implies (#[trigger] loaded@[j])@
                != handler.ecu() by {
                assert(names[j] == loaded@[j]@);
                assert(names.contains(names[j]));
            }
        }
    }
}

} // verus!
