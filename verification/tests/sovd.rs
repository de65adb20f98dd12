//! SOVD requests, replies, mapping and mock data.

use uds2sovd_proxy::config::{Config, SovdConfig};
use uds2sovd_proxy::error::{ProxyError, SovdError, UdsError};
use uds2sovd_proxy::json::{JsonMap, JsonNumber, JsonValue};
use uds2sovd_proxy::service_resolver::model::{
    DiagServiceError, ParameterTypeMetadata, ResponseParameterInfo,
};
use uds2sovd_proxy::service_resolver::ResolvedService;
use uds2sovd_proxy::sovd::client::{AuthAction, BodyKind, ReplyBody};
use uds2sovd_proxy::sovd::mapper::{sovd_endpoint, ReadPlan};
use uds2sovd_proxy::sovd::{DataResponse, SovdClient, SovdDiagHandler, SovdMapper};

fn number(n: u64) -> JsonValue {
    JsonValue::Number(JsonNumber::PosInt(n))
}

fn string(s: &str) -> JsonValue {
    JsonValue::String(s.to_owned())
}

fn items(value: &JsonValue) -> &Vec<JsonValue> {
    match value {
        JsonValue::Array(items) => items,
        _ => panic!("not an array"),
    }
}

fn create_test_config() -> SovdConfig {
    SovdConfig {
        gateway_url: "http://localhost:20002".to_string(),
        client_id: "test-client".to_string(),
        client_secret: "test-secret".to_string(),
        timeout_ms: 5000,
        api_version: "v15".to_string(),
        include_schema: true,
        mock_gateway: false,
    }
}

#[test]
fn test_mock_includes_value_params_skips_const() {
    let client = SovdClient::new(create_test_config());
    let meta = vec![
        ResponseParameterInfo {
            name: "sid".to_string(),
            semantic: Some("SERVICE-ID".to_string()),
            param_type: ParameterTypeMetadata::CodedConst {
                coded_value: "98".to_string(),
            },
            byte_position: 0,
            bit_position: 0,
            byte_size: Some(1),
        },
        ResponseParameterInfo {
            name: "RDBI_DID".to_string(),
            semantic: Some("DATA-IDENTIFIER".to_string()),
            param_type: ParameterTypeMetadata::MatchingRequestParam { byte_length: 2 },
            byte_position: 1,
            bit_position: 0,
            byte_size: Some(2),
        },
        ResponseParameterInfo {
            name: "NUMBER_OF_XWES".to_string(),
            semantic: Some("DATA".to_string()),
            param_type: ParameterTypeMetadata::Value {
                physical_default_value: None,
                coded_default_value: None,
                compu_scales: vec![],
            },
            byte_position: 3,
            bit_position: 0,
            byte_size: Some(1),
        },
        ResponseParameterInfo {
            name: "XWES_RECORDS".to_string(),
            semantic: Some("DATA".to_string()),
            param_type: ParameterTypeMetadata::Value {
                physical_default_value: None,
                coded_default_value: None,
                compu_scales: vec![],
            },
            byte_position: 4,
            bit_position: 0,
            byte_size: None,
        },
    ];

    let data = client.generate_mock_response_data("rsu_mirror_status", &meta, 0x25A4);

    assert!(data.get("NUMBER_OF_XWES").is_some());
    assert!(data.get("XWES_RECORDS").is_some());
    assert!(data.get("sid").is_none());
    assert!(data.get("RDBI_DID").is_none());
    // NUMBER_OF_XWES: 1-byte VALUE -> generic default (sz=1 -> 1)
    assert_eq!(data.get("NUMBER_OF_XWES"), Some(&number(1)));
    // XWES_RECORDS: no byte_size -> 0
    assert_eq!(data.get("XWES_RECORDS"), Some(&number(0)));
}

#[test]
fn test_mock_filters_mux_case() {
    let client = SovdClient::new(create_test_config());
    let meta = vec![
        ResponseParameterInfo {
            name: "__mux_case__/case_a".to_string(),
            semantic: Some("MUX-CASE".to_string()),
            param_type: ParameterTypeMetadata::CodedConst {
                coded_value: "61840".to_string(),
            },
            byte_position: 3,
            bit_position: 0,
            byte_size: Some(2),
        },
        ResponseParameterInfo {
            name: "__mux_case__/case_b".to_string(),
            semantic: Some("MUX-CASE".to_string()),
            param_type: ParameterTypeMetadata::CodedConst {
                coded_value: "61841".to_string(),
            },
            byte_position: 3,
            bit_position: 0,
            byte_size: Some(2),
        },
        ResponseParameterInfo {
            name: "case_a/ADS".to_string(),
            semantic: Some("DATA".to_string()),
            param_type: ParameterTypeMetadata::Value {
                physical_default_value: None,
                coded_default_value: None,
                compu_scales: vec![],
            },
            byte_position: 3,
            bit_position: 0,
            byte_size: Some(1),
        },
        ResponseParameterInfo {
            name: "case_b/ADS".to_string(),
            semantic: Some("DATA".to_string()),
            param_type: ParameterTypeMetadata::Value {
                physical_default_value: None,
                coded_default_value: None,
                compu_scales: vec![],
            },
            byte_position: 3,
            bit_position: 0,
            byte_size: Some(1),
        },
    ];

    let data = client.generate_mock_response_data("rdbi_ads", &meta, 61840);
    assert!(data.get("ADS").is_some());
    assert_eq!(data.len(), 1);
}

#[test]
fn test_mock_filters_mux_case_float_coded_value() {
    // MDD may store MUX case limits as float-formatted strings (e.g. "61840.0")
    let client = SovdClient::new(create_test_config());
    let meta = vec![
        ResponseParameterInfo {
            name: "__mux_case__/case_a".to_string(),
            semantic: Some("MUX-CASE".to_string()),
            param_type: ParameterTypeMetadata::CodedConst {
                coded_value: "61840.0".to_string(),
            },
            byte_position: 3,
            bit_position: 0,
            byte_size: Some(2),
        },
        ResponseParameterInfo {
            name: "case_a/ADS".to_string(),
            semantic: Some("DATA".to_string()),
            param_type: ParameterTypeMetadata::Value {
                physical_default_value: None,
                coded_default_value: None,
                compu_scales: vec![],
            },
            byte_position: 3,
            bit_position: 0,
            byte_size: Some(1),
        },
    ];

    let data = client.generate_mock_response_data("rdbi_ads", &meta, 61840);
    assert!(
        data.get("ADS").is_some(),
        "Float-formatted coded_value must match DID"
    );
    assert_eq!(data.len(), 1);
}

#[test]
fn test_mock_floor_matching_range_mux_case() {
    // Range MUX case: lower_limit 61697 (0xF101) covers DIDs up to next case.
    // DID 0xF103 (61699) should floor-match to this case.
    let client = SovdClient::new(create_test_config());
    let meta = vec![
        ResponseParameterInfo {
            name: "__mux_case__/DID_RANGE_F101_F140".to_string(),
            semantic: Some("MUX-CASE".to_string()),
            param_type: ParameterTypeMetadata::CodedConst {
                coded_value: "61697".to_string(),
            },
            byte_position: 3,
            bit_position: 0,
            byte_size: None,
        },
        ResponseParameterInfo {
            name: "__mux_case__/DID_POINT_F141".to_string(),
            semantic: Some("MUX-CASE".to_string()),
            param_type: ParameterTypeMetadata::CodedConst {
                coded_value: "61761".to_string(),
            },
            byte_position: 3,
            bit_position: 0,
            byte_size: None,
        },
        ResponseParameterInfo {
            name: "DID_RANGE_F101_F140/DATA".to_string(),
            semantic: Some("DATA".to_string()),
            param_type: ParameterTypeMetadata::Value {
                physical_default_value: None,
                coded_default_value: None,
                compu_scales: vec![],
            },
            byte_position: 3,
            bit_position: 0,
            byte_size: None,
        },
        ResponseParameterInfo {
            name: "DID_POINT_F141/DATA".to_string(),
            semantic: Some("DATA".to_string()),
            param_type: ParameterTypeMetadata::Value {
                physical_default_value: None,
                coded_default_value: None,
                compu_scales: vec![],
            },
            byte_position: 3,
            bit_position: 0,
            byte_size: None,
        },
    ];

    // DID 0xF103 = 61699, floor matches to DID_RANGE_F101_F140 (lower=61697)
    let data = client.generate_mock_response_data("rdbi_did_range", &meta, 0xF103);
    assert!(
        data.get("DATA").is_some(),
        "Floor-matched range case should include DATA param"
    );
    assert_eq!(data.len(), 1, "Only DATA from DID_RANGE_F101_F140 case");
    // DID 0xF103: opaque DATA with no byte_size -> generic 4-byte mock payload
    let data_arr = items(data.get("DATA").expect("DATA field not found"));
    assert_eq!(data_arr.len(), 4, "Generic opaque mock should be 4 bytes");
}

#[test]
fn test_mock_opaque_payload_is_generic() {
    // All DIDs produce the same conservative 4-byte zero-filled payload.
    let payload = SovdClient::mock_opaque_payload(0xF101);
    let arr = items(&payload);
    assert_eq!(arr.len(), 4, "Generic opaque payload should be 4 bytes");
    for v in arr {
        assert_eq!(
            v.as_u64().expect("value is not u64"),
            0,
            "Opaque payload should be zero-filled"
        );
    }

    // Same size for any DID - no ECU-specific table.
    let payload2 = SovdClient::mock_opaque_payload(0x8008);
    let arr2 = items(&payload2);
    assert_eq!(arr2.len(), 4);
}

#[test]
fn test_default_value_for_param_generic() {
    // 1-byte VALUE -> numeric 1
    assert_eq!(
        SovdClient::default_value_for_param(Some(1)),
        number(1),
    );
    // 2-byte VALUE -> numeric 2
    assert_eq!(
        SovdClient::default_value_for_param(Some(2)),
        number(2),
    );
    // 17-byte VALUE -> zero-filled array (no VIN heuristic)
    let val = SovdClient::default_value_for_param(Some(17));
    let arr = items(&val);
    assert_eq!(arr.len(), 17);
    // None byte_size -> 0
    assert_eq!(
        SovdClient::default_value_for_param(None),
        number(0),
    );
}

#[test]
fn test_create_client() {
    let config = create_test_config();
    let mut client = SovdClient::new(config);
    assert!(matches!(client.get_token(), AuthAction::Request(_)));
}

#[test]
fn test_service_to_sovd_endpoint() {
    assert_eq!(sovd_endpoint("READ_IDENTIFIER"), "read_identifier");
    assert_eq!(sovd_endpoint("WRITE_IDENTIFIER"), "write_identifier");
    assert_eq!(sovd_endpoint("\u{c4}B"), "\u{e4}b");
}

fn create_test_mapper() -> SovdMapper {
    let config = Config::default();
    let sovd_client = SovdClient::new(config.sovd.copy());
    SovdMapper::new(&config, sovd_client)
}

#[test]
fn test_mapper_creation() {
    let mapper = create_test_mapper();
    assert!(!mapper.ecu_name().is_empty());
}

#[test]
fn test_data_response_new() {
    let mut data = JsonMap::new();
    data.insert("identifier".to_string(), string("ABC12345678901234"));

    let response = DataResponse::new("read_identifier".to_string(), data);

    assert_eq!(response.id, "read_identifier");
    assert_eq!(
        response
            .data
            .get("identifier")
            .expect("identifier field not found"),
        &string("ABC12345678901234")
    );
    assert!(response.schema.is_none());
    assert!(response.errors.is_empty());
}

fn live_config() -> Config {
    let mut config = Config::default();
    config.sovd = create_test_config();
    config.ecu.default_name = "ECU1".to_owned();
    config
}

fn live_mapper() -> SovdMapper {
    let config = live_config();
    let client = SovdClient::new(config.sovd.copy());
    SovdMapper::new(&config, client)
}

#[test]
fn mock_authentication_caches_a_token() {
    let mut config = create_test_config();
    config.mock_gateway = true;
    let mut client = SovdClient::new(config);
    for _ in 0..2 {
        match client.get_token() {
            AuthAction::Authenticated(token) => assert_eq!(token, "mock-access-token"),
            other => panic!("unexpected {other:?}"),
        }
    }
}

#[test]
fn authentication_asks_the_gateway_once() {
    let mut client = SovdClient::new(create_test_config());
    match client.authenticate() {
        AuthAction::Request(request) => {
            assert_eq!(request.url, "http://localhost:20002/vehicle/v15/authorize");
            assert_eq!(request.client_id, "test-client");
            assert_eq!(request.client_secret, "test-secret");
        }
        other => panic!("unexpected {other:?}"),
    }
    assert_eq!(SovdClient::auth_body_kind(201), BodyKind::Json);
    assert_eq!(SovdClient::auth_body_kind(300), BodyKind::Text);
    let token = client.authenticated(200, ReplyBody::Json("abc".to_owned()));
    assert_eq!(token.unwrap(), "abc");
    assert!(matches!(client.get_token(), AuthAction::Authenticated(t) if t == "abc"));
    assert_eq!(client.cached_token(), Some("abc".to_owned()));
}

#[test]
fn authentication_can_fail() {
    let mut client = SovdClient::new(create_test_config());
    match client.authenticated(401, ReplyBody::Text("go away".to_owned())) {
        Err(ProxyError::Sovd(SovdError::Auth(message))) => {
            assert_eq!(message, "HTTP 401 Unauthorized: go away");
        }
        _ => panic!("must fail"),
    }
    match client.authenticated(200, ReplyBody::Malformed("no token".to_owned())) {
        Err(ProxyError::Sovd(SovdError::Http(message))) => assert_eq!(message, "no token"),
        _ => panic!("must fail"),
    }
    assert!(matches!(client.get_token(), AuthAction::Request(_)));
    assert_eq!(client.cached_token(), None);
}

#[test]
fn reads_have_urls_and_outcomes() {
    let client = SovdClient::new(create_test_config());
    let request = client.read_data("ECU1", "vin");
    assert_eq!(
        request.url,
        "http://localhost:20002/vehicle/v15/components/ECU1/data/vin"
    );
    assert!(request.include_schema);
    assert_eq!(SovdClient::read_body_kind(200), BodyKind::Json);
    assert_eq!(SovdClient::read_body_kind(404), BodyKind::Unread);
    assert_eq!(SovdClient::read_body_kind(204), BodyKind::Text);
    let response = DataResponse::new("vin".to_owned(), JsonMap::new());
    let outcome = SovdClient::read_outcome("vin", 200, ReplyBody::Json(response));
    assert_eq!(outcome.unwrap().id, "vin");
    match SovdClient::read_outcome("vin", 404, ReplyBody::Unread) {
        Err(ProxyError::Sovd(SovdError::DataIdNotFound(id))) => assert_eq!(id, "vin"),
        _ => panic!("must fail"),
    }
    match SovdClient::read_outcome("vin", 503, ReplyBody::Text("later".to_owned())) {
        Err(ProxyError::Sovd(SovdError::Http(m))) => {
            assert_eq!(m, "HTTP 503 Service Unavailable: later");
        }
        _ => panic!("must fail"),
    }
    match SovdClient::read_outcome("vin", 200, ReplyBody::Malformed("bad".to_owned())) {
        Err(ProxyError::Sovd(SovdError::Http(m))) => assert_eq!(m, "bad"),
        _ => panic!("must fail"),
    }
}

#[test]
fn writes_have_urls_and_outcomes() {
    let client = SovdClient::new(create_test_config());
    assert_eq!(
        client.write_data("ECU1", "vin"),
        Some("http://localhost:20002/vehicle/v15/components/ECU1/configurations/vin".to_owned())
    );
    let mut mock = create_test_config();
    mock.mock_gateway = true;
    assert_eq!(SovdClient::new(mock).write_data("ECU1", "vin"), None);
    for status in [200, 202, 204] {
        assert!(SovdClient::write_outcome("vin", status, "").is_ok());
        assert_eq!(SovdClient::write_body_kind(status), BodyKind::Unread);
    }
    match SovdClient::write_outcome("vin", 400, "bad field") {
        Err(ProxyError::Sovd(SovdError::SchemaMismatch(m))) => {
            assert_eq!(m, "Invalid request: bad field");
        }
        _ => panic!("must fail"),
    }
    match SovdClient::write_outcome("vin", 404, "") {
        Err(ProxyError::Sovd(SovdError::DataIdNotFound(id))) => assert_eq!(id, "vin"),
        _ => panic!("must fail"),
    }
    match SovdClient::write_outcome("vin", 799, "odd") {
        Err(ProxyError::Sovd(SovdError::Http(m))) => {
            assert_eq!(m, "HTTP 799 <unknown status code>: odd");
        }
        _ => panic!("must fail"),
    }
    assert_eq!(SovdClient::write_body_kind(400), BodyKind::Text);
}

fn param(name: &str, param_type: ParameterTypeMetadata, pos: u32, size: Option<u32>) -> ResponseParameterInfo {
    ResponseParameterInfo {
        name: name.to_owned(),
        semantic: None,
        param_type,
        byte_position: pos,
        bit_position: 0,
        byte_size: size,
    }
}

fn value_type() -> ParameterTypeMetadata {
    ParameterTypeMetadata::Value {
        physical_default_value: None,
        coded_default_value: None,
        compu_scales: vec![],
    }
}

#[test]
fn physical_constants_are_mocked_by_their_code() {
    let client = SovdClient::new(create_test_config());
    let constant = |coded_value| ParameterTypeMetadata::PhysConst {
        phys_constant_value: "x".to_owned(),
        coded_value,
    };
    let meta = [
        param("A", constant(Some(7)), 0, None),
        param("B", constant(None), 1, Some(4)),
        param("other/C", value_type(), 2, Some(4)),
    ];
    let data = client.generate_mock_response_data("x", &meta, 1);
    assert_eq!(data.len(), 2);
    assert_eq!(data.get("A"), Some(&number(7)));
    assert_eq!(data.get("B"), Some(&number(0)));
}

#[test]
fn boundary_sizes_are_mocked() {
    assert_eq!(SovdClient::default_value_for_param(Some(8)), number(8));
    assert_eq!(items(&SovdClient::default_value_for_param(Some(9))).len(), 9);
    assert!(items(&SovdClient::default_value_for_param(Some(0))).is_empty());
}

#[test]
fn mock_read_goes_all_the_way() {
    let mapper = create_test_mapper();
    let endpoint = match mapper.process_read_data_request("RDBI_VIN") {
        ReadPlan::Mock { endpoint, url } => {
            assert_eq!(
                url,
                "http://localhost:20002//vehicle/v15/components/ECU/data/rdbi_vin"
            );
            endpoint
        }
        other => panic!("unexpected {other:?}"),
    };
    let meta = || {
        vec![
            param(
                "SID",
                ParameterTypeMetadata::CodedConst {
                    coded_value: "98".to_owned(),
                },
                0,
                Some(1),
            ),
            param(
                "DID",
                ParameterTypeMetadata::MatchingRequestParam { byte_length: 2 },
                1,
                Some(2),
            ),
            param("A", value_type(), 3, Some(2)),
            param("B", value_type(), 5, Some(9)),
        ]
    };
    let response = mapper.mock_read_response(0xF190, "RDBI_VIN", &endpoint, Ok(meta())).unwrap();
    assert_eq!(response.id, "rdbi_vin");
    let layout = (meta(), "RDBI_VIN".to_owned());
    let bytes = mapper.complete_read(0xF190, Ok(response), Some(&layout), "RDBI_VIN").unwrap();
    assert_eq!(bytes, [&[0x62u8, 0xF1, 0x90, 0, 2][..], &[0; 9]].concat());
    let failed = mapper.complete_read(1, Err(ProxyError::Timeout), None, "X");
    assert!(matches!(failed, Err(ProxyError::Timeout)));
}

#[test]
fn mock_read_needs_metadata() {
    let mapper = create_test_mapper();
    let message = |metadata| match mapper.mock_read_response(1, "S", "s", metadata) {
        Err(ProxyError::Sovd(SovdError::SchemaMismatch(message))) => message,
        _ => panic!("must fail"),
    };
    assert_eq!(
        message(Ok(vec![])),
        "No POS-RESPONSE metadata available for 'S' in mock mode"
    );
    assert_eq!(
        message(Err(DiagServiceError::Lookup("gone".to_owned()))),
        "Failed to load POS-RESPONSE metadata for 'S': gone"
    );
}

#[test]
fn live_reads_ask_the_gateway() {
    match live_mapper().process_read_data_request("RDBI_VIN") {
        ReadPlan::Fetch { endpoint, request } => {
            assert_eq!(endpoint, "rdbi_vin");
            assert_eq!(
                request.url,
                "http://localhost:20002/vehicle/v15/components/ECU1/data/rdbi_vin"
            );
        }
        other => panic!("unexpected {other:?}"),
    }
}

#[test]
fn writes_are_planned_and_answered() {
    let mut data = JsonMap::new();
    data.insert("VIN".to_owned(), string("W"));
    let plan = live_mapper()
        .process_write_data_request(&[0x2E, 0xF1, 0x90, 1], "WDBI_VIN", data)
        .unwrap();
    assert_eq!(plan.endpoint, "wdbi_vin");
    assert_eq!(
        plan.url,
        Some("http://localhost:20002/vehicle/v15/components/ECU1/configurations/wdbi_vin".to_owned())
    );
    assert_eq!(plan.data.get("VIN"), Some(&string("W")));
    let mock = create_test_mapper()
        .process_write_data_request(&[0x2E, 0xF1, 0x90, 1], "W", JsonMap::new())
        .unwrap();
    assert_eq!(mock.url, None);
    match live_mapper().process_write_data_request(&[0x2E, 0xF1, 0x90], "W", JsonMap::new()) {
        Err(ProxyError::Sovd(SovdError::SchemaMismatch(m))) => {
            assert_eq!(m, "Write request missing data");
        }
        _ => panic!("must fail"),
    }
    assert_eq!(
        SovdMapper::complete_write(0xF190, Ok(())).unwrap(),
        vec![0x6E, 0xF1, 0x90]
    );
    assert!(matches!(
        SovdMapper::complete_write(1, Err(ProxyError::Timeout)),
        Err(ProxyError::Timeout)
    ));
}

fn handler() -> SovdDiagHandler {
    SovdDiagHandler::new(&live_config(), live_mapper())
}

#[test]
fn ecu_is_chosen_by_name() {
    let loaded = |names: &[&str]| -> Vec<String> { names.iter().map(|n| (*n).to_owned()).collect() };
    let choose_ecu = |names: &[&str]| handler().ecu_manager(&loaded(names));
    assert_eq!(choose_ecu(&["A", "ECU1", "ECU1"]).unwrap(), 1);
    assert_eq!(choose_ecu(&["A", "B"]).unwrap(), 0);
    match choose_ecu(&[]) {
        Err(ProxyError::Mdd(message)) => assert_eq!(message, "No MDD database loaded"),
        _ => panic!("must fail"),
    }
}

fn service(name: &str) -> ResolvedService {
    ResolvedService {
        name: name.to_owned(),
        params: JsonMap::new(),
    }
}

#[test]
fn unknown_dids_are_errors() {
    let handler = handler();
    assert!(matches!(
        handler.handle_read_did(0xF190, None),
        Err(ProxyError::Uds(UdsError::InvalidDid(0xF190)))
    ));
    assert!(matches!(
        handler.handle_write_did(0xF191, &[0x2E, 0xF1, 0x91, 0], None),
        Err(ProxyError::Uds(UdsError::InvalidDid(0xF191)))
    ));
}

#[test]
fn resolved_dids_are_planned() {
    let handler = handler();
    assert_eq!(handler.mapper().ecu_name(), "ECU1");
    assert!(matches!(
        handler.mapper().client().write_data("a", "b"),
        Some(_)
    ));
    let planned = handler.handle_read_did(0xF190, Some(service("RDBI_VIN"))).unwrap();
    assert_eq!(planned.service_name, "RDBI_VIN");
    assert!(matches!(planned.plan, ReadPlan::Fetch { endpoint, .. } if endpoint == "rdbi_vin"));
    let plan = handler
        .handle_write_did(0xF190, &[0x2E, 0xF1, 0x90, 0], Some(service("W")))
        .unwrap();
    assert_eq!(plan.endpoint, "w");
}
