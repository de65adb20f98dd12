//! Service resolution, response layouts and response encoding.

use uds2sovd_proxy::json::{JsonMap, JsonNumber, JsonValue};
use uds2sovd_proxy::service_resolver::metadata::SiblingLayout;
use uds2sovd_proxy::service_resolver::model::{
    CompuScaleInfo, DiagComm, DiagServiceError, ParameterTypeMetadata, ResponseParameterInfo,
    ServiceParameterMetadata,
};
use uds2sovd_proxy::service_resolver::resolve::{
    build_did_candidates, match_candidate_did, probe_parameters, read_probed_did,
    CandidateVerdict, ProbeValue, ResolveAction,
};
use uds2sovd_proxy::service_resolver::response::{
    compute_effective_sizes, encode_naive_response, encode_params_into_response,
    filter_active_params, find_param_value,
};
use uds2sovd_proxy::service_resolver::{
    find_mux_case_prefix, has_mux_case_for_did_exact, request_prefix, DidResolver,
    MetadataProvider, ResponseEncoder, ServiceResolver, ServiceType,
};

fn number(n: u64) -> JsonValue {
    JsonValue::Number(JsonNumber::PosInt(n))
}

fn string(s: &str) -> JsonValue {
    JsonValue::String(s.to_owned())
}

fn data(entries: Vec<(&str, JsonValue)>) -> JsonMap {
    let mut map = JsonMap::new();
    for (name, value) in entries {
        map.insert(name.to_owned(), value);
    }
    map
}

/// Build a MUX-case marker.
fn mux_case(name: &str, lower: u64) -> ResponseParameterInfo {
    ResponseParameterInfo {
        name: format!("__mux_case__/{name}"),
        semantic: None,
        param_type: ParameterTypeMetadata::CodedConst {
            coded_value: lower.to_string(),
        },
        byte_position: 0,
        bit_position: 0,
        byte_size: None,
    }
}

/// Build a plain VALUE parameter at a given byte position.
fn value_param(name: &str, pos: u32, size: u32) -> ResponseParameterInfo {
    ResponseParameterInfo {
        name: name.to_string(),
        semantic: None,
        param_type: value_type(),
        byte_position: pos,
        bit_position: 0,
        byte_size: Some(size),
    }
}

fn value_type() -> ParameterTypeMetadata {
    ParameterTypeMetadata::Value {
        physical_default_value: None,
        coded_default_value: None,
        compu_scales: vec![],
    }
}

fn open_param(name: &str, pos: u32) -> ResponseParameterInfo {
    let mut param = value_param(name, pos, 0);
    param.byte_size = None;
    param
}

fn coded_const_param(name: &str, pos: u32, size: u32, val: &str) -> ResponseParameterInfo {
    ResponseParameterInfo {
        name: name.to_string(),
        semantic: None,
        param_type: ParameterTypeMetadata::CodedConst {
            coded_value: val.to_string(),
        },
        byte_position: pos,
        bit_position: 0,
        byte_size: Some(size),
    }
}

fn did_param(pos: u32, size: u32) -> ResponseParameterInfo {
    let mut param = value_param("DID", pos, size);
    param.param_type = ParameterTypeMetadata::MatchingRequestParam { byte_length: size };
    param
}

#[test]
fn test_is_negative_response() {
    assert!(!ServiceResolver::is_negative_response(&[0x62, 0xF1, 0x90]));
    assert!(!ServiceResolver::is_negative_response(&[0x50, 0x01]));
    assert!(ServiceResolver::is_negative_response(&[0x7F, 0x22, 0x31]));
    assert!(!ServiceResolver::is_negative_response(&[0x7F]));
    assert!(!ServiceResolver::is_negative_response(&[0x7F, 0x22]));
}

#[test]
fn test_get_nrc() {
    assert_eq!(ServiceResolver::get_nrc(&[0x62, 0xF1, 0x90]), None);
    assert_eq!(ServiceResolver::get_nrc(&[0x7F, 0x22, 0x31]), Some(0x31));
    assert_eq!(ServiceResolver::get_nrc(&[0x7F, 0x10, 0x11]), Some(0x11));
    assert_eq!(ServiceResolver::get_nrc(&[0x7F, 0x22, 0x22]), Some(0x22));
    assert_eq!(ServiceResolver::get_nrc(&[0x7F]), None);
    assert_eq!(ServiceResolver::get_nrc(&[0x7F, 0x22]), None);
}

#[test]
fn test_nrc_codes() {
    let cases: &[(u8, u8, u8)] = &[
        (0x22, 0x11, 0x11),
        (0x22, 0x12, 0x12),
        (0x22, 0x13, 0x13),
        (0x22, 0x22, 0x22),
        (0x22, 0x31, 0x31),
        (0x27, 0x33, 0x33),
        (0x27, 0x35, 0x35),
        (0x22, 0x78, 0x78),
    ];
    for &(sid, nrc, expected) in cases {
        assert_eq!(ServiceResolver::get_nrc(&[0x7F, sid, nrc]), Some(expected));
    }
}

#[test]
fn test_positive_response_sids() {
    assert!(!ServiceResolver::is_negative_response(&[
        0x50, 0x01, 0x00, 0x32
    ]));
    assert!(!ServiceResolver::is_negative_response(&[
        0x62, 0xF1, 0x90, 0x57
    ]));
    assert!(!ServiceResolver::is_negative_response(&[
        0x67, 0x01, 0x12, 0x34
    ]));
    assert!(!ServiceResolver::is_negative_response(&[0x6E, 0xF1, 0x90]));
    assert!(!ServiceResolver::is_negative_response(&[0x7E, 0x00]));
}

#[test]
fn test_empty_response() {
    assert!(!ServiceResolver::is_negative_response(&[]));
    assert_eq!(ServiceResolver::get_nrc(&[]), None);
}

#[test]
fn metadata_test_has_mux_exact_match() {
    let meta = vec![mux_case("VIN", 0xF190)];
    assert!(has_mux_case_for_did_exact(&meta, 0xF190));
}

#[test]
fn metadata_test_has_mux_exact_no_match() {
    let meta = vec![mux_case("VIN", 0xF190)];
    // 0xF191 is one beyond the only entry -- no match.
    assert!(!has_mux_case_for_did_exact(&meta, 0xF191));
}

#[test]
fn metadata_test_has_mux_exact_vs_floor_semantics() {
    // Floor matching (find_mux_case_prefix) would return the 0xF100 case for
    // 0xF103, but has_mux_case_for_did_exact must NOT.
    let meta = vec![mux_case("RANGE", 0xF100)];
    assert!(!has_mux_case_for_did_exact(&meta, 0xF103));
    // Only the exact value matches.
    assert!(has_mux_case_for_did_exact(&meta, 0xF100));
}

#[test]
fn metadata_test_has_mux_exact_empty_meta() {
    assert!(!has_mux_case_for_did_exact(&[], 0xF190));
}

#[test]
fn metadata_test_has_mux_exact_non_mux_params_ignored() {
    let meta = vec![value_param("DATA", 3, 17)];
    assert!(!has_mux_case_for_did_exact(&meta, 0x0000));
}

#[test]
fn metadata_test_floor_vs_exact_differ_for_range_case() {
    let meta = vec![mux_case("RANGE", 0xF100), mux_case("OTHER", 0xF200)];
    // Floor: 0xF103 falls in the 0xF100 range -> prefix returned.
    assert_eq!(
        find_mux_case_prefix(&meta, 0xF103),
        Some("RANGE/".to_string())
    );
    // Exact: 0xF103 has no exact entry -> false.
    assert!(!has_mux_case_for_did_exact(&meta, 0xF103));
    // But 0xF100 itself is an exact hit.
    assert!(has_mux_case_for_did_exact(&meta, 0xF100));
}

#[test]
fn metadata_test_opaque_heuristic_single_none_size_param() {
    // Only one VALUE param with byte_size = None and no '/' in name -> opaque.
    let param = open_param("STRUCTURE_DATA", 3);
    assert!(MetadataProvider::is_opaque_response(std::slice::from_ref(&param)));
}

#[test]
fn metadata_test_opaque_heuristic_sized_param_not_opaque() {
    // A VALUE param WITH a byte_size is NOT opaque (it has a known layout).
    let param = value_param("DATA", 3, 17);
    assert!(!MetadataProvider::is_opaque_response(std::slice::from_ref(&param)));
}

#[test]
fn metadata_test_opaque_heuristic_mux_subparam_not_opaque() {
    // A MUX sub-param has '/' in its name -> not opaque even if byte_size is None.
    let param = open_param("__mux_case__/VIN/DATA", 3);
    assert!(!MetadataProvider::is_opaque_response(std::slice::from_ref(&param)));
}

#[test]
fn metadata_test_opaque_heuristic_multiple_params_not_opaque() {
    // Multiple VALUE params -> structured layout, NOT opaque.
    let params = vec![value_param("FIELD_A", 3, 2), value_param("FIELD_B", 5, 1)];
    assert!(!MetadataProvider::is_opaque_response(&params));
}

#[test]
fn opaque_layouts_have_one_data_parameter() {
    let mut physical = open_param("P", 3);
    physical.param_type = ParameterTypeMetadata::PhysConst {
        phys_constant_value: "x".to_owned(),
        coded_value: None,
    };
    let header = coded_const_param("SID", 0, 1, "98");
    assert!(MetadataProvider::is_opaque_response(&[header.clone(), physical.clone()]));
    assert!(!MetadataProvider::is_opaque_response(&[header, physical, open_param("Q", 4)]));
    assert!(!MetadataProvider::is_opaque_response(&[]));
}

fn sibling(name: &str, layout: Option<Vec<ResponseParameterInfo>>) -> SiblingLayout {
    SiblingLayout {
        name: name.to_owned(),
        layout,
    }
}

#[test]
fn opaque_layout_is_enriched_by_first_fitting_sibling() {
    let own = vec![open_param("DATA", 3)];
    let rich = vec![mux_case("VIN", 0xF190), value_param("VIN/A", 3, 2)];
    let siblings = vec![
        sibling("SELF", Some(rich.clone())),
        sibling("NONE", None),
        sibling("SHORT", Some(vec![mux_case("VIN", 0xF190)])),
        sibling("FLOOR", Some(vec![mux_case("VIN", 0xF100), value_param("VIN/A", 3, 2)])),
        sibling("FIRST", Some(rich.clone())),
        sibling("SECOND", Some(rich)),
    ];
    let (meta, source) = MetadataProvider::get_enriched_response_metadata_with_source(
        "SELF",
        0xF190,
        Ok(own),
        siblings,
    )
    .unwrap();
    assert_eq!(source, "FIRST");
    assert_eq!(meta.len(), 2);
    assert_eq!(meta[1].name, "VIN/A");
}

#[test]
fn other_layouts_are_kept() {
    let rich = vec![mux_case("VIN", 0xF190), value_param("VIN/A", 3, 2)];
    let resolver = ServiceResolver::new("ECU1".to_owned());
    let own = vec![value_param("DATA", 3, 4)];
    let meta = resolver
        .get_enriched_response_metadata("S", 0xF190, Ok(own), vec![sibling("T", Some(rich))])
        .unwrap();
    assert_eq!(meta[0].name, "DATA");
    let (meta, source) = MetadataProvider::get_enriched_response_metadata_with_source(
        "S",
        0xF190,
        Ok(vec![open_param("DATA", 3)]),
        vec![],
    )
    .unwrap();
    assert_eq!((meta.len(), source.as_str()), (1, "S"));
    let failed = resolver.get_enriched_response_metadata(
        "S",
        1,
        Err(DiagServiceError::Lookup("no".to_owned())),
        vec![],
    );
    assert!(matches!(failed, Err(DiagServiceError::Lookup(m)) if m == "no"));
}

#[test]
fn plain_metadata_is_the_fallback() {
    let resolver = ServiceResolver::new("ECU1".to_owned());
    let error = || Err(DiagServiceError::Lookup("enriched".to_owned()));
    let plain = Ok(vec![value_param("PLAIN", 0, 1)]);
    let meta = resolver.get_response_metadata(error(), plain).unwrap();
    assert_eq!(meta[0].name, "PLAIN");
    let enriched = Ok(vec![value_param("RICH", 0, 1)]);
    let meta = resolver.get_response_metadata(enriched, error()).unwrap();
    assert_eq!(meta[0].name, "RICH");
    let both = resolver.get_response_metadata(
        error(),
        Err(DiagServiceError::Lookup("plain".to_owned())),
    );
    assert_eq!(both.unwrap_err().text(), "plain");
}

#[test]
fn service_names_by_sid() {
    let resolver = ServiceResolver::new("ECU1".to_owned());
    let names = |sid, configurations| {
        resolver.lookup_service_names_by_sid(sid, vec!["R".to_owned()], configurations)
    };
    let failed = || Err(DiagServiceError::Lookup("gone".to_owned()));
    assert_eq!(names(0x22, failed()).unwrap(), vec!["R"]);
    assert_eq!(names(0x2E, Ok(vec!["W".to_owned()])).unwrap(), vec!["W"]);
    assert_eq!(names(0x2E, failed()).unwrap_err().text(), "gone");
    assert!(names(0x10, Ok(vec!["W".to_owned()])).unwrap().is_empty());
    assert!(names(0x10, failed()).unwrap().is_empty());
    assert_eq!(resolver.ecu_name(), "ECU1");
}

#[test]
fn requests_are_decoded_to_objects() {
    let resolver = ServiceResolver::new("ECU1".to_owned());
    let fields = resolver
        .parse_request(JsonValue::Object(data(vec![("A", number(1))])))
        .unwrap();
    assert_eq!(fields.get("A"), Some(&number(1)));
    match resolver.parse_request(JsonValue::Null) {
        Err(DiagServiceError::InvalidRequest(m)) => {
            assert_eq!(m, "Expected JSON object in request");
        }
        _ => panic!("must fail"),
    }
    assert_eq!(ServiceResolver::request_service_id(&[0x22, 1]), 0x22);
    assert_eq!(ServiceResolver::request_service_id(&[]), 0);
}

#[test]
fn test_service_type_sid() {
    assert_eq!(ServiceType::Read.sid(), 0x22);
    assert_eq!(ServiceType::Write.sid(), 0x2E);
}

#[test]
fn test_service_type_label() {
    assert_eq!(ServiceType::Read.label(), "READ");
    assert_eq!(ServiceType::Write.label(), "WRITE");
}

#[test]
fn test_active_params_with_mux_case() {
    let did: u16 = 0xF190;
    // Sub-params use the case-name prefix (e.g. "VIN/"), NOT "__mux_case__/VIN/".
    let meta = vec![
        coded_const_param("SID", 0, 1, "98"), // top-level, no '/'
        value_param("DID", 1, 2),             // top-level, no '/'
        mux_case("VIN", 0xF190),       // case marker for 0xF190
        mux_case("OTHER", 0xF100),     // different case marker
        value_param("VIN/DATA", 3, 17),       // VIN sub-param
        value_param("OTHER/DATA", 3, 4),      // OTHER sub-param -> excluded
    ];

    let mux_case_prefix = find_mux_case_prefix(&meta, did);
    let active: Vec<_> = filter_active_params(&meta, mux_case_prefix.as_deref())
        .into_iter()
        .map(|p| p.name.as_str())
        .collect();

    assert!(active.contains(&"SID"), "top-level SID must be kept");
    assert!(active.contains(&"DID"), "top-level DID must be kept");
    assert!(active.contains(&"VIN/DATA"), "VIN sub-param must be kept");
    assert!(
        !active.contains(&"OTHER/DATA"),
        "OTHER sub-param must be excluded"
    );
}

#[test]
fn test_active_params_no_mux_case() {
    let did: u16 = 0x1234;
    let meta = vec![
        coded_const_param("SID", 0, 1, "98"),
        value_param("DATA", 3, 4),
    ];

    let mux_case_prefix = find_mux_case_prefix(&meta, did);
    assert!(mux_case_prefix.is_none());

    let active: Vec<_> = filter_active_params(&meta, mux_case_prefix.as_deref())
        .into_iter()
        .map(|p| p.name.as_str())
        .collect();

    assert_eq!(active, ["SID", "DATA"]);
}

#[test]
fn test_total_size_from_params() {
    let params = vec![
        coded_const_param("SID", 0, 1, "98"),
        value_param("DID", 1, 2),
        value_param("DATA", 3, 17),
    ];
    let active_refs: Vec<&_> = params.iter().collect();
    // All params have fixed byte_size, so response_data is not consulted.
    let effective_sizes = compute_effective_sizes(&active_refs, &JsonMap::new());

    let total = active_refs
        .iter()
        .zip(effective_sizes.iter())
        .map(|(p, &sz)| (p.byte_position as usize).saturating_add(sz))
        .max()
        .unwrap_or(3);

    // SID: 0+1=1, DID: 1+2=3, DATA: 3+17=20 -> max = 20
    assert_eq!(total, 20);
}

#[test]
fn active_params_keep_the_case_marker() {
    let meta = vec![
        mux_case("VIN", 0xF190),
        mux_case("OTHER", 0xF100),
        value_param("VIN/DATA", 3, 17),
        value_param("FREE/DATA", 3, 17),
        value_param("TOP", 0, 1),
    ];
    let names = |prefix: Option<&str>| -> Vec<String> {
        filter_active_params(&meta, prefix)
            .into_iter()
            .map(|p| p.name.clone())
            .collect()
    };
    assert_eq!(names(Some("VIN/")), ["__mux_case__/VIN", "VIN/DATA", "TOP"]);
    assert_eq!(names(None), ["VIN/DATA", "FREE/DATA", "TOP"]);
}

#[test]
fn values_are_found_under_many_names() {
    let find = |entries: Vec<(&str, JsonValue)>| find_param_value(&data(entries), "Case/Name").cloned_number();
    assert_eq!(
        find(vec![("data", number(5)), ("name", number(4)), ("case/name", number(3)), ("Name", number(2)), ("Case/Name", number(1))]),
        Some(1)
    );
    assert_eq!(
        find(vec![("data", number(5)), ("name", number(4)), ("case/name", number(3)), ("Name", number(2))]),
        Some(2)
    );
    assert_eq!(
        find(vec![("data", number(5)), ("name", number(4)), ("case/name", number(3))]),
        Some(3)
    );
    assert_eq!(find(vec![("data", number(5)), ("name", number(4))]), Some(4));
    assert_eq!(find(vec![("data", number(5)), ("NAME", number(4))]), None);
}

trait ClonedNumber {
    fn cloned_number(self) -> Option<u64>;
}

impl ClonedNumber for Option<&JsonValue> {
    fn cloned_number(self) -> Option<u64> {
        self.and_then(JsonValue::as_u64)
    }
}

#[test]
fn sizes_follow_the_data() {
    let params = [
        open_param("TEXT", 3),
        open_param("MISSING", 3),
        mux_case("X", 1),
        value_param("FIXED", 3, 7),
    ];
    let refs: Vec<&_> = params.iter().collect();
    let sizes = compute_effective_sizes(&refs, &data(vec![("TEXT", string("abc"))]));
    assert_eq!(sizes, vec![3, 0, 0, 7]);
}

#[test]
fn parameters_are_written_at_their_positions() {
    let params = [
        coded_const_param("SID", 0, 1, "98"),
        did_param(1, 2),
        coded_const_param("WIDE", 3, 4, "258"),
        coded_const_param("NARROW", 7, 1, "258"),
        coded_const_param("TEXT", 8, 1, " 7"),
        value_param("A", 8, 2),
        mux_case("X", 5),
    ];
    let refs: Vec<&_> = params.iter().collect();
    let values = data(vec![("A", number(0x0A0B))]);
    let sizes = compute_effective_sizes(&refs, &values);
    let mut response = [0u8; 10];
    encode_params_into_response(&mut response, &refs, &sizes, &values, 0xF190);
    assert_eq!(
        response,
        [98, 0xF1, 0x90, 0, 0, 1, 2, 2, 0x0A, 0x0B]
    );
}

#[test]
fn single_did_byte_is_the_high_one() {
    let params = [did_param(0, 1), did_param(1, 3)];
    let refs: Vec<&_> = params.iter().collect();
    let mut response = [9u8; 4];
    let sizes = compute_effective_sizes(&refs, &JsonMap::new());
    encode_params_into_response(&mut response, &refs, &sizes, &JsonMap::new(), 0xF190);
    assert_eq!(response, [0xF1, 0xF1, 0x90, 9]);
}

#[test]
fn response_from_metadata() {
    let meta = vec![
        coded_const_param("SID", 0, 1, "98"),
        did_param(1, 2),
        mux_case("VIN", 0xF190),
        mux_case("OTHER", 0xF100),
        value_param("VIN/NUM", 3, 2),
        open_param("VIN/TAIL", 5),
        value_param("OTHER/DATA", 3, 40),
    ];
    let resolver = ServiceResolver::new("ECU1".to_owned());
    let values = data(vec![("NUM", number(7)), ("tail", string("xyz"))]);
    let response = resolver.build_response("S", 0x22, 0xF190, Some(&(meta, "T".to_owned())), &values);
    assert_eq!(response.bytes, vec![98, 0xF1, 0x90, 0, 7, b'x', b'y', b'z']);
    assert_eq!(response.effective_service, "T");
}

#[test]
fn absent_values_stay_zero() {
    let meta = vec![coded_const_param("SID", 0, 1, "98"), value_param("A", 3, 2)];
    let response = ResponseEncoder::encode_response_from_metadata(
        Some(&(meta, "S".to_owned())),
        0xF190,
        &JsonMap::new(),
    )
    .unwrap();
    assert_eq!(response.bytes, vec![98, 0, 0, 0, 0]);
}

#[test]
fn the_name_data_stands_for_nothing_else() {
    let meta = vec![
        coded_const_param("SID", 0, 1, "98"),
        value_param("A", 1, 2),
        open_param("B", 3),
    ];
    let values = data(vec![("data", number(0x0102))]);
    let response = ResponseEncoder::encode_response_from_metadata(
        Some(&(meta, "S".to_owned())),
        0xF190,
        &values,
    )
    .unwrap();
    assert_eq!(response.bytes, vec![98, 0, 0]);
}

#[test]
fn any_sizes_are_encoded() {
    let params = [
        coded_const_param("C", 0, 9, "258"),
        did_param(2, 9),
        open_param("TEXT", 3),
        open_param("SHORT", 5),
        value_param("FAR", 8, 1),
        value_param("CUT", 0, 1),
    ];
    let refs: Vec<&_> = params.iter().collect();
    let values = data(vec![
        ("TEXT", string("abc")),
        ("SHORT", string("z")),
        ("FAR", number(1)),
        ("CUT", number(7)),
    ]);
    let mut response = [9u8; 8];
    let sizes = [2, 1, 2, 3, usize::MAX];
    encode_params_into_response(&mut response, &refs, &sizes, &values, 0xF190);
    assert_eq!(response, [1, 2, 0xF1, b'a', b'b', b'z', 9, 9]);
    encode_params_into_response(&mut response, &refs[..1], &[1, 5, 5], &values, 0xF190);
    assert_eq!(response, [2, 2, 0xF1, b'a', b'b', b'z', 9, 9]);
}

#[test]
fn response_with_no_active_parameter() {
    let meta = vec![mux_case("VIN", 0xF190)];
    let response = ResponseEncoder::encode_response_from_metadata(
        Some(&(meta, "S".to_owned())),
        0x0001,
        &JsonMap::new(),
    )
    .unwrap();
    assert_eq!(response.bytes, vec![0, 0, 0]);
}

#[test]
fn response_without_metadata() {
    assert!(
        ResponseEncoder::encode_response_from_metadata(None, 1, &JsonMap::new()).is_none()
    );
    let empty = (vec![], "T".to_owned());
    let values = data(vec![
        ("SiD", number(9)),
        ("a", string("AB")),
        ("b", number(0x0102)),
        ("c", JsonValue::Number(JsonNumber::NegInt(-2))),
        ("d", JsonValue::Number(JsonNumber::Float("1.5".to_owned()))),
        ("e", JsonValue::Array(vec![number(0x1FF), JsonValue::Null, number(3)])),
        ("f", JsonValue::Bool(true)),
        ("g", JsonValue::Null),
    ]);
    let response = ResponseEncoder::build_response("S", 0x22, 0xF190, Some(&empty), &values);
    let expected = vec![0x62, 0xF1, 0x90, b'A', b'B', 1, 2, 0xFF, 0xFE, 0xFF, 3, 1];
    assert_eq!(response.bytes, expected);
    assert_eq!(response.effective_service, "S");
    assert_eq!(encode_naive_response(0x22, 0xF190, &values), expected);
    assert_eq!(encode_naive_response(0xF0, 1, &JsonMap::new()), vec![0x30, 0, 1]);
}

fn comm(name: &str, lookup_name: Option<&str>) -> DiagComm {
    DiagComm {
        name: name.to_owned(),
        lookup_name: lookup_name.map(str::to_owned),
    }
}

fn names(list: &[&str]) -> Vec<String> {
    list.iter().map(|n| (*n).to_owned()).collect()
}

#[test]
fn candidates_are_listed_once() {
    let comms = [comm("A", Some("X")), comm("B", None), comm("X", None)];
    assert_eq!(
        build_did_candidates(&comms, &names(&["C", "B", "C"])),
        Some(names(&["X", "B", "C"]))
    );
    assert_eq!(
        build_did_candidates(&comms[..1], &names(&["C"])),
        Some(names(&["X"]))
    );
    assert_eq!(build_did_candidates(&[], &[]), None);
}

fn request_param(name: &str, param_type: ParameterTypeMetadata) -> ServiceParameterMetadata {
    ServiceParameterMetadata {
        name: name.to_owned(),
        semantic: None,
        param_type,
    }
}

fn coded(value: &str) -> ParameterTypeMetadata {
    ParameterTypeMetadata::CodedConst {
        coded_value: value.to_owned(),
    }
}

fn physical(text: &str, coded_value: Option<u64>) -> ParameterTypeMetadata {
    ParameterTypeMetadata::PhysConst {
        phys_constant_value: text.to_owned(),
        coded_value,
    }
}

fn request(param_type: ParameterTypeMetadata) -> Vec<ServiceParameterMetadata> {
    vec![
        request_param("SID", coded("34")),
        request_param("DID", param_type),
    ]
}

#[test]
fn candidates_are_matched_by_metadata() {
    let verdict = |param_type| match_candidate_did(Some(&request(param_type)), 0x22, 0xF190);
    let value = |coded_default_value, compu_scales| ParameterTypeMetadata::Value {
        physical_default_value: None,
        coded_default_value,
        compu_scales,
    };
    let scale = CompuScaleInfo {
        short_label: None,
        lower_limit: Some(0xF100),
        upper_limit: Some(0xF1FF),
        compu_const_vt: None,
    };
    assert_eq!(verdict(coded("0xF190")), CandidateVerdict::Matched);
    assert_eq!(verdict(coded("61841")), CandidateVerdict::Rejected);
    assert_eq!(verdict(coded("0x1F190")), CandidateVerdict::Rejected);
    assert_eq!(verdict(physical("V", Some(0xF190))), CandidateVerdict::Matched);
    assert_eq!(verdict(physical("V", Some(0x1_F190))), CandidateVerdict::Matched);
    assert_eq!(verdict(physical("V", Some(1))), CandidateVerdict::Rejected);
    assert_eq!(verdict(physical("V", None)), CandidateVerdict::NeedsProbe);
    assert_eq!(verdict(value(Some(0xF190), vec![])), CandidateVerdict::Matched);
    assert_eq!(verdict(value(Some(1), vec![scale])), CandidateVerdict::Matched);
    assert_eq!(verdict(value(None, vec![])), CandidateVerdict::Rejected);
    let copy = ParameterTypeMetadata::MatchingRequestParam { byte_length: 2 };
    assert_eq!(verdict(copy), CandidateVerdict::Rejected);
    assert_eq!(match_candidate_did(None, 0x22, 0xF190), CandidateVerdict::Rejected);
}

#[test]
fn probes_name_every_parameter() {
    let mut params = request(physical("VIN", None));
    params.push(request_param("V", value_type()));
    params.push(request_param(
        "M",
        ParameterTypeMetadata::MatchingRequestParam { byte_length: 2 },
    ));
    let probe = probe_parameters(&params).unwrap();
    assert_eq!(probe.len(), 3);
    assert!(probe[0].name == "SID" && matches!(probe[0].value, ProbeValue::Number(34)));
    assert!(probe[1].name == "DID" && matches!(&probe[1].value, ProbeValue::Text(t) if t == "VIN"));
    assert!(probe[2].name == "V" && matches!(&probe[2].value, ProbeValue::Text(t) if t == "0"));
    params.push(request_param("BAD", coded("no number")));
    assert!(probe_parameters(&params).is_none());
}

#[test]
fn probed_did_must_not_be_zero() {
    assert_eq!(read_probed_did(Some(&vec![0x22, 0xF1, 0x90])), Some(0xF190));
    assert_eq!(read_probed_did(Some(&vec![0x22, 0, 0])), None);
    assert_eq!(read_probed_did(Some(&vec![0x22, 0xF1])), None);
    assert_eq!(read_probed_did(None), None);
}

#[test]
fn unique_prefix_match_resolves_at_once() {
    let resolver = ServiceResolver::new("ECU1".to_owned());
    let resolution = resolver.resolve_read_service(0xF190, &[comm("A", Some("X"))], &names(&["B"]));
    assert!(matches!(resolution.action(), ResolveAction::Resolved { service } if service == "X"));
    let resolved = resolution
        .resolve(Some(JsonValue::Object(data(vec![("P", number(1))]))))
        .unwrap();
    assert_eq!(resolved.name, "X");
    assert_eq!(resolved.params.get("P"), Some(&number(1)));
    assert_eq!(resolution.resolve(Some(JsonValue::Null)).unwrap().params.len(), 0);
    assert_eq!(resolution.resolve(None).unwrap().params.len(), 0);
}

#[test]
fn first_matching_candidate_resolves() {
    let mut resolution = DidResolver::new(ServiceType::Read, 0xF190, &[], &names(&["A", "B", "C"]));
    assert!(matches!(resolution.action(), ResolveAction::FetchMetadata { service } if service == "A"));
    assert!(resolution.resolve(None).is_none());
    resolution.metadata_fetched(None);
    assert!(matches!(resolution.action(), ResolveAction::FetchMetadata { service } if service == "B"));
    resolution.probe_finished(Some(vec![0x22, 0xF1, 0x90]));
    assert!(matches!(resolution.action(), ResolveAction::FetchMetadata { service } if service == "B"));
    resolution.metadata_fetched(Some(request(physical("VIN", None))));
    match resolution.action() {
        ResolveAction::Probe { service, parameters } => {
            assert_eq!(service, "B");
            assert_eq!(parameters.len(), 2);
        }
        other => panic!("unexpected {other:?}"),
    }
    resolution.probe_finished(Some(vec![0x22, 0xF1, 0x91]));
    assert!(matches!(resolution.action(), ResolveAction::FetchMetadata { service } if service == "C"));
    resolution.metadata_fetched(Some(request(coded("0xF190"))));
    assert!(matches!(resolution.action(), ResolveAction::Resolved { service } if service == "C"));
}

#[test]
fn probe_can_resolve() {
    let mut resolution = DidResolver::new(ServiceType::Write, 0xF190, &[], &names(&["A"]));
    resolution.metadata_fetched(Some(vec![
        request_param("SID", coded("0x2E")),
        request_param("DID", physical("VIN", None)),
    ]));
    resolution.probe_finished(Some(vec![0x2E, 0xF1, 0x90, 0]));
    assert_eq!(resolution.resolve(None).unwrap().name, "A");
}

#[test]
fn resolution_can_fail() {
    let resolver = ServiceResolver::new("ECU1".to_owned());
    let nothing = resolver.resolve_write_service(1, &[], &[]);
    assert!(matches!(nothing.action(), ResolveAction::NotFound));
    let comms = [comm("A", None), comm("B", None)];
    let mut resolution = resolver.resolve(ServiceType::Read, 0xF190, &comms, &[]);
    resolution.metadata_fetched(Some(request(coded("1"))));
    let mut unparsable = request(physical("VIN", None));
    unparsable.push(request_param("X", coded("?")));
    resolution.metadata_fetched(Some(unparsable));
    assert!(matches!(resolution.action(), ResolveAction::NotFound));
    assert!(resolution.resolve(None).is_none());
}

#[test]
fn request_prefixes() {
    assert_eq!(request_prefix(ServiceType::Read, 0xF190), vec![0x22, 0xF1, 0x90]);
    assert_eq!(request_prefix(ServiceType::Write, 1), vec![0x2E, 0, 1]);
}
