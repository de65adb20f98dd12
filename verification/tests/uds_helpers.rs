//! DID extraction, MUX-case matching and value encoding.

use uds2sovd_proxy::double::parse_double_as_u64;
use uds2sovd_proxy::json::{JsonMap, JsonNumber, JsonValue};
use uds2sovd_proxy::number::{parse_decimal, parse_u64_literal, to_decimal, to_hex};
use uds2sovd_proxy::service_resolver::model::{
    CompuScaleInfo, ParameterTypeMetadata, ResponseParameterInfo, ServiceParameterMetadata,
};
use uds2sovd_proxy::service_resolver::uds_helpers::{
    did_matches_compu_scales, encode_unsigned_be, encode_value_at, extract_did_from_uds,
    find_did_param, value_to_bytes,
};
use uds2sovd_proxy::service_resolver::uds_service_ids;
use uds2sovd_proxy::service_resolver::{find_mux_case_prefix, parse_mux_coded_value};
use uds2sovd_proxy::text::{
    chars_of, contains_char, eq_ignore_ascii_case, segment_after_last_slash, starts_with,
    string_of, to_ascii_lowercase, trim, trim_end_slashes,
};

fn number(n: u64) -> JsonValue {
    JsonValue::Number(JsonNumber::PosInt(n))
}

fn string(s: &str) -> JsonValue {
    JsonValue::String(s.to_owned())
}

#[test]
fn uds_helpers_test_encode_unsigned_be() {
    assert_eq!(encode_unsigned_be(0), vec![0x00]);
    assert_eq!(encode_unsigned_be(0xFF), vec![0xFF]);
    assert_eq!(encode_unsigned_be(0x0100), vec![0x01, 0x00]);
    assert_eq!(encode_unsigned_be(0xF190), vec![0xF1, 0x90]);
    assert_eq!(encode_unsigned_be(0xFFFF), vec![0xFF, 0xFF]);
    assert_eq!(encode_unsigned_be(0x01_0000), vec![0x01, 0x00, 0x00]);
    assert_eq!(encode_unsigned_be(0xFF_FFFF), vec![0xFF, 0xFF, 0xFF]);
    assert_eq!(
        encode_unsigned_be(0x0100_0000),
        vec![0x01, 0x00, 0x00, 0x00]
    );
    assert_eq!(
        encode_unsigned_be(0xDEAD_BEEF),
        vec![0xDE, 0xAD, 0xBE, 0xEF]
    );
}

#[test]
fn service_resolver_test_encode_unsigned_be() {
    assert_eq!(encode_unsigned_be(0), vec![0x00]);
    assert_eq!(encode_unsigned_be(0xFF), vec![0xFF]);
    assert_eq!(encode_unsigned_be(0x0100), vec![0x01, 0x00]);
    assert_eq!(encode_unsigned_be(0xF190), vec![0xF1, 0x90]);
    assert_eq!(encode_unsigned_be(0xFFFF), vec![0xFF, 0xFF]);
    assert_eq!(encode_unsigned_be(0x01_0000), vec![0x01, 0x00, 0x00]);
    assert_eq!(encode_unsigned_be(0xFF_FFFF), vec![0xFF, 0xFF, 0xFF]);
    assert_eq!(
        encode_unsigned_be(0x0100_0000),
        vec![0x01, 0x00, 0x00, 0x00]
    );
    assert_eq!(
        encode_unsigned_be(0xDEAD_BEEF),
        vec![0xDE, 0xAD, 0xBE, 0xEF]
    );
}

#[test]
fn uds_helpers_test_parse_mux_coded_value() {
    assert_eq!(parse_mux_coded_value("61699"), Some(61699));
    assert_eq!(parse_mux_coded_value("32776"), Some(32776));
    assert_eq!(parse_mux_coded_value("61699.0"), Some(61699));
    assert_eq!(parse_mux_coded_value(" 61699 "), Some(61699));
    assert_eq!(parse_mux_coded_value("non_numeric_text"), None);
    assert_eq!(parse_mux_coded_value(""), None);
}

#[test]
fn service_resolver_test_parse_mux_coded_value() {
    assert_eq!(parse_mux_coded_value("61699"), Some(61699));
    assert_eq!(parse_mux_coded_value("32776"), Some(32776));
    assert_eq!(parse_mux_coded_value("61699.0"), Some(61699));
    assert_eq!(parse_mux_coded_value(" 61699 "), Some(61699));
    assert_eq!(parse_mux_coded_value("non_numeric_text"), None);
    assert_eq!(parse_mux_coded_value(""), None);
}

#[test]
fn uds_helpers_test_find_mux_case_prefix_floor_match() {
    // Simulate real RDBI_RESP metadata with range-based and point MUX cases.
    let meta = vec![
        // Point case: DID_POINT_8008 covers only DID 0x8008 (32776)
        ResponseParameterInfo {
            name: "__mux_case__/DID_POINT_8008".to_string(),
            semantic: Some("MUX-CASE".to_string()),
            param_type: ParameterTypeMetadata::CodedConst {
                coded_value: "32776".to_string(),
            },
            byte_position: 3,
            bit_position: 0,
            byte_size: None,
        },
        // Range case: DID_RANGE_F101_F140 covers 0xF101 (61697) through 0xF140 (61760)
        ResponseParameterInfo {
            name: "__mux_case__/DID_RANGE_F101_F140".to_string(),
            semantic: Some("MUX-CASE".to_string()),
            param_type: ParameterTypeMetadata::CodedConst {
                coded_value: "61697".to_string(),
            },
            byte_position: 3,
            bit_position: 0,
            byte_size: None,
        },
        // Point case: DID_POINT_F141 covers only 0xF141 (61761)
        ResponseParameterInfo {
            name: "__mux_case__/DID_POINT_F141".to_string(),
            semantic: Some("MUX-CASE".to_string()),
            param_type: ParameterTypeMetadata::CodedConst {
                coded_value: "61761".to_string(),
            },
            byte_position: 3,
            bit_position: 0,
            byte_size: None,
        },
    ];

    // Exact match
    assert_eq!(
        find_mux_case_prefix(&meta, 0x8008),
        Some("DID_POINT_8008/".to_string())
    );
    assert_eq!(
        find_mux_case_prefix(&meta, 0xF101),
        Some("DID_RANGE_F101_F140/".to_string())
    );
    assert_eq!(
        find_mux_case_prefix(&meta, 0xF141),
        Some("DID_POINT_F141/".to_string())
    );

    // Floor match within range
    assert_eq!(
        find_mux_case_prefix(&meta, 0xF103), // 61699 -> floor to 61697
        Some("DID_RANGE_F101_F140/".to_string())
    );
    assert_eq!(
        find_mux_case_prefix(&meta, 0xF140), // 61760 -> floor to 61697
        Some("DID_RANGE_F101_F140/".to_string())
    );

    // Float-formatted coded_value
    let meta_float = vec![ResponseParameterInfo {
        name: "__mux_case__/case_a".to_string(),
        semantic: Some("MUX-CASE".to_string()),
        param_type: ParameterTypeMetadata::CodedConst {
            coded_value: "61697.0".to_string(),
        },
        byte_position: 3,
        bit_position: 0,
        byte_size: None,
    }];
    assert_eq!(
        find_mux_case_prefix(&meta_float, 0xF103),
        Some("case_a/".to_string())
    );

    // No MUX entries -> None
    assert_eq!(find_mux_case_prefix(&[], 0xF103), None);
}

#[test]
fn service_resolver_test_find_mux_case_prefix_floor_match() {
    // Simulate real RDBI_RESP metadata with range-based and point MUX cases.
    let meta = vec![
        // Point case: DID_POINT_8008 covers only DID 0x8008 (32776)
        ResponseParameterInfo {
            name: "__mux_case__/DID_POINT_8008".to_string(),
            semantic: Some("MUX-CASE".to_string()),
            param_type: ParameterTypeMetadata::CodedConst {
                coded_value: "32776".to_string(),
            },
            byte_position: 3,
            bit_position: 0,
            byte_size: None,
        },
        // Range case: DID_RANGE_F101_F140 covers 0xF101 (61697) through 0xF140 (61760)
        ResponseParameterInfo {
            name: "__mux_case__/DID_RANGE_F101_F140".to_string(),
            semantic: Some("MUX-CASE".to_string()),
            param_type: ParameterTypeMetadata::CodedConst {
                coded_value: "61697".to_string(),
            },
            byte_position: 3,
            bit_position: 0,
            byte_size: None,
        },
        // Point case: DID_POINT_F141 covers only 0xF141 (61761)
        ResponseParameterInfo {
            name: "__mux_case__/DID_POINT_F141".to_string(),
            semantic: Some("MUX-CASE".to_string()),
            param_type: ParameterTypeMetadata::CodedConst {
                coded_value: "61761".to_string(),
            },
            byte_position: 3,
            bit_position: 0,
            byte_size: None,
        },
    ];

    // Exact match
    assert_eq!(
        find_mux_case_prefix(&meta, 0x8008),
        Some("DID_POINT_8008/".to_string())
    );
    assert_eq!(
        find_mux_case_prefix(&meta, 0xF101),
        Some("DID_RANGE_F101_F140/".to_string())
    );
    assert_eq!(
        find_mux_case_prefix(&meta, 0xF141),
        Some("DID_POINT_F141/".to_string())
    );

    // Floor match within range
    assert_eq!(
        find_mux_case_prefix(&meta, 0xF103), // 61699 -> floor to 61697
        Some("DID_RANGE_F101_F140/".to_string())
    );
    assert_eq!(
        find_mux_case_prefix(&meta, 0xF140), // 61760 -> floor to 61697
        Some("DID_RANGE_F101_F140/".to_string())
    );

    // Float-formatted coded_value
    let meta_float = vec![ResponseParameterInfo {
        name: "__mux_case__/case_a".to_string(),
        semantic: Some("MUX-CASE".to_string()),
        param_type: ParameterTypeMetadata::CodedConst {
            coded_value: "61697.0".to_string(),
        },
        byte_position: 3,
        bit_position: 0,
        byte_size: None,
    }];
    assert_eq!(
        find_mux_case_prefix(&meta_float, 0xF103),
        Some("case_a/".to_string())
    );

    // No MUX entries -> None
    assert_eq!(find_mux_case_prefix(&[], 0xF103), None);
}

#[test]
fn uds_helpers_test_find_did_param() {
    // Standard RDBI: CodedConst SID + PhysConst DID
    let meta = vec![
        ServiceParameterMetadata {
            name: "RDBI".to_string(),
            semantic: None,
            param_type: ParameterTypeMetadata::CodedConst {
                coded_value: "34".to_string(), // 0x22
            },
        },
        ServiceParameterMetadata {
            name: "VIN".to_string(),
            semantic: None,
            param_type: ParameterTypeMetadata::PhysConst {
                phys_constant_value: "VIN".to_string(),
                coded_value: Some(0xF190),
            },
        },
    ];
    let did = find_did_param(&meta, 0x22);
    assert!(did.is_some());
    assert_eq!(did.expect("DID param not found").name, "VIN");

    // Value-type service: SID + Value DID
    let meta2 = vec![
        ServiceParameterMetadata {
            name: "SID".to_string(),
            semantic: None,
            param_type: ParameterTypeMetadata::CodedConst {
                coded_value: "34".to_string(),
            },
        },
        ServiceParameterMetadata {
            name: "DynamicDID".to_string(),
            semantic: None,
            param_type: ParameterTypeMetadata::Value {
                physical_default_value: None,
                coded_default_value: None,
                compu_scales: vec![],
            },
        },
    ];
    let did = find_did_param(&meta2, 0x22);
    assert!(did.is_some());
    assert!(matches!(
        did.expect("DID param not found").param_type,
        ParameterTypeMetadata::Value { .. }
    ));

    // SID-only service: no DID param
    let meta3 = vec![ServiceParameterMetadata {
        name: "SID".to_string(),
        semantic: None,
        param_type: ParameterTypeMetadata::CodedConst {
            coded_value: "34".to_string(),
        },
    }];
    assert!(find_did_param(&meta3, 0x22).is_none());
}

#[test]
fn service_resolver_test_find_did_param() {
    // Standard RDBI: CodedConst SID + PhysConst DID
    let meta = vec![
        ServiceParameterMetadata {
            name: "RDBI".to_string(),
            semantic: None,
            param_type: ParameterTypeMetadata::CodedConst {
                coded_value: "34".to_string(), // 0x22
            },
        },
        ServiceParameterMetadata {
            name: "VIN".to_string(),
            semantic: None,
            param_type: ParameterTypeMetadata::PhysConst {
                phys_constant_value: "VIN".to_string(),
                coded_value: Some(0xF190),
            },
        },
    ];
    let did = find_did_param(&meta, 0x22);
    assert!(did.is_some());
    assert_eq!(did.expect("DID param not found").name, "VIN");

    // Value-type service: SID + Value DID
    let meta2 = vec![
        ServiceParameterMetadata {
            name: "SID".to_string(),
            semantic: None,
            param_type: ParameterTypeMetadata::CodedConst {
                coded_value: "34".to_string(),
            },
        },
        ServiceParameterMetadata {
            name: "DynamicDID".to_string(),
            semantic: None,
            param_type: ParameterTypeMetadata::Value {
                physical_default_value: None,
                coded_default_value: None,
                compu_scales: vec![],
            },
        },
    ];
    let did = find_did_param(&meta2, 0x22);
    assert!(did.is_some());
    assert!(matches!(
        did.expect("DID param not found").param_type,
        ParameterTypeMetadata::Value { .. }
    ));

    // SID-only service: no DID param
    let meta3 = vec![ServiceParameterMetadata {
        name: "SID".to_string(),
        semantic: None,
        param_type: ParameterTypeMetadata::CodedConst {
            coded_value: "34".to_string(),
        },
    }];
    assert!(find_did_param(&meta3, 0x22).is_none());
}

#[test]
fn test_parse_u64_literal_decimal() {
    assert_eq!(parse_u64_literal("0"), Some(0));
    assert_eq!(parse_u64_literal("61699"), Some(61_699));
}

#[test]
fn test_parse_u64_literal_hex() {
    assert_eq!(parse_u64_literal("0xF103"), Some(0xF103));
    assert_eq!(parse_u64_literal("0XFF"), Some(0xFF));
    assert_eq!(parse_u64_literal("F103"), Some(0xF103));
}

#[test]
fn test_parse_u64_literal_invalid() {
    assert_eq!(parse_u64_literal(""), None);
    assert_eq!(parse_u64_literal("abc xyz"), None);
}

#[test]
fn test_did_matches_compu_scales_in_range() {
    let scales = vec![CompuScaleInfo {
        short_label: None,
        lower_limit: Some(0xF100),
        upper_limit: Some(0xF1FF),
        compu_const_vt: None,
    }];
    assert!(did_matches_compu_scales(&scales, 0xF190));
    assert!(did_matches_compu_scales(&scales, 0xF100));
    assert!(did_matches_compu_scales(&scales, 0xF1FF));
    assert!(!did_matches_compu_scales(&scales, 0xF200));
}

#[test]
fn test_find_did_param_skips_sid() {
    let sid = uds_service_ids::READ_DATA_BY_IDENTIFIER;
    let meta = vec![
        ServiceParameterMetadata {
            name: "SID".to_string(),
            semantic: None,
            param_type: ParameterTypeMetadata::CodedConst {
                coded_value: "34".to_string(),
            },
        },
        ServiceParameterMetadata {
            name: "DID".to_string(),
            semantic: Some("DATA-IDENTIFIER".to_string()),
            param_type: ParameterTypeMetadata::CodedConst {
                coded_value: "61824".to_string(),
            },
        },
    ];
    let did_param = find_did_param(&meta, sid);
    assert!(did_param.is_some());
    assert_eq!(did_param.unwrap().name, "DID");
}

#[test]
fn test_find_did_param_phys_const() {
    let sid = uds_service_ids::READ_DATA_BY_IDENTIFIER;
    let meta = vec![
        ServiceParameterMetadata {
            name: "SID".to_string(),
            semantic: None,
            param_type: ParameterTypeMetadata::CodedConst {
                coded_value: "34".to_string(),
            },
        },
        ServiceParameterMetadata {
            name: "DID".to_string(),
            semantic: None,
            param_type: ParameterTypeMetadata::PhysConst {
                phys_constant_value: "VIN".to_string(),
                coded_value: Some(0xF190),
            },
        },
    ];
    let did_param = find_did_param(&meta, sid);
    assert!(did_param.is_some());
    assert_eq!(did_param.unwrap().name, "DID");
}

#[test]
fn test_find_did_param_no_sid_match() {
    let meta = vec![ServiceParameterMetadata {
        name: "ONLY_PARAM".to_string(),
        semantic: None,
        param_type: ParameterTypeMetadata::PhysConst {
            phys_constant_value: "VALUE".to_string(),
            coded_value: None,
        },
    }];
    let did_param = find_did_param(&meta, 0x22);
    assert!(did_param.is_some());
    assert_eq!(did_param.unwrap().name, "ONLY_PARAM");
}

#[test]
fn test_find_did_param_empty_metadata() {
    let meta: Vec<ServiceParameterMetadata> = vec![];
    assert!(find_did_param(&meta, 0x22).is_none());
}

#[test]
fn test_encode_value_at_number_right_aligned() {
    let mut buf = [0u8; 5];
    encode_value_at(&mut buf, 1, 2, Some(&number(0xF1_90u64)));
    assert_eq!(buf, [0x00, 0xF1, 0x90, 0x00, 0x00]);
}

#[test]
fn test_encode_value_at_number_single_byte() {
    let mut buf = [0u8; 3];
    encode_value_at(&mut buf, 0, 1, Some(&number(0x62u64)));
    assert_eq!(buf, [0x62, 0x00, 0x00]);
}

#[test]
fn test_encode_value_at_string() {
    let mut buf = [0u8; 6];
    encode_value_at(&mut buf, 1, 4, Some(&string("VIN!")));
    assert_eq!(&buf[1..5], b"VIN!");
    assert_eq!(buf[0], 0x00);
    assert_eq!(buf[5], 0x00);
}

#[test]
fn test_encode_value_at_string_truncated() {
    let mut buf = [0u8; 4];
    encode_value_at(&mut buf, 0, 2, Some(&string("ABCDE")));
    assert_eq!(&buf[..2], b"AB");
    assert_eq!(buf[2], 0x00);
}

#[test]
fn test_encode_value_at_array() {
    let mut buf = [0u8; 5];
    encode_value_at(
        &mut buf,
        1,
        3,
        Some(&JsonValue::Array(vec![number(0xDEu64), number(0xADu64), number(0xBEu64)])),
    );
    assert_eq!(&buf[1..4], [0xDE, 0xAD, 0xBE]);
}

#[test]
fn test_encode_value_at_bool() {
    let mut buf = [0u8; 2];
    encode_value_at(&mut buf, 0, 1, Some(&JsonValue::Bool(true)));
    assert_eq!(buf[0], 0x01);
    encode_value_at(&mut buf, 1, 1, Some(&JsonValue::Bool(false)));
    assert_eq!(buf[1], 0x00);
}

#[test]
fn test_encode_value_at_none_noop() {
    let mut buf = [0xFFu8; 4];
    encode_value_at(&mut buf, 0, 4, None);
    assert_eq!(buf, [0xFF, 0xFF, 0xFF, 0xFF]);
}

#[test]
fn test_encode_value_at_out_of_bounds_noop() {
    let mut buf = [0u8; 2];
    // pos=1, size=3 -> end=4 > buf.len()=2 -> noop
    encode_value_at(&mut buf, 1, 3, Some(&number(0xFFu64)));
    assert_eq!(buf, [0x00, 0x00]);
}

#[test]
fn test_value_to_bytes_number() {
    assert_eq!(
        value_to_bytes(Some(&number(0xF190u64))),
        vec![0xF1, 0x90]
    );
}

#[test]
fn test_value_to_bytes_string() {
    assert_eq!(
        value_to_bytes(Some(&string("AB"))),
        b"AB".to_vec()
    );
}

#[test]
fn test_value_to_bytes_array() {
    assert_eq!(
        value_to_bytes(Some(&JsonValue::Array(vec![number(0x01u64), number(0x02u64)]))),
        vec![0x01, 0x02]
    );
}

#[test]
fn test_value_to_bytes_none() {
    assert_eq!(value_to_bytes(None), Vec::<u8>::new());
}

#[test]
fn test_encode_unsigned_be_zero() {
    assert_eq!(encode_unsigned_be(0), vec![0x00]);
}

#[test]
fn test_encode_unsigned_be_two_bytes() {
    assert_eq!(encode_unsigned_be(0xF190), vec![0xF1, 0x90]);
}

#[test]
fn number_fills_a_wide_field() {
    let mut buf = [0xFFu8; 12];
    encode_value_at(&mut buf, 1, 10, Some(&number(0x0102)));
    assert_eq!(
        buf,
        [0xFF, 0, 0, 0, 0, 0, 0, 0, 0, 0x01, 0x02, 0xFF]
    );
}

#[test]
fn number_is_cut_to_a_narrow_field() {
    let mut buf = [0xFFu8; 3];
    encode_value_at(&mut buf, 1, 1, Some(&number(0x0102)));
    assert_eq!(buf, [0xFF, 0x02, 0xFF]);
}

#[test]
fn other_numbers_in_fields() {
    let mut buf = [0u8; 4];
    encode_value_at(&mut buf, 0, 2, Some(&JsonValue::Number(JsonNumber::NegInt(-2))));
    encode_value_at(&mut buf, 2, 2, Some(&JsonValue::Number(JsonNumber::Float("1.5".to_owned()))));
    assert_eq!(buf, [0xFF, 0xFE, 0, 0]);
}

#[test]
fn short_values_leave_the_rest_of_a_field() {
    let mut buf = [9u8; 6];
    encode_value_at(&mut buf, 0, 3, Some(&string("A")));
    let items = vec![number(0x1FF), JsonValue::Null, number(3)];
    encode_value_at(&mut buf, 3, 3, Some(&JsonValue::Array(items)));
    assert_eq!(buf, [0x41, 9, 9, 0xFF, 9, 3]);
    encode_value_at(&mut buf, 0, 6, Some(&JsonValue::Null));
    encode_value_at(&mut buf, 0, 6, Some(&JsonValue::Object(JsonMap::new())));
    encode_value_at(&mut buf, 0, 0, Some(&number(1)));
    encode_value_at(&mut buf, usize::MAX, 2, Some(&number(1)));
    assert_eq!(buf, [0x41, 9, 9, 0xFF, 9, 3]);
}

#[test]
fn other_values_as_bytes() {
    assert_eq!(value_to_bytes(Some(&JsonValue::Bool(true))), vec![1]);
    assert_eq!(value_to_bytes(Some(&JsonValue::Bool(false))), vec![0]);
    assert_eq!(value_to_bytes(Some(&JsonValue::Null)), Vec::<u8>::new());
    assert_eq!(value_to_bytes(Some(&string("\u{e9}"))), vec![0xC3, 0xA9]);
    assert_eq!(
        value_to_bytes(Some(&JsonValue::Number(JsonNumber::NegInt(-1)))),
        vec![0xFF; 8]
    );
    let items = vec![number(0x0102), string("x"), number(3)];
    assert_eq!(value_to_bytes(Some(&JsonValue::Array(items))), vec![2, 3]);
}

#[test]
fn unsigned_numbers_read_back() {
    for n in [0u64, 1, 255, 256, 65_535, 65_536, u32::MAX as u64, u64::MAX / 3, u64::MAX] {
        let bytes = encode_unsigned_be(n);
        let value = bytes.iter().fold(0u128, |v, b| v * 256 + u128::from(*b));
        assert_eq!(value, u128::from(n));
        assert!(bytes.len() == 1 || bytes[0] != 0);
    }
}

#[test]
fn did_from_uds() {
    assert_eq!(extract_did_from_uds(&[0x22, 0xF1, 0x90]), Some(0xF190));
    assert_eq!(extract_did_from_uds(&[0x22, 0xF1]), None);
    assert_eq!(extract_did_from_uds(&[]), None);
}

#[test]
fn literals() {
    assert_eq!(parse_u64_literal(" 0x10 "), Some(16));
    assert_eq!(parse_u64_literal("+7"), Some(7));
    assert_eq!(parse_u64_literal("0x+F"), Some(15));
    assert_eq!(parse_u64_literal("-7"), None);
    assert_eq!(parse_u64_literal("+"), None);
    assert_eq!(parse_u64_literal("0x"), None);
    assert_eq!(parse_u64_literal("ff"), Some(255));
    assert_eq!(parse_u64_literal("18446744073709551615"), Some(u64::MAX));
    assert_eq!(parse_u64_literal("18446744073709551616"), None);
    assert_eq!(parse_u64_literal("ffffffffffffffff"), Some(u64::MAX));
    assert_eq!(parse_u64_literal("10000000000000000f"), None);
    assert_eq!(parse_decimal("98"), Some(98));
    assert_eq!(parse_decimal(" 98"), None);
}

#[test]
fn literals_agree_with_std() {
    let texts = ["", "+", "-", "0", "00", "+00012", "9", "a", "1a", "1 2", "18446744073709551615",
        "18446744073709551616", "99999999999999999999999", "++1", "0x1", "\u{661}"];
    for text in texts {
        assert_eq!(parse_decimal(text), text.parse::<u64>().ok(), "{text}");
    }
}

#[test]
fn numbers_are_written() {
    assert_eq!(to_decimal(0), "0");
    assert_eq!(to_decimal(1_234_567_890), "1234567890");
    assert_eq!(to_decimal(u64::MAX), u64::MAX.to_string());
    assert_eq!(to_hex(0, 2), "00");
    assert_eq!(to_hex(0xABC, 2), "ABC");
    assert_eq!(to_hex(0xF, 4), "000F");
}

fn reference(coded_value: &str) -> Option<u64> {
    let trimmed = coded_value.trim();
    trimmed.parse::<u64>().ok().or_else(|| {
        let v = trimmed.parse::<f64>().ok()?;
        (v >= 0.0 && v <= u64::MAX as f64).then_some(v as u64)
    })
}

#[test]
fn limits_read_like_doubles() {
    let texts = [
        "61840.0", "61840.", ".5", "0.5", "1.5", "1e3", "1E3", "1e+3", "1e-3", "12345e-2", "1.e2",
        ".e2", "e2", ".", "+.", "-.", "+1.5", "-1.5", "-0", "-0.0", "-0e5", "-1e-400", "-1e-323",
        "-2e-324", "-3e-324", "-2.4703282292062327e-324", "-2.4703282292062328e-324",
        "-2.47032822920623272088284396434110686182e-324", "-1e-99999999999999999999", "-1e99",
        "0e99999999999999999999999", "1e99999999999999999999999", "1e-99999999999999999999999",
        "inf", "nan", "infinity", "1e", "1e+", "1ee2", "1.2.3", "1_000.0", "0x10", " 5.0\t",
        "\u{a0}5.0\u{3000}", "\u{200b}5.0", "18446744073709551615", "18446744073709551616",
        "18446744073709551615.0", "18446744073709551616.0", "18446744073709553664",
        "18446744073709553664.0000000000000000000000000000001", "18446744073709553665",
        "18446744073709549568.5", "18446744073709550591.999", "18446744073709550592",
        "18446744073709550593", "9007199254740992.5", "9007199254740993.0",
        "9007199254740993.0000001", "9007199254740991.5", "9007199254740990.5",
        "9007199254740990.50000001", "4503599627370496.5", "4503599627370497.5",
        "4503599627370495.5", "4503599627370495.75", "4503599627370495.7499999",
        "4503599627370495.25", "0.99999999999999994448884876874217297881841659545898437499",
        "0.999999999999999944488848768742172978818416595458984375",
        "0.99999999999999994448884876874217297881841659545898437501", "0.9999999999999999",
        "1.9999999999999998889776975374843459576368331909179687", "1.999999999999999888978",
        "61839.99999999999999999999999999", "61839.999999999996", "00000000000000000000000000001.0",
        "000000000000000000000000000018446744073709551616.0", "100000000000000000000.0",
        "99999999999999999999.9", "0.00000000000000000000000000000000000000000001e44",
        "123456789012345678901234567890e-20", "1e19", "1e20", "2e19", "184467440737095516150e-1",
    ];
    for text in texts {
        assert_eq!(parse_mux_coded_value(text), reference(text), "{text:?}");
    }
}

#[test]
fn many_decimal_texts_read_like_doubles() {
    let mut state: u64 = 0x9E37_79B9_7F4A_7C15;
    let mut next = |bound: u64| {
        state ^= state << 13;
        state ^= state >> 7;
        state ^= state << 17;
        state % bound
    };
    for _ in 0..4000 {
        let mut text = String::new();
        match next(8) {
            0 => text.push('-'),
            1 => text.push('+'),
            _ => {}
        }
        for _ in 0..next(22) {
            text.push(char::from(b'0' + next(10) as u8));
        }
        if next(3) > 0 {
            text.push('.');
            for _ in 0..next(30) {
                let nines = next(2) == 0;
                text.push(if nines { '9' } else { char::from(b'0' + next(10) as u8) });
            }
        }
        if next(4) == 0 {
            text.push_str(&format!("e{}", next(60) as i64 - 30));
        }
        assert_eq!(parse_mux_coded_value(&text), reference(&text), "{text:?}");
    }
}

#[test]
fn halves_near_powers_of_two_read_like_doubles() {
    for shift in 40..64u32 {
        let base = 1u64 << shift;
        for offset in 0..40u64 {
            for fraction in ["0", "25", "4999999999", "5", "5000000001", "75", "999999999999999999"] {
                for n in [base - offset, base + offset] {
                    let text = format!("{n}.{fraction}");
                    assert_eq!(parse_mux_coded_value(&text), reference(&text), "{text:?}");
                }
            }
        }
    }
}

#[test]
fn doubles_stand_alone() {
    assert_eq!(parse_double_as_u64(&chars_of("9007199254740992.0")), Some(1 << 53));
    assert_eq!(parse_double_as_u64(&chars_of("12")), Some(12));
    assert_eq!(parse_double_as_u64(&chars_of("12.9")), Some(12));
    assert_eq!(parse_double_as_u64(&chars_of("x")), None);
}

fn marker(name: &str, coded_value: &str) -> ResponseParameterInfo {
    ResponseParameterInfo {
        name: format!("__mux_case__/{name}"),
        semantic: None,
        param_type: ParameterTypeMetadata::CodedConst {
            coded_value: coded_value.to_owned(),
        },
        byte_position: 0,
        bit_position: 0,
        byte_size: None,
    }
}

#[test]
fn last_of_equal_mux_cases_counts() {
    let meta = vec![
        marker("A", "10"),
        marker("B", "20"),
        marker("C", "20"),
        marker("D", "x"),
        marker("E", "15"),
    ];
    assert_eq!(find_mux_case_prefix(&meta, 25), Some("C/".to_owned()));
    assert_eq!(find_mux_case_prefix(&meta, 19), Some("E/".to_owned()));
    assert_eq!(find_mux_case_prefix(&meta, 9), None);
}

#[test]
fn limits_of_scales_are_optional() {
    let scale = |lower_limit, upper_limit| CompuScaleInfo {
        short_label: None,
        lower_limit,
        upper_limit,
        compu_const_vt: None,
    };
    assert!(did_matches_compu_scales(&[scale(Some(5), None)], 5));
    assert!(!did_matches_compu_scales(&[scale(Some(5), None)], 6));
    assert!(!did_matches_compu_scales(&[scale(None, Some(9))], 5));
    assert!(!did_matches_compu_scales(&[], 5));
    assert!(did_matches_compu_scales(
        &[scale(None, None), scale(Some(1), Some(7))],
        5
    ));
}

#[test]
fn second_sid_constant_bears_the_did() {
    let constant = |name: &str, value: &str| ServiceParameterMetadata {
        name: name.to_owned(),
        semantic: None,
        param_type: ParameterTypeMetadata::CodedConst {
            coded_value: value.to_owned(),
        },
    };
    let copied = ServiceParameterMetadata {
        name: "COPY".to_owned(),
        semantic: None,
        param_type: ParameterTypeMetadata::MatchingRequestParam { byte_length: 1 },
    };
    let meta = vec![copied, constant("A", "0x22"), constant("B", "34")];
    assert_eq!(find_did_param(&meta, 0x22).unwrap().name, "B");
}

#[test]
fn texts_are_cut() {
    let cut = |s: &str| string_of(trim(&chars_of(s)));
    for s in ["", " ", "a", " a b ", "\n\ta\u{2003}", "\u{85}x\u{feff}", "\u{1680}\u{3000}"] {
        assert_eq!(cut(s), s.trim());
    }
    for s in ["", "/", "a", "a/", "a//", "/a", "a/b", "//"] {
        assert_eq!(
            string_of(segment_after_last_slash(&chars_of(s))),
            s.rsplit('/').next().unwrap()
        );
        assert_eq!(
            string_of(trim_end_slashes(&chars_of(s))),
            s.trim_end_matches('/')
        );
        assert_eq!(contains_char(&chars_of(s), '/'), s.contains('/'));
        assert_eq!(starts_with(&chars_of(s), &chars_of("a/")), s.starts_with("a/"));
    }
}

#[test]
fn ascii_case_is_ignored() {
    for s in ["", "SID", "sId", "\u{c9}Az[`", "Zz@"] {
        assert_eq!(to_ascii_lowercase(s), s.to_ascii_lowercase());
        assert_eq!(eq_ignore_ascii_case(s, "sid"), s.eq_ignore_ascii_case("sid"));
    }
}

#[test]
fn json_maps_keep_names_unique() {
    let mut map = JsonMap::new();
    map.insert("a".to_owned(), number(1));
    map.insert("b".to_owned(), number(2));
    map.insert("a".to_owned(), number(3));
    assert_eq!(map.len(), 2);
    assert_eq!(map.get("a"), Some(&number(3)));
    assert_eq!(map.get("b"), Some(&number(2)));
    assert_eq!(map.get("c"), None);
    assert_eq!(map.name_at(0), "a");
    assert_eq!(map.value_at(1), &number(2));
}

#[test]
fn json_numbers() {
    assert_eq!(JsonNumber::PosInt(5).as_u64(), Some(5));
    assert_eq!(JsonNumber::PosInt(5).as_i64(), Some(5));
    assert_eq!(JsonNumber::PosInt(u64::MAX).as_i64(), None);
    assert_eq!(JsonNumber::NegInt(-5).as_u64(), None);
    assert_eq!(JsonNumber::NegInt(-5).as_i64(), Some(-5));
    assert_eq!(JsonNumber::NegInt(i64::MIN).to_bits(), 1 << 63);
    assert_eq!(JsonNumber::NegInt(7).to_bits(), 7);
    assert_eq!(JsonNumber::Float("0.5".to_owned()).as_i64(), None);
    assert_eq!(string("5").as_u64(), None);
    assert_eq!(number(5).as_u64(), Some(5));
}
