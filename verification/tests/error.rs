//! Errors and negative response codes.

use uds2sovd_proxy::error::{Nrc, ProxyError, SovdError, UdsError};

#[test]
fn test_nrc_from_u8_known_codes() {
    assert_eq!(Nrc::from_u8(0x10), Some(Nrc::GeneralReject));
    assert_eq!(Nrc::from_u8(0x11), Some(Nrc::ServiceNotSupported));
    assert_eq!(
        Nrc::from_u8(0x13),
        Some(Nrc::IncorrectMessageLengthOrInvalidFormat)
    );
    assert_eq!(Nrc::from_u8(0x31), Some(Nrc::RequestOutOfRange));
    assert_eq!(Nrc::from_u8(0x33), Some(Nrc::SecurityAccessDenied));
    assert_eq!(Nrc::from_u8(0x72), Some(Nrc::GeneralProgrammingFailure));
}

#[test]
fn test_nrc_from_u8_unknown_codes() {
    assert_eq!(Nrc::from_u8(0x00), None);
    assert_eq!(Nrc::from_u8(0xFF), None);
    assert_eq!(Nrc::from_u8(0x50), None);
}

#[test]
fn test_nrc_description() {
    assert_eq!(Nrc::GeneralReject.description(), "General reject");
    assert_eq!(
        Nrc::ServiceNotSupported.description(),
        "Service not supported"
    );
    assert_eq!(Nrc::RequestOutOfRange.description(), "Request out of range");
}

#[test]
fn test_nrc_repr_values() {
    assert_eq!(Nrc::GeneralReject.to_u8(), 0x10);
    assert_eq!(Nrc::ServiceNotSupported.to_u8(), 0x11);
    assert_eq!(Nrc::SubFunctionNotSupported.to_u8(), 0x12);
    assert_eq!(Nrc::IncorrectMessageLengthOrInvalidFormat.to_u8(), 0x13);
    assert_eq!(Nrc::RequestOutOfRange.to_u8(), 0x31);
    assert_eq!(Nrc::SecurityAccessDenied.to_u8(), 0x33);
}

const ALL_NRCS: [Nrc; 14] = [
    Nrc::GeneralReject,
    Nrc::ServiceNotSupported,
    Nrc::SubFunctionNotSupported,
    Nrc::IncorrectMessageLengthOrInvalidFormat,
    Nrc::ResponseTooLong,
    Nrc::BusyRepeatRequest,
    Nrc::ConditionsNotCorrect,
    Nrc::RequestSequenceError,
    Nrc::RequestOutOfRange,
    Nrc::SecurityAccessDenied,
    Nrc::InvalidKey,
    Nrc::ExceededNumberOfAttempts,
    Nrc::RequiredTimeDelayNotExpired,
    Nrc::GeneralProgrammingFailure,
];

#[test]
fn test_nrc_roundtrip() {
    for nrc in &ALL_NRCS {
        let byte = nrc.to_u8();
        assert_eq!(Nrc::from_u8(byte), Some(*nrc));
        assert!(!nrc.description().is_empty());
    }
}

#[test]
fn nrc_try_from_agrees_with_from_u8() {
    for byte in 0u8..=255 {
        assert_eq!(Nrc::try_from(byte).ok(), Nrc::from_u8(byte));
    }
    assert_eq!(ALL_NRCS.len(), (0u8..=255).filter(|b| Nrc::from_u8(*b).is_some()).count());
}

#[test]
fn nrc_descriptions_are_complete() {
    let expected = [
        "General reject",
        "Service not supported",
        "Sub-function not supported",
        "Incorrect message length or invalid format",
        "Response too long",
        "Busy - repeat request",
        "Conditions not correct",
        "Request sequence error",
        "Request out of range",
        "Security access denied",
        "Invalid key",
        "Exceeded number of attempts",
        "Required time delay not expired",
        "General programming failure",
    ];
    for (nrc, text) in ALL_NRCS.iter().zip(expected) {
        assert_eq!(nrc.description(), text);
    }
}

#[test]
fn test_proxy_error_display() {
    let err = ProxyError::DoIp("connection failed".into());
    assert!(err.to_string().contains("connection failed"));

    let err = ProxyError::Config("invalid port".into());
    assert!(err.to_string().contains("invalid port"));

    let err = ProxyError::Timeout;
    assert!(err.to_string().contains("Timeout"));
}

#[test]
fn proxy_error_texts() {
    assert_eq!(
        ProxyError::DoIp("x".into()).to_string(),
        "DoIP protocol error: x"
    );
    assert_eq!(
        ProxyError::Uds(UdsError::InvalidDid(0xF19)).to_string(),
        "UDS service error: Invalid DID: 0x0F19"
    );
    assert_eq!(
        ProxyError::Sovd(SovdError::Http("x".into())).to_string(),
        "SOVD communication error: HTTP error: x"
    );
    assert_eq!(
        ProxyError::Config("x".into()).to_string(),
        "Configuration error: x"
    );
    assert_eq!(
        ProxyError::InvalidRequest("x".into()).to_string(),
        "Invalid request: x"
    );
    assert_eq!(
        ProxyError::Timeout.to_string(),
        "Timeout waiting for response"
    );
    assert_eq!(
        ProxyError::Internal("x".into()).to_string(),
        "Internal error: x"
    );
    assert_eq!(
        ProxyError::Mdd("x".into()).to_string(),
        "MDD database error: x"
    );
    let io = std::io::Error::new(std::io::ErrorKind::NotFound, "file missing");
    assert_eq!(
        ProxyError::from(io).to_string(),
        "I/O error: file missing"
    );
}

#[test]
fn test_uds_error_display() {
    let err = UdsError::InvalidServiceId(0xFF);
    assert!(err.to_string().contains("0xFF"));

    let err = UdsError::InvalidDid(0xF190);
    assert!(err.to_string().contains("0xF190"));

    let err = UdsError::InvalidLength {
        expected: 3,
        actual: 1,
    };
    assert!(err.to_string().contains('3'));
    assert!(err.to_string().contains('1'));

    let err = UdsError::NegativeResponse {
        nrc: 0x31,
        description: "Request out of range".into(),
    };
    assert!(err.to_string().contains("0x31"));
}

#[test]
fn uds_error_texts() {
    assert_eq!(
        UdsError::InvalidServiceId(0x0A).to_string(),
        "Invalid service ID: 0x0A"
    );
    assert_eq!(UdsError::InvalidDid(0).to_string(), "Invalid DID: 0x0000");
    assert_eq!(
        UdsError::InvalidLength {
            expected: 10,
            actual: 4096
        }
        .to_string(),
        "Invalid message length: expected 10, got 4096"
    );
    assert_eq!(
        UdsError::NegativeResponse {
            nrc: 0x07,
            description: "why".into()
        }
        .to_string(),
        "Negative response: NRC 0x07 (why)"
    );
    assert_eq!(
        UdsError::UnsupportedService(0xBC).to_string(),
        "Unsupported service: 0xBC"
    );
}

#[test]
fn test_sovd_error_display() {
    let err = SovdError::Auth("invalid token".into());
    assert!(err.to_string().contains("invalid token"));

    let err = SovdError::ComponentNotFound("ecu1".into());
    assert!(err.to_string().contains("ecu1"));
}

#[test]
fn sovd_error_texts() {
    assert_eq!(SovdError::Http("x".into()).to_string(), "HTTP error: x");
    assert_eq!(
        SovdError::Auth("x".into()).to_string(),
        "Authentication failed: x"
    );
    assert_eq!(
        SovdError::ComponentNotFound("x".into()).to_string(),
        "Component not found: x"
    );
    assert_eq!(
        SovdError::DataIdNotFound("x".into()).to_string(),
        "Data identifier not found: x"
    );
    assert_eq!(
        SovdError::SchemaMismatch("x".into()).to_string(),
        "Schema mismatch: x"
    );
    let json = serde_json::from_str::<serde_json::Value>("{").unwrap_err();
    let expected = format!("JSON parsing error: {json}");
    let err = SovdError::from(json);
    assert!(matches!(err, SovdError::Json(_)));
    assert_eq!(err.to_string(), expected);
}

#[test]
fn test_proxy_error_from_io() {
    let io_err = std::io::Error::new(std::io::ErrorKind::NotFound, "file missing");
    let proxy_err: ProxyError = io_err.into();
    assert!(matches!(proxy_err, ProxyError::Io(_)));
}

#[test]
fn test_proxy_error_from_uds() {
    let uds_err = UdsError::InvalidServiceId(0x00);
    let proxy_err: ProxyError = uds_err.into();
    assert!(matches!(proxy_err, ProxyError::Uds(_)));
}

#[test]
fn test_proxy_error_from_sovd() {
    let sovd_err = SovdError::Auth("expired".into());
    let proxy_err: ProxyError = sovd_err.into();
    assert!(matches!(proxy_err, ProxyError::Sovd(_)));
}
