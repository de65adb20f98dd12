//! DoIP messages, sessions, connections and admission.

use uds2sovd_proxy::config::Config;
use uds2sovd_proxy::doip::handler::{
    has_invalid_doip_header, plan_uds_request, DiagHandler, MessageAction, UdsMessage, UdsPlan,
    MAX_FRAMES_PER_READ, MAX_STAGED_BUFFER_BYTES,
};
use uds2sovd_proxy::doip::message::{
    DiagnosticMessage, PayloadType, RoutingActivationRequest, DOIP_PROTOCOL_VERSION,
};
use uds2sovd_proxy::doip::session::Session;
use uds2sovd_proxy::doip::{ConnectionHandler, DoIpMessage, DoIpServer};
use uds2sovd_proxy::error::{Nrc, ProxyError, Result, UdsError};
use uds2sovd_proxy::service_resolver::uds_service_ids as service_ids;

#[test]
fn test_doip_message_serialize() {
    let msg = DoIpMessage::new(PayloadType::DiagnosticMessage, vec![0x01, 0x02, 0x03]);
    let bytes = msg.to_bytes();

    let (&b0, &b1) = (bytes.first().expect("b0"), bytes.get(1).expect("b1"));
    let pt: [u8; 2] = bytes.get(2..4).expect("pt").try_into().expect("2b");
    let len_field: [u8; 4] = bytes.get(4..8).expect("len").try_into().expect("4b");
    let rest = bytes.get(8..).expect("rest");
    assert_eq!(b0, DOIP_PROTOCOL_VERSION);
    assert_eq!(b1, !DOIP_PROTOCOL_VERSION);
    assert_eq!(u16::from_be_bytes(pt), 0x8001);
    assert_eq!(u32::from_be_bytes(len_field), 3);
    assert_eq!(rest, &[0x01, 0x02, 0x03]);
}

#[test]
fn test_doip_message_deserialize() {
    let bytes = vec![
        0x02, 0xFD, // Version and inverse
        0x80, 0x01, // Payload type (DiagnosticMessage)
        0x00, 0x00, 0x00, 0x03, // Payload length
        0x01, 0x02, 0x03, // Payload
    ];

    let msg = DoIpMessage::from_bytes(&bytes).expect("failed to parse valid DoIP message");
    assert_eq!(msg.protocol_version, 0x02);
    assert_eq!(msg.payload_type, 0x8001);
    assert_eq!(msg.payload, vec![0x01, 0x02, 0x03]);
}

#[test]
fn test_diagnostic_message_parser() {
    let payload = vec![
        0x0E, 0x80, // Source address
        0x00, 0x01, // Target address
        0x22, 0xF1, 0x90, // UDS data
    ];

    let diag_msg = DiagnosticMessage::from_payload(&payload)
        .expect("failed to parse valid diagnostic message");
    assert_eq!(diag_msg.source_address, 0x0E80);
    assert_eq!(diag_msg.target_address, 0x0001);
    assert_eq!(diag_msg.user_data, vec![0x22, 0xF1, 0x90]);
}

#[test]
fn test_routing_activation_request() {
    let payload = vec![
        0x0E, 0x80, // Source address
        0x00, // Activation type
        0x00, 0x00, 0x00, 0x00, // Reserved
    ];

    let req = RoutingActivationRequest::from_payload(&payload)
        .expect("failed to parse valid routing activation request");
    assert_eq!(req.source_address, 0x0E80);
    assert_eq!(req.activation_type, 0x00);
}

#[test]
fn routing_activation_fields() {
    let req = RoutingActivationRequest::from_payload(&[0x12, 0x34, 0xE0, 1, 2, 3, 4, 99]).unwrap();
    assert_eq!(req.source_address, 0x1234);
    assert_eq!(req.activation_type, 0xE0);
    assert_eq!(req.reserved, 0x0102_0304);
}

#[test]
fn test_doip_message_roundtrip() {
    let original = DoIpMessage::new(
        PayloadType::RoutingActivationRequest,
        vec![0x0E, 0x80, 0x00, 0x00, 0x00, 0x00, 0x00],
    );
    let bytes = original.to_bytes();
    let parsed = DoIpMessage::from_bytes(&bytes).expect("failed to parse roundtrip DoIP message");
    assert_eq!(parsed.protocol_version, original.protocol_version);
    assert_eq!(parsed.payload_type, original.payload_type);
    assert_eq!(parsed.payload, original.payload);
}

#[test]
fn test_doip_message_too_short() {
    assert!(DoIpMessage::from_bytes(&[0x02, 0xFD]).is_none());
    assert!(DoIpMessage::from_bytes(&[]).is_none());
}

#[test]
fn test_doip_message_invalid_version() {
    let bytes = vec![0x03, 0xFC, 0x80, 0x01, 0x00, 0x00, 0x00, 0x00];
    assert!(DoIpMessage::from_bytes(&bytes).is_none());
}

#[test]
fn doip_message_invalid_inverse_version() {
    let bytes = vec![0x02, 0xFC, 0x80, 0x01, 0x00, 0x00, 0x00, 0x00];
    assert!(DoIpMessage::from_bytes(&bytes).is_none());
}

#[test]
fn test_doip_message_incomplete_payload() {
    let bytes = vec![
        0x02, 0xFD, 0x80, 0x01, 0x00, 0x00, 0x00, 0x05, // Says 5 bytes but only 2 follow
        0x01, 0x02,
    ];
    assert!(DoIpMessage::from_bytes(&bytes).is_none());
}

#[test]
fn doip_message_leaves_later_bytes_alone() {
    let mut bytes = DoIpMessage::new(PayloadType::AliveCheckRequest, vec![7]).to_bytes();
    bytes.extend_from_slice(&[1, 2, 3]);
    let parsed = DoIpMessage::from_bytes(&bytes).unwrap();
    assert_eq!(parsed.payload, vec![7]);
    assert_eq!(parsed.payload_type_enum(), Some(PayloadType::AliveCheckRequest));
}

#[test]
fn doip_message_long_payload() {
    let payload: Vec<u8> = (0..70_000u32).map(|i| (i % 251) as u8).collect();
    let bytes = DoIpMessage::new(PayloadType::DiagnosticMessage, payload.clone()).to_bytes();
    assert_eq!(bytes.len(), 70_008);
    assert_eq!(&bytes[4..8], &[0x00, 0x01, 0x11, 0x70]);
    assert_eq!(DoIpMessage::from_bytes(&bytes).unwrap().payload, payload);
}

#[test]
fn test_payload_type_from_u16() {
    assert_eq!(
        PayloadType::from_u16(0x0005),
        Some(PayloadType::RoutingActivationRequest)
    );
    assert_eq!(
        PayloadType::from_u16(0x8001),
        Some(PayloadType::DiagnosticMessage)
    );
    assert_eq!(PayloadType::from_u16(0xFFFF), None);
}

#[test]
fn payload_type_codes() {
    let codes = [
        (PayloadType::GenericHeaderNack, 0x0000),
        (PayloadType::VehicleIdentificationRequest, 0x0001),
        (PayloadType::VehicleIdentificationRequestWithEid, 0x0002),
        (PayloadType::VehicleIdentificationRequestWithVin, 0x0003),
        (PayloadType::VehicleAnnouncementIdentificationResponse, 0x0004),
        (PayloadType::RoutingActivationRequest, 0x0005),
        (PayloadType::RoutingActivationResponse, 0x0006),
        (PayloadType::AliveCheckRequest, 0x0007),
        (PayloadType::AliveCheckResponse, 0x0008),
        (PayloadType::DiagnosticMessage, 0x8001),
        (PayloadType::DiagnosticMessagePositiveAck, 0x8002),
        (PayloadType::DiagnosticMessageNegativeAck, 0x8003),
    ];
    for (payload_type, code) in codes {
        assert_eq!(payload_type.to_u16(), code);
        assert_eq!(PayloadType::from_u16(code), Some(payload_type));
    }
    let known = (0u16..=0xFFFF).filter(|c| PayloadType::from_u16(*c).is_some());
    assert_eq!(known.count(), codes.len());
}

#[test]
fn test_diagnostic_message_build_payload() {
    let payload = DiagnosticMessage::build_payload(0x0E80, 0x1000, &[0x22, 0xF1, 0x90]);
    assert_eq!(payload, vec![0x0E, 0x80, 0x10, 0x00, 0x22, 0xF1, 0x90]);
}

#[test]
fn diagnostic_message_build_and_parse() {
    let payload = DiagnosticMessage::build_payload(0x1234, 0xFEDC, &[]);
    let parsed = DiagnosticMessage::from_payload(&payload).unwrap();
    assert_eq!(parsed.source_address, 0x1234);
    assert_eq!(parsed.target_address, 0xFEDC);
    assert!(parsed.user_data.is_empty());
}

#[test]
fn test_diagnostic_message_too_short() {
    assert!(DiagnosticMessage::from_payload(&[0x0E, 0x80]).is_none());
}

#[test]
fn test_routing_activation_too_short() {
    assert!(RoutingActivationRequest::from_payload(&[0x0E, 0x80]).is_none());
}

#[test]
fn test_new_session_inactive() {
    let session = Session::new();
    assert!(!session.is_activated());
    assert_eq!(session.source_address(), None);
}

#[test]
fn test_session_activation_for_source() {
    let mut session = Session::new();
    session.activate(0x0E80);

    assert!(session.is_activated());
    assert!(session.is_activated_for(0x0E80));
    assert!(!session.is_activated_for(0x0E81));
}

#[test]
fn test_session_clear() {
    let mut session = Session::new();
    session.activate(0x0E80);
    session.clear();

    assert!(!session.is_activated());
    assert_eq!(session.source_address(), None);
}

#[test]
fn session_can_be_activated_again() {
    let mut session = Session::default();
    assert!(!session.is_activated_for(0));
    session.activate(1);
    session.activate(2);
    assert!(!session.is_activated_for(1));
    assert_eq!(session.source_address(), Some(2));
}

#[test]
fn test_parse_uds_message() {
    let bytes = vec![service_ids::READ_DATA_BY_IDENTIFIER, 0xF1, 0x90];
    let msg = UdsMessage::from_bytes(&bytes).expect("failed to parse valid UDS message");
    assert_eq!(msg.service_id, service_ids::READ_DATA_BY_IDENTIFIER);
    assert_eq!(msg.data, vec![0xF1, 0x90]);
}

#[test]
fn test_negative_response() {
    let msg = UdsMessage {
        service_id: service_ids::READ_DATA_BY_IDENTIFIER,
        data: vec![],
    };
    let response = msg.build_negative_response(Nrc::RequestOutOfRange);
    assert_eq!(response, vec![0x7F, 0x22, 0x31]);
}

#[test]
fn test_parse_empty_message() {
    assert!(UdsMessage::from_bytes(&[]).is_err());
}

#[test]
fn empty_message_is_too_short() {
    let error = UdsMessage::from_bytes(&[]).unwrap_err();
    assert!(matches!(
        error,
        ProxyError::Uds(UdsError::InvalidLength {
            expected: 1,
            actual: 0
        })
    ));
}

#[test]
fn test_unknown_service_kept_for_dispatch() {
    let msg = UdsMessage::from_bytes(&[0xFF]).expect("failed to parse single-byte UDS message");
    assert_eq!(msg.service_id, 0xFF);
    assert!(msg.data.is_empty());
}

#[test]
fn test_write_service_negative_response() {
    let msg = UdsMessage {
        service_id: service_ids::WRITE_DATA_BY_IDENTIFIER,
        data: vec![],
    };
    let response = msg.build_negative_response(Nrc::IncorrectMessageLengthOrInvalidFormat);
    assert_eq!(response, vec![0x7F, 0x2E, 0x13]);
}

#[test]
fn uds_message_did() {
    let msg = UdsMessage::from_bytes(&[0x22, 0xF1, 0x90, 0x01]).unwrap();
    assert_eq!(msg.extract_did(), Some(0xF190));
    let msg = UdsMessage::from_bytes(&[0x22, 0xF1]).unwrap();
    assert_eq!(msg.extract_did(), None);
}

#[test]
fn test_invalid_doip_header_detection() {
    let mut raw = vec![0x03, 0xFC, 0x80, 0x01, 0x00, 0x00, 0x00, 0x00];
    assert!(has_invalid_doip_header(&raw));

    if let Some(version) = raw.get_mut(0) {
        *version = DOIP_PROTOCOL_VERSION;
    }
    if let Some(inverse) = raw.get_mut(1) {
        *inverse = !DOIP_PROTOCOL_VERSION;
    }
    assert!(!has_invalid_doip_header(&raw));
}

#[test]
fn short_buffer_has_no_invalid_header() {
    assert!(!has_invalid_doip_header(&[9, 9, 9, 9, 9, 9, 9]));
    assert!(has_invalid_doip_header(&[2, 2, 0, 0, 0, 0, 0, 0]));
}

fn connection() -> ConnectionHandler {
    let mut config = Config::default();
    config.server.source_address = 0x0E00;
    config.ecu.logical_address = 0x1000;
    ConnectionHandler::new(&config)
}

fn activation(tester: u16) -> DoIpMessage {
    let mut payload = tester.to_be_bytes().to_vec();
    payload.extend_from_slice(&[0, 0, 0, 0, 0]);
    DoIpMessage::new(PayloadType::RoutingActivationRequest, payload)
}

fn diagnostic(tester: u16, target: u16, data: &[u8]) -> DoIpMessage {
    DoIpMessage::new(
        PayloadType::DiagnosticMessage,
        DiagnosticMessage::build_payload(tester, target, data),
    )
}

fn payloads(messages: &[DoIpMessage]) -> Vec<Vec<u8>> {
    messages.iter().map(|m| m.payload.clone()).collect()
}

#[test]
fn messages_come_out_of_one_read() {
    let mut connection = connection();
    let mut bytes = Vec::new();
    for i in 0u8..5 {
        bytes.extend(DoIpMessage::new(PayloadType::AliveCheckRequest, vec![i; i as usize]).to_bytes());
    }
    let messages = connection.receive(&bytes);
    assert_eq!(
        payloads(&messages),
        vec![vec![], vec![1], vec![2, 2], vec![3, 3, 3], vec![4, 4, 4, 4]]
    );
    assert!(messages.iter().all(|m| m.protocol_version == 2 && m.payload_type == 7));
    assert!(connection.receive(&[]).is_empty());
}

#[test]
fn messages_come_out_however_they_are_cut() {
    let mut bytes = Vec::new();
    for i in 0u8..3 {
        bytes.extend(DoIpMessage::new(PayloadType::AliveCheckRequest, vec![i; 3]).to_bytes());
    }
    for cut in 0..=bytes.len() {
        let mut connection = connection();
        let mut messages = connection.receive(&bytes[..cut]);
        messages.extend(connection.receive(&bytes[cut..]));
        assert_eq!(
            payloads(&messages),
            vec![vec![0; 3], vec![1; 3], vec![2; 3]]
        );
    }
}

/// Serves reads with a backend and gives back what was written.
fn served(reads: &[&[u8]]) -> Vec<u8> {
    let mut connection = connection();
    let mut written = Vec::new();
    for chunk in reads {
        for message in connection.receive(chunk) {
            match connection.process_message(&message) {
                MessageAction::Ignore => {}
                MessageAction::Reply(reply) => written.extend(reply.to_bytes()),
                MessageAction::Request { tester, plan } => {
                    let outcome = match &plan {
                        UdsPlan::Respond(_) => Ok(Vec::new()),
                        UdsPlan::Read { did, request } => Echo.handle_read_did(*did, request),
                        UdsPlan::Write { did, request } => Echo.handle_write_did(*did, request),
                    };
                    let response = plan.complete(outcome);
                    if let Some(reply) = connection.response_message(tester, &response) {
                        written.extend(reply.to_bytes());
                    }
                }
            }
        }
    }
    written
}

#[test]
fn replies_are_the_same_however_reads_are_cut() {
    let mut bytes = vec![0xFF, 0x00, 0x11];
    bytes.extend(activation(0x0E80).to_bytes());
    bytes.extend(diagnostic(0x0E80, 0x1000, &[0x22, 0xF1, 0x90]).to_bytes());
    bytes.extend(diagnostic(0x0E81, 0x1000, &[0x22, 0xF1, 0x90]).to_bytes());
    bytes.extend(diagnostic(0x0E80, 0x1000, &[0x2E, 0xF1, 0x90, 7]).to_bytes());
    bytes.extend(diagnostic(0x0E80, 0x1000, &[0x22, 0, 0]).to_bytes());
    let whole = served(&[&bytes]);
    assert_eq!(whole.len(), 13 + 15 + 15 + 15);
    for size in 1..bytes.len() {
        let reads: Vec<&[u8]> = bytes.chunks(size).collect();
        assert_eq!(served(&reads), whole, "reads of {size} bytes");
    }
    let mut uneven: Vec<&[u8]> = vec![&[]];
    let mut rest = bytes.as_slice();
    let mut size = 1;
    while !rest.is_empty() {
        let (read, later) = rest.split_at(size.min(rest.len()));
        uneven.push(read);
        rest = later;
        size = size * 2 % 11 + 1;
    }
    assert_eq!(served(&uneven), whole);
}

#[test]
fn garbage_is_skipped() {
    let mut connection = connection();
    let mut bytes = vec![0xFF, 0x02, 0xFD];
    bytes.extend(DoIpMessage::new(PayloadType::AliveCheckRequest, vec![5]).to_bytes());
    let messages = connection.receive(&bytes);
    // The first three bytes look like a header only from the second byte on, and that
    // header declares more payload than there is.
    assert!(messages.is_empty());

    let mut fresh = self::connection();
    let mut bytes = vec![0xFF, 0x01, 0x00];
    bytes.extend(DoIpMessage::new(PayloadType::AliveCheckRequest, vec![5]).to_bytes());
    assert_eq!(payloads(&fresh.receive(&bytes)), vec![vec![5]]);
}

#[test]
fn frames_per_read_are_capped() {
    let mut connection = connection();
    let one = DoIpMessage::new(PayloadType::AliveCheckRequest, vec![]).to_bytes();
    let mut bytes = Vec::new();
    for _ in 0..MAX_FRAMES_PER_READ + 3 {
        bytes.extend_from_slice(&one);
    }
    assert_eq!(connection.receive(&bytes).len(), MAX_FRAMES_PER_READ);
    assert_eq!(connection.receive(&[]).len(), 3);
}

#[test]
fn buffer_is_cleared_when_it_grows_too_large() {
    let mut connection = connection();
    // A header that declares more than will be kept.
    let mut bytes = vec![0x02, 0xFD, 0x80, 0x01, 0x00, 0x10, 0x00, 0x00];
    bytes.resize(MAX_STAGED_BUFFER_BYTES, 0);
    assert!(connection.receive(&bytes).is_empty());
    // Up to the limit everything is kept, one byte more and all is dropped.
    assert!(connection.receive(&[0]).is_empty());
    let next = DoIpMessage::new(PayloadType::AliveCheckRequest, vec![1]).to_bytes();
    assert_eq!(payloads(&connection.receive(&next)), vec![vec![1]]);
}

#[test]
fn routing_activation_is_answered() {
    let mut connection = connection();
    match connection.process_message(&activation(0x0E80)) {
        MessageAction::Reply(reply) => {
            assert_eq!(reply.payload_type, 0x0006);
            assert_eq!(reply.payload, vec![0x0E, 0x80, 0x10, 0x00, 0x10]);
        }
        other => panic!("unexpected {other:?}"),
    }
    let short = DoIpMessage::new(PayloadType::RoutingActivationRequest, vec![0; 6]);
    assert!(matches!(
        connection.process_message(&short),
        MessageAction::Ignore
    ));
}

#[test]
fn diagnostic_messages_need_activation() {
    let mut connection = connection();
    let request = diagnostic(0x0E80, 0x1000, &[0x22, 0xF1, 0x90]);
    assert!(matches!(
        connection.process_message(&request),
        MessageAction::Ignore
    ));
    connection.process_message(&activation(0x0E80));
    match connection.process_message(&request) {
        MessageAction::Request { tester, plan } => {
            assert_eq!(tester, 0x0E80);
            assert!(matches!(plan, UdsPlan::Read { did: 0xF190, .. }));
        }
        other => panic!("unexpected {other:?}"),
    }
    // Another target, another source, too short.
    for ignored in [
        diagnostic(0x0E80, 0x1001, &[0x22, 0xF1, 0x90]),
        diagnostic(0x0E81, 0x1000, &[0x22, 0xF1, 0x90]),
        DoIpMessage::new(PayloadType::DiagnosticMessage, vec![0x0E, 0x80, 0x10]),
        DoIpMessage::new(PayloadType::AliveCheckRequest, vec![]),
    ] {
        assert!(matches!(
            connection.process_message(&ignored),
            MessageAction::Ignore
        ));
    }
    // A later activation takes the place of the earlier one.
    connection.process_message(&activation(0x0E81));
    assert!(matches!(
        connection.process_message(&request),
        MessageAction::Ignore
    ));
}

#[test]
fn unknown_payload_types_are_ignored() {
    let mut connection = connection();
    let message = DoIpMessage {
        protocol_version: 2,
        payload_type: 0x4001,
        payload: vec![1, 2, 3],
    };
    assert!(matches!(
        connection.process_message(&message),
        MessageAction::Ignore
    ));
}

#[test]
fn uds_requests_are_planned() {
    let respond = |data: &[u8]| match plan_uds_request(data) {
        UdsPlan::Respond(bytes) => bytes,
        other => panic!("unexpected {other:?}"),
    };
    assert_eq!(respond(&[]), vec![0x7F, 0x00, 0x13]);
    assert_eq!(respond(&[0x22, 0xF1]), vec![0x7F, 0x00, 0x13]);
    assert_eq!(respond(&[0x2E, 0xF1, 0x90]), vec![0x7F, 0x2E, 0x13]);
    assert_eq!(respond(&[0x10, 0x01, 0x00]), vec![0x7F, 0x10, 0x11]);
    match plan_uds_request(&[0x22, 0xF1, 0x90, 0xAA, 0xBB]) {
        UdsPlan::Read { did, request } => {
            assert_eq!(did, 0xF190);
            assert_eq!(request, vec![0x22, 0xF1, 0x90, 0xAA, 0xBB]);
        }
        other => panic!("unexpected {other:?}"),
    }
    match plan_uds_request(&[0x2E, 0xF1, 0x90, 0xAA, 0xBB]) {
        UdsPlan::Write { did, request } => {
            assert_eq!(did, 0xF190);
            assert_eq!(request, vec![0x2E, 0xF1, 0x90, 0xAA, 0xBB]);
        }
        other => panic!("unexpected {other:?}"),
    }
}

#[test]
fn backend_errors_become_negative_responses() {
    let read = plan_uds_request(&[0x22, 0xF1, 0x90]);
    assert_eq!(read.complete(Err(ProxyError::Timeout)), vec![0x7F, 0x22, 0x31]);
    let write = plan_uds_request(&[0x2E, 0xF1, 0x90, 0x01]);
    assert_eq!(write.complete(Err(ProxyError::Timeout)), vec![0x7F, 0x2E, 0x72]);
    let read = plan_uds_request(&[0x22, 0xF1, 0x90]);
    assert_eq!(read.complete(Ok(vec![0x62, 0xF1, 0x90, 7])), vec![0x62, 0xF1, 0x90, 7]);
}

struct Echo;

impl DiagHandler for Echo {
    fn handle_read_did(&self, did: u16, uds_request: &[u8]) -> Result<Vec<u8>> {
        if did == 0 {
            return Err(ProxyError::Uds(UdsError::InvalidDid(did)));
        }
        let mut response = uds_request.to_vec();
        response[0] += 0x40;
        Ok(response)
    }

    fn handle_write_did(&self, _did: u16, uds_request: &[u8]) -> Result<Vec<u8>> {
        let mut response = uds_request[..3].to_vec();
        response[0] += 0x40;
        Ok(response)
    }
}

#[test]
fn requests_go_through_a_backend() {
    let connection = connection();
    let answer = |data: &[u8]| connection.process_uds_request(&Echo, data);
    assert_eq!(answer(&[0x22, 0xF1, 0x90, 9]), vec![0x62, 0xF1, 0x90, 9]);
    assert_eq!(answer(&[0x22, 0, 0]), vec![0x7F, 0x22, 0x31]);
    assert_eq!(answer(&[0x2E, 0xF1, 0x90, 9]), vec![0x6E, 0xF1, 0x90]);
    assert_eq!(answer(&[0x3E, 0, 0]), vec![0x7F, 0x3E, 0x11]);
    assert_eq!(answer(&[]), vec![0x7F, 0x00, 0x13]);
}

#[test]
fn responses_go_back_to_the_tester() {
    let connection = connection();
    let message = connection
        .response_message(0x0E80, &[0x62, 0xF1, 0x90, 0x01])
        .unwrap();
    assert_eq!(
        message.to_bytes(),
        vec![
            0x02, 0xFD, 0x80, 0x01, 0, 0, 0, 8, 0x0E, 0x00, 0x0E, 0x80, 0x62, 0xF1, 0x90, 0x01
        ]
    );
    assert!(connection.response_message(0x0E80, &[]).is_none());
}

#[test]
fn connections_are_limited() {
    let mut config = Config::default();
    config.server.max_connections = 2;
    let mut server = DoIpServer::new(&config);
    assert_eq!(server.active(), 0);
    assert_eq!(server.accept(), Some(1));
    assert_eq!(server.accept(), Some(2));
    // A refused connection takes no place.
    assert_eq!(server.accept(), None);
    assert_eq!(server.accept(), None);
    assert_eq!(server.active(), 2);
    // An end frees exactly one.
    server.release();
    assert_eq!(server.active(), 1);
    assert_eq!(server.accept(), Some(2));
    assert_eq!(server.accept(), None);
}

#[test]
fn no_connection_is_accepted_without_places() {
    let mut config = Config::default();
    config.server.max_connections = 0;
    assert_eq!(DoIpServer::new(&config).accept(), None);
}

#[test]
fn server_address() {
    let mut config = Config::default();
    config.server.bind_address = "127.0.0.1".to_owned();
    assert_eq!(DoIpServer::new(&config).listen_address(), "127.0.0.1:13400");
}
