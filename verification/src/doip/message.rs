//! DoIP messages and the payloads the proxy understands.

use crate::doip::wire::{
    be16, be16_bytes, be32, be32_bytes, buffer_to_vec, buffer_with_capacity, copy_bytes, high_byte,
    join_be16, join_be32, low_byte, put_slice, put_u16, put_u32, put_u8,
};
use vstd::prelude::*;

verus! {

/// DoIP protocol version per ISO 13400-2.
pub const DOIP_PROTOCOL_VERSION: u8 = 0x02;

/// DoIP header size in bytes: version (1) + inverse (1) + type (2) + length (4).
pub const DOIP_HEADER_SIZE: usize = 8;

/// Minimum routing activation request payload: source address (2) + type (1) + reserved (4).
pub const ROUTING_ACTIVATION_REQUEST_MIN_LEN: usize = 7;

/// Diagnostic message header size: source address (2) + target address (2).
pub const DIAGNOSTIC_MESSAGE_HEADER_SIZE: usize = 4;

/// DoIP payload types defined in ISO 13400-2.
#[derive(Debug, Clone, Copy, PartialEq, Eq, Structural)]
pub enum PayloadType {
    /// Generic DoIP header negative acknowledge
    GenericHeaderNack,
    /// Vehicle identification request
    VehicleIdentificationRequest,
    /// Vehicle identification request with EID
    VehicleIdentificationRequestWithEid,
    /// Vehicle identification request with VIN
    VehicleIdentificationRequestWithVin,
    /// Vehicle announcement/identification response
    VehicleAnnouncementIdentificationResponse,
    /// Routing activation request
    RoutingActivationRequest,
    /// Routing activation response
    RoutingActivationResponse,
    /// Alive check request
    AliveCheckRequest,
    /// Alive check response
    AliveCheckResponse,
    /// Diagnostic message
    DiagnosticMessage,
    /// Diagnostic message positive acknowledgement
    DiagnosticMessagePositiveAck,
    /// Diagnostic message negative acknowledgement
    DiagnosticMessageNegativeAck,
}

impl PayloadType {
    /// The 16-bit code that stands for this payload type on the wire.
    pub open spec fn wire_code(self) -> u16 {
        match self {
            PayloadType::GenericHeaderNack => 0x0000,
            PayloadType::VehicleIdentificationRequest => 0x0001,
            PayloadType::VehicleIdentificationRequestWithEid => 0x0002,
            PayloadType::VehicleIdentificationRequestWithVin => 0x0003,
            PayloadType::VehicleAnnouncementIdentificationResponse => 0x0004,
            PayloadType::RoutingActivationRequest => 0x0005,
            PayloadType::RoutingActivationResponse => 0x0006,
            PayloadType::AliveCheckRequest => 0x0007,
            PayloadType::AliveCheckResponse => 0x0008,
            PayloadType::DiagnosticMessage => 0x8001,
            PayloadType::DiagnosticMessagePositiveAck => 0x8002,
            PayloadType::DiagnosticMessageNegativeAck => 0x8003,
        }
    }

    /// The 16-bit code that stands for this payload type on the wire.
    pub fn to_u16(self) -> (code: u16)
        ensures
            code == self.wire_code(),
    {
        match self {
            PayloadType::GenericHeaderNack => 0x0000,
            PayloadType::VehicleIdentificationRequest => 0x0001,
            PayloadType::VehicleIdentificationRequestWithEid => 0x0002,
            PayloadType::VehicleIdentificationRequestWithVin => 0x0003,
            PayloadType::VehicleAnnouncementIdentificationResponse => 0x0004,
            PayloadType::RoutingActivationRequest => 0x0005,
            PayloadType::RoutingActivationResponse => 0x0006,
            PayloadType::AliveCheckRequest => 0x0007,
            PayloadType::AliveCheckResponse => 0x0008,
            PayloadType::DiagnosticMessage => 0x8001,
            PayloadType::DiagnosticMessagePositiveAck => 0x8002,
            PayloadType::DiagnosticMessageNegativeAck => 0x8003,
        }
    }

    /// Convert a raw `u16` wire value to a [`PayloadType`].
    ///
    /// Returns `None` for unknown payload type codes.
    pub fn from_u16(value: u16) -> (payload_type: Option<Self>)
        ensures
            match payload_type {
                Some(t) => t.wire_code() == value,
                None => forall|t: PayloadType| (#[trigger] t.wire_code()) != value,
            },
    {
        match value {
            0x0000 => Some(PayloadType::GenericHeaderNack),
            0x0001 => Some(PayloadType::VehicleIdentificationRequest),
            0x0002 => Some(PayloadType::VehicleIdentificationRequestWithEid),
            0x0003 => Some(PayloadType::VehicleIdentificationRequestWithVin),
            0x0004 => Some(PayloadType::VehicleAnnouncementIdentificationResponse),
            0x0005 => Some(PayloadType::RoutingActivationRequest),
            0x0006 => Some(PayloadType::RoutingActivationResponse),
            0x0007 => Some(PayloadType::AliveCheckRequest),
            0x0008 => Some(PayloadType::AliveCheckResponse),
            0x8001 => Some(PayloadType::DiagnosticMessage),
            0x8002 => Some(PayloadType::DiagnosticMessagePositiveAck),
            0x8003 => Some(PayloadType::DiagnosticMessageNegativeAck),
            _ => None,
        }
    }
}

/// No two payload types share a wire code.
pub proof fn lemma_wire_codes_distinct(a: PayloadType, b: PayloadType)
    ensures
        a.wire_code() == b.wire_code() ==> a == b,
{
}

/// The wire form of a message: version, inverted version, payload type,
/// payload length and payload. The length field holds the low 32 bits of the
/// payload's length.
pub open spec fn frame_bytes(version: u8, payload_type: u16, payload: Seq<u8>) -> Seq<u8> {
    seq![version, !version] + be16_bytes(payload_type) + be32_bytes(
        (payload.len() % 0x1_0000_0000) as u32,
    ) + payload
}

/// `data` is long enough to hold a header.
pub open spec fn has_header(data: Seq<u8>) -> bool {
    data.len() >= DOIP_HEADER_SIZE
}

/// The first two bytes are the protocol version and its inverse.
pub open spec fn has_version_bytes(data: Seq<u8>) -> bool {
    data[0] == DOIP_PROTOCOL_VERSION && data[1] == !DOIP_PROTOCOL_VERSION
}

/// The payload length that the header declares.
pub open spec fn declared_len(data: Seq<u8>) -> int {
    be32(data.subrange(4, 8)) as int
}

/// `data` starts with a valid header whose whole payload follows.
pub open spec fn has_frame(data: Seq<u8>) -> bool {
    has_header(data) && has_version_bytes(data) && DOIP_HEADER_SIZE + declared_len(data)
        <= data.len()
}

/// The payload type code of the message that `data` starts with.
pub open spec fn frame_type(data: Seq<u8>) -> u16 {
    be16(data.subrange(2, 4))
}

/// The payload of the message that `data` starts with.
pub open spec fn frame_payload(data: Seq<u8>) -> Seq<u8> {
    data.subrange(DOIP_HEADER_SIZE as int, DOIP_HEADER_SIZE + declared_len(data))
}

/// DoIP message consisting of a header and variable-length payload.
///
/// The header contains the protocol version, inverse version byte,
/// 16-bit payload type, and 32-bit payload length per ISO 13400-2.
#[derive(Debug, Clone)]
pub struct DoIpMessage {
    /// Protocol version byte (typically [`DOIP_PROTOCOL_VERSION`]).
    pub protocol_version: u8,
    /// Raw 16-bit payload type code.
    pub payload_type: u16,
    /// Variable-length payload bytes.
    pub payload: Vec<u8>,
}

impl DoIpMessage {
    /// The message is of the protocol version, with this type and payload.
    pub open spec fn carries(&self, payload_type: u16, payload: Seq<u8>) -> bool {
        &&& self.protocol_version == DOIP_PROTOCOL_VERSION
        &&& self.payload_type == payload_type
        &&& self.payload@ == payload
    }

    /// Create a new DoIP message with the given payload type and data.
    pub fn new(payload_type: PayloadType, payload: Vec<u8>) -> (message: Self)
        ensures
            message.carries(payload_type.wire_code(), payload@),
    {
        DoIpMessage {
            protocol_version: DOIP_PROTOCOL_VERSION,
            payload_type: payload_type.to_u16(),
            payload,
        }
    }

    /// Parse a DoIP message from a byte buffer.
    ///
    /// Returns `None` if the buffer is too short, the protocol version is invalid,
    /// or the declared payload length exceeds the available data. Bytes after
    /// the declared payload are left alone.
    pub fn from_bytes(data: &[u8]) -> (message: Option<Self>)
        ensures
            message is Some <==> has_frame(data@),
            message matches Some(m) ==> m.carries(frame_type(data@), frame_payload(data@)),
    {
        if data.len() < DOIP_HEADER_SIZE {
            return None;
        }
        let protocol_version = data[0];
        let inverse_protocol_version = data[1];
        if protocol_version != DOIP_PROTOCOL_VERSION {
            return None;
        }
        if inverse_protocol_version != !protocol_version {
            return None;
        }
        let payload_type: u16 = join_be16(data[2], data[3]);
        let payload_length: u32 = join_be32(data[4], data[5], data[6], data[7]);
        proof {
            assert(data@.subrange(2, 4) =~= seq![data@[2], data@[3]]);
            assert(data@.subrange(4, 8) =~= seq![data@[4], data@[5], data@[6], data@[7]]);
        }
        if payload_length as u64 > (data.len() - DOIP_HEADER_SIZE) as u64 {
            return None;
        }
        let end: usize = DOIP_HEADER_SIZE + payload_length as usize;
        let payload = copy_bytes(data, DOIP_HEADER_SIZE, end);
        Some(DoIpMessage { protocol_version, payload_type, payload })
    }

    /// Serialize this message to wire-format bytes.
    pub fn to_bytes(&self) -> (bytes: Vec<u8>)
        requires
            self.payload@.len() + DOIP_HEADER_SIZE <= isize::MAX,
        ensures
            bytes@ == frame_bytes(self.protocol_version, self.payload_type, self.payload@),
    {
        let mut buf = buffer_with_capacity(DOIP_HEADER_SIZE + self.payload.len());
        put_u8(&mut buf, self.protocol_version);
        put_u8(&mut buf, !self.protocol_version);
        put_u16(&mut buf, self.payload_type);
        put_u32(&mut buf, (self.payload.len() as u64 % 0x1_0000_0000) as u32);
        put_slice(&mut buf, self.payload.as_slice());
        buffer_to_vec(&buf)
    }

    /// Get the typed [`PayloadType`] enum for this message.
    pub fn payload_type_enum(&self) -> (payload_type: Option<PayloadType>)
        ensures
            match payload_type {
                Some(t) => t.wire_code() == self.payload_type,
                None => forall|t: PayloadType| (#[trigger] t.wire_code()) != self.payload_type,
            },
    {
        PayloadType::from_u16(self.payload_type)
    }
}

/// A serialised message parses back to its type and payload, whatever bytes
/// follow it, and takes up exactly the bytes it was serialised to.
pub proof fn lemma_frame_round_trip(payload_type: u16, payload: Seq<u8>, rest: Seq<u8>)
    requires
        payload.len() <= u32::MAX,
    ensures
        ({
            let data = frame_bytes(DOIP_PROTOCOL_VERSION, payload_type, payload) + rest;
            &&& has_frame(data)
            &&& frame_type(data) == payload_type
            &&& frame_payload(data) == payload
            &&& data.skip(DOIP_HEADER_SIZE + declared_len(data)) == rest
        }),
{
    let bytes = frame_bytes(DOIP_PROTOCOL_VERSION, payload_type, payload);
    let data = bytes + rest;
    let len = (payload.len() % 0x1_0000_0000) as u32;
    assert(data.subrange(2, 4) =~= be16_bytes(payload_type));
    assert(data.subrange(4, 8) =~= be32_bytes(len));
    crate::doip::wire::lemma_be16_round_trip(payload_type);
    crate::doip::wire::lemma_be32_round_trip(len);
    assert(frame_payload(data) =~= payload);
    assert(data.skip(DOIP_HEADER_SIZE + declared_len(data)) =~= rest);
}

/// Parsed routing activation request (ISO 13400-2 Table 18).
#[derive(Debug)]
pub struct RoutingActivationRequest {
    /// Source address of the external test equipment.
    pub source_address: u16,
    /// Routing activation type (default / diagnostic / central security).
    pub activation_type: u8,
    /// Reserved bytes specified by ISO (OEM-specific use).
    pub reserved: u32,
}

impl RoutingActivationRequest {
    /// Parse a routing activation request from a DoIP payload.
    ///
    /// Returns `None` if the payload is shorter than the minimum 7 bytes.
    pub fn from_payload(payload: &[u8]) -> (request: Option<Self>)
        ensures
            request is Some <==> payload@.len() >= ROUTING_ACTIVATION_REQUEST_MIN_LEN,
            request matches Some(r) ==> {
                &&& r.source_address == be16(payload@.subrange(0, 2))
                &&& r.activation_type == payload@[2]
                &&& r.reserved == be32(payload@.subrange(3, 7))
            },
    {
        if payload.len() < ROUTING_ACTIVATION_REQUEST_MIN_LEN {
            return None;
        }
        proof {
            assert(payload@.subrange(0, 2) =~= seq![payload@[0], payload@[1]]);
            assert(payload@.subrange(3, 7) =~= seq![
                payload@[3],
                payload@[4],
                payload@[5],
                payload@[6],
            ]);
        }
        Some(
            RoutingActivationRequest {
                source_address: join_be16(payload[0], payload[1]),
                activation_type: payload[2],
                reserved: join_be32(payload[3], payload[4], payload[5], payload[6]),
            },
        )
    }
}

/// The payload of a diagnostic message: both addresses, then the UDS data.
pub open spec fn diagnostic_payload(
    source_address: u16,
    target_address: u16,
    user_data: Seq<u8>,
) -> Seq<u8> {
    be16_bytes(source_address) + be16_bytes(target_address) + user_data
}

/// Parsed diagnostic message (ISO 13400-2 Table 21).
#[derive(Debug)]
pub struct DiagnosticMessage {
    /// Source address of the sending entity.
    pub source_address: u16,
    /// Target address of the receiving entity.
    pub target_address: u16,
    /// UDS user data (service bytes).
    pub user_data: Vec<u8>,
}

impl DiagnosticMessage {
    /// Parse a diagnostic message from a DoIP payload.
    ///
    /// Returns `None` if the payload is shorter than the minimum 4 bytes.
    pub fn from_payload(payload: &[u8]) -> (message: Option<Self>)
        ensures
            message is Some <==> payload@.len() >= DIAGNOSTIC_MESSAGE_HEADER_SIZE,
            message matches Some(m) ==> {
                &&& m.source_address == be16(payload@.subrange(0, 2))
                &&& m.target_address == be16(payload@.subrange(2, 4))
                &&& m.user_data@ == payload@.skip(DIAGNOSTIC_MESSAGE_HEADER_SIZE as int)
            },
    {
        if payload.len() < DIAGNOSTIC_MESSAGE_HEADER_SIZE {
            return None;
        }
        proof {
            assert(payload@.subrange(0, 2) =~= seq![payload@[0], payload@[1]]);
            assert(payload@.subrange(2, 4) =~= seq![payload@[2], payload@[3]]);
        }
        let user_data = copy_bytes(payload, DIAGNOSTIC_MESSAGE_HEADER_SIZE, payload.len());
        Some(
            DiagnosticMessage {
                source_address: join_be16(payload[0], payload[1]),
                target_address: join_be16(payload[2], payload[3]),
                user_data,
            },
        )
    }

    /// Build a raw diagnostic message payload from addresses and UDS data.
    pub fn build_payload(source_address: u16, target_address: u16, user_data: &[u8]) -> (payload:
        Vec<u8>)
        ensures
            payload@ == diagnostic_payload(source_address, target_address, user_data@),
    {
        let mut payload: Vec<u8> = Vec::new();
        payload.push(high_byte(source_address));
        payload.push(low_byte(source_address));
        payload.push(high_byte(target_address));
        payload.push(low_byte(target_address));
        payload.extend_from_slice(user_data);
        payload
    }
}

/// A diagnostic payload that was built from addresses and data parses back to
/// those addresses and that data.
pub proof fn lemma_diagnostic_payload_round_trip(
    source_address: u16,
    target_address: u16,
    user_data: Seq<u8>,
)
    ensures
        ({
            let payload = diagnostic_payload(source_address, target_address, user_data);
            &&& payload.len() >= DIAGNOSTIC_MESSAGE_HEADER_SIZE
            &&& be16(payload.subrange(0, 2)) == source_address
            &&& be16(payload.subrange(2, 4)) == target_address
            &&& payload.skip(DIAGNOSTIC_MESSAGE_HEADER_SIZE as int) == user_data
        }),
{
    let payload = diagnostic_payload(source_address, target_address, user_data);
    assert(payload.subrange(0, 2) =~= be16_bytes(source_address));
    assert(payload.subrange(2, 4) =~= be16_bytes(target_address));
    crate::doip::wire::lemma_be16_round_trip(source_address);
    crate::doip::wire::lemma_be16_round_trip(target_address);
    assert(payload.skip(DIAGNOSTIC_MESSAGE_HEADER_SIZE as int) =~= user_data);
}

} // verus!
