//! Errors of the proxy and UDS negative response codes.

use crate::number::{
    decimal_text, digit_of, digits_value, hex_text, is_digit, law_digits_value, law_hex_text,
    to_decimal, to_hex,
};
use crate::text::concat;
use vstd::arithmetic::power::{lemma_pow1, lemma_pow_adds, lemma_pow_increases, pow};
use vstd::prelude::*;

verus! {

/// `std::io::Error`, carried through as it is.
#[verifier::external_type_specification]
#[verifier::external_body]
pub struct ExIoError(std::io::Error);

/// `serde_json::Error`, carried through as it is.
#[verifier::external_type_specification]
#[verifier::external_body]
pub struct ExJsonError(serde_json::Error);

/// `to_string` on a `std::io::Error`. The text comes from the operating system
/// or from whoever made the error, so nothing is claimed of it.
#[verifier::external_body]
fn io_error_text(error: &std::io::Error) -> (text: String) {
    error.to_string()
}

/// `to_string` on a `serde_json::Error`. The error is opaque here, so nothing
/// is claimed of its text.
#[verifier::external_body]
fn json_error_text(error: &serde_json::Error) -> (text: String) {
    error.to_string()
}

/// `text` is what an I/O error can say of itself: what [`io_error_text`] can
/// give for it.
pub closed spec fn io_may_say(error: std::io::Error, text: String) -> bool {
    call_ensures(io_error_text, (&error,), text)
}

/// `text` is what a JSON error can say of itself: what [`json_error_text`] can
/// give for it.
pub closed spec fn json_may_say(error: serde_json::Error, text: String) -> bool {
    call_ensures(json_error_text, (&error,), text)
}

/// Top-level error type for the UDS-to-SOVD proxy.
///
/// Covers DoIP transport errors, UDS protocol errors, SOVD communication
/// failures, configuration issues, and MDD database problems.
#[derive(Debug)]
pub enum ProxyError {
    /// DoIP protocol error
    DoIp(String),
    /// UDS service error
    Uds(UdsError),
    /// SOVD communication error
    Sovd(SovdError),
    /// Configuration error
    Config(String),
    /// I/O error
    Io(std::io::Error),
    /// Invalid request
    InvalidRequest(String),
    /// Timeout waiting for response
    Timeout,
    /// Internal error
    Internal(String),
    /// MDD database error
    Mdd(String),
}

/// UDS protocol errors (ISO 14229).
#[derive(Debug)]
pub enum UdsError {
    /// Invalid service ID
    InvalidServiceId(u8),
    /// Invalid DID
    InvalidDid(u16),
    /// Invalid message length
    InvalidLength { expected: usize, actual: usize },
    /// Negative response
    NegativeResponse { nrc: u8, description: String },
    /// Unsupported service
    UnsupportedService(u8),
}

/// SOVD gateway communication errors.
#[derive(Debug)]
pub enum SovdError {
    /// HTTP error
    Http(String),
    /// Authentication failed
    Auth(String),
    /// Component not found
    ComponentNotFound(String),
    /// Data identifier not found
    DataIdNotFound(String),
    /// JSON parsing error
    Json(serde_json::Error),
    /// Schema mismatch
    SchemaMismatch(String),
}

/// Convenience result type using [`ProxyError`].
pub type Result<T> = std::result::Result<T, ProxyError>;

impl From<UdsError> for ProxyError {
    fn from(error: UdsError) -> (result: Self) {
        ProxyError::Uds(error)
    }
}

impl vstd::std_specs::convert::FromSpecImpl<UdsError> for ProxyError {
    open spec fn obeys_from_spec() -> bool {
        true
    }

    open spec fn from_spec(error: UdsError) -> Self {
        ProxyError::Uds(error)
    }
}

impl From<SovdError> for ProxyError {
    fn from(error: SovdError) -> (result: Self) {
        ProxyError::Sovd(error)
    }
}

impl vstd::std_specs::convert::FromSpecImpl<SovdError> for ProxyError {
    open spec fn obeys_from_spec() -> bool {
        true
    }

    open spec fn from_spec(error: SovdError) -> Self {
        ProxyError::Sovd(error)
    }
}

impl From<std::io::Error> for ProxyError {
    fn from(error: std::io::Error) -> (result: Self) {
        ProxyError::Io(error)
    }
}

impl vstd::std_specs::convert::FromSpecImpl<std::io::Error> for ProxyError {
    open spec fn obeys_from_spec() -> bool {
        true
    }

    open spec fn from_spec(error: std::io::Error) -> Self {
        ProxyError::Io(error)
    }
}

impl From<serde_json::Error> for SovdError {
    fn from(error: serde_json::Error) -> (result: Self) {
        SovdError::Json(error)
    }
}

impl vstd::std_specs::convert::FromSpecImpl<serde_json::Error> for SovdError {
    open spec fn obeys_from_spec() -> bool {
        true
    }

    open spec fn from_spec(error: serde_json::Error) -> Self {
        SovdError::Json(error)
    }
}

impl UdsError {
    /// The text of the error.
    pub open spec fn text(&self) -> Seq<char> {
        match self {
            UdsError::InvalidServiceId(id) => "Invalid service ID: 0x"@ + hex_text(*id as nat, 2),
            UdsError::InvalidDid(did) => "Invalid DID: 0x"@ + hex_text(*did as nat, 4),
            UdsError::InvalidLength { expected, actual } => "Invalid message length: expected "@
                + decimal_text(*expected as nat) + ", got "@ + decimal_text(*actual as nat),
            UdsError::NegativeResponse { nrc, description } => "Negative response: NRC 0x"@
                + hex_text(*nrc as nat, 2) + " ("@ + description@ + ")"@,
            UdsError::UnsupportedService(id) => "Unsupported service: 0x"@ + hex_text(
                *id as nat,
                2,
            ),
        }
    }

    /// The text of the error.
    pub fn to_string(&self) -> (text: String)
        ensures
            text@ == self.text(),
    {
        match self {
            UdsError::InvalidServiceId(id) => concat(
                "Invalid service ID: 0x",
                to_hex(*id as u64, 2).as_str(),
            ),
            UdsError::InvalidDid(did) => concat(
                "Invalid DID: 0x",
                to_hex(*did as u64, 4).as_str(),
            ),
            UdsError::InvalidLength { expected, actual } => {
                let mut text = concat(
                    "Invalid message length: expected ",
                    to_decimal(*expected as u64).as_str(),
                );
                text.append(", got ");
                text.append(to_decimal(*actual as u64).as_str());
                text
            },
            UdsError::NegativeResponse { nrc, description } => {
                let mut text = concat(
                    "Negative response: NRC 0x",
                    to_hex(*nrc as u64, 2).as_str(),
                );
                text.append(" (");
                text.append(description.as_str());
                text.append(")");
                text
            },
            UdsError::UnsupportedService(id) => concat(
                "Unsupported service: 0x",
                to_hex(*id as u64, 2).as_str(),
            ),
        }
    }
}

impl SovdError {
    /// What the text of the error starts with.
    pub open spec fn heading(&self) -> Seq<char> {
        match self {
            SovdError::Http(_) => "HTTP error: "@,
            SovdError::Auth(_) => "Authentication failed: "@,
            SovdError::ComponentNotFound(_) => "Component not found: "@,
            SovdError::DataIdNotFound(_) => "Data identifier not found: "@,
            SovdError::Json(_) => "JSON parsing error: "@,
            SovdError::SchemaMismatch(_) => "Schema mismatch: "@,
        }
    }

    /// `text` is a text of the error: the heading and the detail. The detail of
    /// a JSON error is the outside error's own text.
    pub open spec fn has_text(&self, text: Seq<char>) -> bool {
        match self {
            SovdError::Http(detail)
            | SovdError::Auth(detail)
            | SovdError::ComponentNotFound(detail)
            | SovdError::DataIdNotFound(detail)
            | SovdError::SchemaMismatch(detail) => text == self.heading() + detail@,
            SovdError::Json(error) => exists|detail: String| #[trigger]
                json_may_say(*error, detail) && text == self.heading() + detail@,
        }
    }

    /// The text of the error.
    pub fn to_string(&self) -> (text: String)
        ensures
            self.has_text(text@),
    {
        match self {
            SovdError::Http(detail) => concat("HTTP error: ", detail.as_str()),
            SovdError::Auth(detail) => concat("Authentication failed: ", detail.as_str()),
            SovdError::ComponentNotFound(detail) => concat(
                "Component not found: ",
                detail.as_str(),
            ),
            SovdError::DataIdNotFound(detail) => concat(
                "Data identifier not found: ",
                detail.as_str(),
            ),
            SovdError::Json(error) => {
                let detail = json_error_text(error);
                assert(json_may_say(*error, detail));
                concat("JSON parsing error: ", detail.as_str())
            },
            SovdError::SchemaMismatch(detail) => concat("Schema mismatch: ", detail.as_str()),
        }
    }
}

impl ProxyError {
    /// What the text of the error starts with.
    pub open spec fn heading(&self) -> Seq<char> {
        match self {
            ProxyError::DoIp(_) => "DoIP protocol error: "@,
            ProxyError::Uds(_) => "UDS service error: "@,
            ProxyError::Sovd(_) => "SOVD communication error: "@,
            ProxyError::Config(_) => "Configuration error: "@,
            ProxyError::Io(_) => "I/O error: "@,
            ProxyError::InvalidRequest(_) => "Invalid request: "@,
            ProxyError::Timeout => "Timeout waiting for response"@,
            ProxyError::Internal(_) => "Internal error: "@,
            ProxyError::Mdd(_) => "MDD database error: "@,
        }
    }

    /// `text` is a text of the error: the heading and the detail. The detail of
    /// an I/O error is the outside error's own text.
    pub open spec fn has_text(&self, text: Seq<char>) -> bool {
        match self {
            ProxyError::DoIp(detail)
            | ProxyError::Config(detail)
            | ProxyError::InvalidRequest(detail)
            | ProxyError::Internal(detail)
            | ProxyError::Mdd(detail) => text == self.heading() + detail@,
            ProxyError::Uds(error) => text == self.heading() + error.text(),
            ProxyError::Sovd(error) => self.heading().is_prefix_of(text) && error.has_text(
                text.skip(self.heading().len() as int),
            ),
            ProxyError::Io(error) => exists|detail: String| #[trigger]
                io_may_say(*error, detail) && text == self.heading() + detail@,
            ProxyError::Timeout => text == self.heading(),
        }
    }

    /// The text of the error.
    pub fn to_string(&self) -> (text: String)
        ensures
            self.has_text(text@),
    {
        match self {
            ProxyError::DoIp(detail) => concat("DoIP protocol error: ", detail.as_str()),
            ProxyError::Uds(error) => concat("UDS service error: ", error.to_string().as_str()),
            ProxyError::Sovd(error) => {
                let detail = error.to_string();
                let text = concat("SOVD communication error: ", detail.as_str());
                proof {
                    let n = "SOVD communication error: "@.len() as int;
                    assert("SOVD communication error: "@ =~= text@.subrange(0, n));
                    assert(text@.skip(n) =~= detail@);
                }
                text
            },
            ProxyError::Config(detail) => concat("Configuration error: ", detail.as_str()),
            ProxyError::Io(error) => {
                let detail = io_error_text(error);
                assert(io_may_say(*error, detail));
                concat("I/O error: ", detail.as_str())
            },
            ProxyError::InvalidRequest(detail) => concat("Invalid request: ", detail.as_str()),
            ProxyError::Timeout => "Timeout waiting for response".to_owned(),
            ProxyError::Internal(detail) => concat("Internal error: ", detail.as_str()),
            ProxyError::Mdd(detail) => concat("MDD database error: ", detail.as_str()),
        }
    }
}

/// UDS Negative Response Codes per ISO 14229-1 Table A.1.
#[derive(Debug, Clone, Copy, PartialEq, Eq, Structural)]
pub enum Nrc {
    /// General reject
    GeneralReject,
    /// Service not supported
    ServiceNotSupported,
    /// Sub-function not supported
    SubFunctionNotSupported,
    /// Incorrect message length or invalid format
    IncorrectMessageLengthOrInvalidFormat,
    /// Response too long
    ResponseTooLong,
    /// Busy - repeat request
    BusyRepeatRequest,
    /// Conditions not correct
    ConditionsNotCorrect,
    /// Request sequence error
    RequestSequenceError,
    /// Request out of range
    RequestOutOfRange,
    /// Security access denied
    SecurityAccessDenied,
    /// Invalid key
    InvalidKey,
    /// Exceeded number of attempts
    ExceededNumberOfAttempts,
    /// Required time delay not expired
    RequiredTimeDelayNotExpired,
    /// General programming failure
    GeneralProgrammingFailure,
}

impl Nrc {
    /// The byte that stands for this code.
    pub open spec fn code(self) -> u8 {
        match self {
            Nrc::GeneralReject => 0x10,
            Nrc::ServiceNotSupported => 0x11,
            Nrc::SubFunctionNotSupported => 0x12,
            Nrc::IncorrectMessageLengthOrInvalidFormat => 0x13,
            Nrc::ResponseTooLong => 0x14,
            Nrc::BusyRepeatRequest => 0x21,
            Nrc::ConditionsNotCorrect => 0x22,
            Nrc::RequestSequenceError => 0x24,
            Nrc::RequestOutOfRange => 0x31,
            Nrc::SecurityAccessDenied => 0x33,
            Nrc::InvalidKey => 0x35,
            Nrc::ExceededNumberOfAttempts => 0x36,
            Nrc::RequiredTimeDelayNotExpired => 0x37,
            Nrc::GeneralProgrammingFailure => 0x72,
        }
    }

    /// The byte that stands for this code.
    pub fn to_u8(self) -> (byte: u8)
        ensures
            byte == self.code(),
    {
        match self {
            Nrc::GeneralReject => 0x10,
            Nrc::ServiceNotSupported => 0x11,
            Nrc::SubFunctionNotSupported => 0x12,
            Nrc::IncorrectMessageLengthOrInvalidFormat => 0x13,
            Nrc::ResponseTooLong => 0x14,
            Nrc::BusyRepeatRequest => 0x21,
            Nrc::ConditionsNotCorrect => 0x22,
            Nrc::RequestSequenceError => 0x24,
            Nrc::RequestOutOfRange => 0x31,
            Nrc::SecurityAccessDenied => 0x33,
            Nrc::InvalidKey => 0x35,
            Nrc::ExceededNumberOfAttempts => 0x36,
            Nrc::RequiredTimeDelayNotExpired => 0x37,
            Nrc::GeneralProgrammingFailure => 0x72,
        }
    }

    /// Returns a human-readable description of this NRC.
    pub fn description(&self) -> (description: &'static str)
        ensures
            description@ == match self {
                Nrc::GeneralReject => "General reject"@,
                Nrc::ServiceNotSupported => "Service not supported"@,
                Nrc::SubFunctionNotSupported => "Sub-function not supported"@,
                Nrc::IncorrectMessageLengthOrInvalidFormat =>
                    "Incorrect message length or invalid format"@,
                Nrc::ResponseTooLong => "Response too long"@,
                Nrc::BusyRepeatRequest => "Busy - repeat request"@,
                Nrc::ConditionsNotCorrect => "Conditions not correct"@,
                Nrc::RequestSequenceError => "Request sequence error"@,
                Nrc::RequestOutOfRange => "Request out of range"@,
                Nrc::SecurityAccessDenied => "Security access denied"@,
                Nrc::InvalidKey => "Invalid key"@,
                Nrc::ExceededNumberOfAttempts => "Exceeded number of attempts"@,
                Nrc::RequiredTimeDelayNotExpired => "Required time delay not expired"@,
                Nrc::GeneralProgrammingFailure => "General programming failure"@,
            },
    {
        match self {
            Nrc::GeneralReject => "General reject",
            Nrc::ServiceNotSupported => "Service not supported",
            Nrc::SubFunctionNotSupported => "Sub-function not supported",
            Nrc::IncorrectMessageLengthOrInvalidFormat =>
                "Incorrect message length or invalid format",
            Nrc::ResponseTooLong => "Response too long",
            Nrc::BusyRepeatRequest => "Busy - repeat request",
            Nrc::ConditionsNotCorrect => "Conditions not correct",
            Nrc::RequestSequenceError => "Request sequence error",
            Nrc::RequestOutOfRange => "Request out of range",
            Nrc::SecurityAccessDenied => "Security access denied",
            Nrc::InvalidKey => "Invalid key",
            Nrc::ExceededNumberOfAttempts => "Exceeded number of attempts",
            Nrc::RequiredTimeDelayNotExpired => "Required time delay not expired",
            Nrc::GeneralProgrammingFailure => "General programming failure",
        }
    }

    /// Convert a raw `u8` NRC value to the corresponding enum variant.
    ///
    /// Returns `None` for unrecognised NRC values.
    pub fn from_u8(value: u8) -> (nrc: Option<Self>)
        ensures
            nrc == nrc_of(value),
    {
        match value {
            0x10 => Some(Nrc::GeneralReject),
            0x11 => Some(Nrc::ServiceNotSupported),
            0x12 => Some(Nrc::SubFunctionNotSupported),
            0x13 => Some(Nrc::IncorrectMessageLengthOrInvalidFormat),
            0x14 => Some(Nrc::ResponseTooLong),
            0x21 => Some(Nrc::BusyRepeatRequest),
            0x22 => Some(Nrc::ConditionsNotCorrect),
            0x24 => Some(Nrc::RequestSequenceError),
            0x31 => Some(Nrc::RequestOutOfRange),
            0x33 => Some(Nrc::SecurityAccessDenied),
            0x35 => Some(Nrc::InvalidKey),
            0x36 => Some(Nrc::ExceededNumberOfAttempts),
            0x37 => Some(Nrc::RequiredTimeDelayNotExpired),
            0x72 => Some(Nrc::GeneralProgrammingFailure),
            _ => None,
        }
    }
}

/// The code that a byte stands for.
pub open spec fn nrc_of(value: u8) -> Option<Nrc> {
    match value {
        0x10 => Some(Nrc::GeneralReject),
        0x11 => Some(Nrc::ServiceNotSupported),
        0x12 => Some(Nrc::SubFunctionNotSupported),
        0x13 => Some(Nrc::IncorrectMessageLengthOrInvalidFormat),
        0x14 => Some(Nrc::ResponseTooLong),
        0x21 => Some(Nrc::BusyRepeatRequest),
        0x22 => Some(Nrc::ConditionsNotCorrect),
        0x24 => Some(Nrc::RequestSequenceError),
        0x31 => Some(Nrc::RequestOutOfRange),
        0x33 => Some(Nrc::SecurityAccessDenied),
        0x35 => Some(Nrc::InvalidKey),
        0x36 => Some(Nrc::ExceededNumberOfAttempts),
        0x37 => Some(Nrc::RequiredTimeDelayNotExpired),
        0x72 => Some(Nrc::GeneralProgrammingFailure),
        _ => None,
    }
}

/// The byte of a code stands for that code, and a byte that stands for a code
/// is its byte.
pub proof fn lemma_nrc_round_trip(nrc: Nrc, value: u8)
    ensures
        nrc_of(nrc.code()) == Some(nrc),
        nrc_of(value) matches Some(n) ==> n.code() == value,
{
}

impl TryFrom<u8> for Nrc {
    type Error = ();

    fn try_from(value: u8) -> (nrc: std::result::Result<Self, ()>) {
        match Nrc::from_u8(value) {
            Some(nrc) => Ok(nrc),
            None => Err(()),
        }
    }
}

impl vstd::std_specs::convert::TryFromSpecImpl<u8> for Nrc {
    open spec fn obeys_try_from_spec() -> bool {
        true
    }

    open spec fn try_from_spec(value: u8) -> std::result::Result<Self, ()> {
        match nrc_of(value) {
            Some(nrc) => Ok(nrc),
            None => Err(()),
        }
    }
}

/// Errors about an identifier give it in hexadecimal with upper case letters:
/// two digits for a byte and four for a DID, of the very value.
pub proof fn law_identifiers_in_error_texts(id: u8, did: u16, description: String)
    ensures
        ({
            let (byte, word) = (hex_text(id as nat, 2), hex_text(did as nat, 4));
            &&& byte.len() == 2 && digits_value(byte, 16) == id
            &&& word.len() == 4 && digits_value(word, 16) == did
            &&& UdsError::InvalidServiceId(id).text() == "Invalid service ID: 0x"@ + byte
            &&& UdsError::UnsupportedService(id).text() == "Unsupported service: 0x"@ + byte
            &&& UdsError::InvalidDid(did).text() == "Invalid DID: 0x"@ + word
            &&& (UdsError::NegativeResponse { nrc: id, description }).text()
                == "Negative response: NRC 0x"@ + byte + " ("@ + description@ + ")"@
        }),
{
    law_hex_text(id as nat, 2);
    law_hex_text(did as nat, 4);
    assert(pow(16, 2) == 0x100 && pow(16, 4) == 0x1_0000) by {
        lemma_pow1(16);
        lemma_pow_adds(16, 1, 1);
        lemma_pow_adds(16, 2, 2);
    }
    lemma_hex_len(id as nat, 2);
    lemma_hex_len(did as nat, 4);
}

proof fn lemma_hex_len(n: nat, width: nat)
    requires
        1 <= width <= 4,
        n < pow(16, width),
    ensures
        hex_text(n, width).len() == width,
{
    let text = hex_text(n, width);
    law_hex_text(n, width);
    if text.len() > width {
        let (first, rest) = (seq![text[0]], text.skip(1));
        assert(text =~= first + rest);
        assert(is_digit(text[0], 16));
        law_digits_value(first, rest, 16, text[0], digit_of(text[0])->0);
        let (d, p) = (digits_value(first, 16) as int, pow(16, rest.len()));
        lemma_pow_increases(16, width, rest.len());
        assert(d >= 1);
        assert(d * p >= p) by (nonlinear_arith)
            requires
                d >= 1,
                p >= 0,
        ;
    }
}

/// An error about a length gives the expected and the actual one in decimal.
pub proof fn law_lengths_in_error_texts(expected: usize, actual: usize)
    ensures
        (UdsError::InvalidLength { expected, actual }).text() == "Invalid message length: expected "@
            + decimal_text(expected as nat) + ", got "@ + decimal_text(actual as nat),
{
}

/// A SOVD error that holds a text says its kind and then that text.
pub proof fn law_sovd_error_texts(detail: String, text: Seq<char>)
    ensures
        SovdError::Http(detail).has_text(text) <==> text == "HTTP error: "@ + detail@,
        SovdError::Auth(detail).has_text(text) <==> text == "Authentication failed: "@ + detail@,
        SovdError::ComponentNotFound(detail).has_text(text) <==> text == "Component not found: "@
            + detail@,
        SovdError::DataIdNotFound(detail).has_text(text) <==> text
            == "Data identifier not found: "@ + detail@,
        SovdError::SchemaMismatch(detail).has_text(text) <==> text == "Schema mismatch: "@
            + detail@,
{
}

/// An error of the proxy says its kind and then what it holds. One that holds
/// another error ends with the text of that error.
pub proof fn law_proxy_error_texts(detail: String, uds: UdsError, sovd: SovdError, text: Seq<char>)
    ensures
        ProxyError::DoIp(detail).has_text(text) <==> text == "DoIP protocol error: "@ + detail@,
        ProxyError::Config(detail).has_text(text) <==> text == "Configuration error: "@ + detail@,
        ProxyError::InvalidRequest(detail).has_text(text) <==> text == "Invalid request: "@
            + detail@,
        ProxyError::Internal(detail).has_text(text) <==> text == "Internal error: "@ + detail@,
        ProxyError::Mdd(detail).has_text(text) <==> text == "MDD database error: "@ + detail@,
        ProxyError::Timeout.has_text(text) <==> text == "Timeout waiting for response"@,
        ProxyError::Uds(uds).has_text(text) <==> text == "UDS service error: "@ + uds.text(),
        sovd.has_text(text) ==> ProxyError::Sovd(sovd).has_text(
            "SOVD communication error: "@ + text,
        ),
        ProxyError::Sovd(sovd).has_text(text) ==> exists|inner: Seq<char>|
            #[trigger] sovd.has_text(inner) && text == "SOVD communication error: "@ + inner,
{
    let heading = "SOVD communication error: "@;
    let whole = heading + text;
    assert(whole.subrange(0, heading.len() as int) =~= heading);
    assert(whole.skip(heading.len() as int) =~= text);
    if ProxyError::Sovd(sovd).has_text(text) {
        let inner = text.skip(heading.len() as int);
        assert(text =~= heading + inner);
    }
}

/// The negative response codes by their numbers. No other byte is one.
pub proof fn law_nrc_numbers(value: u8)
    ensures
        nrc_of(value) is Some <==> 0x10 <= value <= 0x14 || value == 0x21 || value == 0x22 || value
            == 0x24 || value == 0x31 || value == 0x33 || 0x35 <= value <= 0x37 || value == 0x72,
        Nrc::GeneralReject.code() == 0x10,
        Nrc::ServiceNotSupported.code() == 0x11,
        Nrc::SubFunctionNotSupported.code() == 0x12,
        Nrc::IncorrectMessageLengthOrInvalidFormat.code() == 0x13,
        Nrc::ResponseTooLong.code() == 0x14,
        Nrc::BusyRepeatRequest.code() == 0x21,
        Nrc::ConditionsNotCorrect.code() == 0x22,
        Nrc::RequestSequenceError.code() == 0x24,
        Nrc::RequestOutOfRange.code() == 0x31,
        Nrc::SecurityAccessDenied.code() == 0x33,
        Nrc::InvalidKey.code() == 0x35,
        Nrc::ExceededNumberOfAttempts.code() == 0x36,
        Nrc::RequiredTimeDelayNotExpired.code() == 0x37,
        Nrc::GeneralProgrammingFailure.code() == 0x72,
{
}

} // verus!
