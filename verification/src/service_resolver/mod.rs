//! MDD-driven UDS encoding, decoding, and service resolution.
//!
//! [`ServiceResolver`] is a thin facade over three parts:
//!
//! - [`DidResolver`]: DID-to-service resolution
//! - [`ResponseEncoder`]: UDS response encoding
//! - [`MetadataProvider`]: the choice of response metadata
//!
//! ## Service resolution
//!
//! When a UDS request arrives the proxy must identify which diagnostic service
//! from the MDD it belongs to. The prefix `[SID, DID_HI, DID_LO]` of the request
//! directly matches services whose sequential coded-const parameters match the
//! request bytes. A single match is the result.
//!
//! For services where the DID is not a coded constant, the prefix lookup
//! returns all SID-matching services, and the DID is confirmed via request
//! parameter metadata:
//!
//! - `CodedConst`: exact DID match.
//! - `PhysConst`: resolved `coded_value` or an encoded probe request.
//! - `Value`: `coded_default_value` or `CompuScale` range match.
//!
//! If no service matches, there is no fallback.

pub mod laws;
pub mod metadata;
pub mod model;
pub mod resolve;
pub mod response;
pub mod response_laws;
pub mod uds_helpers;
pub mod uds_service_ids;

pub use metadata::MetadataProvider;
pub use resolve::{DidResolver, ResolvedService, ServiceType};
pub use response::ResponseEncoder;
pub use uds_helpers::{find_mux_case_prefix, has_mux_case_for_did_exact, parse_mux_coded_value};

use crate::doip::wire::{be16_bytes, high_byte, low_byte};
use crate::json::{JsonMap, JsonValue};
use metadata::{are_names_under_sid, is_opaque, richer_sibling, SiblingLayout};
use model::{DiagComm, DiagServiceError, ResponseParameterInfo};
use resolve::{texts, Resolution};
use response::{metadata_response, naive_response};
use uds_service_ids::NEGATIVE_RESPONSE;
use vstd::prelude::*;

verus! {

/// Minimum UDS negative response length: 0x7F + SID + NRC.
pub const UDS_NEGATIVE_RESPONSE_MIN_LEN: usize = 3;

/// The message is a negative response.
pub open spec fn is_negative(uds_response: Seq<u8>) -> bool {
    uds_response.len() >= UDS_NEGATIVE_RESPONSE_MIN_LEN && uds_response[0] == NEGATIVE_RESPONSE
}

/// The bytes that a request for a DID starts with.
pub fn request_prefix(service_type: ServiceType, did: u16) -> (prefix: Vec<u8>)
    ensures
        prefix@ == seq![service_type.service_id()] + be16_bytes(did),
{
    let mut prefix: Vec<u8> = Vec::new();
    prefix.push(service_type.sid());
    prefix.push(high_byte(did));
    prefix.push(low_byte(did));
    assert(prefix@ =~= seq![service_type.service_id()] + be16_bytes(did));
    prefix
}

/// MDD-driven service resolution, encoding and decoding for one ECU.
pub struct ServiceResolver {
    ecu_name: String,
}

impl ServiceResolver {
    /// The name of the ECU.
    pub closed spec fn name(&self) -> Seq<char> {
        self.ecu_name@
    }

    /// Create a resolver for an ECU.
    pub fn new(ecu_name: String) -> (resolver: Self)
        ensures
            resolver.name() == ecu_name@,
    {
        ServiceResolver { ecu_name }
    }

    /// Get ECU name.
    pub fn ecu_name(&self) -> (name: &str)
        ensures
            name@ == self.name(),
    {
        self.ecu_name.as_str()
    }

    /// Start to resolve the best-matching MDD service for a UDS DID request.
    pub fn resolve(
        &self,
        service_type: ServiceType,
        did: u16,
        prefix_matches: &[DiagComm],
        extra_names: &[String],
    ) -> (resolver: DidResolver)
        ensures
            resolver@ == Resolution::start(
                service_type.service_id(),
                did,
                prefix_matches@,
                texts(extra_names@),
            ),
    {
        DidResolver::new(service_type, did, prefix_matches, extra_names)
    }

    /// Start to resolve the best-matching READ service.
    pub fn resolve_read_service(
        &self,
        did: u16,
        prefix_matches: &[DiagComm],
        extra_names: &[String],
    ) -> (resolver: DidResolver)
        ensures
            resolver@ == Resolution::start(0x22, did, prefix_matches@, texts(extra_names@)),
    {
        self.resolve(ServiceType::Read, did, prefix_matches, extra_names)
    }

    /// Start to resolve the best-matching WRITE service.
    pub fn resolve_write_service(
        &self,
        did: u16,
        prefix_matches: &[DiagComm],
        extra_names: &[String],
    ) -> (resolver: DidResolver)
        ensures
            resolver@ == Resolution::start(0x2E, did, prefix_matches@, texts(extra_names@)),
    {
        self.resolve(ServiceType::Write, did, prefix_matches, extra_names)
    }

    /// Build UDS response bytes from SOVD JSON data using MDD response metadata.
    ///
    /// `metadata` is the enriched response layout with the service it comes
    /// from, where there is one.
    pub fn build_response(
        &self,
        service_name: &str,
        sid: u8,
        did: u16,
        metadata: Option<&(Vec<ResponseParameterInfo>, String)>,
        response_data: &JsonMap,
    ) -> (response: response::EncodedResponse)
        ensures
            match metadata {
                Some((meta, service)) if meta@.len() > 0 => {
                    &&& response.bytes@ == metadata_response(meta@, response_data@, did)
                    &&& response.effective_service@ == service@
                },
                _ => {
                    &&& response.bytes@ == naive_response(sid, did, response_data@)
                    &&& response.effective_service@ == service_name@
                },
            },
    {
        ResponseEncoder::build_response(service_name, sid, did, metadata, response_data)
    }

    /// Retrieve enriched POS-RESPONSE metadata for a service and DID.
    ///
    /// # Errors
    ///
    /// Returns the error of the own layout when there is none.
    pub fn get_enriched_response_metadata(
        &self,
        service_name: &str,
        did: u16,
        own: Result<Vec<ResponseParameterInfo>, DiagServiceError>,
        siblings: Vec<SiblingLayout>,
    ) -> (enriched: Result<Vec<ResponseParameterInfo>, DiagServiceError>)
        ensures
            match own {
                Ok(meta) => enriched is Ok && ({
                    let sibling = richer_sibling(siblings@, service_name@, meta@.len(), did);
                    if is_opaque(meta@) && sibling is Some {
                        enriched->Ok_0 == sibling->0.layout->0
                    } else {
                        enriched->Ok_0 == meta
                    }
                }),
                Err(e) => enriched == Err::<Vec<ResponseParameterInfo>, _>(e),
            },
    {
        MetadataProvider::get_enriched_response_metadata(service_name, did, own, siblings)
    }

    /// Return the best available POS-RESPONSE metadata.
    ///
    /// # Errors
    ///
    /// Returns the error of the plain layout when both are missing.
    pub fn get_response_metadata(
        &self,
        enriched: Result<Vec<ResponseParameterInfo>, DiagServiceError>,
        plain: Result<Vec<ResponseParameterInfo>, DiagServiceError>,
    ) -> (meta: Result<Vec<ResponseParameterInfo>, DiagServiceError>)
        ensures
            meta == if enriched is Ok {
                enriched
            } else {
                plain
            },
    {
        MetadataProvider::get_response_metadata(enriched, plain)
    }

    /// Return all service names registered under a given UDS SID.
    ///
    /// # Errors
    ///
    /// Returns the error of the lookup that the SID asks for.
    pub fn lookup_service_names_by_sid(
        &self,
        sid: u8,
        data: Vec<String>,
        configurations: Result<Vec<String>, DiagServiceError>,
    ) -> (names: Result<Vec<String>, DiagServiceError>)
        ensures
            are_names_under_sid(names, sid, data, configurations),
    {
        MetadataProvider::lookup_service_names_by_sid(sid, data, configurations)
    }

    /// The service identifier that a request is decoded under, zero for an
    /// empty request.
    pub fn request_service_id(uds_request: &[u8]) -> (service_id: u8)
        ensures
            service_id == (if uds_request@.len() > 0 {
                uds_request@[0]
            } else {
                0
            }),
    {
        if uds_request.len() > 0 {
            uds_request[0]
        } else {
            0
        }
    }

    /// The fields of a decoded request.
    ///
    /// # Errors
    ///
    /// Returns an error if the request was decoded to anything but an object.
    pub fn parse_request(&self, decoded: JsonValue) -> (fields: Result<JsonMap, DiagServiceError>)
        ensures
            match decoded {
                JsonValue::Object(map) => fields == Ok::<JsonMap, DiagServiceError>(map),
                _ => fields matches Err(DiagServiceError::InvalidRequest(message)) && message@
                    == "Expected JSON object in request"@,
            },
    {
        match decoded {
            JsonValue::Object(map) => Ok(map),
            _ => Err(
                DiagServiceError::InvalidRequest("Expected JSON object in request".to_owned()),
            ),
        }
    }

    /// Check if a UDS response is negative (SID 0x7F).
    pub fn is_negative_response(uds_response: &[u8]) -> (negative: bool)
        ensures
            negative == is_negative(uds_response@),
    {
        uds_response.len() >= UDS_NEGATIVE_RESPONSE_MIN_LEN && uds_response[0] == NEGATIVE_RESPONSE
    }

    /// Extract NRC (Negative Response Code) from a negative response.
    pub fn get_nrc(uds_response: &[u8]) -> (nrc: Option<u8>)
        ensures
            nrc == (if is_negative(uds_response@) {
                Some(uds_response@[2])
            } else {
                None
            }),
    {
        if Self::is_negative_response(uds_response) {
            Some(uds_response[2])
        } else {
            None
        }
    }
}

} // verus!
