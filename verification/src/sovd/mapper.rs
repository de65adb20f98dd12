//! Translation of UDS diagnostic requests into SOVD REST calls and back.

use crate::config::Config;
use crate::doip::wire::{be16_bytes, high_byte, low_byte};
use crate::error::{ProxyError, Result, SovdError};
use crate::json::JsonMap;
use crate::service_resolver::is_negative;
use crate::service_resolver::model::{DiagServiceError, ResponseParameterInfo};
use crate::service_resolver::response::{metadata_response, naive_response, ResponseEncoder};
use crate::service_resolver::uds_helpers::did_in;
use crate::service_resolver::uds_service_ids::{
    READ_DATA_BY_IDENTIFIER, RESPONSE_OFFSET, WRITE_DATA_BY_IDENTIFIER,
};
use crate::sovd::client::{
    component_url, is_json_of, mock_response, Client, ReadRequest, SovdClient,
};
use crate::sovd::schema::DataResponse;
use crate::text::concat;
use vstd::prelude::*;

verus! {

/// Minimum total WDBI UDS request length: SID (1) + DID high (1) + DID low (1).
/// A valid write request must contain at least one data byte beyond this header.
pub const MIN_WDBI_REQUEST_HEADER_LENGTH: usize = 3;

/// A text in lower case.
pub uninterp spec fn lowercase_of(text: Seq<char>) -> Seq<char>;

/// `str::to_lowercase`: the text in lower case by the rules of Unicode, which
/// depends on the text alone.
#[verifier::external_body]
fn to_lowercase(text: &str) -> (lowered: String)
    ensures
        lowered@ == lowercase_of(text@),
{
    text.to_lowercase()
}

/// The name of a service in SOVD REST paths.
pub fn sovd_endpoint(service_name: &str) -> (endpoint: String)
    ensures
        endpoint@ == lowercase_of(service_name@),
{
    to_lowercase(service_name)
}

/// The result is an error about a schema mismatch with this text.
pub open spec fn is_schema_mismatch<T>(result: Result<T>, text: Seq<char>) -> bool {
    result matches Err(ProxyError::Sovd(SovdError::SchemaMismatch(message))) && message@ == text
}

/// How to read the data of a service.
#[derive(Debug)]
pub enum ReadPlan {
    /// Make up a response. The URL is the one that would have been asked.
    Mock { endpoint: String, url: String },
    /// Ask the gateway.
    Fetch { endpoint: String, request: ReadRequest },
}

/// How to write the data of a service.
#[derive(Debug)]
pub struct WritePlan {
    /// Name of the service in SOVD REST paths.
    pub endpoint: String,
    /// Where to put the data, or `None` if nothing is to be sent.
    pub url: Option<String>,
    /// What to put there.
    pub data: JsonMap,
}

/// What a mapper knows.
pub struct Mapper {
    pub ecu_name: Seq<char>,
    pub mock_gateway: bool,
    pub gateway_url: Seq<char>,
    pub api_version: Seq<char>,
    pub client: Client,
}

/// `plan` is how a mapper reads the data of a service: in mock mode it makes
/// them up, else it asks the gateway.
pub open spec fn is_read_plan(plan: ReadPlan, mapper: Mapper, service_name: Seq<char>) -> bool {
    if mapper.mock_gateway {
        &&& plan matches ReadPlan::Mock { endpoint, url }
        &&& endpoint@ == lowercase_of(service_name)
        &&& url@ == mapper.gateway_url + "/vehicle/"@ + mapper.api_version + "/components/"@
            + mapper.ecu_name + "/data/"@ + endpoint@
    } else {
        &&& plan matches ReadPlan::Fetch { endpoint, request }
        &&& endpoint@ == lowercase_of(service_name)
        &&& request.url@ == component_url(
            mapper.client.config,
            mapper.ecu_name,
            "/data/"@,
            endpoint@,
        )
        &&& request.include_schema == mapper.client.config.include_schema
    }
}

/// `plan` is how a mapper writes the data of a service, or the error for a
/// request without data. In mock mode nothing is sent.
pub open spec fn is_write_plan(
    plan: Result<WritePlan>,
    mapper: Mapper,
    uds_request: Seq<u8>,
    service_name: Seq<char>,
    data: JsonMap,
) -> bool {
    if uds_request.len() <= MIN_WDBI_REQUEST_HEADER_LENGTH {
        is_schema_mismatch(plan, "Write request missing data"@)
    } else {
        &&& plan matches Ok(p)
        &&& p.endpoint@ == lowercase_of(service_name)
        &&& p.data == data
        &&& match p.url {
            Some(url) => !mapper.client.config.mock_gateway && url@ == component_url(
                mapper.client.config,
                mapper.ecu_name,
                "/configurations/"@,
                p.endpoint@,
            ),
            None => mapper.client.config.mock_gateway,
        }
    }
}

/// The positive response to a write: response SID and DID.
pub open spec fn write_response_bytes(did: u16) -> Seq<u8> {
    seq![(WRITE_DATA_BY_IDENTIFIER + RESPONSE_OFFSET) as u8] + be16_bytes(did)
}

/// The UDS response to a read: laid out by metadata where there is any.
pub open spec fn read_response_bytes(
    did: u16,
    data: Seq<(Seq<char>, crate::json::JsonValue)>,
    metadata: Option<(Vec<ResponseParameterInfo>, String)>,
) -> Seq<u8> {
    match metadata {
        Some((meta, _)) if meta@.len() > 0 => metadata_response(meta@, data, did),
        _ => naive_response(READ_DATA_BY_IDENTIFIER, did, data),
    }
}

/// Translates UDS diagnostic requests into SOVD REST calls and back.
///
/// Handles both `ReadDataByIdentifier` (RDBI) and `WriteDataByIdentifier` (WDBI)
/// requests. In mock mode synthetic JSON is made from MDD POS-RESPONSE
/// metadata and encoded back to UDS bytes, which exercises the full
/// translation without a live SOVD server.
pub struct SovdMapper {
    /// ECU component name used in SOVD REST paths.
    ecu_name: String,
    /// When `true`, bypass HTTP and generate synthetic responses.
    mock_gateway: bool,
    /// Base URL of the SOVD gateway
    gateway_url: String,
    /// SOVD API version path segment
    api_version: String,
    /// Client for the SOVD gateway.
    sovd_client: SovdClient,
}

impl View for SovdMapper {
    type V = Mapper;

    closed spec fn view(&self) -> Mapper {
        Mapper {
            ecu_name: self.ecu_name@,
            mock_gateway: self.mock_gateway,
            gateway_url: self.gateway_url@,
            api_version: self.api_version@,
            client: self.sovd_client@,
        }
    }
}

impl SovdMapper {
    /// Create a mapper.
    pub fn new(config: &Config, sovd_client: SovdClient) -> (mapper: Self)
        ensures
            mapper@ == (Mapper {
                ecu_name: config@.ecu.default_name,
                mock_gateway: config@.sovd.mock_gateway,
                gateway_url: config@.sovd.gateway_url,
                api_version: config@.sovd.api_version,
                client: sovd_client@,
            }),
    {
        SovdMapper {
            ecu_name: config.ecu.default_name.clone(),
            mock_gateway: config.sovd.mock_gateway,
            gateway_url: config.sovd.gateway_url.clone(),
            api_version: config.sovd.api_version.clone(),
            sovd_client,
        }
    }

    /// The component name used in SOVD REST paths.
    pub fn ecu_name(&self) -> (name: &str)
        ensures
            name@ == self@.ecu_name,
    {
        self.ecu_name.as_str()
    }

    /// The client for the SOVD gateway.
    pub fn client(&self) -> (client: &SovdClient)
        ensures
            client@ == self@.client,
    {
        &self.sovd_client
    }

    /// Decide how to read the data of a service.
    pub fn process_read_data_request(&self, service_name: &str) -> (plan: ReadPlan)
        ensures
            is_read_plan(plan, self@, service_name@),
    {
        let endpoint = sovd_endpoint(service_name);
        if self.mock_gateway {
            let mut url = concat(self.gateway_url.as_str(), "/vehicle/");
            url.append(self.api_version.as_str());
            url.append("/components/");
            url.append(self.ecu_name.as_str());
            url.append("/data/");
            url.append(endpoint.as_str());
            ReadPlan::Mock { endpoint, url }
        } else {
            let request = self.sovd_client.read_data(self.ecu_name.as_str(), endpoint.as_str());
            ReadPlan::Fetch { endpoint, request }
        }
    }

    /// Bypass the live SOVD gateway and return a synthetic [`DataResponse`].
    ///
    /// Builds the response JSON entirely from MDD POS-RESPONSE metadata so
    /// the full UDS translation can be exercised without a running SOVD
    /// server.
    ///
    /// # Errors
    /// Returns an error if no POS-RESPONSE metadata is available for the
    /// requested service.
    pub fn mock_read_response(
        &self,
        did: u16,
        service_name: &str,
        sovd_endpoint: &str,
        metadata: std::result::Result<Vec<ResponseParameterInfo>, DiagServiceError>,
    ) -> (response: Result<DataResponse>)
        ensures
            match metadata {
                Ok(meta) => if meta@.len() == 0 {
                    is_schema_mismatch(
                        response,
                        "No POS-RESPONSE metadata available for '"@ + service_name@
                            + "' in mock mode"@,
                    )
                } else {
                    &&& response matches Ok(r)
                    &&& r.id@ == sovd_endpoint@
                    &&& is_json_of(r.data@, mock_response(meta@, did))
                    &&& r.errors@.len() == 0
                    &&& r.schema is None
                },
                Err(e) => is_schema_mismatch(
                    response,
                    "Failed to load POS-RESPONSE metadata for '"@ + service_name@ + "': "@
                        + e.message(),
                ),
            },
    {
        let meta = match metadata {
            Ok(meta) => meta,
            Err(e) => {
                let mut message = concat(
                    "Failed to load POS-RESPONSE metadata for '",
                    service_name,
                );
                message.append("': ");
                message.append(e.text());
                return Err(ProxyError::from(SovdError::SchemaMismatch(message)));
            },
        };
        if meta.len() == 0 {
            let mut message = concat("No POS-RESPONSE metadata available for '", service_name);
            message.append("' in mock mode");
            return Err(ProxyError::from(SovdError::SchemaMismatch(message)));
        }
        let data = self.sovd_client.generate_mock_response_data(
            sovd_endpoint,
            meta.as_slice(),
            did,
        );
        Ok(DataResponse::new(sovd_endpoint.to_owned(), data))
    }

    /// Convert a SOVD JSON response into raw UDS response bytes.
    ///
    /// The response layout places each field at its correct byte offset.
    pub fn sovd_json_to_uds(
        &self,
        did: u16,
        sovd_response: &DataResponse,
        metadata: Option<&(Vec<ResponseParameterInfo>, String)>,
        service_name: &str,
    ) -> (uds_response: Vec<u8>)
        ensures
            uds_response@ == read_response_bytes(
                did,
                sovd_response.data@,
                match metadata {
                    Some(m) => Some(*m),
                    None => None,
                },
            ),
    {
        ResponseEncoder::build_response(
            service_name,
            READ_DATA_BY_IDENTIFIER,
            did,
            metadata,
            &sovd_response.data,
        ).bytes
    }

    /// The UDS response to a read, once the data came in.
    ///
    /// # Errors
    /// Passes on the error of the read.
    pub fn complete_read(
        &self,
        did: u16,
        read: Result<DataResponse>,
        metadata: Option<&(Vec<ResponseParameterInfo>, String)>,
        service_name: &str,
    ) -> (response: Result<Vec<u8>>)
        ensures
            match read {
                Ok(r) => response matches Ok(bytes) && bytes@ == read_response_bytes(
                    did,
                    r.data@,
                    match metadata {
                        Some(m) => Some(*m),
                        None => None,
                    },
                ),
                Err(e) => response == Err::<Vec<u8>, ProxyError>(e),
            },
    {
        match read {
            Ok(response) => Ok(self.sovd_json_to_uds(did, &response, metadata, service_name)),
            Err(e) => Err(e),
        }
    }

    /// Decide how to write the data of a service.
    ///
    /// # Errors
    /// Returns an error if the request carries no data.
    pub fn process_write_data_request(
        &self,
        uds_request: &[u8],
        service_name: &str,
        parsed_data: JsonMap,
    ) -> (plan: Result<WritePlan>)
        ensures
            is_write_plan(plan, self@, uds_request@, service_name@, parsed_data),
    {
        if uds_request.len() <= MIN_WDBI_REQUEST_HEADER_LENGTH {
            return Err(
                ProxyError::from(
                    SovdError::SchemaMismatch("Write request missing data".to_owned()),
                ),
            );
        }
        let endpoint = sovd_endpoint(service_name);
        let url = self.sovd_client.write_data(self.ecu_name.as_str(), endpoint.as_str());
        Ok(WritePlan { endpoint, url, data: parsed_data })
    }

    /// The UDS response to a write, once it was carried out.
    ///
    /// # Errors
    /// Passes on the error of the write.
    pub fn complete_write(did: u16, written: Result<()>) -> (response: Result<Vec<u8>>)
        ensures
            match written {
                Ok(_) => response matches Ok(bytes) && bytes@ == write_response_bytes(did),
                Err(e) => response == Err::<Vec<u8>, ProxyError>(e),
            },
    {
        match written {
            Ok(()) => {
                let mut bytes: Vec<u8> = Vec::new();
                bytes.push(WRITE_DATA_BY_IDENTIFIER + RESPONSE_OFFSET);
                bytes.push(high_byte(did));
                bytes.push(low_byte(did));
                assert(bytes@ =~= write_response_bytes(did));
                Ok(bytes)
            },
            Err(e) => Err(e),
        }
    }
}

/// The response to a write is positive and echoes the DID.
pub proof fn lemma_write_response_echoes_did(did: u16)
    ensures
        did_in(write_response_bytes(did)) == Some(did),
        !is_negative(write_response_bytes(did)),
        write_response_bytes(did)[0] == 0x6E,
{
    assert(write_response_bytes(did).subrange(1, 3) =~= be16_bytes(did));
    crate::doip::wire::lemma_be16_round_trip(did);
}

} // verus!
