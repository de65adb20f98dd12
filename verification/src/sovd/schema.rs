//! SOVD REST API types for the proxy.

use crate::json::{JsonMap, JsonValue};
use vstd::prelude::*;

verus! {

/// SOVD data response.
#[derive(Debug)]
pub struct DataResponse {
    /// Service identifier
    pub id: String,
    /// Response data as JSON object.
    pub data: JsonMap,
    /// Field-level errors returned by the server, if any.
    pub errors: Vec<JsonValue>,
    /// Optional inline schema
    pub schema: Option<JsonValue>,
}

impl DataResponse {
    /// Create a new `DataResponse` with the given service id and data.
    pub fn new(id: String, data: JsonMap) -> (response: Self)
        ensures
            response.id == id,
            response.data == data,
            response.errors@.len() == 0,
            response.schema is None,
    {
        DataResponse { id, data, errors: Vec::new(), schema: None }
    }
}

} // verus!
