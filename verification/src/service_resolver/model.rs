//! What the diagnostic database (MDD) says about services and their
//! parameters.

use vstd::prelude::*;

verus! {

/// A diagnostic service found in the database.
#[derive(Debug, Clone)]
pub struct DiagComm {
    /// Name of the service.
    pub name: String,
    /// Name to look the service up by, where it differs.
    pub lookup_name: Option<String>,
}

/// A range of coded values with a common meaning.
#[derive(Debug, Clone)]
pub struct CompuScaleInfo {
    /// Label of the range.
    pub short_label: Option<String>,
    /// Least coded value.
    pub lower_limit: Option<u64>,
    /// Greatest coded value.
    pub upper_limit: Option<u64>,
    /// Text that the range stands for.
    pub compu_const_vt: Option<String>,
}

/// The kind of a parameter and its fixed values.
#[derive(Debug, Clone)]
#[allow(inconsistent_fields)]
pub enum ParameterTypeMetadata {
    /// A constant with its coded value as text.
    CodedConst { coded_value: String },
    /// A constant with its physical value, and its coded value where it is known.
    PhysConst { phys_constant_value: String, coded_value: Option<u64> },
    /// A value that varies, with its defaults and its coded ranges.
    Value {
        physical_default_value: Option<String>,
        coded_default_value: Option<u64>,
        compu_scales: Vec<CompuScaleInfo>,
    },
    /// A copy of request bytes.
    MatchingRequestParam { byte_length: u32 },
}

/// A parameter of a request.
#[derive(Debug, Clone)]
pub struct ServiceParameterMetadata {
    /// Name of the parameter.
    pub name: String,
    /// Meaning of the parameter.
    pub semantic: Option<String>,
    /// Kind and fixed values of the parameter.
    pub param_type: ParameterTypeMetadata,
}

/// A parameter of a positive response.
#[derive(Debug, Clone)]
pub struct ResponseParameterInfo {
    /// Name of the parameter.
    pub name: String,
    /// Meaning of the parameter.
    pub semantic: Option<String>,
    /// Kind and fixed values of the parameter.
    pub param_type: ParameterTypeMetadata,
    /// Where the parameter starts in the response.
    pub byte_position: u32,
    /// First bit within the first byte.
    pub bit_position: u32,
    /// Size in bytes, or `None` where it depends on the data.
    pub byte_size: Option<u32>,
}

/// Errors of the diagnostic database.
#[derive(Debug, Clone)]
pub enum DiagServiceError {
    /// A request does not have the form that its service asks for.
    InvalidRequest(String),
    /// The database has no answer, with its own message.
    Lookup(String),
}

impl DiagServiceError {
    /// The message of the error.
    pub open spec fn message(&self) -> Seq<char> {
        match self {
            DiagServiceError::InvalidRequest(message) | DiagServiceError::Lookup(
                message,
            ) => message@,
        }
    }

    /// The message of the error.
    pub fn text(&self) -> (text: &str)
        ensures
            text@ == self.message(),
    {
        match self {
            DiagServiceError::InvalidRequest(message) => message.as_str(),
            DiagServiceError::Lookup(message) => message.as_str(),
        }
    }
}

} // verus!
