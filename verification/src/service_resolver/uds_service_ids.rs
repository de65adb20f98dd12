//! UDS Service Identifiers (SIDs) for diagnostic services.

use vstd::prelude::*;

verus! {

/// Session Control
pub const SESSION_CONTROL: u8 = 0x10;

/// ECU Reset
pub const ECU_RESET: u8 = 0x11;

/// Clear Diagnostic Information
pub const CLEAR_DIAGNOSTIC_INFORMATION: u8 = 0x14;

/// Read DTC Information
pub const READ_DTC_INFORMATION: u8 = 0x19;

/// Read Data By Identifier
pub const READ_DATA_BY_IDENTIFIER: u8 = 0x22;

/// Security Access
pub const SECURITY_ACCESS: u8 = 0x27;

/// Communication Control
pub const COMMUNICATION_CONTROL: u8 = 0x28;

/// Authentication
pub const AUTHENTICATION: u8 = 0x29;

/// Write Data By Identifier
pub const WRITE_DATA_BY_IDENTIFIER: u8 = 0x2E;

/// Input/Output Control By Identifier
pub const INPUT_OUTPUT_CONTROL_BY_IDENTIFIER: u8 = 0x2F;

/// Routine Control
pub const ROUTINE_CONTROL: u8 = 0x31;

/// Request Download
pub const REQUEST_DOWNLOAD: u8 = 0x34;

/// Transfer Data
pub const TRANSFER_DATA: u8 = 0x36;

/// Request Transfer Exit
pub const REQUEST_TRANSFER_EXIT: u8 = 0x37;

/// Tester Present
pub const TESTER_PRESENT: u8 = 0x3E;

/// Control DTC Setting
pub const CONTROL_DTC_SETTING: u8 = 0x85;

/// Negative Response
pub const NEGATIVE_RESPONSE: u8 = 0x7F;

/// What a positive response adds to the service identifier of its request.
pub const RESPONSE_OFFSET: u8 = 0x40;

} // verus!
