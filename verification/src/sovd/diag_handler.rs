//! The decisions of a SOVD-backed diagnostic handler.

use crate::config::Config;
use crate::error::{ProxyError, Result, UdsError};
use crate::service_resolver::resolve::{texts, ResolvedService};
use crate::sovd::mapper::{
    is_read_plan, is_write_plan, Mapper, ReadPlan, SovdMapper, WritePlan,
};
use vstd::prelude::*;

verus! {

/// The ECU to serve: the one with the default name, else the first one.
pub open spec fn chosen_ecu(default_name: Seq<char>, names: Seq<Seq<char>>) -> Option<int> {
    if names.contains(default_name) {
        Some(names.index_of_first(default_name)->0)
    } else if names.len() > 0 {
        Some(0)
    } else {
        None
    }
}

/// The result is the error for a DID that no service serves.
pub open spec fn is_unknown_did<T>(result: Result<T>, did: u16) -> bool {
    result matches Err(e) && e == ProxyError::Uds(UdsError::InvalidDid(did))
}

/// A read of a resolved service.
#[derive(Debug)]
pub struct PlannedRead {
    /// Name of the service.
    pub service_name: String,
    /// How to read its data.
    pub plan: ReadPlan,
}

/// SOVD-backed diagnostic handler.
///
/// Combines MDD-based service resolution with SOVD gateway communication
/// ([`SovdMapper`]) to process UDS diagnostic requests.
pub struct SovdDiagHandler {
    default_name: String,
    mapper: SovdMapper,
}

impl SovdDiagHandler {
    /// The name of the ECU that is served by default.
    pub closed spec fn ecu(&self) -> Seq<char> {
        self.default_name@
    }

    /// What the mapper knows.
    pub closed spec fn mapping(&self) -> Mapper {
        self.mapper@
    }

    /// Create a new SOVD diagnostic handler.
    pub fn new(config: &Config, mapper: SovdMapper) -> (handler: Self)
        ensures
            handler.ecu() == config@.ecu.default_name,
            handler.mapping() == mapper@,
    {
        SovdDiagHandler { default_name: config.ecu.default_name.clone(), mapper }
    }

    /// The mapper for requests and responses.
    pub fn mapper(&self) -> (mapper: &SovdMapper)
        ensures
            mapper@ == self.mapping(),
    {
        &self.mapper
    }

    /// Choose the ECU whose database is used, among those that are loaded.
    ///
    /// # Errors
    /// Returns an error if no MDD database is loaded.
    pub fn ecu_manager(&self, loaded: &[String]) -> (index: Result<usize>)
        ensures
            match index {
                Ok(i) => chosen_ecu(self.ecu(), texts(loaded@)) == Some(i as int),
                Err(e) => loaded@.len() == 0 && (e matches ProxyError::Mdd(message) && message@
                    == "No MDD database loaded"@),
            },
    {
        let ghost names = texts(loaded@);
        let mut i: usize = 0;
        while i < loaded.len()
            invariant
                i <= loaded@.len(),
                names == texts(loaded@),
                forall|j: int| 0 <= j < i ==> #[trigger] names[j] != self.ecu(),
            decreases loaded@.len() - i,
        {
            if loaded[i] == self.default_name {
                proof {
                    assert(names[i as int] == self.ecu());
                    names.index_of_first_ensures(self.ecu());
                    let first = names.index_of_first(self.ecu())->0;
                    assert(names[first] == self.ecu());
                    assert(first == i);
                }
                return Ok(i);
            }
            assert(names[i as int] != self.ecu());
            i = i + 1;
        }
        assert(!names.contains(self.ecu()));
        if loaded.len() == 0 {
            Err(ProxyError::Mdd("No MDD database loaded".to_owned()))
        } else {
            Ok(0)
        }
    }

    /// Decide on a `ReadDataByIdentifier` (0x22) request, once its DID was
    /// resolved.
    ///
    /// # Errors
    /// Returns an error if the DID is unknown.
    pub fn handle_read_did(&self, did: u16, resolved: Option<ResolvedService>) -> (plan: Result<
        PlannedRead,
    >)
        ensures
            match resolved {
                Some(service) => {
                    &&& plan matches Ok(p)
                    &&& p.service_name == service.name
                    &&& is_read_plan(p.plan, self.mapping(), service.name@)
                },
                None => is_unknown_did(plan, did),
            },
    {
        match resolved {
            Some(service) => {
                let plan = self.mapper.process_read_data_request(service.name.as_str());
                Ok(PlannedRead { service_name: service.name, plan })
            },
            None => Err(ProxyError::from(UdsError::InvalidDid(did))),
        }
    }

    /// Decide on a `WriteDataByIdentifier` (0x2E) request, once its DID was
    /// resolved.
    ///
    /// `uds_request` is the full UDS request bytes including the SID byte.
    ///
    /// # Errors
    /// Returns an error if the DID is unknown or the request carries no data.
    pub fn handle_write_did(
        &self,
        did: u16,
        uds_request: &[u8],
        resolved: Option<ResolvedService>,
    ) -> (plan: Result<WritePlan>)
        ensures
            match resolved {
                Some(service) => is_write_plan(
                    plan,
                    self.mapping(),
                    uds_request@,
                    service.name@,
                    service.params,
                ),
                None => is_unknown_did(plan, did),
            },
    {
        match resolved {
            Some(service) => self.mapper.process_write_data_request(
                uds_request,
                service.name.as_str(),
                service.params,
            ),
            None => Err(ProxyError::from(UdsError::InvalidDid(did))),
        }
    }
}

} // verus!
