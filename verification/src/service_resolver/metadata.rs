//! Response metadata of services.
//!
//! [`MetadataProvider`] decides which response layout describes a service
//! best: its own one, or that of a sibling with a MUX case for the DID.

use crate::service_resolver::model::{
    DiagServiceError, ParameterTypeMetadata, ResponseParameterInfo,
};
use crate::service_resolver::uds_helpers::{has_exact_case, has_mux_case_for_did_exact};
use crate::service_resolver::uds_service_ids::{
    READ_DATA_BY_IDENTIFIER, WRITE_DATA_BY_IDENTIFIER,
};
use crate::text::{chars_of, contains_char};
use vstd::prelude::*;

verus! {

/// The parameter bears data: it is neither a coded constant nor a copy of
/// request bytes.
pub open spec fn is_data_param(p: ResponseParameterInfo) -> bool {
    p.param_type is Value || p.param_type is PhysConst
}

/// The parameters that bear data, in order.
pub open spec fn data_params(meta: Seq<ResponseParameterInfo>) -> Seq<ResponseParameterInfo>
    decreases meta.len(),
{
    if meta.len() == 0 {
        Seq::empty()
    } else if is_data_param(meta.last()) {
        data_params(meta.drop_last()).push(meta.last())
    } else {
        data_params(meta.drop_last())
    }
}

/// The layout is opaque: its only data is one parameter of unknown size that
/// is no part of another.
pub open spec fn is_opaque(meta: Seq<ResponseParameterInfo>) -> bool {
    let data = data_params(meta);
    data.len() == 1 && data[0].byte_size is None && !data[0].name@.contains('/')
}

/// The response layout of another service, if it has one.
#[derive(Debug, Clone)]
pub struct SiblingLayout {
    /// Name of the service.
    pub name: String,
    /// Its response layout.
    pub layout: Option<Vec<ResponseParameterInfo>>,
}

/// The sibling can stand in for an opaque layout: it is another service, says
/// more, and has a MUX case that starts at the DID.
pub open spec fn is_richer_sibling(
    sibling: SiblingLayout,
    service_name: Seq<char>,
    own_len: nat,
    did: u16,
) -> bool {
    &&& sibling.name@ != service_name
    &&& sibling.layout matches Some(layout) && layout@.len() > own_len && has_exact_case(
        layout@,
        did,
    )
}

/// The first sibling that can stand in.
pub open spec fn richer_sibling(
    siblings: Seq<SiblingLayout>,
    service_name: Seq<char>,
    own_len: nat,
    did: u16,
) -> Option<SiblingLayout>
    decreases siblings.len(),
{
    if siblings.len() == 0 {
        None
    } else if is_richer_sibling(siblings[0], service_name, own_len, did) {
        Some(siblings[0])
    } else {
        richer_sibling(siblings.skip(1), service_name, own_len, did)
    }
}

/// `enriched` is the layout to use for a service, with the service it comes
/// from.
pub open spec fn is_enriched(
    enriched: (Vec<ResponseParameterInfo>, String),
    service_name: Seq<char>,
    did: u16,
    own: Vec<ResponseParameterInfo>,
    siblings: Seq<SiblingLayout>,
) -> bool {
    let sibling = richer_sibling(siblings, service_name, own@.len(), did);
    if is_opaque(own@) && sibling is Some {
        enriched.0 == sibling->0.layout->0 && enriched.1 == sibling->0.name
    } else {
        enriched.0 == own && enriched.1@ == service_name
    }
}

/// `names` are the services under a SID: those that read data under 0x22, those
/// that write configurations under 0x2E, or the error of their lookup, and none
/// under any other.
pub open spec fn are_names_under_sid(
    names: Result<Vec<String>, DiagServiceError>,
    sid: u8,
    data: Vec<String>,
    configurations: Result<Vec<String>, DiagServiceError>,
) -> bool {
    if sid == READ_DATA_BY_IDENTIFIER {
        names == Ok::<Vec<String>, DiagServiceError>(data)
    } else if sid == WRITE_DATA_BY_IDENTIFIER {
        names == configurations
    } else {
        names matches Ok(list) && list@.len() == 0
    }
}

/// Chooses among response layouts.
pub struct MetadataProvider;

impl MetadataProvider {
    /// Tells whether a response layout is a single reference to a STRUCTURE
    /// whose fields are not spelled out. Only then are siblings looked at.
    pub fn is_opaque_response(meta: &[ResponseParameterInfo]) -> (opaque: bool)
        ensures
            opaque == is_opaque(meta@),
    {
        let mut count: usize = 0;
        let mut first: usize = 0;
        let mut i: usize = 0;
        while i < meta.len()
            invariant
                i <= meta@.len(),
                count <= i,
                count == data_params(meta@.take(i as int)).len(),
                count > 0 ==> first < i && data_params(meta@.take(i as int))[0]
                    == meta@[first as int],
            decreases meta@.len() - i,
        {
            proof {
                assert(meta@.take(i + 1).drop_last() =~= meta@.take(i as int));
                assert(meta@.take(i + 1).last() == meta@[i as int]);
            }
            match &meta[i].param_type {
                ParameterTypeMetadata::Value { .. } | ParameterTypeMetadata::PhysConst { .. } => {
                    if count == 0 {
                        first = i;
                    }
                    count = count + 1;
                },
                _ => {},
            }
            i = i + 1;
        }
        assert(meta@.take(i as int) =~= meta@);
        count == 1 && meta[first].byte_size.is_none() && !contains_char(
            chars_of(meta[first].name.as_str()).as_slice(),
            '/',
        )
    }

    /// Retrieve enriched POS-RESPONSE metadata with the source service name.
    ///
    /// `own` is the layout of the service itself, `siblings` are the layouts of
    /// the READ services. When the own response is opaque (a single STRUCTURE
    /// ref) and a MUX-based sibling covers the DID, the sibling's layout is
    /// used, and the returned name is the sibling's.
    ///
    /// # Errors
    ///
    /// Returns the error of the own layout when there is none.
    pub fn get_enriched_response_metadata_with_source(
        service_name: &str,
        did: u16,
        own: Result<Vec<ResponseParameterInfo>, DiagServiceError>,
        siblings: Vec<SiblingLayout>,
    ) -> (enriched: Result<(Vec<ResponseParameterInfo>, String), DiagServiceError>)
        ensures
            match own {
                Ok(meta) => enriched is Ok && is_enriched(
                    enriched->Ok_0,
                    service_name@,
                    did,
                    meta,
                    siblings@,
                ),
                Err(e) => enriched == Err::<(Vec<ResponseParameterInfo>, String), _>(e),
            },
    {
        let meta = match own {
            Ok(meta) => meta,
            Err(e) => {
                return Err(e);
            },
        };
        if !Self::is_opaque_response(meta.as_slice()) {
            return Ok((meta, service_name.to_owned()));
        }
        let own_name = service_name.to_owned();
        let mut siblings = siblings;
        let ghost all = siblings@;
        let mut i: usize = 0;
        let mut found = false;
        assert(all.skip(0) =~= all);
        while i < siblings.len()
            invariant_except_break
                !found,
                richer_sibling(all, service_name@, meta@.len(), did) == richer_sibling(
                    all.skip(i as int),
                    service_name@,
                    meta@.len(),
                    did,
                ),
            invariant
                siblings@ == all,
                i <= all.len(),
                own_name@ == service_name@,
            ensures
                found ==> i < all.len() && richer_sibling(
                    all,
                    service_name@,
                    meta@.len(),
                    did,
                ) == Some(all[i as int]) && all[i as int].layout is Some,
                !found ==> richer_sibling(all, service_name@, meta@.len(), did) is None,
            decreases all.len() - i,
        {
            proof {
                assert(all.skip(i as int).skip(1) =~= all.skip(i + 1));
                assert(all.skip(i as int)[0] == all[i as int]);
            }
            if siblings[i].name != own_name {
                if let Some(layout) = &siblings[i].layout {
                    if layout.len() > meta.len() && has_mux_case_for_did_exact(
                        layout.as_slice(),
                        did,
                    ) {
                        found = true;
                        break;
                    }
                }
            }
            i = i + 1;
        }
        if found {
            let sibling = siblings.remove(i);
            if let Some(layout) = sibling.layout {
                return Ok((layout, sibling.name));
            }
        }
        Ok((meta, own_name))
    }

    /// Retrieve enriched POS-RESPONSE metadata for a service and DID.
    ///
    /// Some services have a direct POS-RESPONSE that references a STRUCTURE as
    /// a single opaque VALUE param without sub-fields. A shared MUX-based
    /// response of a sibling spells out the sub-fields of every DID, and is
    /// returned instead where it exists.
    ///
    /// # Errors
    ///
    /// Returns the error of the own layout when there is none.
    pub fn get_enriched_response_metadata(
        service_name: &str,
        did: u16,
        own: Result<Vec<ResponseParameterInfo>, DiagServiceError>,
        siblings: Vec<SiblingLayout>,
    ) -> (enriched: Result<Vec<ResponseParameterInfo>, DiagServiceError>)
        ensures
            match own {
                Ok(meta) => enriched is Ok && ({
                    let sibling = richer_sibling(siblings@, service_name@, meta@.len(), did);
                    if is_opaque(meta@) && sibling is Some {
                        enriched->Ok_0 == sibling->0.layout->0
                    } else {
                        enriched->Ok_0 == meta
                    }
                }),
                Err(e) => enriched == Err::<Vec<ResponseParameterInfo>, _>(e),
            },
    {
        match Self::get_enriched_response_metadata_with_source(service_name, did, own, siblings) {
            Ok((meta, _source)) => Ok(meta),
            Err(e) => Err(e),
        }
    }

    /// Return the best available POS-RESPONSE metadata for a service and DID.
    ///
    /// Takes the enriched (MUX-substituted) layout first and falls back to the
    /// plain POS-RESPONSE layout when there is none.
    ///
    /// # Errors
    ///
    /// Returns the error of the plain layout when both are missing.
    pub fn get_response_metadata(
        enriched: Result<Vec<ResponseParameterInfo>, DiagServiceError>,
        plain: Result<Vec<ResponseParameterInfo>, DiagServiceError>,
    ) -> (meta: Result<Vec<ResponseParameterInfo>, DiagServiceError>)
        ensures
            meta == if enriched is Ok {
                enriched
            } else {
                plain
            },
    {
        match enriched {
            Ok(meta) => Ok(meta),
            Err(_) => plain,
        }
    }

    /// Return all service names registered under a given UDS SID.
    ///
    /// `data` are the names of the services that read data, `configurations`
    /// is what the lookup of the services that write configurations gave.
    /// Returns the former for SID 0x22, the latter for SID 0x2E, and an empty
    /// vector for unrecognised SIDs.
    ///
    /// # Errors
    ///
    /// Returns the error of the lookup that the SID asks for.
    pub fn lookup_service_names_by_sid(
        sid: u8,
        data: Vec<String>,
        configurations: Result<Vec<String>, DiagServiceError>,
    ) -> (names: Result<Vec<String>, DiagServiceError>)
        ensures
            are_names_under_sid(names, sid, data, configurations),
    {
        if sid == READ_DATA_BY_IDENTIFIER {
            Ok(data)
        } else if sid == WRITE_DATA_BY_IDENTIFIER {
            configurations
        } else {
            Ok(Vec::new())
        }
    }
}

/// A layout that stands in for an opaque one has a MUX case for the DID, so
/// the DID selects its fields.
pub proof fn lemma_stand_in_covers_did(
    siblings: Seq<SiblingLayout>,
    service_name: Seq<char>,
    own_len: nat,
    did: u16,
)
    ensures
        richer_sibling(siblings, service_name, own_len, did) matches Some(s) ==> {
            &&& siblings.contains(s)
            &&& is_richer_sibling(s, service_name, own_len, did)
            &&& crate::service_resolver::uds_helpers::mux_case_prefix(s.layout->0@, did) is Some
        },
    decreases siblings.len(),
{
    if siblings.len() > 0 {
        if is_richer_sibling(siblings[0], service_name, own_len, did) {
            crate::service_resolver::uds_helpers::lemma_exact_case_covers(
                siblings[0].layout->0@,
                did,
            );
        } else {
            lemma_stand_in_covers_did(siblings.skip(1), service_name, own_len, did);
            if let Some(s) = richer_sibling(siblings.skip(1), service_name, own_len, did) {
                let i = choose|i: int| 0 <= i < siblings.skip(1).len() && siblings.skip(1)[i] == s;
                assert(siblings[i + 1] == s);
            }
        }
    }
}

} // verus!
