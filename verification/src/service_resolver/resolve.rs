//! DID-to-service resolution.
//!
//! Resolves incoming UDS DID values to the correct MDD service name
//! using prefix lookup, request parameter metadata, and encoding probes.
//!
//! The database is asked from outside: [`DidResolver::action`] says what to
//! ask, and the answer is handed back, until the service is found or no
//! candidate is left.

use crate::json::{JsonMap, JsonValue};
use crate::number::{literal_of, parse_u64_literal};
use crate::service_resolver::model::{DiagComm, ParameterTypeMetadata, ServiceParameterMetadata};
use crate::service_resolver::uds_helpers::{
    did_in, did_matches_compu_scales, did_param, extract_did_from_uds, find_did_param,
    in_some_scale,
};
use crate::service_resolver::uds_service_ids::{
    READ_DATA_BY_IDENTIFIER, WRITE_DATA_BY_IDENTIFIER,
};
use vstd::prelude::*;

verus! {

/// The kind of service that a request asks for.
#[derive(Debug, Clone, Copy, PartialEq, Eq, Structural)]
pub enum ServiceType {
    /// `ReadDataByIdentifier` (SID 0x22).
    Read,
    /// `WriteDataByIdentifier` (SID 0x2E).
    Write,
}

impl ServiceType {
    /// The service identifier of this kind of service.
    pub open spec fn service_id(self) -> u8 {
        match self {
            ServiceType::Read => READ_DATA_BY_IDENTIFIER,
            ServiceType::Write => WRITE_DATA_BY_IDENTIFIER,
        }
    }

    /// UDS service identifier byte.
    pub fn sid(self) -> (sid: u8)
        ensures
            sid == self.service_id(),
    {
        match self {
            ServiceType::Read => READ_DATA_BY_IDENTIFIER,
            ServiceType::Write => WRITE_DATA_BY_IDENTIFIER,
        }
    }

    /// Human-readable label for log messages.
    pub fn label(self) -> (label: &'static str)
        ensures
            label@ == match self {
                ServiceType::Read => "READ"@,
                ServiceType::Write => "WRITE"@,
            },
    {
        match self {
            ServiceType::Read => "READ",
            ServiceType::Write => "WRITE",
        }
    }
}

/// Successful result of DID-to-service resolution.
pub struct ResolvedService {
    /// Matched MDD service name (e.g. `"RDBI_VIN"`).
    pub name: String,
    /// Decoded request parameters, or an empty map when the request could not
    /// be decoded for the matched service.
    pub params: JsonMap,
}

/// The name to look a service up by.
pub open spec fn service_name(comm: DiagComm) -> Seq<char> {
    match comm.lookup_name {
        Some(name) => name@,
        None => comm.name@,
    }
}

/// The names to look services up by.
pub open spec fn service_names(comms: Seq<DiagComm>) -> Seq<Seq<char>> {
    comms.map_values(|c: DiagComm| service_name(c))
}

/// The texts of some strings.
pub open spec fn texts(strings: Seq<String>) -> Seq<Seq<char>> {
    strings.map_values(|s: String| s@)
}

/// The first occurrence of each name, in order.
pub open spec fn first_occurrences(names: Seq<Seq<char>>) -> Seq<Seq<char>>
    decreases names.len(),
{
    if names.len() == 0 {
        Seq::empty()
    } else {
        let before = first_occurrences(names.drop_last());
        if before.contains(names.last()) {
            before
        } else {
            before.push(names.last())
        }
    }
}

/// The candidates for a DID: the one prefix match if there is exactly one,
/// else every prefix match and every other service, each once.
pub open spec fn did_candidates(
    prefix_matches: Seq<DiagComm>,
    extra_names: Seq<Seq<char>>,
) -> Seq<Seq<char>> {
    if prefix_matches.len() == 1 {
        service_names(prefix_matches)
    } else {
        first_occurrences(service_names(prefix_matches) + extra_names)
    }
}

/// No name is listed twice, and what is listed is what was given.
pub proof fn lemma_first_occurrences(names: Seq<Seq<char>>)
    ensures
        first_occurrences(names).no_duplicates(),
        forall|n: Seq<char>| first_occurrences(names).contains(n) <==> names.contains(n),
    decreases names.len(),
{
    if names.len() > 0 {
        let shorter = names.drop_last();
        let before = first_occurrences(shorter);
        lemma_first_occurrences(shorter);
        let listed = first_occurrences(names);
        assert forall|n: Seq<char>| first_occurrences(names).contains(n) <==> names.contains(n) by {
            assert(before.contains(n) <==> shorter.contains(n));
            if names.contains(n) {
                let i = choose|i: int| 0 <= i < names.len() && names[i] == n;
                if i < shorter.len() {
                    assert(shorter[i] == n);
                    let k = choose|k: int| 0 <= k < before.len() && before[k] == n;
                    assert(listed[k] == n);
                } else if !before.contains(n) {
                    assert(listed[before.len() as int] == n);
                }
            }
            if listed.contains(n) {
                let k = choose|k: int| 0 <= k < listed.len() && listed[k] == n;
                if k < before.len() {
                    assert(before[k] == n);
                    let i = choose|i: int| 0 <= i < shorter.len() && shorter[i] == n;
                    assert(names[i] == n);
                } else {
                    assert(names[names.len() - 1] == n);
                }
            }
        }
    }
}

/// A value for a parameter of a probe request.
#[derive(Debug, Clone)]
pub enum ProbeValue {
    /// A coded number.
    Number(u64),
    /// A physical value.
    Text(String),
}

/// What a [`ProbeValue`] holds.
pub enum ProbeValueView {
    Number(u64),
    Text(Seq<char>),
}

impl View for ProbeValue {
    type V = ProbeValueView;

    open spec fn view(&self) -> ProbeValueView {
        match self {
            ProbeValue::Number(n) => ProbeValueView::Number(*n),
            ProbeValue::Text(s) => ProbeValueView::Text(s@),
        }
    }
}

/// A parameter of a probe request. Of several with one name the last counts.
#[derive(Debug, Clone)]
pub struct ProbeParameter {
    /// Name of the parameter.
    pub name: String,
    /// Value to encode.
    pub value: ProbeValue,
}

impl View for ProbeParameter {
    type V = (Seq<char>, ProbeValueView);

    open spec fn view(&self) -> (Seq<char>, ProbeValueView) {
        (self.name@, self.value@)
    }
}

/// What some probe parameters hold.
pub open spec fn probe_views(params: Seq<ProbeParameter>) -> Seq<(Seq<char>, ProbeValueView)> {
    params.map_values(|p: ProbeParameter| p@)
}

/// The request that probes a service for its DID: coded constants by their
/// number, physical constants by their text, and `"0"` for other values.
/// `None` if a coded constant is no number.
pub open spec fn probe_request(params: Seq<ServiceParameterMetadata>) -> Option<
    Seq<(Seq<char>, ProbeValueView)>,
>
    decreases params.len(),
{
    if params.len() == 0 {
        Some(Seq::empty())
    } else {
        match probe_request(params.drop_last()) {
            None => None,
            Some(before) => {
                let name = params.last().name@;
                match params.last().param_type {
                    ParameterTypeMetadata::CodedConst { coded_value } => match literal_of(
                        coded_value@,
                    ) {
                        Some(n) => Some(before.push((name, ProbeValueView::Number(n)))),
                        None => None,
                    },
                    ParameterTypeMetadata::PhysConst { phys_constant_value, .. } => Some(
                        before.push((name, ProbeValueView::Text(phys_constant_value@))),
                    ),
                    ParameterTypeMetadata::Value { .. } => Some(
                        before.push((name, ProbeValueView::Text("0"@))),
                    ),
                    ParameterTypeMetadata::MatchingRequestParam { .. } => Some(before),
                }
            },
        }
    }
}

/// The DID that a probe found. DID zero is reserved and counts as none.
pub open spec fn probed_did(payload: Option<Seq<u8>>) -> Option<u16> {
    match payload {
        Some(data) => if did_in(data) == Some(0u16) {
            None
        } else {
            did_in(data)
        },
        None => None,
    }
}

/// What request metadata says about a candidate.
#[derive(Debug, Clone, Copy, PartialEq, Eq, Structural)]
pub enum CandidateVerdict {
    /// The candidate serves the DID.
    Matched,
    /// It does not.
    Rejected,
    /// Only encoding a request can tell.
    NeedsProbe,
}

/// What request metadata says about a candidate.
///
/// - `CodedConst`: exact DID match.
/// - `PhysConst`: the low 16 bits of the coded value, or a probe without one.
/// - `Value`: the low 16 bits of the coded default, or a range match.
pub open spec fn candidate_verdict(
    meta: Option<Seq<ServiceParameterMetadata>>,
    sid: u8,
    did: u16,
) -> CandidateVerdict {
    let matched = match meta {
        None => false,
        Some(params) => match did_param(params, sid, false) {
            None => false,
            Some(p) => match p.param_type {
                ParameterTypeMetadata::CodedConst { coded_value } => literal_of(coded_value@)
                    == Some(did as u64),
                ParameterTypeMetadata::PhysConst { coded_value, .. } => coded_value matches Some(
                    cv,
                ) && cv % 0x1_0000 == did,
                ParameterTypeMetadata::Value { coded_default_value, compu_scales, .. } => {
                    ||| (coded_default_value matches Some(cd) && cd % 0x1_0000 == did)
                    ||| in_some_scale(compu_scales@, did)
                },
                ParameterTypeMetadata::MatchingRequestParam { .. } => false,
            },
        },
    };
    if needs_probe(meta, sid) {
        CandidateVerdict::NeedsProbe
    } else if matched {
        CandidateVerdict::Matched
    } else {
        CandidateVerdict::Rejected
    }
}

/// The DID parameter is a physical constant without a coded value.
pub open spec fn needs_probe(meta: Option<Seq<ServiceParameterMetadata>>, sid: u8) -> bool {
    meta matches Some(params) && did_param(params, sid, false) matches Some(p) && (
    p.param_type matches ParameterTypeMetadata::PhysConst { coded_value, .. } && coded_value is None)
}

/// A candidate serves the DID, by its metadata or by a probe.
pub open spec fn candidate_matches(
    meta: Option<Seq<ServiceParameterMetadata>>,
    payload: Option<Seq<u8>>,
    sid: u8,
    did: u16,
) -> bool {
    match candidate_verdict(meta, sid, did) {
        CandidateVerdict::Matched => true,
        CandidateVerdict::Rejected => false,
        CandidateVerdict::NeedsProbe => probe_request(meta->0) is Some && probed_did(payload)
            == Some(did),
    }
}

/// Build the candidate list from prefix lookup and supplementary sources.
///
/// Returns a single name on a unique prefix match (fast path), and `None` when
/// no candidates exist.
pub fn build_did_candidates(prefix_matches: &[DiagComm], extra_names: &[String]) -> (candidates:
    Option<Vec<String>>)
    ensures
        match candidates {
            Some(names) => names@.len() > 0 && texts(names@) == did_candidates(
                prefix_matches@,
                texts(extra_names@),
            ),
            None => did_candidates(prefix_matches@, texts(extra_names@)).len() == 0,
        },
{
    let ghost prefix_names = service_names(prefix_matches@);
    let ghost all = prefix_names + texts(extra_names@);
    let mut candidates: Vec<String> = Vec::new();
    let mut i: usize = 0;
    assert(texts(candidates@) =~= first_occurrences(all.take(0)));
    while i < prefix_matches.len()
        invariant
            i <= prefix_matches@.len(),
            prefix_names == service_names(prefix_matches@),
            all == prefix_names + texts(extra_names@),
            texts(candidates@) == first_occurrences(all.take(i as int)),
        decreases prefix_matches@.len() - i,
    {
        let name = match &prefix_matches[i].lookup_name {
            Some(name) => name.clone(),
            None => prefix_matches[i].name.clone(),
        };
        proof {
            assert(name@ == all[i as int]);
            assert(all.take(i + 1).drop_last() =~= all.take(i as int));
        }
        push_new_name(&mut candidates, name);
        i = i + 1;
    }
    if prefix_matches.len() == 1 {
        proof {
            reveal_with_fuel(first_occurrences, 2);
            assert(all.take(1).drop_last() =~= Seq::empty());
            assert(texts(candidates@) =~= service_names(prefix_matches@));
            assert(texts(candidates@).len() == candidates@.len());
        }
        return Some(candidates);
    }
    let mut j: usize = 0;
    while j < extra_names.len()
        invariant
            j <= extra_names@.len(),
            prefix_names.len() == prefix_matches@.len(),
            all == prefix_names + texts(extra_names@),
            texts(candidates@) == first_occurrences(all.take(prefix_names.len() + j)),
        decreases extra_names@.len() - j,
    {
        let name = extra_names[j].clone();
        proof {
            let at = prefix_names.len() + j;
            assert(name@ == all[at]);
            assert(all.take(at + 1).drop_last() =~= all.take(at));
        }
        push_new_name(&mut candidates, name);
        j = j + 1;
    }
    assert(all.take(prefix_names.len() + j) =~= all);
    assert(texts(candidates@).len() == candidates@.len());
    if candidates.len() == 0 {
        None
    } else {
        Some(candidates)
    }
}

/// Appends a name unless it is listed already.
fn push_new_name(names: &mut Vec<String>, name: String)
    ensures
        texts(final(names)@) == (if texts(old(names)@).contains(name@) {
            texts(old(names)@)
        } else {
            texts(old(names)@).push(name@)
        }),
{
    let mut i: usize = 0;
    while i < names.len()
        invariant
            i <= names@.len(),
            names@ == old(names)@,
            forall|j: int| 0 <= j < i ==> (#[trigger] names@[j])@ != name@,
        decreases names@.len() - i,
    {
        if names[i] == name {
            assert(texts(names@)[i as int] == name@);
            return ;
        }
        i = i + 1;
    }
    proof {
        assert forall|j: int| 0 <= j < texts(names@).len() implies texts(names@)[j] != name@ by {
            assert(names@[j]@ != name@);
        }
    }
    names.push(name);
    assert(texts(names@) =~= texts(old(names)@).push(name@));
}

/// Check if a candidate matches a DID via request parameter metadata.
pub fn match_candidate_did(
    meta: Option<&Vec<ServiceParameterMetadata>>,
    sid: u8,
    did: u16,
) -> (verdict: CandidateVerdict)
    ensures
        verdict == candidate_verdict(
            match meta {
                Some(m) => Some(m@),
                None => None,
            },
            sid,
            did,
        ),
{
    let params = match meta {
        Some(m) => m,
        None => {
            return CandidateVerdict::Rejected;
        },
    };
    let param = match find_did_param(params.as_slice(), sid) {
        Some(p) => p,
        None => {
            return CandidateVerdict::Rejected;
        },
    };
    let matched = match &param.param_type {
        ParameterTypeMetadata::CodedConst { coded_value } => match parse_u64_literal(
            coded_value.as_str(),
        ) {
            Some(value) => value == did as u64,
            None => false,
        },
        ParameterTypeMetadata::PhysConst { coded_value, .. } => match coded_value {
            Some(value) => *value % 0x1_0000 == did as u64,
            None => {
                return CandidateVerdict::NeedsProbe;
            },
        },
        ParameterTypeMetadata::Value { coded_default_value, compu_scales, .. } => {
            let default_ok = match coded_default_value {
                Some(value) => *value % 0x1_0000 == did as u64,
                None => false,
            };
            default_ok || did_matches_compu_scales(compu_scales.as_slice(), did)
        },
        ParameterTypeMetadata::MatchingRequestParam { .. } => false,
    };
    if matched {
        CandidateVerdict::Matched
    } else {
        CandidateVerdict::Rejected
    }
}

/// Build the parameters of a probe request for symbolic PHYS-CONST cases.
///
/// Returns `None` if a `CodedConst` cannot be parsed, as no valid probe
/// request can be built then.
pub fn probe_parameters(params: &[ServiceParameterMetadata]) -> (request: Option<
    Vec<ProbeParameter>,
>)
    ensures
        match request {
            Some(r) => probe_request(params@) == Some(probe_views(r@)),
            None => probe_request(params@) is None,
        },
{
    let mut request: Vec<ProbeParameter> = Vec::new();
    assert(probe_views(request@) =~= Seq::empty());
    let mut i: usize = 0;
    while i < params.len()
        invariant
            i <= params@.len(),
            probe_request(params@.take(i as int)) == Some(probe_views(request@)),
        decreases params@.len() - i,
    {
        let ghost before = request@;
        proof {
            assert(params@.take(i + 1).drop_last() =~= params@.take(i as int));
            assert(params@.take(i + 1).last() == params@[i as int]);
        }
        let value: Option<ProbeValue> = match &params[i].param_type {
            ParameterTypeMetadata::CodedConst { coded_value } => match parse_u64_literal(
                coded_value.as_str(),
            ) {
                Some(n) => Some(ProbeValue::Number(n)),
                None => {
                    proof {
                        lemma_probe_fails(params@, i + 1);
                    }
                    return None;
                },
            },
            ParameterTypeMetadata::PhysConst { phys_constant_value, .. } => Some(
                ProbeValue::Text(phys_constant_value.clone()),
            ),
            ParameterTypeMetadata::Value { .. } => Some(ProbeValue::Text("0".to_owned())),
            ParameterTypeMetadata::MatchingRequestParam { .. } => None,
        };
        if let Some(value) = value {
            let parameter = ProbeParameter { name: params[i].name.clone(), value };
            request.push(parameter);
            assert(probe_views(request@) =~= probe_views(before).push(parameter@));
        }
        i = i + 1;
    }
    assert(params@.take(i as int) =~= params@);
    Some(request)
}

proof fn lemma_probe_fails(params: Seq<ServiceParameterMetadata>, cut: int)
    requires
        0 <= cut <= params.len(),
        probe_request(params.take(cut)) is None,
    ensures
        probe_request(params) is None,
    decreases params.len(),
{
    if cut == params.len() {
        assert(params.take(cut) =~= params);
    } else {
        assert(params.drop_last().take(cut) =~= params.take(cut));
        lemma_probe_fails(params.drop_last(), cut);
    }
}

/// The DID in the payload that a probe encoded.
pub fn read_probed_did(payload: Option<&Vec<u8>>) -> (did: Option<u16>)
    ensures
        did == probed_did(
            match payload {
                Some(data) => Some(data@),
                None => None,
            },
        ),
{
    match payload {
        Some(data) => match extract_did_from_uds(data.as_slice()) {
            Some(did) => if did == 0 {
                None
            } else {
                Some(did)
            },
            None => None,
        },
        None => None,
    }
}

/// How far a resolution has come. The number is the candidate it is at.
pub enum Phase {
    /// The candidate's request metadata is wanted.
    FetchMetadata(int),
    /// A probe request for the candidate is to be encoded.
    Probe(int, Seq<(Seq<char>, ProbeValueView)>),
    /// The candidate serves the DID.
    Resolved(int),
    /// No candidate serves the DID.
    NotFound,
}

/// The state of a resolution.
pub struct Resolution {
    pub sid: u8,
    pub did: u16,
    pub candidates: Seq<Seq<char>>,
    pub phase: Phase,
}

impl Resolution {
    /// The state before anything was asked. A unique prefix match is the
    /// result at once.
    pub open spec fn start(
        sid: u8,
        did: u16,
        prefix_matches: Seq<DiagComm>,
        extra_names: Seq<Seq<char>>,
    ) -> Resolution {
        let candidates = did_candidates(prefix_matches, extra_names);
        Resolution {
            sid,
            did,
            candidates,
            phase: if prefix_matches.len() == 1 {
                Phase::Resolved(0)
            } else if candidates.len() == 0 {
                Phase::NotFound
            } else {
                Phase::FetchMetadata(0)
            },
        }
    }

    /// The state in which a candidate is looked at next.
    pub open spec fn at(self, index: int) -> Resolution {
        Resolution {
            phase: if index < self.candidates.len() {
                Phase::FetchMetadata(index)
            } else {
                Phase::NotFound
            },
            ..self
        }
    }

    /// The state after the wanted metadata came in.
    pub open spec fn after_metadata(
        self,
        meta: Option<Seq<ServiceParameterMetadata>>,
    ) -> Resolution {
        match self.phase {
            Phase::FetchMetadata(i) => match candidate_verdict(meta, self.sid, self.did) {
                CandidateVerdict::Matched => Resolution { phase: Phase::Resolved(i), ..self },
                CandidateVerdict::Rejected => self.at(i + 1),
                CandidateVerdict::NeedsProbe => match probe_request(meta->0) {
                    Some(request) => Resolution { phase: Phase::Probe(i, request), ..self },
                    None => self.at(i + 1),
                },
            },
            _ => self,
        }
    }

    /// The state after the probe request was encoded.
    pub open spec fn after_probe(self, payload: Option<Seq<u8>>) -> Resolution {
        match self.phase {
            Phase::Probe(i, _) => if probed_did(payload) == Some(self.did) {
                Resolution { phase: Phase::Resolved(i), ..self }
            } else {
                self.at(i + 1)
            },
            _ => self,
        }
    }

    /// The state after one candidate was looked at, with the answers for it.
    pub open spec fn after_candidate(
        self,
        meta: Option<Seq<ServiceParameterMetadata>>,
        payload: Option<Seq<u8>>,
    ) -> Resolution {
        let next = self.after_metadata(meta);
        if next.phase is Probe {
            next.after_probe(payload)
        } else {
            next
        }
    }

    /// The end of a resolution in which a database gives the answers.
    pub open spec fn outcome(
        self,
        metadata: spec_fn(Seq<char>) -> Option<Seq<ServiceParameterMetadata>>,
        payloads: spec_fn(Seq<char>) -> Option<Seq<u8>>,
    ) -> Resolution
        decreases
            match self.phase {
                Phase::FetchMetadata(i) => self.candidates.len() - i + 1,
                _ => 0,
            },
    {
        match self.phase {
            Phase::FetchMetadata(i) => if 0 <= i < self.candidates.len() {
                let name = self.candidates[i];
                self.after_candidate(metadata(name), payloads(name)).outcome(metadata, payloads)
            } else {
                self
            },
            _ => self,
        }
    }
}

/// A resolution ends at the first candidate that serves the DID, and finds
/// nothing only if no candidate does.
pub proof fn lemma_first_match_resolves(
    state: Resolution,
    from: int,
    metadata: spec_fn(Seq<char>) -> Option<Seq<ServiceParameterMetadata>>,
    payloads: spec_fn(Seq<char>) -> Option<Seq<u8>>,
)
    requires
        0 <= from < state.candidates.len(),
        state.phase == Phase::FetchMetadata(from),
    ensures
        ({
            let serves = |i: int|
                candidate_matches(
                    metadata(state.candidates[i]),
                    payloads(state.candidates[i]),
                    state.sid,
                    state.did,
                );
            match state.outcome(metadata, payloads).phase {
                Phase::Resolved(i) => from <= i < state.candidates.len() && serves(i) && forall|
                    j: int,
                |
                    from <= j < i ==> !#[trigger] serves(j),
                Phase::NotFound => forall|j: int|
                    from <= j < state.candidates.len() ==> !#[trigger] serves(j),
                _ => false,
            }
        }),
    decreases state.candidates.len() - from,
{
    let name = state.candidates[from];
    let next = state.after_candidate(metadata(name), payloads(name));
    let serves = |i: int|
        candidate_matches(
            metadata(state.candidates[i]),
            payloads(state.candidates[i]),
            state.sid,
            state.did,
        );
    if serves(from) {
        assert(next.phase == Phase::Resolved(from));
    } else {
        assert(next == state.at(from + 1));
        if from + 1 < state.candidates.len() {
            lemma_first_match_resolves(next, from + 1, metadata, payloads);
            assert(state.outcome(metadata, payloads) == next.outcome(metadata, payloads));
            let later = |i: int|
                candidate_matches(
                    metadata(next.candidates[i]),
                    payloads(next.candidates[i]),
                    next.sid,
                    next.did,
                );
            assert(forall|j: int| #[trigger] serves(j) == later(j));
        }
    }
}

/// A unique prefix match is the result, whatever else is known.
pub proof fn lemma_unique_prefix_match_resolves(
    sid: u8,
    did: u16,
    prefix_matches: Seq<DiagComm>,
    extra_names: Seq<Seq<char>>,
)
    requires
        prefix_matches.len() == 1,
    ensures
        ({
            let start = Resolution::start(sid, did, prefix_matches, extra_names);
            start.phase == Phase::Resolved(0) && start.candidates == seq![
                service_name(prefix_matches[0]),
            ]
        }),
{
    assert(service_names(prefix_matches) =~= seq![service_name(prefix_matches[0])]);
}

/// Without a unique prefix match every known service is considered, and a
/// service is found exactly if one of them serves the DID.
pub proof fn lemma_resolution_considers_all(
    sid: u8,
    did: u16,
    prefix_matches: Seq<DiagComm>,
    extra_names: Seq<Seq<char>>,
    metadata: spec_fn(Seq<char>) -> Option<Seq<ServiceParameterMetadata>>,
    payloads: spec_fn(Seq<char>) -> Option<Seq<u8>>,
)
    requires
        prefix_matches.len() != 1,
    ensures
        ({
            let known = service_names(prefix_matches) + extra_names;
            let end = Resolution::start(sid, did, prefix_matches, extra_names).outcome(
                metadata,
                payloads,
            );
            let serves = |name: Seq<char>|
                candidate_matches(metadata(name), payloads(name), sid, did);
            match end.phase {
                Phase::Resolved(i) => 0 <= i < end.candidates.len() && known.contains(
                    end.candidates[i],
                ) && serves(end.candidates[i]),
                Phase::NotFound => forall|name: Seq<char>|
                    known.contains(name) ==> !#[trigger] serves(name),
                _ => false,
            }
        }),
{
    let known = service_names(prefix_matches) + extra_names;
    let start = Resolution::start(sid, did, prefix_matches, extra_names);
    let serves = |name: Seq<char>| candidate_matches(metadata(name), payloads(name), sid, did);
    lemma_first_occurrences(known);
    lemma_outcome_keeps_candidates(start, metadata, payloads);
    let end = start.outcome(metadata, payloads);
    if start.candidates.len() > 0 {
        lemma_first_match_resolves(start, 0, metadata, payloads);
        let serves_at = |i: int|
            candidate_matches(
                metadata(start.candidates[i]),
                payloads(start.candidates[i]),
                sid,
                did,
            );
        if end.phase is Resolved {
            let i = end.phase->Resolved_0;
            assert(serves_at(i));
            assert(first_occurrences(known).contains(start.candidates[i]));
        } else {
            assert forall|name: Seq<char>| known.contains(name) implies !#[trigger] serves(name) by {
                assert(first_occurrences(known).contains(name));
                let i = choose|i: int|
                    0 <= i < start.candidates.len() && start.candidates[i] == name;
                assert(!serves_at(i));
            }
        }
    } else {
        assert forall|name: Seq<char>| known.contains(name) implies !#[trigger] serves(name) by {
            assert(first_occurrences(known).contains(name));
        }
    }
}

proof fn lemma_outcome_keeps_candidates(
    state: Resolution,
    metadata: spec_fn(Seq<char>) -> Option<Seq<ServiceParameterMetadata>>,
    payloads: spec_fn(Seq<char>) -> Option<Seq<u8>>,
)
    ensures
        state.outcome(metadata, payloads).candidates == state.candidates,
    decreases
        match state.phase {
            Phase::FetchMetadata(i) => state.candidates.len() - i + 1,
            _ => 0,
        },
{
    if let Phase::FetchMetadata(i) = state.phase {
        if 0 <= i < state.candidates.len() {
            let name = state.candidates[i];
            lemma_outcome_keeps_candidates(
                state.after_candidate(metadata(name), payloads(name)),
                metadata,
                payloads,
            );
        }
    }
}

/// What the database is to be asked next, or the result.
#[derive(Debug)]
pub enum ResolveAction {
    /// Fetch the request parameter metadata of a service.
    FetchMetadata { service: String },
    /// Encode a request of a service.
    Probe { service: String, parameters: Vec<ProbeParameter> },
    /// The service was found.
    Resolved { service: String },
    /// No service was found.
    NotFound,
}

enum State {
    FetchMetadata(usize),
    Probe(usize, Vec<ProbeParameter>),
    Resolved(usize),
    NotFound,
}

/// Resolves UDS DID values to MDD service names.
pub struct DidResolver {
    sid: u8,
    did: u16,
    candidates: Vec<String>,
    state: State,
}

impl View for DidResolver {
    type V = Resolution;

    closed spec fn view(&self) -> Resolution {
        Resolution {
            sid: self.sid,
            did: self.did,
            candidates: texts(self.candidates@),
            phase: match self.state {
                State::FetchMetadata(i) => Phase::FetchMetadata(i as int),
                State::Probe(i, parameters) => Phase::Probe(i as int, probe_views(parameters@)),
                State::Resolved(i) => Phase::Resolved(i as int),
                State::NotFound => Phase::NotFound,
            },
        }
    }
}

impl DidResolver {
    #[verifier::type_invariant]
    closed spec fn at_candidate(self) -> bool {
        match self.state {
            State::FetchMetadata(i) | State::Probe(i, _) | State::Resolved(i) => i
                < self.candidates@.len(),
            State::NotFound => true,
        }
    }

    /// Start to resolve a DID.
    ///
    /// `prefix_matches` are the services that the prefix `[SID, DID_HI, DID_LO]`
    /// of a request matches, `extra_names` are all services of the kind.
    pub fn new(
        service_type: ServiceType,
        did: u16,
        prefix_matches: &[DiagComm],
        extra_names: &[String],
    ) -> (resolver: Self)
        ensures
            resolver@ == Resolution::start(
                service_type.service_id(),
                did,
                prefix_matches@,
                texts(extra_names@),
            ),
    {
        let sid = service_type.sid();
        match build_did_candidates(prefix_matches, extra_names) {
            Some(candidates) => {
                let state = if prefix_matches.len() == 1 {
                    State::Resolved(0)
                } else {
                    State::FetchMetadata(0)
                };
                assert(texts(candidates@).len() == candidates@.len());
                DidResolver { sid, did, candidates, state }
            },
            None => {
                let candidates: Vec<String> = Vec::new();
                assert(texts(candidates@) =~= did_candidates(
                    prefix_matches@,
                    texts(extra_names@),
                ));
                DidResolver { sid, did, candidates, state: State::NotFound }
            },
        }
    }

    /// What to do next.
    pub fn action(&self) -> (action: ResolveAction)
        ensures
            match self@.phase {
                Phase::FetchMetadata(i) => action matches ResolveAction::FetchMetadata { service }
                    && service@ == self@.candidates[i],
                Phase::Probe(i, request) => action matches ResolveAction::Probe {
                    service,
                    parameters,
                } && service@ == self@.candidates[i] && probe_views(parameters@) == request,
                Phase::Resolved(i) => action matches ResolveAction::Resolved { service }
                    && service@ == self@.candidates[i],
                Phase::NotFound => action is NotFound,
            },
    {
        proof {
            use_type_invariant(self);
        }
        match &self.state {
            State::FetchMetadata(i) => ResolveAction::FetchMetadata {
                service: self.candidates[*i].clone(),
            },
            State::Probe(i, parameters) => {
                let copy = copy_parameters(parameters.as_slice());
                ResolveAction::Probe { service: self.candidates[*i].clone(), parameters: copy }
            },
            State::Resolved(i) => ResolveAction::Resolved { service: self.candidates[*i].clone() },
            State::NotFound => ResolveAction::NotFound,
        }
    }

    /// Take in the request metadata that was asked for, `None` if there is
    /// none. Metadata that was not asked for is ignored.
    pub fn metadata_fetched(&mut self, meta: Option<Vec<ServiceParameterMetadata>>)
        ensures
            final(self)@ == old(self)@.after_metadata(
                match meta {
                    Some(m) => Some(m@),
                    None => None,
                },
            ),
    {
        proof {
            use_type_invariant(&*self);
        }
        let index: usize = match self.state {
            State::FetchMetadata(i) => i,
            _ => {
                return ;
            },
        };
        let verdict = match_candidate_did(meta.as_ref(), self.sid, self.did);
        match verdict {
            CandidateVerdict::Matched => {
                self.state = State::Resolved(index);
            },
            CandidateVerdict::Rejected => {
                self.advance(index);
            },
            CandidateVerdict::NeedsProbe => {
                let request = match &meta {
                    Some(params) => probe_parameters(params.as_slice()),
                    None => None,
                };
                match request {
                    Some(parameters) => {
                        self.state = State::Probe(index, parameters);
                    },
                    None => {
                        self.advance(index);
                    },
                }
            },
        }
    }

    /// Take in the request payload that the probe was encoded to, `None` if it
    /// could not be encoded. A payload that was not asked for is ignored.
    pub fn probe_finished(&mut self, payload: Option<Vec<u8>>)
        ensures
            final(self)@ == old(self)@.after_probe(
                match payload {
                    Some(data) => Some(data@),
                    None => None,
                },
            ),
    {
        proof {
            use_type_invariant(&*self);
        }
        let index: usize = match &self.state {
            State::Probe(i, _) => *i,
            _ => {
                return ;
            },
        };
        let matched = match read_probed_did(payload.as_ref()) {
            Some(did) => did == self.did,
            None => false,
        };
        if matched {
            self.state = State::Resolved(index);
        } else {
            self.advance(index);
        }
    }

    /// Goes on to the candidate after `index`.
    fn advance(&mut self, index: usize)
        requires
            index < old(self)@.candidates.len(),
        ensures
            final(self)@ == old(self)@.at(index + 1),
    {
        assert(texts(self.candidates@).len() == self.candidates@.len());
        if self.candidates.len() - index > 1 {
            self.state = State::FetchMetadata(index + 1);
        } else {
            self.state = State::NotFound;
        }
    }

    /// The result of the resolution: the service, and the parameters that the
    /// request was decoded to. They are left empty if `request` is no object.
    /// `None` unless a service was found.
    pub fn resolve(&self, request: Option<JsonValue>) -> (resolved: Option<ResolvedService>)
        ensures
            match self@.phase {
                Phase::Resolved(i) => {
                    &&& resolved matches Some(r)
                    &&& r.name@ == self@.candidates[i]
                    &&& r.params@ == (match request {
                        Some(JsonValue::Object(map)) => map@,
                        _ => Seq::empty(),
                    })
                },
                _ => resolved is None,
            },
    {
        proof {
            use_type_invariant(self);
        }
        match &self.state {
            State::Resolved(i) => {
                let name = self.candidates[*i].clone();
                let params = match request {
                    Some(JsonValue::Object(map)) => map,
                    _ => JsonMap::new(),
                };
                Some(ResolvedService { name, params })
            },
            _ => None,
        }
    }
}

fn copy_parameters(parameters: &[ProbeParameter]) -> (copy: Vec<ProbeParameter>)
    ensures
        probe_views(copy@) == probe_views(parameters@),
{
    let mut copy: Vec<ProbeParameter> = Vec::new();
    let mut i: usize = 0;
    while i < parameters.len()
        invariant
            i <= parameters@.len(),
            copy@.len() == i,
            forall|j: int| 0 <= j < i ==> (#[trigger] copy@[j])@ == parameters@[j]@,
        decreases parameters@.len() - i,
    {
        let value = match &parameters[i].value {
            ProbeValue::Number(n) => ProbeValue::Number(*n),
            ProbeValue::Text(s) => ProbeValue::Text(s.clone()),
        };
        copy.push(ProbeParameter { name: parameters[i].name.clone(), value });
        i = i + 1;
    }
    assert(probe_views(copy@) =~= probe_views(parameters@));
    copy
}

} // verus!
