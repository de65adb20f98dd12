//! What the service resolver promises, in terms of layouts, data and bytes.

use crate::number::literal_of;
use crate::service_resolver::metadata::{
    are_names_under_sid, data_params, is_enriched, is_opaque, lemma_stand_in_covers_did,
    richer_sibling, MetadataProvider, SiblingLayout,
};
use crate::service_resolver::model::{
    CompuScaleInfo, DiagComm, DiagServiceError, ParameterTypeMetadata, ResponseParameterInfo,
    ServiceParameterMetadata,
};
use crate::service_resolver::resolve::{
    candidate_matches, candidate_verdict, did_candidates, first_occurrences,
    lemma_first_occurrences, probe_request, probed_did, service_name, service_names,
    CandidateVerdict, Phase, ProbeValueView, Resolution, ServiceType,
};
use crate::service_resolver::uds_helpers::{
    be_fixed, be_minimal, be_value, bytes_bound, did_in, did_param, has_exact_case, in_scale,
    in_some_scale, lemma_be_minimal_is_shortest, lemma_be_minimal_round_trip, mux_lower_bound,
};
use crate::service_resolver::uds_service_ids::{
    AUTHENTICATION, CLEAR_DIAGNOSTIC_INFORMATION, COMMUNICATION_CONTROL, CONTROL_DTC_SETTING,
    ECU_RESET, INPUT_OUTPUT_CONTROL_BY_IDENTIFIER, NEGATIVE_RESPONSE, READ_DATA_BY_IDENTIFIER,
    READ_DTC_INFORMATION, REQUEST_DOWNLOAD, REQUEST_TRANSFER_EXIT, RESPONSE_OFFSET,
    ROUTINE_CONTROL, SECURITY_ACCESS, SESSION_CONTROL, TESTER_PRESENT, TRANSFER_DATA,
    WRITE_DATA_BY_IDENTIFIER,
};
use crate::service_resolver::{is_negative, request_prefix, ServiceResolver};
use vstd::arithmetic::power::{lemma_pow0, lemma_pow1, lemma_pow_adds, lemma_pow_positive, pow};
use vstd::prelude::*;

verus! {

// ---------------------------------------------------------------------------
// Numbers as bytes
// ---------------------------------------------------------------------------

/// Each byte in front of others counts 256 times as much for each of them.
pub proof fn law_bytes_are_big_endian(front: Seq<u8>, back: Seq<u8>, byte: u8)
    ensures
        be_value(Seq::empty()) == 0,
        be_value(seq![byte]) == byte,
        be_value(front + back) == be_value(front) * pow(256, back.len()) + be_value(back),
        be_value(back) < pow(256, back.len()),
    decreases back.len(),
{
    reveal_with_fuel(be_value, 2);
    assert(seq![byte].drop_last() =~= Seq::<u8>::empty());
    lemma_pow0(256);
    if back.len() == 0 {
        assert(front + back =~= front);
    } else {
        let shorter = back.drop_last();
        law_bytes_are_big_endian(front, shorter, byte);
        assert((front + back).drop_last() =~= front + shorter);
        lemma_pow_adds(256, shorter.len(), 1);
        lemma_pow1(256);
        let (f, p) = (be_value(front) as int, pow(256, shorter.len()));
        assert((f * p) * 256 == f * (p * 256)) by (nonlinear_arith);
    }
}

/// There are as many numbers of some bytes as 256 to the power of their count.
pub proof fn law_bytes_bound(count: nat)
    ensures
        bytes_bound(count) == pow(256, count),
    decreases count,
{
    lemma_pow0(256);
    if count > 0 {
        law_bytes_bound((count - 1) as nat);
        lemma_pow_adds(256, 1, (count - 1) as nat);
        lemma_pow1(256);
    }
}

/// A field of some bytes holds a number modulo the numbers that fit.
pub proof fn law_number_in_field(n: nat, size: nat)
    ensures
        be_fixed(n, size).len() == size,
        be_value(be_fixed(n, size)) == n as int % pow(256, size),
    decreases size,
{
    lemma_pow0(256);
    if size > 0 {
        let low = (size - 1) as nat;
        law_number_in_field(n / 0x100, low);
        assert(be_fixed(n, size).drop_last() =~= be_fixed(n / 0x100, low));
        lemma_pow_adds(256, 1, low);
        lemma_pow1(256);
        lemma_pow_positive(256, low);
        let p = pow(256, low);
        let q = (n / 0x100) as int;
        let r = q % p;
        let d = q / p;
        assert(q == p * d + r && 0 <= r < p) by (nonlinear_arith)
            requires
                p > 0,
                r == q % p,
                d == q / p,
        ;
        let m = r * 256 + (n % 0x100) as int;
        assert(n as int == (256 * p) * d + m) by (nonlinear_arith)
            requires
                n as int == q * 256 + (n % 0x100) as int,
                q == p * d + r,
                m == r * 256 + (n % 0x100) as int,
        ;
        assert(0 <= m < 256 * p);
        assert(n as int % (256 * p) == m) by (nonlinear_arith)
            requires
                n as int == (256 * p) * d + m,
                0 <= m < 256 * p,
        ;
    }
}

/// A number in as few bytes as it takes: they stand for the number, and only
/// zero starts with a zero byte.
pub proof fn law_number_in_fewest_bytes(n: nat)
    ensures
        be_value(be_minimal(n)) == n,
        be_minimal(n).len() >= 1,
        n > 0 ==> be_minimal(n)[0] != 0,
        n < 256 ==> be_minimal(n) == seq![n as u8],
{
    lemma_be_minimal_round_trip(n);
    lemma_be_minimal_is_shortest(n);
}

/// The DID of a UDS message is the big-endian number in its second and third
/// byte. A shorter message has none, and what follows does not matter.
pub proof fn law_did_in_message(data: Seq<u8>)
    ensures
        data.len() < 3 <==> did_in(data) is None,
        data.len() >= 3 ==> (did_in(data) matches Some(did) && did as int == data[1] as int * 256
            + data[2] as int),
{
    if data.len() >= 3 {
        assert(data.subrange(1, 3) =~= seq![data[1], data[2]]);
    }
}

// ---------------------------------------------------------------------------
// Opaque layouts
// ---------------------------------------------------------------------------

proof fn lemma_data_params_join(a: Seq<ResponseParameterInfo>, b: Seq<ResponseParameterInfo>)
    ensures
        data_params(a + b) == data_params(a) + data_params(b),
    decreases b.len(),
{
    if b.len() == 0 {
        assert(a + b =~= a);
        assert(data_params(a) + data_params(b) =~= data_params(a));
    } else {
        assert((a + b).drop_last() =~= a + b.drop_last());
        lemma_data_params_join(a, b.drop_last());
        assert(data_params(a + b) =~= data_params(a) + data_params(b));
    }
}

proof fn lemma_data_params_of_one(p: ResponseParameterInfo)
    ensures
        data_params(seq![p]) == (if p.param_type is Value || p.param_type is PhysConst {
            seq![p]
        } else {
            Seq::empty()
        }),
{
    reveal_with_fuel(data_params, 2);
    assert(seq![p].drop_last() =~= Seq::<ResponseParameterInfo>::empty());
    assert(data_params(seq![p]) =~= (if p.param_type is Value || p.param_type is PhysConst {
        seq![p]
    } else {
        Seq::empty()
    }));
}

proof fn lemma_no_data_params(meta: Seq<ResponseParameterInfo>)
    requires
        forall|i: int|
            0 <= i < meta.len() ==> (#[trigger] meta[i]).param_type is CodedConst
                || meta[i].param_type is MatchingRequestParam,
    ensures
        data_params(meta) == Seq::<ResponseParameterInfo>::empty(),
    decreases meta.len(),
{
    if meta.len() > 0 {
        let shorter = meta.drop_last();
        assert forall|i: int| 0 <= i < shorter.len() implies (
        #[trigger] shorter[i]).param_type is CodedConst
            || shorter[i].param_type is MatchingRequestParam by {
            assert(shorter[i] == meta[i]);
        }
        lemma_no_data_params(shorter);
        assert(meta[meta.len() - 1] == meta.last());
    }
}

/// Constants and copies of request bytes do not matter for whether a layout is
/// opaque: one more or less, at any place, changes nothing.
pub proof fn law_opaque_ignores_constants(
    front: Seq<ResponseParameterInfo>,
    p: ResponseParameterInfo,
    back: Seq<ResponseParameterInfo>,
)
    requires
        p.param_type is CodedConst || p.param_type is MatchingRequestParam,
    ensures
        is_opaque(front + seq![p] + back) == is_opaque(front + back),
{
    lemma_data_params_join(front + seq![p], back);
    lemma_data_params_join(front, seq![p]);
    lemma_data_params_join(front, back);
    lemma_data_params_of_one(p);
    assert(data_params(front) + Seq::<ResponseParameterInfo>::empty() =~= data_params(front));
}

/// A layout with one value or physical constant among constants and copies of
/// request bytes, however many, is opaque exactly if this parameter has no
/// fixed size and no slash in its name.
pub proof fn law_single_data_param_decides(
    front: Seq<ResponseParameterInfo>,
    p: ResponseParameterInfo,
    back: Seq<ResponseParameterInfo>,
)
    requires
        p.param_type is Value || p.param_type is PhysConst,
        forall|i: int|
            0 <= i < front.len() ==> (#[trigger] front[i]).param_type is CodedConst
                || front[i].param_type is MatchingRequestParam,
        forall|i: int|
            0 <= i < back.len() ==> (#[trigger] back[i]).param_type is CodedConst
                || back[i].param_type is MatchingRequestParam,
    ensures
        is_opaque(front + seq![p] + back) <==> p.byte_size is None && !p.name@.contains('/'),
{
    lemma_data_params_join(front + seq![p], back);
    lemma_data_params_join(front, seq![p]);
    lemma_data_params_of_one(p);
    lemma_no_data_params(front);
    lemma_no_data_params(back);
    assert(data_params(front + seq![p] + back) =~= seq![p]);
}

/// A layout with two parameters that bear data is not opaque, and neither is
/// one with none.
pub proof fn law_opaque_needs_exactly_one_data_param(
    meta: Seq<ResponseParameterInfo>,
    i: int,
    j: int,
)
    requires
        0 <= i < j < meta.len(),
        meta[i].param_type is Value || meta[i].param_type is PhysConst,
        meta[j].param_type is Value || meta[j].param_type is PhysConst,
    ensures
        !is_opaque(meta),
{
    let (front, mid, back) = (meta.take(i), meta.subrange(i + 1, j), meta.skip(j + 1));
    assert(meta =~= front + seq![meta[i]] + mid + seq![meta[j]] + back);
    lemma_data_params_join(front + seq![meta[i]] + mid + seq![meta[j]], back);
    lemma_data_params_join(front + seq![meta[i]] + mid, seq![meta[j]]);
    lemma_data_params_join(front + seq![meta[i]], mid);
    lemma_data_params_join(front, seq![meta[i]]);
    lemma_data_params_of_one(meta[i]);
    lemma_data_params_of_one(meta[j]);
    assert(data_params(meta).len() >= 2);
}

/// A layout without values and physical constants is not opaque.
pub proof fn law_constants_alone_are_not_opaque(meta: Seq<ResponseParameterInfo>)
    requires
        forall|i: int|
            0 <= i < meta.len() ==> (#[trigger] meta[i]).param_type is CodedConst
                || meta[i].param_type is MatchingRequestParam,
    ensures
        !is_opaque(meta),
{
    lemma_no_data_params(meta);
}

// ---------------------------------------------------------------------------
// Candidates for a DID
// ---------------------------------------------------------------------------

/// A copy of request bytes in a request.
pub open spec fn is_copy(p: ServiceParameterMetadata) -> bool {
    p.param_type is MatchingRequestParam
}

/// A constant in a request that reads as a number.
pub open spec fn is_constant(p: ServiceParameterMetadata, n: u64) -> bool {
    p.param_type matches ParameterTypeMetadata::CodedConst { coded_value } && literal_of(
        coded_value@,
    ) == Some(n)
}

proof fn lemma_did_param_behind_copies(
    copies: Seq<ServiceParameterMetadata>,
    rest: Seq<ServiceParameterMetadata>,
    sid: u8,
    skipped: bool,
)
    requires
        forall|i: int| 0 <= i < copies.len() ==> is_copy(#[trigger] copies[i]),
    ensures
        did_param(copies + rest, sid, skipped) == did_param(rest, sid, skipped),
    decreases copies.len(),
{
    if copies.len() == 0 {
        assert(copies + rest =~= rest);
    } else {
        assert(is_copy(copies[0]));
        assert((copies + rest).skip(1) =~= copies.skip(1) + rest);
        assert forall|i: int| 0 <= i < copies.skip(1).len() implies is_copy(
            #[trigger] copies.skip(1)[i],
        ) by {
            assert(is_copy(copies[i + 1]));
        }
        lemma_did_param_behind_copies(copies.skip(1), rest, sid, skipped);
    }
}

/// The parameter behind the constant with the service identifier bears the
/// DID, whatever it is and whatever follows. Copies of request bytes in between
/// do not matter.
pub proof fn law_did_follows_sid(
    copies: Seq<ServiceParameterMetadata>,
    sid_param: ServiceParameterMetadata,
    more_copies: Seq<ServiceParameterMetadata>,
    p: ServiceParameterMetadata,
    rest: Seq<ServiceParameterMetadata>,
    sid: u8,
)
    requires
        forall|i: int| 0 <= i < copies.len() ==> is_copy(#[trigger] copies[i]),
        is_constant(sid_param, sid as u64),
        forall|i: int| 0 <= i < more_copies.len() ==> is_copy(#[trigger] more_copies[i]),
        !is_copy(p),
    ensures
        did_param(copies + (seq![sid_param] + (more_copies + (seq![p] + rest))), sid, false)
            == Some(p),
{
    let behind = more_copies + (seq![p] + rest);
    lemma_did_param_behind_copies(copies, seq![sid_param] + behind, sid, false);
    assert((seq![sid_param] + behind).skip(1) =~= behind);
    lemma_did_param_behind_copies(more_copies, seq![p] + rest, sid, true);
    assert((seq![p] + rest)[0] == p);
}

/// Where the service identifier is not the first constant, the first parameter
/// that is no copy of request bytes bears the DID.
pub proof fn law_did_comes_first_without_sid(
    copies: Seq<ServiceParameterMetadata>,
    p: ServiceParameterMetadata,
    rest: Seq<ServiceParameterMetadata>,
    sid: u8,
)
    requires
        forall|i: int| 0 <= i < copies.len() ==> is_copy(#[trigger] copies[i]),
        !is_copy(p),
        !is_constant(p, sid as u64),
    ensures
        did_param(copies + (seq![p] + rest), sid, false) == Some(p),
{
    lemma_did_param_behind_copies(copies, seq![p] + rest, sid, false);
    assert((seq![p] + rest)[0] == p);
}

/// A request with nothing but the service identifier and copies of request
/// bytes has no parameter for the DID.
pub proof fn law_no_did_without_parameter(
    copies: Seq<ServiceParameterMetadata>,
    sid_param: ServiceParameterMetadata,
    more_copies: Seq<ServiceParameterMetadata>,
    sid: u8,
)
    requires
        forall|i: int| 0 <= i < copies.len() ==> is_copy(#[trigger] copies[i]),
        is_constant(sid_param, sid as u64),
        forall|i: int| 0 <= i < more_copies.len() ==> is_copy(#[trigger] more_copies[i]),
    ensures
        did_param(copies, sid, false) is None,
        did_param(copies + (seq![sid_param] + more_copies), sid, false) is None,
{
    let none = Seq::<ServiceParameterMetadata>::empty();
    lemma_did_param_behind_copies(copies, none, sid, false);
    assert(copies + none =~= copies);
    lemma_did_param_behind_copies(copies, seq![sid_param] + more_copies, sid, false);
    assert((seq![sid_param] + more_copies).skip(1) =~= more_copies);
    lemma_did_param_behind_copies(more_copies, none, sid, true);
    assert(more_copies + none =~= more_copies);
}

/// One more range makes exactly the DIDs between its limits match, the limits
/// included. Without an upper limit it is the lower limit alone, and without a
/// lower limit nothing.
pub proof fn law_each_range_adds_its_dids(
    scales: Seq<CompuScaleInfo>,
    scale: CompuScaleInfo,
    did: u16,
)
    ensures
        !in_some_scale(Seq::empty(), did),
        in_some_scale(scales, did) ==> in_some_scale(scales.push(scale), did),
        !in_some_scale(scales, did) ==> (in_some_scale(scales.push(scale), did) <==> (
        scale.lower_limit matches Some(lo) && lo <= did && did as int <= (
        match scale.upper_limit {
            Some(hi) => hi as int,
            None => lo as int,
        }))),
{
    let more = scales.push(scale);
    if in_some_scale(scales, did) {
        let i = choose|i: int| 0 <= i < scales.len() && #[trigger] in_scale(scales[i], did);
        assert(in_scale(more[i], did));
    } else {
        assert(more[scales.len() as int] == scale);
        assert forall|i: int| 0 <= i < scales.len() implies !in_scale(#[trigger] more[i], did) by {
            assert(!in_scale(scales[i], did));
        }
        if in_some_scale(more, did) {
            let i = choose|i: int| 0 <= i < more.len() && #[trigger] in_scale(more[i], did);
            assert(i == scales.len());
        } else {
            assert(!in_scale(more[scales.len() as int], did));
        }
    }
}

/// A candidate whose DID parameter is a value serves a DID exactly if the low
/// 16 bits of its coded default are the DID, or the DID lies in one of its
/// ranges. So without ranges it serves at most one DID.
pub proof fn law_value_candidate(
    params: Seq<ServiceParameterMetadata>,
    sid: u8,
    did: u16,
    other: u16,
)
    requires
        did_param(params, sid, false) is Some,
        did_param(params, sid, false)->0.param_type is Value,
    ensures
        did_param(params, sid, false)->0.param_type matches ParameterTypeMetadata::Value {
            physical_default_value,
            coded_default_value,
            compu_scales,
        } && {
            let verdict = candidate_verdict(Some(params), sid, did);
            &&& verdict is Matched || verdict is Rejected
            &&& verdict is Matched <==> (exists|high: int|
                coded_default_value matches Some(coded) && coded as int == #[trigger] (high
                    * 0x1_0000) + did) || (exists|i: int|
                0 <= i < compu_scales@.len() && ((
                #[trigger] compu_scales@[i]).lower_limit matches Some(lo) && lo <= did
                    && did as int <= (match compu_scales@[i].upper_limit {
                    Some(hi) => hi as int,
                    None => lo as int,
                })))
            &&& coded_default_value is None && compu_scales@.len() == 0 ==> verdict is Rejected
            &&& compu_scales@.len() == 0 && verdict is Matched && did != other ==> (
            candidate_verdict(Some(params), sid, other) is Rejected)
        },
{
    let p = did_param(params, sid, false)->0;
    if let ParameterTypeMetadata::Value {
        physical_default_value,
        coded_default_value,
        compu_scales,
    } = p.param_type {
        if let Some(coded) = coded_default_value {
            let high = coded as int / 0x1_0000;
            assert(coded as int == high * 0x1_0000 + coded as int % 0x1_0000);
        }
        let scales = compu_scales@;
        if in_some_scale(scales, did) {
            let i = choose|i: int| 0 <= i < scales.len() && #[trigger] in_scale(scales[i], did);
            assert(scales[i].lower_limit is Some);
        } else {
            assert forall|i: int| 0 <= i < scales.len() implies !((
            #[trigger] scales[i]).lower_limit matches Some(lo) && lo <= did && did as int <= (
            match scales[i].upper_limit {
                Some(hi) => hi as int,
                None => lo as int,
            })) by {
                assert(!in_scale(scales[i], did));
            }
        }
    }
}

/// A candidate whose DID parameter is a coded constant serves the one DID that
/// the constant reads as, and no other.
pub proof fn law_constant_candidate(
    params: Seq<ServiceParameterMetadata>,
    sid: u8,
    did: u16,
    n: u64,
)
    requires
        did_param(params, sid, false) matches Some(p) && is_constant(p, n),
    ensures
        candidate_verdict(Some(params), sid, did) is Matched <==> n == did,
        candidate_verdict(Some(params), sid, did) is Rejected <==> n != did,
{
}

/// A candidate whose DID parameter is a constant that is no number serves
/// nothing.
pub proof fn law_unreadable_constant_serves_nothing(
    params: Seq<ServiceParameterMetadata>,
    sid: u8,
    did: u16,
)
    requires
        did_param(params, sid, false) matches Some(p) && p.param_type is CodedConst && forall|
            n: u64,
        |
            !is_constant(p, n),
    ensures
        candidate_verdict(Some(params), sid, did) is Rejected,
{
    let p = did_param(params, sid, false)->0;
    if let ParameterTypeMetadata::CodedConst { coded_value } = p.param_type {
        assert(!is_constant(p, did as u64));
    }
}

/// A candidate whose DID parameter is a physical constant serves the DID in the
/// low 16 bits of its coded value. Only without a coded value it takes a probe.
pub proof fn law_physical_constant_candidate(
    params: Seq<ServiceParameterMetadata>,
    sid: u8,
    did: u16,
)
    requires
        did_param(params, sid, false) is Some,
        did_param(params, sid, false)->0.param_type is PhysConst,
    ensures
        did_param(params, sid, false)->0.param_type matches ParameterTypeMetadata::PhysConst {
            phys_constant_value,
            coded_value,
        } && match coded_value {
            None => candidate_verdict(Some(params), sid, did) is NeedsProbe,
            Some(coded) => if (coded - did) % 0x1_0000 == 0 {
                candidate_verdict(Some(params), sid, did) is Matched
            } else {
                candidate_verdict(Some(params), sid, did) is Rejected
            },
        },
{
}

/// A candidate without request metadata, or without a parameter for the DID,
/// serves nothing.
pub proof fn law_nothing_known_serves_nothing(
    params: Seq<ServiceParameterMetadata>,
    sid: u8,
    did: u16,
)
    ensures
        candidate_verdict(None, sid, did) is Rejected,
        did_param(params, sid, false) is None ==> candidate_verdict(
            Some(params),
            sid,
            did,
        ) is Rejected,
{
}

/// The service identifiers of reads and writes.
pub proof fn law_service_ids()
    ensures
        ServiceType::Read.service_id() == 0x22,
        ServiceType::Write.service_id() == 0x2E,
{
}

/// A service is looked up by its lookup name, and only without one by its name.
pub proof fn law_lookup_name_comes_first(comm: DiagComm)
    ensures
        comm.lookup_name matches Some(name) ==> service_name(comm) == name@,
        comm.lookup_name is None ==> service_name(comm) == comm.name@,
{
}

/// A probe found a DID exactly if its payload has one in its second and third
/// byte that is not zero.
pub proof fn law_probed_did(payload: Seq<u8>)
    ensures
        probed_did(None) is None,
        payload.len() < 3 ==> probed_did(Some(payload)) is None,
        payload.len() >= 3 ==> match probed_did(Some(payload)) {
            Some(did) => did != 0 && did as int == payload[1] as int * 256 + payload[2] as int,
            None => payload[1] == 0 && payload[2] == 0,
        },
{
    law_did_in_message(payload);
}

/// Where the metadata leaves it open, a candidate serves a DID exactly if a
/// probe can be built and its payload holds that DID.
pub proof fn law_probe_decides(
    params: Seq<ServiceParameterMetadata>,
    payload: Option<Seq<u8>>,
    sid: u8,
    did: u16,
)
    ensures
        candidate_verdict(Some(params), sid, did) is NeedsProbe ==> (candidate_matches(
            Some(params),
            payload,
            sid,
            did,
        ) <==> probe_request(params) is Some && did != 0 && payload is Some && payload->0.len() >= 3
            && payload->0[1] as int * 256 + payload->0[2] as int == did),
        candidate_verdict(Some(params), sid, did) is Matched ==> candidate_matches(
            Some(params),
            payload,
            sid,
            did,
        ),
        candidate_verdict(Some(params), sid, did) is Rejected ==> !candidate_matches(
            Some(params),
            payload,
            sid,
            did,
        ),
        !candidate_matches(None, payload, sid, did),
{
    if payload is Some {
        law_probed_did(payload->0);
    }
}

/// A probe request is built parameter by parameter, in order. It fails exactly
/// if it fails for one of them.
pub proof fn law_probe_request_one_by_one(
    a: Seq<ServiceParameterMetadata>,
    b: Seq<ServiceParameterMetadata>,
)
    ensures
        match (probe_request(a), probe_request(b)) {
            (Some(x), Some(y)) => probe_request(a + b) == Some(x + y),
            _ => probe_request(a + b) is None,
        },
    decreases b.len(),
{
    if b.len() == 0 {
        assert(a + b =~= a);
        if probe_request(a) is Some {
            let x = probe_request(a)->0;
            assert(x + Seq::<(Seq<char>, ProbeValueView)>::empty() =~= x);
        }
    } else {
        assert((a + b).drop_last() =~= a + b.drop_last());
        law_probe_request_one_by_one(a, b.drop_last());
        if let (Some(x), Some(y)) = (probe_request(a), probe_request(b)) {
            let before = probe_request(b.drop_last())->0;
            if !(b.last().param_type is MatchingRequestParam) {
                assert(y == before.push(y.last()));
                assert((x + before).push(y.last()) =~= x + y);
            }
        }
    }
}

/// What one parameter puts into a probe request: a constant its number, a
/// physical constant its text, another value the text `0`, each under its name,
/// and a copy of request bytes nothing. Only a constant that is no number fails.
pub proof fn law_probe_request_of_one(p: ServiceParameterMetadata)
    ensures
        match p.param_type {
            ParameterTypeMetadata::CodedConst { coded_value } => match literal_of(coded_value@) {
                Some(n) => probe_request(seq![p]) == Some(
                    seq![(p.name@, ProbeValueView::Number(n))],
                ),
                None => probe_request(seq![p]) is None,
            },
            ParameterTypeMetadata::PhysConst { phys_constant_value, .. } => probe_request(seq![p])
                == Some(seq![(p.name@, ProbeValueView::Text(phys_constant_value@))]),
            ParameterTypeMetadata::Value { .. } => probe_request(seq![p]) == Some(
                seq![(p.name@, ProbeValueView::Text(seq!['0']))],
            ),
            ParameterTypeMetadata::MatchingRequestParam { .. } => probe_request(seq![p]) == Some(
                Seq::<(Seq<char>, ProbeValueView)>::empty(),
            ),
        },
{
    reveal_with_fuel(probe_request, 2);
    reveal_strlit("0");
    assert("0"@ =~= seq!['0']);
    let none = Seq::<(Seq<char>, ProbeValueView)>::empty();
    assert(seq![p].drop_last() =~= Seq::<ServiceParameterMetadata>::empty());
    assert(seq![p].last() == p);
    assert(probe_request(seq![p].drop_last()) == Some(none));
    assert forall|entry: (Seq<char>, ProbeValueView)| #[trigger] none.push(entry) == seq![entry] by {
        assert(none.push(entry) =~= seq![entry]);
    }
}

/// More names never change the candidates that came before them, and a name
/// that was there already adds none.
pub proof fn law_candidates_keep_their_order(
    names: Seq<Seq<char>>,
    name: Seq<char>,
)
    ensures
        names.contains(name) ==> first_occurrences(names.push(name)) == first_occurrences(names),
        !names.contains(name) ==> first_occurrences(names.push(name)) == first_occurrences(
            names,
        ).push(name),
        first_occurrences(Seq::empty()) == Seq::<Seq<char>>::empty(),
{
    assert(names.push(name).drop_last() =~= names);
    lemma_first_occurrences(names);
}

/// With exactly one prefix match it is the only candidate. Otherwise the
/// candidates are the prefix matches and the other services, in this order and
/// each once.
pub proof fn law_candidates(
    prefix_matches: Seq<DiagComm>,
    extra: Seq<Seq<char>>,
    name: Seq<char>,
)
    ensures
        prefix_matches.len() == 1 ==> did_candidates(prefix_matches, extra) == seq![
            service_name(prefix_matches[0]),
        ],
        prefix_matches.len() != 1 ==> {
            let candidates = did_candidates(prefix_matches, extra);
            &&& candidates.no_duplicates()
            &&& candidates.contains(name) <==> extra.contains(name) || exists|i: int|
                0 <= i < prefix_matches.len() && service_name(#[trigger] prefix_matches[i]) == name
        },
        prefix_matches.len() == 0 ==> did_candidates(prefix_matches, extra) == first_occurrences(
            extra,
        ),
{
    let own = service_names(prefix_matches);
    if prefix_matches.len() == 1 {
        assert(own =~= seq![service_name(prefix_matches[0])]);
    } else {
        let all = own + extra;
        lemma_first_occurrences(all);
        if extra.contains(name) {
            let k = choose|k: int| 0 <= k < extra.len() && extra[k] == name;
            assert(all[own.len() + k] == name);
        }
        if exists|i: int|
            0 <= i < prefix_matches.len() && service_name(#[trigger] prefix_matches[i]) == name {
            let i = choose|i: int|
                0 <= i < prefix_matches.len() && service_name(#[trigger] prefix_matches[i]) == name;
            assert(all[i] == name);
        }
        if all.contains(name) {
            let k = choose|k: int| 0 <= k < all.len() && all[k] == name;
            if k < own.len() {
                assert(service_name(prefix_matches[k]) == name);
            } else {
                assert(extra[k - own.len()] == name);
            }
        }
        if prefix_matches.len() == 0 {
            assert(all =~= extra);
        }
    }
}

/// The candidates of prefix prefix_matches come before those of other services.
pub proof fn law_prefix_matches_come_first(prefix_matches: Seq<DiagComm>, extra: Seq<Seq<char>>)
    requires
        prefix_matches.len() != 1,
    ensures
        did_candidates(prefix_matches, Seq::empty()).is_prefix_of(
            did_candidates(prefix_matches, extra),
        ),
    decreases extra.len(),
{
    let own = service_names(prefix_matches);
    let none = Seq::<Seq<char>>::empty();
    if extra.len() > 0 {
        law_prefix_matches_come_first(prefix_matches, extra.drop_last());
        assert((own + extra).drop_last() =~= own + extra.drop_last());
        let (short, long) = (
            did_candidates(prefix_matches, extra.drop_last()),
            did_candidates(prefix_matches, extra),
        );
        assert(long == short || long == short.push(extra.last()));
        let base = did_candidates(prefix_matches, none);
        assert(base =~= long.subrange(0, base.len() as int)) by {
            assert(base =~= short.subrange(0, base.len() as int));
        }
    } else {
        assert(extra =~= none);
        let all = did_candidates(prefix_matches, extra);
        assert(all =~= all.subrange(0, all.len() as int));
    }
}

/// Nothing that comes in changes what is resolved: SID, DID and candidates stay.
/// An answer that was not asked for changes nothing at all.
pub proof fn law_resolution_keeps_its_question(
    state: Resolution,
    meta: Option<Seq<ServiceParameterMetadata>>,
    payload: Option<Seq<u8>>,
)
    ensures
        ({
            let next = state.after_metadata(meta);
            &&& next.sid == state.sid && next.did == state.did
            &&& next.candidates == state.candidates
            &&& !(state.phase is FetchMetadata) ==> next == state
        }),
        ({
            let next = state.after_probe(payload);
            &&& next.sid == state.sid && next.did == state.did
            &&& next.candidates == state.candidates
            &&& !(state.phase is Probe) ==> next == state
        }),
{
}

/// Metadata that serves the DID ends the resolution with the candidate it was
/// asked of. Metadata that does not moves on to the next candidate, and after
/// the last one nothing is found.
pub proof fn law_metadata_moves_resolution(
    state: Resolution,
    i: int,
    meta: Option<Seq<ServiceParameterMetadata>>,
)
    requires
        state.phase == Phase::FetchMetadata(i),
    ensures
        ({
            let next = state.after_metadata(meta).phase;
            match candidate_verdict(meta, state.sid, state.did) {
                CandidateVerdict::Matched => next == Phase::Resolved(i),
                CandidateVerdict::Rejected => if i + 1 < state.candidates.len() {
                    next == Phase::FetchMetadata(i + 1)
                } else {
                    next == Phase::NotFound
                },
                CandidateVerdict::NeedsProbe => match probe_request(meta->0) {
                    Some(request) => next == Phase::Probe(i, request),
                    None => if i + 1 < state.candidates.len() {
                        next == Phase::FetchMetadata(i + 1)
                    } else {
                        next == Phase::NotFound
                    },
                },
            }
        }),
{
}

/// The payload of a probe ends the resolution with the candidate exactly if it
/// holds the DID that is looked for, and that is not zero.
pub proof fn law_probe_moves_resolution(
    state: Resolution,
    i: int,
    request: Seq<(Seq<char>, ProbeValueView)>,
    payload: Option<Seq<u8>>,
)
    requires
        state.phase == Phase::Probe(i, request),
    ensures
        ({
            let next = state.after_probe(payload).phase;
            if payload is Some && payload->0.len() >= 3 && payload->0[1] as int * 256
                + payload->0[2] as int == state.did && state.did != 0 {
                next == Phase::Resolved(i)
            } else if i + 1 < state.candidates.len() {
                next == Phase::FetchMetadata(i + 1)
            } else {
                next == Phase::NotFound
            }
        }),
{
    if payload is Some {
        law_probed_did(payload->0);
    }
}

// ---------------------------------------------------------------------------
// Layouts that stand in for others
// ---------------------------------------------------------------------------

/// The first sibling that can stand in is taken: what comes after it does not
/// matter, and what comes before it cannot stand in.
pub proof fn law_first_richer_sibling_is_taken(
    a: Seq<SiblingLayout>,
    b: Seq<SiblingLayout>,
    service_name: Seq<char>,
    own_len: nat,
    did: u16,
)
    ensures
        richer_sibling(a + b, service_name, own_len, did) == (if richer_sibling(
            a,
            service_name,
            own_len,
            did,
        ) is Some {
            richer_sibling(a, service_name, own_len, did)
        } else {
            richer_sibling(b, service_name, own_len, did)
        }),
    decreases a.len(),
{
    if a.len() == 0 {
        assert(a + b =~= b);
    } else {
        assert((a + b).skip(1) =~= a.skip(1) + b);
        assert((a + b)[0] == a[0]);
        law_first_richer_sibling_is_taken(a.skip(1), b, service_name, own_len, did);
    }
}

/// A sibling can stand in exactly if it is another service and has a layout
/// that is longer and has a case that starts at the DID.
pub proof fn law_richer_sibling(
    sibling: SiblingLayout,
    service_name: Seq<char>,
    own_len: nat,
    did: u16,
)
    ensures
        richer_sibling(seq![sibling], service_name, own_len, did) is Some <==> sibling.name@
            != service_name && (sibling.layout matches Some(layout) && layout@.len() > own_len
            && exists|i: int|
            0 <= i < layout@.len() && (mux_lower_bound(#[trigger] layout@[i]) matches Some(bound)
                && bound == did)),
        richer_sibling(seq![sibling], service_name, own_len, did) matches Some(s) ==> s == sibling,
        richer_sibling(Seq::empty(), service_name, own_len, did) is None,
{
    reveal_with_fuel(richer_sibling, 2);
    assert(seq![sibling].skip(1) =~= Seq::<SiblingLayout>::empty());
    if let Some(layout) = sibling.layout {
        if has_exact_case(layout@, did) {
            let i = choose|i: int|
                0 <= i < layout@.len() && #[trigger] mux_lower_bound(layout@[i]) == Some(
                    did as u64,
                );
            assert(mux_lower_bound(layout@[i]) == Some(did as u64));
        } else {
            assert forall|i: int| 0 <= i < layout@.len() implies !(mux_lower_bound(
                #[trigger] layout@[i],
            ) matches Some(bound) && bound == did) by {
                assert(mux_lower_bound(layout@[i]) != Some(did as u64));
            }
        }
    }
}

/// A layout that is not opaque is used as it is, under the name of its service,
/// and so is every layout without a sibling that can stand in. Only an opaque
/// one gives way to a sibling, which then also gives its name.
pub proof fn law_own_layout_is_kept(
    enriched: (Vec<ResponseParameterInfo>, String),
    service_name: Seq<char>,
    did: u16,
    own: Vec<ResponseParameterInfo>,
    siblings: Seq<SiblingLayout>,
)
    requires
        is_enriched(enriched, service_name, did, own, siblings),
    ensures
        !is_opaque(own@) || richer_sibling(siblings, service_name, own@.len(), did) is None ==> {
            enriched.0 == own && enriched.1@ == service_name
        },
        is_opaque(own@) ==> (richer_sibling(
            siblings,
            service_name,
            own@.len(),
            did,
        ) matches Some(s) ==> s.layout == Some(enriched.0) && enriched.1 == s.name
            && enriched.1@ != service_name && enriched.0@.len() > own@.len()),
{
    lemma_stand_in_covers_did(siblings, service_name, own@.len(), did);
}

/// Under 0x22 stand the services that read data, under 0x2E what the lookup of
/// configurations gave, and under every other SID nothing.
pub proof fn law_names_under_sid(
    names: Result<Vec<String>, DiagServiceError>,
    sid: u8,
    data: Vec<String>,
    configurations: Result<Vec<String>, DiagServiceError>,
)
    requires
        are_names_under_sid(names, sid, data, configurations),
    ensures
        sid == 0x22 ==> (names matches Ok(list) && list == data),
        sid == 0x2E ==> names == configurations,
        sid != 0x22 && sid != 0x2E ==> (names matches Ok(list) && list@.len() == 0),
{
}

/// A message is a negative response exactly if it starts with 0x7F and has a
/// service and a code.
pub proof fn law_negative_response(message: Seq<u8>, service_id: u8, code: u8)
    ensures
        is_negative(seq![0x7Fu8, service_id, code]),
        message.len() < 3 ==> !is_negative(message),
        message.len() >= 3 ==> (is_negative(message) <==> message[0] == 0x7F),
{
}

/// The code of a negative response is its third byte. Any other message has
/// none.
pub proof fn law_code_of_negative_response(message: &[u8], code: Option<u8>)
    requires
        call_ensures(ServiceResolver::get_nrc, (message,), code),
    ensures
        code is Some <==> message@.len() >= 3 && message@[0] == 0x7F,
        code matches Some(c) ==> c == message@[2],
{
}

/// A request for a DID starts with 0x22 for a read and 0x2E for a write, and
/// then the DID.
pub proof fn law_request_prefix(service_type: ServiceType, did: u16, prefix: Vec<u8>)
    requires
        call_ensures(request_prefix, (service_type, did), prefix),
    ensures
        prefix@.len() == 3,
        service_type is Read ==> prefix@[0] == 0x22,
        service_type is Write ==> prefix@[0] == 0x2E,
        prefix@[1] as int * 256 + prefix@[2] as int == did,
{
}

/// A request is decoded under its first byte.
pub proof fn law_request_service_id(request: &[u8], service_id: u8)
    requires
        call_ensures(ServiceResolver::request_service_id, (request,), service_id),
    ensures
        request@.len() > 0 ==> service_id == request@[0],
        request@.len() == 0 ==> service_id == 0,
{
}

/// The enriched layout is used wherever there is one. Without it the plain one
/// is used, or its error.
pub proof fn law_best_layout(
    enriched: Result<Vec<ResponseParameterInfo>, DiagServiceError>,
    plain: Result<Vec<ResponseParameterInfo>, DiagServiceError>,
    meta: Result<Vec<ResponseParameterInfo>, DiagServiceError>,
)
    requires
        call_ensures(MetadataProvider::get_response_metadata, (enriched, plain), meta),
    ensures
        enriched matches Ok(layout) ==> (meta matches Ok(used) && used == layout),
        enriched is Err ==> meta == plain,
{
}

/// The service identifiers of UDS by their numbers.
pub proof fn law_uds_service_ids()
    ensures
        SESSION_CONTROL == 0x10,
        ECU_RESET == 0x11,
        CLEAR_DIAGNOSTIC_INFORMATION == 0x14,
        READ_DTC_INFORMATION == 0x19,
        READ_DATA_BY_IDENTIFIER == 0x22,
        SECURITY_ACCESS == 0x27,
        COMMUNICATION_CONTROL == 0x28,
        AUTHENTICATION == 0x29,
        WRITE_DATA_BY_IDENTIFIER == 0x2E,
        INPUT_OUTPUT_CONTROL_BY_IDENTIFIER == 0x2F,
        ROUTINE_CONTROL == 0x31,
        REQUEST_DOWNLOAD == 0x34,
        TRANSFER_DATA == 0x36,
        REQUEST_TRANSFER_EXIT == 0x37,
        TESTER_PRESENT == 0x3E,
        CONTROL_DTC_SETTING == 0x85,
        NEGATIVE_RESPONSE == 0x7F,
        RESPONSE_OFFSET == 0x40,
{
}

} // verus!
