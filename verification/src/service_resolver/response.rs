//! UDS response building.
//!
//! [`ResponseEncoder`] encodes SOVD JSON data into UDS response bytes
//! using MDD parameter metadata.

use crate::doip::wire::{be16_bytes, high_byte, low_byte};
use crate::json::{lookup, JsonMap, JsonValue};
use crate::number::{parse_decimal, unsigned_of};
use crate::service_resolver::model::{ParameterTypeMetadata, ResponseParameterInfo};
use crate::service_resolver::uds_helpers::{
    array_bytes, array_to_bytes, be_fixed, be_minimal, be_value, bool_byte, bool_to_byte,
    bytes_bound, did_in, encode_unsigned_be, encode_value_at, find_mux_case_prefix, is_marker,
    is_mux_marker, lemma_be_fixed_round_trip, lemma_be_minimal_is_shortest, lemma_field_len,
    mux_case_prefix, mux_marker, overwrite, spliced, string_to_bytes, value_bytes, value_to_bytes,
    with_value_at,
};
use crate::service_resolver::uds_service_ids::RESPONSE_OFFSET;
use crate::text::{
    ascii_lowered, chars_of, contains_char, eq_ignore_ascii_case, last_segment,
    segment_after_last_slash, starts_with, string_of, to_ascii_lowercase, trim_end_slashes,
    without_end_slashes,
};
use vstd::prelude::*;
use vstd::utf8::encode_utf8;

verus! {

/// Minimum UDS positive response buffer size: response SID (1) + DID high (1) + DID low (1).
pub const UDS_POSITIVE_RESPONSE_MIN_SIZE: usize = 3;

/// The parameter is active for a MUX case.
///
/// Parameters without a slash in their name always are. With a case, so are
/// the parameters of that case and its marker. Without one, so is everything
/// but the case markers.
pub open spec fn is_active(p: ResponseParameterInfo, mux_prefix: Option<Seq<char>>) -> bool {
    ||| !p.name@.contains('/')
    ||| match mux_prefix {
        Some(prefix) => prefix.is_prefix_of(p.name@) || p.name@ == mux_marker()
            + without_end_slashes(prefix),
        None => !is_mux_marker(p),
    }
}

/// The active parameters, in order.
pub open spec fn active_params(
    meta: Seq<ResponseParameterInfo>,
    mux_prefix: Option<Seq<char>>,
) -> Seq<ResponseParameterInfo>
    decreases meta.len(),
{
    if meta.len() == 0 {
        Seq::empty()
    } else if is_active(meta.last(), mux_prefix) {
        active_params(meta.drop_last(), mux_prefix).push(meta.last())
    } else {
        active_params(meta.drop_last(), mux_prefix)
    }
}

/// The value for a parameter: what stands under its name, under the last part
/// of its name, or under either in lower case.
pub open spec fn param_value(
    data: Seq<(Seq<char>, JsonValue)>,
    name: Seq<char>,
) -> Option<JsonValue> {
    let short = last_segment(name);
    if lookup(data, name) is Some {
        lookup(data, name)
    } else if lookup(data, short) is Some {
        lookup(data, short)
    } else if lookup(data, ascii_lowered(name)) is Some {
        lookup(data, ascii_lowered(name))
    } else {
        lookup(data, ascii_lowered(short))
    }
}

/// The size of a parameter: what the metadata says, or the size of the data
/// for a value of variable size.
pub open spec fn effective_size(
    p: ResponseParameterInfo,
    data: Seq<(Seq<char>, JsonValue)>,
) -> nat {
    match p.byte_size {
        Some(size) => size as nat,
        None => if p.param_type is Value {
            value_bytes(param_value(data, p.name@)).len()
        } else {
            0
        },
    }
}

/// Where a parameter ends, as far as an address can say.
pub open spec fn param_end(p: ResponseParameterInfo, data: Seq<(Seq<char>, JsonValue)>) -> nat {
    let end = p.byte_position as nat + effective_size(p, data);
    if end > usize::MAX {
        usize::MAX as nat
    } else {
        end
    }
}

/// The greatest end of all parameters.
pub open spec fn greatest_end(
    params: Seq<ResponseParameterInfo>,
    data: Seq<(Seq<char>, JsonValue)>,
) -> nat
    decreases params.len(),
{
    if params.len() == 0 {
        0
    } else {
        let before = greatest_end(params.drop_last(), data);
        let last = param_end(params.last(), data);
        if last > before {
            last
        } else {
            before
        }
    }
}

/// The size of a response: where its last parameter ends, or room for SID and
/// DID if there is no parameter.
pub open spec fn response_size(
    params: Seq<ResponseParameterInfo>,
    data: Seq<(Seq<char>, JsonValue)>,
) -> nat {
    if params.len() == 0 {
        UDS_POSITIVE_RESPONSE_MIN_SIZE as nat
    } else {
        greatest_end(params, data)
    }
}

/// The sizes of parameters.
pub open spec fn effective_sizes(
    params: Seq<ResponseParameterInfo>,
    data: Seq<(Seq<char>, JsonValue)>,
) -> Seq<nat> {
    params.map_values(|p: ResponseParameterInfo| effective_size(p, data))
}

/// `bytes`, cut off to a size.
pub open spec fn cut_to(bytes: Seq<u8>, size: nat) -> Seq<u8> {
    if bytes.len() <= size {
        bytes
    } else {
        bytes.take(size as int)
    }
}

/// A response after one parameter of some size was written into it at its byte
/// position.
///
/// A constant stands on the right of its field, DID bytes and values of
/// variable size on the left. Case markers, parameters without size and those
/// that do not fit are not written.
pub open spec fn with_param(
    response: Seq<u8>,
    p: ResponseParameterInfo,
    size: nat,
    data: Seq<(Seq<char>, JsonValue)>,
    did: u16,
) -> Seq<u8> {
    let pos = p.byte_position as int;
    if is_mux_marker(p) || size == 0 || pos + size > response.len() {
        response
    } else {
        match p.param_type {
            ParameterTypeMetadata::CodedConst { coded_value } => match unsigned_of(
                coded_value@,
                10,
            ) {
                Some(value) => {
                    let bytes = be_minimal(value as nat);
                    if bytes.len() <= size {
                        spliced(response, pos + size - bytes.len(), bytes)
                    } else {
                        spliced(response, pos, bytes.skip(bytes.len() - size))
                    }
                },
                None => response,
            },
            ParameterTypeMetadata::MatchingRequestParam { .. } => spliced(
                response,
                pos,
                cut_to(be16_bytes(did), size),
            ),
            ParameterTypeMetadata::Value { .. } => if p.byte_size is Some {
                with_value_at(response, pos, size as int, param_value(data, p.name@))
            } else {
                spliced(response, pos, cut_to(value_bytes(param_value(data, p.name@)), size))
            },
            ParameterTypeMetadata::PhysConst { .. } => response,
        }
    }
}

/// A response after parameters, each of the size at its place in `sizes`, were
/// written into it one after the other.
pub open spec fn with_params(
    response: Seq<u8>,
    params: Seq<ResponseParameterInfo>,
    sizes: Seq<nat>,
    data: Seq<(Seq<char>, JsonValue)>,
    did: u16,
) -> Seq<u8>
    decreases params.len(),
{
    if params.len() == 0 {
        response
    } else {
        with_param(
            with_params(response, params.drop_last(), sizes.drop_last(), data, did),
            params.last(),
            sizes.last(),
            data,
            did,
        )
    }
}

/// The response that metadata describes: the active parameters written into
/// zero bytes.
pub open spec fn metadata_response(
    meta: Seq<ResponseParameterInfo>,
    data: Seq<(Seq<char>, JsonValue)>,
    did: u16,
) -> Seq<u8> {
    let params = active_params(meta, mux_case_prefix(meta, did));
    with_params(
        Seq::new(response_size(params, data), |i: int| 0u8),
        params,
        effective_sizes(params, data),
        data,
        did,
    )
}

/// The values of some machine integers.
pub open spec fn nats(sizes: Seq<usize>) -> Seq<nat> {
    sizes.map_values(|size: usize| size as nat)
}

/// The referenced values.
pub open spec fn derefs(params: Seq<&ResponseParameterInfo>) -> Seq<ResponseParameterInfo> {
    params.map_values(|p: &ResponseParameterInfo| *p)
}

/// Keep only the parameters that are active for the given MUX case.
///
/// - Top-level params (no `/` in name) are always included.
/// - When `mux_case_prefix` is `Some`, only sub-params whose name starts with
///   that prefix (plus the corresponding `__mux_case__` marker) are kept.
/// - When `mux_case_prefix` is `None`, any `__mux_case__/` entries are dropped.
pub fn filter_active_params<'a>(
    meta: &'a [ResponseParameterInfo],
    mux_case_prefix: Option<&str>,
) -> (active: Vec<&'a ResponseParameterInfo>)
    ensures
        derefs(active@) == active_params(
            meta@,
            match mux_case_prefix {
                Some(p) => Some(p@),
                None => None,
            },
        ),
{
    let ghost prefix_view = match mux_case_prefix {
        Some(p) => Some(p@),
        None => None,
    };
    let marker = chars_of("__mux_case__/");
    let prefix: Option<(Vec<char>, Vec<char>)> = match mux_case_prefix {
        Some(p) => {
            let chars = chars_of(p);
            let mut name = chars_of("__mux_case__/");
            name.extend_from_slice(trim_end_slashes(chars.as_slice()));
            Some((chars, name))
        },
        None => None,
    };
    let mut active: Vec<&'a ResponseParameterInfo> = Vec::new();
    assert(derefs(active@) =~= active_params(meta@.take(0), prefix_view));
    let mut i: usize = 0;
    while i < meta.len()
        invariant
            i <= meta@.len(),
            marker@ == mux_marker(),
            prefix_view == match prefix {
                Some((p, _)) => Some(p@),
                None => None,
            },
            prefix matches Some((p, name)) ==> name@ == mux_marker() + without_end_slashes(p@),
            derefs(active@) == active_params(meta@.take(i as int), prefix_view),
        decreases meta@.len() - i,
    {
        let p = &meta[i];
        let name = chars_of(p.name.as_str());
        let keep = if !contains_char(name.as_slice(), '/') {
            true
        } else {
            match &prefix {
                Some((case_prefix, marker_name)) => starts_with(
                    name.as_slice(),
                    case_prefix.as_slice(),
                ) || same_chars(name.as_slice(), marker_name.as_slice()),
                None => !starts_with(name.as_slice(), marker.as_slice()),
            }
        };
        let ghost before = active@;
        proof {
            assert(meta@.take(i + 1).drop_last() =~= meta@.take(i as int));
            assert(meta@.take(i + 1).last() == *p);
            assert(keep == is_active(*p, prefix_view));
        }
        if keep {
            active.push(p);
            assert(derefs(active@) =~= derefs(before).push(*p));
        }
        i = i + 1;
    }
    assert(meta@.take(i as int) =~= meta@);
    active
}

fn same_chars(a: &[char], b: &[char]) -> (same: bool)
    ensures
        same == (a@ == b@),
{
    if a.len() != b.len() {
        return false;
    }
    let same = starts_with(a, b);
    assert(a@.subrange(0, b@.len() as int) =~= a@);
    same
}

/// Looks up the value for a parameter.
pub fn find_param_value<'a>(data: &'a JsonMap, name: &str) -> (value: Option<&'a JsonValue>)
    ensures
        match value {
            Some(v) => param_value(data@, name@) == Some(*v),
            None => param_value(data@, name@) is None,
        },
{
    let chars = chars_of(name);
    let short = string_of(segment_after_last_slash(chars.as_slice()));
    if let Some(v) = data.get(name) {
        return Some(v);
    }
    if let Some(v) = data.get(short.as_str()) {
        return Some(v);
    }
    if let Some(v) = data.get(to_ascii_lowercase(name).as_str()) {
        return Some(v);
    }
    data.get(to_ascii_lowercase(short.as_str()).as_str())
}

/// Determine the effective byte size of each active parameter.
///
/// Fixed-size params use `byte_size` directly. Variable-size `VALUE` params
/// (where `byte_size` is `None`) infer their size from the serialised form of
/// the matching value in `response_data`.
pub fn compute_effective_sizes(
    active_params: &[&ResponseParameterInfo],
    response_data: &JsonMap,
) -> (sizes: Vec<usize>)
    ensures
        sizes@.len() == active_params@.len(),
        forall|i: int|
            0 <= i < sizes@.len() ==> #[trigger] sizes@[i] == effective_size(
                *active_params@[i],
                response_data@,
            ),
{
    let mut sizes: Vec<usize> = Vec::new();
    let mut i: usize = 0;
    while i < active_params.len()
        invariant
            i <= active_params@.len(),
            sizes@.len() == i,
            forall|j: int|
                0 <= j < i ==> #[trigger] sizes@[j] == effective_size(
                    *active_params@[j],
                    response_data@,
                ),
        decreases active_params@.len() - i,
    {
        let p = active_params[i];
        let size: usize = match p.byte_size {
            Some(s) => s as usize,
            None => match &p.param_type {
                ParameterTypeMetadata::Value { .. } => value_to_bytes(
                    find_param_value(response_data, p.name.as_str()),
                ).len(),
                _ => 0,
            },
        };
        sizes.push(size);
        i = i + 1;
    }
    sizes
}

/// The size of the response that the active parameters make up.
fn compute_response_size(
    active_params: &[&ResponseParameterInfo],
    effective_sizes: &[usize],
    Ghost(data): Ghost<Seq<(Seq<char>, JsonValue)>>,
) -> (size: usize)
    requires
        effective_sizes@.len() == active_params@.len(),
        forall|i: int|
            0 <= i < effective_sizes@.len() ==> #[trigger] effective_sizes@[i] == effective_size(
                *active_params@[i],
                data,
            ),
    ensures
        size == response_size(derefs(active_params@), data),
{
    let ghost params = derefs(active_params@);
    if active_params.len() == 0 {
        return UDS_POSITIVE_RESPONSE_MIN_SIZE;
    }
    let mut size: usize = 0;
    let mut i: usize = 0;
    while i < active_params.len()
        invariant
            i <= active_params@.len(),
            effective_sizes@.len() == active_params@.len(),
            params == derefs(active_params@),
            forall|j: int|
                0 <= j < effective_sizes@.len() ==> #[trigger] effective_sizes@[j]
                    == effective_size(*active_params@[j], data),
            size == greatest_end(params.take(i as int), data),
        decreases active_params@.len() - i,
    {
        proof {
            assert(params.take(i + 1).drop_last() =~= params.take(i as int));
            assert(params.take(i + 1).last() == *active_params@[i as int]);
        }
        let end: usize = (active_params[i].byte_position as usize).saturating_add(
            effective_sizes[i],
        );
        if end > size {
            size = end;
        }
        i = i + 1;
    }
    assert(params.take(i as int) =~= params);
    size
}

/// Writes one parameter.
fn encode_param(
    response: &mut [u8],
    param: &ResponseParameterInfo,
    size: usize,
    data: &JsonMap,
    did: u16,
)
    ensures
        final(response)@ == with_param(old(response)@, *param, size as nat, data@, did),
{
    if is_marker(param.name.as_str()) {
        return ;
    }
    let pos: usize = param.byte_position as usize;
    if size == 0 || pos > response.len() || size > response.len() - pos {
        return ;
    }
    match &param.param_type {
        ParameterTypeMetadata::CodedConst { coded_value } => {
            if let Some(value) = parse_decimal(coded_value.as_str()) {
                let bytes = encode_unsigned_be(value);
                if bytes.len() <= size {
                    overwrite(response, pos + (size - bytes.len()), bytes.as_slice());
                } else {
                    let low = vstd::slice::slice_subrange(
                        bytes.as_slice(),
                        bytes.len() - size,
                        bytes.len(),
                    );
                    assert(low@ =~= bytes@.skip(bytes@.len() - size));
                    overwrite(response, pos, low);
                }
            }
        },
        ParameterTypeMetadata::MatchingRequestParam { .. } => {
            let mut bytes: Vec<u8> = Vec::new();
            bytes.push(high_byte(did));
            if size >= 2 {
                bytes.push(low_byte(did));
            }
            assert(bytes@ =~= cut_to(be16_bytes(did), size as nat));
            overwrite(response, pos, bytes.as_slice());
        },
        ParameterTypeMetadata::Value { .. } => {
            let value = find_param_value(data, param.name.as_str());
            if param.byte_size.is_some() {
                encode_value_at(response, pos, size, value);
            } else {
                let bytes = value_to_bytes(value);
                let count: usize = if bytes.len() <= size {
                    bytes.len()
                } else {
                    size
                };
                let part = vstd::slice::slice_subrange(bytes.as_slice(), 0, count);
                assert(part@ =~= cut_to(bytes@, size as nat));
                overwrite(response, pos, part);
            }
        },
        ParameterTypeMetadata::PhysConst { .. } => {},
    }
}

/// Write each active parameter into `response` at its MDD-defined byte position,
/// with the size at its place in `effective_sizes`. Parameters without a size
/// and sizes without a parameter are left out.
///
/// - `__mux_case__/` markers are skipped (used only for size computation).
/// - Out-of-bounds or zero-size writes are silently ignored.
pub fn encode_params_into_response(
    response: &mut [u8],
    active_params: &[&ResponseParameterInfo],
    effective_sizes: &[usize],
    response_data: &JsonMap,
    did: u16,
)
    ensures
        ({
            let count = if active_params@.len() <= effective_sizes@.len() {
                active_params@.len() as int
            } else {
                effective_sizes@.len() as int
            };
            final(response)@ == with_params(
                old(response)@,
                derefs(active_params@).take(count),
                nats(effective_sizes@).take(count),
                response_data@,
                did,
            )
        }),
{
    let ghost before = response@;
    let ghost params = derefs(active_params@);
    let ghost sizes = nats(effective_sizes@);
    let mut i: usize = 0;
    while i < active_params.len() && i < effective_sizes.len()
        invariant
            i <= active_params@.len(),
            i <= effective_sizes@.len(),
            params == derefs(active_params@),
            sizes == nats(effective_sizes@),
            response@ == with_params(
                before,
                params.take(i as int),
                sizes.take(i as int),
                response_data@,
                did,
            ),
        decreases active_params@.len() - i,
    {
        proof {
            assert(params.take(i + 1).drop_last() =~= params.take(i as int));
            assert(params.take(i + 1).last() == *active_params@[i as int]);
            assert(sizes.take(i + 1).drop_last() =~= sizes.take(i as int));
            assert(sizes.take(i + 1).last() == effective_sizes@[i as int]);
        }
        encode_param(response, active_params[i], effective_sizes[i], response_data, did);
        i = i + 1;
    }
}

/// The bytes of an entry in a response without metadata. A number below zero
/// keeps the two low bytes of its 64 bits.
pub open spec fn naive_value_bytes(value: JsonValue) -> Seq<u8> {
    match value {
        JsonValue::String(s) => encode_utf8(s@),
        JsonValue::Number(n) => match n.unsigned() {
            Some(u) => be_minimal(u as nat),
            None => if n.signed() is Some {
                if n.bits() < 0x100 {
                    seq![n.bits() as u8]
                } else {
                    seq![(n.bits() / 0x100 % 0x100) as u8, (n.bits() % 0x100) as u8]
                }
            } else {
                Seq::empty()
            },
        },
        JsonValue::Array(items) => array_bytes(items@),
        JsonValue::Bool(b) => seq![bool_byte(b)],
        JsonValue::Null | JsonValue::Object(_) => Seq::empty(),
    }
}

/// The entries one after the other, but for those named `sid` in any case.
pub open spec fn naive_payload(data: Seq<(Seq<char>, JsonValue)>) -> Seq<u8>
    decreases data.len(),
{
    if data.len() == 0 {
        Seq::empty()
    } else if ascii_lowered(data.last().0) == ascii_lowered("sid"@) {
        naive_payload(data.drop_last())
    } else {
        naive_payload(data.drop_last()) + naive_value_bytes(data.last().1)
    }
}

/// A positive response without metadata: response SID, DID and the entries.
pub open spec fn naive_response(
    sid: u8,
    did: u16,
    data: Seq<(Seq<char>, JsonValue)>,
) -> Seq<u8> {
    seq![((sid + RESPONSE_OFFSET) % 0x100) as u8] + be16_bytes(did) + naive_payload(data)
}

fn append_naive_value(response: &mut Vec<u8>, value: &JsonValue)
    ensures
        final(response)@ == old(response)@ + naive_value_bytes(*value),
{
    match value {
        JsonValue::String(s) => {
            response.extend_from_slice(string_to_bytes(s.as_str()).as_slice());
        },
        JsonValue::Number(n) => {
            if let Some(num) = n.as_u64() {
                response.extend_from_slice(encode_unsigned_be(num).as_slice());
            } else if n.as_i64().is_some() {
                let bits: u64 = n.to_bits();
                if bits < 0x100 {
                    response.push(bits as u8);
                } else {
                    response.push((bits / 0x100 % 0x100) as u8);
                    response.push((bits % 0x100) as u8);
                }
            }
        },
        JsonValue::Array(items) => {
            response.extend_from_slice(array_to_bytes(items.as_slice()).as_slice());
        },
        JsonValue::Bool(b) => {
            response.push(bool_to_byte(*b));
        },
        JsonValue::Null | JsonValue::Object(_) => {},
    }
    assert(response@ =~= old(response)@ + naive_value_bytes(*value));
}

/// Build a positive response without metadata.
pub fn encode_naive_response(sid: u8, did: u16, response_data: &JsonMap) -> (response: Vec<u8>)
    ensures
        response@ == naive_response(sid, did, response_data@),
{
    let mut response: Vec<u8> = Vec::new();
    response.push(sid.wrapping_add(RESPONSE_OFFSET));
    response.push(high_byte(did));
    response.push(low_byte(did));
    let ghost header = response@;
    assert(header =~= seq![((sid + RESPONSE_OFFSET) % 0x100) as u8] + be16_bytes(did));
    let mut i: usize = 0;
    assert(response@ =~= header + naive_payload(response_data@.take(0)));
    while i < response_data.len()
        invariant
            i <= response_data@.len(),
            response@ == header + naive_payload(response_data@.take(i as int)),
        decreases response_data@.len() - i,
    {
        proof {
            assert(response_data@.take(i + 1).drop_last() =~= response_data@.take(i as int));
            assert(response_data@.take(i + 1).last() == response_data@[i as int]);
        }
        if !eq_ignore_ascii_case(response_data.name_at(i), "sid") {
            append_naive_value(&mut response, response_data.value_at(i));
            assert(response@ =~= header + naive_payload(response_data@.take(i + 1)));
        }
        i = i + 1;
    }
    assert(response_data@.take(i as int) =~= response_data@);
    response
}

/// A UDS response together with the service whose layout it follows.
#[derive(Debug)]
pub struct EncodedResponse {
    /// Bytes of the response.
    pub bytes: Vec<u8>,
    /// Service that the layout comes from.
    pub effective_service: String,
}

/// Encodes SOVD JSON data into UDS response bytes using MDD metadata.
pub struct ResponseEncoder;

impl ResponseEncoder {
    /// Encode a UDS response using POS-RESPONSE parameter metadata.
    ///
    /// `metadata` is the response layout and the service it comes from, where
    /// one was found. Returns `None` when no metadata is available.
    pub fn encode_response_from_metadata(
        metadata: Option<&(Vec<ResponseParameterInfo>, String)>,
        did: u16,
        response_data: &JsonMap,
    ) -> (response: Option<EncodedResponse>)
        ensures
            match metadata {
                Some((meta, service)) => if meta@.len() == 0 {
                    response is None
                } else {
                    &&& response is Some
                    &&& response->0.bytes@ == metadata_response(meta@, response_data@, did)
                    &&& response->0.effective_service@ == service@
                },
                None => response is None,
            },
    {
        let (meta, effective_service) = match metadata {
            Some((meta, service)) => (meta, service),
            None => {
                return None;
            },
        };
        if meta.len() == 0 {
            return None;
        }
        let prefix = find_mux_case_prefix(meta.as_slice(), did);
        let prefix_str = match &prefix {
            Some(p) => Some(p.as_str()),
            None => None,
        };
        let active = filter_active_params(meta.as_slice(), prefix_str);
        let sizes = compute_effective_sizes(active.as_slice(), response_data);
        let total: usize = compute_response_size(
            active.as_slice(),
            sizes.as_slice(),
            Ghost(response_data@),
        );
        let mut bytes: Vec<u8> = vec![0u8; total];
        proof {
            let params = derefs(active@);
            assert(bytes@ =~= Seq::new(total as nat, |i: int| 0u8));
            assert(params.take(active@.len() as int) =~= params);
            assert(nats(sizes@).take(active@.len() as int) =~= effective_sizes(
                params,
                response_data@,
            ));
        }
        encode_params_into_response(
            bytes.as_mut_slice(),
            active.as_slice(),
            sizes.as_slice(),
            response_data,
            did,
        );
        Some(EncodedResponse { bytes, effective_service: effective_service.clone() })
    }

    /// Build UDS response bytes from SOVD JSON data.
    ///
    /// Encodes each parameter of the POS-RESPONSE layout at its defined byte
    /// position:
    ///
    /// - `CODED-CONST`: fixed value (e.g. response SID).
    /// - `MatchingRequestParam`: DID bytes echoed from the request.
    /// - `VALUE`: SOVD data at the MDD offset; defaults to 0 when absent.
    ///
    /// Falls back to naive encoding when no response metadata is available.
    pub fn build_response(
        service_name: &str,
        sid: u8,
        did: u16,
        metadata: Option<&(Vec<ResponseParameterInfo>, String)>,
        response_data: &JsonMap,
    ) -> (response: EncodedResponse)
        ensures
            match metadata {
                Some((meta, service)) if meta@.len() > 0 => {
                    &&& response.bytes@ == metadata_response(meta@, response_data@, did)
                    &&& response.effective_service@ == service@
                },
                _ => {
                    &&& response.bytes@ == naive_response(sid, did, response_data@)
                    &&& response.effective_service@ == service_name@
                },
            },
    {
        match Self::encode_response_from_metadata(metadata, did, response_data) {
            Some(response) => response,
            None => EncodedResponse {
                bytes: encode_naive_response(sid, did, response_data),
                effective_service: service_name.to_owned(),
            },
        }
    }
}

/// A parameter of a size can change byte `k` of a response of length `len`: the
/// byte lies in its field, the field lies in the response, and there is
/// something to write. Case markers, physical constants and values that the
/// data does not hold change nothing.
pub open spec fn reaches(
    p: ResponseParameterInfo,
    size: nat,
    data: Seq<(Seq<char>, JsonValue)>,
    len: nat,
    k: int,
) -> bool {
    &&& p.byte_position <= k < p.byte_position + size <= len
    &&& !is_mux_marker(p)
    &&& !(p.param_type is PhysConst)
    &&& p.param_type is Value ==> param_value(data, p.name@) is Some
}

/// Some parameter can change byte `k`.
pub open spec fn some_reaches(
    params: Seq<ResponseParameterInfo>,
    sizes: Seq<nat>,
    data: Seq<(Seq<char>, JsonValue)>,
    len: nat,
    k: int,
) -> bool {
    exists|j: int| 0 <= j < params.len() && #[trigger] reaches(params[j], sizes[j], data, len, k)
}

/// Writing a parameter keeps the length of the response and every byte that
/// the parameter does not reach.
pub proof fn lemma_with_param_frame(
    response: Seq<u8>,
    p: ResponseParameterInfo,
    size: nat,
    data: Seq<(Seq<char>, JsonValue)>,
    did: u16,
)
    ensures
        with_param(response, p, size, data, did).len() == response.len(),
        forall|k: int|
            0 <= k < response.len() && !reaches(p, size, data, response.len(), k)
                ==> #[trigger] with_param(response, p, size, data, did)[k] == response[k],
{
    let pos = p.byte_position as int;
    let value = param_value(data, p.name@);
    let after = with_param(response, p, size, data, did);
    if !is_mux_marker(p) && size > 0 && pos + size <= response.len() {
        match p.param_type {
            ParameterTypeMetadata::CodedConst { coded_value } => {
                if unsigned_of(coded_value@, 10) is Some {
                    lemma_be_minimal_is_shortest(unsigned_of(coded_value@, 10)->0 as nat);
                }
            },
            ParameterTypeMetadata::Value { .. } => {
                if value is None {
                    assert(after =~= response);
                } else if p.byte_size is Some {
                    let field = response.subrange(pos, pos + size);
                    lemma_field_len(field, value->0);
                }
            },
            _ => {},
        }
    }
}

/// Whatever sizes the parameters have, writing them keeps the length of the
/// response and every byte that none of them reaches.
pub proof fn lemma_with_params_frame(
    response: Seq<u8>,
    params: Seq<ResponseParameterInfo>,
    sizes: Seq<nat>,
    data: Seq<(Seq<char>, JsonValue)>,
    did: u16,
)
    requires
        params.len() == sizes.len(),
    ensures
        with_params(response, params, sizes, data, did).len() == response.len(),
        forall|k: int|
            0 <= k < response.len() && !some_reaches(params, sizes, data, response.len(), k)
                ==> #[trigger] with_params(response, params, sizes, data, did)[k] == response[k],
    decreases params.len(),
{
    if params.len() > 0 {
        let (shorter, shorter_sizes) = (params.drop_last(), sizes.drop_last());
        let len = response.len();
        lemma_with_params_frame(response, shorter, shorter_sizes, data, did);
        let before = with_params(response, shorter, shorter_sizes, data, did);
        lemma_with_param_frame(before, params.last(), sizes.last(), data, did);
        assert forall|k: int|
            0 <= k < len && !some_reaches(
                params,
                sizes,
                data,
                len,
                k,
            ) implies #[trigger] with_params(response, params, sizes, data, did)[k]
            == response[k] by {
            assert forall|j: int| 0 <= j < shorter.len() implies !#[trigger] reaches(
                shorter[j],
                shorter_sizes[j],
                data,
                len,
                k,
            ) by {
                assert(!reaches(params[j], sizes[j], data, len, k));
            }
            let last = params.len() - 1;
            assert(!reaches(params[last], sizes[last], data, len, k));
        }
    }
}

/// Two fields have no byte in common.
pub open spec fn disjoint_fields(
    a: ResponseParameterInfo,
    a_size: nat,
    b: ResponseParameterInfo,
    b_size: nat,
) -> bool {
    a.byte_position + a_size <= b.byte_position || b.byte_position + b_size <= a.byte_position
}

/// No later parameter touches the field of parameter `i`.
pub open spec fn field_is_kept(
    params: Seq<ResponseParameterInfo>,
    sizes: Seq<nat>,
    i: int,
) -> bool {
    forall|j: int|
        i < j < params.len() ==> disjoint_fields(
            params[i],
            sizes[i],
            #[trigger] params[j],
            sizes[j],
        )
}

/// A field that no later parameter touches ends up as it was written.
pub proof fn lemma_field_survives(
    response: Seq<u8>,
    params: Seq<ResponseParameterInfo>,
    sizes: Seq<nat>,
    i: int,
    data: Seq<(Seq<char>, JsonValue)>,
    did: u16,
)
    requires
        params.len() == sizes.len(),
        0 <= i < params.len(),
        params[i].byte_position + sizes[i] <= response.len(),
        field_is_kept(params, sizes, i),
    ensures
        ({
            let from = params[i].byte_position as int;
            let to = from + sizes[i];
            let written = with_params(
                response,
                params.take(i + 1),
                sizes.take(i + 1),
                data,
                did,
            );
            with_params(response, params, sizes, data, did).subrange(from, to) == written.subrange(
                from,
                to,
            )
        }),
    decreases params.len(),
{
    let from = params[i].byte_position as int;
    let to = from + sizes[i];
    if i == params.len() - 1 {
        assert(params.take(i + 1) =~= params);
        assert(sizes.take(i + 1) =~= sizes);
    } else {
        let (shorter, shorter_sizes) = (params.drop_last(), sizes.drop_last());
        assert forall|j: int| i < j < shorter.len() implies disjoint_fields(
            shorter[i],
            shorter_sizes[i],
            #[trigger] shorter[j],
            shorter_sizes[j],
        ) by {
            assert(disjoint_fields(params[i], sizes[i], params[j], sizes[j]));
        }
        lemma_field_survives(response, shorter, shorter_sizes, i, data, did);
        assert(shorter.take(i + 1) =~= params.take(i + 1));
        assert(shorter_sizes.take(i + 1) =~= sizes.take(i + 1));
        lemma_with_params_frame(response, shorter, shorter_sizes, data, did);
        let before = with_params(response, shorter, shorter_sizes, data, did);
        lemma_with_param_frame(before, params.last(), sizes.last(), data, did);
        let last = params.len() - 1;
        assert(disjoint_fields(params[i], sizes[i], params[last], sizes[last]));
        assert(with_params(response, params, sizes, data, did).subrange(from, to)
            =~= before.subrange(from, to));
    }
}

/// A whole number that fits its field can be read back from the response, if
/// no later parameter touches the field.
pub proof fn lemma_number_reads_back(
    response: Seq<u8>,
    params: Seq<ResponseParameterInfo>,
    sizes: Seq<nat>,
    i: int,
    data: Seq<(Seq<char>, JsonValue)>,
    did: u16,
    n: u64,
)
    requires
        params.len() == sizes.len(),
        0 <= i < params.len(),
        params[i].param_type is Value,
        params[i].byte_size is Some,
        sizes[i] > 0,
        n < bytes_bound(sizes[i]),
        !is_mux_marker(params[i]),
        param_value(data, params[i].name@) matches Some(v) && v.unsigned() == Some(n),
        params[i].byte_position + sizes[i] <= response.len(),
        field_is_kept(params, sizes, i),
    ensures
        ({
            let from = params[i].byte_position as int;
            let to = from + sizes[i];
            be_value(with_params(response, params, sizes, data, did).subrange(from, to)) == n
        }),
{
    let p = params[i];
    let from = p.byte_position as int;
    let to = from + sizes[i];
    lemma_field_survives(response, params, sizes, i, data, did);
    let (upto, upto_sizes) = (params.take(i + 1), sizes.take(i + 1));
    assert(upto.drop_last() =~= params.take(i));
    assert(upto_sizes.drop_last() =~= sizes.take(i));
    assert(upto.last() == p);
    let before = with_params(response, params.take(i), sizes.take(i), data, did);
    lemma_with_params_frame(response, params.take(i), sizes.take(i), data, did);
    lemma_be_fixed_round_trip(n as nat, sizes[i]);
    assert(with_param(before, p, sizes[i], data, did).subrange(from, to) =~= be_fixed(
        n as nat,
        sizes[i],
    ));
}

/// The DID of the request is echoed where the layout asks for it, if no later
/// parameter touches the field.
pub proof fn lemma_did_is_echoed(
    response: Seq<u8>,
    params: Seq<ResponseParameterInfo>,
    sizes: Seq<nat>,
    i: int,
    data: Seq<(Seq<char>, JsonValue)>,
    did: u16,
)
    requires
        params.len() == sizes.len(),
        0 <= i < params.len(),
        params[i].param_type is MatchingRequestParam,
        sizes[i] >= 2,
        !is_mux_marker(params[i]),
        params[i].byte_position + sizes[i] <= response.len(),
        field_is_kept(params, sizes, i),
    ensures
        with_params(response, params, sizes, data, did).subrange(
            params[i].byte_position as int,
            params[i].byte_position + 2,
        ) == be16_bytes(did),
{
    let p = params[i];
    let from = p.byte_position as int;
    let to = from + sizes[i];
    lemma_field_survives(response, params, sizes, i, data, did);
    let (upto, upto_sizes) = (params.take(i + 1), sizes.take(i + 1));
    assert(upto.drop_last() =~= params.take(i));
    assert(upto_sizes.drop_last() =~= sizes.take(i));
    assert(upto.last() == p);
    lemma_with_params_frame(response, params.take(i), sizes.take(i), data, did);
    let before = with_params(response, params.take(i), sizes.take(i), data, did);
    let written = with_param(before, p, sizes[i], data, did);
    let all = with_params(response, params, sizes, data, did);
    lemma_with_params_frame(response, params, sizes, data, did);
    assert(all.subrange(from, from + 2) =~= all.subrange(from, to).take(2));
    assert(written.subrange(from, to).take(2) =~= be16_bytes(did));
}

/// A response built from metadata has the size that its active parameters call
/// for, and bytes that none of them reaches are zero.
pub proof fn lemma_metadata_response_shape(
    meta: Seq<ResponseParameterInfo>,
    data: Seq<(Seq<char>, JsonValue)>,
    did: u16,
)
    ensures
        ({
            let params = active_params(meta, mux_case_prefix(meta, did));
            let sizes = effective_sizes(params, data);
            let response = metadata_response(meta, data, did);
            &&& response.len() == response_size(params, data)
            &&& forall|k: int|
                0 <= k < response.len() && !some_reaches(params, sizes, data, response.len(), k)
                    ==> #[trigger] response[k] == 0
        }),
{
    let params = active_params(meta, mux_case_prefix(meta, did));
    lemma_with_params_frame(
        Seq::new(response_size(params, data), |i: int| 0u8),
        params,
        effective_sizes(params, data),
        data,
        did,
    );
}

/// A value that the data does not hold leaves its field zero, if no other
/// parameter touches the field.
pub proof fn lemma_absent_value_is_zero(
    meta: Seq<ResponseParameterInfo>,
    data: Seq<(Seq<char>, JsonValue)>,
    did: u16,
    i: int,
    k: int,
)
    requires
        ({
            let params = active_params(meta, mux_case_prefix(meta, did));
            let sizes = effective_sizes(params, data);
            &&& 0 <= i < params.len()
            &&& params[i].param_type is Value
            &&& param_value(data, params[i].name@) is None
            &&& forall|j: int|
                0 <= j < params.len() && j != i ==> disjoint_fields(
                    params[i],
                    sizes[i],
                    #[trigger] params[j],
                    sizes[j],
                )
            &&& params[i].byte_position <= k < params[i].byte_position + sizes[i]
            &&& k < response_size(params, data)
        }),
    ensures
        metadata_response(meta, data, did)[k] == 0,
{
    let params = active_params(meta, mux_case_prefix(meta, did));
    let sizes = effective_sizes(params, data);
    let len = response_size(params, data);
    lemma_metadata_response_shape(meta, data, did);
    assert forall|j: int| 0 <= j < params.len() implies !#[trigger] reaches(
        params[j],
        sizes[j],
        data,
        len,
        k,
    ) by {
        if j != i {
            assert(disjoint_fields(params[i], sizes[i], params[j], sizes[j]));
        }
    }
}

/// A response without metadata starts with the response SID and the DID of the
/// request.
pub proof fn lemma_naive_response_header(sid: u8, did: u16, data: Seq<(Seq<char>, JsonValue)>)
    ensures
        ({
            let response = naive_response(sid, did, data);
            &&& response.len() >= UDS_POSITIVE_RESPONSE_MIN_SIZE
            &&& response[0] == (sid + RESPONSE_OFFSET) % 0x100
            &&& did_in(response) == Some(did)
            &&& response.skip(3) == naive_payload(data)
        }),
{
    let response = naive_response(sid, did, data);
    assert(response.subrange(1, 3) =~= be16_bytes(did));
    crate::doip::wire::lemma_be16_round_trip(did);
    assert(response.skip(3) =~= naive_payload(data));
}

} // verus!
