//! UDS helper functions: DID extraction, MUX-case matching and value encoding.

use crate::doip::wire::{be16, join_be16};
use crate::double::{
    double_text_as_u64, lemma_point_zero_reads_as_whole, lemma_two_to_bounds, parse_double_as_u64,
    two_to,
};
use crate::json::JsonValue;
use crate::number::{
    decimal_text, is_digit, lemma_decimal_round_trip, lemma_number_text_reads_back, literal_of,
    parse_u64_literal, parse_unsigned, unsigned_digits, unsigned_of,
};
use crate::service_resolver::model::{
    CompuScaleInfo, ParameterTypeMetadata, ResponseParameterInfo, ServiceParameterMetadata,
};
use crate::text::{chars_of, starts_with, string_of, trim, trimmed};
use vstd::prelude::*;
use vstd::utf8::encode_utf8;

verus! {

/// Extract the 16-bit DID from UDS payload bytes at offset 1 and 2.
///
/// Returns `None` if the slice has fewer than 3 bytes.
pub fn extract_did_from_uds(data: &[u8]) -> (did: Option<u16>)
    ensures
        did == did_in(data@),
{
    if data.len() < 3 {
        return None;
    }
    assert(data@.subrange(1, 3) =~= seq![data@[1], data@[2]]);
    Some(join_be16(data[1], data[2]))
}

/// The DID in a UDS message: its second and third byte.
pub open spec fn did_in(data: Seq<u8>) -> Option<u16> {
    if data.len() < 3 {
        None
    } else {
        Some(be16(data.subrange(1, 3)))
    }
}

/// A number in big-endian bytes, as few as it takes, at least one.
pub open spec fn be_minimal(n: nat) -> Seq<u8>
    decreases n,
{
    if n < 0x100 {
        seq![n as u8]
    } else {
        be_minimal(n / 0x100).push((n % 0x100) as u8)
    }
}

/// The `size` low bytes of a number, most significant first.
pub open spec fn be_fixed(n: nat, size: nat) -> Seq<u8>
    decreases size,
{
    if size == 0 {
        Seq::empty()
    } else {
        be_fixed(n / 0x100, (size - 1) as nat).push((n % 0x100) as u8)
    }
}

/// The number that bytes stand for, most significant first.
pub open spec fn be_value(bytes: Seq<u8>) -> nat
    decreases bytes.len(),
{
    if bytes.len() == 0 {
        0
    } else {
        be_value(bytes.drop_last()) * 0x100 + bytes.last() as nat
    }
}

/// Encoding a number and reading the bytes back gives the number.
pub proof fn lemma_be_minimal_round_trip(n: nat)
    ensures
        be_value(be_minimal(n)) == n,
    decreases n,
{
    reveal_with_fuel(be_value, 2);
    if n >= 0x100 {
        lemma_be_minimal_round_trip(n / 0x100);
        assert(be_minimal(n).drop_last() =~= be_minimal(n / 0x100));
    } else {
        assert(be_minimal(n).drop_last() =~= Seq::<u8>::empty());
    }
}

/// No byte can be left out: only zero starts with a zero byte, and a 64-bit
/// number takes at most eight.
pub proof fn lemma_be_minimal_is_shortest(n: nat)
    ensures
        be_minimal(n).len() >= 1,
        n > 0 ==> be_minimal(n)[0] != 0,
        n == 0 ==> be_minimal(n) == seq![0u8],
        n <= u64::MAX ==> be_minimal(n).len() <= 8,
    decreases n,
{
    lemma_be_minimal_len(n, 8);
    lemma_be_minimal_first(n);
}

proof fn lemma_be_minimal_first(n: nat)
    ensures
        be_minimal(n).len() >= 1,
        n > 0 ==> be_minimal(n)[0] != 0,
    decreases n,
{
    if n >= 0x100 {
        lemma_be_minimal_first(n / 0x100);
    }
}

/// How many numbers fit into `count` bytes.
pub open spec fn bytes_bound(count: nat) -> nat
    decreases count,
{
    if count == 0 {
        1
    } else {
        0x100 * bytes_bound((count - 1) as nat)
    }
}

proof fn lemma_be_minimal_len(n: nat, count: nat)
    requires
        count >= 1,
    ensures
        n < bytes_bound(count) ==> be_minimal(n).len() <= count,
        bytes_bound(8) == 0x1_0000_0000_0000_0000,
    decreases count,
{
    assert(bytes_bound(8) == 0x1_0000_0000_0000_0000) by {
        reveal_with_fuel(bytes_bound, 9);
    }
    if n >= 0x100 && n < bytes_bound(count) {
        reveal_with_fuel(bytes_bound, 2);
        if count == 1 {
            assert(false);
        }
        lemma_be_minimal_len(n / 0x100, (count - 1) as nat);
    }
}

/// Encode an unsigned integer as big-endian bytes (minimum width).
///
/// Zero encodes as `[0x00]`.
pub fn encode_unsigned_be(num: u64) -> (bytes: Vec<u8>)
    ensures
        bytes@ == be_minimal(num as nat),
    decreases num,
{
    if num < 0x100 {
        let mut bytes: Vec<u8> = Vec::new();
        bytes.push(num as u8);
        bytes
    } else {
        let mut bytes = encode_unsigned_be(num / 0x100);
        bytes.push((num % 0x100) as u8);
        bytes
    }
}

/// The number that a MUX case limit stands for: a whole number, or a decimal
/// number read as a double.
pub open spec fn mux_value_of(s: Seq<char>) -> Option<u64> {
    let t = trimmed(s);
    if unsigned_of(t, 10) is Some {
        unsigned_of(t, 10)
    } else {
        double_text_as_u64(t)
    }
}

/// Parse a MUX case `coded_value` string as a numeric DID value.
///
/// MDD stores MUX case limits as strings that may be float-formatted
/// (e.g. `"61699.0"`) or integer-formatted (e.g. `"61699"`).
pub fn parse_mux_coded_value(coded_value: &str) -> (value: Option<u64>)
    ensures
        value == mux_value_of(coded_value@),
{
    let chars = chars_of(coded_value);
    let inner = trim(chars.as_slice());
    match parse_unsigned(inner, 10) {
        Some(number) => Some(number),
        None => parse_double_as_u64(inner),
    }
}

/// A limit reads the same whether it is written as an integer or with a zero
/// behind a decimal point, for every number up to two to the power of 53.
pub proof fn lemma_both_limit_forms_agree(n: nat)
    requires
        n <= two_to(53),
    ensures
        mux_value_of(decimal_text(n)) == Some(n as u64),
        mux_value_of(decimal_text(n) + ".0"@) == Some(n as u64),
{
    lemma_two_to_bounds();
    reveal_strlit(".0");
    let digits = decimal_text(n);
    let text = digits + ".0"@;
    assert(text =~= digits + seq!['.', '0']);
    lemma_number_text_reads_back(n, 10);
    assert(is_digit(digits[0], 10));
    assert(is_digit(digits[digits.len() - 1], 10));
    assert(trimmed(digits) == digits);
    lemma_decimal_round_trip(n as u64);
    assert(text[0] == digits[0]);
    assert(text.last() == '0');
    assert(trimmed(text) == text);
    assert(unsigned_of(text, 10) is None) by {
        assert(unsigned_digits(text) == text);
        assert(text[digits.len() as int] == '.');
        assert(!is_digit(text[digits.len() as int], 10));
    }
    lemma_point_zero_reads_as_whole(n);
}

/// What the name of a MUX case marker starts with.
pub open spec fn mux_marker() -> Seq<char> {
    "__mux_case__/"@
}

/// The parameter marks a MUX case.
pub open spec fn is_mux_marker(p: ResponseParameterInfo) -> bool {
    mux_marker().is_prefix_of(p.name@)
}

/// The name of the case that a marker marks.
pub open spec fn mux_case_name(p: ResponseParameterInfo) -> Seq<char> {
    p.name@.skip(mux_marker().len() as int)
}

/// The lower bound of the MUX case that a parameter marks.
pub open spec fn mux_lower_bound(p: ResponseParameterInfo) -> Option<u64> {
    match p.param_type {
        ParameterTypeMetadata::CodedConst { coded_value } => if is_mux_marker(p) {
            mux_value_of(coded_value@)
        } else {
            None
        },
        _ => None,
    }
}

/// The MUX case that covers a DID: the one with the greatest lower bound up to
/// the DID, the last one where several have that bound.
pub open spec fn covering_case(meta: Seq<ResponseParameterInfo>, did: u16) -> Option<int>
    decreases meta.len(),
{
    if meta.len() == 0 {
        None
    } else {
        let before = covering_case(meta.drop_last(), did);
        match mux_lower_bound(meta.last()) {
            Some(bound) => if bound <= did && (before matches Some(i) ==> mux_lower_bound(
                meta[i],
            )->0 <= bound) {
                Some(meta.len() - 1)
            } else {
                before
            },
            None => before,
        }
    }
}

/// The name prefix of the parameters that belong to the MUX case for a DID.
pub open spec fn mux_case_prefix(meta: Seq<ResponseParameterInfo>, did: u16) -> Option<Seq<char>> {
    match covering_case(meta, did) {
        Some(i) => Some(mux_case_name(meta[i]).push('/')),
        None => None,
    }
}

/// The covering case has the greatest lower bound of all cases that start at
/// or below the DID, and no case covers a DID below all bounds.
pub proof fn lemma_covering_case_is_greatest(meta: Seq<ResponseParameterInfo>, did: u16)
    ensures
        match covering_case(meta, did) {
            Some(i) => {
                &&& 0 <= i < meta.len()
                &&& mux_lower_bound(meta[i]) is Some
                &&& mux_lower_bound(meta[i])->0 <= did
                &&& forall|j: int|
                    #![trigger meta[j]]
                    0 <= j < meta.len() && mux_lower_bound(meta[j]) is Some && mux_lower_bound(
                        meta[j],
                    )->0 <= did ==> mux_lower_bound(meta[j])->0 < mux_lower_bound(meta[i])->0 || (
                    mux_lower_bound(meta[j]) == mux_lower_bound(meta[i]) && j <= i)
            },
            None => forall|j: int|
                #![trigger meta[j]]
                0 <= j < meta.len() && mux_lower_bound(meta[j]) is Some ==> mux_lower_bound(
                    meta[j],
                )->0 > did,
        },
    decreases meta.len(),
{
    if meta.len() > 0 {
        let shorter = meta.drop_last();
        lemma_covering_case_is_greatest(shorter, did);
        assert forall|j: int| 0 <= j < shorter.len() implies shorter[j] == #[trigger] meta[j] by {}
    }
}

/// Tells whether a parameter name marks a MUX case.
pub fn is_marker(name: &str) -> (yes: bool)
    ensures
        yes == mux_marker().is_prefix_of(name@),
{
    starts_with(chars_of(name).as_slice(), chars_of("__mux_case__/").as_slice())
}

fn lower_bound_of(p: &ResponseParameterInfo) -> (bound: Option<u64>)
    ensures
        bound == mux_lower_bound(*p),
{
    match &p.param_type {
        ParameterTypeMetadata::CodedConst { coded_value } => if is_marker(p.name.as_str()) {
            parse_mux_coded_value(coded_value.as_str())
        } else {
            None
        },
        _ => None,
    }
}

/// Find the MUX case prefix that covers a given DID in response metadata.
///
/// MDD `__mux_case__` entries store only the lower limit of their range
/// (e.g. a case with `coded_value: "61697"` covering DIDs 0xF101
/// through 0xF140). A DID like 0xF103 (61699) has no exact match
/// but falls in that range.
///
/// The case with the largest lower bound that does not exceed the DID is
/// taken. This handles both single-value MUX cases (e.g. 0x7007) and range
/// cases (e.g. 0xD100 to 0xD150).
pub fn find_mux_case_prefix(meta: &[ResponseParameterInfo], did: u16) -> (prefix: Option<String>)
    ensures
        match prefix {
            Some(p) => mux_case_prefix(meta@, did) == Some(p@),
            None => mux_case_prefix(meta@, did) is None,
        },
{
    let mut best: Option<(u64, usize)> = None;
    let mut i: usize = 0;
    while i < meta.len()
        invariant
            i <= meta@.len(),
            match best {
                Some((bound, at)) => {
                    &&& at < i
                    &&& covering_case(meta@.take(i as int), did) == Some(at as int)
                    &&& mux_lower_bound(meta@[at as int]) == Some(bound)
                },
                None => covering_case(meta@.take(i as int), did) is None,
            },
        decreases meta@.len() - i,
    {
        proof {
            assert(meta@.take(i + 1).drop_last() =~= meta@.take(i as int));
            assert(meta@.take(i + 1).last() == meta@[i as int]);
        }
        match lower_bound_of(&meta[i]) {
            Some(bound) => {
                let better = match best {
                    Some((known, _)) => known <= bound,
                    None => true,
                };
                if bound <= did as u64 && better {
                    best = Some((bound, i));
                }
            },
            None => {},
        }
        i = i + 1;
    }
    assert(meta@.take(i as int) =~= meta@);
    match best {
        Some((_, at)) => {
            let marker = chars_of("__mux_case__/");
            let name = chars_of(meta[at].name.as_str());
            assert(is_mux_marker(meta@[at as int]));
            let case_name = vstd::slice::slice_subrange(name.as_slice(), marker.len(), name.len());
            assert(case_name@ =~= mux_case_name(meta@[at as int]));
            let mut prefix = string_of(case_name);
            prefix.push('/');
            Some(prefix)
        },
        None => None,
    }
}

/// Some MUX case starts exactly at the DID.
pub open spec fn has_exact_case(meta: Seq<ResponseParameterInfo>, did: u16) -> bool {
    exists|i: int|
        0 <= i < meta.len() && #[trigger] mux_lower_bound(meta[i]) == Some(did as u64)
}

/// A case that starts exactly at a DID covers it: the covering case then
/// starts there.
pub proof fn lemma_exact_case_covers(meta: Seq<ResponseParameterInfo>, did: u16)
    requires
        has_exact_case(meta, did),
    ensures
        covering_case(meta, did) matches Some(i) && mux_lower_bound(meta[i]) == Some(did as u64),
{
    lemma_covering_case_is_greatest(meta, did);
}

/// Check if any MUX case in the response metadata exactly matches the DID.
///
/// Uses exact (not floor) matching because this is for cross-service sibling
/// selection where different MUX DOPs can have overlapping ranges.
pub fn has_mux_case_for_did_exact(meta: &[ResponseParameterInfo], did: u16) -> (exact: bool)
    ensures
        exact == has_exact_case(meta@, did),
{
    let mut i: usize = 0;
    while i < meta.len()
        invariant
            i <= meta@.len(),
            forall|j: int|
                0 <= j < i ==> #[trigger] mux_lower_bound(meta@[j]) != Some(did as u64),
        decreases meta@.len() - i,
    {
        if let Some(bound) = lower_bound_of(&meta[i]) {
            if bound == did as u64 {
                assert(mux_lower_bound(meta@[i as int]) == Some(did as u64));
                return true;
            }
        }
        i = i + 1;
    }
    false
}

/// The parameter that bears the DID: the first one that is no copy of request
/// bytes, after the first constant that equals the SID was skipped.
pub open spec fn did_param(
    meta: Seq<ServiceParameterMetadata>,
    sid: u8,
    sid_skipped: bool,
) -> Option<ServiceParameterMetadata>
    decreases meta.len(),
{
    if meta.len() == 0 {
        None
    } else {
        match meta[0].param_type {
            ParameterTypeMetadata::CodedConst { coded_value } => if !sid_skipped && literal_of(
                coded_value@,
            ) == Some(sid as u64) {
                did_param(meta.skip(1), sid, true)
            } else {
                Some(meta[0])
            },
            ParameterTypeMetadata::MatchingRequestParam { .. } => did_param(
                meta.skip(1),
                sid,
                sid_skipped,
            ),
            _ => Some(meta[0]),
        }
    }
}

/// Find the DID-bearing parameter by position and type, not by name.
///
/// In standard UDS requests parameters are stored in byte order:
/// - First `CodedConst` whose value matches the SID -> SID indicator (skip)
/// - Next `CodedConst` / `PhysConst` / `Value` -> DID parameter
///
/// This avoids vendor-specific name or semantic string matching.
pub fn find_did_param(metadata: &[ServiceParameterMetadata], sid: u8) -> (param: Option<
    &ServiceParameterMetadata,
>)
    ensures
        match param {
            Some(p) => did_param(metadata@, sid, false) == Some(*p),
            None => did_param(metadata@, sid, false) is None,
        },
{
    let mut skipped_sid = false;
    let mut i: usize = 0;
    assert(metadata@.skip(0) =~= metadata@);
    while i < metadata.len()
        invariant
            i <= metadata@.len(),
            did_param(metadata@, sid, false) == did_param(
                metadata@.skip(i as int),
                sid,
                skipped_sid,
            ),
        decreases metadata@.len() - i,
    {
        assert(metadata@.skip(i as int).skip(1) =~= metadata@.skip(i + 1));
        let p = &metadata[i];
        match &p.param_type {
            ParameterTypeMetadata::CodedConst { coded_value } => {
                let is_sid = match parse_u64_literal(coded_value.as_str()) {
                    Some(value) => value == sid as u64,
                    None => false,
                };
                if !skipped_sid && is_sid {
                    skipped_sid = true;
                } else {
                    return Some(p);
                }
            },
            ParameterTypeMetadata::PhysConst { .. } | ParameterTypeMetadata::Value { .. } => {
                return Some(p);
            },
            ParameterTypeMetadata::MatchingRequestParam { .. } => {},
        }
        i = i + 1;
    }
    None
}

/// The DID falls into a range. A range without an upper limit holds its lower
/// limit alone, one without a lower limit holds nothing.
pub open spec fn in_scale(scale: CompuScaleInfo, did: u16) -> bool {
    match (scale.lower_limit, scale.upper_limit) {
        (Some(lo), Some(hi)) => lo <= did <= hi,
        (Some(lo), None) => did == lo,
        _ => false,
    }
}

/// The DID falls into one of the ranges.
pub open spec fn in_some_scale(scales: Seq<CompuScaleInfo>, did: u16) -> bool {
    exists|i: int| 0 <= i < scales.len() && #[trigger] in_scale(scales[i], did)
}

/// Check if a DID falls within any `CompuScale` range from the DOP metadata.
///
/// For TEXTTABLE DOPs each scale defines a coded (internal) DID range.
/// Returns `true` if `did` falls in `[lower_limit, upper_limit]` of any scale.
pub fn did_matches_compu_scales(scales: &[CompuScaleInfo], did: u16) -> (matched: bool)
    ensures
        matched == in_some_scale(scales@, did),
{
    let mut i: usize = 0;
    while i < scales.len()
        invariant
            i <= scales@.len(),
            forall|j: int| 0 <= j < i ==> !#[trigger] in_scale(scales@[j], did),
        decreases scales@.len() - i,
    {
        let inside = match (scales[i].lower_limit, scales[i].upper_limit) {
            (Some(lo), Some(hi)) => lo <= did as u64 && did as u64 <= hi,
            (Some(lo), None) => did as u64 == lo,
            _ => false,
        };
        if inside {
            assert(in_scale(scales@[i as int], did));
            return true;
        }
        i = i + 1;
    }
    false
}

/// The low byte of a number.
pub open spec fn low_byte_of(n: u64) -> u8 {
    (n % 0x100) as u8
}

/// The low bytes of the whole numbers in a list. Other items are left out.
pub open spec fn array_bytes(items: Seq<JsonValue>) -> Seq<u8>
    decreases items.len(),
{
    if items.len() == 0 {
        Seq::empty()
    } else {
        match items.last().unsigned() {
            Some(n) => array_bytes(items.drop_last()).push(low_byte_of(n)),
            None => array_bytes(items.drop_last()),
        }
    }
}

/// One for `true`, zero for `false`.
pub open spec fn bool_byte(b: bool) -> u8 {
    if b {
        1
    } else {
        0
    }
}

/// A JSON value as raw bytes: a number in as few bytes as it takes, a string
/// in UTF-8, a list item by item.
pub open spec fn value_bytes(value: Option<JsonValue>) -> Seq<u8> {
    match value {
        Some(JsonValue::Number(n)) => be_minimal(n.bits() as nat),
        Some(JsonValue::String(s)) => encode_utf8(s@),
        Some(JsonValue::Array(items)) => array_bytes(items@),
        Some(JsonValue::Bool(b)) => seq![bool_byte(b)],
        _ => Seq::empty(),
    }
}

/// Copies the low bytes of the whole numbers in a list.
pub fn array_to_bytes(items: &[JsonValue]) -> (bytes: Vec<u8>)
    ensures
        bytes@ == array_bytes(items@),
{
    let mut bytes: Vec<u8> = Vec::new();
    let mut i: usize = 0;
    while i < items.len()
        invariant
            i <= items@.len(),
            bytes@ == array_bytes(items@.take(i as int)),
        decreases items@.len() - i,
    {
        proof {
            assert(items@.take(i + 1).drop_last() =~= items@.take(i as int));
            assert(items@.take(i + 1).last() == items@[i as int]);
        }
        if let Some(n) = items[i].as_u64() {
            bytes.push((n % 0x100) as u8);
        }
        i = i + 1;
    }
    assert(items@.take(i as int) =~= items@);
    bytes
}

/// The bytes of a string in UTF-8.
pub fn string_to_bytes(s: &str) -> (bytes: Vec<u8>)
    ensures
        bytes@ == encode_utf8(s@),
{
    let mut bytes: Vec<u8> = Vec::new();
    bytes.extend_from_slice(s.as_bytes());
    bytes
}

/// One for `true`, zero for `false`.
pub fn bool_to_byte(b: bool) -> (byte: u8)
    ensures
        byte == bool_byte(b),
{
    if b {
        1
    } else {
        0
    }
}

/// Serialize a JSON value into raw bytes for UDS encoding.
///
/// Returns an empty Vec when the value is None or cannot be serialized.
pub fn value_to_bytes(value: Option<&JsonValue>) -> (bytes: Vec<u8>)
    ensures
        bytes@ == value_bytes(match value {
            Some(v) => Some(*v),
            None => None,
        }),
{
    match value {
        Some(JsonValue::Number(n)) => encode_unsigned_be(n.to_bits()),
        Some(JsonValue::String(s)) => string_to_bytes(s.as_str()),
        Some(JsonValue::Array(items)) => array_to_bytes(items.as_slice()),
        Some(JsonValue::Bool(b)) => {
            let mut bytes: Vec<u8> = Vec::new();
            bytes.push(bool_to_byte(*b));
            bytes
        },
        _ => Vec::new(),
    }
}

/// `buf` with some bytes replaced.
pub open spec fn spliced(buf: Seq<u8>, pos: int, bytes: Seq<u8>) -> Seq<u8> {
    buf.take(pos) + bytes + buf.skip(pos + bytes.len())
}

/// A field after a value was written into it. A number fills the field, with
/// zeros on the left where it is shorter. A string, a list and a boolean start
/// on the left and leave what they do not reach.
pub open spec fn field_with_value(field: Seq<u8>, value: JsonValue) -> Seq<u8> {
    match value {
        JsonValue::Number(n) => be_fixed(n.bits() as nat, field.len()),
        JsonValue::String(s) => {
            let bytes = encode_utf8(s@);
            if bytes.len() >= field.len() {
                bytes.take(field.len() as int)
            } else {
                bytes + field.skip(bytes.len() as int)
            }
        },
        JsonValue::Array(items) => Seq::new(
            field.len(),
            |i: int|
                if i < items@.len() && items@[i].unsigned() is Some {
                    low_byte_of(items@[i].unsigned()->0)
                } else {
                    field[i]
                },
        ),
        JsonValue::Bool(b) => field.update(0, bool_byte(b)),
        JsonValue::Null | JsonValue::Object(_) => field,
    }
}

/// `buf` after a value was written into a field of it. Nothing is written
/// without a value, into an empty field, or into one that is not wholly inside.
pub open spec fn with_value_at(
    buf: Seq<u8>,
    pos: int,
    size: int,
    value: Option<JsonValue>,
) -> Seq<u8> {
    match value {
        Some(v) => if size > 0 && pos + size <= buf.len() {
            spliced(buf, pos, field_with_value(buf.subrange(pos, pos + size), v))
        } else {
            buf
        },
        None => buf,
    }
}

/// A number that fits into a field reads back from it.
pub proof fn lemma_be_fixed_round_trip(n: nat, size: nat)
    requires
        n < bytes_bound(size),
    ensures
        be_fixed(n, size).len() == size,
        be_value(be_fixed(n, size)) == n,
    decreases size,
{
    if size > 0 {
        lemma_be_fixed_round_trip(n / 0x100, (size - 1) as nat);
        assert(be_fixed(n, size).drop_last() =~= be_fixed(n / 0x100, (size - 1) as nat));
    }
}

proof fn lemma_be_fixed_bytes(n: nat, size: nat)
    ensures
        be_fixed(n, size).len() == size,
    decreases size,
{
    if size > 0 {
        lemma_be_fixed_bytes(n / 0x100, (size - 1) as nat);
    }
}

/// Writing a value keeps the size of the field.
pub proof fn lemma_field_len(field: Seq<u8>, value: JsonValue)
    requires
        field.len() > 0,
    ensures
        field_with_value(field, value).len() == field.len(),
{
    if let JsonValue::Number(n) = value {
        lemma_be_fixed_bytes(n.bits() as nat, field.len());
    }
}

/// Writes bytes over the bytes at `pos`.
pub fn overwrite(buf: &mut [u8], pos: usize, bytes: &[u8])
    requires
        pos + bytes@.len() <= old(buf)@.len(),
    ensures
        final(buf)@ == spliced(old(buf)@, pos as int, bytes@),
{
    let ghost before = buf@;
    let len: usize = buf.len();
    let mut i: usize = 0;
    while i < bytes.len()
        invariant
            i <= bytes@.len(),
            pos + bytes@.len() <= before.len(),
            before.len() == len,
            buf@ == spliced(before, pos as int, bytes@.take(i as int)),
        decreases bytes@.len() - i,
    {
        buf[pos + i] = bytes[i];
        i = i + 1;
        assert(buf@ =~= spliced(before, pos as int, bytes@.take(i as int)));
    }
    assert(bytes@.take(i as int) =~= bytes@);
}

/// Writes the low bytes of a number over a field, most significant first.
fn overwrite_number(buf: &mut [u8], pos: usize, size: usize, num: u64)
    requires
        pos + size <= old(buf)@.len(),
    ensures
        final(buf)@ == spliced(old(buf)@, pos as int, be_fixed(num as nat, size as nat)),
{
    let ghost before = buf@;
    let len: usize = buf.len();
    let mut rest: u64 = num;
    let mut left: usize = size;
    proof {
        lemma_be_fixed_bytes(num as nat, size as nat);
        assert(be_fixed(num as nat, size as nat) =~= be_fixed(num as nat, size as nat)
            + buf@.subrange(pos + size, pos + size));
    }
    while left > 0
        invariant
            left <= size,
            pos + size <= before.len(),
            before.len() == len,
            buf@.len() == before.len(),
            forall|j: int| 0 <= j < pos + left ==> #[trigger] buf@[j] == before[j],
            forall|j: int| pos + size <= j < before.len() ==> #[trigger] buf@[j] == before[j],
            be_fixed(num as nat, size as nat) == be_fixed(rest as nat, left as nat) + buf@.subrange(
                pos + left,
                pos + size,
            ),
        decreases left,
    {
        let ghost written = buf@.subrange(pos + left, pos + size);
        let ghost high = be_fixed((rest / 0x100) as nat, (left - 1) as nat);
        left = left - 1;
        buf[pos + left] = (rest % 0x100) as u8;
        proof {
            assert(buf@.subrange(pos + left, pos + size) =~= seq![(rest % 0x100) as u8] + written);
            assert(high.push((rest % 0x100) as u8) + written =~= high + buf@.subrange(
                pos + left,
                pos + size,
            ));
        }
        rest = rest / 0x100;
    }
    assert(be_fixed(rest as nat, 0) + buf@.subrange(pos as int, pos + size) =~= buf@.subrange(
        pos as int,
        pos + size,
    ));
    assert(buf@ =~= spliced(before, pos as int, be_fixed(num as nat, size as nat)));
}

/// Encode a JSON value into `buf[pos..pos+size]` using big-endian representation.
///
/// Handles numbers, strings, byte arrays, and booleans. A number fills the
/// entire `size` field, zero-padded on the left when it is shorter than `size`.
pub fn encode_value_at(buf: &mut [u8], pos: usize, size: usize, value: Option<&JsonValue>)
    ensures
        final(buf)@ == with_value_at(
            old(buf)@,
            pos as int,
            size as int,
            match value {
                Some(v) => Some(*v),
                None => None,
            },
        ),
{
    let value = match value {
        Some(v) => v,
        None => {
            return ;
        },
    };
    if size == 0 || pos > buf.len() || size > buf.len() - pos {
        return ;
    }
    let ghost before = buf@;
    let ghost field = before.subrange(pos as int, pos + size);
    let len: usize = buf.len();
    match value {
        JsonValue::Number(n) => {
            overwrite_number(buf, pos, size, n.to_bits());
        },
        JsonValue::String(s) => {
            let bytes = string_to_bytes(s.as_str());
            let count: usize = if bytes.len() < size {
                bytes.len()
            } else {
                size
            };
            overwrite(buf, pos, vstd::slice::slice_subrange(bytes.as_slice(), 0, count));
            assert(buf@ =~= spliced(before, pos as int, field_with_value(field, *value)));
        },
        JsonValue::Array(items) => {
            let mut i: usize = 0;
            while i < items.len() && i < size
                invariant
                    i <= items@.len(),
                    i <= size,
                    pos + size <= before.len() == len,
                    buf@.len() == before.len(),
                    forall|j: int|
                        0 <= j < before.len() ==> #[trigger] buf@[j] == (if pos <= j < pos + i
                            && items@[j - pos].unsigned() is Some {
                            low_byte_of(items@[j - pos].unsigned()->0)
                        } else {
                            before[j]
                        }),
                decreases items@.len() - i,
            {
                if let Some(n) = items[i].as_u64() {
                    buf[pos + i] = (n % 0x100) as u8;
                }
                i = i + 1;
            }
            assert(buf@ =~= spliced(before, pos as int, field_with_value(field, *value)));
        },
        JsonValue::Bool(b) => {
            buf[pos] = bool_to_byte(*b);
            assert(buf@ =~= spliced(before, pos as int, field_with_value(field, *value)));
        },
        JsonValue::Null | JsonValue::Object(_) => {
            assert(buf@ =~= spliced(before, pos as int, field_with_value(field, *value)));
        },
    }
}

} // verus!
