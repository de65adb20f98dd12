//! What a response holds, field by field, in terms of the layout and the data.

use crate::double::law_foreign_characters;
use crate::json::{lemma_lookup_with_entry, lookup, with_entry, JsonMap, JsonNumber, JsonValue};
use crate::number::{
    decimal_text, is_digit, law_decimal_text, law_what_is_no_number, lemma_decimal_round_trip,
    unsigned_of,
};
use crate::service_resolver::laws::{law_bytes_are_big_endian, law_number_in_field};
use crate::service_resolver::model::{ParameterTypeMetadata, ResponseParameterInfo};
use crate::service_resolver::response::{
    active_params, disjoint_fields, effective_sizes, field_is_kept, greatest_end, is_active,
    lemma_field_survives, lemma_metadata_response_shape, lemma_naive_response_header,
    lemma_with_params_frame, metadata_response, naive_payload, naive_response, naive_value_bytes,
    param_value, reaches, response_size, with_param, with_params, EncodedResponse, ResponseEncoder,
};
use crate::service_resolver::uds_helpers::{
    array_bytes, be_fixed, be_minimal, be_value, covering_case, has_exact_case,
    lemma_be_minimal_is_shortest, lemma_be_minimal_round_trip, lemma_covering_case_is_greatest,
    mux_case_prefix, mux_lower_bound, mux_value_of, value_bytes,
};
use crate::text::{
    ascii_lowered, is_blank, is_white_space, law_end_slashes, law_last_segment_follows_slash,
    law_lower_case, law_trim_ignores_blanks, law_trim_keeps_inner_text,
};
use vstd::arithmetic::power::{lemma_pow_positive, pow};
use vstd::prelude::*;
use vstd::utf8::encode_utf8;

verus! {

/// Parameter `i` is written for good: it is no case marker, its field lies in a
/// response of length `len`, and no later parameter touches the field.
pub open spec fn is_written(
    params: Seq<ResponseParameterInfo>,
    sizes: Seq<nat>,
    i: int,
    len: nat,
) -> bool {
    &&& params.len() == sizes.len()
    &&& 0 <= i < params.len()
    &&& !"__mux_case__/"@.is_prefix_of(params[i].name@)
    &&& 0 < sizes[i]
    &&& params[i].byte_position + sizes[i] <= len
    &&& field_is_kept(params, sizes, i)
}

/// The field of parameter `i` in a response after all parameters were written.
pub open spec fn field_after(
    response: Seq<u8>,
    params: Seq<ResponseParameterInfo>,
    sizes: Seq<nat>,
    data: Seq<(Seq<char>, JsonValue)>,
    did: u16,
    i: int,
) -> Seq<u8> {
    let from = params[i].byte_position as int;
    with_params(response, params, sizes, data, did).subrange(from, from + sizes[i])
}

/// The field of parameter `i` before that parameter is written.
pub open spec fn field_before(
    response: Seq<u8>,
    params: Seq<ResponseParameterInfo>,
    sizes: Seq<nat>,
    data: Seq<(Seq<char>, JsonValue)>,
    did: u16,
    i: int,
) -> Seq<u8> {
    let from = params[i].byte_position as int;
    with_params(response, params.take(i), sizes.take(i), data, did).subrange(
        from,
        from + sizes[i],
    )
}

proof fn lemma_field_is_last_write(
    response: Seq<u8>,
    params: Seq<ResponseParameterInfo>,
    sizes: Seq<nat>,
    data: Seq<(Seq<char>, JsonValue)>,
    did: u16,
    i: int,
) -> (before: Seq<u8>)
    requires
        is_written(params, sizes, i, response.len()),
    ensures
        before == with_params(response, params.take(i), sizes.take(i), data, did),
        before.len() == response.len(),
        field_after(response, params, sizes, data, did, i) == with_param(
            before,
            params[i],
            sizes[i],
            data,
            did,
        ).subrange(
            params[i].byte_position as int,
            params[i].byte_position + sizes[i],
        ),
{
    lemma_field_survives(response, params, sizes, i, data, did);
    let (upto, upto_sizes) = (params.take(i + 1), sizes.take(i + 1));
    assert(upto.drop_last() =~= params.take(i));
    assert(upto_sizes.drop_last() =~= sizes.take(i));
    assert(upto.last() == params[i]);
    lemma_with_params_frame(response, params.take(i), sizes.take(i), data, did);
    with_params(response, params.take(i), sizes.take(i), data, did)
}

/// A string in a field of fixed size: each byte of its UTF-8 form stands at its
/// place, as far as the field reaches, and the rest of the field is left as it
/// was. So a string that fits reads back whole.
pub proof fn law_string_in_field(
    response: Seq<u8>,
    params: Seq<ResponseParameterInfo>,
    sizes: Seq<nat>,
    data: Seq<(Seq<char>, JsonValue)>,
    did: u16,
    i: int,
    s: String,
)
    requires
        is_written(params, sizes, i, response.len()),
        params[i].param_type is Value,
        params[i].byte_size is Some,
        param_value(data, params[i].name@) == Some(JsonValue::String(s)),
    ensures
        ({
            let bytes = encode_utf8(s@);
            let field = field_after(response, params, sizes, data, did, i);
            let before = field_before(response, params, sizes, data, did, i);
            &&& forall|k: int|
                0 <= k < sizes[i] && k < bytes.len() ==> #[trigger] field[k] == bytes[k]
            &&& forall|k: int|
                bytes.len() <= k < sizes[i] ==> #[trigger] field[k] == before[k]
            &&& bytes.len() <= sizes[i] ==> field.take(bytes.len() as int) == bytes
        }),
{
    let bytes = encode_utf8(s@);
    let before = lemma_field_is_last_write(response, params, sizes, data, did, i);
    let field = field_after(response, params, sizes, data, did, i);
    assert forall|k: int| 0 <= k < sizes[i] && k < bytes.len() implies #[trigger] field[k]
        == bytes[k] by {}
    if bytes.len() <= sizes[i] {
        assert(field.take(bytes.len() as int) =~= bytes);
    }
}

/// A number in a field of fixed size: the field as a big-endian number is the
/// 64 bits of the number modulo what fits.
pub proof fn law_number_fills_field(
    response: Seq<u8>,
    params: Seq<ResponseParameterInfo>,
    sizes: Seq<nat>,
    data: Seq<(Seq<char>, JsonValue)>,
    did: u16,
    i: int,
    n: JsonNumber,
)
    requires
        is_written(params, sizes, i, response.len()),
        params[i].param_type is Value,
        params[i].byte_size is Some,
        param_value(data, params[i].name@) == Some(JsonValue::Number(n)),
    ensures
        be_value(field_after(response, params, sizes, data, did, i)) == n.bits() as int % pow(
            256,
            sizes[i],
        ),
{
    let before = lemma_field_is_last_write(response, params, sizes, data, did, i);
    law_number_in_field(n.bits() as nat, sizes[i]);
    let from = params[i].byte_position as int;
    let written = with_param(before, params[i], sizes[i], data, did);
    assert(written.subrange(from, from + sizes[i])
        =~= be_fixed(n.bits() as nat, sizes[i]));
}

/// A list in a field of fixed size: each item that is a whole number from zero
/// up puts its low byte at its place. The rest of the field is left as it was.
pub proof fn law_list_in_field(
    response: Seq<u8>,
    params: Seq<ResponseParameterInfo>,
    sizes: Seq<nat>,
    data: Seq<(Seq<char>, JsonValue)>,
    did: u16,
    i: int,
    items: Vec<JsonValue>,
    k: int,
)
    requires
        is_written(params, sizes, i, response.len()),
        params[i].param_type is Value,
        params[i].byte_size is Some,
        param_value(data, params[i].name@) == Some(JsonValue::Array(items)),
        0 <= k < sizes[i],
    ensures
        ({
            let field = field_after(response, params, sizes, data, did, i);
            if k < items@.len() && items@[k].unsigned() is Some {
                (items@[k].unsigned()->0 - field[k]) % 256 == 0
            } else {
                field[k] == field_before(response, params, sizes, data, did, i)[k]
            }
        }),
{
    let before = lemma_field_is_last_write(response, params, sizes, data, did, i);
}

/// A boolean in a field of fixed size: its first byte is one for `true` and
/// zero for `false`, and the rest is left as it was.
pub proof fn law_boolean_in_field(
    response: Seq<u8>,
    params: Seq<ResponseParameterInfo>,
    sizes: Seq<nat>,
    data: Seq<(Seq<char>, JsonValue)>,
    did: u16,
    i: int,
    b: bool,
)
    requires
        is_written(params, sizes, i, response.len()),
        params[i].param_type is Value,
        params[i].byte_size is Some,
        param_value(data, params[i].name@) == Some(JsonValue::Bool(b)),
    ensures
        ({
            let field = field_after(response, params, sizes, data, did, i);
            let before = field_before(response, params, sizes, data, did, i);
            &&& b ==> field[0] == 1
            &&& !b ==> field[0] == 0
            &&& forall|k: int| 1 <= k < sizes[i] ==> #[trigger] field[k] == before[k]
        }),
{
    let before = lemma_field_is_last_write(response, params, sizes, data, did, i);
}

/// `null`, an object, a missing value and a physical constant leave the field
/// as it was.
pub proof fn law_nothing_to_write(
    response: Seq<u8>,
    params: Seq<ResponseParameterInfo>,
    sizes: Seq<nat>,
    data: Seq<(Seq<char>, JsonValue)>,
    did: u16,
    i: int,
)
    requires
        is_written(params, sizes, i, response.len()),
        params[i].param_type is PhysConst || (params[i].param_type is Value && match param_value(
            data,
            params[i].name@,
        ) {
            None => true,
            Some(v) => v is Null || v is Object,
        }),
    ensures
        field_after(response, params, sizes, data, did, i) == field_before(
            response,
            params,
            sizes,
            data,
            did,
            i,
        ),
{
    let before = lemma_field_is_last_write(response, params, sizes, data, did, i);
    let from = params[i].byte_position as int;
    assert(with_param(before, params[i], sizes[i], data, did).subrange(from, from + sizes[i])
        =~= before.subrange(from, from + sizes[i]));
}

/// A value of variable size stands in its field from the first byte on: all
/// of its bytes that the field has room for.
pub proof fn law_variable_value_in_field(
    response: Seq<u8>,
    params: Seq<ResponseParameterInfo>,
    sizes: Seq<nat>,
    data: Seq<(Seq<char>, JsonValue)>,
    did: u16,
    i: int,
)
    requires
        is_written(params, sizes, i, response.len()),
        params[i].param_type is Value,
        params[i].byte_size is None,
    ensures
        ({
            let bytes = value_bytes(param_value(data, params[i].name@));
            let field = field_after(response, params, sizes, data, did, i);
            let before = field_before(response, params, sizes, data, did, i);
            &&& forall|k: int|
                0 <= k < sizes[i] && k < bytes.len() ==> #[trigger] field[k] == bytes[k]
            &&& forall|k: int|
                bytes.len() <= k < sizes[i] ==> #[trigger] field[k] == before[k]
        }),
{
    let before = lemma_field_is_last_write(response, params, sizes, data, did, i);
}

/// The DID is echoed with its high byte first. A field of one byte holds the
/// high byte alone, and what is behind two bytes is left as it was.
pub proof fn law_did_in_field(
    response: Seq<u8>,
    params: Seq<ResponseParameterInfo>,
    sizes: Seq<nat>,
    data: Seq<(Seq<char>, JsonValue)>,
    did: u16,
    i: int,
)
    requires
        is_written(params, sizes, i, response.len()),
        params[i].param_type is MatchingRequestParam,
    ensures
        ({
            let field = field_after(response, params, sizes, data, did, i);
            let before = field_before(response, params, sizes, data, did, i);
            &&& field[0] as int == did as int / 256
            &&& sizes[i] >= 2 ==> field[0] as int * 256 + field[1] as int == did
            &&& forall|k: int| 2 <= k < sizes[i] ==> #[trigger] field[k] == before[k]
        }),
{
    let before = lemma_field_is_last_write(response, params, sizes, data, did, i);
}

proof fn lemma_zeros_in_front(zeros: Seq<u8>, bytes: Seq<u8>)
    requires
        forall|k: int| 0 <= k < zeros.len() ==> #[trigger] zeros[k] == 0,
    ensures
        be_value(zeros + bytes) == be_value(bytes),
    decreases zeros.len(),
{
    law_bytes_are_big_endian(zeros, bytes, 0);
    lemma_zeros_are_zero(zeros);
    assert(0 * pow(256, bytes.len()) == 0) by (nonlinear_arith);
}

proof fn lemma_zeros_are_zero(zeros: Seq<u8>)
    requires
        forall|k: int| 0 <= k < zeros.len() ==> #[trigger] zeros[k] == 0,
    ensures
        be_value(zeros) == 0,
    decreases zeros.len(),
{
    if zeros.len() > 0 {
        let shorter = zeros.drop_last();
        assert forall|k: int| 0 <= k < shorter.len() implies #[trigger] shorter[k] == 0 by {
            assert(zeros[k] == 0);
        }
        lemma_zeros_are_zero(shorter);
        assert(zeros[zeros.len() - 1] == 0);
    }
}

/// A constant that is a decimal number stands on the right of its field. In a
/// field of zeros it reads back as the number modulo what fits.
pub proof fn law_constant_in_field(
    response: Seq<u8>,
    params: Seq<ResponseParameterInfo>,
    sizes: Seq<nat>,
    data: Seq<(Seq<char>, JsonValue)>,
    did: u16,
    i: int,
    n: u64,
)
    requires
        is_written(params, sizes, i, response.len()),
        params[i].param_type matches ParameterTypeMetadata::CodedConst { coded_value }
            && coded_value@ == decimal_text(n as nat),
        forall|k: int|
            0 <= k < sizes[i] ==> #[trigger] field_before(
                response,
                params,
                sizes,
                data,
                did,
                i,
            )[k] == 0,
    ensures
        be_value(field_after(response, params, sizes, data, did, i)) == n as int % pow(
            256,
            sizes[i],
        ),
{
    let before = lemma_field_is_last_write(response, params, sizes, data, did, i);
    lemma_decimal_round_trip(n);
    lemma_be_minimal_is_shortest(n as nat);
    lemma_be_minimal_round_trip(n as nat);
    let bytes = be_minimal(n as nat);
    let size = sizes[i];
    let from = params[i].byte_position as int;
    let field = field_after(response, params, sizes, data, did, i);
    let free = field_before(response, params, sizes, data, did, i);
    lemma_pow_positive(256, size);
    if bytes.len() <= size {
        let zeros = free.take(size - bytes.len());
        assert(field =~= zeros + bytes);
        assert forall|k: int| 0 <= k < zeros.len() implies #[trigger] zeros[k] == 0 by {
            assert(free[k] == 0);
        }
        lemma_zeros_in_front(zeros, bytes);
        law_bytes_are_big_endian(zeros, field, 0);
        let (m, p) = (n as int, pow(256, size));
        assert(m % p == m) by (nonlinear_arith)
            requires
                0 <= m < p,
        ;
    } else {
        let cut = bytes.len() - size;
        assert(field =~= bytes.skip(cut));
        assert(bytes =~= bytes.take(cut) + bytes.skip(cut));
        law_bytes_are_big_endian(bytes.take(cut), bytes.skip(cut), 0);
        let (m, h, l, p) = (
            n as int,
            be_value(bytes.take(cut)) as int,
            be_value(bytes.skip(cut)) as int,
            pow(256, size),
        );
        assert(m % p == l) by (nonlinear_arith)
            requires
                m == h * p + l,
                0 <= l < p,
        ;
    }
}

/// A constant that is no decimal number is not written.
pub proof fn law_unreadable_constant_is_not_written(
    response: Seq<u8>,
    params: Seq<ResponseParameterInfo>,
    sizes: Seq<nat>,
    data: Seq<(Seq<char>, JsonValue)>,
    did: u16,
    i: int,
)
    requires
        is_written(params, sizes, i, response.len()),
        params[i].param_type matches ParameterTypeMetadata::CodedConst { coded_value }
            && unsigned_of(coded_value@, 10) is None,
    ensures
        field_after(response, params, sizes, data, did, i) == field_before(
            response,
            params,
            sizes,
            data,
            did,
            i,
        ),
{
    let before = lemma_field_is_last_write(response, params, sizes, data, did, i);
}

/// A case marker changes nothing in a response, and neither does a parameter
/// without size or one that does not fit.
pub proof fn law_what_is_not_written(
    response: Seq<u8>,
    params: Seq<ResponseParameterInfo>,
    sizes: Seq<nat>,
    data: Seq<(Seq<char>, JsonValue)>,
    did: u16,
    p: ResponseParameterInfo,
    size: nat,
)
    requires
        params.len() == sizes.len(),
        "__mux_case__/"@.is_prefix_of(p.name@) || size == 0 || p.byte_position + size
            > response.len(),
    ensures
        with_params(response, params.push(p), sizes.push(size), data, did) == with_params(
            response,
            params,
            sizes,
            data,
            did,
        ),
{
    lemma_with_params_frame(response, params, sizes, data, did);
    assert(params.push(p).drop_last() =~= params);
    assert(sizes.push(size).drop_last() =~= sizes);
}

// ---------------------------------------------------------------------------
// Whole responses
// ---------------------------------------------------------------------------

/// No other parameter touches the field of parameter `i`.
pub open spec fn stands_alone(
    params: Seq<ResponseParameterInfo>,
    sizes: Seq<nat>,
    i: int,
) -> bool {
    forall|j: int|
        0 <= j < params.len() && j != i ==> disjoint_fields(
            params[i],
            sizes[i],
            #[trigger] params[j],
            sizes[j],
        )
}

/// What the field of a parameter holds in a response that was built from zeros,
/// where no other parameter touches it.
pub open spec fn is_field_of(
    field: Seq<u8>,
    p: ResponseParameterInfo,
    value: Option<JsonValue>,
    did: u16,
) -> bool {
    match p.param_type {
        ParameterTypeMetadata::CodedConst { coded_value } => forall|n: u64|
            coded_value@ == #[trigger] decimal_text(n as nat) ==> be_value(field) == n as int % pow(
                256,
                field.len(),
            ),
        ParameterTypeMetadata::MatchingRequestParam { .. } => {
            &&& field[0] as int == did as int / 256
            &&& field.len() >= 2 ==> field[1] as int == did as int % 256
            &&& forall|k: int| 2 <= k < field.len() ==> #[trigger] field[k] == 0
        },
        ParameterTypeMetadata::PhysConst { .. } => forall|k: int|
            0 <= k < field.len() ==> #[trigger] field[k] == 0,
        ParameterTypeMetadata::Value { .. } => match value {
            Some(JsonValue::String(s)) => forall|k: int|
                0 <= k < field.len() ==> #[trigger] field[k] == (if k < encode_utf8(s@).len() {
                    encode_utf8(s@)[k]
                } else {
                    0
                }),
            Some(JsonValue::Number(n)) => be_value(field) == n.bits() as int % pow(
                256,
                field.len(),
            ),
            Some(JsonValue::Bool(b)) => {
                &&& b ==> field[0] == 1
                &&& !b ==> field[0] == 0
                &&& forall|k: int| 1 <= k < field.len() ==> #[trigger] field[k] == 0
            },
            Some(JsonValue::Array(items)) => p.byte_size is Some ==> forall|k: int|
                0 <= k < field.len() ==> if k < items@.len() && items@[k].unsigned() is Some {
                    (items@[k].unsigned()->0 - #[trigger] field[k]) % 256 == 0
                } else {
                    field[k] == 0
                },
            _ => forall|k: int| 0 <= k < field.len() ==> #[trigger] field[k] == 0,
        },
    }
}

/// In a response, the field of every active parameter that no other one touches
/// holds what its kind asks for: the constant, the DID of the request, or the
/// value that the data has for it.
pub proof fn law_response_field(
    meta: Seq<ResponseParameterInfo>,
    data: Seq<(Seq<char>, JsonValue)>,
    did: u16,
    i: int,
)
    requires
        ({
            let params = active_params(meta, mux_case_prefix(meta, did));
            let sizes = effective_sizes(params, data);
            &&& is_written(params, sizes, i, metadata_response(meta, data, did).len())
            &&& stands_alone(params, sizes, i)
        }),
    ensures
        ({
            let params = active_params(meta, mux_case_prefix(meta, did));
            let from = params[i].byte_position as int;
            let to = from + effective_sizes(params, data)[i];
            is_field_of(
                metadata_response(meta, data, did).subrange(from, to),
                params[i],
                param_value(data, params[i].name@),
                did,
            )
        }),
{
    let params = active_params(meta, mux_case_prefix(meta, did));
    let sizes = effective_sizes(params, data);
    lemma_metadata_response_shape(meta, data, did);
    let zeros = Seq::new(response_size(params, data), |k: int| 0u8);
    let p = params[i];
    let from = p.byte_position as int;
    let field = field_after(zeros, params, sizes, data, did, i);
    let before = field_before(zeros, params, sizes, data, did, i);
    assert(field == metadata_response(meta, data, did).subrange(from, from + sizes[i]));
    let (earlier, earlier_sizes) = (params.take(i), sizes.take(i));
    lemma_with_params_frame(zeros, earlier, earlier_sizes, data, did);
    assert forall|k: int| 0 <= k < sizes[i] implies #[trigger] before[k] == 0 by {
        assert forall|j: int| 0 <= j < earlier.len() implies !#[trigger] reaches(
            earlier[j],
            earlier_sizes[j],
            data,
            zeros.len(),
            from + k,
        ) by {
            assert(disjoint_fields(p, sizes[i], params[j], sizes[j]));
        }
    }
    match p.param_type {
        ParameterTypeMetadata::CodedConst { coded_value } => {
            assert forall|n: u64|
                coded_value@ == #[trigger] decimal_text(n as nat) implies be_value(field)
                == n as int % pow(256, field.len()) by {
                law_constant_in_field(zeros, params, sizes, data, did, i, n);
            }
        },
        ParameterTypeMetadata::MatchingRequestParam { .. } => {
            law_did_in_field(zeros, params, sizes, data, did, i);
        },
        ParameterTypeMetadata::PhysConst { .. } => {
            law_nothing_to_write(zeros, params, sizes, data, did, i);
        },
        ParameterTypeMetadata::Value { .. } => {
            let value = param_value(data, p.name@);
            if p.byte_size is None {
                law_variable_value_in_field(zeros, params, sizes, data, did, i);
                let bytes = value_bytes(value);
                assert(sizes[i] == bytes.len());
                assert(field =~= bytes);
                if let Some(JsonValue::Number(n)) = value {
                    lemma_be_minimal_round_trip(n.bits() as nat);
                    law_bytes_are_big_endian(Seq::empty(), field, 0);
                    let (m, q) = (n.bits() as int, pow(256, field.len()));
                    assert(m % q == m) by (nonlinear_arith)
                        requires
                            0 <= m < q,
                    ;
                }
            } else {
                match value {
                    Some(JsonValue::String(s)) => {
                        law_string_in_field(zeros, params, sizes, data, did, i, s);
                    },
                    Some(JsonValue::Number(n)) => {
                        law_number_fills_field(zeros, params, sizes, data, did, i, n);
                    },
                    Some(JsonValue::Bool(b)) => {
                        law_boolean_in_field(zeros, params, sizes, data, did, i, b);
                    },
                    Some(JsonValue::Array(items)) => {
                        assert forall|k: int| 0 <= k < field.len() implies if k < items@.len()
                            && items@[k].unsigned() is Some {
                            (items@[k].unsigned()->0 - #[trigger] field[k]) % 256 == 0
                        } else {
                            field[k] == 0
                        } by {
                            law_list_in_field(zeros, params, sizes, data, did, i, items, k);
                        }
                    },
                    _ => {
                        law_nothing_to_write(zeros, params, sizes, data, did, i);
                    },
                }
            }
        },
    }
}

/// The size of a parameter is the fixed one where there is one, whatever the
/// data holds. Else it is what its value takes, and without a value nothing.
pub proof fn law_size_of_param(
    params: Seq<ResponseParameterInfo>,
    data: Seq<(Seq<char>, JsonValue)>,
    i: int,
)
    requires
        0 <= i < params.len(),
    ensures
        effective_sizes(params, data).len() == params.len(),
        params[i].byte_size matches Some(size) ==> effective_sizes(params, data)[i] == size,
        params[i].byte_size is None && !(params[i].param_type is Value) ==> effective_sizes(
            params,
            data,
        )[i] == 0,
        params[i].byte_size is None && params[i].param_type is Value ==> match param_value(
            data,
            params[i].name@,
        ) {
            Some(JsonValue::String(s)) => effective_sizes(params, data)[i] == encode_utf8(s@).len(),
            Some(JsonValue::Bool(b)) => effective_sizes(params, data)[i] == 1,
            Some(JsonValue::Number(n)) => {
                let size = effective_sizes(params, data)[i];
                &&& size >= 1
                &&& n.bits() < pow(256, size)
                &&& size > 1 ==> n.bits() >= pow(256, (size - 1) as nat)
            },
            Some(JsonValue::Array(items)) => effective_sizes(params, data)[i] == items@.filter(
                |item: JsonValue| item.unsigned() is Some,
            ).len(),
            _ => effective_sizes(params, data)[i] == 0,
        },
{
    if params[i].byte_size is None && params[i].param_type is Value {
        match param_value(data, params[i].name@) {
            Some(JsonValue::Number(n)) => {
                law_length_of_number(n.bits() as nat);
            },
            Some(JsonValue::Array(items)) => {
                law_length_of_list(items@);
            },
            _ => {},
        }
    }
}

/// A number takes as many bytes as it needs and not one more.
pub proof fn law_length_of_number(n: nat)
    ensures
        ({
            let size = be_minimal(n).len();
            &&& size >= 1
            &&& n < pow(256, size)
            &&& size > 1 ==> n >= pow(256, (size - 1) as nat)
        }),
{
    let bytes = be_minimal(n);
    lemma_be_minimal_is_shortest(n);
    lemma_be_minimal_round_trip(n);
    law_bytes_are_big_endian(Seq::empty(), bytes, 0);
    let (first, rest) = (seq![bytes[0]], bytes.skip(1));
    assert(bytes =~= first + rest);
    law_bytes_are_big_endian(first, rest, bytes[0]);
    if bytes.len() > 1 {
        assert(n > 0);
        lemma_pow_positive(256, rest.len());
        let (f, p) = (bytes[0] as int, pow(256, rest.len()));
        assert(f * p >= p) by (nonlinear_arith)
            requires
                f >= 1,
                p > 0,
        ;
    }
}

/// Each whole number from zero up in a list makes one byte, in order, and
/// nothing else makes any.
pub proof fn law_length_of_list(items: Seq<JsonValue>)
    ensures
        array_bytes(items).len() == items.filter(|item: JsonValue| item.unsigned() is Some).len(),
    decreases items.len(),
{
    reveal(Seq::filter);
    if items.len() > 0 {
        law_length_of_list(items.drop_last());
    }
}

/// The bytes of a list: one item after the other, of each its low byte where it
/// is a whole number from zero up, and nothing otherwise.
pub proof fn law_bytes_of_list(a: Seq<JsonValue>, b: Seq<JsonValue>, item: JsonValue)
    ensures
        array_bytes(a + b) == array_bytes(a) + array_bytes(b),
        item.unsigned() is None ==> array_bytes(seq![item]).len() == 0,
        item.unsigned() matches Some(n) ==> array_bytes(seq![item]).len() == 1 && array_bytes(
            seq![item],
        )[0] as int == n as int % 256,
    decreases b.len(),
{
    reveal_with_fuel(array_bytes, 2);
    assert(seq![item].drop_last() =~= Seq::<JsonValue>::empty());
    if b.len() == 0 {
        assert(a + b =~= a);
        assert(array_bytes(a) + array_bytes(b) =~= array_bytes(a));
    } else {
        assert((a + b).drop_last() =~= a + b.drop_last());
        law_bytes_of_list(a, b.drop_last(), item);
        assert(array_bytes(a + b) =~= array_bytes(a) + array_bytes(b));
    }
}

/// The bytes of a value of variable size: all of a string, the number in as few
/// bytes as it takes, one byte for a boolean, and none for `null`, an object and
/// a missing value.
pub proof fn law_bytes_of_value(s: String, n: JsonNumber, items: Vec<JsonValue>)
    ensures
        value_bytes(Some(JsonValue::String(s))) == encode_utf8(s@),
        be_value(value_bytes(Some(JsonValue::Number(n)))) == n.bits(),
        n.bits() > 0 ==> value_bytes(Some(JsonValue::Number(n)))[0] != 0,
        value_bytes(Some(JsonValue::Array(items))) == array_bytes(items@),
        value_bytes(Some(JsonValue::Bool(true))) == seq![1u8],
        value_bytes(Some(JsonValue::Bool(false))) == seq![0u8],
        value_bytes(Some(JsonValue::Null)).len() == 0,
        value_bytes(None).len() == 0,
        forall|map: JsonMap|
            (#[trigger] value_bytes(Some(JsonValue::Object(map)))).len() == 0,
{
    lemma_be_minimal_round_trip(n.bits() as nat);
    lemma_be_minimal_is_shortest(n.bits() as nat);
}

/// A response is as long as its parameters call for: each one ends within it,
/// and one ends where it ends. Without parameters it has room for SID and DID.
pub proof fn law_response_length(
    meta: Seq<ResponseParameterInfo>,
    data: Seq<(Seq<char>, JsonValue)>,
    did: u16,
)
    ensures
        ({
            let params = active_params(meta, mux_case_prefix(meta, did));
            let sizes = effective_sizes(params, data);
            let len = metadata_response(meta, data, did).len();
            &&& params.len() == 0 ==> len == 3
            &&& params.len() > 0 && (forall|j: int|
                0 <= j < params.len() ==> (#[trigger] params[j]).byte_position + sizes[j]
                    <= usize::MAX) ==> {
                &&& forall|j: int|
                    0 <= j < params.len() ==> (#[trigger] params[j]).byte_position + sizes[j]
                        <= len
                &&& exists|j: int|
                    0 <= j < params.len() && (#[trigger] params[j]).byte_position + sizes[j] == len
            }
        }),
{
    lemma_metadata_response_shape(meta, data, did);
    let params = active_params(meta, mux_case_prefix(meta, did));
    let sizes = effective_sizes(params, data);
    if params.len() > 0 && (forall|j: int|
        0 <= j < params.len() ==> (#[trigger] params[j]).byte_position + sizes[j] <= usize::MAX) {
        lemma_greatest_end(params, data);
    }
}

proof fn lemma_greatest_end(
    params: Seq<ResponseParameterInfo>,
    data: Seq<(Seq<char>, JsonValue)>,
)
    requires
        forall|j: int|
            0 <= j < params.len() ==> (#[trigger] params[j]).byte_position + effective_sizes(
                params,
                data,
            )[j] <= usize::MAX,
    ensures
        forall|j: int|
            0 <= j < params.len() ==> (#[trigger] params[j]).byte_position + effective_sizes(
                params,
                data,
            )[j] <= greatest_end(params, data),
        params.len() > 0 ==> exists|j: int|
            0 <= j < params.len() && (#[trigger] params[j]).byte_position + effective_sizes(
                params,
                data,
            )[j] == greatest_end(params, data),
    decreases params.len(),
{
    if params.len() > 0 {
        let shorter = params.drop_last();
        let sizes = effective_sizes(params, data);
        let end = greatest_end(params, data);
        let last = params.len() - 1;
        assert forall|j: int| 0 <= j < shorter.len() implies (
        #[trigger] shorter[j]).byte_position + effective_sizes(shorter, data)[j] <= usize::MAX by {
            assert(params[j].byte_position + sizes[j] <= usize::MAX);
        }
        lemma_greatest_end(shorter, data);
        assert(params[last].byte_position + sizes[last] <= usize::MAX);
        assert forall|j: int| 0 <= j < params.len() implies (#[trigger] params[j]).byte_position
            + sizes[j] <= end by {
            if j < last {
                assert(shorter[j].byte_position + effective_sizes(shorter, data)[j]
                    <= greatest_end(shorter, data));
            }
        }
        if params[last].byte_position + sizes[last] != end {
            if shorter.len() > 0 {
                let j = choose|j: int|
                    0 <= j < shorter.len() && (#[trigger] shorter[j]).byte_position
                        + effective_sizes(shorter, data)[j] == greatest_end(shorter, data);
                assert(params[j].byte_position + sizes[j] == end);
            }
        }
    }
}

/// A value is looked up by the full name first, then by the last part of the
/// name, and then by both in lower case.
pub proof fn law_value_lookup_order(
    data: Seq<(Seq<char>, JsonValue)>,
    front: Seq<char>,
    short: Seq<char>,
)
    requires
        !short.contains('/'),
    ensures
        ({
            let name = front + seq!['/'] + short;
            let (small_name, small_short) = (ascii_lowered(name), ascii_lowered(short));
            &&& lookup(data, name) matches Some(v) ==> param_value(data, name) == Some(v)
            &&& lookup(data, name) is None && lookup(data, short) is Some ==> param_value(
                data,
                name,
            ) == lookup(data, short)
            &&& lookup(data, name) is None && lookup(data, short) is None && lookup(
                data,
                small_name,
            ) is Some ==> param_value(data, name) == lookup(data, small_name)
            &&& lookup(data, name) is None && lookup(data, short) is None && lookup(
                data,
                small_name,
            ) is None ==> param_value(data, name) == lookup(data, small_short)
            &&& lookup(data, short) matches Some(v) ==> param_value(data, short) == Some(v)
            &&& lookup(data, short) is None ==> param_value(data, short) == lookup(
                data,
                small_short,
            )
        }),
{
    law_last_segment_follows_slash(front, short);
}

/// Once the value for a parameter is set under its own name, that is the value,
/// whatever else the data holds.
pub proof fn law_value_that_is_set(
    data: Seq<(Seq<char>, JsonValue)>,
    name: Seq<char>,
    value: JsonValue,
)
    ensures
        param_value(with_entry(data, name, value), name) == Some(value),
{
    lemma_lookup_with_entry(data, name, value, name);
}

// ---------------------------------------------------------------------------
// Cases of a layout
// ---------------------------------------------------------------------------

/// The active parameters are chosen one by one and keep their order.
pub proof fn law_active_params_one_by_one(
    a: Seq<ResponseParameterInfo>,
    b: Seq<ResponseParameterInfo>,
    p: ResponseParameterInfo,
    prefix: Option<Seq<char>>,
)
    ensures
        active_params(a + b, prefix) == active_params(a, prefix) + active_params(b, prefix),
        active_params(seq![p], prefix) == seq![p] || active_params(seq![p], prefix)
            == Seq::<ResponseParameterInfo>::empty(),
    decreases b.len(),
{
    lemma_active_param_alone(p, prefix);
    if b.len() == 0 {
        assert(a + b =~= a);
        assert(active_params(a, prefix) + active_params(b, prefix) =~= active_params(a, prefix));
    } else {
        assert((a + b).drop_last() =~= a + b.drop_last());
        law_active_params_one_by_one(a, b.drop_last(), p, prefix);
        assert(active_params(a + b, prefix) =~= active_params(a, prefix) + active_params(
            b,
            prefix,
        ));
    }
}

proof fn lemma_active_param_alone(p: ResponseParameterInfo, prefix: Option<Seq<char>>)
    ensures
        active_params(seq![p], prefix) == (if is_active(p, prefix) {
            seq![p]
        } else {
            Seq::empty()
        }),
{
    reveal_with_fuel(active_params, 2);
    assert(seq![p].drop_last() =~= Seq::<ResponseParameterInfo>::empty());
    assert(active_params(seq![p], prefix) =~= (if is_active(p, prefix) {
        seq![p]
    } else {
        Seq::empty()
    }));
}

/// A parameter without a slash in its name is active in every case and without
/// one.
pub proof fn law_top_level_is_always_active(
    p: ResponseParameterInfo,
    prefix: Option<Seq<char>>,
)
    requires
        !p.name@.contains('/'),
    ensures
        active_params(seq![p], prefix) == seq![p],
{
    lemma_active_param_alone(p, prefix);
}

/// In a case, exactly those parameters with a slash in their name are active
/// whose name starts with the prefix of the case, and the marker of the case,
/// which is named without the slashes at the end of the prefix.
pub proof fn law_active_in_case(
    p: ResponseParameterInfo,
    case_name: Seq<char>,
    slashes: Seq<char>,
)
    requires
        p.name@.contains('/'),
        case_name.len() > 0 ==> case_name.last() != '/',
        forall|i: int| 0 <= i < slashes.len() ==> #[trigger] slashes[i] == '/',
    ensures
        ({
            let prefix = case_name + slashes;
            let active = active_params(seq![p], Some(prefix));
            if (exists|rest: Seq<char>| p.name@ == #[trigger] (prefix + rest)) || p.name@
                == "__mux_case__/"@ + case_name {
                active == seq![p]
            } else {
                active == Seq::<ResponseParameterInfo>::empty()
            }
        }),
{
    let prefix = case_name + slashes;
    lemma_active_param_alone(p, Some(prefix));
    law_end_slashes(case_name, slashes);
    if prefix.is_prefix_of(p.name@) {
        let rest = p.name@.skip(prefix.len() as int);
        assert(p.name@ =~= prefix + rest);
    }
    assert forall|rest: Seq<char>|
        p.name@ == #[trigger] (prefix + rest) implies prefix.is_prefix_of(p.name@) by {
        assert(p.name@.subrange(0, prefix.len() as int) =~= prefix);
    }
}

/// Without a case, everything but the case markers is active.
pub proof fn law_active_without_case(p: ResponseParameterInfo)
    requires
        p.name@.contains('/'),
    ensures
        "__mux_case__/"@.is_prefix_of(p.name@) ==> active_params(seq![p], None) == Seq::<
            ResponseParameterInfo,
        >::empty(),
        !"__mux_case__/"@.is_prefix_of(p.name@) ==> active_params(seq![p], None) == seq![p],
{
    lemma_active_param_alone(p, None);
}

/// A marker with a decimal number is a case that starts at the number, and any
/// other parameter is no case.
pub proof fn law_case_marker(p: ResponseParameterInfo, n: nat)
    requires
        n <= u64::MAX,
    ensures
        !"__mux_case__/"@.is_prefix_of(p.name@) ==> mux_lower_bound(p) is None,
        !(p.param_type is CodedConst) ==> mux_lower_bound(p) is None,
        "__mux_case__/"@.is_prefix_of(p.name@) && (
        p.param_type matches ParameterTypeMetadata::CodedConst { coded_value } && coded_value@
            == decimal_text(n)) ==> mux_lower_bound(p) == Some(n as u64),
{
    lemma_decimal_round_trip(n as u64);
    law_decimal_text(n);
    let text = decimal_text(n);
    let none = Seq::<char>::empty();
    assert forall|c: char| is_digit(c, 10) implies !is_white_space(c) by {}
    assert(is_digit(text[0], 10));
    assert(is_digit(text[text.len() - 1], 10));
    law_trim_keeps_inner_text(none, text, none);
    assert(none + text + none =~= text);
}

/// The limit of a case reads the same with white space around it.
pub proof fn law_limit_ignores_blanks(front: Seq<char>, s: Seq<char>, back: Seq<char>)
    requires
        is_blank(front),
        is_blank(back),
    ensures
        mux_value_of(front + s + back) == mux_value_of(s),
{
    law_trim_ignores_blanks(front, s, back);
}

/// A limit with a character that occurs in no decimal number is none: the
/// parameter is then no case.
pub proof fn law_unreadable_limit(s: Seq<char>, i: int)
    requires
        0 <= i < s.len(),
        !is_white_space(s[0]),
        !is_white_space(s.last()),
        !is_digit(s[i], 10),
        s[i] != '+',
        s[i] != '-',
        s[i] != '.',
        s[i] != 'e',
        s[i] != 'E',
    ensures
        mux_value_of(s) is None,
{
    let none = Seq::<char>::empty();
    law_trim_keeps_inner_text(none, s, none);
    assert(none + s + none =~= s);
    law_what_is_no_number(s, 10, i);
    law_foreign_characters(s, i);
}

/// The DID selects the case with the greatest start that is not above it, the
/// last one where several start there. The names of its parameters start with
/// the name of the case and a slash.
pub proof fn law_did_selects_case(
    meta: Seq<ResponseParameterInfo>,
    did: u16,
    i: int,
    case_name: Seq<char>,
    start: u64,
)
    requires
        0 <= i < meta.len(),
        meta[i].name@ == "__mux_case__/"@ + case_name,
        mux_lower_bound(meta[i]) == Some(start),
        start <= did,
        forall|j: int|
            #![trigger meta[j]]
            0 <= j < meta.len() && j != i ==> match mux_lower_bound(meta[j]) {
                None => true,
                Some(bound) => bound > did || bound < start || (bound == start && j < i),
            },
    ensures
        mux_case_prefix(meta, did) == Some(case_name.push('/')),
{
    lemma_covering_case_is_greatest(meta, did);
    let found = covering_case(meta, did);
    assert(meta[i] == meta[i]);
    assert(found == Some(i));
    assert(meta[i].name@.skip("__mux_case__/"@.len() as int) =~= case_name);
}

/// A DID below the start of every case selects none.
pub proof fn law_did_below_all_cases(meta: Seq<ResponseParameterInfo>, did: u16)
    ensures
        mux_case_prefix(meta, did) is None <==> (forall|j: int|
            #![trigger meta[j]]
            0 <= j < meta.len() ==> (mux_lower_bound(meta[j]) matches Some(bound) ==> bound > did)),
{
    lemma_covering_case_is_greatest(meta, did);
}

/// One more parameter makes a layout have a case exactly at a DID if the
/// parameter is a case that starts there, or it had one before.
pub proof fn law_exact_case_one_by_one(
    meta: Seq<ResponseParameterInfo>,
    p: ResponseParameterInfo,
    did: u16,
)
    ensures
        !has_exact_case(Seq::empty(), did),
        has_exact_case(meta.push(p), did) <==> has_exact_case(meta, did) || (mux_lower_bound(
            p,
        ) matches Some(bound) && bound == did),
{
    let more = meta.push(p);
    assert(more[meta.len() as int] == p);
    if has_exact_case(meta, did) {
        let i = choose|i: int|
            0 <= i < meta.len() && #[trigger] mux_lower_bound(meta[i]) == Some(did as u64);
        assert(mux_lower_bound(more[i]) == Some(did as u64));
    }
    if has_exact_case(more, did) {
        let i = choose|i: int|
            0 <= i < more.len() && #[trigger] mux_lower_bound(more[i]) == Some(did as u64);
        if i < meta.len() {
            assert(mux_lower_bound(meta[i]) == Some(did as u64));
        }
    }
    if mux_lower_bound(p) == Some(did as u64) {
        assert(mux_lower_bound(more[meta.len() as int]) == Some(did as u64));
    }
}

// ---------------------------------------------------------------------------
// Responses without a layout
// ---------------------------------------------------------------------------

/// Without a layout, the response is the SID with 0x40 added, the DID with its
/// high byte first, and the bytes of the entries one after the other.
pub proof fn law_naive_response(sid: u8, did: u16, data: Seq<(Seq<char>, JsonValue)>)
    ensures
        ({
            let response = naive_response(sid, did, data);
            &&& response.len() == 3 + naive_payload(data).len()
            &&& (response[0] - sid - 0x40) % 256 == 0
            &&& response[1] as int * 256 + response[2] as int == did
            &&& response.skip(3) == naive_payload(data)
        }),
{
    lemma_naive_response_header(sid, did, data);
}

/// The bytes of entries follow one another, and only an entry named `sid`, in
/// whatever case, is left out.
pub proof fn law_naive_payload(
    a: Seq<(Seq<char>, JsonValue)>,
    b: Seq<(Seq<char>, JsonValue)>,
    name: Seq<char>,
    value: JsonValue,
)
    ensures
        naive_payload(a + b) == naive_payload(a) + naive_payload(b),
        naive_payload(seq![(name, value)]) == (if name.len() == 3 && (name[0] == 's' || name[0]
            == 'S') && (name[1] == 'i' || name[1] == 'I') && (name[2] == 'd' || name[2] == 'D') {
            Seq::<u8>::empty()
        } else {
            naive_value_bytes(value)
        }),
    decreases b.len(),
{
    reveal_with_fuel(naive_payload, 2);
    assert(seq![(name, value)].drop_last() =~= Seq::<(Seq<char>, JsonValue)>::empty());
    reveal_strlit("sid");
    let sid = ascii_lowered("sid"@);
    let lowered = ascii_lowered(name);
    if name.len() == 3 {
        law_lower_case(name, 0);
        law_lower_case(name, 1);
        law_lower_case(name, 2);
        if (name[0] == 's' || name[0] == 'S') && (name[1] == 'i' || name[1] == 'I') && (name[2]
            == 'd' || name[2] == 'D') {
            assert(lowered =~= sid);
        } else {
            assert(lowered[0] != sid[0] || lowered[1] != sid[1] || lowered[2] != sid[2]);
        }
    } else {
        assert(lowered.len() != sid.len());
    }
    assert(Seq::<u8>::empty() + naive_value_bytes(value) =~= naive_value_bytes(value));
    if b.len() == 0 {
        assert(a + b =~= a);
        assert(naive_payload(a) + naive_payload(b) =~= naive_payload(a));
    } else {
        assert((a + b).drop_last() =~= a + b.drop_last());
        law_naive_payload(a, b.drop_last(), name, value);
        assert(naive_payload(a + b) =~= naive_payload(a) + naive_payload(b));
    }
}

/// The bytes of one entry: all of a string, a number from zero up in as few
/// bytes as it takes, the two low bytes of a number below zero, a list item by
/// item, one byte for a boolean, and nothing otherwise.
pub proof fn law_naive_value(
    s: String,
    n: u64,
    m: i64,
    text: String,
    items: Vec<JsonValue>,
)
    ensures
        naive_value_bytes(JsonValue::String(s)) == encode_utf8(s@),
        be_value(naive_value_bytes(JsonValue::Number(JsonNumber::PosInt(n)))) == n,
        n > 0 ==> naive_value_bytes(JsonValue::Number(JsonNumber::PosInt(n)))[0] != 0,
        m < 0 ==> ({
            let bytes = naive_value_bytes(JsonValue::Number(JsonNumber::NegInt(m)));
            bytes.len() == 2 && (bytes[0] as int * 256 + bytes[1] as int - m) % 0x1_0000 == 0
        }),
        naive_value_bytes(JsonValue::Number(JsonNumber::Float(text))).len() == 0,
        naive_value_bytes(JsonValue::Array(items)) == array_bytes(items@),
        naive_value_bytes(JsonValue::Bool(true)) == seq![1u8],
        naive_value_bytes(JsonValue::Bool(false)) == seq![0u8],
        naive_value_bytes(JsonValue::Null).len() == 0,
        forall|map: JsonMap|
            (#[trigger] naive_value_bytes(JsonValue::Object(map))).len() == 0,
{
    lemma_be_minimal_round_trip(n as nat);
    lemma_be_minimal_is_shortest(n as nat);
}

/// A response follows the layout that was found, and is then said to come from
/// the service of that layout. Without a layout, or with an empty one, it is
/// built from the data alone under the name of the service that was asked.
pub proof fn law_build_response(
    service_name: &str,
    sid: u8,
    did: u16,
    meta: Vec<ResponseParameterInfo>,
    service: String,
    data: JsonMap,
    by_layout: EncodedResponse,
    by_data: EncodedResponse,
)
    requires
        call_ensures(
            ResponseEncoder::build_response,
            (service_name, sid, did, Some(&(meta, service)), &data),
            by_layout,
        ),
        call_ensures(ResponseEncoder::build_response, (service_name, sid, did, None, &data), by_data),
    ensures
        meta@.len() > 0 ==> by_layout.bytes@ == metadata_response(meta@, data@, did)
            && by_layout.effective_service@ == service@,
        meta@.len() == 0 ==> by_layout.bytes@ == by_data.bytes@ && by_layout.effective_service@
            == by_data.effective_service@,
        by_data.bytes@ == naive_response(sid, did, data@),
        by_data.effective_service@ == service_name@,
{
}

} // verus!
