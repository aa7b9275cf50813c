//! Decoding bencode.

use crate::common::bytes_equal;
use crate::error::Error;
use crate::grammar::{
    dict_insert, digit_run, digits_value, is_digit, lemma_digit_run, lemma_digits_value_step,
    lemma_key_position, parse_bytes, parse_entries, parse_int, parse_int_body, parse_items,
    parse_value,
    parse_whole, well_formed, COLON, DICT_START, END, INT_START, LIST_START, MINUS, ZERO,
};
use crate::roundtrip::lemma_decoded_is_well_formed;
use crate::value::{entries_view, items_view, BenCode, BenValue};
use vstd::prelude::*;
use vstd::slice::{slice_subrange, slice_to_vec};
use vstd::string::StringSliceAdditionalSpecFns;

verus! {

/// Whether `r`, the outcome of decoding at some place in `input`, is what the
/// grammar gives as `expected`: the same error, or a value with the same model
/// and a position in `input` from which the bytes that the grammar leaves
/// over start.
pub open spec fn decoded_as(
    input: Seq<u8>,
    r: Result<(BenCode, usize), Error>,
    expected: Result<(BenValue, Seq<u8>), Error>,
) -> bool {
    match expected {
        Ok((v, rest)) => r matches Ok(p) && p.0@ == v && p.1 <= input.len() && input.skip(
            p.1 as int,
        ) == rest,
        Err(e) => r matches Err(x) && x == e,
    }
}

/// Stores `value` under `key`: a key that is already there keeps its place and
/// gets the new value, a new key goes to the end.
pub fn insert_entry(entries: &mut Vec<(Vec<u8>, BenCode)>, key: Vec<u8>, value: BenCode)
    ensures
        entries_view(final(entries)@) == dict_insert(
            entries_view(old(entries)@),
            key@,
            value@,
        ),
{
    let ghost before = entries_view(entries@);
    let mut i: usize = 0;
    while i < entries.len()
        invariant
            i <= entries.len(),
            *entries == *old(entries),
            before == entries_view(entries@),
            forall|j: int| 0 <= j < i ==> before[j].0 != key@,
        decreases entries.len() - i,
    {
        if bytes_equal(entries[i].0.as_slice(), key.as_slice()) {
            proof {
                lemma_key_position(before, key@, i as int);
            }
            entries[i] = (key, value);
            return ;
        }
        i += 1;
    }
    proof {
        lemma_key_position(before, key@, i as int);
    }
    entries.push((key, value));
}

/// Reads the run of digits that starts at `pos`: where it ends, and the number
/// that it denotes, or `None` where that number does not fit in 64 bits.
fn scan_digits(input: &[u8], pos: usize) -> (r: (usize, Option<u64>))
    requires
        pos <= input.len(),
    ensures
        pos <= r.0 <= input.len(),
        r.0 - pos == digit_run(input@.skip(pos as int)),
        r.1 matches Some(v) ==> v == digits_value(input@.skip(pos as int).take(r.0 - pos)),
        r.1 is None ==> digits_value(input@.skip(pos as int).take(r.0 - pos)) > u64::MAX,
{
    let ghost s = input@.skip(pos as int);
    let mut i: usize = pos;
    let mut value: u64 = 0;
    let mut overflow = false;
    while i < input.len() && input[i] >= 48 && input[i] <= 57
        invariant
            pos <= i <= input.len(),
            s == input@.skip(pos as int),
            forall|j: int| 0 <= j < i - pos ==> is_digit(s[j]),
            !overflow ==> value == digits_value(s.take(i - pos)),
            overflow ==> digits_value(s.take(i - pos)) > u64::MAX,
        decreases input.len() - i,
    {
        let digit: u64 = (input[i] - 48) as u64;
        proof {
            lemma_digits_value_step(s, i - pos);
        }
        if !overflow {
            if value > (u64::MAX - digit) / 10 {
                overflow = true;
            } else {
                value = value * 10 + digit;
            }
        }
        i += 1;
    }
    proof {
        lemma_digit_run(s, i - pos);
    }
    if overflow {
        (i, None)
    } else {
        (i, Some(value))
    }
}

/// Decodes the integer that opens at `pos`.
fn int_at(input: &[u8], pos: usize) -> (r: Result<(BenCode, usize), Error>)
    requires
        pos < input.len(),
        input@[pos as int] == INT_START,
    ensures
        decoded_as(input@, r, parse_int_body(input@.skip(pos + 1))),
        r matches Ok(p) ==> p.1 > pos,
{
    let start: usize = pos + 1;
    let negative = start < input.len() && input[start] == MINUS;
    let digits_at: usize = if negative {
        start + 1
    } else {
        start
    };
    let (end, magnitude) = scan_digits(input, digits_at);
    let ghost s = input@.skip(start as int);
    let ghost body = input@.skip(digits_at as int);
    proof {
        if negative {
            assert(s.skip(1) =~= body);
        }
    }
    if end >= input.len() {
        return Err(Error::TruncatedInput);
    }
    assert(body.skip(end - digits_at + 1) =~= input@.skip(end + 1));
    if input[end] != END {
        return Err(Error::MalformedBencode);
    }
    if end == digits_at {
        return Err(Error::MalformedBencode);
    }
    if input[digits_at] == ZERO && (end - digits_at > 1 || negative) {
        return Err(Error::MalformedBencode);
    }
    match magnitude {
        None => Err(Error::MalformedBencode),
        Some(m) => {
            if negative {
                if m > 9223372036854775808u64 {
                    Err(Error::MalformedBencode)
                } else if m == 9223372036854775808u64 {
                    Ok((BenCode::Int(i64::MIN), end + 1))
                } else {
                    Ok((BenCode::Int(-(m as i64)), end + 1))
                }
            } else {
                if m > 9223372036854775807u64 {
                    Err(Error::MalformedBencode)
                } else {
                    Ok((BenCode::Int(m as i64), end + 1))
                }
            }
        },
    }
}

/// Decodes the byte string that starts at `pos`.
fn string_at(input: &[u8], pos: usize) -> (r: Result<(BenCode, usize), Error>)
    requires
        pos < input.len(),
    ensures
        decoded_as(input@, r, parse_bytes(input@.skip(pos as int))),
        r matches Ok(p) ==> p.1 > pos,
{
    let (end, length) = scan_digits(input, pos);
    let ghost s = input@.skip(pos as int);
    if end >= input.len() {
        return Err(Error::TruncatedInput);
    }
    if end == pos || input[end] != COLON {
        return Err(Error::MalformedBencode);
    }
    let available: usize = input.len() - (end + 1);
    proof {
        assert(s.skip(end - pos + 1) =~= input@.skip(end + 1));
    }
    match length {
        None => Err(Error::TruncatedInput),
        Some(l) => {
            if l > available as u64 {
                Err(Error::TruncatedInput)
            } else {
                let count: usize = l as usize;
                let bytes = slice_to_vec(slice_subrange(input, end + 1, end + 1 + count));
                proof {
                    let rest = input@.skip(end + 1);
                    assert(rest.take(count as int) =~= input@.subrange(
                        end + 1,
                        end + 1 + count,
                    ));
                    assert(rest.skip(count as int) =~= input@.skip(end + 1 + count));
                }
                Ok((BenCode::String(bytes), end + 1 + count))
            }
        },
    }
}

/// Decodes the value that starts at `pos`, and says where the bytes after it
/// start.
pub fn decode_at(input: &[u8], pos: usize) -> (r: Result<(BenCode, usize), Error>)
    requires
        pos <= input.len(),
    ensures
        decoded_as(input@, r, parse_value(input@.skip(pos as int))),
        r matches Ok(p) ==> p.1 > pos,
    decreases input.len() - pos,
{
    if pos >= input.len() {
        return Err(Error::TruncatedInput);
    }
    let first = input[pos];
    proof {
        assert(input@.skip(pos as int).skip(1) =~= input@.skip(pos + 1));
    }
    if first == INT_START {
        int_at(input, pos)
    } else if first >= 48 && first <= 57 {
        string_at(input, pos)
    } else if first == LIST_START {
        let mut items: Vec<BenCode> = Vec::new();
        let mut at: usize = pos + 1;
        assert(items_view(items@) =~= Seq::empty());
        loop
            invariant
                pos < at <= input.len(),
                first == LIST_START,
                input@[pos as int] == first,
                input@.skip(pos as int).skip(1) == input@.skip(pos + 1),
                parse_items(input@.skip(pos + 1), Seq::empty()) == parse_items(
                    input@.skip(at as int),
                    items_view(items@),
                ),
            decreases input.len() - at,
        {
            if at >= input.len() {
                return Err(Error::TruncatedInput);
            }
            if input[at] == END {
                proof {
                    assert(input@.skip(at as int).skip(1) =~= input@.skip(at + 1));
                }
                return Ok((BenCode::Array(items), at + 1));
            }
            match decode_at(input, at) {
                Err(e) => {
                    return Err(e);
                },
                Ok((v, next)) => {
                    assert(items_view(items@.push(v)) =~= items_view(items@).push(v@));
                    items.push(v);
                    at = next;
                },
            }
        }
    } else if first == DICT_START {
        let mut entries: Vec<(Vec<u8>, BenCode)> = Vec::new();
        let mut at: usize = pos + 1;
        assert(entries_view(entries@) =~= Seq::empty());
        loop
            invariant
                pos < at <= input.len(),
                first == DICT_START,
                input@[pos as int] == first,
                input@.skip(pos as int).skip(1) == input@.skip(pos + 1),
                parse_entries(input@.skip(pos + 1), Seq::empty()) == parse_entries(
                    input@.skip(at as int),
                    entries_view(entries@),
                ),
            decreases input.len() - at,
        {
            if at >= input.len() {
                return Err(Error::TruncatedInput);
            }
            if input[at] == END {
                proof {
                    assert(input@.skip(at as int).skip(1) =~= input@.skip(at + 1));
                }
                return Ok((BenCode::Dict(entries), at + 1));
            }
            match decode_at(input, at) {
                Err(e) => {
                    return Err(e);
                },
                Ok((BenCode::String(key), next)) => {
                    match decode_at(input, next) {
                        Err(e) => {
                            return Err(e);
                        },
                        Ok((v, after)) => {
                            insert_entry(&mut entries, key, v);
                            at = after;
                        },
                    }
                },
                Ok(_) => {
                    return Err(Error::MalformedBencode);
                },
            }
        }
    } else {
        Err(Error::MalformedBencode)
    }
}

/// Decodes the first value in `encoded`, and hands back the bytes that follow
/// it.
pub fn decode_bencoded_value(encoded: &[u8]) -> (r: Result<(BenCode, &[u8]), Error>)
    ensures
        match parse_value(encoded@) {
            Ok((v, rest)) => r matches Ok(p) && p.0@ == v && p.1@ == rest,
            Err(e) => r matches Err(x) && x == e,
        },
        r matches Ok(p) ==> well_formed(p.0@) && p.1@.len() < encoded@.len(),
{
    assert(encoded@.skip(0) =~= encoded@);
    proof {
        lemma_decoded_is_well_formed(encoded@);
    }
    match decode_at(encoded, 0) {
        Err(e) => Err(e),
        Ok((v, next)) => {
            let rest = slice_subrange(encoded, next, encoded.len());
            Ok((v, rest))
        },
    }
}

/// Decodes the integer that `encoded` starts with, and hands back the bytes
/// that follow it. Example: `i42e` holds 42, `i0e` holds 0, `i-1e` holds -1.
pub fn decode_bencoded_int(encoded: &[u8]) -> (r: Result<(BenCode, &[u8]), Error>)
    ensures
        match parse_int(encoded@) {
            Ok((v, rest)) => r matches Ok(p) && p.0@ == v && p.1@ == rest,
            Err(e) => r matches Err(x) && x == e,
        },
{
    if encoded.len() == 0 {
        return Err(Error::TruncatedInput);
    }
    if encoded[0] != INT_START {
        return Err(Error::MalformedBencode);
    }
    match int_at(encoded, 0) {
        Err(e) => Err(e),
        Ok((v, next)) => {
            let rest = slice_subrange(encoded, next, encoded.len());
            Ok((v, rest))
        },
    }
}

/// Decodes the byte string that `encoded` starts with, and hands back the
/// bytes that follow it. Example: `5:hello` holds `hello`.
pub fn decode_bencoded_string(encoded: &[u8]) -> (r: Result<(BenCode, &[u8]), Error>)
    ensures
        match parse_bytes(encoded@) {
            Ok((v, rest)) => r matches Ok(p) && p.0@ == v && p.1@ == rest,
            Err(e) => r matches Err(x) && x == e,
        },
{
    assert(encoded@.skip(0) =~= encoded@);
    if encoded.len() == 0 {
        return Err(Error::TruncatedInput);
    }
    match string_at(encoded, 0) {
        Err(e) => Err(e),
        Ok((v, next)) => {
            let rest = slice_subrange(encoded, next, encoded.len());
            Ok((v, rest))
        },
    }
}

/// Decodes `encoded`, which must hold one value and nothing after it.
pub fn decode_all(encoded: &[u8]) -> (r: Result<BenCode, Error>)
    ensures
        match parse_whole(encoded@) {
            Ok(v) => r matches Ok(d) && d@ == v,
            Err(e) => r matches Err(x) && x == e,
        },
        r matches Ok(d) ==> well_formed(d@),
{
    assert(encoded@.skip(0) =~= encoded@);
    proof {
        lemma_decoded_is_well_formed(encoded@);
    }
    match decode_at(encoded, 0) {
        Err(e) => Err(e),
        Ok((v, next)) => {
            if next == encoded.len() {
                Ok(v)
            } else {
                Err(Error::MalformedBencode)
            }
        },
    }
}

/// Decodes the text `encoded_value`, taken as its bytes, which must hold one
/// value and nothing after it.
pub fn decode_cmd(encoded_value: &str) -> (r: Result<BenCode, Error>)
    ensures
        match parse_whole(encoded_value.spec_bytes()) {
            Ok(v) => r matches Ok(d) && d@ == v,
            Err(e) => r matches Err(x) && x == e,
        },
        r matches Ok(d) ==> well_formed(d@),
{
    decode_all(encoded_value.as_bytes())
}

} // verus!
