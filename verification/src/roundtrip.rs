//! What holds of encoding and decoding together.

use crate::grammar::{
    dict_insert, digit_run, digits_value, distinct_keys, encode_bytes, encode_entries,
    encode_items, encode_value, has_key, int_digits, is_digit, key_position, lemma_digit_run,
    lemma_key_position, nat_digits,
    parse_bytes, parse_entries, parse_int_body, parse_items, parse_value, parse_whole,
    well_formed,
    COLON, DICT_START, END, INT_START, LIST_START, MINUS, ZERO,
};
use crate::value::BenValue;
use vstd::prelude::*;

verus! {

/// The decimal form of a number holds digits only, at least one, and starts
/// with a zero only where the number is zero, which has the one digit.
pub proof fn lemma_nat_digits_shape(n: nat)
    ensures
        nat_digits(n).len() >= 1,
        forall|j: int| 0 <= j < nat_digits(n).len() ==> is_digit(#[trigger] nat_digits(n)[j]),
        nat_digits(n)[0] == ZERO ==> n == 0,
        n == 0 ==> nat_digits(n) == seq![ZERO],
    decreases n,
{
    if n >= 10 {
        lemma_nat_digits_shape(n / 10);
    }
}

/// The decimal form of a number denotes that number.
pub proof fn lemma_nat_digits_value(n: nat)
    ensures
        digits_value(nat_digits(n)) == n,
    decreases n,
{
    let ds = nat_digits(n);
    if n >= 10 {
        lemma_nat_digits_value(n / 10);
        assert(ds.drop_last() =~= nat_digits(n / 10));
    } else {
        assert(digits_value(ds.drop_last()) == 0);
    }
}

/// In the decimal form of a number, followed by a byte that is no digit and
/// by anything, the run of digits at the start is that decimal form.
pub proof fn lemma_digit_run_of_number(n: nat, stop: u8, tail: Seq<u8>)
    requires
        !is_digit(stop),
    ensures
        digit_run(nat_digits(n) + seq![stop] + tail) == nat_digits(n).len(),
{
    let ds = nat_digits(n);
    let s = ds + seq![stop] + tail;
    lemma_nat_digits_shape(n);
    assert forall|j: int| 0 <= j < ds.len() implies is_digit(s[j]) by {}
    lemma_digit_run(s, ds.len() as int);
}

/// An integer that fits in 64 bits decodes from its text, whatever follows.
pub proof fn lemma_parse_int_of_digits(i: int, tail: Seq<u8>)
    requires
        i64::MIN <= i <= i64::MAX,
    ensures
        parse_int_body(int_digits(i) + seq![END] + tail) == Ok::<
            (BenValue, Seq<u8>),
            crate::error::Error,
        >(
            (BenValue::Int(i), tail),
        ),
{
    let s = int_digits(i) + seq![END] + tail;
    let magnitude: nat = if i < 0 {
        (-i) as nat
    } else {
        i as nat
    };
    let ds = nat_digits(magnitude);
    lemma_nat_digits_shape(magnitude);
    lemma_nat_digits_value(magnitude);
    lemma_digit_run_of_number(magnitude, END, tail);
    let body = ds + seq![END] + tail;
    if i < 0 {
        assert(s.skip(1) =~= body);
    }
    let n = ds.len();
    assert(body.take(n as int) =~= ds);
    assert(body.skip(n as int + 1) =~= tail);
}

/// A byte string decodes from its encoding, whatever follows.
pub proof fn lemma_parse_bytes_of_encoding(b: Seq<u8>, tail: Seq<u8>)
    ensures
        parse_bytes(encode_bytes(b) + tail) == Ok::<(BenValue, Seq<u8>), crate::error::Error>(
            (BenValue::Bytes(b), tail),
        ),
        is_digit((encode_bytes(b) + tail)[0]),
{
    let ds = nat_digits(b.len());
    let s = encode_bytes(b) + tail;
    lemma_nat_digits_shape(b.len());
    lemma_nat_digits_value(b.len());
    lemma_digit_run_of_number(b.len(), COLON, b + tail);
    assert(s =~= ds + seq![COLON] + (b + tail));
    let n = ds.len();
    assert(s.take(n as int) =~= ds);
    let rest = s.skip(n as int + 1);
    assert(rest.take(b.len() as int) =~= b);
    assert(rest.skip(b.len() as int) =~= tail);
}

/// The encoding of a value is never empty, and its first byte is none that
/// closes a list or a dictionary.
pub proof fn lemma_encoding_starts(v: BenValue)
    ensures
        encode_value(v).len() >= 1,
        encode_value(v)[0] != END,
{
    match v {
        BenValue::Bytes(b) => {
            lemma_nat_digits_shape(b.len());
        },
        _ => {},
    }
}

/// Storing an entry under a key that is not there yet puts it at the end.
pub proof fn lemma_insert_fresh(entries: Seq<(Seq<u8>, BenValue)>, key: Seq<u8>, value: BenValue)
    requires
        forall|j: int| 0 <= j < entries.len() ==> (#[trigger] entries[j]).0 != key,
    ensures
        dict_insert(entries, key, value) == entries.push((key, value)),
{
    lemma_key_position(entries, key, entries.len() as int);
}

/// Decoding undoes encoding: a well-formed value decodes from its encoding,
/// and the bytes that follow the encoding are left over.
pub proof fn lemma_decode_encode(v: BenValue, tail: Seq<u8>)
    requires
        well_formed(v),
    ensures
        parse_value(encode_value(v) + tail) == Ok::<(BenValue, Seq<u8>), crate::error::Error>(
            (v, tail),
        ),
    decreases v, 0nat,
{
    let s = encode_value(v) + tail;
    match v {
        BenValue::Int(i) => {
            assert(s.skip(1) =~= int_digits(i) + seq![END] + tail);
            lemma_parse_int_of_digits(i, tail);
        },
        BenValue::Bytes(b) => {
            lemma_parse_bytes_of_encoding(b, tail);
        },
        BenValue::List(items) => {
            assert(s.skip(1) =~= encode_items(items) + seq![END] + tail);
            lemma_decode_encode_items(items, Seq::empty(), tail);
        },
        BenValue::Dict(entries) => {
            assert(s.skip(1) =~= encode_entries(entries) + seq![END] + tail);
            lemma_decode_encode_entries(entries, Seq::empty(), tail);
        },
    }
}

/// The items of a list decode from their encodings, up to the byte that
/// closes the list, and come after the items that were decoded before.
pub proof fn lemma_decode_encode_items(items: Seq<BenValue>, acc: Seq<BenValue>, tail: Seq<u8>)
    requires
        forall|i: int| 0 <= i < items.len() ==> well_formed(#[trigger] items[i]),
    ensures
        parse_items(encode_items(items) + seq![END] + tail, acc) == Ok::<
            (Seq<BenValue>, Seq<u8>),
            crate::error::Error,
        >((acc + items, tail)),
    decreases items, 1nat,
{
    let s = encode_items(items) + seq![END] + tail;
    if items.len() == 0 {
        assert(s.skip(1) =~= tail);
    } else {
        let first = items[0];
        let others = items.skip(1);
        let rest = encode_items(others) + seq![END] + tail;
        lemma_encoding_starts(first);
        assert(s =~= encode_value(first) + rest);
        lemma_decode_encode(first, rest);
        assert forall|i: int| 0 <= i < others.len() implies well_formed(#[trigger] others[i]) by {}
        lemma_decode_encode_items(others, acc.push(first), tail);
        assert(acc.push(first) + others =~= acc + items);
    }
}

/// The entries of a dictionary decode from their encodings, up to the byte
/// that closes the dictionary, and come after the entries that were decoded
/// before, where no key occurs twice among them all.
pub proof fn lemma_decode_encode_entries(
    entries: Seq<(Seq<u8>, BenValue)>,
    acc: Seq<(Seq<u8>, BenValue)>,
    tail: Seq<u8>,
)
    requires
        distinct_keys(acc + entries),
        forall|i: int| 0 <= i < entries.len() ==> well_formed((#[trigger] entries[i]).1),
    ensures
        parse_entries(encode_entries(entries) + seq![END] + tail, acc) == Ok::<
            (Seq<(Seq<u8>, BenValue)>, Seq<u8>),
            crate::error::Error,
        >((acc + entries, tail)),
    decreases entries, 1nat,
{
    let s = encode_entries(entries) + seq![END] + tail;
    if entries.len() == 0 {
        assert(s.skip(1) =~= tail);
    } else {
        let key = entries[0].0;
        let value = entries[0].1;
        let others = entries.skip(1);
        let rest = encode_entries(others) + seq![END] + tail;
        let after_key = encode_value(value) + rest;
        assert(s =~= encode_bytes(key) + after_key);
        lemma_parse_bytes_of_encoding(key, after_key);
        assert(parse_value(s) == parse_bytes(s));
        lemma_nat_digits_shape(key.len());
        lemma_encoding_starts(value);
        lemma_decode_encode(value, rest);
        let all = acc + entries;
        assert forall|j: int| 0 <= j < acc.len() implies (#[trigger] acc[j]).0 != key by {
            assert(all[j] == acc[j]);
            assert(all[acc.len() as int] == entries[0]);
        }
        lemma_insert_fresh(acc, key, value);
        let next = acc.push((key, value));
        assert(next + others =~= all);
        assert forall|i: int| 0 <= i < others.len() implies well_formed(
            (#[trigger] others[i]).1,
        ) by {}
        lemma_decode_encode_entries(others, next, tail);
    }
}

/// Decoding the encoding of a well-formed value, and nothing else, gives the
/// value back.
pub proof fn lemma_decode_whole_encode(v: BenValue)
    requires
        well_formed(v),
    ensures
        parse_whole(encode_value(v)) == Ok::<BenValue, crate::error::Error>(v),
{
    lemma_decode_encode(v, Seq::empty());
}

/// Where the first entry under a key stands: no entry before that place has
/// the key, and the entry at that place has it, unless the place is the
/// length and no entry has the key.
pub proof fn lemma_key_position_is_first(entries: Seq<(Seq<u8>, BenValue)>, key: Seq<u8>)
    ensures
        0 <= key_position(entries, key) <= entries.len(),
        forall|j: int| 0 <= j < key_position(entries, key) ==> (#[trigger] entries[j]).0 != key,
        has_key(entries, key) ==> entries[key_position(entries, key) as int].0 == key,
    decreases entries.len(),
{
    if entries.len() > 0 && entries[0].0 != key {
        let t = entries.skip(1);
        lemma_key_position_is_first(t, key);
        assert forall|j: int| 0 <= j < key_position(entries, key) implies (
        #[trigger] entries[j]).0 != key by {
            if j > 0 {
                assert(entries[j] == t[j - 1]);
            }
        }
    }
}

/// Storing an entry leaves entries with distinct keys so, and with
/// well-formed values where the new value is well formed.
pub proof fn lemma_insert_keeps_well_formed(
    entries: Seq<(Seq<u8>, BenValue)>,
    key: Seq<u8>,
    value: BenValue,
)
    requires
        distinct_keys(entries),
        forall|i: int| 0 <= i < entries.len() ==> well_formed((#[trigger] entries[i]).1),
        well_formed(value),
    ensures
        distinct_keys(dict_insert(entries, key, value)),
        forall|i: int|
            0 <= i < dict_insert(entries, key, value).len() ==> well_formed(
                (#[trigger] dict_insert(entries, key, value)[i]).1,
            ),
{
    lemma_key_position_is_first(entries, key);
}

/// What decoding gives is well formed, and it takes at least one byte: the
/// bytes that are left over are the end of the input, and fewer than the
/// input.
pub proof fn lemma_decoded_is_well_formed(s: Seq<u8>)
    ensures
        parse_value(s) matches Ok((v, rest)) ==> well_formed(v) && rest.len() < s.len() && rest
            == s.skip(s.len() - rest.len()),
    decreases s.len(), 0nat,
{
    if s.len() > 0 {
        if s[0] == LIST_START {
            lemma_decoded_items_are_well_formed(s.skip(1), Seq::empty());
        } else if s[0] == DICT_START {
            lemma_decoded_entries_are_well_formed(s.skip(1), Seq::empty());
        }
    }
}

/// The items that decoding the inside of a list gives are well formed where
/// those that stood before are, and the bytes that are left over are the end
/// of the input, and fewer than the input.
pub proof fn lemma_decoded_items_are_well_formed(s: Seq<u8>, acc: Seq<BenValue>)
    requires
        forall|i: int| 0 <= i < acc.len() ==> well_formed(#[trigger] acc[i]),
    ensures
        parse_items(s, acc) matches Ok((items, rest)) ==> (forall|i: int|
            0 <= i < items.len() ==> well_formed(#[trigger] items[i])) && rest.len() < s.len()
            && rest == s.skip(s.len() - rest.len()),
    decreases s.len(), 1nat,
{
    if s.len() > 0 && s[0] != END {
        lemma_decoded_is_well_formed(s);
        match parse_value(s) {
            Ok((v, next)) => {
                lemma_decoded_items_are_well_formed(next, acc.push(v));
            },
            Err(_) => {},
        }
    }
}

/// The entries that decoding the inside of a dictionary gives have distinct
/// keys and well-formed values where those that stood before have, and the
/// bytes that are left over are the end of the input, and fewer than the
/// input.
pub proof fn lemma_decoded_entries_are_well_formed(s: Seq<u8>, acc: Seq<(Seq<u8>, BenValue)>)
    requires
        distinct_keys(acc),
        forall|i: int| 0 <= i < acc.len() ==> well_formed((#[trigger] acc[i]).1),
    ensures
        parse_entries(s, acc) matches Ok((entries, rest)) ==> distinct_keys(entries) && (forall|
            i: int,
        |
            0 <= i < entries.len() ==> well_formed((#[trigger] entries[i]).1)) && rest.len()
            < s.len() && rest == s.skip(s.len() - rest.len()),
    decreases s.len(), 1nat,
{
    if s.len() > 0 && s[0] != END {
        lemma_decoded_is_well_formed(s);
        match parse_value(s) {
            Ok((BenValue::Bytes(key), next)) => {
                lemma_decoded_is_well_formed(next);
                match parse_value(next) {
                    Ok((v, after)) => {
                        lemma_insert_keeps_well_formed(acc, key, v);
                        lemma_decoded_entries_are_well_formed(after, dict_insert(acc, key, v));
                    },
                    Err(_) => {},
                }
            },
            _ => {},
        }
    }
}

} // verus!
