//! The bencode grammar as mathematics: what the encoding of a value is, and
//! what a byte string decodes to.

use crate::error::Error;
use crate::value::BenValue;
use vstd::prelude::*;

verus! {

/// The byte `i`, which opens an integer.
pub const INT_START: u8 = 105;

/// The byte `l`, which opens a list.
pub const LIST_START: u8 = 108;

/// The byte `d`, which opens a dictionary.
pub const DICT_START: u8 = 100;

/// The byte `e`, which closes an integer, a list or a dictionary.
pub const END: u8 = 101;

/// The byte `:`, which separates the length of a byte string from its bytes.
pub const COLON: u8 = 58;

/// The byte `-`.
pub const MINUS: u8 = 45;

/// The byte `0`.
pub const ZERO: u8 = 48;

/// Whether `b` is an ASCII decimal digit.
pub open spec fn is_digit(b: u8) -> bool {
    48 <= b <= 57
}

/// The number that a string of decimal digits denotes.
pub open spec fn digits_value(ds: Seq<u8>) -> nat
    decreases ds.len(),
{
    if ds.len() == 0 {
        0
    } else {
        digits_value(ds.drop_last()) * 10 + (ds.last() - 48) as nat
    }
}

/// The number of decimal digits that `s` starts with.
pub open spec fn digit_run(s: Seq<u8>) -> nat
    decreases s.len(),
{
    if s.len() > 0 && is_digit(s[0]) {
        1 + digit_run(s.skip(1))
    } else {
        0
    }
}

/// The decimal digits of `n`, most significant first, without leading zeros.
pub open spec fn nat_digits(n: nat) -> Seq<u8>
    decreases n,
{
    if n < 10 {
        seq![(48 + n) as u8]
    } else {
        nat_digits(n / 10).push((48 + n % 10) as u8)
    }
}

/// The decimal form of `i`: a minus sign for a negative number, then the
/// digits of its magnitude.
pub open spec fn int_digits(i: int) -> Seq<u8> {
    if i < 0 {
        seq![45u8] + nat_digits((-i) as nat)
    } else {
        nat_digits(i as nat)
    }
}

/// The position of the first entry of `entries` under `key`, or the length of
/// `entries` where there is none.
pub open spec fn key_position(entries: Seq<(Seq<u8>, BenValue)>, key: Seq<u8>) -> nat
    decreases entries.len(),
{
    if entries.len() == 0 {
        0
    } else if entries[0].0 == key {
        0
    } else {
        1 + key_position(entries.skip(1), key)
    }
}

/// Whether `entries` holds an entry under `key`.
pub open spec fn has_key(entries: Seq<(Seq<u8>, BenValue)>, key: Seq<u8>) -> bool {
    key_position(entries, key) < entries.len()
}

/// `entries` after `value` was stored under `key`: a key that is already
/// there keeps its place and gets the new value, a new key goes to the end.
pub open spec fn dict_insert(
    entries: Seq<(Seq<u8>, BenValue)>,
    key: Seq<u8>,
    value: BenValue,
) -> Seq<(Seq<u8>, BenValue)> {
    if has_key(entries, key) {
        entries.update(key_position(entries, key) as int, (key, value))
    } else {
        entries.push((key, value))
    }
}

/// Whether no key occurs twice in `entries`.
pub open spec fn distinct_keys(entries: Seq<(Seq<u8>, BenValue)>) -> bool {
    forall|i: int, j: int|
        0 <= i < j < entries.len() ==> (#[trigger] entries[i]).0 != (#[trigger] entries[j]).0
}

/// Whether `v` is a value that this library can hold: every integer fits in
/// 64 bits and no dictionary, at any depth, has a key twice.
pub open spec fn well_formed(v: BenValue) -> bool
    decreases v,
{
    match v {
        BenValue::Int(i) => i64::MIN <= i <= i64::MAX,
        BenValue::Bytes(_) => true,
        BenValue::List(items) => forall|i: int|
            0 <= i < items.len() ==> well_formed(#[trigger] items[i]),
        BenValue::Dict(entries) => distinct_keys(entries) && forall|i: int|
            0 <= i < entries.len() ==> well_formed((#[trigger] entries[i]).1),
    }
}

/// The encoding of the byte string `b`: its length in decimal, a colon, and
/// the bytes themselves.
pub open spec fn encode_bytes(b: Seq<u8>) -> Seq<u8> {
    nat_digits(b.len()) + seq![COLON] + b
}

/// The encoding of `v`.
pub open spec fn encode_value(v: BenValue) -> Seq<u8>
    decreases v,
{
    match v {
        BenValue::Int(i) => seq![INT_START] + int_digits(i) + seq![END],
        BenValue::Bytes(b) => encode_bytes(b),
        BenValue::List(items) => seq![LIST_START] + encode_items(items) + seq![END],
        BenValue::Dict(entries) => seq![DICT_START] + encode_entries(entries) + seq![END],
    }
}

/// The encodings of `items`, one after the other.
pub open spec fn encode_items(items: Seq<BenValue>) -> Seq<u8>
    decreases items,
{
    if items.len() == 0 {
        Seq::empty()
    } else {
        encode_value(items[0]) + encode_items(items.skip(1))
    }
}

/// The encodings of `entries`, one after the other, each as its key, encoded
/// as a byte string, and then its value.
pub open spec fn encode_entries(entries: Seq<(Seq<u8>, BenValue)>) -> Seq<u8>
    decreases entries,
{
    if entries.len() == 0 {
        Seq::empty()
    } else {
        encode_bytes(entries[0].0) + encode_value(entries[0].1)
            + encode_entries(entries.skip(1))
    }
}

/// What an integer decodes to: the opening `i`, then an optional minus sign,
/// a run of digits and the closing `e`.
///
/// An empty input is truncated, and so is one that ends before the run of
/// digits does. The input is malformed where it does not start with `i`,
/// where the run of digits is empty or is followed by another byte than `e`,
/// where it has a leading zero (other than the single digit `0`), where a
/// minus sign stands before a zero, and where the number does not fit in 64
/// bits.
pub open spec fn parse_int(s: Seq<u8>) -> Result<(BenValue, Seq<u8>), Error> {
    if s.len() == 0 {
        Err(Error::TruncatedInput)
    } else if s[0] != INT_START {
        Err(Error::MalformedBencode)
    } else {
        parse_int_body(s.skip(1))
    }
}

/// What the text of an integer decodes to, `s` being what follows the
/// opening `i`.
pub open spec fn parse_int_body(s: Seq<u8>) -> Result<(BenValue, Seq<u8>), Error> {
    let negative = s.len() > 0 && s[0] == MINUS;
    let body = if negative {
        s.skip(1)
    } else {
        s
    };
    let n = digit_run(body);
    let magnitude = digits_value(body.take(n as int));
    let number = if negative {
        -(magnitude as int)
    } else {
        magnitude as int
    };
    if n >= body.len() {
        Err(Error::TruncatedInput)
    } else if body[n as int] != END {
        Err(Error::MalformedBencode)
    } else if n == 0 {
        Err(Error::MalformedBencode)
    } else if body[0] == ZERO && (n > 1 || negative) {
        Err(Error::MalformedBencode)
    } else if !(i64::MIN <= number <= i64::MAX) {
        Err(Error::MalformedBencode)
    } else {
        Ok((BenValue::Int(number), body.skip(n as int + 1)))
    }
}

/// What a byte string decodes to: a run of digits that gives the length, a
/// colon, and that many bytes.
///
/// The input is truncated where it ends before the run of digits does, or
/// holds fewer bytes after the colon than the length asks for. It is malformed
/// where the run of digits is empty or is followed by another byte than a
/// colon.
pub open spec fn parse_bytes(s: Seq<u8>) -> Result<(BenValue, Seq<u8>), Error> {
    let n = digit_run(s);
    let length = digits_value(s.take(n as int));
    let rest = s.skip(n as int + 1);
    if n >= s.len() {
        Err(Error::TruncatedInput)
    } else if n == 0 || s[n as int] != COLON {
        Err(Error::MalformedBencode)
    } else if length > rest.len() {
        Err(Error::TruncatedInput)
    } else {
        Ok((BenValue::Bytes(rest.take(length as int)), rest.skip(length as int)))
    }
}

/// What `s` decodes to: the first value in it and the bytes that follow that
/// value, or the reason why `s` does not start with a value.
///
/// The first byte decides: `i` opens an integer, a digit a byte string, `l` a
/// list and `d` a dictionary; any other byte is malformed, and an empty input
/// is truncated.
pub open spec fn parse_value(s: Seq<u8>) -> Result<(BenValue, Seq<u8>), Error>
    decreases s.len(), 0nat,
{
    if s.len() == 0 {
        Err(Error::TruncatedInput)
    } else if s[0] == INT_START {
        parse_int(s)
    } else if is_digit(s[0]) {
        parse_bytes(s)
    } else if s[0] == LIST_START {
        match parse_items(s.skip(1), Seq::empty()) {
            Ok((items, rest)) => Ok((BenValue::List(items), rest)),
            Err(e) => Err(e),
        }
    } else if s[0] == DICT_START {
        match parse_entries(s.skip(1), Seq::empty()) {
            Ok((entries, rest)) => Ok((BenValue::Dict(entries), rest)),
            Err(e) => Err(e),
        }
    } else {
        Err(Error::MalformedBencode)
    }
}

/// What the inside of a list decodes to, `acc` being the items that stand
/// before `s`: the values up to the closing `e`, after those of `acc`, and the
/// bytes that follow the `e`.
///
/// A value takes at least one byte, so the test on the length of what is left
/// never fails; it is there to show that the definition is well founded.
pub open spec fn parse_items(s: Seq<u8>, acc: Seq<BenValue>) -> Result<
    (Seq<BenValue>, Seq<u8>),
    Error,
>
    decreases s.len(), 1nat,
{
    if s.len() == 0 {
        Err(Error::TruncatedInput)
    } else if s[0] == END {
        Ok((acc, s.skip(1)))
    } else {
        match parse_value(s) {
            Err(e) => Err(e),
            Ok((v, rest)) => if rest.len() < s.len() {
                parse_items(rest, acc.push(v))
            } else {
                Err(Error::MalformedBencode)
            },
        }
    }
}

/// What the inside of a dictionary decodes to, `acc` being the entries that
/// stand before `s`: pairs of a key and a value up to the closing `e`, each
/// stored into the entries before it, and the bytes that follow the `e`.
///
/// A key that is no byte string is malformed. As in a list, the tests on the
/// length of what is left never fail.
pub open spec fn parse_entries(s: Seq<u8>, acc: Seq<(Seq<u8>, BenValue)>) -> Result<
    (Seq<(Seq<u8>, BenValue)>, Seq<u8>),
    Error,
>
    decreases s.len(), 1nat,
{
    if s.len() == 0 {
        Err(Error::TruncatedInput)
    } else if s[0] == END {
        Ok((acc, s.skip(1)))
    } else {
        match parse_value(s) {
            Err(e) => Err(e),
            Ok((BenValue::Bytes(key), rest)) => if rest.len() < s.len() {
                match parse_value(rest) {
                    Err(e) => Err(e),
                    Ok((v, after)) => if after.len() < rest.len() {
                        parse_entries(after, dict_insert(acc, key, v))
                    } else {
                        Err(Error::MalformedBencode)
                    },
                }
            } else {
                Err(Error::MalformedBencode)
            },
            Ok(_) => Err(Error::MalformedBencode),
        }
    }
}

/// What a whole input decodes to: the one value that it holds. Bytes after
/// that value are malformed.
pub open spec fn parse_whole(s: Seq<u8>) -> Result<BenValue, Error> {
    match parse_value(s) {
        Err(e) => Err(e),
        Ok((v, rest)) => if rest.len() == 0 {
            Ok(v)
        } else {
            Err(Error::MalformedBencode)
        },
    }
}

/// The value that stands under `key` in `entries`, if there is one.
pub open spec fn dict_get(entries: Seq<(Seq<u8>, BenValue)>, key: Seq<u8>) -> Option<BenValue> {
    if has_key(entries, key) {
        Some(entries[key_position(entries, key) as int].1)
    } else {
        None
    }
}

/// The value that stands under `key` in the dictionary `v`, if `v` is a
/// dictionary and has that key.
pub open spec fn field(v: BenValue, key: Seq<u8>) -> Option<BenValue> {
    match v {
        BenValue::Dict(entries) => dict_get(entries, key),
        _ => None,
    }
}

/// A run of `k` digits that ends at the end of `s` or before a byte that is no
/// digit is the run of digits that `s` starts with.
pub proof fn lemma_digit_run(s: Seq<u8>, k: int)
    requires
        0 <= k <= s.len(),
        forall|j: int| 0 <= j < k ==> is_digit(s[j]),
        k == s.len() || !is_digit(s[k]),
    ensures
        digit_run(s) == k,
    decreases k,
{
    if k > 0 {
        let t = s.skip(1);
        assert forall|j: int| 0 <= j < k - 1 implies is_digit(t[j]) by {}
        lemma_digit_run(t, k - 1);
    }
}

/// One more digit multiplies the number by ten and adds the digit.
pub proof fn lemma_digits_value_step(s: Seq<u8>, k: int)
    requires
        0 <= k < s.len(),
    ensures
        digits_value(s.take(k + 1)) == digits_value(s.take(k)) * 10 + (s[k] - 48) as nat,
{
    assert(s.take(k + 1).drop_last() =~= s.take(k));
}

/// The first entry under `key` is at `p` where no entry before `p` has that
/// key and `p` has it or is the length.
pub proof fn lemma_key_position(entries: Seq<(Seq<u8>, BenValue)>, key: Seq<u8>, p: int)
    requires
        0 <= p <= entries.len(),
        forall|j: int| 0 <= j < p ==> entries[j].0 != key,
        p == entries.len() || entries[p].0 == key,
    ensures
        key_position(entries, key) == p,
    decreases p,
{
    if p > 0 {
        let t = entries.skip(1);
        assert forall|j: int| 0 <= j < p - 1 implies t[j].0 != key by {}
        lemma_key_position(t, key, p - 1);
    }
}

} // verus!
