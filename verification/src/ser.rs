//! Encoding bencode.

use crate::grammar::{
    encode_bytes, encode_entries, encode_items, encode_value, int_digits, nat_digits, COLON,
    DICT_START, END, INT_START, LIST_START, MINUS,
};
use crate::value::{entries_view, items_view, BenCode, BenValue};
use vstd::prelude::*;

verus! {

/// The encodings of a list with one more item at its end are those of the
/// list and then that of the item.
pub proof fn lemma_encode_items_push(items: Seq<BenValue>, last: BenValue)
    ensures
        encode_items(items.push(last)) == encode_items(items) + encode_value(last),
    decreases items.len(),
{
    let all = items.push(last);
    if items.len() == 0 {
        assert(encode_items(all.skip(1)) =~= Seq::empty());
    } else {
        assert(all.skip(1) =~= items.skip(1).push(last));
        lemma_encode_items_push(items.skip(1), last);
    }
}

/// The encodings of entries with one more entry at their end are those of the
/// entries and then the key and the value of that entry.
pub proof fn lemma_encode_entries_push(
    entries: Seq<(Seq<u8>, BenValue)>,
    key: Seq<u8>,
    value: BenValue,
)
    ensures
        encode_entries(entries.push((key, value))) == encode_entries(entries) + encode_bytes(key)
            + encode_value(value),
    decreases entries.len(),
{
    let all = entries.push((key, value));
    if entries.len() == 0 {
        assert(encode_entries(all.skip(1)) =~= Seq::empty());
        assert(encode_entries(entries) + encode_bytes(key) + encode_value(value) =~= encode_bytes(
            key,
        ) + encode_value(value));
    } else {
        assert(all.skip(1) =~= entries.skip(1).push((key, value)));
        lemma_encode_entries_push(entries.skip(1), key, value);
        assert(encode_entries(all) =~= encode_entries(entries) + encode_bytes(key) + encode_value(
            value,
        ));
    }
}

/// Appends `src` to `out`.
pub fn append_bytes(out: &mut Vec<u8>, src: &[u8])
    ensures
        final(out)@ == old(out)@ + src@,
{
    let mut i: usize = 0;
    while i < src.len()
        invariant
            i <= src.len(),
            out@ == old(out)@ + src@.take(i as int),
        decreases src.len() - i,
    {
        out.push(src[i]);
        i += 1;
    }
}

/// Appends the decimal digits of `n` to `out`.
pub fn write_nat(n: u64, out: &mut Vec<u8>)
    ensures
        final(out)@ == old(out)@ + nat_digits(n as nat),
    decreases n,
{
    if n >= 10 {
        write_nat(n / 10, out);
    }
    out.push((48 + n % 10) as u8);
}

/// Appends the decimal form of `i` to `out`.
pub fn write_int(i: i64, out: &mut Vec<u8>)
    ensures
        final(out)@ == old(out)@ + int_digits(i as int),
{
    if i < 0 {
        out.push(MINUS);
        let magnitude: u64 = if i == i64::MIN {
            9223372036854775808u64
        } else {
            (-i) as u64
        };
        write_nat(magnitude, out);
    } else {
        write_nat(i as u64, out);
    }
}

/// Appends the encoding of the byte string `bytes` to `out`.
pub fn write_bytes(bytes: &[u8], out: &mut Vec<u8>)
    ensures
        final(out)@ == old(out)@ + encode_bytes(bytes@),
{
    write_nat(bytes.len() as u64, out);
    out.push(COLON);
    append_bytes(out, bytes);
}

/// Appends the encoding of `value` to `out`.
pub fn encode_into(value: &BenCode, out: &mut Vec<u8>)
    ensures
        final(out)@ == old(out)@ + encode_value(value@),
    decreases value,
{
    match value {
        BenCode::Int(i) => {
            out.push(INT_START);
            write_int(*i, out);
            out.push(END);
        },
        BenCode::String(bytes) => {
            write_bytes(bytes.as_slice(), out);
        },
        BenCode::Array(items) => {
            out.push(LIST_START);
            let ghost models = items_view(items@);
            let mut i: usize = 0;
            while i < items.len()
                invariant
                    i <= items.len(),
                    models == items_view(items@),
                    value == BenCode::Array(*items),
                    out@ == old(out)@ + seq![LIST_START] + encode_items(models.take(i as int)),
                decreases items.len() - i,
            {
                proof {
                    lemma_encode_items_push(models.take(i as int), models[i as int]);
                    assert(models.take(i + 1) =~= models.take(i as int).push(models[i as int]));
                    assert(decreases_to!(*value => (*value)->Array_0@[i as int]));
                }
                encode_into(&items[i], out);
                i += 1;
            }
            out.push(END);
            assert(models.take(i as int) =~= models);
        },
        BenCode::Dict(entries) => {
            out.push(DICT_START);
            let ghost models = entries_view(entries@);
            let mut i: usize = 0;
            while i < entries.len()
                invariant
                    i <= entries.len(),
                    models == entries_view(entries@),
                    value == BenCode::Dict(*entries),
                    out@ == old(out)@ + seq![DICT_START] + encode_entries(models.take(i as int)),
                decreases entries.len() - i,
            {
                proof {
                    lemma_encode_entries_push(
                        models.take(i as int),
                        models[i as int].0,
                        models[i as int].1,
                    );
                    assert(models.take(i + 1) =~= models.take(i as int).push(models[i as int]));
                    assert(decreases_to!(*value => (*value)->Dict_0@[i as int].1));
                }
                write_bytes(entries[i].0.as_slice(), out);
                encode_into(&entries[i].1, out);
                i += 1;
            }
            out.push(END);
            assert(models.take(i as int) =~= models);
        },
    }
}

/// The encoding of `value`.
pub fn encode(value: &BenCode) -> (out: Vec<u8>)
    ensures
        out@ == encode_value(value@),
{
    let mut out: Vec<u8> = Vec::new();
    encode_into(value, &mut out);
    out
}

} // verus!
