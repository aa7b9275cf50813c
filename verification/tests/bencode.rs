use torrent_core::de::{
    decode_all, decode_at, decode_bencoded_int, decode_bencoded_string, decode_bencoded_value,
    decode_cmd, insert_entry,
};
use torrent_core::error::Error;
use torrent_core::ser::encode;
use torrent_core::value::BenCode;

fn bytes(text: &str) -> BenCode {
    BenCode::String(text.as_bytes().to_vec())
}

#[test]
fn integers_decode() {
    assert_eq!(decode_cmd("i42e"), Ok(BenCode::Int(42)));
    assert_eq!(decode_cmd("i0e"), Ok(BenCode::Int(0)));
    assert_eq!(decode_cmd("i-1e"), Ok(BenCode::Int(-1)));
    assert_eq!(decode_cmd("i9223372036854775807e"), Ok(BenCode::Int(i64::MAX)));
    assert_eq!(decode_cmd("i-9223372036854775808e"), Ok(BenCode::Int(i64::MIN)));
}

#[test]
fn integers_with_bad_digits_are_rejected() {
    assert_eq!(decode_cmd("i-0e"), Err(Error::MalformedBencode));
    assert_eq!(decode_cmd("i03e"), Err(Error::MalformedBencode));
    assert_eq!(decode_cmd("i01e"), Err(Error::MalformedBencode));
    assert_eq!(decode_cmd("i00e"), Err(Error::MalformedBencode));
    assert_eq!(decode_cmd("i-01e"), Err(Error::MalformedBencode));
    assert_eq!(decode_cmd("ie"), Err(Error::MalformedBencode));
    assert_eq!(decode_cmd("i-e"), Err(Error::MalformedBencode));
    assert_eq!(decode_cmd("i+5e"), Err(Error::MalformedBencode));
    assert_eq!(decode_cmd("i1x2e"), Err(Error::MalformedBencode));
    assert_eq!(decode_cmd("iabce"), Err(Error::MalformedBencode));
}

#[test]
fn integers_out_of_range_are_rejected() {
    assert_eq!(decode_cmd("i9223372036854775808e"), Err(Error::MalformedBencode));
    assert_eq!(decode_cmd("i-9223372036854775809e"), Err(Error::MalformedBencode));
    assert_eq!(
        decode_cmd("i99999999999999999999999999999999e"),
        Err(Error::MalformedBencode)
    );
}

#[test]
fn integers_without_an_end_are_truncated() {
    assert_eq!(decode_cmd("i"), Err(Error::TruncatedInput));
    assert_eq!(decode_cmd("i-"), Err(Error::TruncatedInput));
    assert_eq!(decode_cmd("i42"), Err(Error::TruncatedInput));
}

#[test]
fn strings_decode_with_what_follows() {
    let (value, rest) = decode_bencoded_value(b"5:hello").unwrap();
    assert_eq!(value, bytes("hello"));
    assert_eq!(rest, b"");
    let (value, rest) = decode_bencoded_value(b"5:helloworld").unwrap();
    assert_eq!(value, bytes("hello"));
    assert_eq!(rest, b"world");
    let (value, rest) = decode_bencoded_value(b"0:").unwrap();
    assert_eq!(value, bytes(""));
    assert_eq!(rest, b"");
    assert_eq!(decode_cmd("05:hello"), Ok(bytes("hello")));
}

#[test]
fn strings_that_are_too_short_are_truncated() {
    assert_eq!(decode_cmd("5:hi"), Err(Error::TruncatedInput));
    assert_eq!(decode_cmd("5"), Err(Error::TruncatedInput));
    assert_eq!(decode_cmd("99999999999999999999999999:x"), Err(Error::TruncatedInput));
    assert_eq!(decode_cmd(""), Err(Error::TruncatedInput));
}

#[test]
fn strings_without_a_colon_are_malformed() {
    assert_eq!(decode_cmd("5x"), Err(Error::MalformedBencode));
    assert_eq!(decode_cmd("5e"), Err(Error::MalformedBencode));
}

#[test]
fn strings_may_hold_any_byte() {
    let input = [b'3', b':', 0xff, 0x00, 0x80];
    assert_eq!(decode_all(&input), Ok(BenCode::String(vec![0xff, 0x00, 0x80])));
}

#[test]
fn lists_decode() {
    assert_eq!(
        decode_cmd("l4:spam4:eggse"),
        Ok(BenCode::Array(vec![bytes("spam"), bytes("eggs")]))
    );
    assert_eq!(decode_cmd("le"), Ok(BenCode::Array(vec![])));
    assert_eq!(
        decode_cmd("lli1eei2ee"),
        Ok(BenCode::Array(vec![
            BenCode::Array(vec![BenCode::Int(1)]),
            BenCode::Int(2)
        ]))
    );
}

#[test]
fn dictionaries_decode_in_the_order_of_the_input() {
    assert_eq!(
        decode_cmd("d3:cow3:moo4:spam4:eggse"),
        Ok(BenCode::Dict(vec![
            (b"cow".to_vec(), bytes("moo")),
            (b"spam".to_vec(), bytes("eggs")),
        ]))
    );
    assert_eq!(
        decode_cmd("d4:spam4:eggs3:cow3:mooe"),
        Ok(BenCode::Dict(vec![
            (b"spam".to_vec(), bytes("eggs")),
            (b"cow".to_vec(), bytes("moo")),
        ]))
    );
    assert_eq!(decode_cmd("de"), Ok(BenCode::Dict(vec![])));
}

#[test]
fn a_key_that_comes_twice_keeps_its_place_and_the_last_value() {
    assert_eq!(
        decode_cmd("d1:ai1e1:bi2e1:ai3ee"),
        Ok(BenCode::Dict(vec![
            (b"a".to_vec(), BenCode::Int(3)),
            (b"b".to_vec(), BenCode::Int(2)),
        ]))
    );
}

#[test]
fn a_key_that_is_no_string_is_malformed() {
    assert_eq!(decode_cmd("di1e3:mooe"), Err(Error::MalformedBencode));
    assert_eq!(decode_cmd("dle3:mooe"), Err(Error::MalformedBencode));
}

#[test]
fn containers_without_an_end_are_truncated() {
    assert_eq!(decode_cmd("l4:spam"), Err(Error::TruncatedInput));
    assert_eq!(decode_cmd("d3:cow"), Err(Error::TruncatedInput));
    assert_eq!(decode_cmd("d3:cow3:moo"), Err(Error::TruncatedInput));
    assert_eq!(decode_cmd("l"), Err(Error::TruncatedInput));
}

#[test]
fn an_unknown_first_byte_is_malformed() {
    assert_eq!(decode_cmd("x"), Err(Error::MalformedBencode));
    assert_eq!(decode_cmd("e"), Err(Error::MalformedBencode));
    assert_eq!(decode_cmd("-1"), Err(Error::MalformedBencode));
}

#[test]
fn input_after_the_value_is_malformed() {
    assert_eq!(decode_cmd("i1ei2e"), Err(Error::MalformedBencode));
    assert_eq!(decode_cmd("5:hello!"), Err(Error::MalformedBencode));
    assert_eq!(decode_all(b"lee"), Err(Error::MalformedBencode));
}

#[test]
fn values_encode() {
    assert_eq!(encode(&BenCode::Int(42)), b"i42e".to_vec());
    assert_eq!(encode(&BenCode::Int(0)), b"i0e".to_vec());
    assert_eq!(encode(&BenCode::Int(-17)), b"i-17e".to_vec());
    assert_eq!(
        encode(&BenCode::Int(i64::MIN)),
        b"i-9223372036854775808e".to_vec()
    );
    assert_eq!(encode(&bytes("hello")), b"5:hello".to_vec());
    assert_eq!(encode(&bytes("")), b"0:".to_vec());
    assert_eq!(encode(&bytes("0123456789ab")), b"12:0123456789ab".to_vec());
    assert_eq!(
        encode(&BenCode::Array(vec![bytes("spam"), bytes("eggs")])),
        b"l4:spam4:eggse".to_vec()
    );
    assert_eq!(
        encode(&BenCode::Dict(vec![
            (b"spam".to_vec(), bytes("eggs")),
            (b"cow".to_vec(), bytes("moo")),
        ])),
        b"d4:spam4:eggs3:cow3:mooe".to_vec()
    );
}

#[test]
fn decoding_undoes_encoding() {
    let value = BenCode::Dict(vec![
        (b"zeta".to_vec(), BenCode::Int(-5)),
        (
            b"alpha".to_vec(),
            BenCode::Array(vec![
                bytes("x"),
                BenCode::Dict(vec![(b"".to_vec(), BenCode::Array(vec![]))]),
                BenCode::Int(i64::MAX),
            ]),
        ),
        (b"bytes".to_vec(), BenCode::String(vec![0, 255, b'e', b':'])),
    ]);
    let encoded = encode(&value);
    assert_eq!(decode_all(&encoded), Ok(value.clone()));
    let mut longer = encoded.clone();
    longer.extend_from_slice(b"i7e");
    let (first, rest) = decode_bencoded_value(&longer).unwrap();
    assert_eq!(first, value);
    assert_eq!(rest, b"i7e");
}

#[test]
fn entries_are_stored_in_place_or_at_the_end() {
    let mut entries = vec![
        (b"a".to_vec(), BenCode::Int(1)),
        (b"b".to_vec(), BenCode::Int(2)),
    ];
    insert_entry(&mut entries, b"a".to_vec(), BenCode::Int(9));
    insert_entry(&mut entries, b"c".to_vec(), BenCode::Int(3));
    assert_eq!(
        entries,
        vec![
            (b"a".to_vec(), BenCode::Int(9)),
            (b"b".to_vec(), BenCode::Int(2)),
            (b"c".to_vec(), BenCode::Int(3)),
        ]
    );
}

#[test]
fn fields_are_found_by_key() {
    let value = decode_cmd("d3:cow3:moo4:spami7ee").unwrap();
    assert_eq!(value.get(b"cow"), Some(&bytes("moo")));
    assert_eq!(value.get(b"spam"), Some(&BenCode::Int(7)));
    assert_eq!(value.get(b"eggs"), None);
    assert_eq!(BenCode::Int(1).get(b"cow"), None);
}

#[test]
fn an_integer_is_decoded_alone() {
    let (value, rest) = decode_bencoded_int(b"i42e").unwrap();
    assert_eq!(value, BenCode::Int(42));
    assert_eq!(rest, b"");
    let (value, rest) = decode_bencoded_int(b"i-7e5:hello").unwrap();
    assert_eq!(value, BenCode::Int(-7));
    assert_eq!(rest, b"5:hello");
    assert_eq!(decode_bencoded_int(b""), Err(Error::TruncatedInput));
    assert_eq!(decode_bencoded_int(b"i4"), Err(Error::TruncatedInput));
    assert_eq!(decode_bencoded_int(b"42e"), Err(Error::MalformedBencode));
    assert_eq!(decode_bencoded_int(b"l42e"), Err(Error::MalformedBencode));
    assert_eq!(decode_bencoded_int(b"i042e"), Err(Error::MalformedBencode));
}

#[test]
fn a_string_is_decoded_alone() {
    let (value, rest) = decode_bencoded_string(b"5:helloi1e").unwrap();
    assert_eq!(value, bytes("hello"));
    assert_eq!(rest, b"i1e");
    assert_eq!(decode_bencoded_string(b""), Err(Error::TruncatedInput));
    assert_eq!(decode_bencoded_string(b"5:hell"), Err(Error::TruncatedInput));
    assert_eq!(decode_bencoded_string(b"12"), Err(Error::TruncatedInput));
    assert_eq!(decode_bencoded_string(b":abc"), Err(Error::MalformedBencode));
    assert_eq!(decode_bencoded_string(b"i1e"), Err(Error::MalformedBencode));
    assert_eq!(decode_bencoded_string(b"1x:a"), Err(Error::MalformedBencode));
}

#[test]
fn a_value_is_decoded_from_a_place() {
    let input = b"xxi5e3:abc";
    assert_eq!(decode_at(input, 2), Ok((BenCode::Int(5), 5)));
    assert_eq!(decode_at(input, 5), Ok((bytes("abc"), 10)));
    assert_eq!(decode_at(input, 10), Err(Error::TruncatedInput));
    assert_eq!(decode_at(input, 0), Err(Error::MalformedBencode));
}

#[test]
fn a_key_twice_makes_a_value_ill_formed() {
    assert!(BenCode::Int(1).is_well_formed());
    assert!(bytes("x").is_well_formed());
    assert!(BenCode::Array(vec![]).is_well_formed());
    assert!(BenCode::Dict(vec![]).is_well_formed());
    let good = BenCode::Dict(vec![
        (b"a".to_vec(), BenCode::Int(1)),
        (b"b".to_vec(), BenCode::Int(1)),
        (b"".to_vec(), BenCode::Int(1)),
    ]);
    assert!(good.is_well_formed());
    let bad = BenCode::Dict(vec![
        (b"a".to_vec(), BenCode::Int(1)),
        (b"b".to_vec(), BenCode::Int(2)),
        (b"a".to_vec(), BenCode::Int(3)),
    ]);
    assert!(!bad.is_well_formed());
    assert!(BenCode::Array(vec![good.clone(), good.clone()]).is_well_formed());
    assert!(!BenCode::Array(vec![good.clone(), bad.clone()]).is_well_formed());
    assert!(!BenCode::Dict(vec![(b"k".to_vec(), bad.clone())]).is_well_formed());
    assert_ne!(decode_all(&encode(&bad)), Ok(bad));
    assert!(decode_all(b"d1:ai1e1:ai2ee").unwrap().is_well_formed());
}

#[test]
fn only_truncated_input_can_be_mended() {
    assert!(Error::TruncatedInput.is_recoverable());
    assert!(!Error::MalformedBencode.is_recoverable());
    assert!(!Error::OversizedFrame.is_recoverable());
    assert!(!Error::ProtocolViolation.is_recoverable());
    assert!(!Error::IntegrityFailure.is_recoverable());
}

#[test]
fn every_error_says_what_went_wrong() {
    assert_eq!(
        Error::MalformedBencode.describe(),
        "the input is not well-formed bencode, or lacks a required field"
    );
    assert_eq!(
        Error::TruncatedInput.describe(),
        "the input ends before the value is complete"
    );
    assert_eq!(
        Error::OversizedFrame.describe(),
        "the frame is longer than the limit allows"
    );
    assert_eq!(Error::ProtocolViolation.describe(), "the peer violated the protocol");
    assert_eq!(
        Error::IntegrityFailure.describe(),
        "the digest of the content is not the expected one"
    );
}
