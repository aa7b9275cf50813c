use torrent_core::de::decode_all;
use torrent_core::error::Error;
use torrent_core::hashes::{HashStrVisitor, Hashes};
use torrent_core::peer::{PeerAddress, Peers};
use torrent_core::ser::encode;
use torrent_core::torrent::{info_hash_of, Field, Info, Keys, Torrent, TorrentFile};
use torrent_core::tracker::{info_hash_query, TrackerRequest, TrackerResponse};
use torrent_core::value::BenCode;

fn digests(count: u8) -> Vec<u8> {
    (0..count as usize * 20).map(|i| i as u8).collect()
}

fn single_file() -> Vec<u8> {
    let mut file = b"d8:announce31:http://tracker.example/announce4:infod6:lengthi1000e4:name8:test.bin12:piece lengthi256e6:pieces80:".to_vec();
    file.extend_from_slice(&digests(4));
    file.extend_from_slice(b"ee");
    file
}

fn multi_file() -> Vec<u8> {
    let mut file = b"d8:announce17:http://t.example/4:infod5:filesld6:lengthi700e4:pathl1:a5:b.txteed6:lengthi300e4:pathl5:c.bineee4:name3:dir12:piece lengthi512e6:pieces40:".to_vec();
    file.extend_from_slice(&digests(2));
    file.extend_from_slice(b"ee");
    file
}

fn torrent_of(bytes: &[u8]) -> Result<Torrent, Error> {
    Torrent::from_bencode(&decode_all(bytes).unwrap())
}

#[test]
fn digests_are_cut_into_twenty_bytes() {
    let bytes = digests(3);
    let hashes = HashStrVisitor.visit_bytes(&bytes).unwrap();
    assert_eq!(hashes.0.len(), 3);
    assert_eq!(&hashes.0[0][..], &bytes[..20]);
    assert_eq!(&hashes.0[1][..], &bytes[20..40]);
    assert_eq!(&hashes.0[2][..], &bytes[40..]);
    assert_eq!(hashes.to_bytes(), bytes);
    assert_eq!(HashStrVisitor.visit_bytes(&[]), Ok(Hashes(vec![])));
    assert_eq!(
        HashStrVisitor.visit_bytes(&bytes[..59]),
        Err(Error::MalformedBencode)
    );
    assert_eq!(HashStrVisitor.visit_bytes(&[0; 21]), Err(Error::MalformedBencode));
}

#[test]
fn a_single_file_torrent_is_read() {
    let torrent = torrent_of(&single_file()).unwrap();
    assert_eq!(torrent.announce, "http://tracker.example/announce");
    assert_eq!(torrent.info.name, "test.bin");
    assert_eq!(torrent.info.plength, 256);
    assert_eq!(torrent.info.pieces.to_bytes(), digests(4));
    assert_eq!(torrent.info.keys, Keys::SingleFile { length: 1000 });
    assert_eq!(torrent.info.total_length(), 1000);
    assert_eq!(torrent.info.keys.length(), 1000);
}

#[test]
fn a_multi_file_torrent_is_read() {
    let torrent = torrent_of(&multi_file()).unwrap();
    assert_eq!(torrent.info.name, "dir");
    assert_eq!(torrent.info.plength, 512);
    assert_eq!(
        torrent.info.keys,
        Keys::MultiFile {
            files: vec![
                TorrentFile { length: 700, path: vec!["a".to_string(), "b.txt".to_string()] },
                TorrentFile { length: 300, path: vec!["c.bin".to_string()] },
            ]
        }
    );
    assert_eq!(torrent.info.total_length(), 1000);
}

#[test]
fn the_length_of_no_files_is_zero() {
    assert_eq!(Keys::MultiFile { files: vec![] }.length(), 0);
    assert_eq!(Keys::SingleFile { length: 0 }.length(), 0);
}

#[test]
fn a_torrent_is_written_with_its_keys_in_order() {
    let torrent = torrent_of(&single_file()).unwrap();
    assert_eq!(encode(&torrent.to_bencode()), single_file());
    let torrent = torrent_of(&multi_file()).unwrap();
    assert_eq!(encode(&torrent.to_bencode()), multi_file());
    assert_eq!(torrent_of(&encode(&torrent.to_bencode())), Ok(torrent));
}

#[test]
fn keys_in_another_order_and_unknown_keys_are_read() {
    let file = b"d4:infod4:name1:x7:comment2:hi6:pieces0:6:lengthi0e12:piece lengthi1ee8:announce1:ue";
    let torrent = torrent_of(file).unwrap();
    assert_eq!(torrent.announce, "u");
    assert_eq!(torrent.info.keys, Keys::SingleFile { length: 0 });
    assert_eq!(torrent.info.plength, 1);
}

#[test]
fn the_info_hash_is_the_digest_of_the_encoded_info() {
    let torrent = torrent_of(&single_file()).unwrap();
    assert_eq!(
        hex::encode(torrent.info_hash()),
        "e5b8e2638e8e3a9bf043b3c1d13f102c920d2142"
    );
    let mut other = torrent.clone();
    other.info.plength = 257;
    assert_ne!(other.info_hash(), torrent.info_hash());
}

fn info_with(entries: &str) -> Result<Torrent, Error> {
    let file = format!("d8:announce1:u4:infod{}ee", entries);
    torrent_of(file.as_bytes())
}

#[test]
fn a_torrent_without_a_required_field_is_malformed() {
    let whole = "6:lengthi5e4:name1:x12:piece lengthi4e6:pieces0:";
    assert!(info_with(whole).is_ok());
    assert_eq!(
        info_with("4:name1:x12:piece lengthi4e6:pieces0:"),
        Err(Error::MalformedBencode)
    );
    assert_eq!(
        info_with("6:lengthi5e12:piece lengthi4e6:pieces0:"),
        Err(Error::MalformedBencode)
    );
    assert_eq!(
        info_with("6:lengthi5e4:name1:x6:pieces0:"),
        Err(Error::MalformedBencode)
    );
    assert_eq!(
        info_with("6:lengthi5e4:name1:x12:piece lengthi4e"),
        Err(Error::MalformedBencode)
    );
    assert_eq!(
        torrent_of(b"d4:infod6:lengthi5e4:name1:x12:piece lengthi4e6:pieces0:ee"),
        Err(Error::MalformedBencode)
    );
    assert_eq!(torrent_of(b"d8:announce1:ue"), Err(Error::MalformedBencode));
    assert_eq!(torrent_of(b"le"), Err(Error::MalformedBencode));
    assert_eq!(torrent_of(b"i1e"), Err(Error::MalformedBencode));
}

#[test]
fn a_torrent_with_an_ill_typed_field_is_malformed() {
    assert_eq!(
        info_with("6:lengthi5e4:namei1e12:piece lengthi4e6:pieces0:"),
        Err(Error::MalformedBencode)
    );
    assert_eq!(
        info_with("6:length1:54:name1:x12:piece lengthi4e6:pieces0:"),
        Err(Error::MalformedBencode)
    );
    assert_eq!(
        info_with("6:lengthi-5e4:name1:x12:piece lengthi4e6:pieces0:"),
        Err(Error::MalformedBencode)
    );
    assert_eq!(
        info_with("6:lengthi5e4:name1:x12:piece lengthi0e6:pieces0:"),
        Err(Error::MalformedBencode)
    );
    assert_eq!(
        info_with("6:lengthi5e4:name1:x12:piece lengthi4e6:pieces19:0123456789012345678"),
        Err(Error::MalformedBencode)
    );
    assert_eq!(
        info_with("6:lengthi5e4:name1:x12:piece lengthi4e6:piecesi0e"),
        Err(Error::MalformedBencode)
    );
    assert_eq!(
        info_with("5:filesi1e4:name1:x12:piece lengthi4e6:pieces0:"),
        Err(Error::MalformedBencode)
    );
    assert_eq!(
        info_with("5:filesld6:lengthi1e4:pathi1eee4:name1:x12:piece lengthi4e6:pieces0:"),
        Err(Error::MalformedBencode)
    );
    assert_eq!(
        info_with("5:filesld4:pathl1:aeee4:name1:x12:piece lengthi4e6:pieces0:"),
        Err(Error::MalformedBencode)
    );
}

#[test]
fn a_torrent_with_both_a_length_and_files_is_malformed() {
    assert_eq!(
        info_with("5:filesle6:lengthi5e4:name1:x12:piece lengthi4e6:pieces0:"),
        Err(Error::MalformedBencode)
    );
}

#[test]
fn text_that_is_no_utf8_is_malformed() {
    let mut file = b"d8:announce1:u4:infod6:lengthi5e4:name2:".to_vec();
    file.extend_from_slice(&[0xc3, 0x28]);
    file.extend_from_slice(b"12:piece lengthi4e6:pieces0:ee");
    assert_eq!(torrent_of(&file), Err(Error::MalformedBencode));

    let mut file = b"d8:announce1:u4:infod6:lengthi5e4:name2:".to_vec();
    file.extend_from_slice(&[0xc3, 0xa9]);
    file.extend_from_slice(b"12:piece lengthi4e6:pieces0:ee");
    assert_eq!(torrent_of(&file).unwrap().info.name, "\u{e9}");
}

#[test]
fn files_whose_lengths_do_not_add_up_are_malformed() {
    let entries = format!(
        "5:filesld6:lengthi{}e4:pathl1:aeed6:lengthi{}e4:pathl1:beee4:name1:x12:piece lengthi4e6:pieces0:",
        i64::MAX,
        i64::MAX
    );
    if usize::MAX as u128 >= 2 * (i64::MAX as u128) {
        assert!(info_with(&entries).is_ok());
    } else {
        assert_eq!(info_with(&entries), Err(Error::MalformedBencode));
    }
    let entries = format!(
        "5:filesld6:lengthi{}e4:pathl1:aeed6:lengthi{}e4:pathl1:beed6:lengthi2e4:pathl1:ceee4:name1:x12:piece lengthi4e6:pieces0:",
        i64::MAX,
        i64::MAX
    );
    assert_eq!(info_with(&entries), Err(Error::MalformedBencode));
}

#[test]
fn the_first_request_to_the_tracker_asks_for_everything() {
    let torrent = torrent_of(&single_file()).unwrap();
    let request = TrackerRequest::for_torrent(&torrent, "00112233445566778899".to_string());
    assert_eq!(request.info_hash, torrent.info_hash());
    assert_eq!(request.peer_id, "00112233445566778899");
    assert_eq!(request.port, 6881);
    assert_eq!(request.uploaded, 0);
    assert_eq!(request.downloaded, 0);
    assert_eq!(request.left, 1000);
    assert_eq!(request.compact, 1);
}

#[test]
fn the_info_hash_goes_into_the_query_byte_by_byte() {
    let mut digest = [0u8; 20];
    for (i, byte) in digest.iter_mut().enumerate() {
        *byte = (i * 13) as u8;
    }
    digest[19] = 0xff;
    assert_eq!(
        info_hash_query(&digest),
        "&info_hash=%00%0d%1a%27%34%41%4e%5b%68%75%82%8f%9c%a9%b6%c3%d0%dd%ea%ff"
    );
}

#[test]
fn the_answer_of_a_tracker_is_read() {
    let mut answer = b"d8:intervali1800e5:peers12:".to_vec();
    answer.extend_from_slice(&[192, 168, 0, 1, 0x1a, 0xe1, 10, 0, 0, 255, 0, 80]);
    answer.extend_from_slice(b"e");
    let response = TrackerResponse::from_bencode(&decode_all(&answer).unwrap()).unwrap();
    assert_eq!(response.interval, 1800);
    assert_eq!(
        response.peers,
        Peers(vec![
            PeerAddress { ip: [192, 168, 0, 1], port: 6881 },
            PeerAddress { ip: [10, 0, 0, 255], port: 80 },
        ])
    );
}

#[test]
fn an_answer_that_lacks_a_field_is_malformed() {
    let read = |bytes: &[u8]| TrackerResponse::from_bencode(&decode_all(bytes).unwrap());
    assert!(read(b"d8:intervali0e5:peers0:e").is_ok());
    assert_eq!(read(b"d5:peers0:e"), Err(Error::MalformedBencode));
    assert_eq!(read(b"d8:intervali0ee"), Err(Error::MalformedBencode));
    assert_eq!(read(b"d8:intervali-1e5:peers0:e"), Err(Error::MalformedBencode));
    assert_eq!(read(b"d8:interval1:05:peers0:e"), Err(Error::MalformedBencode));
    assert_eq!(read(b"d8:intervali0e5:peers5:abcdee"), Err(Error::MalformedBencode));
    assert_eq!(read(b"d8:intervali0e5:peerslee"), Err(Error::MalformedBencode));
    assert_eq!(read(b"i0e"), Err(Error::MalformedBencode));
}

#[test]
fn an_info_is_written_as_a_dictionary() {
    let info = Info {
        name: "n".to_string(),
        plength: 20,
        pieces: Hashes(vec![[1; 20]]),
        keys: Keys::SingleFile { length: 3 },
    };
    assert_eq!(
        info.to_bencode(),
        BenCode::Dict(vec![
            (b"length".to_vec(), BenCode::Int(3)),
            (b"name".to_vec(), BenCode::String(b"n".to_vec())),
            (b"piece length".to_vec(), BenCode::Int(20)),
            (b"pieces".to_vec(), BenCode::String(vec![1; 20])),
        ])
    );
    assert_eq!(Info::from_bencode(&info.to_bencode()), Ok(info));
    let file = TorrentFile { length: 9, path: vec!["p".to_string(), "q".to_string()] };
    assert_eq!(
        file.to_bencode(),
        BenCode::Dict(vec![
            (b"length".to_vec(), BenCode::Int(9)),
            (
                b"path".to_vec(),
                BenCode::Array(vec![
                    BenCode::String(b"p".to_vec()),
                    BenCode::String(b"q".to_vec())
                ])
            ),
        ])
    );
    assert_eq!(TorrentFile::from_bencode(&file.to_bencode()), Some(file));
}

#[test]
fn lengths_that_cannot_be_written_are_not_valid() {
    let mut info = Info {
        name: "n".to_string(),
        plength: 20,
        pieces: Hashes(vec![]),
        keys: Keys::SingleFile { length: 3 },
    };
    assert!(info.is_valid());
    info.plength = 0;
    assert!(!info.is_valid());
    info.plength = 1;
    assert!(info.is_valid());
    info.keys = Keys::MultiFile {
        files: vec![
            TorrentFile { length: usize::MAX, path: vec![] },
            TorrentFile { length: 1, path: vec![] },
        ],
    };
    assert!(!info.is_valid());
    info.keys = Keys::MultiFile {
        files: vec![
            TorrentFile { length: 5, path: vec![] },
            TorrentFile { length: 6, path: vec![] },
        ],
    };
    assert!(info.is_valid());
    assert!(info.keys.is_valid());
    assert_eq!(info.total_length(), 11);
    assert!(TorrentFile { length: 0, path: vec![] }.is_valid());
    if usize::MAX as u128 > i64::MAX as u128 {
        assert!(!TorrentFile { length: usize::MAX, path: vec![] }.is_valid());
        assert!(!Keys::SingleFile { length: usize::MAX }.is_valid());
        info.plength = usize::MAX;
        assert!(!info.is_valid());
    }
}

#[test]
fn the_info_hash_of_a_file_covers_every_key_of_its_info() {
    let value = decode_all(&single_file()).unwrap();
    let torrent = Torrent::from_bencode(&value).unwrap();
    assert_eq!(info_hash_of(&value), Some(torrent.info_hash()));

    let with_more = decode_all(
        b"d8:announce1:u4:infod6:lengthi5e4:name1:x12:piece lengthi4e6:pieces0:7:privatei1eee",
    )
    .unwrap();
    let torrent = Torrent::from_bencode(&with_more).unwrap();
    assert_eq!(
        hex::encode(info_hash_of(&with_more).unwrap()),
        "0e26e73d55df5bede69d0874e304f4404bec426f"
    );
    assert_ne!(info_hash_of(&with_more), Some(torrent.info_hash()));
    assert_eq!(info_hash_of(&decode_all(b"d8:announce1:ue").unwrap()), None);
    assert_eq!(info_hash_of(&decode_all(b"i1e").unwrap()), None);
}

fn fault_of(entries: &str) -> Option<Field> {
    let file = format!("d8:announce1:u4:infod{}ee", entries);
    Torrent::parse(&decode_all(file.as_bytes()).unwrap()).err()
}

#[test]
fn the_first_field_at_fault_is_named() {
    assert_eq!(fault_of("6:lengthi5e4:name1:x12:piece lengthi4e6:pieces0:"), None);
    assert_eq!(fault_of(""), Some(Field::Name));
    assert_eq!(fault_of("4:namei1e"), Some(Field::Name));
    assert_eq!(fault_of("4:name1:x"), Some(Field::PieceLength));
    assert_eq!(fault_of("4:name1:x12:piece lengthi0e"), Some(Field::PieceLength));
    assert_eq!(fault_of("4:name1:x12:piece length1:4"), Some(Field::PieceLength));
    assert_eq!(fault_of("4:name1:x12:piece lengthi4e"), Some(Field::Pieces));
    assert_eq!(fault_of("4:name1:x12:piece lengthi4e6:pieces1:a"), Some(Field::Pieces));
    assert_eq!(fault_of("4:name1:x12:piece lengthi4e6:pieces0:"), Some(Field::Length));
    assert_eq!(
        fault_of("6:lengthi-1e4:name1:x12:piece lengthi4e6:pieces0:"),
        Some(Field::Length)
    );
    assert_eq!(
        fault_of("5:filesi1e4:name1:x12:piece lengthi4e6:pieces0:"),
        Some(Field::Files)
    );
    assert_eq!(
        fault_of("5:filesle6:lengthi1e4:name1:x12:piece lengthi4e6:pieces0:"),
        Some(Field::Files)
    );
    let parse = |bytes: &[u8]| Torrent::parse(&decode_all(bytes).unwrap()).err();
    assert_eq!(parse(b"de"), Some(Field::Announce));
    assert_eq!(parse(b"d8:announcei1ee"), Some(Field::Announce));
    assert_eq!(parse(b"d8:announce1:ue"), Some(Field::Info));
    assert_eq!(parse(b"d8:announce1:u4:infoi1ee"), Some(Field::Name));
    assert_eq!(parse(b"i1e"), Some(Field::Announce));
    assert_eq!(Info::parse(&BenCode::Int(1)).err(), Some(Field::Name));
}

#[test]
fn fields_have_their_keys() {
    assert_eq!(Field::Announce.name(), b"announce".to_vec());
    assert_eq!(Field::Info.name(), b"info".to_vec());
    assert_eq!(Field::Name.name(), b"name".to_vec());
    assert_eq!(Field::PieceLength.name(), b"piece length".to_vec());
    assert_eq!(Field::Pieces.name(), b"pieces".to_vec());
    assert_eq!(Field::Length.name(), b"length".to_vec());
    assert_eq!(Field::Files.name(), b"files".to_vec());
}
