use bytes::BytesMut;
use torrent_core::common::AsBytes;
use torrent_core::config::Config;
use torrent_core::error::Error;
use torrent_core::peer::{
    Handshake, Message, MessageFramer, MessagePiece, MessageRequest, MessageTag, PeerAddress,
    Peers, PeersVisitor,
};

fn framer() -> MessageFramer {
    MessageFramer::new(Config::standard())
}

fn frame(tag: u8, payload: &[u8]) -> Vec<u8> {
    let mut out = ((payload.len() + 1) as u32).to_be_bytes().to_vec();
    out.push(tag);
    out.extend_from_slice(payload);
    out
}

fn drain(framer: &mut MessageFramer, buf: &mut BytesMut, into: &mut Vec<(MessageTag, Vec<u8>)>) {
    loop {
        match framer.decode(buf) {
            Ok(Some(message)) => into.push((message.tag, message.payload)),
            Ok(None) => return,
            Err(e) => panic!("the stream is well formed, yet: {:?}", e),
        }
    }
}

#[test]
fn tags_have_their_bytes() {
    let tags = [
        MessageTag::Choke,
        MessageTag::Unchoke,
        MessageTag::Interested,
        MessageTag::NotInterested,
        MessageTag::Have,
        MessageTag::Bitfield,
        MessageTag::Request,
        MessageTag::Piece,
        MessageTag::Cancel,
    ];
    for (byte, tag) in tags.iter().enumerate() {
        assert_eq!(MessageTag::try_from(byte as u8), Ok(*tag));
        assert_eq!(tag.to_byte(), byte as u8);
    }
    assert_eq!(MessageTag::try_from(9), Err(Error::ProtocolViolation));
    assert_eq!(MessageTag::try_from(255), Err(Error::ProtocolViolation));
}

#[test]
fn a_message_is_as_long_as_its_tag_and_payload() {
    assert_eq!(Message::new(MessageTag::Choke, vec![]).len(), 1);
    assert_eq!(Message::new(MessageTag::Have, vec![0, 0, 0, 7]).len(), 5);
    let message = Message::new(MessageTag::Bitfield, vec![1, 2, 3]);
    assert_eq!(message.tag, MessageTag::Bitfield);
    assert_eq!(message.payload, vec![1, 2, 3]);
    let copy = message.clone();
    assert_eq!(copy.tag, message.tag);
    assert_eq!(copy.payload, message.payload);
}

#[test]
fn a_whole_frame_is_taken_out() {
    let mut buf = BytesMut::from(&frame(7, &[1, 2, 3])[..]);
    buf.extend_from_slice(&[0, 0]);
    let message = framer().decode(&mut buf).unwrap().unwrap();
    assert_eq!(message.tag, MessageTag::Piece);
    assert_eq!(message.payload, vec![1, 2, 3]);
    assert_eq!(&buf[..], &[0, 0]);
}

#[test]
fn a_frame_without_payload_is_taken_out() {
    let mut buf = BytesMut::from(&[0u8, 0, 0, 1, 1][..]);
    let message = framer().decode(&mut buf).unwrap().unwrap();
    assert_eq!(message.tag, MessageTag::Unchoke);
    assert!(message.payload.is_empty());
    assert!(buf.is_empty());
}

#[test]
fn a_partial_frame_asks_for_more_and_stays() {
    let whole = frame(5, &[0xff, 0xee, 0xdd]);
    for cut in 0..whole.len() {
        let mut buf = BytesMut::from(&whole[..cut]);
        assert!(framer().decode(&mut buf).unwrap().is_none());
        assert_eq!(&buf[..], &whole[..cut]);
    }
}

#[test]
fn a_keep_alive_yields_nothing_and_leaves_the_buffer() {
    let mut buf = BytesMut::from(&[0u8, 0, 0, 0][..]);
    assert!(framer().decode(&mut buf).unwrap().is_none());
    assert!(buf.is_empty());

    let mut buf = BytesMut::from(&[0u8, 0, 0, 0, 0, 0][..]);
    assert!(framer().decode(&mut buf).unwrap().is_none());
    assert_eq!(&buf[..], &[0, 0]);
}

#[test]
fn keep_alives_before_a_frame_are_skipped() {
    let mut bytes = vec![0u8; 8];
    bytes.extend_from_slice(&frame(4, &[0, 0, 0, 9]));
    let mut buf = BytesMut::from(&bytes[..]);
    let message = framer().decode(&mut buf).unwrap().unwrap();
    assert_eq!(message.tag, MessageTag::Have);
    assert_eq!(message.payload, vec![0, 0, 0, 9]);
    assert!(buf.is_empty());
}

#[test]
fn a_length_above_the_limit_is_fatal_whatever_follows() {
    let mut buf = BytesMut::from(&[0u8, 1, 0, 1][..]);
    assert_eq!(framer().decode(&mut buf).unwrap_err(), Error::OversizedFrame);
    assert_eq!(&buf[..], &[0, 1, 0, 1]);

    let mut bytes = vec![0u8, 1, 0, 1];
    bytes.extend_from_slice(&vec![7u8; 70000]);
    let mut buf = BytesMut::from(&bytes[..]);
    assert_eq!(framer().decode(&mut buf).unwrap_err(), Error::OversizedFrame);
    assert_eq!(buf.len(), 70004);

    let mut buf = BytesMut::from(&[0xffu8, 0xff, 0xff, 0xff, 0][..]);
    assert_eq!(framer().decode(&mut buf).unwrap_err(), Error::OversizedFrame);
}

#[test]
fn a_length_at_the_limit_is_taken() {
    let payload = vec![3u8; 65535];
    let mut buf = BytesMut::from(&frame(7, &payload)[..]);
    let message = framer().decode(&mut buf).unwrap().unwrap();
    assert_eq!(message.payload.len(), 65535);
    assert!(buf.is_empty());
}

#[test]
fn an_unknown_tag_is_fatal_once_the_frame_is_there() {
    let mut buf = BytesMut::from(&[0u8, 0, 0, 2, 9][..]);
    assert!(framer().decode(&mut buf).unwrap().is_none());
    buf.extend_from_slice(&[1, 5, 5]);
    assert_eq!(framer().decode(&mut buf).unwrap_err(), Error::ProtocolViolation);
    assert_eq!(&buf[..], &[5, 5]);
}

#[test]
fn another_limit_can_be_set() {
    let mut config = Config::standard();
    config.max_inbound_frame = 4;
    assert!(config.is_valid());
    let mut small = MessageFramer::new(config);
    let mut buf = BytesMut::from(&frame(7, &[1, 2, 3])[..]);
    assert!(small.decode(&mut buf).unwrap().is_some());
    let mut buf = BytesMut::from(&frame(7, &[1, 2, 3, 4])[..]);
    assert_eq!(small.decode(&mut buf).unwrap_err(), Error::OversizedFrame);

    config.max_outbound_frame = 2;
    let mut small = MessageFramer::new(config);
    let mut out = BytesMut::new();
    assert_eq!(small.encode(Message::new(MessageTag::Have, vec![1]), &mut out), Ok(()));
    assert_eq!(
        small.encode(Message::new(MessageTag::Have, vec![1, 2]), &mut out),
        Err(Error::OversizedFrame)
    );
    assert_eq!(&out[..], &[0, 0, 0, 2, 4, 1]);
}

#[test]
fn limits_above_the_ceiling_are_not_valid() {
    let mut config = Config::standard();
    assert!(config.is_valid());
    config.max_inbound_frame = 0x4000_0001;
    assert!(!config.is_valid());
    let mut config = Config::standard();
    config.block_size = 0;
    assert!(!config.is_valid());
    assert_eq!(&Config::standard().peer_id, b"00112233445566778899");
    assert_eq!(Config::standard().block_size, 1 << 14);
    assert_eq!(Config::standard().max_inbound_frame, 1 << 16);
    assert_eq!(Config::standard().max_outbound_frame, 8 * 1024 * 1024);
}

#[test]
fn a_message_is_written_as_length_tag_and_payload() {
    let mut out = BytesMut::from(&[9u8][..]);
    let message = Message::new(MessageTag::Request, vec![0, 0, 0, 1, 0, 0, 0, 2, 0, 0, 0, 3]);
    assert_eq!(framer().encode(message, &mut out), Ok(()));
    assert_eq!(
        &out[..],
        &[9, 0, 0, 0, 13, 6, 0, 0, 0, 1, 0, 0, 0, 2, 0, 0, 0, 3]
    );
    let mut out = BytesMut::new();
    assert_eq!(
        framer().encode(Message::new(MessageTag::Interested, vec![]), &mut out),
        Ok(())
    );
    assert_eq!(&out[..], &[0, 0, 0, 1, 2]);
}

#[test]
fn a_long_message_is_written_with_its_length_in_four_bytes() {
    let mut out = BytesMut::new();
    let payload = vec![0xabu8; 0x01_02_03];
    assert_eq!(
        framer().encode(Message::new(MessageTag::Piece, payload), &mut out),
        Ok(())
    );
    assert_eq!(out.len(), 4 + 1 + 0x01_02_03);
    assert_eq!(&out[..5], &[0, 1, 2, 4, 7]);
}

#[test]
fn a_message_above_the_limit_is_not_written() {
    let mut out = BytesMut::from(&[1u8, 2][..]);
    let payload = vec![0u8; 8 * 1024 * 1024];
    assert_eq!(
        framer().encode(Message::new(MessageTag::Piece, payload), &mut out),
        Err(Error::OversizedFrame)
    );
    assert_eq!(&out[..], &[1, 2]);
    let payload = vec![0u8; 8 * 1024 * 1024 - 1];
    assert_eq!(
        framer().encode(Message::new(MessageTag::Piece, payload), &mut out),
        Ok(())
    );
    assert_eq!(out.len(), 2 + 4 + 8 * 1024 * 1024);
}

#[test]
fn what_is_written_is_read_back() {
    let mut f = framer();
    let mut wire = BytesMut::new();
    let sent = vec![
        (MessageTag::Bitfield, vec![0xf0u8]),
        (MessageTag::Unchoke, vec![]),
        (MessageTag::Piece, vec![0, 0, 0, 0, 0, 0, 0, 0, 1, 2, 3]),
    ];
    for (tag, payload) in &sent {
        f.encode(Message::new(*tag, payload.clone()), &mut wire).unwrap();
    }
    let mut got = Vec::new();
    drain(&mut f, &mut wire, &mut got);
    assert_eq!(got, sent);
    assert!(wire.is_empty());
}

#[test]
fn byte_by_byte_gives_what_the_whole_stream_gives() {
    let mut stream = Vec::new();
    stream.extend_from_slice(&frame(5, &[0xaa, 0xbb]));
    stream.extend_from_slice(&[0, 0, 0, 0]);
    stream.extend_from_slice(&frame(1, &[]));
    stream.extend_from_slice(&[0, 0, 0, 0, 0, 0, 0, 0]);
    stream.extend_from_slice(&frame(7, &[0, 0, 0, 1, 0, 0, 64, 0, 9, 8, 7, 6, 5]));
    stream.extend_from_slice(&frame(0, &[]));
    stream.extend_from_slice(&[0, 0, 0]);

    let mut at_once = Vec::new();
    let mut whole = BytesMut::from(&stream[..]);
    drain(&mut framer(), &mut whole, &mut at_once);
    assert_eq!(at_once.len(), 4);
    assert_eq!(&whole[..], &[0, 0, 0]);

    let mut one_by_one = Vec::new();
    let mut buf = BytesMut::new();
    let mut f = framer();
    for byte in &stream {
        buf.extend_from_slice(&[*byte]);
        drain(&mut f, &mut buf, &mut one_by_one);
    }
    assert_eq!(one_by_one, at_once);
    assert_eq!(&buf[..], &whole[..]);

    for size in [2usize, 3, 5, 7, 11] {
        let mut in_chunks = Vec::new();
        let mut buf = BytesMut::new();
        for chunk in stream.chunks(size) {
            buf.extend_from_slice(chunk);
            drain(&mut f, &mut buf, &mut in_chunks);
        }
        assert_eq!(in_chunks, at_once);
        assert_eq!(&buf[..], &whole[..]);
    }
}

#[test]
fn a_request_is_twelve_bytes_most_significant_first() {
    let request = MessageRequest::new(1, 0x4000, 0x0102_0304);
    assert_eq!(request.index(), 1);
    assert_eq!(request.begin(), 0x4000);
    assert_eq!(request.length(), 0x0102_0304);
    assert_eq!(
        request.as_bytes(),
        vec![0, 0, 0, 1, 0, 0, 0x40, 0, 1, 2, 3, 4]
    );
    assert_eq!(
        MessageRequest::from_bytes(&[0xff, 0xff, 0xff, 0xff, 0, 0, 0, 0, 0, 0, 1, 0]),
        Some(MessageRequest::new(u32::MAX, 0, 256))
    );
    assert_eq!(MessageRequest::from_bytes(&[0; 11]), None);
    assert_eq!(MessageRequest::from_bytes(&[0; 13]), None);
}

#[test]
fn a_piece_payload_is_taken_apart() {
    let piece = MessagePiece::try_from_bytes(&[0, 0, 0, 2, 0, 0, 0x80, 0, 7, 8, 9]).unwrap();
    assert_eq!(piece.index(), 2);
    assert_eq!(piece.begin(), 0x8000);
    assert_eq!(piece.block(), &[7, 8, 9]);
    let piece = MessagePiece::try_from_bytes(&[0, 0, 0, 0, 0, 0, 0, 0]).unwrap();
    assert_eq!(piece.block(), &[] as &[u8]);
    assert_eq!(
        MessagePiece::try_from_bytes(&[0, 0, 0, 0, 0, 0, 0]),
        Err(Error::ProtocolViolation)
    );
    assert_eq!(MessagePiece::try_from_bytes(&[]), Err(Error::ProtocolViolation));
    let piece = MessagePiece::new(3, 16384, vec![1, 2]);
    assert_eq!(piece.to_payload(), vec![0, 0, 0, 3, 0, 0, 0x40, 0, 1, 2]);
    assert_eq!(MessagePiece::try_from_bytes(&piece.to_payload()), Ok(piece));
}

#[test]
fn a_handshake_is_sixty_eight_bytes() {
    let handshake = Handshake::new([0xab; 20], *b"00112233445566778899");
    assert_eq!(handshake.length, 19);
    assert_eq!(&handshake.bittorrent, b"BitTorrent protocol");
    assert_eq!(handshake.reserved, [0; 8]);
    assert_eq!(handshake.info_hash, [0xab; 20]);
    assert_eq!(&handshake.peer_id, b"00112233445566778899");
    let bytes = handshake.as_bytes();
    assert_eq!(bytes.len(), 68);
    assert_eq!(bytes[0], 19);
    assert_eq!(&bytes[1..20], b"BitTorrent protocol");
    assert_eq!(&bytes[20..28], &[0; 8]);
    assert_eq!(&bytes[28..48], &[0xab; 20]);
    assert_eq!(&bytes[48..68], b"00112233445566778899");
    assert_eq!(Handshake::from_bytes(&bytes), Some(handshake));
    assert_eq!(Handshake::from_bytes(&bytes[..67]), None);
    assert_eq!(Handshake::from_bytes(&[0; 69]), None);
}

#[test]
fn a_handshake_is_checked_against_the_digest() {
    let ours = Handshake::new([7; 20], [1; 20]);
    let mut theirs = Handshake::new([7; 20], [2; 20]);
    assert_eq!(ours.check(&[7; 20]), Ok(()));
    assert_eq!(theirs.check(&[7; 20]), Ok(()));
    theirs.reserved = [0, 0, 0, 0, 0, 0x10, 0, 4];
    assert_eq!(theirs.check(&[7; 20]), Ok(()));
    assert_eq!(theirs.check(&[8; 20]), Err(Error::ProtocolViolation));
    let mut last_byte = [7u8; 20];
    last_byte[19] = 6;
    assert_eq!(theirs.check(&last_byte), Err(Error::ProtocolViolation));
    theirs.length = 18;
    assert_eq!(theirs.check(&[7; 20]), Err(Error::ProtocolViolation));
    theirs.length = 19;
    theirs.bittorrent[0] = b'b';
    assert_eq!(theirs.check(&[7; 20]), Err(Error::ProtocolViolation));
}

#[test]
fn a_compact_list_names_a_peer_for_each_six_bytes() {
    let list = [192, 168, 0, 1, 0x1a, 0xe1, 10, 0, 0, 255, 0, 80];
    let peers = PeersVisitor.visit_bytes(&list).unwrap();
    assert_eq!(
        peers,
        Peers(vec![
            PeerAddress { ip: [192, 168, 0, 1], port: 6881 },
            PeerAddress { ip: [10, 0, 0, 255], port: 80 },
        ])
    );
    assert_eq!(peers.to_compact(), list.to_vec());
    assert_eq!(PeersVisitor.visit_bytes(&[]), Ok(Peers(vec![])));
    assert_eq!(
        PeersVisitor.visit_bytes(&list[..11]),
        Err(Error::MalformedBencode)
    );
    assert_eq!(PeersVisitor.visit_bytes(&[1]), Err(Error::MalformedBencode));
}

#[test]
fn draining_takes_every_message_that_is_there() {
    let mut stream = Vec::new();
    stream.extend_from_slice(&frame(5, &[0xaa]));
    stream.extend_from_slice(&[0, 0, 0, 0]);
    stream.extend_from_slice(&frame(1, &[]));
    stream.extend_from_slice(&frame(7, &[1, 2, 3])[..6]);
    let mut buf = BytesMut::from(&stream[..]);
    let (messages, failure) = framer().drain(&mut buf);
    assert_eq!(
        messages,
        vec![
            Message::new(MessageTag::Bitfield, vec![0xaa]),
            Message::new(MessageTag::Unchoke, vec![]),
        ]
    );
    assert_eq!(failure, None);
    assert_eq!(&buf[..], &frame(7, &[1, 2, 3])[..6]);

    let (messages, failure) = framer().drain(&mut buf);
    assert!(messages.is_empty());
    assert_eq!(failure, None);
    buf.extend_from_slice(&frame(7, &[1, 2, 3])[6..]);
    let (messages, failure) = framer().drain(&mut buf);
    assert_eq!(messages, vec![Message::new(MessageTag::Piece, vec![1, 2, 3])]);
    assert_eq!(failure, None);
    assert!(buf.is_empty());
}

#[test]
fn draining_stops_at_what_can_be_no_frame() {
    let mut stream = frame(0, &[]);
    stream.extend_from_slice(&frame(200, &[1]));
    stream.extend_from_slice(&frame(1, &[]));
    let mut buf = BytesMut::from(&stream[..]);
    let (messages, failure) = framer().drain(&mut buf);
    assert_eq!(messages, vec![Message::new(MessageTag::Choke, vec![])]);
    assert_eq!(failure, Some(Error::ProtocolViolation));
    assert_eq!(&buf[..], &frame(1, &[])[..]);

    let mut stream = frame(2, &[]);
    stream.extend_from_slice(&[0, 1, 0, 1, 9, 9]);
    let mut buf = BytesMut::from(&stream[..]);
    let (messages, failure) = framer().drain(&mut buf);
    assert_eq!(messages, vec![Message::new(MessageTag::Interested, vec![])]);
    assert_eq!(failure, Some(Error::OversizedFrame));
    assert_eq!(&buf[..], &[0, 1, 0, 1, 9, 9]);
}

#[test]
fn draining_byte_by_byte_gives_what_draining_at_once_gives() {
    let mut stream = Vec::new();
    for round in 0..20u8 {
        stream.extend_from_slice(&frame(round % 9, &vec![round; round as usize * 3]));
        if round % 4 == 0 {
            stream.extend_from_slice(&[0, 0, 0, 0]);
        }
    }
    stream.extend_from_slice(&[0, 0]);
    let mut whole = BytesMut::from(&stream[..]);
    let (at_once, failure) = framer().drain(&mut whole);
    assert_eq!(failure, None);
    assert_eq!(at_once.len(), 20);

    let mut f = framer();
    let mut buf = BytesMut::new();
    let mut one_by_one = Vec::new();
    for byte in &stream {
        buf.extend_from_slice(&[*byte]);
        let (mut messages, failure) = f.drain(&mut buf);
        assert_eq!(failure, None);
        one_by_one.append(&mut messages);
    }
    assert_eq!(one_by_one, at_once);
    assert_eq!(&buf[..], &whole[..]);
}
