//! The peer-wire protocol: the messages, their framing over a byte stream,
//! the handshake record and the compact list of peers.

use crate::buffer::{
    buffer_advance, buffer_bytes, buffer_extend, buffer_put_u8, buffer_reserve, buffered,
};
use crate::common::{
    array_at, arrays_equal, be16, be32, be32_value, get_be16, get_be32, lemma_be16_value_of_be16,
    lemma_be32_value_of_be32, put_be16, put_be32, AsBytes,
};
use crate::ser::append_bytes;
use crate::config::Config;
use crate::error::Error;
use bytes::BytesMut;
use vstd::prelude::*;
use vstd::slice::{slice_subrange, slice_to_vec};

verus! {

/// The kind of a message.
#[derive(Debug, Clone, Copy, PartialEq, Eq, Structural)]
pub enum MessageTag {
    Choke,
    Unchoke,
    Interested,
    NotInterested,
    Have,
    Bitfield,
    Request,
    Piece,
    Cancel,
}

/// The kind that the byte `b` stands for on the wire, if any.
pub open spec fn tag_of_byte(b: u8) -> Option<MessageTag> {
    if b == 0 {
        Some(MessageTag::Choke)
    } else if b == 1 {
        Some(MessageTag::Unchoke)
    } else if b == 2 {
        Some(MessageTag::Interested)
    } else if b == 3 {
        Some(MessageTag::NotInterested)
    } else if b == 4 {
        Some(MessageTag::Have)
    } else if b == 5 {
        Some(MessageTag::Bitfield)
    } else if b == 6 {
        Some(MessageTag::Request)
    } else if b == 7 {
        Some(MessageTag::Piece)
    } else if b == 8 {
        Some(MessageTag::Cancel)
    } else {
        None
    }
}

/// The byte that stands for the kind `tag` on the wire.
pub open spec fn byte_of_tag(tag: MessageTag) -> u8 {
    match tag {
        MessageTag::Choke => 0,
        MessageTag::Unchoke => 1,
        MessageTag::Interested => 2,
        MessageTag::NotInterested => 3,
        MessageTag::Have => 4,
        MessageTag::Bitfield => 5,
        MessageTag::Request => 6,
        MessageTag::Piece => 7,
        MessageTag::Cancel => 8,
    }
}

/// Every kind is read back from its byte, and every byte that stands for a
/// kind is the byte of that kind.
pub proof fn lemma_tag_bytes(tag: MessageTag, b: u8)
    ensures
        tag_of_byte(byte_of_tag(tag)) == Some(tag),
        tag_of_byte(b) matches Some(t) ==> byte_of_tag(t) == b,
        tag_of_byte(b) is Some <==> b <= 8,
{
}

impl MessageTag {
    /// The kind that `value` stands for. A byte above 8 stands for none, which
    /// is a violation of the protocol.
    pub fn try_from(value: u8) -> (r: Result<MessageTag, Error>)
        ensures
            match tag_of_byte(value) {
                Some(tag) => r == Ok::<MessageTag, Error>(tag),
                None => r == Err::<MessageTag, Error>(Error::ProtocolViolation),
            },
    {
        match value {
            0 => Ok(MessageTag::Choke),
            1 => Ok(MessageTag::Unchoke),
            2 => Ok(MessageTag::Interested),
            3 => Ok(MessageTag::NotInterested),
            4 => Ok(MessageTag::Have),
            5 => Ok(MessageTag::Bitfield),
            6 => Ok(MessageTag::Request),
            7 => Ok(MessageTag::Piece),
            8 => Ok(MessageTag::Cancel),
            _ => Err(Error::ProtocolViolation),
        }
    }

    /// The byte that stands for this kind on the wire.
    pub fn to_byte(self) -> (b: u8)
        ensures
            b == byte_of_tag(self),
    {
        match self {
            MessageTag::Choke => 0,
            MessageTag::Unchoke => 1,
            MessageTag::Interested => 2,
            MessageTag::NotInterested => 3,
            MessageTag::Have => 4,
            MessageTag::Bitfield => 5,
            MessageTag::Request => 6,
            MessageTag::Piece => 7,
            MessageTag::Cancel => 8,
        }
    }
}

/// The mathematical model of a message.
pub struct MessageView {
    pub tag: MessageTag,
    pub payload: Seq<u8>,
}

/// A message: its kind and the bytes that go with it.
#[derive(Debug, PartialEq, Eq)]
pub struct Message {
    pub tag: MessageTag,
    pub payload: Vec<u8>,
}

impl View for Message {
    type V = MessageView;

    open spec fn view(&self) -> MessageView {
        MessageView { tag: self.tag, payload: self.payload@ }
    }
}

impl Clone for Message {
    fn clone(&self) -> (copy: Self)
        ensures
            copy@ == self@,
    {
        Message { tag: self.tag, payload: slice_to_vec(self.payload.as_slice()) }
    }
}

impl Message {
    pub fn new(tag: MessageTag, payload: Vec<u8>) -> (message: Self)
        ensures
            message.tag == tag,
            message.payload == payload,
    {
        Self { tag, payload }
    }

    /// The length of the message on the wire, without the length prefix: one
    /// byte for the kind, and the payload.
    pub fn len(&self) -> (n: usize)
        requires
            self.payload@.len() < usize::MAX,
        ensures
            n == 1 + self.payload@.len(),
    {
        1 + self.payload.len()
    }
}

/// The frame that carries the message `m`: the length of what follows in four
/// bytes, most significant first, the byte of the kind, and the payload.
pub open spec fn frame_of(m: MessageView) -> Seq<u8>
    recommends
        1 + m.payload.len() <= u32::MAX,
{
    be32((1 + m.payload.len()) as u32) + seq![byte_of_tag(m.tag)] + m.payload
}

/// How one attempt to take a message from a buffer ends.
pub enum Decoded {
    /// The buffer does not hold a whole frame yet.
    NeedMore,
    /// The buffer started with the frame of this message.
    Frame(MessageView),
    /// The buffer starts with what can be no frame.
    Failed(Error),
}

/// What becomes of an attempt to take a message from a buffer that holds
/// `buf`: how it ends, and what the buffer holds afterwards.
///
/// A frame of length zero keeps the connection alive and carries nothing: it
/// is dropped and the attempt goes on behind it. A length above `limit` fails
/// at once, whatever follows, and leaves the buffer as it is. A frame that has
/// not wholly arrived leaves the buffer as it is. A whole frame is taken out
/// of the buffer; where its kind is unknown, the attempt fails after that.
pub open spec fn decode_frame(limit: nat, buf: Seq<u8>) -> (Decoded, Seq<u8>)
    decreases buf.len(),
{
    if buf.len() < 4 {
        (Decoded::NeedMore, buf)
    } else {
        let length = be32_value(buf) as int;
        if length == 0 {
            decode_frame(limit, buf.skip(4))
        } else if length > limit {
            (Decoded::Failed(Error::OversizedFrame), buf)
        } else if buf.len() < 4 + length {
            (Decoded::NeedMore, buf)
        } else {
            let rest = buf.skip(4 + length);
            match tag_of_byte(buf[4]) {
                Some(tag) => (
                    Decoded::Frame(MessageView { tag, payload: buf.subrange(5, 4 + length) }),
                    rest,
                ),
                None => (Decoded::Failed(Error::ProtocolViolation), rest),
            }
        }
    }
}

/// Whether `r`, what a decoder handed back, is the outcome `expected`.
pub open spec fn decoder_gave(r: Result<Option<Message>, Error>, expected: Decoded) -> bool {
    match expected {
        Decoded::NeedMore => r matches Ok(None),
        Decoded::Frame(m) => r matches Ok(Some(message)) && message@ == m,
        Decoded::Failed(e) => r matches Err(x) && x == e,
    }
}

/// Turns a stream of bytes into messages, and messages into bytes.
#[derive(Debug, Clone, Copy)]
pub struct MessageFramer {
    /// The limits on the frames that are taken and given.
    pub config: Config,
}

impl MessageFramer {
    /// A framer under the limits of `config`.
    pub fn new(config: Config) -> (framer: Self)
        ensures
            framer.config == config,
    {
        MessageFramer { config }
    }

    /// Takes the next message out of `src`, if `src` holds one.
    ///
    /// `Ok(None)` asks for more bytes; it is no error. The bytes of a frame
    /// leave `src` only once the whole frame is there.
    pub fn decode(&mut self, src: &mut BytesMut) -> (r: Result<Option<Message>, Error>)
        requires
            old(self).config.wf(),
        ensures
            *final(self) == *old(self),
            decoder_gave(
                r,
                decode_frame(old(self).config.max_inbound_frame as nat, buffered(*old(src))).0,
            ),
            buffered(*final(src)) == decode_frame(
                old(self).config.max_inbound_frame as nat,
                buffered(*old(src)),
            ).1,
    {
        let limit: u32 = self.config.max_inbound_frame;
        loop
            invariant
                *self == *old(self),
                limit == self.config.max_inbound_frame,
                self.config.wf(),
                decode_frame(limit as nat, buffered(*old(src))) == decode_frame(
                    limit as nat,
                    buffered(*src),
                ),
            decreases buffered(*src).len(),
        {
            let bytes = buffer_bytes(src);
            let held: usize = bytes.len();
            if held < 4 {
                return Ok(None);
            }
            let length: u32 = get_be32(bytes, 0);
            if length == 0 {
                buffer_advance(src, 4);
                continue ;
            }
            if length > limit {
                return Err(Error::OversizedFrame);
            }
            let needed: usize = length as usize;
            if held - 4 < needed {
                buffer_reserve(src, needed - (held - 4));
                return Ok(None);
            }
            let tag = bytes[4];
            let payload = slice_to_vec(slice_subrange(bytes, 5, 4 + needed));
            buffer_advance(src, 4 + needed);
            return match MessageTag::try_from(tag) {
                Ok(tag) => Ok(Some(Message { tag, payload })),
                Err(e) => Err(e),
            };
        }
    }

    /// Appends the frame of `item` to `dst`, unless the frame would be longer
    /// than the limit on outgoing frames.
    pub fn encode(&mut self, item: Message, dst: &mut BytesMut) -> (r: Result<(), Error>)
        requires
            old(self).config.wf(),
            1 + item.payload@.len() <= old(self).config.max_outbound_frame ==> buffered(
                *old(dst),
            ).len() + 5 + item.payload@.len() <= isize::MAX,
        ensures
            *final(self) == *old(self),
            1 + item.payload@.len() <= old(self).config.max_outbound_frame ==> r is Ok && buffered(
                *final(dst),
            ) == buffered(*old(dst)) + frame_of(item@),
            1 + item.payload@.len() > old(self).config.max_outbound_frame ==> r == Err::<(), Error>(
                Error::OversizedFrame,
            ) && buffered(*final(dst)) == buffered(*old(dst)),
    {
        let limit: usize = self.config.max_outbound_frame as usize;
        if item.payload.len() >= limit {
            return Err(Error::OversizedFrame);
        }
        let length: usize = item.len();
        let mut prefix: Vec<u8> = Vec::new();
        put_be32(length as u32, &mut prefix);
        buffer_reserve(dst, 4 + length);
        buffer_extend(dst, prefix.as_slice());
        buffer_put_u8(dst, item.tag.to_byte());
        buffer_extend(dst, item.payload.as_slice());
        Ok(())
    }
}

/// The payload of a request for a block: three numbers of four bytes each.
#[derive(Debug, Clone, Copy, PartialEq, Eq)]
pub struct MessageRequest {
    index: u32,
    begin: u32,
    length: u32,
}

impl MessageRequest {
    /// The index of the piece that the block belongs to.
    pub closed spec fn index_spec(&self) -> u32 {
        self.index
    }

    /// The offset of the block in its piece.
    pub closed spec fn begin_spec(&self) -> u32 {
        self.begin
    }

    /// The length of the block.
    pub closed spec fn length_spec(&self) -> u32 {
        self.length
    }

    pub fn new(index: u32, begin: u32, length: u32) -> (request: Self)
        ensures
            request.index_spec() == index,
            request.begin_spec() == begin,
            request.length_spec() == length,
    {
        Self { index, begin, length }
    }

    pub fn index(&self) -> (index: u32)
        ensures
            index == self.index_spec(),
    {
        self.index
    }

    pub fn begin(&self) -> (begin: u32)
        ensures
            begin == self.begin_spec(),
    {
        self.begin
    }

    pub fn length(&self) -> (length: u32)
        ensures
            length == self.length_spec(),
    {
        self.length
    }
}

impl AsBytes for MessageRequest {
    open spec fn byte_image(&self) -> Seq<u8> {
        be32(self.index_spec()) + be32(self.begin_spec()) + be32(self.length_spec())
    }

    open spec fn mem_size() -> nat {
        12
    }

    fn as_bytes(&self) -> (bytes: Vec<u8>) {
        let mut bytes: Vec<u8> = Vec::new();
        put_be32(self.index, &mut bytes);
        put_be32(self.begin, &mut bytes);
        put_be32(self.length, &mut bytes);
        bytes
    }

    fn from_bytes(bytes: &[u8]) -> (record: Option<Self>) {
        if bytes.len() != 12 {
            return None;
        }
        let record = MessageRequest {
            index: get_be32(bytes, 0),
            begin: get_be32(bytes, 4),
            length: get_be32(bytes, 8),
        };
        Some(record)
    }
}

/// The payload of a message that carries a block: the index of the piece, the
/// offset of the block in it, four bytes each, and the block.
pub open spec fn piece_payload(index: u32, begin: u32, block: Seq<u8>) -> Seq<u8> {
    be32(index) + be32(begin) + block
}

/// The payload of a message that carries a block, taken apart.
#[derive(Debug, PartialEq, Eq)]
pub struct MessagePiece {
    index: u32,
    begin: u32,
    block: Vec<u8>,
}

impl MessagePiece {
    /// The index of the piece that the block belongs to.
    pub closed spec fn index_spec(&self) -> u32 {
        self.index
    }

    /// The offset of the block in its piece.
    pub closed spec fn begin_spec(&self) -> u32 {
        self.begin
    }

    /// The bytes of the block.
    pub closed spec fn block_spec(&self) -> Seq<u8> {
        self.block@
    }

    pub fn new(index: u32, begin: u32, block: Vec<u8>) -> (piece: Self)
        ensures
            piece.index_spec() == index,
            piece.begin_spec() == begin,
            piece.block_spec() == block@,
    {
        Self { index, begin, block }
    }

    pub fn index(&self) -> (index: u32)
        ensures
            index == self.index_spec(),
    {
        self.index
    }

    pub fn begin(&self) -> (begin: u32)
        ensures
            begin == self.begin_spec(),
    {
        self.begin
    }

    pub fn block(&self) -> (block: &[u8])
        ensures
            block@ == self.block_spec(),
    {
        self.block.as_slice()
    }

    /// Takes a payload apart: the first four bytes are the index, the next
    /// four the offset, and the rest is the block. A payload of fewer than
    /// eight bytes is a violation of the protocol.
    pub fn try_from_bytes(data: &[u8]) -> (r: Result<Self, Error>)
        ensures
            data@.len() < 8 ==> (r matches Err(e) && e == Error::ProtocolViolation),
            data@.len() >= 8 ==> (r matches Ok(piece) && piece.index_spec() == be32_value(data@)
                && piece.begin_spec() == be32_value(data@.skip(4)) && piece.block_spec()
                == data@.skip(8) && piece_payload(
                piece.index_spec(),
                piece.begin_spec(),
                piece.block_spec(),
            ) == data@),
    {
        if data.len() < 8 {
            return Err(Error::ProtocolViolation);
        }
        let index = get_be32(data, 0);
        let begin = get_be32(data, 4);
        let block = slice_to_vec(slice_subrange(data, 8, data.len()));
        Ok(MessagePiece { index, begin, block })
    }

    /// The payload that carries this block.
    pub fn to_payload(&self) -> (payload: Vec<u8>)
        ensures
            payload@ == piece_payload(self.index_spec(), self.begin_spec(), self.block_spec()),
    {
        let mut payload: Vec<u8> = Vec::new();
        put_be32(self.index, &mut payload);
        put_be32(self.begin, &mut payload);
        append_bytes(&mut payload, self.block.as_slice());
        payload
    }
}

/// The name of the protocol as the handshake carries it: the nineteen bytes
/// of the text `BitTorrent protocol`.
pub open spec fn protocol_name() -> Seq<u8> {
    seq![
        66u8, 105u8, 116u8, 84u8, 111u8, 114u8, 114u8, 101u8, 110u8, 116u8,
        32u8, 112u8, 114u8, 111u8, 116u8, 111u8, 99u8, 111u8, 108u8,
    ]
}

/// The record that both sides send when a connection opens: 68 bytes.
#[derive(Debug, Clone, Copy, PartialEq, Eq)]
pub struct Handshake {
    /// The length of the protocol name, which is 19.
    pub length: u8,
    /// The protocol name.
    pub bittorrent: [u8; 19],
    /// Eight reserved bytes, which a client that knows no extension sets to
    /// zero.
    pub reserved: [u8; 8],
    /// The SHA-1 digest of the info dictionary of the torrent.
    pub info_hash: [u8; 20],
    /// The identifier of the sender.
    pub peer_id: [u8; 20],
}

impl Handshake {
    /// Whether this record, as a peer sent it, opens a connection for the
    /// torrent with the digest `info_hash`: the length is 19, the protocol
    /// name is the expected one, and the digest is the same.
    pub open spec fn valid_for(&self, info_hash: Seq<u8>) -> bool {
        &&& self.length == 19
        &&& self.bittorrent@ == protocol_name()
        &&& self.info_hash@ == info_hash
    }

    /// The record that this client sends for the torrent with the digest
    /// `info_hash`.
    pub fn new(info_hash: [u8; 20], peer_id: [u8; 20]) -> (handshake: Self)
        ensures
            handshake.length == 19,
            handshake.bittorrent@ == protocol_name(),
            handshake.reserved@ == Seq::new(8, |i: int| 0u8),
            handshake.info_hash == info_hash,
            handshake.peer_id == peer_id,
            handshake.valid_for(info_hash@),
    {
        let bittorrent: [u8; 19] = [
            66, 105, 116, 84, 111, 114, 114, 101, 110, 116, 32, 112, 114, 111, 116, 111, 99, 111,
            108,
        ];
        let reserved: [u8; 8] = [0u8; 8];
        Self { length: 19, bittorrent, reserved, info_hash, peer_id }
    }

    /// Checks the record that a peer sent back against the digest of the
    /// torrent. Any mismatch is a violation of the protocol.
    pub fn check(&self, info_hash: &[u8; 20]) -> (r: Result<(), Error>)
        ensures
            self.valid_for(info_hash@) ==> r is Ok,
            !self.valid_for(info_hash@) ==> (r matches Err(e) && e == Error::ProtocolViolation),
    {
        let expected: [u8; 19] = [
            66, 105, 116, 84, 111, 114, 114, 101, 110, 116, 32, 112, 114, 111, 116, 111, 99, 111,
            108,
        ];
        if self.length == 19 && arrays_equal(&self.bittorrent, &expected) && arrays_equal(
            &self.info_hash,
            info_hash,
        ) {
            Ok(())
        } else {
            Err(Error::ProtocolViolation)
        }
    }
}

impl AsBytes for Handshake {
    open spec fn byte_image(&self) -> Seq<u8> {
        seq![self.length] + self.bittorrent@ + self.reserved@ + self.info_hash@ + self.peer_id@
    }

    open spec fn mem_size() -> nat {
        68
    }

    fn as_bytes(&self) -> (bytes: Vec<u8>) {
        let mut bytes: Vec<u8> = Vec::new();
        bytes.push(self.length);
        append_bytes(&mut bytes, self.bittorrent.as_slice());
        append_bytes(&mut bytes, self.reserved.as_slice());
        append_bytes(&mut bytes, self.info_hash.as_slice());
        append_bytes(&mut bytes, self.peer_id.as_slice());
        bytes
    }

    fn from_bytes(bytes: &[u8]) -> (record: Option<Self>) {
        if bytes.len() != 68 {
            return None;
        }
        let record = Handshake {
            length: bytes[0],
            bittorrent: array_at::<19>(bytes, 1),
            reserved: array_at::<8>(bytes, 20),
            info_hash: array_at::<20>(bytes, 28),
            peer_id: array_at::<20>(bytes, 48),
        };
        Some(record)
    }
}

/// The address of a peer: an IPv4 address and a port.
#[derive(Debug, Clone, Copy, PartialEq, Eq)]
pub struct PeerAddress {
    /// The four bytes of the address, in network order.
    pub ip: [u8; 4],
    /// The port.
    pub port: u16,
}

/// The six bytes of a peer in a compact list: the address, then the port,
/// most significant byte first.
pub open spec fn peer_bytes(peer: PeerAddress) -> Seq<u8> {
    peer.ip@ + be16(peer.port)
}

/// The compact list of `peers`: six bytes for each, one after the other.
pub open spec fn compact_form(peers: Seq<PeerAddress>) -> Seq<u8>
    decreases peers.len(),
{
    if peers.len() == 0 {
        Seq::empty()
    } else {
        compact_form(peers.drop_last()) + peer_bytes(peers.last())
    }
}

/// The compact list of `peers` has six bytes for each of them.
pub proof fn lemma_compact_form_len(peers: Seq<PeerAddress>)
    ensures
        compact_form(peers).len() == 6 * peers.len(),
    decreases peers.len(),
{
    if peers.len() > 0 {
        lemma_compact_form_len(peers.drop_last());
    }
}

/// The peers that a tracker named.
#[derive(Debug, Clone, PartialEq, Eq)]
pub struct Peers(pub Vec<PeerAddress>);

/// Reads the compact list of peers of a tracker response.
pub struct PeersVisitor;

impl PeersVisitor {
    /// The peers that the compact list `v` names: one for each six bytes, in
    /// their order. A list whose length is no multiple of six is malformed.
    pub fn visit_bytes(&self, v: &[u8]) -> (r: Result<Peers, Error>)
        ensures
            v@.len() % 6 != 0 ==> (r matches Err(e) && e == Error::MalformedBencode),
            v@.len() % 6 == 0 ==> (r matches Ok(peers) && peers.0@.len() * 6 == v@.len()
                && compact_form(peers.0@) == v@ && forall|i: int|
                0 <= i < peers.0@.len() ==> (#[trigger] peers.0@[i]).ip@ == v@.subrange(
                    6 * i,
                    6 * i + 4,
                ) && be16(peers.0@[i].port) == v@.subrange(6 * i + 4, 6 * i + 6)),
    {
        if v.len() % 6 != 0 {
            return Err(Error::MalformedBencode);
        }
        let mut peers: Vec<PeerAddress> = Vec::new();
        let mut at: usize = 0;
        while at < v.len()
            invariant
                at <= v.len(),
                v@.len() % 6 == 0,
                at % 6 == 0,
                peers@.len() * 6 == at,
                compact_form(peers@) == v@.take(at as int),
                forall|i: int|
                    0 <= i < peers@.len() ==> (#[trigger] peers@[i]).ip@ == v@.subrange(
                        6 * i,
                        6 * i + 4,
                    ) && be16(peers@[i].port) == v@.subrange(6 * i + 4, 6 * i + 6),
            decreases v.len() - at,
        {
            let peer = PeerAddress { ip: array_at::<4>(v, at), port: get_be16(v, at + 4) };
            proof {
                assert(peers@.push(peer).drop_last() =~= peers@);
            }
            peers.push(peer);
            at += 6;
        }
        Ok(Peers(peers))
    }
}

impl Peers {
    /// The compact list of these peers.
    pub fn to_compact(&self) -> (out: Vec<u8>)
        ensures
            out@ == compact_form(self.0@),
    {
        let mut out: Vec<u8> = Vec::new();
        let mut i: usize = 0;
        while i < self.0.len()
            invariant
                i <= self.0.len(),
                out@ == compact_form(self.0@.take(i as int)),
            decreases self.0.len() - i,
        {
            let peer = self.0[i];
            proof {
                assert(self.0@.take(i + 1).drop_last() =~= self.0@.take(i as int));
            }
            append_bytes(&mut out, peer.ip.as_slice());
            put_be16(peer.port, &mut out);
            i += 1;
        }
        assert(self.0@.take(i as int) =~= self.0@);
        out
    }
}

/// Requests with the same bytes are the same request: reading the bytes of
/// a request gives the request back.
pub proof fn lemma_request_image_injective(a: MessageRequest, b: MessageRequest)
    requires
        a.byte_image() == b.byte_image(),
    ensures
        a == b,
{
    let image = a.byte_image();
    lemma_be32_value_of_be32(a.index_spec());
    lemma_be32_value_of_be32(a.begin_spec());
    lemma_be32_value_of_be32(a.length_spec());
    lemma_be32_value_of_be32(b.index_spec());
    lemma_be32_value_of_be32(b.begin_spec());
    lemma_be32_value_of_be32(b.length_spec());
    assert(image.subrange(0, 4) =~= be32(a.index_spec()));
    assert(image.subrange(4, 8) =~= be32(a.begin_spec()));
    assert(image.subrange(8, 12) =~= be32(a.length_spec()));
}

/// Handshakes with the same bytes are the same handshake: reading the bytes
/// of a handshake gives the handshake back.
pub proof fn lemma_handshake_image_injective(a: Handshake, b: Handshake)
    requires
        a.byte_image() == b.byte_image(),
    ensures
        a == b,
{
    let image = a.byte_image();
    assert(image[0] == a.length && image[0] == b.length);
    assert(image.subrange(1, 20) =~= a.bittorrent@);
    assert(image.subrange(20, 28) =~= a.reserved@);
    assert(image.subrange(28, 48) =~= a.info_hash@);
    assert(image.subrange(48, 68) =~= a.peer_id@);
    assert(a.bittorrent =~= b.bittorrent);
    assert(a.reserved =~= b.reserved);
    assert(a.info_hash =~= b.info_hash);
    assert(a.peer_id =~= b.peer_id);
}

/// Peers with the same compact list are the same peers: reading the compact
/// list of peers gives the peers back.
pub proof fn lemma_compact_form_injective(a: Seq<PeerAddress>, b: Seq<PeerAddress>)
    requires
        compact_form(a) == compact_form(b),
    ensures
        a == b,
    decreases a.len(),
{
    lemma_compact_form_len(a);
    lemma_compact_form_len(b);
    if a.len() > 0 {
        let image = compact_form(a);
        let n = image.len() as int;
        lemma_compact_form_len(a.drop_last());
        lemma_compact_form_len(b.drop_last());
        assert(image.subrange(0, n - 6) =~= compact_form(a.drop_last()));
        assert(image.subrange(0, n - 6) =~= compact_form(b.drop_last()));
        lemma_compact_form_injective(a.drop_last(), b.drop_last());
        let pa = a.last();
        let pb = b.last();
        assert(image.subrange(n - 6, n - 2) =~= pa.ip@);
        assert(image.subrange(n - 2, n) =~= be16(pa.port));
        lemma_be16_value_of_be16(pa.port);
        lemma_be16_value_of_be16(pb.port);
        assert(pa.ip =~= pb.ip);
        assert(a =~= a.drop_last().push(pa));
    }
}

} // verus!
