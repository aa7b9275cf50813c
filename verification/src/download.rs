//! The download of one piece from one peer, as a state machine: the caller
//! does the reading and the writing, and hands each thing that the peer sent
//! to the session, which says what to do next.

use crate::common::{arrays_equal, be32, be32_value, AsBytes};
use crate::config::Config;
use crate::digest::{sha1_digest, sha1_of};
use crate::error::Error;
use crate::grammar::encode_value;
use crate::peer::{Handshake, Message, MessagePiece, MessageRequest, MessageTag, MessageView};
use crate::ser::append_bytes;
use crate::torrent::{info_value, Torrent};
use vstd::arithmetic::div_mod::lemma_mod_add_multiples_vanish;
use vstd::prelude::*;
use vstd::slice::slice_to_vec;

verus! {

/// The size of the piece `piece_index` of `piece_count` pieces: the length of
/// a piece, but for the last piece, which holds what is left of the total
/// length, or a whole piece where nothing is left over.
pub open spec fn piece_size_spec(
    total_length: nat,
    piece_length: nat,
    piece_count: nat,
    piece_index: nat,
) -> nat
    recommends
        piece_length > 0,
{
    if piece_index + 1 == piece_count && total_length % piece_length != 0 {
        total_length % piece_length
    } else {
        piece_length
    }
}

/// The number of blocks that a piece of `piece_size` bytes is split into.
pub open spec fn block_count_spec(piece_size: nat, block_size: nat) -> nat
    recommends
        block_size > 0,
{
    ((piece_size + block_size - 1) / block_size as int) as nat
}

/// The length of block `block_index` of a piece: the size of a block, but for
/// the last block, which holds what is left of the piece, or a whole block
/// where nothing is left over.
pub open spec fn block_length_spec(piece_size: nat, block_size: nat, block_index: nat) -> nat
    recommends
        block_size > 0,
{
    if block_index + 1 == block_count_spec(piece_size, block_size) && piece_size % block_size
        != 0 {
        piece_size % block_size
    } else {
        block_size
    }
}

/// The length of the block that starts at `offset` in a piece: the size of a
/// block, or what is left of the piece where that is less.
pub open spec fn block_length_at(piece_size: nat, block_size: nat, offset: nat) -> nat {
    if piece_size - offset < block_size {
        (piece_size - offset) as nat
    } else {
        block_size
    }
}

/// The block that starts at the offset of block `block_index` has the length
/// of that block.
pub proof fn lemma_block_length_at(piece_size: nat, block_size: nat, block_index: nat)
    requires
        block_size > 0,
        block_index < block_count_spec(piece_size, block_size),
    ensures
        block_index * block_size < piece_size,
        block_length_at(piece_size, block_size, block_index * block_size) == block_length_spec(
            piece_size,
            block_size,
            block_index,
        ),
{
    let p = piece_size as int;
    let b = block_size as int;
    let i = block_index as int;
    let n = (p + b - 1) / b;
    let q = p / b;
    let r = p % b;
    assert(p == b * q + r && 0 <= r < b) by {
        vstd::arithmetic::div_mod::lemma_fundamental_div_mod(p, b);
    }
    if r == 0 {
        assert(n == q) by {
            vstd::arithmetic::div_mod::lemma_fundamental_div_mod_converse(p + b - 1, b, q, b - 1);
        }
    } else {
        assert((q + 1) * b == b * q + b) by (nonlinear_arith);
        assert(n == q + 1) by {
            vstd::arithmetic::div_mod::lemma_fundamental_div_mod_converse(
                p + b - 1,
                b,
                q + 1,
                r - 1,
            );
        }
    }
    assert(i * b <= (n - 1) * b) by (nonlinear_arith)
        requires
            i <= n - 1,
            b > 0,
    ;
    assert((n - 1) * b == n * b - b) by (nonlinear_arith);
    if i + 1 < n {
        assert((i + 1) * b <= (n - 1) * b) by (nonlinear_arith)
            requires
                i + 1 <= n - 1,
                b > 0,
        ;
        assert((i + 1) * b == i * b + b) by (nonlinear_arith);
    }
}

/// The size of the piece `piece_index` of `piece_count` pieces.
pub fn piece_size(
    total_length: usize,
    piece_length: usize,
    piece_count: usize,
    piece_index: usize,
) -> (size: usize)
    requires
        piece_length > 0,
        piece_index < piece_count,
    ensures
        size == piece_size_spec(
            total_length as nat,
            piece_length as nat,
            piece_count as nat,
            piece_index as nat,
        ),
        0 < size <= piece_length,
{
    if piece_index == piece_count - 1 {
        let rem: usize = total_length % piece_length;
        if rem == 0 {
            piece_length
        } else {
            rem
        }
    } else {
        piece_length
    }
}

/// The number of blocks that a piece of `piece_size` bytes is split into.
pub fn block_count(piece_size: u32, block_size: u32) -> (count: u32)
    requires
        block_size > 0,
    ensures
        count == block_count_spec(piece_size as nat, block_size as nat),
{
    let whole: u32 = piece_size / block_size;
    let rem: u32 = piece_size % block_size;
    proof {
        let p = piece_size as int;
        let b = block_size as int;
        vstd::arithmetic::div_mod::lemma_fundamental_div_mod(p, b);
        if rem == 0 {
            vstd::arithmetic::div_mod::lemma_fundamental_div_mod_converse(
                p + b - 1,
                b,
                p / b,
                b - 1,
            );
        } else {
            assert((p / b + 1) * b == (p / b) * b + b) by (nonlinear_arith);
            vstd::arithmetic::div_mod::lemma_fundamental_div_mod_converse(
                p + b - 1,
                b,
                p / b + 1,
                p % b - 1,
            );
            assert(p / b < u32::MAX) by (nonlinear_arith)
                requires
                    p == b * (p / b) + p % b,
                    p % b > 0,
                    p <= u32::MAX,
                    b >= 1,
                    p / b >= 0,
            ;
        }
    }
    if rem == 0 {
        whole
    } else {
        whole + 1
    }
}

/// The length of block `block_index` of a piece of `piece_size` bytes.
pub fn block_length(piece_size: u32, block_size: u32, block_index: u32) -> (length: u32)
    requires
        block_size > 0,
    ensures
        length == block_length_spec(piece_size as nat, block_size as nat, block_index as nat),
{
    let count = block_count(piece_size, block_size);
    let rem: u32 = piece_size % block_size;
    if count > 0 && block_index == count - 1 && rem != 0 {
        rem
    } else {
        block_size
    }
}

/// Where a session stands.
#[derive(Debug, Clone, Copy, PartialEq, Eq, Structural)]
pub enum Phase {
    /// The handshake of this client is out; that of the peer is awaited.
    Connecting,
    /// The handshake of the peer was checked; its first message, which must
    /// tell which pieces it has, is awaited.
    AwaitBitfield,
    /// The peer was told of the interest in its pieces; its leave to ask for
    /// them is awaited.
    Interested,
    /// A block was asked for and is awaited.
    Requesting,
    /// All blocks are there; their digest is to be compared.
    Verifying,
    /// The piece is there and its digest is the expected one.
    Complete,
    /// The download was given up.
    Aborted,
}

/// What the caller is to do next.
#[derive(Debug, PartialEq, Eq)]
pub enum Action {
    /// Wait for the next message of the peer.
    Await,
    /// Send this message, then wait for the next message of the peer.
    Send(Message),
    /// Stop: the piece is complete and verified, and these are its bytes.
    Done(Vec<u8>),
    /// Stop and drop the connection: the download failed for this reason.
    Abort(Error),
}

/// The mathematical model of an action.
pub enum ActionView {
    Await,
    Send(MessageView),
    Done(Seq<u8>),
    Abort(Error),
}

impl View for Action {
    type V = ActionView;

    open spec fn view(&self) -> ActionView {
        match self {
            Action::Await => ActionView::Await,
            Action::Send(m) => ActionView::Send(m@),
            Action::Done(bytes) => ActionView::Done(bytes@),
            Action::Abort(e) => ActionView::Abort(*e),
        }
    }
}

/// The mathematical model of a session.
pub struct SessionView {
    pub config: Config,
    pub info_hash: Seq<u8>,
    pub target_piece_index: u32,
    pub expected_piece_size: u32,
    pub piece_hash: Seq<u8>,
    pub accumulated_blocks: Seq<u8>,
    pub phase: Phase,
}

/// The download of one piece over one connection.
#[derive(Debug)]
pub struct DownloadSession {
    /// The limits and the identity that the session works under.
    pub config: Config,
    /// The digest of the info dictionary of the torrent.
    pub info_hash: [u8; 20],
    /// The index of the piece to download.
    pub target_piece_index: u32,
    /// The size of that piece.
    pub expected_piece_size: u32,
    /// The digest that the piece must have.
    pub piece_hash: [u8; 20],
    /// The blocks that have come so far, in the order of the piece.
    pub accumulated_blocks: Vec<u8>,
    /// The offset in the piece of the next block to come.
    pub next_block_offset: u32,
    /// Where the session stands.
    pub phase: Phase,
}

impl View for DownloadSession {
    type V = SessionView;

    open spec fn view(&self) -> SessionView {
        SessionView {
            config: self.config,
            info_hash: self.info_hash@,
            target_piece_index: self.target_piece_index,
            expected_piece_size: self.expected_piece_size,
            piece_hash: self.piece_hash@,
            accumulated_blocks: self.accumulated_blocks@,
            phase: self.phase,
        }
    }
}

impl SessionView {
    /// Whether the session is one that the transitions can have led to: the
    /// blocks gathered are no more than the piece, none before the peer gave
    /// leave to ask for them, whole blocks and fewer than the piece while
    /// blocks are asked for, and the whole piece after that.
    pub open spec fn wf(&self) -> bool {
        &&& self.config.wf()
        &&& self.expected_piece_size > 0
        &&& self.info_hash.len() == 20
        &&& self.piece_hash.len() == 20
        &&& self.accumulated_blocks.len() <= self.expected_piece_size
        &&& match self.phase {
            Phase::Connecting | Phase::AwaitBitfield | Phase::Interested | Phase::Aborted =>
                self.accumulated_blocks.len() == 0,
            Phase::Requesting => self.accumulated_blocks.len() < self.expected_piece_size
                && self.accumulated_blocks.len() % (self.config.block_size as nat) == 0,
            Phase::Verifying | Phase::Complete => self.accumulated_blocks.len()
                == self.expected_piece_size,
        }
    }

    /// The session in another phase.
    pub open spec fn at(self, phase: Phase) -> SessionView {
        SessionView { phase, ..self }
    }

    /// The session given up: what was gathered is dropped.
    pub open spec fn aborted(self) -> SessionView {
        SessionView { phase: Phase::Aborted, accumulated_blocks: Seq::empty(), ..self }
    }

    /// The request for the next block: the index of the piece, the offset of
    /// the block, which is the number of bytes gathered, and its length.
    pub open spec fn next_request(self) -> MessageView {
        let offset = self.accumulated_blocks.len();
        MessageView {
            tag: MessageTag::Request,
            payload: be32(self.target_piece_index) + be32(offset as u32) + be32(
                block_length_at(
                    self.expected_piece_size as nat,
                    self.config.block_size as nat,
                    offset,
                ) as u32,
            ),
        }
    }

    /// Whether `payload` carries the block that was asked for: the index of
    /// the piece and the offset are those of the request, and the block has
    /// the length that was asked for.
    pub open spec fn answers_request(self, payload: Seq<u8>) -> bool {
        &&& payload.len() >= 8
        &&& be32_value(payload) == self.target_piece_index
        &&& be32_value(payload.skip(4)) == self.accumulated_blocks.len()
        &&& payload.len() - 8 == block_length_at(
            self.expected_piece_size as nat,
            self.config.block_size as nat,
            self.accumulated_blocks.len(),
        )
    }

    /// What the handshake of the peer leads to: with the expected length,
    /// protocol name and digest the session goes on to await the first
    /// message; anything else, and a handshake at any other time, is a
    /// violation of the protocol.
    pub open spec fn on_handshake(self, reply: Handshake) -> (SessionView, ActionView) {
        if self.phase == Phase::Connecting && reply.valid_for(self.info_hash) {
            (self.at(Phase::AwaitBitfield), ActionView::Await)
        } else {
            (self.aborted(), ActionView::Abort(Error::ProtocolViolation))
        }
    }

    /// What the digest of the gathered blocks leads to: the expected digest
    /// completes the piece, whose bytes are handed out; another one is a
    /// failure of integrity, and what was gathered is dropped.
    pub open spec fn on_digest(self, digest: Seq<u8>) -> (SessionView, ActionView) {
        if self.phase != Phase::Verifying {
            (self.aborted(), ActionView::Abort(Error::ProtocolViolation))
        } else if digest == self.piece_hash {
            (self.at(Phase::Complete), ActionView::Done(self.accumulated_blocks))
        } else {
            (self.aborted(), ActionView::Abort(Error::IntegrityFailure))
        }
    }

    /// What a message of the peer leads to.
    ///
    /// The first message must tell which pieces the peer has; the answer is
    /// the message of interest. The next must be the leave to ask, with no
    /// payload; the answer is the request for the first block. After that each
    /// message must carry the block that was asked for: it is put behind the
    /// blocks gathered, and the answer is the request for the next block, or,
    /// after the last block, what the digest of the piece leads to. Any other
    /// message, and any message at another time, is a violation of the
    /// protocol: the session is given up.
    pub open spec fn on_message(self, m: MessageView) -> (SessionView, ActionView) {
        match self.phase {
            Phase::AwaitBitfield => if m.tag == MessageTag::Bitfield {
                (
                    self.at(Phase::Interested),
                    ActionView::Send(
                        MessageView { tag: MessageTag::Interested, payload: Seq::empty() },
                    ),
                )
            } else {
                (self.aborted(), ActionView::Abort(Error::ProtocolViolation))
            },
            Phase::Interested => if m.tag == MessageTag::Unchoke && m.payload.len() == 0 {
                (
                    self.at(Phase::Requesting),
                    ActionView::Send(self.at(Phase::Requesting).next_request()),
                )
            } else {
                (self.aborted(), ActionView::Abort(Error::ProtocolViolation))
            },
            Phase::Requesting => if m.tag == MessageTag::Piece && self.answers_request(
                m.payload,
            ) {
                let gathered = SessionView {
                    accumulated_blocks: self.accumulated_blocks + m.payload.skip(8),
                    ..self
                };
                if gathered.accumulated_blocks.len() < self.expected_piece_size {
                    (gathered, ActionView::Send(gathered.next_request()))
                } else {
                    gathered.at(Phase::Verifying).on_digest(
                        sha1_digest(gathered.accumulated_blocks),
                    )
                }
            } else {
                (self.aborted(), ActionView::Abort(Error::ProtocolViolation))
            },
            _ => (self.aborted(), ActionView::Abort(Error::ProtocolViolation)),
        }
    }
}

/// Every transition leads from a well-formed session to a well-formed one.
pub proof fn lemma_transitions_keep_wf(
    s: SessionView,
    reply: Handshake,
    digest: Seq<u8>,
    m: MessageView,
)
    requires
        s.wf(),
    ensures
        s.on_handshake(reply).0.wf(),
        s.on_digest(digest).0.wf(),
        s.on_message(m).0.wf(),
{
    if s.phase == Phase::Requesting {
        lemma_mod_add_multiples_vanish(
            s.accumulated_blocks.len() as int,
            s.config.block_size as int,
        );
    }
}

/// Every request is for a block of the piece as it is split: the offset that
/// a session asks for is that of a block, and the length is that of the
/// block.
pub proof fn lemma_requests_follow_blocks(s: SessionView)
    requires
        s.wf(),
        s.phase == Phase::Requesting,
    ensures
        ({
            let size = s.expected_piece_size as nat;
            let block_size = s.config.block_size as nat;
            let offset = s.accumulated_blocks.len();
            let index = offset / block_size;
            &&& offset == index * block_size
            &&& index < block_count_spec(size, block_size)
            &&& block_length_at(size, block_size, offset) == block_length_spec(
                size,
                block_size,
                index,
            )
        }),
{
    let p = s.expected_piece_size as int;
    let b = s.config.block_size as int;
    let offset = s.accumulated_blocks.len() as int;
    let i = offset / b;
    let n = (p + b - 1) / b;
    vstd::arithmetic::div_mod::lemma_fundamental_div_mod(offset, b);
    vstd::arithmetic::div_mod::lemma_fundamental_div_mod(p + b - 1, b);
    assert(i >= 0) by (nonlinear_arith)
        requires
            offset == i * b,
            offset >= 0,
            b > 0,
    ;
    assert(n >= 0) by (nonlinear_arith)
        requires
            p + b - 1 == b * n + (p + b - 1) % b,
            0 <= (p + b - 1) % b < b,
            p + b - 1 >= 0,
            b > 0,
    ;
    if n <= i {
        assert(b * n <= b * i) by (nonlinear_arith)
            requires
                n <= i,
                b > 0,
        ;
    }
    lemma_block_length_at(p as nat, b as nat, i as nat);
}

/// A session that was given up stays so: whatever comes, nothing is sent.
pub proof fn lemma_aborted_is_final(
    s: SessionView,
    reply: Handshake,
    digest: Seq<u8>,
    m: MessageView,
)
    requires
        s.phase == Phase::Aborted,
    ensures
        s.on_handshake(reply) == (s.aborted(), ActionView::Abort(Error::ProtocolViolation)),
        s.on_digest(digest) == (s.aborted(), ActionView::Abort(Error::ProtocolViolation)),
        s.on_message(m) == (s.aborted(), ActionView::Abort(Error::ProtocolViolation)),
{
}

/// No block is asked for before the handshake of the peer was checked and
/// found right: a handshake with another digest, another protocol name or
/// another length gives the session up, and so does a message that comes
/// while the handshake is awaited.
pub proof fn lemma_no_request_without_handshake(s: SessionView, reply: Handshake, m: MessageView)
    requires
        s.phase == Phase::Connecting,
    ensures
        !reply.valid_for(s.info_hash) ==> s.on_handshake(reply) == (
            s.aborted(),
            ActionView::Abort(Error::ProtocolViolation),
        ),
        reply.info_hash@ != s.info_hash ==> s.on_handshake(reply).0.phase == Phase::Aborted,
        s.on_handshake(reply).1 is Await || s.on_handshake(reply).1 is Abort,
        s.on_message(m) == (s.aborted(), ActionView::Abort(Error::ProtocolViolation)),
{
}

/// Bytes are handed out only with the expected digest: where a transition
/// ends in the bytes of the piece, they are as many as the piece has and
/// their digest is that of the piece.
pub proof fn lemma_done_is_verified(s: SessionView, digest: Seq<u8>, m: MessageView)
    requires
        s.wf(),
    ensures
        s.on_message(m).1 matches ActionView::Done(bytes) ==> bytes.len()
            == s.expected_piece_size && sha1_digest(bytes) == s.piece_hash && s.on_message(
            m,
        ).0.phase == Phase::Complete,
        s.on_digest(digest).1 matches ActionView::Done(bytes) ==> digest == s.piece_hash
            && bytes == s.accumulated_blocks,
{
}

/// A block that does not answer the request gives the session up before
/// anything more is gathered: with a wrong offset, a wrong index or a wrong
/// length the session ends with a violation of the protocol and holds no
/// bytes.
pub proof fn lemma_wrong_block_aborts(s: SessionView, m: MessageView)
    requires
        s.phase == Phase::Requesting,
        !(m.tag == MessageTag::Piece && s.answers_request(m.payload)),
    ensures
        s.on_message(m) == (s.aborted(), ActionView::Abort(Error::ProtocolViolation)),
        s.on_message(m).0.accumulated_blocks.len() == 0,
{
}

impl DownloadSession {
    /// Whether the session is one that the transitions can have led to, and
    /// the offset of the next block is the number of bytes gathered.
    pub open spec fn wf(&self) -> bool {
        &&& self@.wf()
        &&& self.next_block_offset == self.accumulated_blocks@.len()
    }

    /// Whether the session is one that the transitions can have led to.
    pub fn is_valid(&self) -> (valid: bool)
        ensures
            valid == self.wf(),
    {
        let gathered: usize = self.accumulated_blocks.len();
        self.config.is_valid() && self.expected_piece_size > 0 && gathered
            == self.next_block_offset as usize && self.next_block_offset
            <= self.expected_piece_size && match self.phase {
            Phase::Connecting | Phase::AwaitBitfield | Phase::Interested | Phase::Aborted =>
                gathered == 0,
            Phase::Requesting => self.next_block_offset < self.expected_piece_size
                && self.next_block_offset % self.config.block_size == 0,
            Phase::Verifying | Phase::Complete => self.next_block_offset
                == self.expected_piece_size,
        }
    }

    /// A session for the piece `piece_index`, of `piece_size` bytes and with
    /// the digest `piece_hash`, of the torrent with the digest `info_hash`.
    ///
    /// The index and the size go over the wire in four bytes each: a value
    /// that does not fit, and a piece of no bytes, is refused as malformed.
    pub fn new(
        config: Config,
        info_hash: [u8; 20],
        piece_index: usize,
        piece_size: usize,
        piece_hash: [u8; 20],
    ) -> (r: Result<Self, Error>)
        requires
            config.wf(),
        ensures
            (piece_index <= u32::MAX && 0 < piece_size <= u32::MAX) ==> (r matches Ok(session)
                && session.wf() && session@ == (SessionView {
                config,
                info_hash: info_hash@,
                target_piece_index: piece_index as u32,
                expected_piece_size: piece_size as u32,
                piece_hash: piece_hash@,
                accumulated_blocks: Seq::empty(),
                phase: Phase::Connecting,
            })),
            !(piece_index <= u32::MAX && 0 < piece_size <= u32::MAX) ==> (r matches Err(e) && e
                == Error::MalformedBencode),
    {
        if piece_index > u32::MAX as usize || piece_size == 0 || piece_size > u32::MAX as usize {
            return Err(Error::MalformedBencode);
        }
        Ok(
            DownloadSession {
                config,
                info_hash,
                target_piece_index: piece_index as u32,
                expected_piece_size: piece_size as u32,
                piece_hash,
                accumulated_blocks: Vec::new(),
                next_block_offset: 0,
                phase: Phase::Connecting,
            },
        )
    }

    /// A session for the piece `piece_index` of `torrent`: its size is that of
    /// a piece, or what is left of the content for the last piece, and its
    /// digest is the one that the torrent lists for it.
    pub fn for_torrent(config: Config, torrent: &Torrent, piece_index: usize) -> (r: Result<
        Self,
        Error,
    >)
        requires
            config.wf(),
            torrent.info.wf(),
            piece_index < torrent.info.pieces.0@.len(),
        ensures
            ({
                let size = piece_size_spec(
                    torrent.info.keys.length_spec(),
                    torrent.info.plength as nat,
                    torrent.info.pieces.0@.len(),
                    piece_index as nat,
                );
                &&& (piece_index <= u32::MAX && size <= u32::MAX) ==> (r matches Ok(session)
                    && session.wf() && session@ == (SessionView {
                    config,
                    info_hash: sha1_digest(encode_value(info_value(torrent.info))),
                    target_piece_index: piece_index as u32,
                    expected_piece_size: size as u32,
                    piece_hash: torrent.info.pieces.0@[piece_index as int]@,
                    accumulated_blocks: Seq::empty(),
                    phase: Phase::Connecting,
                }))
                &&& !(piece_index <= u32::MAX && size <= u32::MAX) ==> (r matches Err(e) && e
                    == Error::MalformedBencode)
            }),
    {
        let size = piece_size(
            torrent.info.total_length(),
            torrent.info.plength,
            torrent.info.pieces.0.len(),
            piece_index,
        );
        DownloadSession::new(
            config,
            torrent.info_hash(),
            piece_index,
            size,
            torrent.info.pieces.0[piece_index],
        )
    }

    /// The handshake that this client sends when the connection opens.
    pub fn handshake(&self) -> (handshake: Handshake)
        ensures
            handshake.valid_for(self.info_hash@),
            handshake.info_hash == self.info_hash,
            handshake.peer_id == self.config.peer_id,
            handshake.reserved@ == Seq::new(8, |i: int| 0u8),
    {
        Handshake::new(self.info_hash, self.config.peer_id)
    }

    /// Gives the session up.
    fn abort(&mut self, reason: Error) -> (action: Action)
        requires
            old(self).wf(),
        ensures
            final(self).wf(),
            final(self)@ == old(self)@.aborted(),
            action@ == ActionView::Abort(reason),
    {
        self.phase = Phase::Aborted;
        self.accumulated_blocks = Vec::new();
        self.next_block_offset = 0;
        Action::Abort(reason)
    }

    /// The request for the next block.
    fn request(&self) -> (message: Message)
        requires
            self.wf(),
            self.phase == Phase::Requesting,
        ensures
            message@ == self@.next_request(),
    {
        let left: u32 = self.expected_piece_size - self.next_block_offset;
        let length: u32 = if left < self.config.block_size {
            left
        } else {
            self.config.block_size
        };
        let request = MessageRequest::new(self.target_piece_index, self.next_block_offset, length);
        Message::new(MessageTag::Request, request.as_bytes())
    }

    /// Takes the handshake that the peer sent back.
    pub fn on_handshake(&mut self, reply: &Handshake) -> (action: Action)
        requires
            old(self).wf(),
        ensures
            final(self).wf(),
            final(self)@ == old(self)@.on_handshake(*reply).0,
            action@ == old(self)@.on_handshake(*reply).1,
    {
        if self.phase == Phase::Connecting {
            match reply.check(&self.info_hash) {
                Ok(_) => {
                    self.phase = Phase::AwaitBitfield;
                    Action::Await
                },
                Err(_) => self.abort(Error::ProtocolViolation),
            }
        } else {
            self.abort(Error::ProtocolViolation)
        }
    }

    /// Takes the digest of the gathered blocks, once the last block is there.
    pub fn on_digest(&mut self, digest: &[u8; 20]) -> (action: Action)
        requires
            old(self).wf(),
        ensures
            final(self).wf(),
            final(self)@ == old(self)@.on_digest(digest@).0,
            action@ == old(self)@.on_digest(digest@).1,
    {
        if self.phase != Phase::Verifying {
            self.abort(Error::ProtocolViolation)
        } else if arrays_equal(digest, &self.piece_hash) {
            self.phase = Phase::Complete;
            Action::Done(slice_to_vec(self.accumulated_blocks.as_slice()))
        } else {
            self.abort(Error::IntegrityFailure)
        }
    }

    /// Takes a message that the peer sent.
    pub fn on_message(&mut self, message: &Message) -> (action: Action)
        requires
            old(self).wf(),
        ensures
            final(self).wf(),
            final(self)@ == old(self)@.on_message(message@).0,
            action@ == old(self)@.on_message(message@).1,
    {
        match self.phase {
            Phase::AwaitBitfield => {
                if message.tag == MessageTag::Bitfield {
                    self.phase = Phase::Interested;
                    Action::Send(Message::new(MessageTag::Interested, Vec::new()))
                } else {
                    self.abort(Error::ProtocolViolation)
                }
            },
            Phase::Interested => {
                if message.tag == MessageTag::Unchoke && message.payload.len() == 0 {
                    self.phase = Phase::Requesting;
                    Action::Send(self.request())
                } else {
                    self.abort(Error::ProtocolViolation)
                }
            },
            Phase::Requesting => {
                if message.tag != MessageTag::Piece {
                    return self.abort(Error::ProtocolViolation);
                }
                let piece = match MessagePiece::try_from_bytes(message.payload.as_slice()) {
                    Ok(piece) => piece,
                    Err(_) => {
                        return self.abort(Error::ProtocolViolation);
                    },
                };
                let left: u32 = self.expected_piece_size - self.next_block_offset;
                let expected: u32 = if left < self.config.block_size {
                    left
                } else {
                    self.config.block_size
                };
                let block = piece.block();
                if piece.index() != self.target_piece_index || piece.begin()
                    != self.next_block_offset || block.len() != expected as usize {
                    return self.abort(Error::ProtocolViolation);
                }
                proof {
                    lemma_mod_add_multiples_vanish(
                        self.next_block_offset as int,
                        self.config.block_size as int,
                    );
                }
                append_bytes(&mut self.accumulated_blocks, block);
                self.next_block_offset = self.next_block_offset + expected;
                if self.next_block_offset < self.expected_piece_size {
                    Action::Send(self.request())
                } else {
                    self.phase = Phase::Verifying;
                    let digest = sha1_of(self.accumulated_blocks.as_slice());
                    self.on_digest(&digest)
                }
            },
            _ => self.abort(Error::ProtocolViolation),
        }
    }

    /// Whether the session has ended, with the piece or without it.
    pub fn is_over(&self) -> (over: bool)
        ensures
            over == (self.phase == Phase::Complete || self.phase == Phase::Aborted),
    {
        self.phase == Phase::Complete || self.phase == Phase::Aborted
    }
}

} // verus!
