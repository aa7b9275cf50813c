//! What holds of a download with a peer that answers every request rightly.

use crate::common::{be32, be32_value, lemma_be32_value_of_be32};
use crate::digest::sha1_digest;
use crate::download::{
    block_length_at, lemma_transitions_keep_wf, ActionView, Phase, SessionView,
};
use crate::peer::Handshake;
use crate::peer::{MessageTag, MessageView};
use vstd::prelude::*;

verus! {

/// The message with which a peer that has `content`, the bytes of the piece,
/// answers the request that the session `s` has out: the index of the piece,
/// the offset that was asked for, and the bytes of the piece from that offset
/// on, as many as were asked for.
pub open spec fn honest_answer(s: SessionView, content: Seq<u8>) -> MessageView {
    let offset = s.accumulated_blocks.len() as int;
    let length = block_length_at(
        s.expected_piece_size as nat,
        s.config.block_size as nat,
        offset as nat,
    ) as int;
    MessageView {
        tag: MessageTag::Piece,
        payload: be32(s.target_piece_index) + be32(offset as u32) + content.subrange(
            offset,
            offset + length,
        ),
    }
}

/// Where a session ends, and with what, when every request from now on is
/// answered rightly from `content`.
pub open spec fn honest_run(s: SessionView, content: Seq<u8>) -> (SessionView, ActionView)
    decreases s.expected_piece_size - s.accumulated_blocks.len(),
{
    let (next, action) = s.on_message(honest_answer(s, content));
    if next.phase == Phase::Requesting && s.accumulated_blocks.len()
        < next.accumulated_blocks.len() <= s.expected_piece_size {
        honest_run(next, content)
    } else {
        (next, action)
    }
}

/// A download from a peer that answers every request rightly ends with the
/// piece: where the content has the size and the digest of the piece, and
/// what was gathered so far is the start of the content, the session ends
/// complete and hands out the content.
pub proof fn lemma_honest_run_completes(s: SessionView, content: Seq<u8>)
    requires
        s.wf(),
        s.phase == Phase::Requesting,
        content.len() == s.expected_piece_size,
        sha1_digest(content) == s.piece_hash,
        s.accumulated_blocks == content.take(s.accumulated_blocks.len() as int),
    ensures
        honest_run(s, content) == (
            SessionView { accumulated_blocks: content, phase: Phase::Complete, ..s },
            ActionView::Done(content),
        ),
    decreases s.expected_piece_size - s.accumulated_blocks.len(),
{
    let offset = s.accumulated_blocks.len() as int;
    let length = block_length_at(
        s.expected_piece_size as nat,
        s.config.block_size as nat,
        offset as nat,
    ) as int;
    let m = honest_answer(s, content);
    let block = content.subrange(offset, offset + length);
    lemma_be32_value_of_be32(s.target_piece_index);
    lemma_be32_value_of_be32(offset as u32);
    assert(m.payload.skip(8) =~= block);
    assert(be32_value(m.payload) == be32_value(be32(s.target_piece_index))) by {
        let four = be32(s.target_piece_index);
        assert(m.payload[0] == four[0] && m.payload[1] == four[1] && m.payload[2] == four[2]
            && m.payload[3] == four[3]);
    }
    assert(be32_value(m.payload.skip(4)) == be32_value(be32(offset as u32))) by {
        let four = be32(offset as u32);
        let rest = m.payload.skip(4);
        assert(rest[0] == four[0] && rest[1] == four[1] && rest[2] == four[2] && rest[3]
            == four[3]);
    }
    let gathered = s.accumulated_blocks + block;
    assert(gathered =~= content.take(offset + length));
    let (next, action) = s.on_message(m);
    if gathered.len() < s.expected_piece_size {
        lemma_transitions_keep_wf(s, arbitrary::<Handshake>(), content, m);
        lemma_honest_run_completes(next, content);
    } else {
        assert(gathered =~= content);
    }
}

} // verus!
