//! What holds of the framing however the stream is cut into reads.

use crate::common::{be32, be32_value, lemma_be32_value_of_be32};
use crate::error::Error;
use crate::buffer::buffered;
use crate::peer::{
    byte_of_tag, decode_frame, frame_of, lemma_tag_bytes, Decoded, Message, MessageFramer,
    MessageView,
};
use bytes::BytesMut;
use vstd::prelude::*;

verus! {

/// What a decoder has made of a stream so far.
pub struct Drained {
    /// The messages that were taken out, in their order.
    pub messages: Seq<MessageView>,
    /// What the buffer still holds.
    pub rest: Seq<u8>,
    /// Why the decoder gave up, if it did.
    pub failure: Option<Error>,
}

/// What comes of taking messages out of a buffer that holds `buf` until the
/// decoder asks for more bytes or fails.
///
/// A frame takes at least five bytes, so the test on the length of what is
/// left never fails; it is there to show that the definition is well founded.
pub open spec fn drain(limit: nat, buf: Seq<u8>) -> Drained
    decreases buf.len(),
{
    let (outcome, rest) = decode_frame(limit, buf);
    match outcome {
        Decoded::NeedMore => Drained { messages: Seq::empty(), rest, failure: None },
        Decoded::Failed(e) => Drained { messages: Seq::empty(), rest, failure: Some(e) },
        Decoded::Frame(m) => if rest.len() < buf.len() {
            let after = drain(limit, rest);
            Drained {
                messages: seq![m] + after.messages,
                rest: after.rest,
                failure: after.failure,
            }
        } else {
            Drained { messages: seq![m], rest, failure: None }
        },
    }
}

/// The chunks of a stream, one after the other.
pub open spec fn concat_all(chunks: Seq<Seq<u8>>) -> Seq<u8>
    decreases chunks.len(),
{
    if chunks.len() == 0 {
        Seq::empty()
    } else {
        concat_all(chunks.drop_last()) + chunks.last()
    }
}

/// What comes of handing a stream to a decoder chunk by chunk: after each
/// chunk has gone into the buffer, messages are taken out until the decoder
/// asks for more. A decoder that has failed is handed nothing more.
pub open spec fn feed(limit: nat, chunks: Seq<Seq<u8>>) -> Drained
    decreases chunks.len(),
{
    if chunks.len() == 0 {
        Drained { messages: Seq::empty(), rest: Seq::empty(), failure: None }
    } else {
        let before = feed(limit, chunks.drop_last());
        if before.failure is Some {
            before
        } else {
            let now = drain(limit, before.rest + chunks.last());
            Drained {
                messages: before.messages + now.messages,
                rest: now.rest,
                failure: now.failure,
            }
        }
    }
}

/// An attempt leaves a buffer no longer than it was, and shorter where it
/// took a message out.
pub proof fn lemma_decode_frame_shrinks(limit: nat, buf: Seq<u8>)
    ensures
        decode_frame(limit, buf).1.len() <= buf.len(),
        decode_frame(limit, buf).0 is Frame ==> decode_frame(limit, buf).1.len() + 5
            <= buf.len(),
    decreases buf.len(),
{
    if buf.len() >= 4 && be32_value(buf) == 0 {
        lemma_decode_frame_shrinks(limit, buf.skip(4));
    }
}

/// A frame of length zero carries no message: the attempt goes on behind its
/// four bytes, and a buffer that holds nothing else is left empty and asks
/// for more.
pub proof fn lemma_keep_alive(limit: nat, buf: Seq<u8>)
    requires
        buf.len() >= 4,
        be32_value(buf) == 0,
    ensures
        decode_frame(limit, buf) == decode_frame(limit, buf.skip(4)),
        buf.len() == 4 ==> decode_frame(limit, buf) == (Decoded::NeedMore, Seq::<u8>::empty()),
{
    if buf.len() == 4 {
        assert(decode_frame(limit, buf.skip(4)) == (Decoded::NeedMore, buf.skip(4)));
    }
}

/// A length above the limit fails the attempt whatever follows it, and
/// nothing leaves the buffer.
pub proof fn lemma_oversized_is_fatal(limit: nat, buf: Seq<u8>, more: Seq<u8>)
    requires
        buf.len() >= 4,
        be32_value(buf) > limit,
    ensures
        decode_frame(limit, buf + more) == (Decoded::Failed(Error::OversizedFrame), buf + more),
{
    assert((buf + more).len() >= 4);
}

/// More bytes behind a buffer change nothing of what an attempt has found:
/// a message or a failure stays, with the new bytes behind what was left; and
/// where the attempt asked for more, the next one starts from what was left.
pub proof fn lemma_decode_frame_extend(limit: nat, a: Seq<u8>, b: Seq<u8>)
    ensures
        decode_frame(limit, a).0 is NeedMore ==> decode_frame(limit, a + b) == decode_frame(
            limit,
            decode_frame(limit, a).1 + b,
        ),
        !(decode_frame(limit, a).0 is NeedMore) ==> decode_frame(limit, a + b) == (
            decode_frame(limit, a).0,
            decode_frame(limit, a).1 + b,
        ),
    decreases a.len(),
{
    let all = a + b;
    if a.len() >= 4 {
        let length = be32_value(a) as int;
        if length == 0 {
            assert(all.skip(4) =~= a.skip(4) + b);
            lemma_decode_frame_extend(limit, a.skip(4), b);
        } else if length <= limit && a.len() >= 4 + length {
            assert(all.subrange(5, 4 + length) =~= a.subrange(5, 4 + length));
        }
    }
}

/// Draining a stream in two parts gives what draining it at once gives: the
/// messages of the first part, then those that come out once the second part
/// stands behind what the first part left. A failure in the first part stays,
/// and the second part is never looked at.
pub proof fn lemma_drain_extend(limit: nat, a: Seq<u8>, b: Seq<u8>)
    ensures
        drain(limit, a).failure is None ==> drain(limit, a + b) == (Drained {
            messages: drain(limit, a).messages + drain(limit, drain(limit, a).rest + b).messages,
            rest: drain(limit, drain(limit, a).rest + b).rest,
            failure: drain(limit, drain(limit, a).rest + b).failure,
        }),
        drain(limit, a).failure is Some ==> drain(limit, a + b) == (Drained {
            messages: drain(limit, a).messages,
            rest: drain(limit, a).rest + b,
            failure: drain(limit, a).failure,
        }),
    decreases a.len(),
{
    let (outcome, rest) = decode_frame(limit, a);
    lemma_decode_frame_extend(limit, a, b);
    lemma_decode_frame_shrinks(limit, a);
    lemma_decode_frame_shrinks(limit, a + b);
    lemma_decode_frame_shrinks(limit, rest + b);
    match outcome {
        Decoded::NeedMore => {
            assert(Seq::<MessageView>::empty() + drain(limit, rest + b).messages =~= drain(
                limit,
                rest + b,
            ).messages);
        },
        Decoded::Failed(e) => {},
        Decoded::Frame(m) => {
            lemma_drain_extend(limit, rest, b);
            let first = drain(limit, rest);
            if first.failure is None {
                let second = drain(limit, first.rest + b);
                assert(seq![m] + (first.messages + second.messages) =~= (seq![m]
                    + first.messages) + second.messages);
            }
        },
    }
}

/// Handing a stream to a decoder in chunks, however it is cut, gives the
/// messages that handing it over at once gives, in the same order, and the
/// same failure if there is one; where there is none, the same bytes are
/// left in the buffer. Chunks of one byte each are one way to cut it.
pub proof fn lemma_feed_is_drain(limit: nat, chunks: Seq<Seq<u8>>)
    ensures
        feed(limit, chunks).messages == drain(limit, concat_all(chunks)).messages,
        feed(limit, chunks).failure == drain(limit, concat_all(chunks)).failure,
        feed(limit, chunks).failure is None ==> feed(limit, chunks).rest == drain(
            limit,
            concat_all(chunks),
        ).rest,
    decreases chunks.len(),
{
    if chunks.len() > 0 {
        lemma_feed_is_drain(limit, chunks.drop_last());
        lemma_drain_extend(limit, concat_all(chunks.drop_last()), chunks.last());
    }
}

/// Whether the message `m` can go into a frame under `limit`: its kind and
/// its payload together are no longer than the limit, and their length fits
/// in the four bytes of the prefix.
pub open spec fn fits(limit: nat, m: MessageView) -> bool {
    1 + m.payload.len() <= limit && 1 + m.payload.len() <= u32::MAX
}

/// The frames of `messages`, one after the other.
pub open spec fn frames_of(messages: Seq<MessageView>) -> Seq<u8>
    decreases messages.len(),
{
    if messages.len() == 0 {
        Seq::empty()
    } else {
        frame_of(messages[0]) + frames_of(messages.skip(1))
    }
}

/// A frame that was written is read back as the message that it carries,
/// and what stands behind it is left in the buffer.
pub proof fn lemma_frame_is_read_back(limit: nat, m: MessageView, more: Seq<u8>)
    requires
        fits(limit, m),
    ensures
        decode_frame(limit, frame_of(m) + more) == (Decoded::Frame(m), more),
{
    let length = (1 + m.payload.len()) as u32;
    let buf = frame_of(m) + more;
    lemma_be32_value_of_be32(length);
    lemma_tag_bytes(m.tag, 0);
    assert(buf[0] == be32(length)[0] && buf[1] == be32(length)[1] && buf[2] == be32(length)[2]
        && buf[3] == be32(length)[3]);
    assert(buf.subrange(5, 4 + length) =~= m.payload);
}

/// Frames that were written one after the other are read back as the
/// messages that they carry, in their order, and nothing is left over.
pub proof fn lemma_frames_are_read_back(limit: nat, messages: Seq<MessageView>)
    requires
        forall|i: int| 0 <= i < messages.len() ==> fits(limit, #[trigger] messages[i]),
    ensures
        drain(limit, frames_of(messages)) == (Drained {
            messages,
            rest: Seq::empty(),
            failure: None,
        }),
    decreases messages.len(),
{
    if messages.len() > 0 {
        let others = messages.skip(1);
        assert forall|i: int| 0 <= i < others.len() implies fits(limit, #[trigger] others[i]) by {}
        lemma_frame_is_read_back(limit, messages[0], frames_of(others));
        lemma_frames_are_read_back(limit, others);
        assert(seq![messages[0]] + others =~= messages);
    } else {
        assert(decode_frame(limit, frames_of(messages)) == (
            Decoded::NeedMore,
            frames_of(messages),
        ));
        assert(messages =~= Seq::<MessageView>::empty());
    }
}

/// The models of `messages`, in their order.
pub open spec fn views(messages: Seq<Message>) -> Seq<MessageView> {
    messages.map_values(|m: Message| m@)
}

impl MessageFramer {
    /// Takes out of `src` every message that it holds, until `src` asks for
    /// more bytes or starts with what can be no frame: the messages, in
    /// their order, and the failure, if there was one.
    pub fn drain(&mut self, src: &mut BytesMut) -> (r: (Vec<Message>, Option<Error>))
        requires
            old(self).config.wf(),
        ensures
            *final(self) == *old(self),
            views(r.0@) == drain(
                old(self).config.max_inbound_frame as nat,
                buffered(*old(src)),
            ).messages,
            r.1 == drain(old(self).config.max_inbound_frame as nat, buffered(*old(src))).failure,
            buffered(*final(src)) == drain(
                old(self).config.max_inbound_frame as nat,
                buffered(*old(src)),
            ).rest,
    {
        let ghost limit = self.config.max_inbound_frame as nat;
        let ghost whole = drain(limit, buffered(*src));
        let mut messages: Vec<Message> = Vec::new();
        assert(views(messages@) =~= Seq::empty());
        assert(Seq::<MessageView>::empty() + whole.messages =~= whole.messages);
        loop
            invariant
                *self == *old(self),
                self.config.wf(),
                limit == self.config.max_inbound_frame as nat,
                whole == drain(limit, buffered(*old(src))),
                whole.messages == views(messages@) + drain(limit, buffered(*src)).messages,
                whole.rest == drain(limit, buffered(*src)).rest,
                whole.failure == drain(limit, buffered(*src)).failure,
            decreases buffered(*src).len(),
        {
            let ghost before = buffered(*src);
            proof {
                lemma_decode_frame_shrinks(limit, before);
            }
            match self.decode(src) {
                Ok(Some(message)) => {
                    proof {
                        let after = drain(limit, buffered(*src));
                        assert(views(messages@.push(message)) =~= views(messages@).push(message@));
                        assert(views(messages@).push(message@) + after.messages =~= views(
                            messages@,
                        ) + (seq![message@] + after.messages));
                    }
                    messages.push(message);
                },
                Ok(None) => {
                    assert(views(messages@) + Seq::<MessageView>::empty() =~= views(messages@));
                    return (messages, None);
                },
                Err(e) => {
                    assert(views(messages@) + Seq::<MessageView>::empty() =~= views(messages@));
                    return (messages, Some(e));
                },
            }
        }
    }
}

} // verus!
