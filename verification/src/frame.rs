//! Message framing for the transport: a connection's byte stream is a run of
//! text blocks, one per message, and may arrive cut into chunks anywhere.

use crate::wire::{append_block, parse_block, read_block, Block, BlockParse};
use vstd::prelude::*;
use vstd::slice::{slice_subrange, slice_to_vec};

verus! {

/// What a byte stream decodes to.
pub struct Decoded {
    /// The messages of the whole blocks at the front, in order.
    pub messages: Seq<Seq<char>>,
    /// The bytes after them: the beginning of a block that is not whole yet.
    /// Empty once decoding has failed.
    pub rest: Seq<u8>,
    /// Whether the stream broke the framing.
    pub failed: bool,
}

/// `d` with `messages` put in front of its messages.
pub open spec fn preceded_by(messages: Seq<Seq<char>>, d: Decoded) -> Decoded {
    Decoded { messages: messages + d.messages, ..d }
}

/// Decodes a byte stream from its start: block after block until the bytes
/// run out in the middle of one, or one is invalid.
pub open spec fn decode_stream(bytes: Seq<u8>) -> Decoded
    decreases bytes.len(),
{
    match parse_block(bytes) {
        BlockParse::Incomplete => Decoded { messages: Seq::empty(), rest: bytes, failed: false },
        BlockParse::Invalid => Decoded { messages: Seq::empty(), rest: Seq::empty(), failed: true },
        BlockParse::Complete { text, used } => if 4 <= used <= bytes.len() {
            preceded_by(seq![text], decode_stream(bytes.skip(used)))
        } else {
            Decoded { messages: Seq::empty(), rest: Seq::empty(), failed: true }
        },
    }
}

/// The frame that carries `text`: one text block.
pub open spec fn frame(text: Seq<char>) -> Seq<u8> {
    crate::wire::block(text)
}

/// What the front of a stream holds does not depend on what follows it, once
/// it is decided.
pub proof fn lemma_parse_block_prefix(a: Seq<u8>, b: Seq<u8>)
    ensures
        parse_block(a) is Invalid ==> parse_block(a + b) is Invalid,
        parse_block(a) is Complete ==> parse_block(a + b) == parse_block(a),
{
    if a.len() >= 4 {
        let ab = a + b;
        assert(ab[0] == a[0] && ab[1] == a[1] && ab[2] == a[2] && ab[3] == a[3]);
        let n = crate::wire::from_be32(a);
        if n <= crate::wire::MAX_TEXT_LEN && a.len() >= 4 + n {
            assert(ab.subrange(4, 4 + n) =~= a.subrange(4, 4 + n));
        }
    }
}

/// Cutting a stream in two anywhere changes nothing: decoding the first part
/// and then what it left over together with the second part gives the
/// messages of the whole, in order, and leaves over the same bytes.
pub proof fn law_chunking_is_invisible(a: Seq<u8>, b: Seq<u8>)
    ensures
        decode_stream(a + b) == if decode_stream(a).failed {
            decode_stream(a)
        } else {
            preceded_by(decode_stream(a).messages, decode_stream(decode_stream(a).rest + b))
        },
    decreases a.len(),
{
    lemma_parse_block_prefix(a, b);
    match parse_block(a) {
        BlockParse::Incomplete => {
            let d = decode_stream(a + b);
            assert(Seq::<Seq<char>>::empty() + d.messages =~= d.messages);
        },
        BlockParse::Invalid => {},
        BlockParse::Complete { text, used } => {
            let a1 = a.skip(used);
            assert((a + b).skip(used) =~= a1 + b);
            law_chunking_is_invisible(a1, b);
            let d1 = decode_stream(a1);
            if !d1.failed {
                let d2 = decode_stream(d1.rest + b);
                assert(seq![text] + (d1.messages + d2.messages) =~= (seq![text] + d1.messages)
                    + d2.messages);
            }
        },
    }
}

/// A frame followed by more stream decodes to its message followed by what
/// the rest decodes to.
pub proof fn lemma_frame_decodes(text: Seq<char>, rest: Seq<u8>)
    requires
        crate::wire::fits(text),
    ensures
        decode_stream(frame(text) + rest) == preceded_by(seq![text], decode_stream(rest)),
{
    crate::wire::lemma_block_roundtrip(text, rest);
    assert((frame(text) + rest).skip(frame(text).len() as int) =~= rest);
}

/// Frames `text` for sending. `None` if the text is too long for a frame.
pub fn encode_frame(text: &str) -> (r: Option<Vec<u8>>)
    ensures
        r is Some <==> crate::wire::fits(text@),
        r matches Some(bytes) ==> bytes@ == frame(text@),
{
    let mut out: Vec<u8> = Vec::new();
    if append_block(&mut out, text) {
        assert(out@ =~= frame(text@));
        Some(out)
    } else {
        None
    }
}

/// The inbound side of one connection: holds the bytes of a frame that has
/// not arrived whole yet.
pub struct FrameDecoder {
    buffer: Vec<u8>,
    failed: bool,
}

/// Mathematical value of a [`FrameDecoder`].
pub struct FrameDecoderView {
    /// Bytes received and not yet turned into a message.
    pub buffered: Seq<u8>,
    /// Whether the stream has broken the framing; nothing more is decoded then.
    pub failed: bool,
}

impl View for FrameDecoder {
    type V = FrameDecoderView;

    closed spec fn view(&self) -> FrameDecoderView {
        FrameDecoderView { buffered: self.buffer@, failed: self.failed }
    }
}

impl FrameDecoder {
    /// A decoder at the start of a stream.
    pub fn new() -> (r: Self)
        ensures
            r@.buffered == Seq::<u8>::empty(),
            !r@.failed,
    {
        FrameDecoder { buffer: Vec::new(), failed: false }
    }

    /// Whether the stream has broken the framing.
    pub fn has_failed(&self) -> (r: bool)
        ensures
            r == self@.failed,
    {
        self.failed
    }

    /// Number of bytes held back for a frame that is not whole yet.
    pub fn buffered_len(&self) -> (r: usize)
        ensures
            r == self@.buffered.len(),
    {
        self.buffer.len()
    }

    /// Takes in the next chunk of the stream and returns the messages that
    /// are whole now, in order. Bytes of an unfinished frame are kept for the
    /// next call. Once a frame is invalid the decoder has failed: it drops
    /// what it holds and ignores all further input.
    pub fn push(&mut self, chunk: &[u8]) -> (messages: Vec<String>)
        ensures
            old(self)@.failed ==> messages@.len() == 0 && final(self)@ == old(self)@,
            !old(self)@.failed ==> ({
                let d = decode_stream(old(self)@.buffered + chunk@);
                &&& messages.deep_view() == d.messages
                &&& final(self)@.buffered == d.rest
                &&& final(self)@.failed == d.failed
            }),
    {
        let mut messages: Vec<String> = Vec::new();
        if self.failed {
            return messages;
        }
        crate::wire::append_bytes(&mut self.buffer, chunk);
        let ghost all = self.buffer@;
        let mut pos: usize = 0;
        let mut done = false;
        let mut failed = false;
        assert(all.skip(0) =~= all);
        assert(messages.deep_view() + decode_stream(all).messages =~= decode_stream(all).messages);
        while !done
            invariant
                all == self.buffer@,
                pos <= all.len(),
                failed ==> done,
                decode_stream(all) == preceded_by(
                    messages.deep_view(),
                    decode_stream(all.skip(pos as int)),
                ),
                done ==> if failed {
                    parse_block(all.skip(pos as int)) is Invalid
                } else {
                    parse_block(all.skip(pos as int)) is Incomplete
                },
            decreases all.len() - pos + if done { 0int } else { 1int },
        {
            let ghost here = all.skip(pos as int);
            match read_block(self.buffer.as_slice(), pos) {
                Block::Incomplete => {
                    done = true;
                },
                Block::Invalid => {
                    failed = true;
                    done = true;
                },
                Block::Complete { text, used } => {
                    let ghost before = messages.deep_view();
                    let ghost next = decode_stream(here.skip(used as int));
                    proof {
                        assert(here.skip(used as int) =~= all.skip(pos + used));
                        assert(before + (seq![text@] + next.messages) =~= before.push(text@)
                            + next.messages);
                    }
                    messages.push(text);
                    assert(messages.deep_view() =~= before.push(text@));
                    pos = pos + used;
                },
            }
        }
        proof {
            let d = decode_stream(all.skip(pos as int));
            assert(messages.deep_view() + d.messages =~= messages.deep_view());
        }
        if failed {
            self.failed = true;
            self.buffer = Vec::new();
        } else {
            let tail = slice_to_vec(slice_subrange(self.buffer.as_slice(), pos, self.buffer.len()));
            assert(tail@ =~= all.skip(pos as int));
            self.buffer = tail;
        }
        messages
    }
}

} // verus!
