//! The byte layout shared by everything this engine puts on a wire or on
//! disk: a text block is a four-byte big-endian length followed by that many
//! bytes of UTF-8.

use crate::text::string_from_utf8;
use vstd::prelude::*;
use vstd::slice::{slice_subrange, slice_to_vec};
use vstd::utf8::{decode_utf8, encode_utf8, valid_utf8};

verus! {

/// The longest text, in bytes of UTF-8, that a block may carry.
pub const MAX_TEXT_LEN: usize = 1048576;

/// `n` as four bytes, most significant first.
pub open spec fn be32(n: int) -> Seq<u8> {
    seq![
        (n / 16777216) as u8,
        ((n / 65536) % 256) as u8,
        ((n / 256) % 256) as u8,
        (n % 256) as u8,
    ]
}

/// The number that the first four bytes of `b` spell, most significant first.
pub open spec fn from_be32(b: Seq<u8>) -> int {
    b[0] * 16777216 + b[1] * 65536 + b[2] * 256 + b[3]
}

/// A text short enough for a block.
pub open spec fn fits(text: Seq<char>) -> bool {
    encode_utf8(text).len() <= MAX_TEXT_LEN
}

/// The block that carries `text`.
pub open spec fn block(text: Seq<char>) -> Seq<u8> {
    be32(encode_utf8(text).len() as int) + encode_utf8(text)
}

/// What the front of a byte sequence holds.
pub enum BlockParse {
    /// Too few bytes yet for a whole block.
    Incomplete,
    /// No block can start like this: the length is over the limit or the
    /// payload is not UTF-8.
    Invalid,
    /// A whole block of `used` bytes carrying `text`.
    Complete { text: Seq<char>, used: int },
}

/// Reads one block from the front of `bytes`.
pub open spec fn parse_block(bytes: Seq<u8>) -> BlockParse {
    if bytes.len() < 4 {
        BlockParse::Incomplete
    } else {
        let n = from_be32(bytes);
        if n > MAX_TEXT_LEN {
            BlockParse::Invalid
        } else if bytes.len() < 4 + n {
            BlockParse::Incomplete
        } else if !valid_utf8(bytes.subrange(4, 4 + n)) {
            BlockParse::Invalid
        } else {
            BlockParse::Complete { text: decode_utf8(bytes.subrange(4, 4 + n)), used: 4 + n }
        }
    }
}

/// Four bytes spell the number they were made from.
pub proof fn lemma_be32_roundtrip(n: int)
    requires
        0 <= n < 4294967296,
    ensures
        be32(n).len() == 4,
        from_be32(be32(n)) == n,
{
}

/// A block followed by anything reads back as the text it was made from.
pub proof fn lemma_block_roundtrip(text: Seq<char>, rest: Seq<u8>)
    requires
        fits(text),
    ensures
        parse_block(block(text) + rest) == (BlockParse::Complete {
            text,
            used: block(text).len() as int,
        }),
{
    let payload = encode_utf8(text);
    let n = payload.len() as int;
    let bytes = block(text) + rest;
    lemma_be32_roundtrip(n);
    assert(bytes[0] == be32(n)[0] && bytes[1] == be32(n)[1] && bytes[2] == be32(n)[2] && bytes[3]
        == be32(n)[3]);
    assert(from_be32(bytes) == n);
    assert(bytes.subrange(4, 4 + n) =~= payload);
    vstd::utf8::encode_utf8_valid_utf8(text);
    vstd::utf8::encode_utf8_decode_utf8(text);
}

/// Only one byte sequence reads as a given block: the one `block` makes.
pub proof fn lemma_parse_block_canonical(bytes: Seq<u8>)
    requires
        parse_block(bytes) is Complete,
    ensures
        ({
            let text = parse_block(bytes)->text;
            let used = parse_block(bytes)->used;
            &&& fits(text)
            &&& 4 <= used <= bytes.len()
            &&& bytes.take(used) == block(text)
        }),
{
    let n = from_be32(bytes);
    let payload = bytes.subrange(4, 4 + n);
    vstd::utf8::decode_utf8_encode_utf8(payload);
    assert(0 <= n);
    assert(be32(n) =~= bytes.take(4)) by {
        assert(bytes[0] as int == n / 16777216);
        assert(bytes[1] as int == (n / 65536) % 256);
        assert(bytes[2] as int == (n / 256) % 256);
        assert(bytes[3] as int == n % 256);
    }
    assert(bytes.take(4 + n) =~= bytes.take(4) + payload);
}

/// What [`read_block`] found.
#[derive(Debug, PartialEq, Eq)]
pub enum Block {
    Incomplete,
    Invalid,
    Complete { text: String, used: usize },
}

impl View for Block {
    type V = BlockParse;

    open spec fn view(&self) -> BlockParse {
        match *self {
            Block::Incomplete => BlockParse::Incomplete,
            Block::Invalid => BlockParse::Invalid,
            Block::Complete { text, used } => BlockParse::Complete { text: text@, used: used as int },
        }
    }
}

/// Appends `src` to `out`.
pub fn append_bytes(out: &mut Vec<u8>, src: &[u8])
    ensures
        final(out)@ == old(out)@ + src@,
{
    let mut i: usize = 0;
    while i < src.len()
        invariant
            i <= src.len(),
            out@ == old(out)@ + src@.take(i as int),
        decreases src.len() - i,
    {
        out.push(src[i]);
        i = i + 1;
        assert(out@ =~= old(out)@ + src@.take(i as int));
    }
    assert(src@.take(src.len() as int) =~= src@);
}

/// Appends the block that carries `text` to `out`, if the text is short
/// enough for one. Returns whether it was; if not, `out` is left as it is.
pub fn append_block(out: &mut Vec<u8>, text: &str) -> (ok: bool)
    ensures
        ok == fits(text@),
        ok ==> final(out)@ == old(out)@ + block(text@),
        !ok ==> final(out)@ == old(out)@,
{
    let payload = text.as_bytes();
    let n = payload.len();
    if n > MAX_TEXT_LEN {
        return false;
    }
    out.push((n / 16777216) as u8);
    out.push(((n / 65536) % 256) as u8);
    out.push(((n / 256) % 256) as u8);
    out.push((n % 256) as u8);
    assert(out@ =~= old(out)@ + be32(n as int));
    append_bytes(out, payload);
    assert(out@ =~= old(out)@ + block(text@));
    true
}

/// The bytes of `bytes` from index `from` on; none if `from` is past the end.
pub open spec fn remaining(bytes: Seq<u8>, from: int) -> Seq<u8> {
    if 0 <= from <= bytes.len() {
        bytes.skip(from)
    } else {
        Seq::empty()
    }
}

/// Reads one block from `bytes`, starting at `from`.
pub fn read_block(bytes: &[u8], from: usize) -> (r: Block)
    ensures
        r@ == parse_block(remaining(bytes@, from as int)),
        r matches Block::Complete { used, .. } ==> from + used <= bytes.len(),
{
    if from > bytes.len() || bytes.len() - from < 4 {
        return Block::Incomplete;
    }
    let ghost input = bytes@.skip(from as int);
    let n: u64 = (bytes[from] as u64) * 16777216 + (bytes[from + 1] as u64) * 65536 + (bytes[from
        + 2] as u64) * 256 + (bytes[from + 3] as u64);
    assert(n == from_be32(input));
    if n > MAX_TEXT_LEN as u64 {
        return Block::Invalid;
    }
    let n = n as usize;
    if bytes.len() - from - 4 < n {
        return Block::Incomplete;
    }
    let payload = slice_to_vec(slice_subrange(bytes, from + 4, from + 4 + n));
    assert(payload@ =~= input.subrange(4, 4 + n));
    match string_from_utf8(payload) {
        Some(text) => Block::Complete { text, used: 4 + n },
        None => Block::Invalid,
    }
}

/// Every text of `texts` is short enough for a block.
pub open spec fn all_fit(texts: Seq<Seq<char>>) -> bool {
    forall|i: int| 0 <= i < texts.len() ==> fits(#[trigger] texts[i])
}

/// The blocks of `texts`, one after the other.
pub open spec fn blocks(texts: Seq<Seq<char>>) -> Seq<u8>
    decreases texts.len(),
{
    if texts.len() == 0 {
        Seq::empty()
    } else {
        block(texts[0]) + blocks(texts.drop_first())
    }
}

/// Reads `bytes` as exactly `count` blocks with nothing before, between or
/// after them.
pub open spec fn parse_blocks(bytes: Seq<u8>, count: nat) -> Option<Seq<Seq<char>>>
    decreases count,
{
    if count == 0 {
        if bytes.len() == 0 {
            Some(Seq::empty())
        } else {
            None
        }
    } else {
        match parse_block(bytes) {
            BlockParse::Complete { text, used } => match parse_blocks(
                bytes.skip(used),
                (count - 1) as nat,
            ) {
                Some(rest) => Some(seq![text] + rest),
                None => None,
            },
            _ => None,
        }
    }
}

/// Blocks read back as the texts they were made from.
pub proof fn lemma_blocks_roundtrip(texts: Seq<Seq<char>>)
    requires
        all_fit(texts),
    ensures
        parse_blocks(blocks(texts), texts.len()) == Some(texts),
    decreases texts.len(),
{
    if texts.len() > 0 {
        let rest = texts.drop_first();
        assert(fits(texts[0]));
        assert forall|i: int| 0 <= i < rest.len() implies fits(#[trigger] rest[i]) by {
            assert(rest[i] == texts[i + 1]);
        }
        lemma_block_roundtrip(texts[0], blocks(rest));
        lemma_blocks_roundtrip(rest);
        assert(blocks(texts).skip(block(texts[0]).len() as int) =~= blocks(rest));
        assert(seq![texts[0]] + rest =~= texts);
    }
}

/// Only one byte sequence reads as given texts: the one `blocks` makes.
pub proof fn lemma_parse_blocks_canonical(bytes: Seq<u8>, count: nat)
    requires
        parse_blocks(bytes, count) is Some,
    ensures
        parse_blocks(bytes, count)->0.len() == count,
        all_fit(parse_blocks(bytes, count)->0),
        bytes == blocks(parse_blocks(bytes, count)->0),
    decreases count,
{
    if count == 0 {
        assert(bytes =~= Seq::<u8>::empty());
    } else {
        let text = parse_block(bytes)->text;
        let used = parse_block(bytes)->used;
        lemma_parse_block_canonical(bytes);
        lemma_parse_blocks_canonical(bytes.skip(used), (count - 1) as nat);
        let rest = parse_blocks(bytes.skip(used), (count - 1) as nat)->0;
        let texts = seq![text] + rest;
        assert(texts.drop_first() =~= rest);
        assert forall|i: int| 0 <= i < texts.len() implies fits(#[trigger] texts[i]) by {
            if i > 0 {
                assert(texts[i] == rest[i - 1]);
            }
        }
        assert(bytes =~= bytes.take(used) + bytes.skip(used));
    }
}

/// Reads `bytes` from `from` to its end as exactly `count` blocks.
pub fn read_blocks(bytes: &[u8], from: usize, count: usize) -> (r: Option<Vec<String>>)
    ensures
        r.deep_view() == parse_blocks(remaining(bytes@, from as int), count as nat),
{
    if from > bytes.len() {
        // Nothing is left to read: only zero blocks can be read from nothing.
        return if count == 0 {
            let out: Vec<String> = Vec::new();
            assert(out.deep_view() =~= Seq::<Seq<char>>::empty());
            Some(out)
        } else {
            None
        };
    }
    let ghost start = bytes@.skip(from as int);
    let mut out: Vec<String> = Vec::new();
    let mut pos: usize = from;
    let mut i: usize = 0;
    assert(out.deep_view() =~= Seq::<Seq<char>>::empty());
    assert(forall|rest: Seq<Seq<char>>| #[trigger] (out.deep_view() + rest) =~= rest);
    while i < count
        invariant
            i <= count,
            from <= pos <= bytes.len(),
            start == bytes@.skip(from as int),
            parse_blocks(start, count as nat) == match parse_blocks(
                bytes@.skip(pos as int),
                (count - i) as nat,
            ) {
                Some(rest) => Some(out.deep_view() + rest),
                None => None,
            },
        decreases count - i,
    {
        let ghost here = bytes@.skip(pos as int);
        let ghost before = out.deep_view();
        match read_block(bytes, pos) {
            Block::Complete { text, used } => {
                proof {
                    assert(here.skip(used as int) =~= bytes@.skip(pos + used));
                    assert forall|rest: Seq<Seq<char>>|
                        before + (seq![text@] + rest) == #[trigger] (before.push(text@) + rest) by {
                        assert(before + (seq![text@] + rest) =~= before.push(text@) + rest);
                    }
                }
                out.push(text);
                assert(out.deep_view() =~= before.push(text@));
                pos = pos + used;
                i = i + 1;
            },
            _ => {
                return None;
            },
        }
    }
    if pos == bytes.len() {
        assert(bytes@.skip(pos as int).len() == 0);
        assert(out.deep_view() + Seq::<Seq<char>>::empty() =~= out.deep_view());
        Some(out)
    } else {
        None
    }
}

} // verus!
