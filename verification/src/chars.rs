//! Text whose characters are single bytes taken as code points (as when a
//! byte is widened to a `char`), and its UTF-8 encoding.
use vstd::prelude::*;

verus! {

/// The UTF-8 encoding of the character whose code point is `c`.
pub open spec fn char_utf8(c: u8) -> Seq<u8> {
    if c < 0x80 {
        seq![c]
    } else {
        seq![0xC0u8 | (c >> 6u8), 0x80u8 | (c & 0x3Fu8)]
    }
}

/// The UTF-8 encoding of a line whose characters have the code points `line`.
pub open spec fn line_utf8(line: Seq<u8>) -> Seq<u8>
    decreases line.len(),
{
    if line.len() == 0 {
        seq![]
    } else {
        line_utf8(line.drop_last()) + char_utf8(line.last())
    }
}

/// The UTF-8 encoding of the characters whose code points are `line`.
pub fn encode_chars(line: &Vec<u8>) -> (r: Vec<u8>)
    ensures
        r@ == line_utf8(line@),
{
    let mut out: Vec<u8> = Vec::new();
    let mut i: usize = 0;
    while i < line.len()
        invariant
            i <= line.len(),
            out@ == line_utf8(line@.take(i as int)),
        decreases line.len() - i,
    {
        let c = line[i];
        assert(line@.take(i as int + 1).drop_last() == line@.take(i as int));
        if c < 0x80 {
            out.push(c);
        } else {
            out.push(0xC0u8 | (c >> 6u8));
            out.push(0x80u8 | (c & 0x3Fu8));
        }
        i = i + 1;
    }
    assert(line@.take(line.len() as int) == line@);
    out
}

/// The UTF-8 encoding of a character: an ASCII character (below 0x80) is
/// its own byte; any other is a lead byte `110xxxxx` and a continuation byte
/// `10xxxxxx` whose payload bits, put together, give the code point back.
pub proof fn lemma_char_utf8_decodes(c: u8)
    ensures
        c < 0x80 ==> char_utf8(c) == seq![c],
        c >= 0x80 ==> {
            let b = char_utf8(c);
            &&& b.len() == 2
            &&& b[0] & 0xE0u8 == 0xC0u8
            &&& b[1] & 0xC0u8 == 0x80u8
            &&& ((b[0] & 0x1Fu8) as u32) * 64 + ((b[1] & 0x3Fu8) as u32) == c as u32
        },
{
    if c >= 0x80 {
        let b0 = 0xC0u8 | (c >> 6u8);
        let b1 = 0x80u8 | (c & 0x3Fu8);
        assert(b0 & 0xE0u8 == 0xC0u8) by (bit_vector)
            requires b0 == 0xC0u8 | (c >> 6u8);
        assert(b1 & 0xC0u8 == 0x80u8) by (bit_vector)
            requires b1 == 0x80u8 | (c & 0x3Fu8);
        assert(((b0 & 0x1Fu8) as u32) * 64 + ((b1 & 0x3Fu8) as u32) == c as u32) by (bit_vector)
            requires b0 == 0xC0u8 | (c >> 6u8), b1 == 0x80u8 | (c & 0x3Fu8);
    }
}

/// A line of ASCII characters is its own UTF-8 encoding.
pub proof fn lemma_ascii_line(line: Seq<u8>)
    requires
        forall|i: int| 0 <= i < line.len() ==> #[trigger] line[i] < 0x80,
    ensures
        line_utf8(line) == line,
    decreases line.len(),
{
    if line.len() > 0 {
        let init = line.drop_last();
        assert forall|i: int| 0 <= i < init.len() implies #[trigger] init[i] < 0x80 by {
            assert(init[i] == line[i]);
        }
        lemma_ascii_line(init);
        lemma_char_utf8_decodes(line.last());
        assert(init + seq![line.last()] =~= line);
    }
}

} // verus!
