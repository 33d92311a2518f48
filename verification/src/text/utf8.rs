//! Texts as the bytes that hold them.
use crate::text::scan::width;
use vstd::prelude::*;
use vstd::utf8::{encode_scalar, encode_utf8};

verus! {

/// How many bytes a text takes in UTF-8.
pub open spec fn utf8_length(text: Seq<char>) -> nat
    decreases text.len(),
{
    if text.len() == 0 {
        0
    } else {
        utf8_length(text.drop_last()) + width(text.last())
    }
}

/// Computes [`width`].
pub fn char_width(c: char) -> (r: usize)
    ensures
        r == width(c),
        1 <= r <= 4,
{
    if (c as u32) < 0x80 {
        1
    } else if (c as u32) < 0x800 {
        2
    } else if (c as u32) < 0x10000 {
        3
    } else {
        4
    }
}

/// The width of a character is the number of its bytes.
pub proof fn width_counts_bytes(c: char)
    ensures
        encode_scalar(c as u32).len() == width(c),
{
    let u = c as u32;
    assert(u <= 0x7F <==> u < 0x80);
}

/// Two texts one after the other are their bytes one after the other.
pub proof fn bytes_of_concatenation(a: Seq<char>, b: Seq<char>)
    ensures
        encode_utf8(a + b) == encode_utf8(a) + encode_utf8(b),
    decreases a.len(),
{
    if a.len() == 0 {
        assert(a + b =~= b);
        assert(encode_utf8(a) =~= Seq::empty());
        assert(encode_utf8(a) + encode_utf8(b) =~= encode_utf8(b));
    } else {
        assert((a + b).drop_first() =~= a.drop_first() + b);
        bytes_of_concatenation(a.drop_first(), b);
        assert((a + b)[0] == a[0]);
        assert(encode_utf8(a + b) =~= encode_utf8(a) + encode_utf8(b));
    }
}

/// The bytes of one character.
pub proof fn bytes_of_character(c: char)
    ensures
        encode_utf8(seq![c]) == encode_scalar(c as u32),
        encode_utf8(seq![c]).len() == width(c),
{
    width_counts_bytes(c);
    let t = seq![c];
    assert(t.drop_first() =~= Seq::empty());
    assert(encode_utf8(t.drop_first()) =~= Seq::empty());
    assert(encode_utf8(t) =~= encode_scalar(c as u32));
}

/// The length of a text in UTF-8 is the number of its bytes.
pub proof fn utf8_length_counts_bytes(text: Seq<char>)
    ensures
        utf8_length(text) == encode_utf8(text).len(),
    decreases text.len(),
{
    if text.len() == 0 {
        assert(encode_utf8(text) =~= Seq::empty());
    } else {
        utf8_length_counts_bytes(text.drop_last());
        bytes_of_concatenation(text.drop_last(), seq![text.last()]);
        bytes_of_character(text.last());
        assert(text.drop_last() + seq![text.last()] =~= text);
    }
}

/// A line break is one byte, and that byte stands in no other character.
pub proof fn only_breaks_hold_the_break_byte(c: char, i: int)
    requires
        0 <= i < encode_utf8(seq![c]).len(),
    ensures
        encode_utf8(seq![c])[i] == 10u8 <==> c == '\n',
{
    bytes_of_character(c);
    let u = c as u32;
    assert(u < 0x110000);
    break_byte(u);
    assert(('\n' as u32) == 10u32);
}

proof fn break_byte(u: u32)
    requires
        u < 0x110000,
    ensures
        u != 10 ==> forall|i: int|
            0 <= i < encode_scalar(u).len() ==> #[trigger] encode_scalar(u)[i] != 10u8,
        u == 10 ==> encode_scalar(u) == seq![10u8],
{
    assert(u < 0x80 && u != 10 ==> (u & 0x7F) as u8 != 10u8) by (bit_vector);
    assert((10u32 & 0x7F) as u8 == 10u8) by (bit_vector);
    assert((0xC0u8 | ((u >> 6) & 0x1F) as u8) != 10u8) by (bit_vector);
    assert((0xE0u8 | ((u >> 12) & 0x0F) as u8) != 10u8) by (bit_vector);
    assert((0xF0u8 | ((u >> 18) & 0x07) as u8) != 10u8) by (bit_vector);
    assert((0x80u8 | (u & 0x3F) as u8) != 10u8) by (bit_vector);
    assert((0x80u8 | ((u >> 6) & 0x3F) as u8) != 10u8) by (bit_vector);
    assert((0x80u8 | ((u >> 12) & 0x3F) as u8) != 10u8) by (bit_vector);
}

/// A space is one byte.
pub proof fn bytes_of_spaces(n: nat)
    ensures
        encode_utf8(Seq::new(n, |i: int| ' ')) == Seq::new(n, |i: int| 32u8),
    decreases n,
{
    let t = Seq::new(n, |i: int| ' ');
    if n == 0 {
        assert(encode_utf8(t) =~= Seq::new(n, |i: int| 32u8));
    } else {
        let m = (n - 1) as nat;
        bytes_of_spaces(m);
        assert(t.drop_first() =~= Seq::new(m, |i: int| ' '));
        assert((32u32 & 0x7F) as u8 == 32u8) by (bit_vector);
        assert((' ' as u32) == 32u32);
        assert(encode_scalar(32u32) =~= seq![32u8]);
        assert(encode_utf8(t) =~= Seq::new(n, |i: int| 32u8));
    }
}

/// The lengths of two texts add up.
pub proof fn utf8_length_of_concatenation(a: Seq<char>, b: Seq<char>)
    ensures
        utf8_length(a + b) == utf8_length(a) + utf8_length(b),
{
    utf8_length_counts_bytes(a);
    utf8_length_counts_bytes(b);
    utf8_length_counts_bytes(a + b);
    bytes_of_concatenation(a, b);
}

} // verus!
