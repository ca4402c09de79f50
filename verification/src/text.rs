//! Strings: their length in bytes, appending to them, and slicing off the
//! first word.

use vstd::prelude::*;
use vstd::string::StringExecFns;
use vstd::string::StringSliceAdditionalSpecFns;
use vstd::utf8::*;

verus! {

/// The byte that encodes a space.
pub const SPACE: u8 = 0x20;

/// The number of bytes that a text takes in UTF-8.
pub open spec fn byte_length(text: Seq<char>) -> nat {
    encode_utf8(text).len()
}

/// The number of characters in front of the first space of `text`, or the
/// number of all its characters where it holds no space.
pub open spec fn space_index(text: Seq<char>) -> int
    decreases text.len(),
{
    if text.len() == 0 || text[0] == ' ' {
        0
    } else {
        1 + space_index(text.drop_first())
    }
}

/// The part of `text` in front of its first space; all of it where it holds
/// no space.
pub open spec fn first_word(text: Seq<char>) -> Seq<char> {
    text.take(space_index(text))
}

/// `space_index` is the least position that holds a space, and the length
/// of the text if there is none.
pub proof fn lemma_space_index(text: Seq<char>)
    ensures
        0 <= space_index(text) <= text.len(),
        forall|j: int| 0 <= j < space_index(text) ==> text[j] != ' ',
        space_index(text) < text.len() ==> text[space_index(text)] == ' ',
    decreases text.len(),
{
    if text.len() == 0 || text[0] == ' ' {
    } else {
        let rest = text.drop_first();
        lemma_space_index(rest);
        assert forall|j: int| 0 <= j < space_index(text) implies text[j] != ' ' by {
            if j > 0 {
                assert(text[j] == rest[j - 1]);
            }
        }
    }
}

/// The encoding of a character other than the space holds no space byte.
proof fn lemma_scalar_without_space(c: char)
    requires
        c != ' ',
    ensures
        forall|j: int|
            0 <= j < encode_scalar(c as u32).len() ==> #[trigger] encode_scalar(c as u32)[j]
                != 0x20u8,
        encode_scalar(c as u32).len() > 0,
{
    let v = c as u32;
    assert(v != 0x20u32);
    assert(v <= 0x7f && v != 0x20 ==> (v & 0x7f) as u8 != 0x20u8) by (bit_vector);
    assert((0xC0u8 | ((v >> 6) & 0x1F) as u8) != 0x20u8) by (bit_vector);
    assert((0xE0u8 | ((v >> 12) & 0x0F) as u8) != 0x20u8) by (bit_vector);
    assert((0xF0u8 | ((v >> 18) & 0x7) as u8) != 0x20u8) by (bit_vector);
    assert((0x80u8 | (v & 0x3F) as u8) != 0x20u8) by (bit_vector);
    assert((0x80u8 | ((v >> 6) & 0x3F) as u8) != 0x20u8) by (bit_vector);
    assert((0x80u8 | ((v >> 12) & 0x3F) as u8) != 0x20u8) by (bit_vector);
}

/// The space is encoded as the single byte 0x20.
proof fn lemma_space_scalar()
    ensures
        encode_scalar(' ' as u32) =~= seq![0x20u8],
{
    assert(' ' as u32 == 0x20u32);
    assert((0x20u32 & 0x7f) as u8 == 0x20u8) by (bit_vector);
}

/// In the encoding of `text`, the first space byte stands right behind the
/// encoding of `first_word(text)`, which is a prefix of it.
proof fn lemma_first_word_bytes(text: Seq<char>)
    ensures
        byte_length(first_word(text)) <= byte_length(text),
        encode_utf8(text).take(byte_length(first_word(text)) as int) =~= encode_utf8(
            first_word(text),
        ),
        forall|j: int|
            0 <= j < byte_length(first_word(text)) ==> #[trigger] encode_utf8(text)[j] != 0x20u8,
        space_index(text) < text.len() ==> byte_length(first_word(text)) < byte_length(text)
            && encode_utf8(text)[byte_length(first_word(text)) as int] == 0x20u8,
        space_index(text) == text.len() ==> byte_length(first_word(text)) == byte_length(text),
    decreases text.len(),
{
    lemma_space_index(text);
    if text.len() == 0 {
        assert(first_word(text) =~= text);
    } else if text[0] == ' ' {
        lemma_space_scalar();
        assert(first_word(text) =~= Seq::<char>::empty());
    } else {
        let rest = text.drop_first();
        let head = encode_scalar(text[0] as u32);
        lemma_first_word_bytes(rest);
        lemma_space_index(rest);
        lemma_scalar_without_space(text[0]);
        let word = first_word(text);
        assert(word.len() > 0);
        assert(word[0] == text[0]);
        assert(word.drop_first() =~= first_word(rest));
        assert(encode_utf8(word) == head + encode_utf8(first_word(rest)));
        assert(encode_utf8(text) == head + encode_utf8(rest));
        assert forall|j: int| 0 <= j < byte_length(word) implies #[trigger] encode_utf8(text)[j]
            != 0x20u8 by {
            if j >= head.len() {
                assert(encode_utf8(text)[j] == encode_utf8(rest)[j - head.len()]);
            } else {
                assert(encode_utf8(text)[j] == head[j]);
            }
        }
        if space_index(text) < text.len() {
            assert(encode_utf8(text)[byte_length(word) as int] == encode_utf8(rest)[byte_length(
                first_word(rest),
            ) as int]);
        }
    }
}

/// The length of a string: the number of bytes of its UTF-8 encoding.
pub fn calculate_length(some_string: &String) -> (n: usize)
    ensures
        n == byte_length(some_string@),
{
    some_string.as_str().as_bytes().len()
}

/// Appends `", world!"` to the string.
pub fn change(some_string: &mut String)
    ensures
        final(some_string)@ == old(some_string)@ + ", world!"@,
{
    some_string.append(", world!");
}

/// The first word of a string: the slice in front of its first space, or
/// the whole string where it holds no space.
pub fn get_first_word(s: &String) -> (word: &str)
    ensures
        word@ == first_word(s@),
{
    let text = s.as_str();
    let bytes = text.as_bytes();
    let mut i: usize = 0;
    while i < bytes.len()
        invariant
            0 <= i <= bytes@.len(),
            bytes@ == encode_utf8(text@),
            text@ == s@,
            forall|j: int| 0 <= j < i ==> bytes@[j] != 0x20u8,
        decreases bytes@.len() - i,
    {
        if bytes[i] == SPACE {
            proof {
                lemma_first_word_bytes(text@);
                encode_utf8_valid_utf8(text@);
                is_char_boundary_iff_not_is_continuation_byte(bytes@, i as int);
                lemma_space_index(text@);
                assert(i == byte_length(first_word(text@)));
            }
            let (word, _) = text.split_at(i);
            proof {
                assert(encode_utf8(word@) =~= encode_utf8(first_word(text@)));
                encode_utf8_decode_utf8(word@);
                encode_utf8_decode_utf8(first_word(text@));
            }
            return word;
        }
        i += 1;
    }
    proof {
        lemma_first_word_bytes(text@);
        lemma_space_index(text@);
        assert(space_index(text@) == text@.len());
        assert(first_word(text@) =~= text@);
    }
    text
}

} // verus!
