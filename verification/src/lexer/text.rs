//! Source text as a sequence of characters, and where each character lies in
//! the text's UTF-8 encoding.
use vstd::prelude::*;
use vstd::utf8::{encode_scalar, encode_utf8, is_char_boundary, pop_first_scalar};

verus! {

/// The number of bytes that `c` takes in UTF-8: from one to four.
pub open spec fn char_width(c: char) -> nat {
    encode_scalar(c as u32).len()
}

/// The number of bytes that `text` takes in UTF-8.
pub open spec fn utf8_len(text: Seq<char>) -> nat {
    encode_utf8(text).len()
}

/// The byte offset at which the character of index `index` begins: the number
/// of bytes that the characters before it take.
pub open spec fn byte_offset(text: Seq<char>, index: nat) -> nat
    recommends
        index <= text.len(),
{
    utf8_len(text.take(index as int))
}

/// The character of index `index`, if the text has one there.
pub open spec fn char_at(text: Seq<char>, index: nat) -> Option<char> {
    if index < text.len() {
        Some(text[index as int])
    } else {
        None
    }
}

/// The number of bytes that `c` takes in UTF-8.
pub fn width_of(c: char) -> (width: usize)
    ensures
        width == char_width(c),
        1 <= width <= 4,
{
    let scalar: u32 = c as u32;
    if scalar < 0x80 {
        1
    } else if scalar < 0x800 {
        2
    } else if scalar < 0x10000 {
        3
    } else {
        4
    }
}

/// Whether two strings hold the same text.
pub fn same_text(left: &str, right: &str) -> (same: bool)
    ensures
        same == (left@ == right@),
{
    broadcast use vstd::utf8::encode_utf8_decode_utf8;

    let a = left.as_bytes();
    let b = right.as_bytes();
    if a.len() != b.len() {
        return false;
    }
    let mut i: usize = 0;
    while i < a.len()
        invariant
            i <= a.len(),
            a.len() == b.len(),
            a@ == encode_utf8(left@),
            b@ == encode_utf8(right@),
            forall|j: int| 0 <= j < i ==> a@[j] == b@[j],
        decreases a.len() - i,
    {
        if a[i] != b[i] {
            return false;
        }
        i += 1;
    }
    proof {
        assert(a@ =~= b@);
        assert(vstd::utf8::decode_utf8(encode_utf8(left@)) == left@);
        assert(vstd::utf8::decode_utf8(encode_utf8(right@)) == right@);
    }
    true
}

/// The encoding of two texts, one behind the other, is the encoding of the
/// first followed by the encoding of the second.
pub proof fn lemma_encode_concat(front: Seq<char>, back: Seq<char>)
    ensures
        encode_utf8(front + back) == encode_utf8(front) + encode_utf8(back),
    decreases front.len(),
{
    if front.len() == 0 {
        assert(front + back =~= back);
        assert(encode_utf8(front) + encode_utf8(back) =~= encode_utf8(back));
    } else {
        let whole = front + back;
        assert(whole.drop_first() =~= front.drop_first() + back);
        assert(whole[0] == front[0]);
        lemma_encode_concat(front.drop_first(), back);
        assert(encode_utf8(whole) =~= encode_utf8(front) + encode_utf8(back));
    }
}

/// The encoding of a text splits at every one of its byte offsets into the
/// encoding of what stands before and of what stands behind.
pub proof fn lemma_encode_split(text: Seq<char>, index: nat)
    requires
        index <= text.len(),
    ensures
        encode_utf8(text) == encode_utf8(text.take(index as int)) + encode_utf8(
            text.skip(index as int),
        ),
        byte_offset(text, index) <= utf8_len(text),
        encode_utf8(text).subrange(byte_offset(text, index) as int, utf8_len(text) as int)
            == encode_utf8(text.skip(index as int)),
{
    assert(text =~= text.take(index as int) + text.skip(index as int));
    lemma_encode_concat(text.take(index as int), text.skip(index as int));
    assert(encode_utf8(text).subrange(byte_offset(text, index) as int, utf8_len(text) as int)
        =~= encode_utf8(text.skip(index as int)));
}

/// The byte offset behind a character is the offset at which it begins plus
/// its width.
pub proof fn lemma_byte_offset_step(text: Seq<char>, index: nat)
    requires
        index < text.len(),
    ensures
        byte_offset(text, index + 1) == byte_offset(text, index) + char_width(text[index as int]),
        1 <= char_width(text[index as int]) <= 4,
{
    let before = text.take(index as int);
    let one = seq![text[index as int]];
    assert(text.take(index + 1 as int) =~= before + one);
    lemma_encode_concat(before, one);
    assert(one.drop_first() =~= Seq::<char>::empty());
    assert(encode_utf8(one) =~= encode_scalar(text[index as int] as u32)) by {
        reveal_with_fuel(encode_utf8, 2);
    }
}

/// Byte offsets grow with the index.
pub proof fn lemma_byte_offset_grows(text: Seq<char>, from: nat, to: nat)
    requires
        from <= to <= text.len(),
    ensures
        byte_offset(text, from) <= byte_offset(text, to) <= utf8_len(text),
        byte_offset(text, 0) == 0,
        byte_offset(text, text.len()) == utf8_len(text),
{
    let prefix = text.take(to as int);
    assert(prefix.take(from as int) =~= text.take(from as int));
    lemma_encode_split(prefix, from);
    lemma_encode_split(text, to);
    assert(text.take(0) =~= Seq::<char>::empty());
    assert(text.take(text.len() as int) =~= text);
}

/// No two characters begin at the same byte offset: the offsets grow
/// strictly with the index.
pub proof fn lemma_byte_offset_grows_strictly(text: Seq<char>, from: nat, to: nat)
    requires
        from < to <= text.len(),
    ensures
        byte_offset(text, from) < byte_offset(text, to),
{
    lemma_byte_offset_step(text, from);
    lemma_byte_offset_grows(text, from + 1, to);
}

/// Every byte offset of a text is a character boundary of its encoding.
pub proof fn lemma_offset_is_boundary(text: Seq<char>, index: nat)
    requires
        index <= text.len(),
    ensures
        is_char_boundary(encode_utf8(text), byte_offset(text, index) as int),
    decreases index,
{
    broadcast use vstd::utf8::encode_utf8_valid_utf8;

    let bytes = encode_utf8(text);
    if index == 0 {
        assert(text.take(0) =~= Seq::<char>::empty());
    } else {
        let rest = text.drop_first();
        vstd::utf8::encode_utf8_first_scalar(text);
        lemma_byte_offset_grows(text, index, index);
        assert(text.take(index as int).drop_first() =~= rest.take(index - 1));
        assert(text.take(index as int)[0] == text[0]);
        assert(pop_first_scalar(bytes) =~= encode_utf8(rest));
        assert(byte_offset(text, index) == char_width(text[0]) + byte_offset(
            rest,
            (index - 1) as nat,
        ));
        lemma_offset_is_boundary(rest, (index - 1) as nat);
    }
}

} // verus!
