use crate::lexer::text::{
    byte_offset, char_at, char_width, lemma_byte_offset_grows, lemma_byte_offset_grows_strictly,
    lemma_byte_offset_step, lemma_encode_split, lemma_offset_is_boundary, utf8_len, width_of,
};
use vstd::prelude::*;
use vstd::utf8::{encode_utf8, is_char_boundary};

verus! {

/// A scanner over a source text that hands out one character at a time and
/// knows the byte offset it has reached.
pub struct Cursor<'a> {
    source: &'a str,
    position: usize,
}

/// Whether the character of index `index` in `text` begins at the byte offset
/// `position`.
pub open spec fn stands_at(text: Seq<char>, position: nat, index: nat) -> bool {
    index <= text.len() && position == byte_offset(text, index)
}

impl<'a> Cursor<'a> {
    #[verifier::type_invariant]
    spec fn well_formed(self) -> bool {
        &&& exists|index: nat| #[trigger] stands_at(self.source@, self.position as nat, index)
        &&& utf8_len(self.source@) <= usize::MAX
    }

    /// The text that the cursor scans.
    pub closed spec fn source(&self) -> Seq<char> {
        self.source@
    }

    /// How many characters the cursor has consumed: the index of the next one.
    pub closed spec fn index(&self) -> nat {
        choose|index: nat| #[trigger] stands_at(self.source@, self.position as nat, index)
    }

    /// The cursor stands at the one character, or at the end, whose byte
    /// offset is its position.
    proof fn lemma_index(self, index: nat)
        requires
            stands_at(self.source@, self.position as nat, index),
        ensures
            self.index() == index,
    {
        let chosen = self.index();
        if chosen < index {
            lemma_byte_offset_grows_strictly(self.source@, chosen, index);
        } else if index < chosen {
            lemma_byte_offset_grows_strictly(self.source@, index, chosen);
        }
    }

    /// A cursor before the first character of `source`.
    pub fn new(source: &'a str) -> (cursor: Cursor<'a>)
        ensures
            cursor.source() == source@,
            cursor.index() == 0,
    {
        // The encoding is in memory, so its length is one that `usize` holds.
        let _encoding = source.as_bytes();
        proof {
            broadcast use vstd::slice::axiom_spec_len;

            lemma_byte_offset_grows(source@, 0, 0);
            assert(vstd::slice::spec_slice_len(_encoding) == utf8_len(source@));
            let made = Cursor { source, position: 0 };
            assert(stands_at(made.source@, made.position as nat, 0));
            assert(made.well_formed());
        }
        let cursor = Cursor { source, position: 0 };
        proof {
            cursor.lemma_index(0);
        }
        cursor
    }

    /// The next character, which stays unconsumed, or nothing at the end of
    /// the text.
    pub fn peek(&self) -> (next: Option<char>)
        ensures
            next == char_at(self.source(), self.index()),
            self.index() <= self.source().len(),
            utf8_len(self.source()) <= usize::MAX,
    {
        proof {
            use_type_invariant(self);
            lemma_offset_is_boundary(self.source@, self.index());
            lemma_encode_split(self.source@, self.index());
        }
        let (_, rest) = self.source.split_at(self.position);
        let mut chars = rest.chars();
        let next = chars.next();
        proof {
            broadcast use vstd::string::group_string_axioms;
            broadcast use vstd::utf8::encode_utf8_decode_utf8;

            let behind = self.source@.skip(self.index() as int);
            assert(encode_utf8(rest@) == encode_utf8(behind));
            assert(vstd::utf8::decode_utf8(encode_utf8(rest@)) == rest@);
            assert(vstd::utf8::decode_utf8(encode_utf8(behind)) == behind);
            assert(rest@ == behind);
        }
        next
    }

    /// Consumes the next character and returns it, or returns nothing at the
    /// end of the text. The position moves on by the width of the character.
    pub fn advance(&mut self) -> (next: Option<char>)
        ensures
            final(self).source() == old(self).source(),
            next == char_at(old(self).source(), old(self).index()),
            final(self).index() == if next is Some {
                old(self).index() + 1
            } else {
                old(self).index()
            },
            final(self).index() <= final(self).source().len(),
            byte_offset(final(self).source(), final(self).index()) == byte_offset(
                old(self).source(),
                old(self).index(),
            ) + match next {
                Some(c) => char_width(c),
                None => 0,
            },
            byte_offset(final(self).source(), final(self).index()) <= usize::MAX,
    {
        proof {
            use_type_invariant(&*self);
        }
        let ch = self.peek()?;
        let ghost index = self.index();
        let width = width_of(ch);
        proof {
            lemma_byte_offset_step(self.source@, index);
            lemma_byte_offset_grows(self.source@, index + 1, index + 1);
            let moved = Cursor { source: self.source, position: (self.position + width) as usize };
            assert(stands_at(moved.source@, moved.position as nat, index + 1));
            assert(moved.well_formed());
        }
        self.position += width;
        proof {
            self.lemma_index(index + 1);
        }
        Some(ch)
    }

    /// The byte offset of the next character: a boundary between characters
    /// in the text's UTF-8 encoding, or its end.
    pub fn position(&self) -> (offset: usize)
        ensures
            offset == byte_offset(self.source(), self.index()),
            is_char_boundary(encode_utf8(self.source()), offset as int),
            self.index() <= self.source().len(),
    {
        proof {
            use_type_invariant(self);
            lemma_offset_is_boundary(self.source@, self.index());
        }
        self.position
    }
}

} // verus!
