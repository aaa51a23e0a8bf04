//! The character classes of the language, which are those of Unicode as the
//! standard library knows them, and the one string operation that the
//! tokenizer takes from the standard library without a specification from
//! vstd.
use vstd::prelude::*;

verus! {

/// Whether `c` has Unicode's `White_Space` property, as `char::is_whitespace`
/// reports it.
pub uninterp spec fn unicode_whitespace(c: char) -> bool;

/// Whether `c` has Unicode's `Alphabetic` property, as `char::is_alphabetic`
/// reports it.
pub uninterp spec fn unicode_alphabetic(c: char) -> bool;

/// Whether `c` is alphabetic or numeric in Unicode's sense, as
/// `char::is_alphanumeric` reports it.
pub uninterp spec fn unicode_alphanumeric(c: char) -> bool;

/// `char::is_whitespace` looks `c` up in a table of the Unicode character
/// database. Nothing is claimed of the answer but that it depends on `c`
/// alone.
pub assume_specification[ char::is_whitespace ](c: char) -> (answer: bool)
    ensures
        answer == unicode_whitespace(c),
;

/// `char::is_alphabetic` looks `c` up in a table of the Unicode character
/// database. Nothing is claimed of the answer but that it depends on `c`
/// alone.
pub assume_specification[ char::is_alphabetic ](c: char) -> (answer: bool)
    ensures
        answer == unicode_alphabetic(c),
;

/// `char::is_alphanumeric` looks `c` up in tables of the Unicode character
/// database. Nothing is claimed of the answer but that it depends on `c`
/// alone.
pub assume_specification[ char::is_alphanumeric ](c: char) -> (answer: bool)
    ensures
        answer == unicode_alphanumeric(c),
;

/// `String::push` appends one character to the end of the string.
pub assume_specification[ std::string::String::push ](text: &mut std::string::String, c: char)
    ensures
        final(text)@ == old(text)@.push(c),
;

/// Whether an identifier may begin with `c`.
pub open spec fn is_identifier_start(c: char) -> bool {
    unicode_alphabetic(c) || c == '_'
}

/// Whether an identifier may go on with `c`.
pub open spec fn is_identifier_part(c: char) -> bool {
    unicode_alphanumeric(c) || c == '_'
}

} // verus!
