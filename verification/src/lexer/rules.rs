//! What the tokenizer yields, as functions of the source text and the index
//! of the character at which it starts.
use crate::lexer::classes::{is_identifier_part, is_identifier_start, unicode_whitespace};
use crate::lexer::error::LexerError;
use crate::lexer::span::Span;
use crate::lexer::text::{byte_offset, char_at, lemma_byte_offset_grows, utf8_len};
use crate::lexer::token::{TokenKindView, TokenView};
use vstd::prelude::*;

verus! {

/// What one scan yields: the token or the error, and the index of the first
/// character that the scan left unconsumed.
pub type Scanned = (Result<TokenView, LexerError>, nat);

/// The index of the first character at or behind `index` that is no
/// whitespace, or the length of the text where there is none.
pub open spec fn skip_whitespace(text: Seq<char>, index: nat) -> nat
    decreases text.len() - index,
{
    if index < text.len() && unicode_whitespace(text[index as int]) {
        skip_whitespace(text, index + 1)
    } else {
        index
    }
}

/// The index of the first double quote at or behind `index`, or the length of
/// the text where there is none.
pub open spec fn string_end(text: Seq<char>, index: nat) -> nat
    decreases text.len() - index,
{
    if index < text.len() && text[index as int] != '"' {
        string_end(text, index + 1)
    } else {
        index
    }
}

/// The index of the first character at or behind `index` that cannot go on an
/// identifier, or the length of the text where there is none.
pub open spec fn identifier_end(text: Seq<char>, index: nat) -> nat
    decreases text.len() - index,
{
    if index < text.len() && is_identifier_part(text[index as int]) {
        identifier_end(text, index + 1)
    } else {
        index
    }
}

/// The kind of a word: the keyword that it spells, or an identifier.
pub open spec fn word_kind(word: Seq<char>) -> TokenKindView {
    if word == "var"@ {
        TokenKindView::Var
    } else if word == "func"@ {
        TokenKindView::Func
    } else if word == "return"@ {
        TokenKindView::Return
    } else if word == "if"@ {
        TokenKindView::If
    } else if word == "else"@ {
        TokenKindView::Else
    } else if word == "true"@ {
        TokenKindView::True
    } else if word == "false"@ {
        TokenKindView::False
    } else if word == "null"@ {
        TokenKindView::Null
    } else {
        TokenKindView::Identifier(word)
    }
}

/// The kind of the token that `c` is by itself, if it is one.
pub open spec fn punctuation(c: char) -> Option<TokenKindView> {
    if c == '(' {
        Some(TokenKindView::LeftParen)
    } else if c == ')' {
        Some(TokenKindView::RightParen)
    } else if c == '{' {
        Some(TokenKindView::LeftBrace)
    } else if c == '}' {
        Some(TokenKindView::RightBrace)
    } else if c == ';' {
        Some(TokenKindView::Semicolon)
    } else {
        None
    }
}

/// The bytes that the characters from index `from` up to index `to` take in
/// the text.
pub open spec fn span_of(text: Seq<char>, from: nat, to: nat) -> Span
    recommends
        from <= to <= text.len(),
{
    Span { start: byte_offset(text, from) as usize, end: byte_offset(text, to) as usize }
}

/// The string literal whose opening quote stands at `start`: the characters
/// up to the next quote, as they are, or an error where the text ends first.
pub open spec fn scan_string(text: Seq<char>, start: nat) -> Scanned {
    let close = string_end(text, start + 1);
    if close < text.len() {
        (
            Ok(
                TokenView {
                    kind: TokenKindView::StringLiteral(text.subrange(start + 1 as int, close as int)),
                    span: span_of(text, start, close + 1),
                },
            ),
            close + 1,
        )
    } else {
        (Err(LexerError::UnterminatedString { span: span_of(text, start, text.len()) }), text.len())
    }
}

/// The keyword or identifier that begins at `start`: the longest run of
/// characters that an identifier may hold.
pub open spec fn scan_word(text: Seq<char>, start: nat) -> Scanned {
    let end = identifier_end(text, start + 1);
    (
        Ok(
            TokenView {
                kind: word_kind(text.subrange(start as int, end as int)),
                span: span_of(text, start, end),
            },
        ),
        end,
    )
}

/// The token that begins at `start`, where no whitespace stands.
pub open spec fn scan_token(text: Seq<char>, start: nat) -> Scanned {
    match char_at(text, start) {
        None => (
            Ok(TokenView { kind: TokenKindView::Eof, span: span_of(text, start, start) }),
            start,
        ),
        Some(c) => {
            if c == '"' {
                scan_string(text, start)
            } else if is_identifier_start(c) {
                scan_word(text, start)
            } else {
                match punctuation(c) {
                    Some(kind) => (
                        Ok(TokenView { kind, span: span_of(text, start, start + 1) }),
                        start + 1,
                    ),
                    None => (
                        Err(
                            LexerError::UnexpectedCharacter {
                                found: c,
                                span: span_of(text, start, start + 1),
                            },
                        ),
                        start + 1,
                    ),
                }
            }
        },
    }
}

/// The next token from `index` on: whitespace is passed over, then one token
/// is scanned.
pub open spec fn next_token(text: Seq<char>, index: nat) -> Scanned {
    scan_token(text, skip_whitespace(text, index))
}

/// Passing over whitespace passes over whitespace alone, within the text,
/// and stops before the first character that is none.
pub proof fn lemma_skip_whitespace(text: Seq<char>, index: nat)
    requires
        index <= text.len(),
    ensures
        index <= skip_whitespace(text, index) <= text.len(),
        forall|i: int|
            index <= i < skip_whitespace(text, index) ==> unicode_whitespace(#[trigger] text[i]),
        skip_whitespace(text, index) < text.len() ==> !unicode_whitespace(
            text[skip_whitespace(text, index) as int],
        ),
    decreases text.len() - index,
{
    if index < text.len() && unicode_whitespace(text[index as int]) {
        lemma_skip_whitespace(text, index + 1);
    }
}

/// The end of a string literal lies within the text, no quote stands before
/// it, and a quote stands at it unless the text has ended.
pub proof fn lemma_string_end(text: Seq<char>, index: nat)
    requires
        index <= text.len(),
    ensures
        index <= string_end(text, index) <= text.len(),
        forall|i: int| index <= i < string_end(text, index) ==> #[trigger] text[i] != '"',
        string_end(text, index) < text.len() ==> text[string_end(text, index) as int] == '"',
    decreases text.len() - index,
{
    if index < text.len() && text[index as int] != '"' {
        lemma_string_end(text, index + 1);
    }
}

/// An identifier takes every character that it may hold: its end lies within
/// the text, only such characters stand before it, and none stands at it.
pub proof fn lemma_identifier_end(text: Seq<char>, index: nat)
    requires
        index <= text.len(),
    ensures
        index <= identifier_end(text, index) <= text.len(),
        forall|i: int|
            index <= i < identifier_end(text, index) ==> is_identifier_part(#[trigger] text[i]),
        identifier_end(text, index) < text.len() ==> !is_identifier_part(
            text[identifier_end(text, index) as int],
        ),
    decreases text.len() - index,
{
    if index < text.len() && is_identifier_part(text[index as int]) {
        lemma_identifier_end(text, index + 1);
    }
}

/// The span of a token or of an error.
pub open spec fn scanned_span(scanned: Scanned) -> Span {
    match scanned.0 {
        Ok(token) => token.span,
        Err(LexerError::UnexpectedCharacter { found, span }) => span,
        Err(LexerError::UnterminatedString { span }) => span,
    }
}

/// Whatever a scan yields, it stops within the text and no earlier than it
/// began; unless it yields the end of input, it consumes at least one
/// character. The span that it reports begins no later than it ends, lies
/// within the text's encoding, and ends where the scan stopped.
pub proof fn lemma_scan_advances(text: Seq<char>, index: nat)
    requires
        index <= text.len(),
        utf8_len(text) <= usize::MAX,
    ensures
        ({
            let scanned = next_token(text, index);
            let span = scanned_span(scanned);
            &&& index <= scanned.1 <= text.len()
            &&& scanned.0 != Ok::<TokenView, LexerError>(
                TokenView { kind: TokenKindView::Eof, span },
            ) ==> index < scanned.1
            &&& span.start <= span.end <= utf8_len(text)
            &&& span.end == byte_offset(text, scanned.1)
        }),
{
    let start = skip_whitespace(text, index);
    lemma_skip_whitespace(text, index);
    lemma_byte_offset_grows(text, start, start);
    if start < text.len() {
        let close = string_end(text, start + 1);
        let end = identifier_end(text, start + 1);
        lemma_string_end(text, start + 1);
        lemma_identifier_end(text, start + 1);
        lemma_byte_offset_grows(text, start, start + 1);
        lemma_byte_offset_grows(text, start, end);
        lemma_byte_offset_grows(text, start, text.len());
        if close < text.len() {
            lemma_byte_offset_grows(text, start, close + 1);
        }
    }
}

/// Where nothing but whitespace stands from `index` to the end of the text,
/// passing over whitespace leads to the end of the text.
pub proof fn lemma_skip_whitespace_to_end(text: Seq<char>, index: nat)
    requires
        index <= text.len(),
        forall|i: int| index <= i < text.len() ==> unicode_whitespace(#[trigger] text[i]),
    ensures
        skip_whitespace(text, index) == text.len(),
    decreases text.len() - index,
{
    if index < text.len() {
        lemma_skip_whitespace_to_end(text, index + 1);
    }
}

/// Where nothing but whitespace stands from `index` to the end of the text,
/// the next token is the end of input, its span is empty, and it lies at the
/// byte offset behind the whitespace, which is the length of the text in
/// bytes.
pub proof fn lemma_whitespace_yields_eof(text: Seq<char>, index: nat)
    requires
        index <= text.len(),
        forall|i: int| index <= i < text.len() ==> unicode_whitespace(#[trigger] text[i]),
    ensures
        next_token(text, index) == (
            Ok::<TokenView, LexerError>(
                TokenView {
                    kind: TokenKindView::Eof,
                    span: Span { start: utf8_len(text) as usize, end: utf8_len(text) as usize },
                },
            ),
            text.len(),
        ),
{
    lemma_skip_whitespace_to_end(text, index);
    lemma_byte_offset_grows(text, text.len(), text.len());
}

} // verus!
