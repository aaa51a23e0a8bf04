use crate::lexer::cursor::Cursor;
use crate::lexer::error::LexerError;
use crate::lexer::rules::{
    identifier_end, lemma_scan_advances, next_token, scan_string, scan_word, scanned_span,
    skip_whitespace, string_end, word_kind, Scanned,
};
use crate::lexer::span::Span;
use crate::lexer::text::{
    byte_offset, lemma_byte_offset_grows, lemma_byte_offset_step, same_text, utf8_len,
};
use crate::lexer::token::{Token, TokenKind, TokenView};
use vstd::prelude::*;

verus! {

/// What a scan came to, as the rules state it: the value of the token, or the
/// error, with the index of the first character left unconsumed.
pub open spec fn token_outcome(result: Result<Token, LexerError>, index: nat) -> Scanned {
    match result {
        Ok(token) => (Ok(token@), index),
        Err(error) => (Err(error), index),
    }
}

/// The kind of a word: the keyword that it spells, or an identifier that
/// carries the word.
pub fn keyword_or_identifier(word: String) -> (kind: TokenKind)
    ensures
        kind@ == word_kind(word@),
{
    if same_text(word.as_str(), "var") {
        TokenKind::Var
    } else if same_text(word.as_str(), "func") {
        TokenKind::Func
    } else if same_text(word.as_str(), "return") {
        TokenKind::Return
    } else if same_text(word.as_str(), "if") {
        TokenKind::If
    } else if same_text(word.as_str(), "else") {
        TokenKind::Else
    } else if same_text(word.as_str(), "true") {
        TokenKind::True
    } else if same_text(word.as_str(), "false") {
        TokenKind::False
    } else if same_text(word.as_str(), "null") {
        TokenKind::Null
    } else {
        TokenKind::Identifier(word)
    }
}

/// The tokenizer: it groups the characters of a source text into tokens, one
/// for each call of [`Lexer::nextToken`].
pub struct Lexer<'a> {
    cursor: Cursor<'a>,
}

impl<'a> Lexer<'a> {
    /// The text that is being tokenized.
    pub closed spec fn source(&self) -> Seq<char> {
        self.cursor.source()
    }

    /// The index of the first character that no token has consumed yet.
    pub closed spec fn index(&self) -> nat {
        self.cursor.index()
    }

    /// A tokenizer before the first character of `input`.
    pub fn new(input: &'a str) -> (lexer: Lexer<'a>)
        ensures
            lexer.source() == input@,
            lexer.index() == 0,
    {
        Lexer { cursor: Cursor::new(input) }
    }

    /// Scans the next token: passes over whitespace, then reads one token, as
    /// [`next_token`] states. At the end of the text the token is `Eof`, each
    /// time anew. After an error the tokenizer stands behind what it read, and
    /// another call goes on from there.
    pub fn nextToken(&mut self) -> (result: Result<Token, LexerError>)
        ensures
            final(self).source() == old(self).source(),
            token_outcome(result, final(self).index()) == next_token(
                old(self).source(),
                old(self).index(),
            ),
            old(self).index() <= final(self).index() <= final(self).source().len(),
            scanned_span(token_outcome(result, final(self).index())).well_formed(),
    {
        let ghost text = self.source();
        loop
            invariant
                text == old(self).source(),
                self.source() == text,
                old(self).index() <= self.index(),
                skip_whitespace(text, old(self).index()) == skip_whitespace(text, self.index()),
            ensures
                self.index() == skip_whitespace(text, old(self).index()),
                self.index() <= text.len(),
                utf8_len(text) <= usize::MAX,
            decreases text.len() - self.index(),
        {
            match self.cursor.peek() {
                Some(ch) => {
                    if ch.is_whitespace() {
                        self.cursor.advance();
                    } else {
                        break ;
                    }
                },
                None => {
                    break ;
                },
            }
        }
        let ghost first = self.index();
        proof {
            lemma_scan_advances(text, old(self).index());
        }
        let start = self.cursor.position();

        let ch = match self.cursor.advance() {
            Some(c) => c,
            None => {
                return Ok(Token { kind: TokenKind::Eof, span: Span::new(start, start) });
            },
        };
        proof {
            lemma_byte_offset_step(text, first);
        }
        match ch {
            '"' => self.lexString(start),
            c if c.is_alphabetic() || c == '_' => Ok(self.lexIdentifier(start, c)),
            '(' => Ok(self.simpleToken(TokenKind::LeftParen, start)),
            ')' => Ok(self.simpleToken(TokenKind::RightParen, start)),
            '{' => Ok(self.simpleToken(TokenKind::LeftBrace, start)),
            '}' => Ok(self.simpleToken(TokenKind::RightBrace, start)),
            ';' => Ok(self.simpleToken(TokenKind::Semicolon, start)),
            _ => Err(
                LexerError::UnexpectedCharacter {
                    found: ch,
                    span: Span::new(start, self.cursor.position()),
                },
            ),
        }
    }

    /// Scans a string literal behind its opening quote, which began at the
    /// byte offset `start`.
    fn lexString(&mut self, start: usize) -> (result: Result<Token, LexerError>)
        requires
            0 < old(self).index() <= old(self).source().len(),
            start == byte_offset(old(self).source(), (old(self).index() - 1) as nat),
        ensures
            final(self).source() == old(self).source(),
            token_outcome(result, final(self).index()) == scan_string(
                old(self).source(),
                (old(self).index() - 1) as nat,
            ),
    {
        let ghost text = self.source();
        let ghost from = self.index();
        let mut value = String::new();

        loop
            invariant
                text == old(self).source(),
                from == old(self).index(),
                self.source() == text,
                0 < from <= self.index() <= text.len(),
                start == byte_offset(text, (from - 1) as nat),
                string_end(text, from) == string_end(text, self.index()),
                value@ == text.subrange(from as int, self.index() as int),
            ensures
                self.index() == text.len(),
                string_end(text, from) == text.len(),
            decreases text.len() - self.index(),
        {
            let ghost here = self.index();
            match self.cursor.advance() {
                Some(ch) => {
                    if ch == '"' {
                        proof {
                            lemma_byte_offset_grows(text, (from - 1) as nat, here + 1);
                        }
                        return Ok(
                            Token {
                                kind: TokenKind::StringLiteral(value),
                                span: Span::new(start, self.cursor.position()),
                            },
                        );
                    }
                    value.push(ch);
                    assert(value@ =~= text.subrange(from as int, self.index() as int));
                },
                None => {
                    break ;
                },
            }
        }

        proof {
            lemma_byte_offset_grows(text, (from - 1) as nat, text.len());
        }
        Err(LexerError::UnterminatedString { span: Span::new(start, self.cursor.position()) })
    }

    /// Scans a keyword or an identifier behind its first character `first`,
    /// which began at the byte offset `start`.
    fn lexIdentifier(&mut self, start: usize, first: char) -> (token: Token)
        requires
            0 < old(self).index() <= old(self).source().len(),
            start == byte_offset(old(self).source(), (old(self).index() - 1) as nat),
            first == old(self).source()[old(self).index() - 1],
        ensures
            final(self).source() == old(self).source(),
            (Ok::<TokenView, LexerError>(token@), final(self).index()) == scan_word(
                old(self).source(),
                (old(self).index() - 1) as nat,
            ),
    {
        let ghost text = self.source();
        let ghost from = self.index();
        let mut ident = String::new();
        ident.push(first);
        assert(ident@ =~= text.subrange(from - 1, from as int));

        loop
            invariant
                self.source() == text,
                0 < from <= self.index() <= text.len(),
                identifier_end(text, from) == identifier_end(text, self.index()),
                ident@ == text.subrange(from - 1, self.index() as int),
            ensures
                self.index() == identifier_end(text, from),
            decreases text.len() - self.index(),
        {
            match self.cursor.peek() {
                Some(ch) => {
                    if ch.is_alphanumeric() || ch == '_' {
                        self.cursor.advance();
                        ident.push(ch);
                        assert(ident@ =~= text.subrange(from - 1, self.index() as int));
                    } else {
                        break ;
                    }
                },
                None => {
                    break ;
                },
            }
        }

        let kind = keyword_or_identifier(ident);
        proof {
            lemma_byte_offset_grows(text, (from - 1) as nat, self.index());
        }

        Token { kind, span: Span::new(start, self.cursor.position()) }
    }

    /// The token of one byte that began at the byte offset `start`.
    fn simpleToken(&self, kind: TokenKind, start: usize) -> (token: Token)
        requires
            start < usize::MAX,
        ensures
            token == (Token { kind, span: Span { start, end: (start + 1) as usize } }),
    {
        Token { kind, span: Span::new(start, start + 1) }
    }
}

} // verus!
