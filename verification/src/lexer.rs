//! The lexer: turns source text into tokens, one at a time.

use crate::classes::{
    lemma_run_end, scan_run, Class, AT, BRACK_CLOSE, BRACK_OPEN, COLON, COMMA, CURLY_CLOSE,
    CURLY_OPEN, DOT, DOUBLE_QUOTE, EQUAL, GREATER, HASH, LOWER, MINUS, NEWLINE, PAREN_CLOSE,
    PAREN_OPEN, PERCENT, PIPE, PLUS, SINGLE_QUOTE, SLASH, SPACE, STAR, TAB, UNDERSCORE,
};
use crate::grammar::{
    find_docstring_close, find_string_close, keyword, lemma_docstring_close, lemma_number_end,
    lemma_string_close, lemma_word_end, scan_number, scan_word, unescaped,
};
use crate::machine::{lemma_transition, sign_kind, LexState, Step};
use crate::stream::{lemma_end_is_final, lemma_next_token, token_views, tokens_from};
use crate::text::{lemma_boundary, lemma_boundary_at_ascii, slice_text};
pub use crate::token::{Token, TokenType};
use crate::token::TokenView;
use vstd::prelude::*;
use vstd::string::{StrSliceExecFns, StringSliceAdditionalSpecFns};
use vstd::utf8::{encode_utf8_valid_utf8, is_char_boundary, valid_utf8};

verus! {

struct Cursor {
    pos: usize,
    line: usize,
    column: usize,
    indents: Vec<usize>,
    curly: usize,
    unindent_at_eol: bool,
    indent_pending: bool,
    line_start: bool,
}

impl View for Cursor {
    type V = LexState;

    closed spec fn view(&self) -> LexState {
        LexState {
            pos: self.pos as int,
            line: self.line as int,
            column: self.column as int,
            indents: self.indents@,
            curly: self.curly as int,
            unindent_at_eol: self.unindent_at_eol,
            indent_pending: self.indent_pending,
            line_start: self.line_start,
        }
    }
}

enum Outcome {
    Token(Token),
    Skipped,
    Finished,
}

impl Outcome {
    /// Whether this outcome and the state `now` are what `step` prescribes
    /// from the state `before`.
    spec fn agrees(self, now: LexState, step: Step, before: LexState) -> bool {
        match step {
            Step::Emit { token, next } => self matches Outcome::Token(found) && found@ == token
                && now == next,
            Step::Skip { next } => self is Skipped && now == next,
            Step::Done => self is Finished && now == before,
        }
    }
}

/// The view of the token that a call of `lex` returned, if it returned one.
pub open spec fn token_view(token: Option<Token>) -> Option<TokenView> {
    match token {
        Some(token) => Some(token@),
        None => None,
    }
}

impl Cursor {
    fn mark(&self, kind: TokenType) -> (token: Token)
        ensures
            token@ == self@.mark(kind),
    {
        Token::new(kind, String::new(), self.line, self.column)
    }

    fn close_block(&mut self, Ghost(input): Ghost<Seq<u8>>) -> (outcome: Outcome)
        requires
            old(self)@.wf(input),
        ensures
            final(self)@.wf(input),
            outcome.agrees(final(self)@, old(self)@.close_block(), old(self)@),
    {
        if self.unindent_at_eol {
            let token = self.mark(TokenType::Unindent);
            self.unindent_at_eol = false;
            Outcome::Token(token)
        } else if self.indents.len() > 0 {
            let token = self.mark(TokenType::Unindent);
            self.indents.pop();
            Outcome::Token(token)
        } else {
            Outcome::Finished
        }
    }

    fn indentation(&mut self, data: &[u8]) -> (outcome: Outcome)
        requires
            old(self)@.wf(data@),
        ensures
            final(self)@.wf(data@),
            outcome.agrees(final(self)@, old(self)@.indentation(data@), old(self)@),
    {
        let end = scan_run(data, self.pos, Class::Blank);
        let width: usize = end - self.pos;
        let depth: usize = if self.indents.len() > 0 {
            self.indents[self.indents.len() - 1]
        } else {
            0
        };
        if self.indent_pending && width > depth {
            let token = self.mark(TokenType::Indent);
            self.indents.push(width);
            self.indent_pending = false;
            self.line_start = false;
            Outcome::Token(token)
        } else if width < depth {
            let token = self.mark(TokenType::Unindent);
            self.indents.pop();
            self.indent_pending = false;
            Outcome::Token(token)
        } else {
            self.indent_pending = false;
            self.line_start = false;
            Outcome::Skipped
        }
    }

    fn lexeme(
        &mut self,
        input: &str,
        data: &[u8],
        kind: TokenType,
        lead: usize,
        to: usize,
        trail: usize,
    ) -> (outcome: Outcome)
        requires
            data@ == input.spec_bytes(),
            data@.len() < usize::MAX,
            old(self)@.wf(data@),
            old(self).pos + lead <= to,
            to + trail <= data@.len(),
            is_char_boundary(data@, old(self).pos + lead),
            is_char_boundary(data@, to as int),
            is_char_boundary(data@, to + trail),
        ensures
            final(self)@.wf(data@),
            outcome.agrees(
                final(self)@,
                old(self)@.lexeme(data@, kind, lead as int, to as int, trail as int),
                old(self)@,
            ),
    {
        let piece = slice_text(input, self.pos + lead, to);
        let width: usize = piece.unicode_len() + lead + trail;
        let token = Token::new(kind, piece.to_owned(), self.line, self.column);
        self.pos = to + trail;
        self.column = self.column + width;
        Outcome::Token(token)
    }

    fn newline(&mut self, data: &[u8]) -> (outcome: Outcome)
        requires
            data@.len() < usize::MAX,
            old(self)@.wf(data@),
            old(self).pos < data@.len(),
            data@[old(self).pos as int] == NEWLINE,
        ensures
            final(self)@.wf(data@),
            outcome.agrees(final(self)@, old(self)@.newline(), old(self)@),
    {
        if self.curly == 0 && self.unindent_at_eol {
            let token = self.mark(TokenType::Unindent);
            self.unindent_at_eol = false;
            Outcome::Token(token)
        } else {
            proof {
                lemma_boundary_at_ascii(data@, self.pos as int);
            }
            self.pos = self.pos + 1;
            self.line = self.line + 1;
            self.column = 1;
            self.line_start = self.curly == 0;
            Outcome::Skipped
        }
    }

    fn colon(&mut self, input: &str, data: &[u8]) -> (outcome: Outcome)
        requires
            data@ == input.spec_bytes(),
            data@.len() < usize::MAX,
            old(self)@.wf(data@),
            old(self).pos < data@.len(),
            data@[old(self).pos as int] == COLON,
        ensures
            final(self)@.wf(data@),
            outcome.agrees(final(self)@, old(self)@.colon(data@), old(self)@),
    {
        let pos: usize = self.pos;
        proof {
            lemma_boundary_at_ascii(data@, pos as int);
        }
        let last: bool = pos + 1 >= data.len();
        if !last && data[pos + 1] == COLON {
            proof {
                lemma_boundary_at_ascii(data@, pos + 1);
            }
            self.lexeme(input, data, TokenType::ColonColon, 0, pos + 2, 0)
        } else if self.curly > 0 {
            self.lexeme(input, data, TokenType::Colon, 0, pos + 1, 0)
        } else if last || data[pos + 1] == NEWLINE {
            self.pos = pos + 1;
            self.column = self.column + 1;
            self.indent_pending = true;
            Outcome::Skipped
        } else if !self.unindent_at_eol {
            let token = self.mark(TokenType::Indent);
            self.pos = pos + 1;
            self.column = self.column + 1;
            self.unindent_at_eol = true;
            Outcome::Token(token)
        } else {
            self.lexeme(input, data, TokenType::Colon, 0, pos + 1, 0)
        }
    }

    fn string(&mut self, input: &str, data: &[u8]) -> (outcome: Outcome)
        requires
            data@ == input.spec_bytes(),
            data@.len() < usize::MAX,
            old(self)@.wf(data@),
            old(self).pos < data@.len(),
            data@[old(self).pos as int] == SINGLE_QUOTE || data@[old(self).pos as int]
                == DOUBLE_QUOTE,
        ensures
            final(self)@.wf(data@),
            outcome.agrees(final(self)@, old(self)@.string(data@), old(self)@),
    {
        let pos: usize = self.pos;
        let quote: u8 = data[pos];
        let close = find_string_close(data, pos + 1, quote);
        if close < data.len() {
            proof {
                lemma_string_close(data@, pos + 1, quote);
                lemma_boundary_at_ascii(data@, pos as int);
                lemma_boundary_at_ascii(data@, close as int);
            }
            let width: usize = slice_text(input, pos + 1, close).unicode_len() + 2;
            let value = unescaped(input, data, pos + 1, close, quote);
            let token = Token::new(TokenType::String, value, self.line, self.column);
            self.pos = close + 1;
            self.column = self.column + width;
            Outcome::Token(token)
        } else {
            self.close_block(Ghost(data@))
        }
    }

    fn slash(&mut self, input: &str, data: &[u8]) -> (outcome: Outcome)
        requires
            data@ == input.spec_bytes(),
            data@.len() < usize::MAX,
            old(self)@.wf(data@),
            old(self).pos < data@.len(),
            data@[old(self).pos as int] == SLASH,
        ensures
            final(self)@.wf(data@),
            outcome.agrees(final(self)@, old(self)@.slash(data@), old(self)@),
    {
        let pos: usize = self.pos;
        proof {
            lemma_boundary_at_ascii(data@, pos as int);
        }
        if pos + 1 < data.len() && data[pos + 1] == STAR {
            let close = find_docstring_close(data, pos + 2);
            if close < data.len() {
                proof {
                    lemma_docstring_close(data@, pos + 2);
                    lemma_boundary_at_ascii(data@, pos + 1);
                    lemma_boundary_at_ascii(data@, close as int);
                    lemma_boundary_at_ascii(data@, close + 1);
                }
                return self.lexeme(input, data, TokenType::Docstring, 2, close, 2);
            }
        }
        self.lexeme(input, data, TokenType::Operator, 0, pos + 1, 0)
    }

    fn sign(&mut self, input: &str, data: &[u8]) -> (outcome: Outcome)
        requires
            data@ == input.spec_bytes(),
            data@.len() < usize::MAX,
            old(self)@.wf(data@),
            old(self).pos < data@.len(),
            data@[old(self).pos as int] < 0x80,
        ensures
            final(self)@.wf(data@),
            outcome.agrees(final(self)@, old(self)@.sign(data@), old(self)@),
    {
        let pos: usize = self.pos;
        let b: u8 = data[pos];
        proof {
            lemma_boundary_at_ascii(data@, pos as int);
        }
        let more: bool = pos + 1 < data.len();
        if b == PLUS && more && data[pos + 1] == EQUAL {
            proof {
                lemma_boundary_at_ascii(data@, pos + 1);
            }
            self.lexeme(input, data, TokenType::Append, 0, pos + 2, 0)
        } else if b == MINUS && more && data[pos + 1] == GREATER {
            proof {
                lemma_boundary_at_ascii(data@, pos + 1);
            }
            self.lexeme(input, data, TokenType::Arrow, 0, pos + 2, 0)
        } else if b == CURLY_OPEN {
            let outcome = self.lexeme(input, data, TokenType::CurlyOpen, 0, pos + 1, 0);
            self.curly = self.curly + 1;
            outcome
        } else if b == CURLY_CLOSE {
            if self.curly > 0 {
                self.curly = self.curly - 1;
            }
            self.lexeme(input, data, TokenType::CurlyClose, 0, pos + 1, 0)
        } else {
            match single(b) {
                Some(kind) => self.lexeme(input, data, kind, 0, pos + 1, 0),
                None => self.close_block(Ghost(data@)),
            }
        }
    }

    fn step(&mut self, input: &str, data: &[u8]) -> (outcome: Outcome)
        requires
            data@ == input.spec_bytes(),
            data@.len() < usize::MAX,
            old(self)@.wf(data@),
        ensures
            final(self)@.wf(data@),
            outcome.agrees(final(self)@, old(self)@.transition(data@), old(self)@),
    {
        let pos: usize = self.pos;
        if self.line_start {
            return self.indentation(data);
        }
        if pos >= data.len() {
            return self.close_block(Ghost(data@));
        }
        let b: u8 = data[pos];
        if b == SPACE || b == TAB {
            let end = scan_run(data, pos, Class::Blank);
            proof {
                lemma_run_end(data@, pos as int, Class::Blank);
                lemma_boundary_at_ascii(data@, end - 1);
            }
            self.column = self.column + (end - pos);
            self.pos = end;
            Outcome::Skipped
        } else if b == NEWLINE {
            self.newline(data)
        } else if b == HASH {
            let end = scan_run(data, pos, Class::NotNewline);
            proof {
                lemma_run_end(data@, pos as int, Class::NotNewline);
                lemma_boundary(data@, end as int);
            }
            let width: usize = slice_text(input, pos, end).unicode_len();
            self.column = self.column + width;
            self.pos = end;
            Outcome::Skipped
        } else if b == COLON {
            self.colon(input, data)
        } else if 0x30 <= b && b <= 0x39 {
            let (end, fraction) = scan_number(data, pos);
            proof {
                lemma_number_end(data@, pos as int);
                lemma_boundary_at_ascii(data@, end - 1);
            }
            let kind = if fraction {
                TokenType::Float
            } else {
                TokenType::Integer
            };
            self.lexeme(input, data, kind, 0, end, 0)
        } else if (0x61 <= b && b <= 0x7a) || b == UNDERSCORE || b >= 0x80 {
            let end = scan_word(data, pos);
            proof {
                lemma_word_end(data@, pos as int);
            }
            let kind = keyword(slice_text(input, pos, end));
            self.lexeme(input, data, kind, 0, end, 0)
        } else if 0x41 <= b && b <= 0x5a {
            let end = scan_word(data, pos);
            proof {
                lemma_word_end(data@, pos as int);
            }
            self.lexeme(input, data, TokenType::Constant, 0, end, 0)
        } else if b == AT {
            if pos + 1 < data.len() && ((0x61 <= data[pos + 1] && data[pos + 1] <= 0x7a) || data[pos
                + 1] == UNDERSCORE || data[pos + 1] >= 0x80) {
                let end = scan_word(data, pos + 1);
                proof {
                    lemma_boundary_at_ascii(data@, pos as int);
                    lemma_word_end(data@, pos + 1);
                }
                self.lexeme(input, data, TokenType::InstanceVariable, 1, end, 0)
            } else {
                self.close_block(Ghost(data@))
            }
        } else if b == SINGLE_QUOTE || b == DOUBLE_QUOTE {
            self.string(input, data)
        } else if b == SLASH {
            self.slash(input, data)
        } else {
            self.sign(input, data)
        }
    }
}

fn single(b: u8) -> (kind: Option<TokenType>)
    ensures
        kind == sign_kind(b),
{
    if b == PIPE {
        Some(TokenType::Pipe)
    } else if b == PAREN_OPEN {
        Some(TokenType::ParenOpen)
    } else if b == PAREN_CLOSE {
        Some(TokenType::ParenClose)
    } else if b == BRACK_OPEN {
        Some(TokenType::BrackOpen)
    } else if b == BRACK_CLOSE {
        Some(TokenType::BrackClose)
    } else if b == CURLY_OPEN {
        Some(TokenType::CurlyOpen)
    } else if b == CURLY_CLOSE {
        Some(TokenType::CurlyClose)
    } else if b == EQUAL {
        Some(TokenType::Equal)
    } else if b == COMMA {
        Some(TokenType::Comma)
    } else if b == DOT {
        Some(TokenType::Dot)
    } else if b == LOWER {
        Some(TokenType::Lower)
    } else if b == GREATER {
        Some(TokenType::Greater)
    } else if b == PLUS || b == STAR || b == MINUS || b == PERCENT || b == SLASH {
        Some(TokenType::Operator)
    } else {
        None
    }
}

/// A lexer over one source text.
pub struct Lexer<'l> {
    input: &'l str,
    cursor: Cursor,
}

impl<'l> View for Lexer<'l> {
    type V = LexState;

    closed spec fn view(&self) -> LexState {
        self.cursor@
    }
}

impl<'l> Lexer<'l> {
    /// The bytes of the source text.
    pub closed spec fn source(&self) -> Seq<u8> {
        self.input.spec_bytes()
    }

    /// Whether the lexer is in a state that it can reach on its source
    /// text. Every lexer that `new` returned is, and stays so.
    pub open spec fn wf(&self) -> bool {
        &&& self.source().len() < usize::MAX
        &&& self@.wf(self.source())
    }

    /// A lexer at the start of `input`.
    pub fn new(input: &'l str) -> (lexer: Lexer<'l>)
        requires
            input.spec_bytes().len() < usize::MAX,
        ensures
            lexer.wf(),
            lexer.source() == input.spec_bytes(),
            lexer@ == LexState::start(),
    {
        proof {
            encode_utf8_valid_utf8(input@);
            vstd::utf8::is_char_boundary_start_end_of_seq(input.spec_bytes());
        }
        Lexer {
            input: input,
            cursor: Cursor {
                pos: 0,
                line: 1,
                column: 1,
                indents: Vec::new(),
                curly: 0,
                unindent_at_eol: false,
                indent_pending: false,
                line_start: false,
            },
        }
    }

    /// The byte offset up to which the source text has been read. When
    /// `lex` has returned `None`, an offset before the end of the text is
    /// that of a byte that begins no lexeme.
    pub fn position(&self) -> (position: usize)
        ensures
            position == self@.pos,
    {
        self.cursor.pos
    }

    /// Produces the next token, or `None` when the scan has ended: at the
    /// end of the text, or at a byte that begins no lexeme, once every open
    /// block has been closed.
    pub fn lex(&mut self) -> (token: Option<Token>)
        requires
            old(self).wf(),
        ensures
            final(self).wf(),
            final(self).source() == old(self).source(),
            final(self)@ == old(self)@.next_token(old(self).source()).0,
            token_view(token) == old(self)@.next_token(old(self).source()).1,
    {
        let input = self.input;
        let data = input.as_bytes();
        loop
            invariant
                input == self.input,
                data@ == input.spec_bytes(),
                data@.len() < usize::MAX,
                self.cursor@.wf(data@),
                self.source() == old(self).source(),
                self.cursor@.next_token(data@) == old(self)@.next_token(data@),
            decreases self.cursor@.measure(data@),
        {
            proof {
                lemma_transition(data@, self.cursor@);
            }
            match self.cursor.step(input, data) {
                Outcome::Token(token) => {
                    return Some(token);
                },
                Outcome::Finished => {
                    return None;
                },
                Outcome::Skipped => {},
            }
        }
    }

    /// Produces every token that is left, in order, and leaves the lexer at
    /// the end of its scan.
    pub fn tokens(&mut self) -> (tokens: Vec<Token>)
        requires
            old(self).wf(),
        ensures
            final(self).wf(),
            final(self).source() == old(self).source(),
            token_views(tokens@) == tokens_from(old(self).source(), old(self)@),
            final(self)@.next_token(final(self).source()).1 is None,
    {
        let mut tokens: Vec<Token> = Vec::new();
        assert(token_views(tokens@) =~= Seq::<TokenView>::empty());
        loop
            invariant
                self.wf(),
                self.source() == old(self).source(),
                token_views(tokens@) + tokens_from(self.source(), self@) == tokens_from(
                    old(self).source(),
                    old(self)@,
                ),
            decreases self@.measure(self.source()),
        {
            let ghost before = self@;
            let ghost found = tokens@;
            proof {
                lemma_next_token(self.source(), before);
                lemma_end_is_final(self.source(), before);
            }
            match self.lex() {
                Some(token) => {
                    tokens.push(token);
                    proof {
                        assert(token_views(tokens@) =~= token_views(found) + seq![token@]);
                        assert(tokens_from(self.source(), before) == seq![token@] + tokens_from(
                            self.source(),
                            self@,
                        ));
                    }
                },
                None => {
                    assert(tokens_from(self.source(), before) =~= Seq::<TokenView>::empty());
                    return tokens;
                },
            }
        }
    }
}

} // verus!
