//! The lexer as a state machine: its state between two tokens, and the one
//! transition it makes from each state on a given source text.
//!
//! Blocks are opened by a colon outside of curly braces. A colon at the end
//! of a line opens a block if the next line is indented more deeply than the
//! innermost open block; the block is closed by the first line that is
//! indented less deeply than it. A colon followed by more text on its line
//! opens a block that the end of that line closes. A byte that begins no
//! lexeme ends the scan as the end of the text does: the open blocks are
//! closed and no further token is produced.

use crate::classes::{
    is_blank, is_digit, is_upper, is_word_start, lemma_run_end, run_end, Class, AT, BRACK_CLOSE,
    BRACK_OPEN, COLON, COMMA, CURLY_CLOSE, CURLY_OPEN, DOT, DOUBLE_QUOTE, EQUAL, GREATER, HASH,
    LOWER, MINUS, NEWLINE, PAREN_CLOSE, PAREN_OPEN, PERCENT, PIPE, PLUS, SINGLE_QUOTE, SLASH, STAR,
};
use crate::grammar::{
    docstring_close, has_fraction, lemma_docstring_close, lemma_number_end, lemma_string_close,
    lemma_word_end, number_end, string_close, unescape, word_end, word_kind,
};
use crate::text::text;
use crate::token::{TokenType, TokenView};
use vstd::prelude::*;
use vstd::utf8::{decode_utf8, is_char_boundary, valid_utf8};

verus! {

/// The state of a lexer between two tokens.
pub struct LexState {
    /// The byte offset of the next byte to read.
    pub pos: int,
    /// The line of that byte, counted from 1.
    pub line: int,
    /// The column of that byte, counted in characters from 1.
    pub column: int,
    /// The indentation of each open indented block, innermost last.
    pub indents: Seq<usize>,
    /// The number of curly braces that are open.
    pub curly: int,
    /// Whether a block opened in the middle of a line waits for its end.
    pub unindent_at_eol: bool,
    /// Whether a colon at the end of the last line waits for a deeper line.
    pub indent_pending: bool,
    /// Whether the indentation of the line at `pos` is still to be looked at.
    pub line_start: bool,
}

/// What the lexer does in one transition.
pub enum Step {
    /// It produces a token.
    Emit { token: TokenView, next: LexState },
    /// It passes over text that yields no token.
    Skip { next: LexState },
    /// It has nothing left to do.
    Done,
}

/// The kind of the token that the single byte `b` spells, if it spells one.
pub open spec fn sign_kind(b: u8) -> Option<TokenType> {
    if b == PIPE {
        Some(TokenType::Pipe)
    } else if b == PAREN_OPEN {
        Some(TokenType::ParenOpen)
    } else if b == PAREN_CLOSE {
        Some(TokenType::ParenClose)
    } else if b == BRACK_OPEN {
        Some(TokenType::BrackOpen)
    } else if b == BRACK_CLOSE {
        Some(TokenType::BrackClose)
    } else if b == CURLY_OPEN {
        Some(TokenType::CurlyOpen)
    } else if b == CURLY_CLOSE {
        Some(TokenType::CurlyClose)
    } else if b == EQUAL {
        Some(TokenType::Equal)
    } else if b == COMMA {
        Some(TokenType::Comma)
    } else if b == DOT {
        Some(TokenType::Dot)
    } else if b == LOWER {
        Some(TokenType::Lower)
    } else if b == GREATER {
        Some(TokenType::Greater)
    } else if b == PLUS || b == STAR || b == MINUS || b == PERCENT || b == SLASH {
        Some(TokenType::Operator)
    } else {
        None
    }
}

impl LexState {
    /// The state in which every lexer starts.
    pub open spec fn start() -> LexState {
        LexState {
            pos: 0,
            line: 1,
            column: 1,
            indents: Seq::empty(),
            curly: 0,
            unindent_at_eol: false,
            indent_pending: false,
            line_start: false,
        }
    }

    /// Whether the position lies within `input`.
    pub open spec fn fits(self, input: Seq<u8>) -> bool {
        0 <= self.pos <= input.len()
    }

    /// Whether every open indented block is indented, and more deeply than
    /// the block around it.
    pub open spec fn nested(self) -> bool {
        &&& forall|i: int| 0 <= i < self.indents.len() ==> 0 < #[trigger] self.indents[i]
        &&& forall|i: int, j: int|
            0 <= i < j < self.indents.len() ==> self.indents[i] < self.indents[j]
    }

    /// Whether the state can be reached on `input`: the position lies at a
    /// character boundary, no counter has run ahead of it, and the open
    /// blocks are nested.
    pub open spec fn wf(self, input: Seq<u8>) -> bool {
        &&& valid_utf8(input)
        &&& 0 <= self.pos <= input.len()
        &&& is_char_boundary(input, self.pos)
        &&& 1 <= self.line <= self.pos + 1
        &&& 1 <= self.column <= self.pos + 1
        &&& 0 <= self.curly <= self.pos
        &&& self.nested()
    }

    /// The indentation of the innermost open block, 0 if none is open.
    pub open spec fn depth(self) -> int {
        if self.indents.len() > 0 {
            self.indents.last() as int
        } else {
            0
        }
    }

    /// The number of blocks that are open: an `Indent` was produced for
    /// each of them, and no `Unindent` yet.
    pub open spec fn open_blocks(self) -> int {
        self.indents.len() + if self.unindent_at_eol {
            1int
        } else {
            0int
        }
    }

    /// The token of the given kind that has no text and stands at the
    /// current position.
    pub open spec fn mark(self, kind: TokenType) -> TokenView {
        TokenView { kind: kind, value: Seq::empty(), line: self.line, column: self.column }
    }

    /// The byte after the one at the current position, if there is one.
    pub open spec fn follower(self, input: Seq<u8>) -> Option<u8> {
        if self.pos + 1 < input.len() {
            Some(input[self.pos + 1])
        } else {
            None
        }
    }

    /// Closes one open block, or ends the scan if none is open.
    pub open spec fn close_block(self) -> Step {
        if self.unindent_at_eol {
            Step::Emit {
                token: self.mark(TokenType::Unindent),
                next: LexState { unindent_at_eol: false, ..self },
            }
        } else if self.indents.len() > 0 {
            Step::Emit {
                token: self.mark(TokenType::Unindent),
                next: LexState { indents: self.indents.drop_last(), ..self },
            }
        } else {
            Step::Done
        }
    }

    /// The token whose text lies between `lead` bytes after the current
    /// position and `to`, and whose lexeme ends `trail` bytes after `to`.
    /// The column advances by the characters of the text and by the bytes
    /// before and after it.
    pub open spec fn lexeme(
        self,
        input: Seq<u8>,
        kind: TokenType,
        lead: int,
        to: int,
        trail: int,
    ) -> Step {
        let value = text(input, self.pos + lead, to);
        Step::Emit {
            token: TokenView { kind: kind, value: value, line: self.line, column: self.column },
            next: LexState {
                pos: to + trail,
                column: self.column + value.len() + lead + trail,
                ..self
            },
        }
    }

    /// At the start of a line outside of curly braces: compares the
    /// indentation of the line with that of the innermost open block.
    pub open spec fn indentation(self, input: Seq<u8>) -> Step {
        let width = run_end(input, self.pos, Class::Blank) - self.pos;
        if self.indent_pending && width > self.depth() {
            Step::Emit {
                token: self.mark(TokenType::Indent),
                next: LexState {
                    indents: self.indents.push(width as usize),
                    indent_pending: false,
                    line_start: false,
                    ..self
                },
            }
        } else if width < self.depth() {
            Step::Emit {
                token: self.mark(TokenType::Unindent),
                next: LexState {
                    indents: self.indents.drop_last(),
                    indent_pending: false,
                    ..self
                },
            }
        } else {
            Step::Skip { next: LexState { indent_pending: false, line_start: false, ..self } }
        }
    }

    /// At a newline: closes the block that was opened on this line, if
    /// there is one and no curly brace is open, and moves to the next line
    /// otherwise.
    pub open spec fn newline(self) -> Step {
        if self.curly == 0 && self.unindent_at_eol {
            Step::Emit {
                token: self.mark(TokenType::Unindent),
                next: LexState { unindent_at_eol: false, ..self },
            }
        } else {
            Step::Skip {
                next: LexState {
                    pos: self.pos + 1,
                    line: self.line + 1,
                    column: 1,
                    line_start: self.curly == 0,
                    ..self
                },
            }
        }
    }

    /// At a colon.
    pub open spec fn colon(self, input: Seq<u8>) -> Step {
        if self.follower(input) == Some(COLON) {
            self.lexeme(input, TokenType::ColonColon, 0, self.pos + 2, 0)
        } else if self.curly > 0 {
            self.lexeme(input, TokenType::Colon, 0, self.pos + 1, 0)
        } else if self.follower(input) is None || self.follower(input) == Some(NEWLINE) {
            Step::Skip {
                next: LexState {
                    pos: self.pos + 1,
                    column: self.column + 1,
                    indent_pending: true,
                    ..self
                },
            }
        } else if !self.unindent_at_eol {
            Step::Emit {
                token: self.mark(TokenType::Indent),
                next: LexState {
                    pos: self.pos + 1,
                    column: self.column + 1,
                    unindent_at_eol: true,
                    ..self
                },
            }
        } else {
            self.lexeme(input, TokenType::Colon, 0, self.pos + 1, 0)
        }
    }

    /// At a quote: the string up to the quote that closes it.
    pub open spec fn string(self, input: Seq<u8>) -> Step {
        let quote = input[self.pos];
        let close = string_close(input, self.pos + 1, quote);
        if close < input.len() {
            Step::Emit {
                token: TokenView {
                    kind: TokenType::String,
                    value: decode_utf8(unescape(input.subrange(self.pos + 1, close), quote)),
                    line: self.line,
                    column: self.column,
                },
                next: LexState {
                    pos: close + 1,
                    column: self.column + text(input, self.pos + 1, close).len() + 2,
                    ..self
                },
            }
        } else {
            self.close_block()
        }
    }

    /// At a slash: a docstring if it begins one that is closed, the
    /// operator otherwise.
    pub open spec fn slash(self, input: Seq<u8>) -> Step {
        let close = docstring_close(input, self.pos + 2);
        if self.follower(input) == Some(STAR) && close < input.len() {
            self.lexeme(input, TokenType::Docstring, 2, close, 2)
        } else {
            self.lexeme(input, TokenType::Operator, 0, self.pos + 1, 0)
        }
    }

    /// At any other byte: the longest sign that begins here.
    pub open spec fn sign(self, input: Seq<u8>) -> Step {
        let b = input[self.pos];
        if b == PLUS && self.follower(input) == Some(EQUAL) {
            self.lexeme(input, TokenType::Append, 0, self.pos + 2, 0)
        } else if b == MINUS && self.follower(input) == Some(GREATER) {
            self.lexeme(input, TokenType::Arrow, 0, self.pos + 2, 0)
        } else if b == CURLY_OPEN {
            LexState { curly: self.curly + 1, ..self }.lexeme(
                input,
                TokenType::CurlyOpen,
                0,
                self.pos + 1,
                0,
            )
        } else if b == CURLY_CLOSE {
            LexState {
                curly: if self.curly > 0 {
                    self.curly - 1
                } else {
                    0
                },
                ..self
            }.lexeme(input, TokenType::CurlyClose, 0, self.pos + 1, 0)
        } else {
            match sign_kind(b) {
                Some(kind) => self.lexeme(input, kind, 0, self.pos + 1, 0),
                None => self.close_block(),
            }
        }
    }

    /// The transition that the lexer makes from this state on `input`.
    pub open spec fn transition(self, input: Seq<u8>) -> Step {
        if self.line_start {
            self.indentation(input)
        } else if self.pos >= input.len() {
            self.close_block()
        } else {
            let b = input[self.pos];
            if is_blank(b) {
                let end = run_end(input, self.pos, Class::Blank);
                Step::Skip {
                    next: LexState { pos: end, column: self.column + (end - self.pos), ..self },
                }
            } else if b == NEWLINE {
                self.newline()
            } else if b == HASH {
                let end = run_end(input, self.pos, Class::NotNewline);
                Step::Skip {
                    next: LexState {
                        pos: end,
                        column: self.column + text(input, self.pos, end).len(),
                        ..self
                    },
                }
            } else if b == COLON {
                self.colon(input)
            } else if is_digit(b) {
                self.lexeme(
                    input,
                    if has_fraction(input, self.pos) {
                        TokenType::Float
                    } else {
                        TokenType::Integer
                    },
                    0,
                    number_end(input, self.pos),
                    0,
                )
            } else if is_word_start(b) {
                let end = word_end(input, self.pos);
                self.lexeme(input, word_kind(text(input, self.pos, end)), 0, end, 0)
            } else if is_upper(b) {
                self.lexeme(input, TokenType::Constant, 0, word_end(input, self.pos), 0)
            } else if b == AT {
                if self.pos + 1 < input.len() && is_word_start(input[self.pos + 1]) {
                    self.lexeme(
                        input,
                        TokenType::InstanceVariable,
                        1,
                        word_end(input, self.pos + 1),
                        0,
                    )
                } else {
                    self.close_block()
                }
            } else if b == SINGLE_QUOTE || b == DOUBLE_QUOTE {
                self.string(input)
            } else if b == SLASH {
                self.slash(input)
            } else {
                self.sign(input)
            }
        }
    }

    /// A bound on the number of transitions that are left.
    pub open spec fn measure(self, input: Seq<u8>) -> int {
        2 * (input.len() - self.pos) + self.indents.len() + (if self.indent_pending {
            1int
        } else {
            0int
        }) + (if self.unindent_at_eol {
            1int
        } else {
            0int
        }) + (if self.line_start {
            1int
        } else {
            0int
        })
    }

    /// The state after the next token and that token, or the state in
    /// which the scan ended and no token: the transitions from this state
    /// up to the first that does not pass over text.
    pub open spec fn next_token(self, input: Seq<u8>) -> (LexState, Option<TokenView>)
        decreases self.measure(input),
    {
        match self.transition(input) {
            Step::Emit { token, next } => (next, Some(token)),
            Step::Skip { next } => if 0 <= next.measure(input) < self.measure(input) {
                next.next_token(input)
            } else {
                (next, None)
            },
            Step::Done => (self, None),
        }
    }
}

/// The change in the number of open blocks that a token of the given kind
/// stands for.
pub open spec fn block_change(kind: TokenType) -> int {
    if kind == TokenType::Indent {
        1
    } else if kind == TokenType::Unindent {
        -1
    } else {
        0
    }
}

/// Every transition from a state within the text leads to a state within
/// the text and brings the scan closer to its end. A token changes the
/// number of open blocks by what its kind stands for, text that is passed
/// over does not change it, and the scan ends only when no block is open.
pub proof fn lemma_transition(input: Seq<u8>, state: LexState)
    requires
        state.fits(input),
    ensures
        match state.transition(input) {
            Step::Emit { token, next } => next.fits(input) && next.measure(input) < state.measure(
                input,
            ) && next.open_blocks() == state.open_blocks() + block_change(token.kind),
            Step::Skip { next } => next.fits(input) && next.measure(input) < state.measure(input)
                && next.open_blocks() == state.open_blocks(),
            Step::Done => state.open_blocks() == 0,
        },
{
    let pos = state.pos;
    lemma_run_end(input, pos, Class::Blank);
    lemma_run_end(input, pos, Class::NotNewline);
    if pos < input.len() {
        lemma_word_end(input, pos);
        if is_digit(input[pos]) {
            lemma_number_end(input, pos);
        }
        lemma_string_close(input, pos + 1, input[pos]);
        if pos + 1 < input.len() {
            lemma_word_end(input, pos + 1);
            lemma_docstring_close(input, pos + 2);
        }
    }
}

} // verus!
