//! Tokens: classified, positioned fragments of source text.

use vstd::prelude::*;

verus! {

/// The closed set of token kinds.
#[derive(Debug, Clone, Copy, PartialEq, Eq, Structural)]
pub enum TokenType {
    Append,
    Arrow,
    BrackClose,
    BrackOpen,
    Colon,
    ColonColon,
    Comma,
    Constant,
    CurlyClose,
    CurlyOpen,
    Docstring,
    Dot,
    Equal,
    Float,
    Greater,
    Identifier,
    InstanceVariable,
    Integer,
    Lower,
    Operator,
    ParenClose,
    ParenOpen,
    Pipe,
    String,
    Trait,
    Class,
    Def,
    Enum,
    Use,
    Import,
    As,
    Let,
    Mutable,
    Return,
    Super,
    Break,
    Continue,
    Public,
    Dynamic,
    Indent,
    Unindent,
}

/// The mathematical content of a token: its kind, its text as a sequence of
/// characters, and the 1-based line and column at which it starts.
pub struct TokenView {
    pub kind: TokenType,
    pub value: Seq<char>,
    pub line: int,
    pub column: int,
}

/// A token as handed to the consumer of the lexer.
#[derive(Debug)]
pub struct Token {
    pub kind: TokenType,
    pub value: String,
    pub line: usize,
    pub column: usize,
}

impl View for Token {
    type V = TokenView;

    open spec fn view(&self) -> TokenView {
        TokenView {
            kind: self.kind,
            value: self.value@,
            line: self.line as int,
            column: self.column as int,
        }
    }
}

impl Token {
    /// Builds a token from its four parts.
    pub fn new(kind: TokenType, val: String, line: usize, col: usize) -> (token: Token)
        ensures
            token.kind == kind,
            token.value == val,
            token.line == line,
            token.column == col,
    {
        Token { kind: kind, value: val, line: line, column: col }
    }
}

} // verus!
