//! The bytes the lexer tells apart, and maximal runs of bytes of one class.

use vstd::prelude::*;

verus! {

pub const TAB: u8 = 0x09;

pub const NEWLINE: u8 = 0x0a;

pub const SPACE: u8 = 0x20;

pub const BANG: u8 = 0x21;

pub const DOUBLE_QUOTE: u8 = 0x22;

pub const HASH: u8 = 0x23;

pub const PERCENT: u8 = 0x25;

pub const SINGLE_QUOTE: u8 = 0x27;

pub const PAREN_OPEN: u8 = 0x28;

pub const PAREN_CLOSE: u8 = 0x29;

pub const STAR: u8 = 0x2a;

pub const PLUS: u8 = 0x2b;

pub const COMMA: u8 = 0x2c;

pub const MINUS: u8 = 0x2d;

pub const DOT: u8 = 0x2e;

pub const SLASH: u8 = 0x2f;

pub const COLON: u8 = 0x3a;

pub const LOWER: u8 = 0x3c;

pub const EQUAL: u8 = 0x3d;

pub const GREATER: u8 = 0x3e;

pub const QUESTION: u8 = 0x3f;

pub const AT: u8 = 0x40;

pub const BRACK_OPEN: u8 = 0x5b;

pub const BACKSLASH: u8 = 0x5c;

pub const BRACK_CLOSE: u8 = 0x5d;

pub const UNDERSCORE: u8 = 0x5f;

pub const CURLY_OPEN: u8 = 0x7b;

pub const PIPE: u8 = 0x7c;

pub const CURLY_CLOSE: u8 = 0x7d;

/// An ASCII decimal digit.
pub open spec fn is_digit(b: u8) -> bool {
    0x30 <= b <= 0x39
}

/// An ASCII lowercase letter.
pub open spec fn is_lower(b: u8) -> bool {
    0x61 <= b <= 0x7a
}

/// An ASCII uppercase letter.
pub open spec fn is_upper(b: u8) -> bool {
    0x41 <= b <= 0x5a
}

/// A byte of a character outside ASCII. Every such character counts as a
/// letter.
pub open spec fn is_wide(b: u8) -> bool {
    b >= 0x80
}

/// A byte that may begin an identifier: a lowercase letter, an underscore
/// or a character outside ASCII.
pub open spec fn is_word_start(b: u8) -> bool {
    is_lower(b) || b == UNDERSCORE || is_wide(b)
}

/// A byte that may continue an identifier or a constant.
pub open spec fn is_word_part(b: u8) -> bool {
    is_lower(b) || is_upper(b) || is_digit(b) || b == UNDERSCORE || is_wide(b)
}

/// A space or a tab.
pub open spec fn is_blank(b: u8) -> bool {
    b == SPACE || b == TAB
}

/// The classes of bytes of which the lexer consumes whole runs.
#[derive(Debug, Clone, Copy, PartialEq, Eq, Structural)]
pub enum Class {
    /// Spaces and tabs.
    Blank,
    /// The bytes that continue an identifier.
    WordPart,
    /// Everything up to the end of the line.
    NotNewline,
}

impl Class {
    /// Whether `b` belongs to the class.
    pub open spec fn has(self, b: u8) -> bool {
        match self {
            Class::Blank => is_blank(b),
            Class::WordPart => is_word_part(b),
            Class::NotNewline => b != NEWLINE,
        }
    }

    /// Whether `b` belongs to the class.
    pub fn holds(self, b: u8) -> (holds: bool)
        ensures
            holds == self.has(b),
    {
        match self {
            Class::Blank => b == SPACE || b == TAB,
            Class::WordPart => (0x61 <= b && b <= 0x7a) || (0x41 <= b && b <= 0x5a) || (0x30 <= b
                && b <= 0x39) || b == UNDERSCORE || b >= 0x80,
            Class::NotNewline => b != NEWLINE,
        }
    }
}

/// The end of the longest run of bytes of `class` that begins at `from`:
/// the index of the first byte at or after `from` that is not of the class,
/// or the length of `bytes` if there is none.
pub open spec fn run_end(bytes: Seq<u8>, from: int, class: Class) -> int
    decreases bytes.len() - from,
{
    if 0 <= from < bytes.len() && class.has(bytes[from]) {
        run_end(bytes, from + 1, class)
    } else {
        from
    }
}

/// A run ends within the text, holds bytes of its class only, and is
/// followed by a byte of another class or by the end of the text.
pub proof fn lemma_run_end(bytes: Seq<u8>, from: int, class: Class)
    requires
        0 <= from <= bytes.len(),
    ensures
        from <= run_end(bytes, from, class) <= bytes.len(),
        forall|i: int| from <= i < run_end(bytes, from, class) ==> class.has(#[trigger] bytes[i]),
        run_end(bytes, from, class) < bytes.len() ==> !class.has(
            bytes[run_end(bytes, from, class)],
        ),
    decreases bytes.len() - from,
{
    if from < bytes.len() && class.has(bytes[from]) {
        lemma_run_end(bytes, from + 1, class);
    }
}

/// Finds the end of the run of bytes of `class` that begins at `from`.
pub fn scan_run(data: &[u8], from: usize, class: Class) -> (end: usize)
    requires
        from <= data@.len(),
    ensures
        end == run_end(data@, from as int, class),
        from <= end <= data@.len(),
{
    let mut i: usize = from;
    while i < data.len() && class.holds(data[i])
        invariant
            from <= i <= data@.len(),
            run_end(data@, i as int, class) == run_end(data@, from as int, class),
        decreases data@.len() - i,
    {
        i += 1;
    }
    i
}

} // verus!
