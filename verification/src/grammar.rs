//! The shapes of the lexemes, each as a function of the source bytes, and
//! the scanners that measure them.

use crate::classes::{
    is_digit, lemma_run_end, run_end, scan_run, Class, BACKSLASH, BANG, DOT, QUESTION, SLASH,
    STAR, UNDERSCORE,
};
use crate::text::{
    bytes_equal, lemma_boundary, lemma_boundary_at_ascii, lemma_decode_joins, lemma_piece_valid,
    slice_text,
};
use crate::token::TokenType;
use vstd::prelude::*;
use vstd::string::{StringExecFns, StringSliceAdditionalSpecFns};
use vstd::utf8::{decode_utf8, encode_utf8_decode_utf8, is_char_boundary, valid_utf8};

verus! {

/// The end of the identifier or constant that begins at `from`: its first
/// byte, then the longest run of letters, digits and underscores, then at
/// most one `?` or `!`.
pub open spec fn word_end(bytes: Seq<u8>, from: int) -> int {
    let body = run_end(bytes, from + 1, Class::WordPart);
    if body < bytes.len() && (bytes[body] == QUESTION || bytes[body] == BANG) {
        body + 1
    } else {
        body
    }
}

/// The end of the longest sequence of digits and single underscores that
/// begins at `from`, in which every underscore stands before a digit.
pub open spec fn digits_end(bytes: Seq<u8>, from: int) -> int
    decreases bytes.len() - from,
{
    if 0 <= from < bytes.len() && is_digit(bytes[from]) {
        digits_end(bytes, from + 1)
    } else if 0 <= from && from + 1 < bytes.len() && bytes[from] == UNDERSCORE && is_digit(
        bytes[from + 1],
    ) {
        digits_end(bytes, from + 2)
    } else {
        from
    }
}

/// Whether the number that begins at `from` has a fraction: a dot after
/// its integer part, and a digit after the dot.
pub open spec fn has_fraction(bytes: Seq<u8>, from: int) -> bool {
    let dot = digits_end(bytes, from);
    dot + 1 < bytes.len() && bytes[dot] == DOT && is_digit(bytes[dot + 1])
}

/// The end of the number that begins at `from`.
pub open spec fn number_end(bytes: Seq<u8>, from: int) -> int {
    if has_fraction(bytes, from) {
        digits_end(bytes, digits_end(bytes, from) + 1)
    } else {
        digits_end(bytes, from)
    }
}

/// The index of the quote that closes a string whose content begins at
/// `from`: the first `quote` that no backslash stands directly before. The
/// length of `bytes` if the string is never closed.
pub open spec fn string_close(bytes: Seq<u8>, from: int, quote: u8) -> int
    decreases bytes.len() - from,
{
    if from < 0 || from >= bytes.len() {
        bytes.len() as int
    } else if bytes[from] == quote {
        from
    } else if bytes[from] == BACKSLASH && from + 1 < bytes.len() && bytes[from + 1] == quote {
        string_close(bytes, from + 2, quote)
    } else {
        string_close(bytes, from + 1, quote)
    }
}

/// The content of a string without the backslashes that escape `quote`:
/// every backslash that stands directly before a `quote` is left out.
pub open spec fn unescape(content: Seq<u8>, quote: u8) -> Seq<u8>
    decreases content.len(),
{
    if content.len() == 0 {
        content
    } else if content[0] == BACKSLASH && content.len() > 1 && content[1] == quote {
        unescape(content.skip(1), quote)
    } else {
        seq![content[0]] + unescape(content.skip(1), quote)
    }
}

/// The index of the first `*/` at or after `from`, or the length of `bytes`
/// if there is none.
pub open spec fn docstring_close(bytes: Seq<u8>, from: int) -> int
    decreases bytes.len() - from,
{
    if from < 0 || from + 1 >= bytes.len() {
        bytes.len() as int
    } else if bytes[from] == STAR && bytes[from + 1] == SLASH {
        from
    } else {
        docstring_close(bytes, from + 1)
    }
}

/// The kind of an identifier-shaped word: that of the keyword it spells, or
/// `Identifier`.
pub open spec fn word_kind(word: Seq<char>) -> TokenType {
    if word == "trait"@ {
        TokenType::Trait
    } else if word == "class"@ {
        TokenType::Class
    } else if word == "def"@ {
        TokenType::Def
    } else if word == "enum"@ {
        TokenType::Enum
    } else if word == "use"@ {
        TokenType::Use
    } else if word == "import"@ {
        TokenType::Import
    } else if word == "as"@ {
        TokenType::As
    } else if word == "let"@ {
        TokenType::Let
    } else if word == "mut"@ {
        TokenType::Mutable
    } else if word == "return"@ {
        TokenType::Return
    } else if word == "super"@ {
        TokenType::Super
    } else if word == "break"@ {
        TokenType::Break
    } else if word == "continue"@ {
        TokenType::Continue
    } else if word == "pub"@ {
        TokenType::Public
    } else if word == "dyn"@ {
        TokenType::Dynamic
    } else {
        TokenType::Identifier
    }
}

/// A word ends after its first byte and within the text, at a character
/// boundary.
pub proof fn lemma_word_end(bytes: Seq<u8>, from: int)
    requires
        0 <= from < bytes.len(),
    ensures
        from < word_end(bytes, from) <= bytes.len(),
        valid_utf8(bytes) ==> is_char_boundary(bytes, word_end(bytes, from)),
{
    lemma_run_end(bytes, from + 1, Class::WordPart);
    if valid_utf8(bytes) {
        let body = run_end(bytes, from + 1, Class::WordPart);
        if body < bytes.len() && (bytes[body] == QUESTION || bytes[body] == BANG) {
            lemma_boundary_at_ascii(bytes, body);
        } else {
            lemma_boundary(bytes, body);
        }
    }
}

/// A sequence of digits ends within the text and, unless it is empty, after
/// a digit.
pub proof fn lemma_digits_end(bytes: Seq<u8>, from: int)
    requires
        0 <= from <= bytes.len(),
    ensures
        from <= digits_end(bytes, from) <= bytes.len(),
        from < bytes.len() && is_digit(bytes[from]) ==> from < digits_end(bytes, from),
        from < digits_end(bytes, from) ==> is_digit(bytes[digits_end(bytes, from) - 1]),
    decreases bytes.len() - from,
{
    if from < bytes.len() && is_digit(bytes[from]) {
        lemma_digits_end(bytes, from + 1);
    } else if from + 1 < bytes.len() && bytes[from] == UNDERSCORE && is_digit(bytes[from + 1]) {
        lemma_digits_end(bytes, from + 2);
    }
}

/// A number that begins with a digit ends after it and within the text,
/// after a digit.
pub proof fn lemma_number_end(bytes: Seq<u8>, from: int)
    requires
        0 <= from < bytes.len(),
        is_digit(bytes[from]),
    ensures
        from < number_end(bytes, from) <= bytes.len(),
        is_digit(bytes[number_end(bytes, from) - 1]),
{
    lemma_digits_end(bytes, from);
    if has_fraction(bytes, from) {
        lemma_digits_end(bytes, digits_end(bytes, from) + 1);
    }
}

/// The closing quote of a string lies at or after the start of the content,
/// and it is a quote.
pub proof fn lemma_string_close(bytes: Seq<u8>, from: int, quote: u8)
    requires
        0 <= from <= bytes.len(),
    ensures
        from <= string_close(bytes, from, quote) <= bytes.len(),
        string_close(bytes, from, quote) < bytes.len() ==> bytes[string_close(bytes, from, quote)]
            == quote,
    decreases bytes.len() - from,
{
    if from < bytes.len() && bytes[from] != quote {
        if bytes[from] == BACKSLASH && from + 1 < bytes.len() && bytes[from + 1] == quote {
            lemma_string_close(bytes, from + 2, quote);
        } else {
            lemma_string_close(bytes, from + 1, quote);
        }
    }
}

/// The end of a docstring lies at or after the start of its body, and the
/// two bytes there are `*/`.
pub proof fn lemma_docstring_close(bytes: Seq<u8>, from: int)
    requires
        0 <= from <= bytes.len(),
    ensures
        from <= docstring_close(bytes, from) <= bytes.len(),
        docstring_close(bytes, from) < bytes.len() ==> docstring_close(bytes, from) + 1
            < bytes.len() && bytes[docstring_close(bytes, from)] == STAR && bytes[docstring_close(
            bytes,
            from,
        ) + 1] == SLASH,
    decreases bytes.len() - from,
{
    if from + 1 < bytes.len() && !(bytes[from] == STAR && bytes[from + 1] == SLASH) {
        lemma_docstring_close(bytes, from + 1);
    }
}

/// Finds the end of the word that begins at `from`.
pub fn scan_word(data: &[u8], from: usize) -> (end: usize)
    requires
        from < data@.len(),
    ensures
        end == word_end(data@, from as int),
        from < end <= data@.len(),
{
    let len = data.len();
    let body = scan_run(data, from + 1, Class::WordPart);
    if body < len && (data[body] == QUESTION || data[body] == BANG) {
        body + 1
    } else {
        body
    }
}

/// Finds the end of the digits and underscores that begin at `from`.
pub fn scan_digits(data: &[u8], from: usize) -> (end: usize)
    requires
        from <= data@.len(),
    ensures
        end == digits_end(data@, from as int),
        from <= end <= data@.len(),
{
    let mut i: usize = from;
    loop
        invariant
            from <= i <= data@.len(),
            digits_end(data@, i as int) == digits_end(data@, from as int),
        decreases data@.len() - i,
    {
        if i < data.len() && 0x30 <= data[i] && data[i] <= 0x39 {
            i += 1;
        } else if i < data.len() && data[i] == UNDERSCORE && i + 1 < data.len() && 0x30 <= data[i
            + 1] && data[i + 1] <= 0x39 {
            i += 2;
        } else {
            return i;
        }
    }
}

/// Finds the end of the number that begins at `from`, and whether it has a
/// fraction.
pub fn scan_number(data: &[u8], from: usize) -> (found: (usize, bool))
    requires
        from < data@.len(),
        is_digit(data@[from as int]),
    ensures
        found.0 == number_end(data@, from as int),
        found.1 == has_fraction(data@, from as int),
        from < found.0 <= data@.len(),
{
    proof {
        lemma_number_end(data@, from as int);
    }
    let dot = scan_digits(data, from);
    if dot < data.len() && data[dot] == DOT && dot + 1 < data.len() && 0x30 <= data[dot + 1]
        && data[dot + 1] <= 0x39 {
        (scan_digits(data, dot + 1), true)
    } else {
        (dot, false)
    }
}

/// Finds the quote that closes the string whose content begins at `from`.
pub fn find_string_close(data: &[u8], from: usize, quote: u8) -> (close: usize)
    requires
        from <= data@.len(),
    ensures
        close == string_close(data@, from as int, quote),
        from <= close <= data@.len(),
{
    let mut i: usize = from;
    loop
        invariant
            from <= i <= data@.len(),
            string_close(data@, i as int, quote) == string_close(data@, from as int, quote),
        decreases data@.len() - i,
    {
        if i >= data.len() || data[i] == quote {
            return i;
        } else if data[i] == BACKSLASH && i + 1 < data.len() && data[i + 1] == quote {
            i += 2;
        } else {
            i += 1;
        }
    }
}

/// Finds the first `*/` at or after `from`.
pub fn find_docstring_close(data: &[u8], from: usize) -> (close: usize)
    requires
        from <= data@.len(),
    ensures
        close == docstring_close(data@, from as int),
        from <= close <= data@.len(),
{
    let mut i: usize = from;
    loop
        invariant
            from <= i <= data@.len(),
            docstring_close(data@, i as int) == docstring_close(data@, from as int),
        decreases data@.len() - i,
    {
        if i >= data.len() || i + 1 >= data.len() {
            return data.len();
        } else if data[i] == STAR && data[i + 1] == SLASH {
            return i;
        } else {
            i += 1;
        }
    }
}

/// Whether two strings hold the same characters.
pub fn same_text(a: &str, b: &str) -> (same: bool)
    ensures
        same == (a@ == b@),
{
    proof {
        encode_utf8_decode_utf8(a@);
        encode_utf8_decode_utf8(b@);
    }
    bytes_equal(a.as_bytes(), b.as_bytes())
}

/// The kind of the identifier-shaped `word`.
pub fn keyword(word: &str) -> (kind: TokenType)
    ensures
        kind == word_kind(word@),
{
    if same_text(word, "trait") {
        TokenType::Trait
    } else if same_text(word, "class") {
        TokenType::Class
    } else if same_text(word, "def") {
        TokenType::Def
    } else if same_text(word, "enum") {
        TokenType::Enum
    } else if same_text(word, "use") {
        TokenType::Use
    } else if same_text(word, "import") {
        TokenType::Import
    } else if same_text(word, "as") {
        TokenType::As
    } else if same_text(word, "let") {
        TokenType::Let
    } else if same_text(word, "mut") {
        TokenType::Mutable
    } else if same_text(word, "return") {
        TokenType::Return
    } else if same_text(word, "super") {
        TokenType::Super
    } else if same_text(word, "break") {
        TokenType::Break
    } else if same_text(word, "continue") {
        TokenType::Continue
    } else if same_text(word, "pub") {
        TokenType::Public
    } else if same_text(word, "dyn") {
        TokenType::Dynamic
    } else {
        TokenType::Identifier
    }
}

/// The text of the string content between `from` and `to`, without the
/// backslashes that escape `quote`.
pub fn unescaped(input: &str, data: &[u8], from: usize, to: usize, quote: u8) -> (value: String)
    requires
        data@ == input.spec_bytes(),
        valid_utf8(data@),
        from <= to <= data@.len(),
        quote < 0x80,
        quote != BACKSLASH,
        is_char_boundary(data@, from as int),
        is_char_boundary(data@, to as int),
    ensures
        value@ == decode_utf8(unescape(data@.subrange(from as int, to as int), quote)),
{
    let mut value = String::new();
    let ghost mut done: Seq<u8> = Seq::empty();
    let mut start: usize = from;
    let mut i: usize = from;
    while i < to
        invariant
            data@ == input.spec_bytes(),
            valid_utf8(data@),
            from <= start <= i <= to <= data@.len(),
            quote < 0x80,
            quote != BACKSLASH,
            is_char_boundary(data@, start as int),
            is_char_boundary(data@, to as int),
            unescape(data@.subrange(start as int, to as int), quote) == data@.subrange(
                start as int,
                i as int,
            ) + unescape(data@.subrange(i as int, to as int), quote),
            valid_utf8(done),
            value@ == decode_utf8(done),
            done + unescape(data@.subrange(start as int, to as int), quote) == unescape(
                data@.subrange(from as int, to as int),
                quote,
            ),
        decreases to - i,
    {
        let ghost rest = data@.subrange(i as int, to as int);
        assert(rest.skip(1) =~= data@.subrange(i + 1, to as int));
        assert(rest[0] == data@[i as int]);
        if data[i] == BACKSLASH && i + 1 < to && data[i + 1] == quote {
            proof {
                lemma_boundary_at_ascii(data@, i as int);
                lemma_boundary_at_ascii(data@, i + 1);
            }
            let piece = slice_text(input, start, i);
            value.append(piece);
            proof {
                let kept = data@.subrange(start as int, i as int);
                let after = data@.subrange(i + 1, to as int);
                assert(rest[1] == data@[i + 1]);
                assert(after.skip(1) =~= data@.subrange(i + 2, to as int));
                assert(after[0] == quote);
                assert(unescape(after, quote) == seq![quote] + unescape(after.skip(1), quote));
                assert(seq![quote] =~= data@.subrange(i + 1, i + 2));
                lemma_piece_valid(data@, start as int, i as int);
                lemma_decode_joins(done, kept);
                done = done + kept;
            }
            start = i + 1;
            i = i + 2;
        } else {
            proof {
                assert(data@.subrange(start as int, i as int) + seq![rest[0]] =~= data@.subrange(
                    start as int,
                    i + 1,
                ));
                assert(data@.subrange(start as int, i as int) + (seq![rest[0]] + unescape(
                    rest.skip(1),
                    quote,
                )) =~= (data@.subrange(start as int, i as int) + seq![rest[0]]) + unescape(
                    rest.skip(1),
                    quote,
                ));
            }
            i = i + 1;
        }
    }
    let piece = slice_text(input, start, to);
    value.append(piece);
    proof {
        let kept = data@.subrange(start as int, to as int);
        assert(data@.subrange(to as int, to as int) =~= Seq::<u8>::empty());
        assert(kept + Seq::<u8>::empty() =~= kept);
        lemma_piece_valid(data@, start as int, to as int);
        lemma_decode_joins(done, kept);
    }
    value
}

} // verus!
