//! The token stream of a source text as a whole, and what holds of it.

use crate::machine::{block_change, lemma_transition, LexState, Step};
use crate::token::{Token, TokenType, TokenView};
use vstd::prelude::*;

verus! {

/// The tokens that the lexer produces on `input` from `state` on, in order.
pub open spec fn tokens_from(input: Seq<u8>, state: LexState) -> Seq<TokenView>
    decreases state.measure(input),
{
    match state.next_token(input) {
        (next, Some(token)) => if 0 <= next.measure(input) < state.measure(input) {
            seq![token] + tokens_from(input, next)
        } else {
            seq![token]
        },
        (_, None) => Seq::empty(),
    }
}

/// The tokens of the source text `input`.
pub open spec fn tokens_of(input: Seq<u8>) -> Seq<TokenView> {
    tokens_from(input, LexState::start())
}

/// The number of tokens of the given kind among `tokens`.
pub open spec fn count_of(tokens: Seq<TokenView>, kind: TokenType) -> int
    decreases tokens.len(),
{
    if tokens.len() == 0 {
        0
    } else {
        count_of(tokens.drop_first(), kind) + if tokens[0].kind == kind {
            1int
        } else {
            0int
        }
    }
}

/// The views of a sequence of tokens.
pub open spec fn token_views(tokens: Seq<Token>) -> Seq<TokenView> {
    tokens.map_values(|token: Token| token@)
}

/// The characters that a token of the given kind takes up in the source
/// besides those of its value: the `@` of an instance variable and the
/// delimiters of a docstring.
pub open spec fn margin(kind: TokenType) -> int {
    if kind == TokenType::InstanceVariable {
        1
    } else if kind == TokenType::Docstring {
        4
    } else {
        0
    }
}

/// From a state within the text, the next token leaves the lexer within
/// the text and closer to the end of the scan, and changes the number of
/// open blocks by what its kind stands for. The scan ends only when no
/// block is open.
pub proof fn lemma_next_token(input: Seq<u8>, state: LexState)
    requires
        state.fits(input),
    ensures
        state.next_token(input).0.fits(input),
        match state.next_token(input).1 {
            Some(token) => state.next_token(input).0.measure(input) < state.measure(input)
                && state.next_token(input).0.open_blocks() == state.open_blocks() + block_change(
                token.kind,
            ),
            None => state.open_blocks() == 0 && state.next_token(input).0.open_blocks() == 0
                && state.next_token(input).0.transition(input) is Done,
        },
    decreases state.measure(input),
{
    lemma_transition(input, state);
    if let Step::Skip { next } = state.transition(input) {
        lemma_next_token(input, next);
    }
}

/// Once the scan has ended it stays ended: no token follows, and the state
/// does not change.
pub proof fn lemma_end_is_final(input: Seq<u8>, state: LexState)
    requires
        state.fits(input),
    ensures
        state.next_token(input).1 is None ==> state.next_token(input).0.next_token(input) == (
            state.next_token(input).0,
            None::<TokenView>,
        ),
{
    lemma_next_token(input, state);
}

/// Blocks are closed as often as they are opened: from any state within the
/// text, the tokens that follow hold one `Unindent` for every `Indent` among
/// them and one for every block that is open in that state.
pub proof fn lemma_blocks_are_closed(input: Seq<u8>, state: LexState)
    requires
        state.fits(input),
    ensures
        count_of(tokens_from(input, state), TokenType::Unindent) == count_of(
            tokens_from(input, state),
            TokenType::Indent,
        ) + state.open_blocks(),
    decreases state.measure(input),
{
    lemma_next_token(input, state);
    let (next, found) = state.next_token(input);
    if let Some(token) = found {
        lemma_blocks_are_closed(input, next);
        let rest = tokens_from(input, next);
        let all = tokens_from(input, state);
        assert(all == seq![token] + rest);
        assert(all.drop_first() =~= rest);
        assert(all[0] == token);
    }
}

/// For every source text, the lexer produces as many `Indent` tokens as
/// `Unindent` tokens.
pub proof fn lemma_indents_match_unindents(input: Seq<u8>)
    ensures
        count_of(tokens_of(input), TokenType::Indent) == count_of(
            tokens_of(input),
            TokenType::Unindent,
        ),
{
    lemma_blocks_are_closed(input, LexState::start());
}

/// A token that is neither a string nor the mark of a block advances the
/// column by the number of characters of its value, not of its bytes, and
/// by the margin of its kind, and it leaves the line as it is. For an
/// identifier the margin is 0.
pub proof fn lemma_column_counts_characters(input: Seq<u8>, state: LexState)
    requires
        state.fits(input),
    ensures
        match state.next_token(input) {
            (next, Some(token)) => token.kind != TokenType::String && token.kind
                != TokenType::Indent && token.kind != TokenType::Unindent ==> next.line
                == token.line && next.column == token.column + token.value.len() + margin(
                token.kind,
            ),
            (_, None) => true,
        },
        margin(TokenType::Identifier) == 0,
    decreases state.measure(input),
{
    lemma_transition(input, state);
    if let Step::Skip { next } = state.transition(input) {
        lemma_column_counts_characters(input, next);
    }
}

} // verus!
