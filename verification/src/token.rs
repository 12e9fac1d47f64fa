//! The lexical unit produced by text analysis.

use vstd::prelude::*;
use crate::chars::byte_len;

verus! {

/// The token `t` with its position advanced by `k`.
pub open spec fn shift_token(t: Token, k: int) -> Token {
    Token { position: (t.position + k) as usize, ..t }
}

/// A token extracted from field text during analysis.
///
/// `offset_from` and `offset_to` are byte offsets into the original field
/// value, `position` is the token's sequence position (used for phrase
/// proximity), and `position_length` is the number of logical positions the
/// token occupies (normally 1).
pub struct Token {
    /// Text content of the token.
    pub text: String,
    /// Byte offset of the first byte of the token in the original text.
    pub offset_from: usize,
    /// Byte offset one past the last byte of the token in the original text.
    pub offset_to: usize,
    /// Sequence position, expressed in number of tokens.
    pub position: usize,
    /// Number of logical positions the token occupies.
    pub position_length: usize,
}

impl Token {
    /// A well-formed token's offset range is exactly as wide as the UTF-8
    /// encoding of its text.
    pub open spec fn wf(self) -> bool {
        self.offset_to as int == self.offset_from as int + byte_len(self.text@)
    }

    /// Builds a token from its parts.
    pub fn new(
        text: String,
        offset_from: usize,
        offset_to: usize,
        position: usize,
        position_length: usize,
    ) -> (t: Token)
        ensures
            t.text == text,
            t.offset_from == offset_from,
            t.offset_to == offset_to,
            t.position == position,
            t.position_length == position_length,
    {
        Token { text, offset_from, offset_to, position, position_length }
    }

    /// A field-by-field copy of the token.
    pub fn duplicate(&self) -> (t: Token)
        ensures
            t == *self,
    {
        Token {
            text: self.text.clone(),
            offset_from: self.offset_from,
            offset_to: self.offset_to,
            position: self.position,
            position_length: self.position_length,
        }
    }
}

} // verus!
