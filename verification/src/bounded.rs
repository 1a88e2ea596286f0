//! The fixed-capacity containers of `heapless` that the format helpers fill.
use vstd::prelude::*;

use vstd::string::StringSliceAdditionalSpecFns;

use crate::printk::{Token, TokenView};

verus! {

/// Capacity of the token list of one format string.
pub const MAX_TOKENS: usize = 16;

/// Capacity, in bytes, of one formatted message.
pub const MESSAGE_CAPACITY: usize = 256;

#[verifier::external_type_specification]
#[verifier::external_body]
#[verifier::reject_recursive_types(T)]
pub struct ExHeaplessVec<T, const N: usize>(heapless::Vec<T, N>);

#[verifier::external_type_specification]
#[verifier::external_body]
pub struct ExHeaplessString<const N: usize>(heapless::String<N>);

/// The tokens that a token list holds, in order.
pub uninterp spec fn format_tokens(tokens: heapless::Vec<Token, 16>) -> Seq<TokenView>;

/// The bytes of a message.
pub uninterp spec fn message_bytes(message: heapless::String<256>) -> Seq<u8>;

/// `heapless::Vec::new`: an empty token list.
#[verifier::external_body]
pub(crate) fn token_list_new<'a>() -> (tokens: heapless::Vec<Token<'a>, 16>)
    ensures
        format_tokens(tokens) == Seq::<TokenView>::empty(),
{
    heapless::Vec::new()
}

/// `heapless::Vec::push`: appends while fewer than 16 tokens are held,
/// and otherwise leaves the list as it was.
#[verifier::external_body]
pub(crate) fn token_list_push<'a>(
    tokens: &mut heapless::Vec<Token<'a>, 16>,
    token: Token<'a>,
) -> (pushed: bool)
    ensures
        pushed == (format_tokens(*old(tokens)).len() < 16),
        pushed ==> format_tokens(*final(tokens)) == format_tokens(*old(tokens)).push(token@),
        !pushed ==> format_tokens(*final(tokens)) == format_tokens(*old(tokens)),
{
    tokens.push(token).is_ok()
}

/// `heapless::Vec::as_slice`: the tokens of the list, in order.
#[verifier::external_body]
pub(crate) fn token_list_as_slice<'b, 'a>(tokens: &'b heapless::Vec<Token<'a>, 16>) -> (items: &'b [Token<'a>])
    ensures
        items@.len() == format_tokens(*tokens).len(),
        forall|i: int| 0 <= i < items@.len() ==> #[trigger] items@[i]@ == format_tokens(*tokens)[i],
{
    tokens.as_slice()
}

/// `heapless::String::new`: an empty message.
#[verifier::external_body]
pub(crate) fn message_new() -> (message: heapless::String<256>)
    ensures
        message_bytes(message) == Seq::<u8>::empty(),
{
    heapless::String::new()
}

/// `heapless::String::as_str`: the message as text, over the same bytes, of
/// which there are never more than the 256 that the message holds.
#[verifier::external_body]
pub(crate) fn message_as_str(message: &heapless::String<256>) -> (text: &str)
    ensures
        text.spec_bytes() == message_bytes(*message),
        text.spec_bytes().len() <= 256,
{
    message.as_str()
}

/// `heapless::String::push_str`: appends the bytes of `text` when they fit in
/// the 256 bytes, and otherwise leaves the message as it was.
#[verifier::external_body]
pub(crate) fn message_push_str(message: &mut heapless::String<256>, text: &str) -> (pushed: bool)
    ensures
        pushed == (message_bytes(*old(message)).len() + text.spec_bytes().len() <= 256),
        pushed ==> message_bytes(*final(message)) == message_bytes(*old(message)) + text.spec_bytes(),
        !pushed ==> message_bytes(*final(message)) == message_bytes(*old(message)),
{
    message.push_str(text).is_ok()
}

/// `heapless::String::push` of an ASCII character: appends its one byte when
/// fewer than 256 bytes are held, and otherwise leaves the message as it was.
#[verifier::external_body]
pub(crate) fn message_push_ascii(message: &mut heapless::String<256>, c: char) -> (pushed: bool)
    requires
        (c as u32) < 128,
    ensures
        pushed == (message_bytes(*old(message)).len() < 256),
        pushed ==> message_bytes(*final(message)) == message_bytes(*old(message)).push(c as u8),
        !pushed ==> message_bytes(*final(message)) == message_bytes(*old(message)),
{
    message.push(c).is_ok()
}

} // verus!
