//! Expansion of a tokenized format string into the message that is logged.
//!
//! Text tokens are copied when they are valid UTF-8 and dropped otherwise;
//! each directive takes the next argument and writes it in decimal. A piece
//! that does not fit in what is left of the 256 bytes is left out whole.
use vstd::prelude::*;

use vstd::string::StringSliceAdditionalSpecFns;
use vstd::utf8::valid_utf8;

use crate::bounded::{
    format_tokens, message_as_str, message_bytes, message_new, message_push_ascii, message_push_str,
    token_list_as_slice, MESSAGE_CAPACITY,
};
use crate::printk::{SpecType, Token, TokenView};

verus! {

/// The decimal digits, in ASCII, of `n`.
pub open spec fn decimal(n: nat) -> Seq<u8>
    decreases n,
{
    if n < 10 {
        seq![(0x30 + n) as u8]
    } else {
        decimal(n / 10).push((0x30 + n % 10) as u8)
    }
}

/// What a text token contributes: its bytes if they are valid UTF-8, else nothing.
pub open spec fn text_piece(bytes: Seq<u8>) -> Seq<u8> {
    if valid_utf8(bytes) {
        bytes
    } else {
        Seq::empty()
    }
}

/// `acc` followed by `piece` when both fit in a message, else `acc` alone.
pub open spec fn append_if_room(acc: Seq<u8>, piece: Seq<u8>) -> Seq<u8> {
    if acc.len() + piece.len() <= MESSAGE_CAPACITY {
        acc + piece
    } else {
        acc
    }
}

/// The message that `tokens` give after `acc`, the directives taking their
/// values from `args` in order.
pub open spec fn render_from(tokens: Seq<TokenView>, args: Seq<usize>, acc: Seq<u8>) -> Seq<u8>
    decreases tokens.len(),
{
    if tokens.len() == 0 {
        acc
    } else {
        match tokens[0] {
            TokenView::Text(bytes) => render_from(
                tokens.drop_first(),
                args,
                append_if_room(acc, text_piece(bytes)),
            ),
            TokenView::Spec(_) => render_from(
                tokens.drop_first(),
                args.drop_first(),
                append_if_room(acc, decimal(args[0] as nat)),
            ),
        }
    }
}

/// The message that `tokens` give with the arguments `args`.
pub open spec fn render(tokens: Seq<TokenView>, args: Seq<usize>) -> Seq<u8> {
    render_from(tokens, args, Seq::empty())
}

/// Whether `tokens` can be expanded with `available` arguments: every
/// directive is `%d` or `%i`, and no directive is left without an argument.
pub open spec fn renderable(tokens: Seq<TokenView>, available: int) -> bool
    decreases tokens.len(),
{
    if tokens.len() == 0 {
        true
    } else {
        match tokens[0] {
            TokenView::Text(_) => renderable(tokens.drop_first(), available),
            TokenView::Spec(kind) => {
                &&& kind == SpecType::Signed
                &&& available > 0
                &&& renderable(tokens.drop_first(), available - 1)
            },
        }
    }
}

/// Giving more arguments never makes a format that could be expanded one that
/// cannot: arguments left over are not read.
pub proof fn lemma_more_arguments_still_renderable(tokens: Seq<TokenView>, n: int, m: int)
    requires
        renderable(tokens, n),
        n <= m,
    ensures
        renderable(tokens, m),
    decreases tokens.len(),
{
    if tokens.len() > 0 {
        match tokens[0] {
            TokenView::Text(_) => lemma_more_arguments_still_renderable(tokens.drop_first(), n, m),
            TokenView::Spec(_) => lemma_more_arguments_still_renderable(
                tokens.drop_first(),
                n - 1,
                m - 1,
            ),
        }
    }
}

/// Tokens without directives can be expanded with any number of arguments.
pub proof fn lemma_text_only_renderable(tokens: Seq<TokenView>, n: int)
    requires
        n >= 0,
        forall|i: int| 0 <= i < tokens.len() ==> tokens[i] is Text,
    ensures
        renderable(tokens, n),
    decreases tokens.len(),
{
    if tokens.len() > 0 {
        assert(tokens[0] is Text);
        assert forall|i: int| 0 <= i < tokens.drop_first().len() implies tokens.drop_first()[i] is Text by {
            assert(tokens.drop_first()[i] == tokens[i + 1]);
        }
        lemma_text_only_renderable(tokens.drop_first(), n);
    }
}

proof fn lemma_decimal_len_bound(n: nat)
    ensures
        1 <= decimal(n).len() <= n + 1,
    decreases n,
{
    if n >= 10 {
        lemma_decimal_len_bound(n / 10);
    }
}

/// The message that `tokens` give with `args` when no piece is left out for
/// want of room: every piece, one after the other.
pub open spec fn expand(tokens: Seq<TokenView>, args: Seq<usize>) -> Seq<u8>
    decreases tokens.len(),
{
    if tokens.len() == 0 {
        Seq::empty()
    } else {
        match tokens[0] {
            TokenView::Text(bytes) => text_piece(bytes) + expand(tokens.drop_first(), args),
            TokenView::Spec(_) => decimal(args[0] as nat) + expand(
                tokens.drop_first(),
                args.drop_first(),
            ),
        }
    }
}

/// Whether `b` is an ASCII decimal digit.
pub open spec fn is_digit(b: u8) -> bool {
    0x30 <= b <= 0x39
}

/// The number that the ASCII decimal digits `digits` stand for.
pub open spec fn digits_value(digits: Seq<u8>) -> nat
    decreases digits.len(),
{
    if digits.len() == 0 {
        0
    } else {
        digits_value(digits.drop_last()) * 10 + (digits.last() - 0x30) as nat
    }
}

/// The digits written for an argument are the decimal numeral of its value:
/// ASCII digits, with no leading zero, that stand for exactly that value.
pub proof fn lemma_decimal_is_numeral(n: nat)
    ensures
        decimal(n).len() >= 1,
        decimal(n).len() == 1 <==> n < 10,
        forall|i: int| 0 <= i < decimal(n).len() ==> is_digit(#[trigger] decimal(n)[i]),
        decimal(n).len() > 1 ==> decimal(n)[0] != 0x30,
        digits_value(decimal(n)) == n,
    decreases n,
{
    if n >= 10 {
        let q = n / 10;
        lemma_decimal_is_numeral(q);
        let d = decimal(n);
        assert(d.drop_last() =~= decimal(q));
        assert(d[0] == decimal(q)[0]);
        assert(n % 10 < 10);
        assert(d.last() == (0x30 + n % 10) as u8);
        assert((d.last() - 0x30) as nat == n % 10);
        assert(digits_value(d) == digits_value(d.drop_last()) * 10 + (d.last() - 0x30) as nat);
        assert(digits_value(d) == q * 10 + n % 10);
        if q < 10 {
            assert(q >= 1);
            assert(decimal(q)[0] == (0x30 + q) as u8);
        }
        assert(q * 10 + n % 10 == n) by (nonlinear_arith)
            requires
                q == n / 10,
        ;
        assert forall|i: int| 0 <= i < d.len() implies is_digit(#[trigger] d[i]) by {
            if i < d.len() - 1 {
                assert(d[i] == decimal(q)[i]);
            }
        }
    } else {
        let d = decimal(n);
        assert(d.drop_last() =~= Seq::<u8>::empty());
        assert(digits_value(d) == digits_value(d.drop_last()) * 10 + (d.last() - 0x30) as nat);
    }
}

proof fn lemma_render_from_fits(tokens: Seq<TokenView>, args: Seq<usize>, acc: Seq<u8>)
    requires
        acc.len() + expand(tokens, args).len() <= MESSAGE_CAPACITY,
    ensures
        render_from(tokens, args, acc) == acc + expand(tokens, args),
    decreases tokens.len(),
{
    if tokens.len() == 0 {
        assert(acc + Seq::<u8>::empty() =~= acc);
    } else {
        match tokens[0] {
            TokenView::Text(bytes) => {
                let piece = text_piece(bytes);
                lemma_render_from_fits(tokens.drop_first(), args, acc + piece);
                assert(acc + piece + expand(tokens.drop_first(), args) =~= acc + expand(
                    tokens,
                    args,
                ));
            },
            TokenView::Spec(_) => {
                let piece = decimal(args[0] as nat);
                lemma_render_from_fits(tokens.drop_first(), args.drop_first(), acc + piece);
                assert(acc + piece + expand(tokens.drop_first(), args.drop_first()) =~= acc
                    + expand(tokens, args));
            },
        }
    }
}

/// When all of it fits in 256 bytes, the message is every piece in order:
/// each text token that is valid UTF-8, and the decimal digits of each
/// argument in place of its directive.
pub proof fn lemma_message_complete_when_it_fits(tokens: Seq<TokenView>, args: Seq<usize>)
    requires
        expand(tokens, args).len() <= MESSAGE_CAPACITY,
    ensures
        render(tokens, args) == expand(tokens, args),
{
    lemma_render_from_fits(tokens, args, Seq::empty());
    assert(Seq::<u8>::empty() + expand(tokens, args) =~= expand(tokens, args));
}

proof fn lemma_render_from_bounded(tokens: Seq<TokenView>, args: Seq<usize>, acc: Seq<u8>)
    requires
        acc.len() <= MESSAGE_CAPACITY,
    ensures
        render_from(tokens, args, acc).len() <= MESSAGE_CAPACITY,
        render_from(tokens, args, acc).len() >= acc.len(),
        render_from(tokens, args, acc).take(acc.len() as int) == acc,
    decreases tokens.len(),
{
    if tokens.len() == 0 {
        assert(acc.take(acc.len() as int) =~= acc);
    } else {
        let next = match tokens[0] {
            TokenView::Text(bytes) => append_if_room(acc, text_piece(bytes)),
            TokenView::Spec(_) => append_if_room(acc, decimal(args[0] as nat)),
        };
        let rest_args = match tokens[0] {
            TokenView::Text(_) => args,
            TokenView::Spec(_) => args.drop_first(),
        };
        lemma_render_from_bounded(tokens.drop_first(), rest_args, next);
        let out = render_from(tokens, args, acc);
        assert(out == render_from(tokens.drop_first(), rest_args, next));
        assert(next.take(acc.len() as int) =~= acc);
        assert(out.take(acc.len() as int) =~= out.take(next.len() as int).take(acc.len() as int));
    }
}

/// A message never holds more than 256 bytes.
pub proof fn lemma_message_within_capacity(tokens: Seq<TokenView>, args: Seq<usize>)
    ensures
        render(tokens, args).len() <= MESSAGE_CAPACITY,
{
    lemma_render_from_bounded(tokens, args, Seq::empty());
}

/// `core::str::from_utf8`: the text that `bytes` encode, if they are valid UTF-8.
#[verifier::external_body]
fn utf8_text<'a>(bytes: &'a [u8]) -> (text: Option<&'a str>)
    ensures
        text is Some <==> valid_utf8(bytes@),
        text matches Some(t) ==> t.spec_bytes() == bytes@,
{
    core::str::from_utf8(bytes).ok()
}

/// Number of decimal digits of `n`.
fn decimal_len(n: usize) -> (len: usize)
    ensures
        len == decimal(n as nat).len(),
    decreases n,
{
    if n < 10 {
        1
    } else {
        proof {
            lemma_decimal_len_bound((n / 10) as nat);
        }
        1 + decimal_len(n / 10)
    }
}

/// Appends the decimal digits of `n`, which must fit.
fn push_decimal(message: &mut heapless::String<256>, n: usize)
    requires
        message_bytes(*old(message)).len() + decimal(n as nat).len() <= MESSAGE_CAPACITY,
    ensures
        message_bytes(*final(message)) == message_bytes(*old(message)) + decimal(n as nat),
    decreases n,
{
    if n >= 10 {
        push_decimal(message, n / 10);
    }
    let digit: u8 = (n % 10) as u8;
    let c: char = (0x30u8 + digit) as char;
    let ghost before = message_bytes(*message);
    let pushed = message_push_ascii(message, c);
    assert(pushed);
    assert(c as u8 == (0x30 + n % 10) as u8);
    assert(message_bytes(*message) =~= message_bytes(*old(message)) + decimal(n as nat));
}

/// Expands `tokens` into a message, taking the value of each directive from
/// `args` in order.
pub fn zip_format(tokens: heapless::Vec<Token, 16>, args: &[usize]) -> (message: heapless::String<256>)
    requires
        renderable(format_tokens(tokens), args@.len() as int),
    ensures
        message_bytes(message) == render(format_tokens(tokens), args@),
{
    let items = token_list_as_slice(&tokens);
    let ghost toks = format_tokens(tokens);
    let mut message = message_new();
    let mut next: usize = 0;
    let mut i: usize = 0;
    assert(toks.skip(0) =~= toks);
    assert(args@.skip(0) =~= args@);
    while i < items.len()
        invariant
            items@.len() == toks.len(),
            forall|j: int| 0 <= j < items@.len() ==> #[trigger] items@[j]@ == toks[j],
            i <= items@.len(),
            next <= args@.len(),
            renderable(toks.skip(i as int), args@.len() - next),
            render_from(toks.skip(i as int), args@.skip(next as int), message_bytes(message))
                == render(toks, args@),
        decreases items@.len() - i,
    {
        let ghost rest = toks.skip(i as int);
        let ghost acc = message_bytes(message);
        assert(rest.drop_first() =~= toks.skip(i + 1));
        assert(rest[0] == toks[i as int]);
        assert(items@[i as int]@ == toks[i as int]);
        match items[i] {
            Token::Text(bytes) => {
                match utf8_text(bytes) {
                    Some(text) => {
                        let _ = message_push_str(&mut message, text);
                    },
                    None => {
                        assert(acc + Seq::<u8>::empty() =~= acc);
                    },
                }
            },
            Token::Spec(_) => {
                let ghost args_rest = args@.skip(next as int);
                let value = args[next];
                assert(args_rest[0] == value);
                assert(args_rest.drop_first() =~= args@.skip(next + 1));
                let width = decimal_len(value);
                let len = message_as_str(&message).len();
                if width <= MESSAGE_CAPACITY - len {
                    push_decimal(&mut message, value);
                }
                next = next + 1;
            },
        }
        i = i + 1;
    }
    assert(toks.skip(i as int) =~= Seq::<TokenView>::empty());
    message
}

} // verus!
