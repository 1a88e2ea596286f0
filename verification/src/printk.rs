//! Tokenizer of the `bpf_printk` format strings that the XDP program hands
//! to the helper dispatcher.
//!
//! A format string is read from the left, one token at a time:
//! - `%` followed by one of `d i u s x X o .` is a directive;
//! - any other `%` is the literal text `%`;
//! - otherwise the longest run of bytes that holds no `%` is literal text.
//! At most [`MAX_TOKENS`] tokens are kept; reading stops when the list is full.
use vstd::prelude::*;

use crate::bounded::{format_tokens, token_list_new, token_list_push, MAX_TOKENS};

verus! {

/// The byte `%`.
pub const PERCENT: u8 = 0x25;

/// The conversion that a `%` directive asks for.
#[derive(Debug, Clone, Copy, PartialEq, Eq)]
pub enum SpecType {
    Signed,
    Unsigned,
    String,
    Hex,
    Octal,
    Dot,
}

impl Default for SpecType {
    fn default() -> (kind: SpecType)
        ensures
            kind == SpecType::Signed,
    {
        SpecType::Signed
    }
}

/// A piece of a format string: literal bytes, or a directive.
#[derive(Debug, Clone, Copy, PartialEq)]
pub enum Token<'a> {
    Text(&'a [u8]),
    Spec(SpecType),
}

/// What a token stands for.
pub enum TokenView {
    Text(Seq<u8>),
    Spec(SpecType),
}

impl<'a> View for Token<'a> {
    type V = TokenView;

    open spec fn view(&self) -> TokenView {
        match self {
            Token::Text(bytes) => TokenView::Text(bytes@),
            Token::Spec(kind) => TokenView::Spec(*kind),
        }
    }
}

/// The directive that `%` followed by `letter` spells, if any.
pub open spec fn directive(letter: u8) -> Option<SpecType> {
    if letter == 0x64 || letter == 0x69 {
        Some(SpecType::Signed)  // `d`, `i`
    } else if letter == 0x75 {
        Some(SpecType::Unsigned)  // `u`
    } else if letter == 0x73 {
        Some(SpecType::String)  // `s`
    } else if letter == 0x78 || letter == 0x58 {
        Some(SpecType::Hex)  // `x`, `X`
    } else if letter == 0x6f {
        Some(SpecType::Octal)  // `o`
    } else if letter == 0x2e {
        Some(SpecType::Dot)  // `.`
    } else {
        None
    }
}

/// Whether `s` starts with a directive.
pub open spec fn starts_with_directive(s: Seq<u8>) -> bool {
    s.len() >= 2 && s[0] == PERCENT && directive(s[1]) is Some
}

/// Number of leading bytes of `s` that are not `%`.
pub open spec fn text_run(s: Seq<u8>) -> nat
    decreases s.len(),
{
    if s.len() == 0 || s[0] == PERCENT {
        0
    } else {
        1 + text_run(s.drop_first())
    }
}

/// Number of bytes that the first token of a non-empty `s` takes.
pub open spec fn token_width(s: Seq<u8>) -> nat {
    if starts_with_directive(s) {
        2
    } else if s[0] == PERCENT {
        1
    } else {
        text_run(s)
    }
}

/// The first token of a non-empty `s`.
pub open spec fn first_token(s: Seq<u8>) -> TokenView {
    if starts_with_directive(s) {
        TokenView::Spec(directive(s[1]).unwrap())
    } else {
        TokenView::Text(s.take(token_width(s) as int))
    }
}

pub proof fn lemma_text_run_bound(s: Seq<u8>)
    ensures
        text_run(s) <= s.len(),
        s.len() > 0 && s[0] != PERCENT ==> text_run(s) >= 1,
    decreases s.len(),
{
    if s.len() > 0 && s[0] != PERCENT {
        lemma_text_run_bound(s.drop_first());
    }
}

/// Every token of the complete reading of `s`, without a bound on their number.
pub open spec fn tokenize(s: Seq<u8>) -> Seq<TokenView>
    decreases s.len(),
{
    if s.len() == 0 {
        Seq::empty()
    } else {
        proof {
            lemma_text_run_bound(s);
        }
        seq![first_token(s)] + tokenize(s.skip(token_width(s) as int))
    }
}

/// The tokens that are kept of `s`: the first [`MAX_TOKENS`] of its reading.
pub open spec fn kept_tokens(s: Seq<u8>) -> Seq<TokenView> {
    let all = tokenize(s);
    if all.len() <= MAX_TOKENS {
        all
    } else {
        all.take(MAX_TOKENS as int)
    }
}

proof fn lemma_token_width_bound(s: Seq<u8>)
    requires
        s.len() > 0,
    ensures
        1 <= token_width(s) <= s.len(),
{
    lemma_text_run_bound(s);
}

/// The directive, if any, that `%` followed by `letter` spells.
fn directive_of(letter: u8) -> (kind: Option<SpecType>)
    ensures
        kind == directive(letter),
{
    if letter == 0x64 || letter == 0x69 {
        Some(SpecType::Signed)
    } else if letter == 0x75 {
        Some(SpecType::Unsigned)
    } else if letter == 0x73 {
        Some(SpecType::String)
    } else if letter == 0x78 || letter == 0x58 {
        Some(SpecType::Hex)
    } else if letter == 0x6f {
        Some(SpecType::Octal)
    } else if letter == 0x2e {
        Some(SpecType::Dot)
    } else {
        None
    }
}

/// Reads the token that starts at `pos`, and returns it with its width.
fn next_token<'a>(input: &'a [u8], pos: usize) -> (read: (Token<'a>, usize))
    requires
        pos < input@.len(),
    ensures
        read.0@ == first_token(input@.skip(pos as int)),
        read.1 == token_width(input@.skip(pos as int)),
{
    let ghost rest = input@.skip(pos as int);
    if input[pos] == PERCENT && pos + 1 < input.len() {
        if let Some(kind) = directive_of(input[pos + 1]) {
            return (Token::Spec(kind), 2);
        }
    }
    if input[pos] == PERCENT {
        let text = vstd::slice::slice_subrange(input, pos, pos + 1);
        assert(text@ =~= rest.take(1));
        return (Token::Text(text), 1);
    }
    let mut end: usize = pos;
    while end < input.len() && input[end] != PERCENT
        invariant
            pos <= end <= input@.len(),
            rest == input@.skip(pos as int),
            text_run(rest) == (end - pos) + text_run(input@.skip(end as int)),
        decreases input@.len() - end,
    {
        assert(input@.skip(end as int).drop_first() =~= input@.skip(end + 1));
        end = end + 1;
    }
    let text = vstd::slice::slice_subrange(input, pos, end);
    assert(text@ =~= rest.take((end - pos) as int));
    (Token::Text(text), end - pos)
}

/// Whether `tokens`, read in order, spell out exactly the bytes of `s`:
/// a text token stands for its own bytes, a directive for `%` and its letter.
pub open spec fn spells(tokens: Seq<TokenView>, s: Seq<u8>) -> bool
    decreases tokens.len(),
{
    if tokens.len() == 0 {
        s.len() == 0
    } else {
        match tokens[0] {
            TokenView::Text(bytes) => {
                &&& 0 < bytes.len() <= s.len()
                &&& s.take(bytes.len() as int) == bytes
                &&& spells(tokens.drop_first(), s.skip(bytes.len() as int))
            },
            TokenView::Spec(kind) => {
                &&& s.len() >= 2
                &&& s[0] == PERCENT
                &&& directive(s[1]) == Some(kind)
                &&& spells(tokens.drop_first(), s.skip(2))
            },
        }
    }
}

/// Whether a text token is well formed: a lone `%`, or bytes of which none is `%`.
pub open spec fn plain_text(bytes: Seq<u8>) -> bool {
    ||| bytes == seq![PERCENT]
    ||| bytes.len() > 0 && forall|i: int| 0 <= i < bytes.len() ==> bytes[i] != PERCENT
}

pub proof fn lemma_text_run_has_no_percent(s: Seq<u8>)
    ensures
        forall|i: int| 0 <= i < text_run(s) ==> s[i] != PERCENT,
    decreases s.len(),
{
    if s.len() > 0 && s[0] != PERCENT {
        lemma_text_run_has_no_percent(s.drop_first());
        lemma_text_run_bound(s.drop_first());
        assert forall|i: int| 0 <= i < text_run(s) implies s[i] != PERCENT by {
            if i > 0 {
                assert(s[i] == s.drop_first()[i - 1]);
            }
        }
    }
}

/// The tokens of a format string spell it out exactly, without a byte lost,
/// added or read twice.
pub proof fn lemma_tokens_spell_input(s: Seq<u8>)
    ensures
        spells(tokenize(s), s),
    decreases s.len(),
{
    if s.len() > 0 {
        lemma_token_width_bound(s);
        let w = token_width(s);
        let rest = s.skip(w as int);
        lemma_tokens_spell_input(rest);
        let toks = tokenize(s);
        assert(toks.drop_first() =~= tokenize(rest));
        assert(toks[0] == first_token(s));
    }
}

/// Every text token of a format string is a lone `%` or holds no `%`.
pub proof fn lemma_text_tokens_are_plain(s: Seq<u8>)
    ensures
        forall|i: int|
            0 <= i < tokenize(s).len() ==> (#[trigger] tokenize(s)[i] matches TokenView::Text(
                bytes,
            ) ==> plain_text(bytes)),
    decreases s.len(),
{
    if s.len() > 0 {
        lemma_token_width_bound(s);
        let w = token_width(s);
        let rest = s.skip(w as int);
        lemma_text_tokens_are_plain(rest);
        let toks = tokenize(s);
        if !starts_with_directive(s) && s[0] != PERCENT {
            lemma_text_run_has_no_percent(s);
        }
        if !starts_with_directive(s) && s[0] == PERCENT {
            assert(s.take(1) =~= seq![PERCENT]);
        }
        assert forall|i: int|
            0 <= i < toks.len() implies (#[trigger] toks[i] matches TokenView::Text(bytes)
            ==> plain_text(bytes)) by {
            if i > 0 {
                assert(toks[i] == tokenize(rest)[i - 1]);
            }
        }
    }
}

proof fn lemma_text_run_of_plain_prefix(a: Seq<u8>, b: Seq<u8>)
    requires
        forall|i: int| 0 <= i < a.len() ==> a[i] != PERCENT,
        b.len() == 0 || b[0] == PERCENT,
    ensures
        text_run(a + b) == a.len(),
    decreases a.len(),
{
    if a.len() == 0 {
        assert(a + b =~= b);
    } else {
        assert((a + b).drop_first() =~= a.drop_first() + b);
        lemma_text_run_of_plain_prefix(a.drop_first(), b);
    }
}

/// A `%` followed by a letter is read by that letter alone: `d` and `i` make
/// a signed directive, `u` an unsigned one, `s` a string one, `x` and `X` a
/// hexadecimal one, `o` an octal one and `.` a dot one; after any other letter
/// the `%` is the text `%` on its own and reading goes on at the letter.
pub proof fn lemma_percent_then_letter(letter: u8, t: Seq<u8>)
    ensures
        ({
            let s = seq![PERCENT, letter] + t;
            let kind: Option<SpecType> = if letter == 0x64 || letter == 0x69 {
                Some(SpecType::Signed)
            } else if letter == 0x75 {
                Some(SpecType::Unsigned)
            } else if letter == 0x73 {
                Some(SpecType::String)
            } else if letter == 0x78 || letter == 0x58 {
                Some(SpecType::Hex)
            } else if letter == 0x6f {
                Some(SpecType::Octal)
            } else if letter == 0x2e {
                Some(SpecType::Dot)
            } else {
                None
            };
            match kind {
                Some(k) => tokenize(s) == seq![TokenView::Spec(k)] + tokenize(t),
                None => tokenize(s) == seq![TokenView::Text(seq![PERCENT])] + tokenize(
                    seq![letter] + t,
                ),
            }
        }),
{
    let s = seq![PERCENT, letter] + t;
    assert(s[0] == PERCENT);
    assert(s[1] == letter);
    lemma_text_run_bound(s);
    assert(s.skip(2) =~= t);
    assert(s.skip(1) =~= seq![letter] + t);
    assert(s.take(1) =~= seq![PERCENT]);
    assert(tokenize(s) == seq![first_token(s)] + tokenize(s.skip(token_width(s) as int)));
}

/// A text token that is not a lone `%` runs as far as it can: bytes without
/// `%` that are followed by `%` or by the end make one token.
pub proof fn lemma_text_token_is_maximal(a: Seq<u8>, b: Seq<u8>)
    requires
        a.len() > 0,
        forall|i: int| 0 <= i < a.len() ==> a[i] != PERCENT,
        b.len() == 0 || b[0] == PERCENT,
    ensures
        tokenize(a + b) == seq![TokenView::Text(a)] + tokenize(b),
{
    let s = a + b;
    assert(s[0] == a[0]);
    lemma_text_run_of_plain_prefix(a, b);
    lemma_text_run_bound(s);
    assert(s.take(a.len() as int) =~= a);
    assert(s.skip(a.len() as int) =~= b);
    assert(tokenize(s) == seq![first_token(s)] + tokenize(s.skip(token_width(s) as int)));
}

/// Non-empty bytes without `%` are one text token.
pub proof fn lemma_percent_free_text_is_one_token(s: Seq<u8>)
    requires
        s.len() > 0,
        forall|i: int| 0 <= i < s.len() ==> s[i] != PERCENT,
    ensures
        tokenize(s) == seq![TokenView::Text(s)],
{
    let none = Seq::<u8>::empty();
    lemma_text_token_is_maximal(s, none);
    assert(s + none =~= s);
    assert(tokenize(none) =~= Seq::<TokenView>::empty());
    assert(seq![TokenView::Text(s)] + Seq::<TokenView>::empty() =~= seq![TokenView::Text(s)]);
}

/// A format string never has more tokens than bytes.
pub proof fn lemma_token_count_bound(s: Seq<u8>)
    ensures
        tokenize(s).len() <= s.len(),
    decreases s.len(),
{
    if s.len() > 0 {
        lemma_token_width_bound(s);
        lemma_token_count_bound(s.skip(token_width(s) as int));
    }
}

/// Where a run of text ends before the end of `s`, it ends at a `%`.
pub proof fn lemma_text_run_stops_at_percent(s: Seq<u8>)
    ensures
        text_run(s) < s.len() ==> s[text_run(s) as int] == PERCENT,
    decreases s.len(),
{
    if s.len() > 0 && s[0] != PERCENT {
        lemma_text_run_stops_at_percent(s.drop_first());
        lemma_text_run_bound(s.drop_first());
        if text_run(s) < s.len() {
            assert(s[text_run(s) as int] == s.drop_first()[text_run(s.drop_first()) as int]);
        }
    }
}

/// Splits a `bpf_printk` format string into its tokens, keeping the first 16.
pub fn parse_bpf_format<'a>(input: &'a [u8]) -> (tokens: heapless::Vec<Token<'a>, 16>)
    ensures
        format_tokens(tokens) == kept_tokens(input@),
{
    let mut tokens = token_list_new();
    let mut pos: usize = 0;
    let mut full = false;
    assert(input@.skip(0) =~= input@);
    while pos < input.len() && !full
        invariant
            pos <= input@.len(),
            format_tokens(tokens) + tokenize(input@.skip(pos as int)) == tokenize(input@),
            format_tokens(tokens).len() <= MAX_TOKENS,
            full ==> format_tokens(tokens).len() == MAX_TOKENS && pos < input@.len(),
        decreases input@.len() - pos, if full { 0int } else { 1int },
    {
        let ghost rest = input@.skip(pos as int);
        let (token, width) = next_token(input, pos);
        let ghost before = format_tokens(tokens);
        if token_list_push(&mut tokens, token) {
            proof {
                lemma_token_width_bound(rest);
                assert(rest.skip(width as int) =~= input@.skip(pos + width));
                assert(tokenize(rest) == seq![token@] + tokenize(rest.skip(width as int)));
                assert(format_tokens(tokens) + tokenize(input@.skip(pos + width)) =~= before
                    + tokenize(rest));
            }
            pos = pos + width;
        } else {
            full = true;
        }
    }
    proof {
        let kept = format_tokens(tokens);
        let rest = input@.skip(pos as int);
        if full {
            assert(tokenize(rest).len() >= 1);
            assert((kept + tokenize(rest)).take(MAX_TOKENS as int) =~= kept);
        } else {
            assert(rest.len() == 0);
            assert(kept + tokenize(rest) =~= kept);
        }
    }
    tokens
}

} // verus!
