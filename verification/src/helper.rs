//! The helper calls that the hot-loaded XDP program makes: the dispatcher
//! picks the helper by its index, and the `bpf_printk` helper formats a
//! message from a format string and its arguments.
use vstd::prelude::*;

use vstd::utf8::valid_utf8;

use crate::bounded::{format_tokens, message_bytes, token_list_as_slice};
use crate::message::{
    decimal, expand, lemma_message_complete_when_it_fits, render, renderable, text_piece,
    zip_format,
};
use crate::printk::{
    first_token, kept_tokens, lemma_percent_then_letter, lemma_text_run_bound,
    lemma_text_run_has_no_percent, lemma_text_run_stops_at_percent, lemma_text_token_is_maximal, parse_bpf_format, starts_with_directive,
    token_width, tokenize, SpecType, Token, TokenView, PERCENT,
};

verus! {

/// What the dispatcher answers to an index that names no helper.
pub const UNKNOWN_HELPER: usize = usize::MAX;

/// The number of arguments that the `bpf_printk` helper of index `idx` passes,
/// or `None` where `idx` names no helper.
pub open spec fn spec_helper_arg_count(idx: usize) -> Option<usize> {
    if idx == 1 {
        Some(1)
    } else if idx == 2 {
        Some(2)
    } else {
        None
    }
}

/// The number of arguments that the helper of index `idx` formats, or `None`
/// where `idx` names no helper.
pub fn helper_arg_count(idx: usize) -> (count: Option<usize>)
    ensures
        count == spec_helper_arg_count(idx),
{
    if idx == 1 {
        Some(1)
    } else if idx == 2 {
        Some(2)
    } else {
        None
    }
}

/// Whether the format string `fmt` can be formatted with `nargs` arguments.
pub fn bpf_format_supported(fmt: &[u8], nargs: usize) -> (ok: bool)
    ensures
        ok == renderable(kept_tokens(fmt@), nargs as int),
{
    let tokens = parse_bpf_format(fmt);
    let items = token_list_as_slice(&tokens);
    let ghost toks = format_tokens(tokens);
    let mut remaining: usize = nargs;
    let mut i: usize = 0;
    assert(toks.skip(0) =~= toks);
    while i < items.len()
        invariant
            items@.len() == toks.len(),
            forall|j: int| 0 <= j < items@.len() ==> #[trigger] items@[j]@ == toks[j],
            i <= items@.len(),
            remaining <= nargs,
            toks == kept_tokens(fmt@),
            renderable(toks, nargs as int) == renderable(toks.skip(i as int), remaining as int),
        decreases items@.len() - i,
    {
        let ghost rest = toks.skip(i as int);
        assert(rest.drop_first() =~= toks.skip(i + 1));
        assert(rest[0] == toks[i as int]);
        assert(items@[i as int]@ == toks[i as int]);
        match items[i] {
            Token::Text(_) => {},
            Token::Spec(kind) => {
                match kind {
                    SpecType::Signed => {},
                    _ => {
                        assert(!renderable(rest, remaining as int));
                        return false;
                    },
                }
                if remaining == 0 {
                    assert(!renderable(rest, remaining as int));
                    return false;
                }
                remaining = remaining - 1;
            },
        }
        i = i + 1;
    }
    assert(toks.skip(i as int).len() == 0);
    true
}

/// The format string `s` with each directive replaced by the decimal digits
/// of the next of `args`, and every other byte kept.
pub open spec fn substitute(s: Seq<u8>, args: Seq<usize>) -> Seq<u8>
    decreases s.len(),
{
    if s.len() == 0 {
        Seq::empty()
    } else if starts_with_directive(s) {
        decimal(args[0] as nat) + substitute(s.skip(2), args.drop_first())
    } else {
        seq![s[0]] + substitute(s.drop_first(), args)
    }
}

/// Whether every byte of `s` is ASCII.
pub open spec fn is_ascii_bytes(s: Seq<u8>) -> bool {
    forall|i: int| 0 <= i < s.len() ==> s[i] < 0x80
}

proof fn lemma_ascii_is_utf8(s: Seq<u8>)
    requires
        is_ascii_bytes(s),
    ensures
        valid_utf8(s),
{
    assert(s.subrange(0, 0) =~= Seq::<u8>::empty());
    vstd::utf8::partial_valid_utf8_extend_ascii_block(s, 0, s.len() as int);
    assert(s.subrange(0, s.len() as int) =~= s);
}

proof fn lemma_substitute_plain_prefix(s: Seq<u8>, args: Seq<usize>, w: int)
    requires
        0 <= w <= s.len(),
        forall|i: int| 0 <= i < w ==> s[i] != PERCENT,
    ensures
        substitute(s, args) == s.take(w) + substitute(s.skip(w), args),
    decreases w,
{
    if w == 0 {
        assert(s.skip(0) =~= s);
        assert(s.take(0) + substitute(s, args) =~= substitute(s, args));
    } else {
        let t = s.drop_first();
        lemma_substitute_plain_prefix(t, args, w - 1);
        assert(t.skip(w - 1) =~= s.skip(w));
        assert(seq![s[0]] + t.take(w - 1) =~= s.take(w));
        assert(seq![s[0]] + (t.take(w - 1) + substitute(s.skip(w), args)) =~= s.take(w)
            + substitute(s.skip(w), args));
    }
}

proof fn lemma_utf8_drop_ascii(s: Seq<u8>)
    requires
        valid_utf8(s),
        s.len() > 0,
        s[0] < 0x80,
    ensures
        valid_utf8(s.drop_first()),
{
    assert(vstd::utf8::pop_first_scalar(s) =~= s.drop_first());
}

proof fn lemma_utf8_split_before_ascii(s: Seq<u8>, i: int)
    requires
        valid_utf8(s),
        0 <= i <= s.len(),
        i < s.len() ==> s[i] < 0x80,
    ensures
        valid_utf8(s.take(i)),
        valid_utf8(s.skip(i)),
{
    if i == s.len() {
        vstd::utf8::is_char_boundary_start_end_of_seq(s);
    } else {
        vstd::utf8::is_char_boundary_iff_not_is_continuation_byte(s, i);
    }
    vstd::utf8::valid_utf8_split(s, i);
    assert(s.take(i) =~= s.subrange(0, i));
    assert(s.skip(i) =~= s.subrange(i, s.len() as int));
}

proof fn lemma_expand_substitutes(s: Seq<u8>, args: Seq<usize>)
    requires
        valid_utf8(s),
    ensures
        expand(tokenize(s), args) == substitute(s, args),
    decreases s.len(),
{
    if s.len() > 0 {
        lemma_text_run_bound(s);
        let w = token_width(s) as int;
        let rest = s.skip(w);
        let toks = tokenize(s);
        assert(toks[0] == first_token(s));
        assert(toks.drop_first() =~= tokenize(rest));
        if starts_with_directive(s) {
            lemma_utf8_drop_ascii(s);
            let t = s.drop_first();
            assert(t[0] == s[1]);
            lemma_utf8_drop_ascii(t);
            assert(t.drop_first() =~= rest);
            lemma_expand_substitutes(rest, args.drop_first());
        } else {
            let text = s.take(w);
            if s[0] == PERCENT {
                lemma_utf8_drop_ascii(s);
                assert(s.drop_first() =~= rest);
                assert(text =~= seq![s[0]]);
                lemma_ascii_is_utf8(text);
            } else {
                lemma_text_run_has_no_percent(s);
                lemma_text_run_stops_at_percent(s);
                lemma_utf8_split_before_ascii(s, w);
                lemma_substitute_plain_prefix(s, args, w);
            }
            lemma_expand_substitutes(rest, args);
            assert(text_piece(text) == text);
        }
    }
}

/// What `bpf_printk` prints for a UTF-8 format string of at most 16 tokens,
/// when the result fits in 256 bytes: the format string with each directive
/// replaced by the decimal digits of the next argument, and nothing else changed.
pub proof fn lemma_printk_substitutes_arguments(fmt: Seq<u8>, args: Seq<usize>)
    requires
        valid_utf8(fmt),
        tokenize(fmt).len() <= 16,
        substitute(fmt, args).len() <= 256,
    ensures
        render(kept_tokens(fmt), args) == substitute(fmt, args),
{
    lemma_expand_substitutes(fmt, args);
    lemma_message_complete_when_it_fits(tokenize(fmt), args);
}

proof fn lemma_substitute_without_directives(s: Seq<u8>, args: Seq<usize>)
    requires
        forall|i: int|
            0 <= i < s.len() - 1 && #[trigger] s[i] == PERCENT ==> !(s[i + 1] == 0x64 || s[i + 1] == 0x69
                || s[i + 1] == 0x75 || s[i + 1] == 0x73 || s[i + 1] == 0x78 || s[i + 1] == 0x58
                || s[i + 1] == 0x6f || s[i + 1] == 0x2e),
    ensures
        substitute(s, args) == s,
    decreases s.len(),
{
    if s.len() > 0 {
        let t = s.drop_first();
        assert forall|i: int|
            0 <= i < t.len() - 1 && #[trigger] t[i] == PERCENT implies !(t[i + 1] == 0x64 || t[i + 1] == 0x69
            || t[i + 1] == 0x75 || t[i + 1] == 0x73 || t[i + 1] == 0x78 || t[i + 1] == 0x58
            || t[i + 1] == 0x6f || t[i + 1] == 0x2e) by {
            assert(t[i] == s[i + 1]);
            assert(t[i + 1] == s[i + 2]);
        }
        lemma_substitute_without_directives(t, args);
        assert(!starts_with_directive(s));
        assert(seq![s[0]] + t =~= s);
    }
}

/// A UTF-8 format string of at most 16 tokens and 256 bytes in which `%` is
/// never followed by `d`, `i`, `u`, `s`, `x`, `X`, `o` or `.` is printed as it
/// is, byte for byte, whatever the arguments: any other `%` is plain text.
pub proof fn lemma_printk_without_directives_prints_format(fmt: Seq<u8>, args: Seq<usize>)
    requires
        valid_utf8(fmt),
        tokenize(fmt).len() <= 16,
        fmt.len() <= 256,
        forall|i: int|
            0 <= i < fmt.len() - 1 && #[trigger] fmt[i] == PERCENT ==> !(fmt[i + 1] == 0x64 || fmt[i + 1]
                == 0x69 || fmt[i + 1] == 0x75 || fmt[i + 1] == 0x73 || fmt[i + 1] == 0x78 || fmt[i
                + 1] == 0x58 || fmt[i + 1] == 0x6f || fmt[i + 1] == 0x2e),
    ensures
        render(kept_tokens(fmt), args) == fmt,
{
    lemma_substitute_without_directives(fmt, args);
    lemma_printk_substitutes_arguments(fmt, args);
}

proof fn lemma_text_then_d(t: Seq<u8>, r: Seq<u8>, args: Seq<usize>)
    requires
        forall|i: int| 0 <= i < t.len() ==> t[i] != PERCENT,
    ensures
        substitute(t + seq![PERCENT, 0x64u8] + r, args) == t + decimal(args[0] as nat)
            + substitute(r, args.drop_first()),
        tokenize(t + seq![PERCENT, 0x64u8] + r) == (if t.len() > 0 {
            seq![TokenView::Text(t)]
        } else {
            Seq::empty()
        }) + seq![TokenView::Spec(SpecType::Signed)] + tokenize(r),
{
    let d = seq![PERCENT, 0x64u8];
    let fmt = t + d + r;
    let dr = d + r;
    assert(fmt =~= t + dr);
    lemma_substitute_plain_prefix(fmt, args, t.len() as int);
    assert(fmt.take(t.len() as int) =~= t);
    assert(fmt.skip(t.len() as int) =~= dr);
    assert(starts_with_directive(dr));
    assert(dr.skip(2) =~= r);
    lemma_percent_then_letter(0x64, r);
    if t.len() > 0 {
        lemma_text_token_is_maximal(t, dr);
    } else {
        assert(fmt =~= dr);
        assert(Seq::<TokenView>::empty() + seq![TokenView::Spec(SpecType::Signed)] =~= seq![
            TokenView::Spec(SpecType::Signed),
        ]);
    }
    assert(t + (decimal(args[0] as nat) + substitute(r, args.drop_first())) =~= t + decimal(
        args[0] as nat,
    ) + substitute(r, args.drop_first()));
}

/// UTF-8 text without `%` followed by `%d` prints as that text followed by the
/// decimal digits of the argument, when both fit in 256 bytes.
pub proof fn lemma_printk_text_then_value(t: Seq<u8>, n: usize)
    requires
        valid_utf8(t),
        forall|i: int| 0 <= i < t.len() ==> t[i] != PERCENT,
        t.len() + decimal(n as nat).len() <= 256,
    ensures
        render(kept_tokens(t + seq![PERCENT, 0x64u8]), seq![n]) == t + decimal(n as nat),
{
    let d = seq![PERCENT, 0x64u8];
    let none = Seq::<u8>::empty();
    let args = seq![n];
    lemma_text_then_d(t, none, args);
    assert(t + d + none =~= t + d);
    assert(tokenize(none) =~= Seq::<TokenView>::empty());
    assert(substitute(none, args.drop_first()) =~= none);
    assert(t + decimal(n as nat) + none =~= t + decimal(n as nat));
    lemma_ascii_is_utf8(d);
    vstd::utf8::valid_utf8_concat(t, d);
    lemma_printk_substitutes_arguments(t + d, args);
}

/// Two directives take the two arguments in order: text, `%d`, text, `%d`
/// prints as the first text, the first argument, the second text and the
/// second argument, when all of it fits in 256 bytes.
pub proof fn lemma_printk_values_in_order(t1: Seq<u8>, t2: Seq<u8>, x: usize, y: usize)
    requires
        valid_utf8(t1),
        valid_utf8(t2),
        forall|i: int| 0 <= i < t1.len() ==> t1[i] != PERCENT,
        forall|i: int| 0 <= i < t2.len() ==> t2[i] != PERCENT,
        t1.len() + decimal(x as nat).len() + t2.len() + decimal(y as nat).len() <= 256,
    ensures
        render(kept_tokens(t1 + seq![PERCENT, 0x64u8] + t2 + seq![PERCENT, 0x64u8]), seq![x, y])
            == t1 + decimal(x as nat) + t2 + decimal(y as nat),
{
    let d = seq![PERCENT, 0x64u8];
    let none = Seq::<u8>::empty();
    let args = seq![x, y];
    let r = t2 + d;
    let fmt = t1 + d + r;
    assert(t1 + d + t2 + d =~= fmt);
    lemma_text_then_d(t1, r, args);
    lemma_text_then_d(t2, none, args.drop_first());
    assert(t2 + d + none =~= r);
    assert(args.drop_first().drop_first() =~= Seq::<usize>::empty());
    assert(substitute(none, args.drop_first().drop_first()) =~= none);
    assert(tokenize(none) =~= Seq::<TokenView>::empty());
    assert(args[0] == x && args.drop_first()[0] == y);
    assert(substitute(fmt, args) =~= t1 + decimal(x as nat) + t2 + decimal(y as nat));
    lemma_ascii_is_utf8(d);
    vstd::utf8::valid_utf8_concat(t2, d);
    vstd::utf8::valid_utf8_concat(t1, d);
    vstd::utf8::valid_utf8_concat(t1 + d, r);
    lemma_printk_substitutes_arguments(fmt, args);
}

/// The `bpf_printk` helper: the message that `fmt` gives with `args`.
pub fn log(fmt: &[u8], args: &[usize]) -> (message: heapless::String<256>)
    requires
        renderable(kept_tokens(fmt@), args@.len() as int),
    ensures
        message_bytes(message) == render(kept_tokens(fmt@), args@),
{
    let tokens = parse_bpf_format(fmt);
    zip_format(tokens, args)
}

/// Runs the helper of index `idx`: index 1 formats `fmt` with `arg1`, index 2
/// with `arg1` and `arg2`; both answer 0 and hand back the message. Any other
/// index answers [`UNKNOWN_HELPER`] and formats nothing.
pub fn helper_dispatcher(idx: usize, fmt: &[u8], arg1: usize, arg2: usize) -> (outcome: (
    usize,
    Option<heapless::String<256>>,
))
    requires
        idx == 1 ==> renderable(kept_tokens(fmt@), 1),
        idx == 2 ==> renderable(kept_tokens(fmt@), 2),
    ensures
        idx == 1 ==> (outcome.0 == 0 && (outcome.1 matches Some(m) && message_bytes(m) == render(
            kept_tokens(fmt@),
            seq![arg1],
        ))),
        idx == 2 ==> (outcome.0 == 0 && (outcome.1 matches Some(m) && message_bytes(m) == render(
            kept_tokens(fmt@),
            seq![arg1, arg2],
        ))),
        idx != 1 && idx != 2 ==> outcome.0 == UNKNOWN_HELPER && outcome.1 is None,
{
    match helper_arg_count(idx) {
        Some(1) => {
            let args = [arg1];
            let message = log(fmt, &args);
            assert(args@ =~= seq![arg1]);
            (0, Some(message))
        },
        Some(_) => {
            let args = [arg1, arg2];
            let message = log(fmt, &args);
            assert(args@ =~= seq![arg1, arg2]);
            (0, Some(message))
        },
        None => (UNKNOWN_HELPER, None),
    }
}

} // verus!
