use nom::branch::alt;
use nom::bytes::complete::{tag, take_until};
use nom::combinator::{rest, value, verify};
use nom::{IResult, Parser};
use xdp_firmware::printk::{parse_bpf_format, SpecType, Token};

fn tokens_of(fmt: &[u8]) -> Vec<Token<'_>> {
    parse_bpf_format(fmt).as_slice().to_vec()
}

// The same grammar written with parser combinators, as a second reading to compare with.
fn combinator_spec(input: &[u8]) -> IResult<&[u8], SpecType> {
    alt((
        value(SpecType::Signed, alt((tag(&b"%d"[..]), tag(&b"%i"[..])))),
        value(SpecType::Unsigned, tag(&b"%u"[..])),
        value(SpecType::String, tag(&b"%s"[..])),
        value(SpecType::Hex, alt((tag(&b"%x"[..]), tag(&b"%X"[..])))),
        value(SpecType::Octal, tag(&b"%o"[..])),
        value(SpecType::Dot, tag(&b"%."[..])),
    ))
    .parse(input)
}

fn combinator_text(input: &[u8]) -> IResult<&[u8], Token<'_>> {
    verify(nom::combinator::map(take_until(&b"%"[..]), Token::Text), |t: &Token| match t {
        Token::Text(s) => !s.is_empty(),
        Token::Spec(_) => false,
    })
    .parse(input)
}

fn combinator_percent(input: &[u8]) -> IResult<&[u8], Token<'_>> {
    nom::combinator::map(tag(&b"%"[..]), |_| Token::Text(&b"%"[..])).parse(input)
}

fn combinator_tokens(input: &[u8]) -> Vec<Token<'_>> {
    let mut out = Vec::new();
    let mut cur = input;
    while !cur.is_empty() {
        let parsed: IResult<&[u8], Token<'_>> = alt((
            nom::combinator::map(combinator_spec, Token::Spec),
            combinator_text,
            combinator_percent,
            nom::combinator::map(verify(rest, |r: &[u8]| !r.is_empty()), Token::Text),
        ))
        .parse(cur);
        let (next, token) = match parsed {
            Ok(a) => a,
            Err(_) => break,
        };
        if out.len() == 16 {
            break;
        }
        out.push(token);
        cur = next;
    }
    out
}

#[test]
fn text_directive_text() {
    assert_eq!(
        tokens_of(b"a%db"),
        vec![Token::Text(b"a"), Token::Spec(SpecType::Signed), Token::Text(b"b")]
    );
}

#[test]
fn every_directive_letter() {
    assert_eq!(
        tokens_of(b"%d%i%u%s%x%X%o%."),
        vec![
            Token::Spec(SpecType::Signed),
            Token::Spec(SpecType::Signed),
            Token::Spec(SpecType::Unsigned),
            Token::Spec(SpecType::String),
            Token::Spec(SpecType::Hex),
            Token::Spec(SpecType::Hex),
            Token::Spec(SpecType::Octal),
            Token::Spec(SpecType::Dot),
        ]
    );
}

#[test]
fn stray_percent_is_text() {
    assert_eq!(tokens_of(b"%%"), vec![Token::Text(b"%"), Token::Text(b"%")]);
    assert_eq!(tokens_of(b"%z"), vec![Token::Text(b"%"), Token::Text(b"z")]);
    assert_eq!(tokens_of(b"100%"), vec![Token::Text(b"100"), Token::Text(b"%")]);
    assert_eq!(tokens_of(b"%"), vec![Token::Text(b"%")]);
}

#[test]
fn plain_text_is_one_token() {
    assert_eq!(tokens_of(b"hello world"), vec![Token::Text(b"hello world")]);
}

#[test]
fn empty_format_has_no_token() {
    assert!(tokens_of(b"").is_empty());
}

#[test]
fn at_most_sixteen_tokens_are_kept() {
    let fmt = b"%d".repeat(20);
    let tokens = tokens_of(&fmt);
    assert_eq!(tokens.len(), 16);
    assert!(tokens.iter().all(|t| *t == Token::Spec(SpecType::Signed)));
    let fmt = b"a%d".repeat(8);
    assert_eq!(tokens_of(&fmt).len(), 16);
    let fmt = b"a%d".repeat(9);
    let tokens = tokens_of(&fmt);
    assert_eq!(tokens.len(), 16);
    assert_eq!(tokens[15], Token::Spec(SpecType::Signed));
}

#[test]
fn tokens_spell_the_input() {
    let fmt: &[u8] = b"x=%d, y=%i%% done%";
    let tokens = tokens_of(fmt);
    let mut offset = 0;
    for token in &tokens {
        match token {
            Token::Text(bytes) => {
                assert!(!bytes.is_empty());
                assert_eq!(*bytes, &fmt[offset..offset + bytes.len()]);
                assert!(*bytes == b"%" || !bytes.contains(&b'%'));
                offset += bytes.len();
            }
            Token::Spec(_) => {
                assert_eq!(fmt[offset], b'%');
                offset += 2;
            }
        }
    }
    assert_eq!(offset, fmt.len());
}

#[test]
fn agrees_with_combinator_reading() {
    let samples: [&[u8]; 12] = [
        b"",
        b"%",
        b"%%d",
        b"a%d%",
        b"%.%o%X%x%s%u%i%d",
        b"rate %d%% of %d",
        b"\xff\xfe%d\x80",
        b"%q%w%e",
        b"plain",
        b"%d%d%d%d%d%d%d%d%d%d%d%d%d%d%d%d%d%d",
        b"a%b%c%d%e%f%g%h%i%j%k%l%m",
        b"%%%%%%%%%%%%%%%%%%%%%%%%",
    ];
    for s in samples {
        assert_eq!(tokens_of(s), combinator_tokens(s), "{:?}", s);
    }
    let alphabet: &[u8] = b"%di.ax";
    let mut state: u32 = 12345;
    for _ in 0..2000 {
        state = state.wrapping_mul(1103515245).wrapping_add(12345);
        let len = (state >> 16) as usize % 24;
        let mut s = Vec::new();
        for _ in 0..len {
            state = state.wrapping_mul(1103515245).wrapping_add(12345);
            s.push(alphabet[(state >> 16) as usize % alphabet.len()]);
        }
        assert_eq!(tokens_of(&s), combinator_tokens(&s), "{:?}", s);
    }
}

#[test]
fn default_directive_is_signed() {
    assert_eq!(SpecType::default(), SpecType::Signed);
}
