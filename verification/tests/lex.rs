use microcad_lang::lex::{
    from_logos, map_normal_token, map_token, LexerError, LogosToken, NormalToken, QuoteVariant,
    StringFormatToken, StringToken,
};
use microcad_lang::span::{Span, Spanned};
use microcad_lang::token::{SpannedToken, Token};

fn sp(start: usize, end: usize) -> Span {
    Span { start, end }
}

fn tok(start: usize, end: usize, value: Token) -> SpannedToken {
    Spanned { span: sp(start, end), value }
}

#[test]
fn from_logos_splits_ranges_and_places_errors() {
    let raw = vec![
        (Ok(NormalToken::Identifier("x".into())), sp(0, 1)),
        (Ok(NormalToken::LiteralIntWithRange("12..".into())), sp(2, 6)),
        (Err(LexerError::NoValidToken), sp(6, 7)),
        (Err(LexerError::UnclosedString(sp(7, 10))), sp(8, 9)),
    ];
    let out = from_logos(&raw);
    assert_eq!(
        out,
        vec![
            tok(0, 1, Token::Identifier("x".into())),
            tok(2, 4, Token::LiteralInt("12".into())),
            tok(4, 6, Token::SigilDoubleDot),
            tok(6, 7, Token::Error(LexerError::NoValidToken)),
            // an error with a span of its own is placed there
            tok(7, 10, Token::Error(LexerError::UnclosedString(sp(7, 10)))),
        ]
    );
}

#[test]
fn plain_string_becomes_one_literal() {
    let token = Spanned {
        span: sp(0, 7),
        value: NormalToken::Quote(QuoteVariant::String {
            span: sp(0, 7),
            contents: vec![
                Spanned { span: sp(1, 3), value: StringToken::Content("ab".into()) },
                Spanned { span: sp(3, 6), value: StringToken::Content("cde".into()) },
            ],
        }),
    };
    let mut out = Vec::new();
    map_normal_token(&token, &mut out);
    assert_eq!(out, vec![tok(0, 7, Token::LiteralString("abcde".into()))]);
}

#[test]
fn format_string_is_opened_mapped_and_closed() {
    // "a{x:02}"
    let token = Spanned {
        span: sp(0, 9),
        value: NormalToken::Quote(QuoteVariant::String {
            span: sp(0, 9),
            contents: vec![
                Spanned { span: sp(1, 2), value: StringToken::Content("a".into()) },
                Spanned {
                    span: sp(2, 8),
                    value: StringToken::FormatStart((
                        vec![Spanned { span: sp(3, 4), value: NormalToken::Identifier("x".into()) }],
                        vec![
                            Spanned { span: sp(5, 7), value: StringFormatToken::FormatWidth("02".into()) },
                            Spanned { span: sp(7, 8), value: StringFormatToken::FormatEnd },
                        ],
                    )),
                },
            ],
        }),
    };
    let mut out = vec![tok(0, 0, Token::Whitespace(String::new()))];
    map_normal_token(&token, &mut out);
    assert_eq!(
        out,
        vec![
            tok(0, 0, Token::Whitespace(String::new())),
            tok(0, 1, Token::FormatStringStart),
            tok(1, 2, Token::StringContent("a".into())),
            tok(2, 3, Token::StringFormatOpen),
            tok(3, 4, Token::Identifier("x".into())),
            tok(5, 7, Token::StringFormatWidth("02".into())),
            tok(7, 8, Token::StringFormatClose),
            tok(7, 8, Token::StringFormatClose),
            tok(8, 9, Token::FormatStringEnd),
        ]
    );
}

#[test]
fn escapes_and_errors_map_to_their_tokens() {
    let token = Spanned {
        span: sp(0, 6),
        value: NormalToken::Quote(QuoteVariant::String {
            span: sp(0, 6),
            contents: vec![
                Spanned { span: sp(1, 3), value: StringToken::Escaped('n') },
                Spanned { span: sp(3, 5), value: StringToken::BackSlash },
            ],
        }),
    };
    let mut out = Vec::new();
    map_normal_token(&token, &mut out);
    assert_eq!(
        out,
        vec![
            tok(0, 1, Token::FormatStringStart),
            tok(1, 3, Token::Character('n')),
            tok(3, 5, Token::Character('\\')),
            tok(5, 6, Token::FormatStringEnd),
        ]
    );
    let mut out = Vec::new();
    map_token(&Spanned { span: sp(4, 5), value: LogosToken::Error(LexerError::NoValidToken) }, &mut out);
    assert_eq!(out, vec![tok(4, 5, Token::Error(LexerError::NoValidToken))]);
    assert_eq!(LexerError::UnclosedStringFormat(sp(1, 2)).kind(), "unclosed format string");
    assert_eq!(LexerError::NoValidToken.span(), None);
}
