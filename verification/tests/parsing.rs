use js_parser::diagnostic::{Diagnostic, Severity};
use js_parser::event::Event;
use js_parser::parser::{expected_token, Parser, ToDiagnostic};
use js_parser::progress::ParserProgress;
use js_parser::state::{ModuleKind, SourceType};
use js_parser::syntax::{JsSyntaxKind, KindDetails, KindInfo, Spelling, TokenSet, TriviaPieceKind};
use js_parser::text::{TextRange, TextSize};
use js_parser::token_source::{
    LexContext, LexedToken, Lexeme, ReLexContext, TokenSource, Trivia,
};

const IDENT: JsSyntaxKind = kind(1, Spelling::Varying);
const LET_KW: JsSyntaxKind = kind(2, Spelling::Keyword("let"));
const EQ: JsSyntaxKind = kind(3, Spelling::Fixed("="));
const SLASH: JsSyntaxKind = kind(4, Spelling::Fixed("/"));
const JS_REGEX_LITERAL: JsSyntaxKind = kind(5, Spelling::Varying);
const JSX_TEXT: JsSyntaxKind = kind(6, Spelling::Varying);
const JS_UNKNOWN_EXPRESSION: JsSyntaxKind = kind(7, Spelling::Varying);
const JS_NAME: JsSyntaxKind = kind(8, Spelling::Varying);

const fn kind(raw: u16, spelling: Spelling) -> JsSyntaxKind {
    JsSyntaxKind::Other(KindInfo {
        raw,
        details: KindDetails {
            spelling,
            unknown: None,
        },
    })
}

fn size(raw: u32) -> TextSize {
    TextSize { raw }
}

fn range(start: u32, end: u32) -> TextRange {
    TextRange {
        start: size(start),
        end: size(end),
    }
}

fn token(kind: JsSyntaxKind, start: u32, end: u32) -> Lexeme {
    Lexeme::Token(LexedToken {
        kind,
        range: range(start, end),
        preceding_line_break: false,
        unicode_escape: false,
    })
}

fn token_after_break(kind: JsSyntaxKind, start: u32, end: u32) -> Lexeme {
    Lexeme::Token(LexedToken {
        kind,
        range: range(start, end),
        preceding_line_break: true,
        unicode_escape: false,
    })
}

fn escaped_token(kind: JsSyntaxKind, start: u32, end: u32) -> Lexeme {
    Lexeme::Token(LexedToken {
        kind,
        range: range(start, end),
        preceding_line_break: false,
        unicode_escape: true,
    })
}

fn trivia(kind: TriviaPieceKind, start: u32, end: u32) -> Trivia {
    Trivia {
        kind,
        range: range(start, end),
    }
}

fn space(start: u32, end: u32) -> Lexeme {
    Lexeme::Trivia(trivia(TriviaPieceKind::Whitespace, start, end))
}

fn newline(start: u32, end: u32) -> Lexeme {
    Lexeme::Trivia(trivia(TriviaPieceKind::Newline, start, end))
}

fn parser<'s>(source: &'s str, lexemes: Vec<Lexeme>) -> Parser<'s> {
    let tokens = TokenSource::from_lexemes(source, lexemes, Vec::new()).unwrap();
    Parser::new(tokens, 4, SourceType::default())
}

/// ` let a\n= b`
fn declaration() -> Parser<'static> {
    parser(
        " let a\n= b",
        vec![
            space(0, 1),
            token(LET_KW, 1, 4),
            space(4, 5),
            token(IDENT, 5, 6),
            newline(6, 7),
            token_after_break(EQ, 7, 8),
            space(8, 9),
            token(IDENT, 9, 10),
            token(JsSyntaxKind::EOF, 10, 10),
        ],
    )
}

fn event(kind: JsSyntaxKind, start: u32, end: u32) -> Event {
    Event::Token {
        kind,
        range: range(start, end),
    }
}

fn messages(diagnostics: &[Diagnostic]) -> Vec<&str> {
    diagnostics.iter().map(|d| d.message.as_str()).collect()
}

#[test]
fn a_new_parser_is_at_the_first_token() {
    let p = declaration();
    assert_eq!(p.cur(), LET_KW);
    assert_eq!(p.cur_range(), range(1, 4));
    assert_eq!(p.cur_src(), "let");
    assert_eq!(p.position(), size(1));
    assert!(p.at(LET_KW));
    assert!(!p.at(IDENT));
    assert_eq!(p.last(), None);
    assert_eq!(p.last_range(), None);
    assert!(p.is_module());
    assert!(p.state.strict);
    assert!(p.diagnostics.is_empty());
    let (events, trivia_list, diagnostics) = p.finish();
    assert!(events.is_empty());
    assert_eq!(trivia_list, vec![trivia(TriviaPieceKind::Whitespace, 0, 1)]);
    assert!(diagnostics.is_empty());
}

#[test]
fn a_script_is_no_module() {
    let tokens =
        TokenSource::from_lexemes("", vec![token(JsSyntaxKind::EOF, 0, 0)], Vec::new()).unwrap();
    let source_type = SourceType {
        module_kind: ModuleKind::Script,
    };
    let p = Parser::new(tokens, 0, source_type);
    assert!(!p.is_module());
    assert!(!p.state.strict);
    assert_eq!(p.source_type, source_type);
}

#[test]
fn a_reading_must_fill_the_source() {
    let eof = JsSyntaxKind::EOF;
    let readings: Vec<(&str, Vec<Lexeme>)> = vec![
        ("", vec![]),
        ("a", vec![token(IDENT, 0, 1)]),
        ("a", vec![token(eof, 1, 1)]),
        ("ab", vec![token(IDENT, 0, 1), token(eof, 1, 1)]),
        ("ab", vec![token(IDENT, 0, 1), token(eof, 2, 2)]),
        ("ab", vec![token(IDENT, 0, 2), token(IDENT, 1, 2), token(eof, 2, 2)]),
        ("ab", vec![token(eof, 0, 0), token(IDENT, 0, 2), token(eof, 2, 2)]),
        ("é", vec![token(IDENT, 0, 1), token(IDENT, 1, 2), token(eof, 2, 2)]),
        ("a", vec![token(IDENT, 0, 2), token(eof, 2, 2)]),
        ("a", vec![token(IDENT, 0, 0), token(IDENT, 0, 1), token(eof, 1, 1)]),
        ("a", vec![token(IDENT, 0, 1), space(1, 1), token(eof, 1, 1)]),
        (" ", vec![newline(0, 1), token(eof, 1, 1)]),
    ];
    for (source, reading) in readings {
        assert!(TokenSource::from_lexemes(source, reading, Vec::new()).is_none());
    }
    let reading = vec![token(IDENT, 0, 2), space(2, 3), token(eof, 3, 3)];
    assert!(TokenSource::from_lexemes("é ", reading, Vec::new()).is_some());
}

#[test]
fn a_reading_must_tell_line_breaks() {
    let eof = JsSyntaxKind::EOF;
    let comment = |start, end| {
        Lexeme::Trivia(trivia(TriviaPieceKind::MultiLineComment, start, end))
    };
    let reading = |source: &str, first: Lexeme, gap: Lexeme, second: Lexeme, end: u32| {
        let lexemes = vec![first, gap, second, token(eof, end, end)];
        TokenSource::from_lexemes(source, lexemes, Vec::new()).is_some()
    };
    let a = token(IDENT, 0, 1);
    assert!(reading("a\nb", a, newline(1, 2), token_after_break(IDENT, 2, 3), 3));
    assert!(!reading("a\nb", a, newline(1, 2), token(IDENT, 2, 3), 3));
    assert!(reading("a\rb", a, newline(1, 2), token_after_break(IDENT, 2, 3), 3));
    assert!(reading("a b", a, space(1, 2), token(IDENT, 2, 3), 3));
    assert!(!reading("a b", a, space(1, 2), token_after_break(IDENT, 2, 3), 3));
    assert!(reading("a/**/b", a, comment(1, 5), token(IDENT, 5, 6), 6));
    assert!(reading("a/*\n*/b", a, comment(1, 6), token_after_break(IDENT, 6, 7), 7));
    assert!(!reading("a/*\n*/b", a, comment(1, 6), token(IDENT, 6, 7), 7));
    for separator in ["\u{2028}", "\u{2029}"] {
        let source = format!("a{}b", separator);
        assert!(reading(&source, a, newline(1, 4), token_after_break(IDENT, 4, 5), 5));
        assert!(!reading(&source, a, newline(1, 4), token(IDENT, 4, 5), 5));
    }
    let before_first = vec![newline(0, 1), token_after_break(eof, 1, 1)];
    assert!(TokenSource::from_lexemes("\n", before_first, Vec::new()).is_some());
    let before_first = vec![newline(0, 1), token(eof, 1, 1)];
    assert!(TokenSource::from_lexemes("\n", before_first, Vec::new()).is_none());
}

#[test]
fn a_line_break_before_a_token_is_in_the_text_before_it() {
    let mut p = declaration();
    while !p.at(JsSyntaxKind::EOF) {
        let end = p.cur_range().end;
        let ahead = p.has_nth_preceding_line_break(1);
        p.bump_any();
        let between = p.source(TextRange {
            start: end,
            end: p.cur_range().start,
        });
        assert_eq!(p.has_preceding_line_break(), between.contains('\n'));
        assert_eq!(p.has_nth_preceding_line_break(0), between.contains('\n'));
        assert_eq!(ahead, between.contains('\n'));
    }
}

#[test]
fn every_byte_is_kept_once_and_tokens_are_in_order() {
    for skips in 0..16 {
        let mut p = declaration();
        for step in 0..4 {
            if skips & (1 << step) == 0 {
                let bumped = p.cur_range();
                p.bump_any();
                assert_eq!(p.last_range(), Some(bumped));
            } else {
                p.parse_as_skipped_trivia_tokens(|p| p.bump_any());
            }
        }
        assert!(p.at(JsSyntaxKind::EOF));
        let (events, trivia_list, _) = p.finish();
        let mut kept: Vec<usize> = vec![0; 10];
        let mut last_start: Option<u32> = None;
        for event in events {
            if let Event::Token { range, .. } = event {
                assert!(last_start < Some(range.start.raw));
                last_start = Some(range.start.raw);
                for byte in range.start.raw..range.end.raw {
                    kept[byte as usize] += 1;
                }
            }
        }
        for piece in trivia_list {
            for byte in piece.range.start.raw..piece.range.end.raw {
                kept[byte as usize] += 1;
            }
        }
        assert_eq!(kept, vec![1; 10]);
    }
}

#[test]
fn bumping_yields_tokens_and_sets_trivia_aside() {
    let mut p = declaration();
    p.bump(LET_KW);
    assert_eq!(p.last(), Some(LET_KW));
    assert_eq!(p.last_range(), Some(range(1, 4)));
    p.bump_any();
    p.bump_remap(JS_NAME);
    assert!(p.eat(IDENT));
    assert!(!p.eat(IDENT));
    assert!(p.at(JsSyntaxKind::EOF));
    assert_eq!(p.position(), size(10));
    let (events, trivia_list, diagnostics) = p.finish();
    assert_eq!(
        events,
        vec![
            event(LET_KW, 1, 4),
            event(IDENT, 5, 6),
            event(JS_NAME, 7, 8),
            event(IDENT, 9, 10),
        ]
    );
    assert_eq!(
        trivia_list,
        vec![
            trivia(TriviaPieceKind::Whitespace, 0, 1),
            trivia(TriviaPieceKind::Whitespace, 4, 5),
            trivia(TriviaPieceKind::Newline, 6, 7),
            trivia(TriviaPieceKind::Whitespace, 8, 9),
        ]
    );
    assert!(diagnostics.is_empty());
    let mut covered: Vec<bool> = vec![false; 10];
    for event in events {
        if let Event::Token { range, .. } = event {
            for byte in range.start.raw..range.end.raw {
                covered[byte as usize] = true;
            }
        }
    }
    for piece in trivia_list {
        for byte in piece.range.start.raw..piece.range.end.raw {
            covered[byte as usize] = true;
        }
    }
    assert!(covered.iter().all(|byte| *byte));
}

#[test]
fn bumping_the_end_of_the_file_stays_there() {
    let mut p = parser("", vec![token(JsSyntaxKind::EOF, 0, 0)]);
    p.bump(JsSyntaxKind::EOF);
    assert!(p.at(JsSyntaxKind::EOF));
    assert!(!p.can_err_and_bump());
    assert_eq!(p.finish().0, vec![event(JsSyntaxKind::EOF, 0, 0)]);
}

#[test]
fn looking_ahead_skips_trivia() {
    let mut p = declaration();
    assert_eq!(p.nth(0), LET_KW);
    assert_eq!(p.nth(1), IDENT);
    assert_eq!(p.nth(2), EQ);
    assert_eq!(p.nth(3), IDENT);
    assert_eq!(p.nth(4), JsSyntaxKind::EOF);
    assert_eq!(p.nth(5), JsSyntaxKind::EOF);
    assert!(p.nth_at(2, EQ));
    assert!(!p.nth_at(2, IDENT));
    assert!(p.has_nth_preceding_line_break(2));
    assert!(!p.has_nth_preceding_line_break(1));
    assert!(!p.has_nth_preceding_line_break(0));
    assert!(!p.has_nth_preceding_line_break(9));
    assert!(!p.has_preceding_line_break());
    p.bump(LET_KW);
    assert_eq!(p.nth(1), EQ);
    p.bump(IDENT);
    assert!(p.has_preceding_line_break());
}

#[test]
fn token_sets_hold_kinds() {
    let p = declaration();
    assert!(p.at_ts(TokenSet::new(vec![EQ, LET_KW])));
    assert!(!p.at_ts(TokenSet::new(vec![EQ, IDENT])));
    assert!(!p.at_ts(TokenSet::new(Vec::new())));
}

#[test]
fn the_source_can_be_sliced() {
    let p = parser(
        "é = x",
        vec![
            token(IDENT, 0, 2),
            space(2, 3),
            token(EQ, 3, 4),
            space(4, 5),
            token(IDENT, 5, 6),
            token(JsSyntaxKind::EOF, 6, 6),
        ],
    );
    assert_eq!(p.cur_src(), "é");
    assert_eq!(p.source(range(0, 6)), "é = x");
    assert_eq!(p.source(range(2, 4)), " =");
    assert_eq!(p.source(range(6, 6)), "");
    assert!(p.has_source(range(2, 4)));
    assert!(!p.has_source(range(1, 4)));
    assert!(!p.has_source(range(4, 2)));
    assert!(!p.has_source(range(4, 7)));
}

#[test]
fn expecting_a_token_that_is_there_bumps_it() {
    let mut p = declaration();
    assert!(p.expect(LET_KW));
    assert_eq!(p.cur(), IDENT);
    let (events, _, diagnostics) = p.finish();
    assert_eq!(events, vec![event(LET_KW, 1, 4)]);
    assert!(diagnostics.is_empty());
}

#[test]
fn expecting_a_token_that_is_not_there_is_reported() {
    let mut p = declaration();
    assert!(!p.expect(EQ));
    p.bump(LET_KW);
    assert!(!p.expect(LET_KW));
    p.bump(IDENT);
    assert!(!p.expect(IDENT));
    p.bump(EQ);
    p.bump(IDENT);
    assert!(!p.expect(EQ));
    let (_, _, diagnostics) = p.finish();
    assert_eq!(
        messages(&diagnostics),
        vec![
            "expected `=` but instead found `let`",
            "expected `let` but instead found `a`",
            "expected another token but instead found `=`",
            "expected `=` but instead the file ends",
        ]
    );
    let first = diagnostics[0].primary.as_ref().unwrap();
    assert_eq!(first.msg, "unexpected");
    assert_eq!(first.span.range, range(1, 4));
    assert_eq!(first.span.file, 4);
    assert_eq!(diagnostics[0].severity, Severity::Error);
    assert_eq!(diagnostics[0].code, Some(String::from("SyntaxError")));
    let last = diagnostics[3].primary.as_ref().unwrap();
    assert_eq!(last.msg, "the file ends here");
    assert_eq!(last.span.range, range(10, 10));
}

#[test]
fn reports_have_a_severity() {
    let p = declaration();
    let error = p.err_builder("bad");
    assert_eq!(error.severity, Severity::Error);
    assert_eq!(error.message, "bad");
    assert_eq!(error.file_id, 4);
    assert_eq!(error.code, Some(String::from("SyntaxError")));
    assert!(error.primary.is_none());
    let warning = p.warning_builder("odd").primary(range(1, 2), "here");
    assert_eq!(warning.severity, Severity::Warning);
    assert_eq!(warning.message, "odd");
    assert_eq!(warning.code, Some(String::from("SyntaxError")));
    assert_eq!(warning.primary.unwrap().msg, "here");
    assert_eq!(expected_token(EQ).to_diagnostic(&p).file_id, 4);
}

#[test]
fn an_error_at_the_position_of_the_last_one_is_not_reported() {
    let mut p = declaration();
    let at = |p: &Parser, message: &str, start: u32, end: u32| {
        p.err_builder(message).primary(range(start, end), "")
    };
    let errors = vec![
        at(&p, "first", 1, 4),
        at(&p, "same start", 1, 9),
        at(&p, "other start", 2, 4),
        at(&p, "first again", 1, 4),
        p.err_builder("without a label"),
        p.err_builder("without a label"),
        at(&p, "labelled", 1, 4),
        Diagnostic::error(5, "SyntaxError", "other file").primary(range(1, 4), ""),
        Diagnostic::error(5, "Lint", "other code").primary(range(1, 4), ""),
        Diagnostic::error(5, "Lint", "other code").primary(range(1, 4), ""),
    ];
    for error in errors {
        p.error(error);
    }
    let (_, _, diagnostics) = p.finish();
    assert_eq!(
        messages(&diagnostics),
        vec![
            "first",
            "other start",
            "first again",
            "without a label",
            "without a label",
            "labelled",
            "other file",
            "other code",
            "other code",
        ]
    );
}

#[test]
fn the_reports_of_the_lexer_come_last() {
    let lexed = vec![Diagnostic::warning(1, "Lexer", "from the lexer")];
    let tokens =
        TokenSource::from_lexemes("", vec![token(JsSyntaxKind::EOF, 0, 0)], lexed).unwrap();
    let mut p = Parser::new(tokens, 1, SourceType::default());
    let error = p.err_builder("from the parser");
    p.error(error);
    let (_, _, diagnostics) = p.finish();
    assert_eq!(
        messages(&diagnostics),
        vec!["from the parser", "from the lexer"]
    );
}

#[test]
fn an_escaped_keyword_becomes_an_error_token() {
    let mut p = parser(
        "l\\u0065t l\\u0065t",
        vec![
            escaped_token(LET_KW, 0, 8),
            space(8, 9),
            escaped_token(LET_KW, 9, 17),
            token(JsSyntaxKind::EOF, 17, 17),
        ],
    );
    p.bump(LET_KW);
    p.bump_remap(IDENT);
    let (events, _, diagnostics) = p.finish();
    assert_eq!(
        events,
        vec![
            event(JsSyntaxKind::ERROR_TOKEN, 0, 8),
            event(IDENT, 9, 17)
        ]
    );
    assert_eq!(
        messages(&diagnostics),
        vec!["'let' keyword cannot contain escape character."]
    );
    assert_eq!(diagnostics[0].primary.as_ref().unwrap().span.range, range(0, 8));
    assert_eq!(diagnostics[0].primary.as_ref().unwrap().msg, "");
}

#[test]
fn an_unexpected_token_can_be_wrapped() {
    let mut p = declaration();
    assert!(p.can_err_and_bump());
    let error = p.err_builder("not here").primary(range(1, 4), "");
    p.err_and_bump(error, JS_UNKNOWN_EXPRESSION);
    assert_eq!(p.cur(), IDENT);
    let (events, _, diagnostics) = p.finish();
    assert_eq!(
        events,
        vec![
            Event::Start {
                kind: JS_UNKNOWN_EXPRESSION,
                start: size(1),
                forward_parent: None
            },
            event(LET_KW, 1, 4),
            Event::Finish { end: size(4) },
        ]
    );
    assert_eq!(messages(&diagnostics), vec!["not here"]);
}

#[test]
fn an_error_is_composed_after_the_token_was_wrapped() {
    let mut p = declaration();
    p.err_and_bump(expected_token(EQ), JS_UNKNOWN_EXPRESSION);
    let (_, _, diagnostics) = p.finish();
    assert_eq!(
        messages(&diagnostics),
        vec!["expected `=` but instead found `a`"]
    );
}

#[test]
fn tokens_can_be_skipped_as_trivia() {
    let mut p = declaration();
    p.bump(LET_KW);
    p.parse_as_skipped_trivia_tokens(|p| {
        let m = p.start();
        p.bump(IDENT);
        p.bump(EQ);
        m.complete(p, JS_NAME);
    });
    assert_eq!(p.last(), Some(LET_KW));
    p.bump(IDENT);
    let (events, trivia_list, _) = p.finish();
    assert_eq!(events, vec![event(LET_KW, 1, 4), event(IDENT, 9, 10)]);
    assert_eq!(
        trivia_list,
        vec![
            trivia(TriviaPieceKind::Whitespace, 0, 1),
            trivia(TriviaPieceKind::Whitespace, 4, 5),
            trivia(TriviaPieceKind::Skipped, 5, 6),
            trivia(TriviaPieceKind::Newline, 6, 7),
            trivia(TriviaPieceKind::Skipped, 7, 8),
            trivia(TriviaPieceKind::Whitespace, 8, 9),
        ]
    );
}

#[test]
fn rewinding_restores_the_checkpoint() {
    let mut p = declaration();
    p.bump(LET_KW);
    let error = p.err_builder("kept");
    p.error(error);
    let checkpoint = p.checkpoint();
    p.state.strict = false;
    let m = p.start();
    p.bump(IDENT);
    let error = p.err_builder("forgotten");
    p.error(error);
    m.complete(&mut p, JS_NAME);
    p.rewind(checkpoint);
    assert!(p.state.strict);
    assert_eq!(p.cur(), IDENT);
    assert_eq!(p.position(), size(5));
    assert_eq!(p.last(), Some(LET_KW));
    assert_eq!(p.nth(1), EQ);
    let (events, trivia_list, diagnostics) = p.finish();
    assert_eq!(events, vec![event(LET_KW, 1, 4)]);
    assert_eq!(
        trivia_list,
        vec![
            trivia(TriviaPieceKind::Whitespace, 0, 1),
            trivia(TriviaPieceKind::Whitespace, 4, 5),
        ]
    );
    assert_eq!(messages(&diagnostics), vec!["kept"]);
}

#[test]
fn rewinding_to_no_events_leaves_no_events() {
    let mut p = declaration();
    let checkpoint = p.checkpoint();
    p.bump(LET_KW);
    p.bump(IDENT);
    p.rewind(checkpoint);
    assert_eq!(p.cur(), LET_KW);
    assert_eq!(p.cur_range(), range(1, 4));
    assert_eq!(p.last(), None);
    p.bump(LET_KW);
    assert_eq!(p.finish().0, vec![event(LET_KW, 1, 4)]);

    let mut p = declaration();
    let checkpoint = p.checkpoint();
    p.bump_any();
    p.rewind(checkpoint);
    assert!(p.finish().0.is_empty());
}

#[test]
fn looking_ahead_from_no_events_leaves_no_events() {
    let mut p = declaration();
    let seen = p.lookahead(|p| {
        p.bump(LET_KW);
        p.cur()
    });
    assert_eq!(seen, IDENT);
    assert_eq!(p.cur(), LET_KW);
    assert_eq!(p.last(), None);
    assert!(p.finish().0.is_empty());
}

#[test]
fn nodes_of_a_lookahead_are_forgotten() {
    let mut p = declaration();
    let outer = p.start();
    p.bump(LET_KW);
    let text = p.lookahead(|p| {
        let m = p.start();
        p.bump(IDENT);
        let node = m.complete(p, JS_NAME);
        let given_up = node.clone().precede(p);
        given_up.abandon(p);
        let again = node.undo_completion(p);
        p.bump(EQ);
        let mut node = again.complete(p, JS_NAME);
        node.change_kind(p, JS_UNKNOWN_EXPRESSION);
        node.text(p).len()
    });
    assert_eq!(text, 3);
    outer.complete(&mut p, JS_NAME);
    assert_eq!(
        p.finish().0,
        vec![
            Event::Start {
                kind: JS_NAME,
                start: size(1),
                forward_parent: None
            },
            event(LET_KW, 1, 4),
            Event::Finish { end: size(4) },
        ]
    );
}

#[test]
fn a_parser_cannot_go_back_to_what_it_has_not_reached() {
    let mut ahead = declaration();
    ahead.bump(LET_KW);
    let checkpoint = ahead.checkpoint();
    let behind = declaration();
    assert!(!behind.can_rewind(&checkpoint));
    assert!(ahead.can_rewind(&checkpoint));
}

#[test]
fn lookahead_returns_the_result_and_goes_back() {
    let mut p = declaration();
    p.bump(LET_KW);
    let seen = p.lookahead(|p| {
        p.bump(IDENT);
        p.eat(EQ)
    });
    assert!(seen);
    assert_eq!(p.cur(), IDENT);
    assert_eq!(p.finish().0, vec![event(LET_KW, 1, 4)]);
}

#[test]
fn the_current_token_can_be_read_anew() {
    let mut p = parser(
        "/a/",
        vec![
            token(SLASH, 0, 1),
            token(IDENT, 1, 2),
            token(SLASH, 2, 3),
            token(JsSyntaxKind::EOF, 3, 3),
        ],
    );
    let checkpoint = p.checkpoint();
    let reading = ReLexContext {
        lexemes: vec![
            token(JS_REGEX_LITERAL, 0, 3),
            token(JsSyntaxKind::EOF, 3, 3),
        ],
        diagnostics: vec![Diagnostic::warning(4, "Lexer", "forgotten")],
    };
    assert_eq!(p.re_lex(reading), JS_REGEX_LITERAL);
    assert_eq!(p.cur_range(), range(0, 3));
    assert_eq!(p.nth(1), JsSyntaxKind::EOF);
    p.rewind(checkpoint);
    assert_eq!(p.cur(), SLASH);
    assert_eq!(p.nth(1), IDENT);
    assert_eq!(p.nth(2), SLASH);
    assert!(p.finish().2.is_empty());
}

#[test]
fn the_next_token_can_be_read_in_another_context() {
    let mut p = parser(
        "= a b",
        vec![
            token(EQ, 0, 1),
            space(1, 2),
            token(IDENT, 2, 3),
            space(3, 4),
            token(IDENT, 4, 5),
            token(JsSyntaxKind::EOF, 5, 5),
        ],
    );
    let checkpoint = p.checkpoint();
    let reading = |start: u32, end: u32| {
        LexContext::Relexed(ReLexContext {
            lexemes: vec![token(JSX_TEXT, start, end), token(JsSyntaxKind::EOF, end, end)],
            diagnostics: Vec::new(),
        })
    };
    assert!(p.can_bump(&reading(1, 5)));
    assert!(!p.can_bump(&reading(2, 5)));
    assert!(!p.can_bump(&reading(1, 4)));
    p.bump_with_context(EQ, reading(1, 5));
    assert_eq!(p.cur(), JSX_TEXT);
    assert_eq!(p.cur_src(), " a b");
    p.bump(JSX_TEXT);
    assert!(p.at(JsSyntaxKind::EOF));
    p.rewind(checkpoint);
    p.bump_with_context(EQ, LexContext::default());
    assert_eq!(p.cur(), IDENT);
    assert_eq!(p.nth(1), IDENT);
}

#[test]
fn what_a_new_reading_reports_is_kept() {
    let mut p = parser(
        "/a",
        vec![
            token(SLASH, 0, 1),
            token(IDENT, 1, 2),
            token(JsSyntaxKind::EOF, 2, 2),
        ],
    );
    p.re_lex(ReLexContext {
        lexemes: vec![token(JS_REGEX_LITERAL, 0, 2), token(JsSyntaxKind::EOF, 2, 2)],
        diagnostics: vec![Diagnostic::error(4, "SyntaxError", "unterminated")],
    });
    p.bump(JS_REGEX_LITERAL);
    let (events, _, diagnostics) = p.finish();
    assert_eq!(events, vec![event(JS_REGEX_LITERAL, 0, 2)]);
    assert_eq!(messages(&diagnostics), vec!["unterminated"]);
}

#[test]
fn reading_anew_keeps_the_line_break_before_the_token() {
    let mut p = parser(
        "\n/a/",
        vec![
            newline(0, 1),
            token_after_break(SLASH, 1, 2),
            token(IDENT, 2, 3),
            token(SLASH, 3, 4),
            token(JsSyntaxKind::EOF, 4, 4),
        ],
    );
    assert!(p.has_preceding_line_break());
    let reading = |first: Lexeme| ReLexContext {
        lexemes: vec![first, token(JsSyntaxKind::EOF, 4, 4)],
        diagnostics: Vec::new(),
    };
    assert!(!p.can_re_lex(&reading(token(JS_REGEX_LITERAL, 1, 4))));
    assert!(!p.can_re_lex(&reading(token_after_break(JS_REGEX_LITERAL, 2, 4))));
    assert!(!p.can_re_lex(&reading(newline(1, 4))));
    let regex = reading(token_after_break(JS_REGEX_LITERAL, 1, 4));
    assert!(p.can_re_lex(&regex));
    p.re_lex(regex);
    assert!(p.has_preceding_line_break());
    assert!(!p.has_nth_preceding_line_break(1));
}

#[test]
fn progress_is_captured() {
    let mut p = declaration();
    let mut progress = ParserProgress::default();
    assert!(progress.has_progressed(&p));
    progress.assert_progressing(&p);
    assert!(!progress.has_progressed(&p));
    p.bump(LET_KW);
    assert!(progress.has_progressed(&p));
    progress.assert_progressing(&p);
    assert!(!progress.has_progressed(&p));
}
