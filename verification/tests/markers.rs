use std::collections::hash_map::DefaultHasher;
use std::hash::{Hash, Hasher};

use js_parser::event::Event;
use js_parser::marker::{CompletedMarker, Marker};
use js_parser::parser::Parser;
use js_parser::state::SourceType;
use js_parser::syntax::{JsSyntaxKind, KindDetails, KindInfo, Spelling, TriviaPieceKind};
use js_parser::text::{TextRange, TextSize};
use js_parser::token_source::{LexedToken, Lexeme, TokenSource, Trivia};

const JS_STRING_LITERAL: JsSyntaxKind = kind(1, None);
const JS_STRING_LITERAL_EXPRESSION: JsSyntaxKind = kind(2, Some(20));
const JS_EXPRESSION_STATEMENT: JsSyntaxKind = kind(3, Some(21));
const IDENT: JsSyntaxKind = kind(4, None);
const JS_NAME: JsSyntaxKind = kind(5, None);

const fn kind(raw: u16, unknown: Option<u16>) -> JsSyntaxKind {
    JsSyntaxKind::Other(KindInfo {
        raw,
        details: KindDetails {
            spelling: Spelling::Varying,
            unknown,
        },
    })
}

fn size(raw: u32) -> TextSize {
    TextSize { raw }
}

fn range(start: u32, end: u32) -> TextRange {
    TextRange {
        start: size(start),
        end: size(end),
    }
}

fn token(kind: JsSyntaxKind, start: u32, end: u32) -> Lexeme {
    Lexeme::Token(LexedToken {
        kind,
        range: range(start, end),
        preceding_line_break: false,
        unicode_escape: false,
    })
}

fn space(start: u32, end: u32) -> Lexeme {
    Lexeme::Trivia(Trivia {
        kind: TriviaPieceKind::Whitespace,
        range: range(start, end),
    })
}

fn parser<'s>(source: &'s str, lexemes: Vec<Lexeme>) -> Parser<'s> {
    let tokens = TokenSource::from_lexemes(source, lexemes, Vec::new()).unwrap();
    Parser::new(tokens, 0, SourceType::default())
}

fn use_strict() -> Parser<'static> {
    parser(
        "'use strict'",
        vec![
            token(JS_STRING_LITERAL, 0, 12),
            token(JsSyntaxKind::EOF, 12, 12),
        ],
    )
}

/// `a  b c`, three identifiers.
fn names() -> Parser<'static> {
    parser(
        "a  b c",
        vec![
            token(IDENT, 0, 1),
            space(1, 3),
            token(IDENT, 3, 4),
            space(4, 5),
            token(IDENT, 5, 6),
            token(JsSyntaxKind::EOF, 6, 6),
        ],
    )
}

fn start(kind: JsSyntaxKind, start: u32, forward_parent: Option<u32>) -> Event {
    Event::Start {
        kind,
        start: size(start),
        forward_parent,
    }
}

fn finish(end: u32) -> Event {
    Event::Finish { end: size(end) }
}

fn ident(start: u32, end: u32) -> Event {
    Event::Token {
        kind: IDENT,
        range: range(start, end),
    }
}

#[test]
#[should_panic(
    expected = "Marker must either be `completed` or `abandoned` to avoid that children are implicitly attached to a marker's parent."
)]
fn uncompleted_markers_panic() {
    let mut parser = use_strict();

    let _ = parser.start();
    // drop the marker without calling complete or abandon
}

#[test]
fn completed_marker_doesnt_panic() {
    let mut p = use_strict();

    let m = p.start();
    p.expect(JS_STRING_LITERAL);
    m.complete(&mut p, JS_STRING_LITERAL_EXPRESSION);
}

#[test]
fn abandoned_marker_doesnt_panic() {
    let mut p = use_strict();

    let m = p.start();
    m.abandon(&mut p);
}

#[test]
fn completing_a_node_yields_its_events() {
    let mut p = use_strict();
    let m = p.start();
    assert_eq!(m.start(), size(0));
    assert!(p.expect(JS_STRING_LITERAL));
    let node = m.complete(&mut p, JS_STRING_LITERAL_EXPRESSION);
    assert_eq!(
        node,
        CompletedMarker::new(0, 2, JS_STRING_LITERAL_EXPRESSION)
    );
    assert_eq!(node.kind(), JS_STRING_LITERAL_EXPRESSION);
    assert_eq!(node.range(&p), range(0, 12));
    assert_eq!(node.text(&p), "'use strict'");
    let (events, trivia, diagnostics) = p.finish();
    assert_eq!(
        events,
        vec![
            start(JS_STRING_LITERAL_EXPRESSION, 0, None),
            Event::Token {
                kind: JS_STRING_LITERAL,
                range: range(0, 12)
            },
            finish(12),
        ]
    );
    assert!(trivia.is_empty());
    assert!(diagnostics.is_empty());
}

#[test]
fn an_empty_node_ends_where_it_starts() {
    let mut p = names();
    p.bump(IDENT);
    let m = p.start();
    let node = m.complete(&mut p, JS_NAME);
    assert_eq!(node.range(&p), range(3, 3));
    assert_eq!(node.text(&p), "");
    assert_eq!(
        p.finish().0,
        vec![ident(0, 1), start(JS_NAME, 3, None), finish(3)]
    );
}

#[test]
fn a_node_ends_with_the_last_token() {
    let mut p = names();
    let m = p.start();
    p.bump(IDENT);
    p.bump(IDENT);
    let node = m.complete(&mut p, JS_NAME);
    assert_eq!(node.range(&p), range(0, 4));
    assert_eq!(node.text(&p), "a  b");
}

#[test]
fn abandoning_a_started_node_restores_the_events() {
    let mut p = names();
    p.bump(IDENT);
    let m = p.start();
    m.abandon(&mut p);
    assert_eq!(p.finish().0, vec![ident(0, 1)]);
}

#[test]
fn abandoning_a_node_with_children_leaves_a_tombstone() {
    let mut p = names();
    let m = p.start();
    p.bump(IDENT);
    m.abandon(&mut p);
    assert_eq!(
        p.finish().0,
        vec![start(JsSyntaxKind::TOMBSTONE, 0, None), ident(0, 1)]
    );
}

#[test]
fn preceding_sets_the_forward_parent() {
    let mut p = names();
    let m = p.start();
    let node = m.complete(&mut p, JS_NAME);
    let parent = node.precede(&mut p);
    assert_eq!(parent.start(), size(0));
    let parent = parent.complete(&mut p, JS_EXPRESSION_STATEMENT);
    assert_eq!(
        p.finish().0,
        vec![
            start(JS_NAME, 0, Some(2)),
            finish(0),
            start(JS_EXPRESSION_STATEMENT, 0, None),
            finish(0),
        ]
    );
    assert_eq!(parent.kind(), JS_EXPRESSION_STATEMENT);
}

#[test]
fn a_preceding_node_spans_the_preceded_one() {
    let mut p = names();
    let m = p.start();
    p.bump(IDENT);
    let node = m.complete(&mut p, JS_NAME);
    let first = node.clone().precede(&mut p);
    p.bump(IDENT);
    let first = first.complete(&mut p, JS_EXPRESSION_STATEMENT);
    assert_eq!(first.range(&p), range(0, 4));
    assert_eq!(node.range(&p), range(0, 1));
    let second = first.precede(&mut p);
    assert_eq!(second.start(), size(0));
    p.bump(IDENT);
    let second = second.complete(&mut p, JS_EXPRESSION_STATEMENT);
    assert_eq!(second.range(&p), range(0, 6));
    assert_eq!(second.text(&p), "a  b c");
    assert_eq!(
        p.finish().0,
        vec![
            start(JS_NAME, 0, Some(3)),
            ident(0, 1),
            finish(1),
            start(JS_EXPRESSION_STATEMENT, 3, Some(3)),
            ident(3, 4),
            finish(4),
            start(JS_EXPRESSION_STATEMENT, 5, None),
            ident(5, 6),
            finish(6),
        ]
    );
}

#[test]
fn preceding_a_preceding_node_starts_where_that_one_does() {
    let mut p = parser(
        "a b",
        vec![
            token(IDENT, 0, 1),
            space(1, 2),
            token(IDENT, 2, 3),
            token(JsSyntaxKind::EOF, 3, 3),
        ],
    );
    let m = p.start();
    p.bump_any();
    let mut node = m.complete(&mut p, JS_NAME);
    for _ in 0..3 {
        let parent = node.precede(&mut p);
        assert_eq!(parent.start(), size(0));
        node = parent.complete(&mut p, JsSyntaxKind::JS_UNKNOWN);
        assert_eq!(node.range(&p), range(0, 1));
    }
    let parent = node.precede(&mut p);
    p.bump_any();
    let node = parent.complete(&mut p, JsSyntaxKind::JS_UNKNOWN);
    assert_eq!(node.range(&p), range(0, 3));
}

#[test]
fn preceding_an_empty_node_starts_where_that_one_does() {
    let mut p = names();
    p.bump(IDENT);
    let m = p.start();
    let node = m.complete(&mut p, JS_NAME);
    assert_eq!(node.range(&p), range(3, 3));
    let parent = node.precede(&mut p);
    assert_eq!(parent.start(), size(3));
    let parent = parent.complete(&mut p, JS_NAME);
    assert_eq!(parent.range(&p), range(3, 3));
}

#[test]
fn a_marker_tells_what_can_be_done_with_it() {
    let mut p = names();
    let m = p.start();
    assert!(m.can_complete(&p));
    assert!(m.can_abandon(&p));
    p.bump(IDENT);
    let node = m.complete(&mut p, JS_NAME);
    assert!(node.starts_in(&p));
    assert!(node.has_range(&p));
    assert!(node.can_precede(&p));
    assert!(node.can_undo(&p));
    let parent = node.clone().precede(&mut p);
    assert!(!node.can_undo(&p));
    assert!(parent.can_abandon(&p));
    parent.abandon(&mut p);
    assert!(node.can_undo(&p));
    let elsewhere = CompletedMarker::new(1, 0, JS_NAME);
    assert!(!elsewhere.starts_in(&p));
    assert!(!elsewhere.has_range(&p));
    assert!(!elsewhere.can_precede(&p));
    assert!(!elsewhere.can_undo(&p));
    let far = CompletedMarker::new(7, 8, JS_NAME);
    assert!(!far.starts_in(&p));
    assert!(!far.has_range(&p));
    assert!(!far.can_undo(&p));
}

#[test]
fn abandoning_a_preceding_node_restores_the_events() {
    let mut p = names();
    let m = p.start();
    p.bump(IDENT);
    let node = m.complete(&mut p, JS_NAME);
    let parent = node.precede(&mut p);
    parent.abandon(&mut p);
    assert_eq!(
        p.finish().0,
        vec![start(JS_NAME, 0, None), ident(0, 1), finish(1)]
    );
}

#[test]
fn abandoning_a_preceding_node_with_children_detaches_the_child() {
    let mut p = names();
    let m = p.start();
    let node = m.complete(&mut p, JS_NAME);
    let parent = node.precede(&mut p);
    p.bump(IDENT);
    parent.abandon(&mut p);
    assert_eq!(
        p.finish().0,
        vec![
            start(JS_NAME, 0, None),
            finish(0),
            start(JsSyntaxKind::TOMBSTONE, 0, None),
            ident(0, 1),
        ]
    );
}

#[test]
fn undoing_a_completion_reopens_the_node() {
    let mut p = names();
    let m = p.start();
    p.bump(IDENT);
    let node = m.complete(&mut p, JS_NAME);
    let again = node.undo_completion(&mut p);
    assert_eq!(again.start(), size(0));
    p.bump(IDENT);
    let node = again.complete(&mut p, JS_EXPRESSION_STATEMENT);
    assert_eq!(
        node,
        CompletedMarker::new(0, 4, JS_EXPRESSION_STATEMENT)
    );
    assert_eq!(
        p.finish().0,
        vec![
            start(JS_EXPRESSION_STATEMENT, 0, None),
            ident(0, 1),
            start(JsSyntaxKind::TOMBSTONE, 0, None),
            ident(3, 4),
            finish(4),
        ]
    );
}

#[test]
fn the_kind_of_a_node_can_be_changed() {
    let mut p = names();
    let m = p.start();
    let mut node = m.complete(&mut p, JS_NAME);
    node.change_kind(&mut p, JS_EXPRESSION_STATEMENT);
    assert_eq!(node.kind(), JS_EXPRESSION_STATEMENT);
    assert_eq!(
        p.finish().0,
        vec![start(JS_EXPRESSION_STATEMENT, 0, None), finish(0)]
    );
}

#[test]
fn a_node_can_become_unknown() {
    let mut p = names();
    let m = p.start();
    let mut node = m.complete(&mut p, JS_EXPRESSION_STATEMENT);
    node.change_to_unknown(&mut p);
    assert_eq!(node.kind(), kind(21, Some(21)));
    node.change_to_unknown(&mut p);
    assert_eq!(node.kind(), kind(21, Some(21)));
    let m = p.start();
    let mut node = m.complete(&mut p, JS_NAME);
    node.change_to_unknown(&mut p);
    assert_eq!(node.kind(), JsSyntaxKind::JS_UNKNOWN);
    assert_eq!(
        p.finish().0,
        vec![
            start(kind(21, Some(21)), 0, None),
            finish(0),
            start(JsSyntaxKind::JS_UNKNOWN, 0, None),
            finish(0),
        ]
    );
}

#[test]
fn equal_kinds_have_equal_hashes() {
    let hash = |marker: &CompletedMarker| {
        let mut hasher = DefaultHasher::new();
        marker.hash(&mut hasher);
        hasher.finish()
    };
    let table = CompletedMarker::new(0, 1, kind(21, None));
    let unknown = CompletedMarker::new(0, 1, JS_EXPRESSION_STATEMENT.to_unknown());
    assert_eq!(table, unknown);
    assert_eq!(hash(&table), hash(&unknown));
    let other = CompletedMarker::new(0, 1, JS_NAME);
    assert_ne!(table, other);
    assert_ne!(hash(&table), hash(&other));
}

#[test]
fn a_node_does_not_end_before_its_marker_starts() {
    let mut p = names();
    let m = p.start();
    p.bump(IDENT);
    m.abandon(&mut p);
    let m = Marker::new(0, size(5));
    assert_eq!(m.start(), size(5));
    let node = m.complete(&mut p, JS_NAME);
    assert_eq!(node.range(&p), range(0, 5));
    assert_eq!(
        p.finish().0,
        vec![start(JS_NAME, 0, None), ident(0, 1), finish(5)]
    );
}

#[test]
fn as_many_nodes_finish_as_start() {
    let mut p = names();
    let outer = p.start();
    let m = p.start();
    p.bump(IDENT);
    let inner = m.complete(&mut p, JS_NAME);
    let parent = inner.precede(&mut p);
    p.bump(IDENT);
    let parent = parent.complete(&mut p, JS_EXPRESSION_STATEMENT);
    let parent = parent.undo_completion(&mut p);
    let given_up = p.start();
    p.bump(IDENT);
    given_up.abandon(&mut p);
    parent.complete(&mut p, JS_NAME);
    outer.complete(&mut p, JS_EXPRESSION_STATEMENT);
    let mut started: usize = 0;
    let mut finished: usize = 0;
    for event in p.finish().0 {
        match event {
            Event::Start { kind, .. } => {
                if kind != JsSyntaxKind::TOMBSTONE {
                    started += 1;
                }
            }
            Event::Finish { .. } => finished += 1,
            Event::Token { .. } => {}
        }
    }
    assert_eq!(started, 3);
    assert_eq!(finished, 3);
}

#[test]
fn a_node_holds_what_was_consumed_while_it_was_open() {
    let mut p = names();
    p.bump(IDENT);
    let outer = p.start();
    let m = p.start();
    p.bump(IDENT);
    let inner = m.complete(&mut p, JS_NAME);
    let given_up = inner.clone().precede(&mut p);
    given_up.abandon(&mut p);
    let again = inner.undo_completion(&mut p);
    p.bump(IDENT);
    let inner = again.complete(&mut p, JS_NAME);
    let parent = inner.precede(&mut p);
    parent.complete(&mut p, JS_NAME);
    let outer = outer.complete(&mut p, JS_EXPRESSION_STATEMENT);
    assert_eq!(outer.text(&p), "b c");
    assert_eq!(outer, CompletedMarker::new(1, 9, JS_EXPRESSION_STATEMENT));
    let events = p.finish().0;
    assert_eq!(events[0], ident(0, 1));
    assert_eq!(events[1], start(JS_EXPRESSION_STATEMENT, 3, None));
    assert_eq!(events[9], finish(6));
    assert_eq!(events.len(), 10);
    let mut open: i32 = 0;
    let mut tokens: Vec<Event> = Vec::new();
    for event in &events[2..9] {
        match event {
            Event::Start { kind, .. } => {
                if *kind != JsSyntaxKind::TOMBSTONE {
                    open += 1;
                }
            }
            Event::Finish { .. } => open -= 1,
            Event::Token { .. } => tokens.push(*event),
        }
        assert!(open >= 0);
    }
    assert_eq!(open, 0);
    assert_eq!(tokens, vec![ident(3, 4), ident(5, 6)]);
}

#[test]
fn completing_and_changing_the_kind_is_completing_as_that_kind() {
    let mut changed = names();
    let m = changed.start();
    changed.bump(IDENT);
    let mut node = m.complete(&mut changed, JS_NAME);
    node.change_kind(&mut changed, JS_EXPRESSION_STATEMENT);
    let mut direct = names();
    let m = direct.start();
    direct.bump(IDENT);
    assert_eq!(m.complete(&mut direct, JS_EXPRESSION_STATEMENT), node);
    assert_eq!(changed.finish().0, direct.finish().0);
}

#[test]
fn the_text_of_a_node_may_hold_any_character() {
    let mut p = parser(
        "é 漢",
        vec![
            token(IDENT, 0, 2),
            space(2, 3),
            token(IDENT, 3, 6),
            token(JsSyntaxKind::EOF, 6, 6),
        ],
    );
    p.bump(IDENT);
    let m = p.start();
    p.bump(IDENT);
    let node = m.complete(&mut p, JS_NAME);
    assert_eq!(node.text(&p), "漢");
}
