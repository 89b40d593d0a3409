//! What each call on a parser, or on one of its markers, does to the events, the tokens and the
//! reports, one by one.
use crate::diagnostic::{DiagnosticView, FileSpan, Severity, SubDiagnosticView};
use crate::event::Event;
use crate::marker::{CompletedMarkerView, MarkerView};
use crate::parser::{CheckpointView, ExpectedToken, ParserView, ToDiagnostic};
use crate::syntax::{JsSyntaxKind, Spelling, TriviaPieceKind};
use crate::text::text_in;
use crate::token_source::{LexContextView, LexedToken, Trivia};
use vstd::prelude::*;
use vstd::utf8::{decode_utf8, encode_utf8};

verus! {

/// The lexeme that the parser is at.
pub open spec fn token_at(p: ParserView) -> LexedToken {
    p.tokens.lexed[p.tokens.index]->Token_0
}

/// The text of the keyword, if the grammar spells the kind as one.
pub open spec fn keyword_text(kind: JsSyntaxKind) -> Option<Seq<char>> {
    if let JsSyntaxKind::Other(info) = kind {
        if let Spelling::Keyword(text) = info.details.spelling {
            Some(text@)
        } else {
            None
        }
    } else {
        None
    }
}

/// Whether `after` differs from `before` in nothing but events, tokens, the last token, and
/// reports.
pub open spec fn same_file(before: ParserView, after: ParserView) -> bool {
    &&& after.file_id == before.file_id
    &&& after.state == before.state
    &&& after.source_type == before.source_type
    &&& after.skipping == before.skipping
    &&& after.tokens.source == before.tokens.source
}

// ---------------------------------------------------------------------------------------------
// Looking at the current and the last token.
// ---------------------------------------------------------------------------------------------
/// The parser is at the token at its index, which starts and ends where the lexer says and whose
/// text is what the source holds there.
pub proof fn law_current_token(p: ParserView)
    ensures
        p.cur() == token_at(p).kind,
        p.cur_range() == token_at(p).range,
        p.tokens.token() == token_at(p),
        p.tokens.position() == token_at(p).range.start,
        p.tokens.at_end() <==> token_at(p).kind == JsSyntaxKind::EOF,
        p.cur_text() == decode_utf8(
            encode_utf8(p.tokens.source).subrange(
                token_at(p).range.start.raw as int,
                token_at(p).range.end.raw as int,
            ),
        ),
{
}

/// The last bumped token is the one of the event that is recorded as such, and there is none
/// where none is recorded.
pub proof fn law_last_token(p: ParserView)
    requires
        p.inv(),
    ensures
        p.last_kind() is Some <==> p.last_token_event_pos is Some,
        p.last_range() is Some <==> p.last_token_event_pos is Some,
        p.last_token_event_pos matches Some(pos) ==> p.events[pos as int] == (Event::Token {
            kind: p.last_kind()->0,
            range: p.last_range()->0,
        }),
{
}

// ---------------------------------------------------------------------------------------------
// Bumping.
// ---------------------------------------------------------------------------------------------
/// Bumping yields one token event, of exactly the kind that is asked for and the range of the
/// current token, and reports nothing, unless the token is spelled with an escape sequence and
/// the kind is a keyword. Only then the event is an error token.
pub proof fn law_bump_yields_the_kind(p: ParserView, kind: JsSyntaxKind, context: LexContextView)
    requires
        !p.skipping,
    ensures
        ({
            let after = p.bumped(kind, context);
            let range = token_at(p).range;
            let escaped = token_at(p).unicode_escape && keyword_text(kind) is Some;
            &&& !escaped ==> after.events == p.events.push(Event::Token { kind, range })
            &&& !escaped ==> after.diagnostics == p.diagnostics
            &&& escaped ==> after.events == p.events.push(
                Event::Token { kind: JsSyntaxKind::ERROR_TOKEN, range },
            )
            &&& after.last_token_event_pos == Some(p.events.len() as u32)
            &&& after.tokens == p.tokens.bumped(context)
            &&& same_file(p, after)
        }),
{
}

/// While the parser skips, bumping yields no event and leaves the last token: the current token
/// becomes a piece of skipped trivia, behind the trivia that was there.
pub proof fn law_skipping_bump_yields_trivia(
    p: ParserView,
    kind: JsSyntaxKind,
    context: LexContextView,
)
    requires
        p.skipping,
        p.inv(),
        p.tokens.can_read(context),
    ensures
        ({
            let after = p.bumped(kind, context);
            let len = p.tokens.trivia.len() as int;
            let escaped = token_at(p).unicode_escape && keyword_text(kind) is Some;
            &&& after.events == p.events
            &&& after.last_token_event_pos == p.last_token_event_pos
            &&& !escaped ==> after.diagnostics == p.diagnostics
            &&& after.tokens == p.tokens.skipped(context)
            &&& !p.tokens.at_end() ==> after.tokens.trivia.len() > len && after.tokens.trivia[len]
                == (Trivia { kind: TriviaPieceKind::Skipped, range: token_at(p).range })
            &&& p.tokens.at_end() ==> after.tokens == p.tokens
            &&& same_file(p, after)
        }),
{
}

/// Bumping a keyword that is spelled with an escape sequence adds one report, about the current
/// token and with the text of the keyword, as reporting that error does.
pub proof fn law_escaped_keyword_is_reported(
    p: ParserView,
    kind: JsSyntaxKind,
    context: LexContextView,
)
    requires
        token_at(p).unicode_escape,
        keyword_text(kind) is Some,
    ensures
        p.bumped(kind, context).diagnostics == p.reported(
            DiagnosticView {
                file_id: p.file_id,
                severity: Severity::Error,
                code: Some("SyntaxError"@),
                message: "'"@ + keyword_text(kind)->0
                    + "' keyword cannot contain escape character."@,
                primary: Some(
                    SubDiagnosticView {
                        span: FileSpan { file: p.file_id, range: token_at(p).range },
                        msg: ""@,
                    },
                ),
            },
        ).diagnostics,
{
}

/// The current token can be bumped unless its event would have no `u32` as its index, or the text
/// behind it is not what the context reads.
pub proof fn law_when_a_token_can_be_bumped(p: ParserView, context: LexContextView)
    ensures
        p.has_room() <==> p.events.len() <= 0xffff_ffff,
        p.can_bump(context) <==> p.tokens.can_read(context) && (p.skipping || p.events.len()
            <= 0xffff_ffff),
        p.can_wrap_cur() <==> token_at(p).kind != JsSyntaxKind::EOF && p.events.len()
            <= 0xffff_ffff - (if p.skipping {
            1int
        } else {
            2int
        }),
{
}

/// Wrapping the current token yields a node of the given kind that starts at the current token,
/// holds that token with the kind and the range it has, and ends with it. A keyword that is spelled
/// with an escape sequence becomes an error token, as it does when it is bumped.
pub proof fn law_wrapped_token_keeps_its_kind(p: ParserView, kind: JsSyntaxKind)
    requires
        p.inv(),
        p.can_wrap_cur(),
        !p.skipping,
    ensures
        ({
            let after = p.cur_wrapped(kind);
            let token = token_at(p);
            let escaped = token.unicode_escape && keyword_text(token.kind) is Some;
            &&& after.events == p.events + seq![
                Event::Start { kind, start: token.range.start, forward_parent: None },
                Event::Token {
                    kind: if escaped {
                        JsSyntaxKind::ERROR_TOKEN
                    } else {
                        token.kind
                    },
                    range: token.range,
                },
                Event::Finish { end: token.range.end },
            ]
            &&& after.last_token_event_pos == Some((p.events.len() + 1) as u32)
            &&& !escaped ==> after.diagnostics == p.diagnostics
            &&& after.diagnostics == p.bumped(token.kind, LexContextView::Regular).diagnostics
            &&& after.tokens == p.bumped(token.kind, LexContextView::Regular).tokens
            &&& same_file(p, after)
        }),
{
    assert(p.tokens.lexed[p.tokens.index].span() == token_at(p).range);
    let after = p.cur_wrapped(kind);
    let token = token_at(p);
    let escaped = token.unicode_escape && keyword_text(token.kind) is Some;
    assert(after.events =~= p.events + seq![
        Event::Start { kind, start: token.range.start, forward_parent: None },
        Event::Token {
            kind: if escaped {
                JsSyntaxKind::ERROR_TOKEN
            } else {
                token.kind
            },
            range: token.range,
        },
        Event::Finish { end: token.range.end },
    ]);
}

/// While the parser skips, wrapping the current token yields an empty node, and the token is
/// skipped.
pub proof fn law_wrapped_token_is_skipped(p: ParserView, kind: JsSyntaxKind)
    requires
        p.inv(),
        p.can_wrap_cur(),
        p.skipping,
    ensures
        ({
            let after = p.cur_wrapped(kind);
            let start = token_at(p).range.start;
            let end = after.events.last()->end;
            &&& after.events == p.events + seq![
                Event::Start { kind, start, forward_parent: None },
                Event::Finish { end },
            ]
            &&& p.last_token_event_pos is None ==> end == start
            &&& p.last_token_event_pos matches Some(pos) ==> end.raw == if p.events[pos as int]->range.end.raw
                >= start.raw {
                p.events[pos as int]->range.end.raw
            } else {
                start.raw
            }
            &&& after.last_token_event_pos == p.last_token_event_pos
            &&& after.diagnostics == p.bumped(
                token_at(p).kind,
                LexContextView::Regular,
            ).diagnostics
            &&& after.tokens == p.tokens.skipped(LexContextView::Regular)
            &&& same_file(p, after)
        }),
{
    let after = p.cur_wrapped(kind);
    let start = token_at(p).range.start;
    assert(after.events =~= p.events + seq![
        Event::Start { kind, start, forward_parent: None },
        Event::Finish { end: after.events.last()->end },
    ]);
}

// ---------------------------------------------------------------------------------------------
// Reports.
// ---------------------------------------------------------------------------------------------
/// An error is added behind the reports that are there, whatever it says, unless it and the last of
/// them are both syntax errors of the same file with labels that start at the same byte. Only
/// then it is dropped.
pub proof fn law_error_elsewhere_is_kept(p: ParserView, err: DiagnosticView)
    ensures
        ({
            let after = p.reported(err);
            let last = p.diagnostics.last();
            let dropped = {
                &&& p.diagnostics.len() > 0
                &&& err.code == Some("SyntaxError"@)
                &&& last.code == Some("SyntaxError"@)
                &&& last.file_id == err.file_id
                &&& err.primary is Some
                &&& last.primary is Some
                &&& err.primary->0.span.range.start.raw == last.primary->0.span.range.start.raw
            };
            &&& !dropped ==> after.diagnostics == p.diagnostics.push(err)
            &&& dropped ==> after.diagnostics == p.diagnostics
            &&& after.events == p.events
            &&& after.tokens == p.tokens
            &&& after.last_token_event_pos == p.last_token_event_pos
            &&& same_file(p, after)
        }),
{
    if p.reported(err).diagnostics == p.diagnostics.push(err) {
        assert(p.diagnostics.push(err).len() == p.diagnostics.len() + 1);
    }
}

/// Of two errors in a row whose labels start at different bytes, the second is reported, whatever
/// became of the first.
pub proof fn law_errors_at_two_positions_are_reported(
    p: ParserView,
    first: DiagnosticView,
    second: DiagnosticView,
)
    requires
        first.primary is Some,
        second.primary is Some,
        first.primary->0.span.range.start.raw != second.primary->0.span.range.start.raw,
    ensures
        p.reported(first).reported(second).diagnostics == p.reported(first).diagnostics.push(
            second,
        ),
{
    assert(p.diagnostics.push(first).last() == first);
}

/// The builders make a syntax error of the parser's file, without a label and with the severity and
/// the message that they are given.
pub proof fn law_builders_make_syntax_errors(p: ParserView, severity: Severity, message: Seq<char>)
    ensures
        ({
            let built = p.syntax_error(severity, message);
            &&& built.file_id == p.file_id
            &&& built.severity == severity
            &&& built.code == Some("SyntaxError"@)
            &&& built.message == message
            &&& built.primary is None
        }),
{
}

/// The report of a token that is not there is a syntax error labelled at the current token. It
/// names what was expected by its text, if it always has the same, and what was found by the text
/// of the current token, unless the file has ended.
pub proof fn law_expected_token_is_named(p: ParserView, kind: JsSyntaxKind, text: &str)
    ensures
        ({
            let report = ExpectedToken { kind }.diagnostic_at(p);
            let ended = token_at(p).kind == JsSyntaxKind::EOF;
            let found = if ended {
                " but instead the file ends"@
            } else {
                " but instead found `"@ + text_in(p.tokens.source, token_at(p).range) + "`"@
            };
            &&& report.file_id == p.file_id
            &&& report.severity == Severity::Error
            &&& report.code == Some("SyntaxError"@)
            &&& report.primary == Some(
                SubDiagnosticView {
                    span: FileSpan { file: p.file_id, range: token_at(p).range },
                    msg: if ended {
                        "the file ends here"@
                    } else {
                        "unexpected"@
                    },
                },
            )
            &&& kind matches JsSyntaxKind::Other(info) ==> {
                &&& info.details.spelling == Spelling::Keyword(text) || info.details.spelling
                    == Spelling::Fixed(text) ==> report.message == "expected `"@ + text@ + "`"@
                    + found
                &&& info.details.spelling is Varying ==> report.message == "expected another token"@
                    + found
            }
            &&& !(kind is Other) ==> report.message == "expected another token"@ + found
        }),
{
    reveal_strlit("expected ");
    reveal_strlit("`");
    reveal_strlit("expected `");
    reveal_strlit("another token");
    reveal_strlit("expected another token");
    let report = ExpectedToken { kind }.diagnostic_at(p);
    let found = if token_at(p).kind == JsSyntaxKind::EOF {
        " but instead the file ends"@
    } else {
        " but instead found `"@ + text_in(p.tokens.source, token_at(p).range) + "`"@
    };
    assert("expected "@ + "`"@ =~= "expected `"@);
    assert("expected "@ + "another token"@ =~= "expected another token"@);
    if let JsSyntaxKind::Other(info) = kind {
        if info.details.spelling == Spelling::Keyword(text) || info.details.spelling
            == Spelling::Fixed(text) {
            assert(report.message =~= "expected `"@ + text@ + "`"@ + found);
        } else if info.details.spelling is Varying {
            assert(report.message =~= "expected another token"@ + found);
        }
    } else {
        assert(report.message =~= "expected another token"@ + found);
    }
}

// ---------------------------------------------------------------------------------------------
// Markers.
// ---------------------------------------------------------------------------------------------
/// Whether `after` has the events of `before`, but for the one at `at`.
pub open spec fn same_events_but(before: Seq<Event>, after: Seq<Event>, at: int) -> bool {
    forall|i: int|
        0 <= i < before.len() && i < after.len() && i != at ==> #[trigger] after[i] == before[i]
}

/// Whether `after` differs from `before` in nothing but events.
pub open spec fn same_but_events(before: ParserView, after: ParserView) -> bool {
    &&& same_file(before, after)
    &&& after.tokens == before.tokens
    &&& after.diagnostics == before.diagnostics
    &&& after.last_token_event_pos == before.last_token_event_pos
}

/// Starting a node adds one event behind the others: the start of a node at the current token,
/// without a kind and without a parent. The marker refers to that event and that byte.
pub proof fn law_start_adds_a_tombstone(p: ParserView)
    requires
        p.has_room(),
    ensures
        ({
            let start = token_at(p).range.start;
            let after = p.with_event(Event::spec_tombstone(p.tokens.position()));
            let marker = MarkerView::fresh(p.events.len() as u32, p.tokens.position());
            &&& after.events == p.events.push(
                Event::Start { kind: JsSyntaxKind::TOMBSTONE, start, forward_parent: None },
            )
            &&& same_but_events(p, after)
            &&& marker.pos == p.events.len()
            &&& marker.start == start
            &&& marker.old_start == marker.pos
            &&& marker.child_idx is None
        }),
{
}

/// Completing a node gives the event that starts it the kind, and changes nothing else of it, and
/// adds the end of the node behind the others: where the last token ends, or where the marker
/// starts if that is later. The handle refers to the two events.
pub proof fn law_complete_sets_kind_and_end(p: ParserView, marker: MarkerView, kind: JsSyntaxKind)
    requires
        marker.can_complete(p),
        p.has_room(),
    ensures
        ({
            let end = marker.end(p);
            let after = marker.completed(p, kind, end);
            let completed = marker.completed_marker(p, kind);
            let pos = marker.pos as int;
            &&& after.events.len() == p.events.len() + 1
            &&& same_events_but(p.events, after.events, pos)
            &&& after.events[pos] == (Event::Start {
                kind,
                start: p.events[pos]->start,
                forward_parent: p.events[pos]->forward_parent,
            })
            &&& after.events.last() == Event::Finish { end }
            &&& p.last_token_event_pos is None ==> end == marker.start
            &&& p.last_token_event_pos matches Some(last) ==> {
                let last_end = p.events[last as int]->range.end;
                &&& end == last_end || end == marker.start
                &&& end.raw >= last_end.raw
                &&& end.raw >= marker.start.raw
            }
            &&& same_but_events(p, after)
            &&& completed.start_pos == marker.pos
            &&& completed.finish_pos == p.events.len()
            &&& completed.kind == kind
            &&& completed.old_start == marker.pos || completed.old_start == marker.old_start
            &&& completed.old_start <= marker.pos
            &&& completed.old_start <= marker.old_start
        }),
{
}

/// Abandoning a node takes off the event that starts it, if that is the last one, and leaves it
/// otherwise. The node that it was to become the parent of has no parent again. Nothing else
/// changes.
pub proof fn law_abandon_detaches(p: ParserView, marker: MarkerView)
    requires
        marker.can_abandon(p),
    ensures
        ({
            let after = marker.abandoned(p);
            let events = p.events;
            &&& after.events.len() == if marker.pos == events.len() - 1 {
                events.len() - 1
            } else {
                events.len() as int
            }
            &&& marker.child_idx is None ==> same_events_but(events, after.events, -1)
            &&& marker.child_idx matches Some(child) ==> {
                &&& same_events_but(events, after.events, child as int)
                &&& child < after.events.len()
                &&& after.events[child as int] == (Event::Start {
                    kind: events[child as int]->Start_kind,
                    start: events[child as int]->start,
                    forward_parent: None,
                })
            }
            &&& same_but_events(p, after)
        }),
{
}

/// Preceding a node adds the start of a node without a kind behind the events, at the current
/// token, and gives the preceded node the distance to it. The marker of the new node refers to that
/// event, to the preceded node, and to the byte where the preceded node starts.
pub proof fn law_precede_adds_a_parent(p: ParserView, completed: CompletedMarkerView)
    requires
        p.has_room(),
        completed.can_precede(p),
        completed.start_pos < p.events.len(),
    ensures
        ({
            let after = completed.preceded(p);
            let parent = completed.parent_marker(p);
            let at = completed.start_pos as int;
            let child = p.events[at];
            &&& after.events.len() == p.events.len() + 1
            &&& same_events_but(p.events, after.events, at)
            &&& after.events[at] == (Event::Start {
                kind: child->Start_kind,
                start: child->start,
                forward_parent: Some((p.events.len() - at) as u32),
            })
            &&& after.events.last() == (Event::Start {
                kind: JsSyntaxKind::TOMBSTONE,
                start: token_at(p).range.start,
                forward_parent: None,
            })
            &&& same_but_events(p, after)
            &&& parent.pos == p.events.len()
            &&& parent.start == p.events[completed.old_start as int]->start
            &&& parent.old_start == completed.old_start
            &&& parent.child_idx == Some(completed.start_pos as usize)
        }),
{
}

/// Preceding the node that starts with the next event makes the new node its own parent, at no
/// distance.
pub proof fn law_precede_at_the_end(p: ParserView, completed: CompletedMarkerView)
    requires
        p.has_room(),
        completed.can_precede(p),
        completed.start_pos == p.events.len(),
    ensures
        ({
            let after = completed.preceded(p);
            let parent = completed.parent_marker(p);
            let start = token_at(p).range.start;
            &&& after.events == p.events.push(
                Event::Start {
                    kind: JsSyntaxKind::TOMBSTONE,
                    start,
                    forward_parent: Some(0),
                },
            )
            &&& same_but_events(p, after)
            &&& parent.pos == p.events.len()
            &&& parent.start == if completed.old_start < p.events.len() {
                p.events[completed.old_start as int]->start
            } else {
                start
            }
            &&& parent.old_start == completed.old_start
            &&& parent.child_idx == Some(completed.start_pos as usize)
        }),
{
    let after = completed.preceded(p);
    assert(after.events =~= p.events.push(
        Event::Start {
            kind: JsSyntaxKind::TOMBSTONE,
            start: token_at(p).range.start,
            forward_parent: Some(0),
        },
    ));
}

/// Undoing a completion leaves a tombstone where the node starts and one where it finished, both
/// at the byte at which the node starts, and changes nothing else.
pub proof fn law_undo_leaves_tombstones(p: ParserView, completed: CompletedMarkerView)
    requires
        completed.can_undo(p),
    ensures
        ({
            let after = completed.undone(p);
            let start = completed.start_pos as int;
            let finish = completed.finish_pos as int;
            let tombstone = Event::Start {
                kind: JsSyntaxKind::TOMBSTONE,
                start: p.events[start]->start,
                forward_parent: None,
            };
            &&& after.events.len() == p.events.len()
            &&& after.events[start] == tombstone
            &&& after.events[finish] == tombstone
            &&& forall|i: int|
                0 <= i < p.events.len() && i != start && i != finish ==> #[trigger] after.events[i]
                    == p.events[i]
            &&& same_but_events(p, after)
        }),
{
}

/// Changing the kind of a node changes nothing but the kind that its start has.
pub proof fn law_change_kind_changes_the_kind(
    p: ParserView,
    completed: CompletedMarkerView,
    kind: JsSyntaxKind,
)
    requires
        completed.starts_in(p),
    ensures
        ({
            let after = completed.rekinded(p, kind);
            let at = completed.start_pos as int;
            &&& after.events.len() == p.events.len()
            &&& same_events_but(p.events, after.events, at)
            &&& after.events[at] == (Event::Start {
                kind,
                start: p.events[at]->start,
                forward_parent: p.events[at]->forward_parent,
            })
            &&& same_but_events(p, after)
        }),
{
}

/// The range of a node goes from the byte of the start that it refers to, to the byte of its end,
/// and its text is what the source holds there.
pub proof fn law_range_is_from_start_to_end(p: ParserView, completed: CompletedMarkerView)
    requires
        completed.has_range(p),
    ensures
        ({
            let range = completed.range(p);
            &&& p.events[completed.old_start as int] matches Event::Start { start, .. } && start
                == range.start
            &&& p.events[completed.finish_pos as int] == Event::Finish { end: range.end }
            &&& text_in(p.tokens.source, range) == decode_utf8(
                encode_utf8(p.tokens.source).subrange(
                    range.start.raw as int,
                    range.end.raw as int,
                ),
            )
        }),
{
}

/// What can be done with a marker depends on the events that it refers to alone: whether they are
/// there, and start or finish a node.
pub proof fn law_when_markers_can_be_used(
    p: ParserView,
    marker: MarkerView,
    completed: CompletedMarkerView,
)
    ensures
        ({
            let events = p.events;
            let pos = marker.pos as int;
            let start = completed.start_pos as int;
            let old_start = completed.old_start as int;
            let finish = completed.finish_pos as int;
            &&& marker.can_complete(p) <==> pos < events.len() && events[pos] is Start
            &&& completed.starts_in(p) <==> start < events.len() && events[start] is Start
            &&& completed.can_undo(p) <==> start < events.len() && finish < events.len()
                && events[start] is Start && events[start]->forward_parent is None
                && events[finish] is Finish
            &&& completed.has_range(p) <==> old_start < events.len() && finish < events.len()
                && events[old_start] is Start && events[finish] is Finish
                && events[old_start]->start.raw <= events[finish]->end.raw
            &&& start < events.len() ==> (completed.can_precede(p) <==> events[start] is Start
                && old_start <= start && events[old_start] is Start)
            &&& start == events.len() ==> (completed.can_precede(p) <==> old_start <= start && (
            old_start == events.len() || events[old_start] is Start))
            &&& start > events.len() ==> !completed.can_precede(p)
            &&& pos != events.len() - 1 && events.len() > 0 ==> (marker.can_abandon(p) <==> (
            marker.child_idx matches Some(child) ==> child < events.len()
                && events[child as int] is Start))
            &&& pos == events.len() - 1 ==> (marker.can_abandon(p) <==> (events[pos] is Start
                && events[pos]->Start_kind == JsSyntaxKind::TOMBSTONE
                && events[pos]->forward_parent is None && (
            marker.child_idx matches Some(child) ==> child < pos && events[child as int] is Start)))
            &&& events.len() == 0 ==> !marker.can_abandon(p)
        }),
{
}

// ---------------------------------------------------------------------------------------------
// Going back.
// ---------------------------------------------------------------------------------------------
/// A checkpoint records how many events, reports and pieces of trivia there are, which token is the
/// current and which the last one, and the state.
pub proof fn law_checkpoint_counts(p: ParserView)
    ensures
        ({
            let checkpoint = p.recorded();
            &&& checkpoint.event_pos == p.events.len()
            &&& checkpoint.errors_pos == p.diagnostics.len()
            &&& checkpoint.last_token_pos == p.last_token_event_pos
            &&& checkpoint.state == p.state
            &&& checkpoint.token_source.index == p.tokens.index
            &&& checkpoint.token_source.trivia_len == p.tokens.trivia.len()
            &&& checkpoint.token_source.diagnostics_len == p.tokens.diagnostics.len()
        }),
{
}

/// The first `n` elements, or all where there are no more.
pub open spec fn at_most<T>(all: Seq<T>, n: int) -> Seq<T> {
    if n < all.len() {
        all.subrange(0, n)
    } else {
        all
    }
}

/// Rewinding cuts the events, the reports and the trivia to as many as the checkpoint records, and
/// goes back to its tokens and its state. The text, its readings, and whether the parser skips stay.
pub proof fn law_rewind_cuts(p: ParserView, checkpoint: CheckpointView)
    requires
        p.can_rewind(checkpoint),
        checkpoint.errors_pos >= 0,
        checkpoint.token_source.trivia_len >= 0,
        checkpoint.token_source.diagnostics_len >= 0,
    ensures
        ({
            let after = p.rewound(checkpoint);
            let tokens = checkpoint.token_source;
            &&& after.events == p.events.subrange(0, checkpoint.event_pos)
            &&& after.diagnostics == at_most(p.diagnostics, checkpoint.errors_pos)
            &&& after.last_token_event_pos == checkpoint.last_token_pos
            &&& after.state == checkpoint.state
            &&& after.tokens.index == tokens.index
            &&& after.tokens.trivia == at_most(p.tokens.trivia, tokens.trivia_len)
            &&& after.tokens.diagnostics == at_most(
                p.tokens.diagnostics,
                tokens.diagnostics_len,
            )
            &&& after.tokens.lexed == p.tokens.lexed
            &&& after.tokens.source == p.tokens.source
            &&& after.skipping == p.skipping
            &&& after.file_id == p.file_id
            &&& after.source_type == p.source_type
        }),
{
    let after = p.rewound(checkpoint);
    let tokens = checkpoint.token_source;
    assert(after.diagnostics =~= at_most(p.diagnostics, checkpoint.errors_pos));
    assert(after.tokens.trivia =~= at_most(p.tokens.trivia, tokens.trivia_len));
    assert(after.tokens.diagnostics =~= at_most(p.tokens.diagnostics, tokens.diagnostics_len));
}

/// A valid parser can go back to a checkpoint that records no more events than there are and the
/// index of a token that was read.
pub proof fn law_when_a_parser_can_go_back(p: ParserView, checkpoint: CheckpointView)
    requires
        p.inv(),
    ensures
        p.can_rewind(checkpoint) <==> {
            &&& 0 <= checkpoint.event_pos <= p.events.len()
            &&& 0 <= checkpoint.token_source.index < p.tokens.lexed.len()
            &&& p.tokens.lexed[checkpoint.token_source.index] is Token
        },
{
}

/// After tokens were passed as trivia, the parser no longer skips and has at most as many events
/// as before. Nothing else changes.
pub proof fn law_unskipping_cuts_events(p: ParserView, len: int)
    requires
        len >= 0,
    ensures
        ({
            let after = p.unskipped(len);
            &&& after.events == at_most(p.events, len)
            &&& !after.skipping
            &&& after.tokens == p.tokens
            &&& after.diagnostics == p.diagnostics
            &&& after.last_token_event_pos == p.last_token_event_pos
            &&& after.state == p.state
            &&& after.file_id == p.file_id
            &&& after.source_type == p.source_type
        }),
{
    assert(p.unskipped(len).events =~= at_most(p.events, len));
}

} // verus!
