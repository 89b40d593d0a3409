//! What the functions of this library return, and what they leave behind.
//!
//! Each law speaks of any call of a function: of what it is given, what it returns, and the parser
//! before and after it.
use crate::diagnostic::{
    views, Diagnostic, DiagnosticView, FileSpan, ParseDiagnostic, Severity, SubDiagnosticView,
};
use crate::effects::{
    at_most, keyword_text, law_abandon_detaches, law_bump_yields_the_kind, law_change_kind_changes_the_kind,
    law_checkpoint_counts, law_complete_sets_kind_and_end, law_current_token,
    law_error_elsewhere_is_kept, law_escaped_keyword_is_reported, law_precede_adds_a_parent,
    law_range_is_from_start_to_end, law_rewind_cuts, law_skipping_bump_yields_trivia,
    law_start_adds_a_tombstone, law_undo_leaves_tombstones, law_unskipping_cuts_events,
    law_when_a_parser_can_go_back, law_when_a_token_can_be_bumped, law_when_markers_can_be_used,
    law_wrapped_token_keeps_its_kind, same_but_events, same_events_but, same_file, token_at,
};
use crate::event::Event;
use crate::explain::{
    explain, has_white_space, is_white_space, joined, law_description_tells_and_describes, law_fix_is_that_of_the_rule,
    law_fixes_are_told_apart, law_lines_end_at_line_feeds, law_title_is_the_name, lines_from,
    print_rule, trim_lines, trim_start, trimmed_lines, CliDiagnostic, Doc, FixKind, RuleMetadata,
};
use crate::marker::{CompletedMarker, CompletedMarkerView, Marker, MarkerView};
use crate::parser::{expected_token, Checkpoint, ExpectedToken, Parser, ParserView, ToDiagnostic};
use crate::progress::ParserProgress;
use crate::reading::{
    is_reading, law_bump_moves_to_next, law_looking_ahead_is_looking_after_a_bump,
    law_reading_is_accepted, law_skip_passes_the_token, law_source_starts_at_first_token,
    law_when_a_reading_can_be_used, moves_to_next,
};
use crate::state::{ModuleKind, SourceType};
use crate::syntax::{JsSyntaxKind, KindInfo, Spelling, TokenSet, TriviaPieceKind};
use crate::text::{
    check_range, holds_line_break, law_line_breaks, law_text_in_range_has_its_bytes,
    law_when_a_range_cuts, slice, valid_range, TextRange, TextSize,
};
use crate::token_source::{
    is_lexeme_of, LexContext, LexContextView, Lexeme, ReLexContext, TokenSource, TokenSourceView,
    Trivia,
};
use vstd::prelude::*;
use vstd::utf8::{encode_utf8, is_char_boundary};

verus! {

/// Whether `after` are the reports `before` with `err` behind them, or without it if it and the
/// last of them are syntax errors of the same file with labels that start at the same byte.
pub open spec fn is_reported(
    before: Seq<DiagnosticView>,
    err: DiagnosticView,
    after: Seq<DiagnosticView>,
) -> bool {
    let last = before.last();
    let dropped = {
        &&& before.len() > 0
        &&& err.code == Some("SyntaxError"@)
        &&& last.code == Some("SyntaxError"@)
        &&& last.file_id == err.file_id
        &&& err.primary is Some
        &&& last.primary is Some
        &&& err.primary->0.span.range.start.raw == last.primary->0.span.range.start.raw
    };
    after == if dropped {
        before
    } else {
        before.push(err)
    }
}

/// Whether `after` is `before` at the token behind the current one.
pub open spec fn is_moved(
    before: TokenSourceView,
    context: LexContextView,
    after: TokenSourceView,
) -> bool {
    if before.lexed[before.index]->Token_0.kind == JsSyntaxKind::EOF {
        after == before
    } else {
        match context {
            LexContextView::Regular => moves_to_next(before, before.index + 1, after),
            LexContextView::Relexed(reading) => moves_to_next(
                TokenSourceView {
                    lexed: before.lexed + reading.lexemes,
                    diagnostics: before.diagnostics + reading.diagnostics,
                    ..before
                },
                before.lexed.len() as int,
                after,
            ),
        }
    }
}

/// Whether `after` is `before` with the current token bumped as `kind`: it becomes a token event
/// of that kind or, while the parser skips, a piece of trivia. A keyword that is spelled with an
/// escape sequence is reported, and becomes an error token.
pub open spec fn is_bumped(
    before: ParserView,
    kind: JsSyntaxKind,
    context: LexContextView,
    after: ParserView,
) -> bool {
    let token = token_at(before);
    let escaped = token.unicode_escape && keyword_text(kind) is Some;
    let ended = token.kind == JsSyntaxKind::EOF;
    &&& same_file(before, after)
    &&& !escaped ==> after.diagnostics == before.diagnostics
    &&& escaped ==> is_reported(
        before.diagnostics,
        DiagnosticView {
            file_id: before.file_id,
            severity: Severity::Error,
            code: Some("SyntaxError"@),
            message: "'"@ + keyword_text(kind)->0 + "' keyword cannot contain escape character."@,
            primary: Some(
                SubDiagnosticView {
                    span: FileSpan { file: before.file_id, range: token.range },
                    msg: ""@,
                },
            ),
        },
        after.diagnostics,
    )
    &&& !before.skipping ==> {
        &&& after.events == before.events.push(
            Event::Token {
                kind: if escaped {
                    JsSyntaxKind::ERROR_TOKEN
                } else {
                    kind
                },
                range: token.range,
            },
        )
        &&& after.last_token_event_pos == Some(before.events.len() as u32)
        &&& is_moved(before.tokens, context, after.tokens)
    }
    &&& before.skipping ==> {
        &&& after.events == before.events
        &&& after.last_token_event_pos == before.last_token_event_pos
        &&& ended ==> after.tokens == before.tokens
        &&& !ended ==> is_moved(
            TokenSourceView {
                trivia: before.tokens.trivia.push(
                    Trivia { kind: TriviaPieceKind::Skipped, range: token.range },
                ),
                ..before.tokens
            },
            context,
            after.tokens,
        )
    }
}

proof fn lemma_bumped(p: ParserView, kind: JsSyntaxKind, context: LexContextView)
    requires
        p.inv(),
        p.tokens.can_read(context),
    ensures
        is_bumped(p, kind, context, p.bumped(kind, context)),
{
    let token = token_at(p);
    if token.unicode_escape && keyword_text(kind) is Some {
        law_escaped_keyword_is_reported(p, kind, context);
        law_error_elsewhere_is_kept(p, p.escaped_keyword(kind));
    }
    if p.skipping {
        law_skipping_bump_yields_trivia(p, kind, context);
        law_bump_moves_to_next(
            TokenSourceView {
                trivia: p.tokens.trivia.push(
                    Trivia { kind: TriviaPieceKind::Skipped, range: token.range },
                ),
                ..p.tokens
            },
            context,
        );
    } else {
        law_bump_yields_the_kind(p, kind, context);
        law_bump_moves_to_next(p.tokens, context);
    }
}

// ---------------------------------------------------------------------------------------------
// Bumping.
// ---------------------------------------------------------------------------------------------
/// Bumping a token, as the kind that is given or as the kind that it has, bumps the current token as
/// that kind and nothing more.
pub proof fn law_calls_of_bump<'s>()
    ensures
        forall|p: &mut Parser<'s>, kind: JsSyntaxKind|
            #![trigger call_ensures(Parser::<'s>::bump, (p, kind), ())]
            p@.inv() && call_ensures(Parser::<'s>::bump, (p, kind), ()) ==> is_bumped(
                p@,
                kind,
                LexContextView::Regular,
                final(p)@,
            ),
        forall|p: &mut Parser<'s>, kind: JsSyntaxKind|
            #![trigger call_ensures(Parser::<'s>::bump_remap, (p, kind), ())]
            p@.inv() && call_ensures(Parser::<'s>::bump_remap, (p, kind), ()) ==> is_bumped(
                p@,
                kind,
                LexContextView::Regular,
                final(p)@,
            ),
        forall|p: &mut Parser<'s>|
            #![trigger call_ensures(Parser::<'s>::bump_any, (p,), ())]
            p@.inv() && call_ensures(Parser::<'s>::bump_any, (p,), ()) ==> is_bumped(
                p@,
                token_at(p@).kind,
                LexContextView::Regular,
                final(p)@,
            ),
        forall|p: &mut Parser<'s>, kind: JsSyntaxKind, context: LexContext|
            #![trigger call_ensures(Parser::<'s>::bump_with_context, (p, kind, context), ())]
            p@.inv() && p@.tokens.can_read(context@) && call_ensures(
                Parser::<'s>::bump_with_context,
                (p, kind, context),
                (),
            ) ==> is_bumped(p@, kind, context@, final(p)@),
{
    let regular = LexContextView::Regular;
    assert forall|p: &mut Parser<'s>, kind: JsSyntaxKind|
        #![trigger call_ensures(Parser::<'s>::bump, (p, kind), ())]
        p@.inv() && call_ensures(Parser::<'s>::bump, (p, kind), ()) implies is_bumped(
        p@,
        kind,
        regular,
        final(p)@,
    ) by {
        lemma_bumped(p@, kind, regular);
    }
    assert forall|p: &mut Parser<'s>, kind: JsSyntaxKind|
        #![trigger call_ensures(Parser::<'s>::bump_remap, (p, kind), ())]
        p@.inv() && call_ensures(Parser::<'s>::bump_remap, (p, kind), ()) implies is_bumped(
        p@,
        kind,
        regular,
        final(p)@,
    ) by {
        lemma_bumped(p@, kind, regular);
    }
    assert forall|p: &mut Parser<'s>|
        #![trigger call_ensures(Parser::<'s>::bump_any, (p,), ())]
        p@.inv() && call_ensures(Parser::<'s>::bump_any, (p,), ()) implies is_bumped(
        p@,
        token_at(p@).kind,
        regular,
        final(p)@,
    ) by {
        lemma_bumped(p@, token_at(p@).kind, regular);
    }
    assert forall|p: &mut Parser<'s>, kind: JsSyntaxKind, context: LexContext|
        #![trigger call_ensures(Parser::<'s>::bump_with_context, (p, kind, context), ())]
        p@.inv() && p@.tokens.can_read(context@) && call_ensures(
            Parser::<'s>::bump_with_context,
            (p, kind, context),
            (),
        ) implies is_bumped(p@, kind, context@, final(p)@) by {
        lemma_bumped(p@, kind, context@);
    }
}

/// Eating or expecting a kind succeeds exactly if the current token is of that kind, and bumps it
/// then. Otherwise eating changes nothing, and expecting adds the report that the kind is missing.
pub proof fn law_calls_of_eat_and_expect<'s>()
    ensures
        forall|p: &mut Parser<'s>, kind: JsSyntaxKind, eaten: bool|
            #![trigger call_ensures(Parser::<'s>::eat, (p, kind), eaten)]
            p@.inv() && call_ensures(Parser::<'s>::eat, (p, kind), eaten) ==> {
                &&& eaten <==> token_at(p@).kind.same(kind)
                &&& eaten ==> is_bumped(p@, kind, LexContextView::Regular, final(p)@)
                &&& !eaten ==> final(p)@ == p@
            },
        forall|p: &mut Parser<'s>, kind: JsSyntaxKind, eaten: bool|
            #![trigger call_ensures(Parser::<'s>::expect, (p, kind), eaten)]
            p@.inv() && call_ensures(Parser::<'s>::expect, (p, kind), eaten) ==> {
                &&& eaten <==> token_at(p@).kind.same(kind)
                &&& eaten ==> is_bumped(p@, kind, LexContextView::Regular, final(p)@)
                &&& !eaten ==> {
                    &&& is_reported(
                        p@.diagnostics,
                        ExpectedToken { kind }.diagnostic_at(p@),
                        final(p)@.diagnostics,
                    )
                    &&& final(p)@ == (ParserView { diagnostics: final(p)@.diagnostics, ..p@ })
                }
            },
{
    assert forall|p: &mut Parser<'s>, kind: JsSyntaxKind, eaten: bool|
        #![trigger call_ensures(Parser::<'s>::eat, (p, kind), eaten)]
        p@.inv() && call_ensures(Parser::<'s>::eat, (p, kind), eaten) implies {
        &&& eaten <==> token_at(p@).kind.same(kind)
        &&& eaten ==> is_bumped(p@, kind, LexContextView::Regular, final(p)@)
        &&& !eaten ==> final(p)@ == p@
    } by {
        lemma_bumped(p@, kind, LexContextView::Regular);
    }
    assert forall|p: &mut Parser<'s>, kind: JsSyntaxKind, eaten: bool|
        #![trigger call_ensures(Parser::<'s>::expect, (p, kind), eaten)]
        p@.inv() && call_ensures(Parser::<'s>::expect, (p, kind), eaten) implies {
        &&& eaten <==> token_at(p@).kind.same(kind)
        &&& eaten ==> is_bumped(p@, kind, LexContextView::Regular, final(p)@)
        &&& !eaten ==> {
            &&& is_reported(
                p@.diagnostics,
                ExpectedToken { kind }.diagnostic_at(p@),
                final(p)@.diagnostics,
            )
            &&& final(p)@ == (ParserView { diagnostics: final(p)@.diagnostics, ..p@ })
        }
    } by {
        lemma_bumped(p@, kind, LexContextView::Regular);
        law_error_elsewhere_is_kept(p@, ExpectedToken { kind }.diagnostic_at(p@));
    }
}

/// Wrapping an unexpected token adds exactly three events, unless the parser skips: the start of a
/// node of the given kind at the current token, the token with the kind and the range that it has,
/// and the end of the node where the token ends. Then, skipping or not, the error is reported.
pub proof fn law_calls_of_err_and_bump<'s, E: ToDiagnostic>()
    ensures
        forall|p: &mut Parser<'s>, err: E, kind: JsSyntaxKind|
            #![trigger call_ensures(Parser::<'s>::err_and_bump::<E>, (p, err, kind), ())]
            p@.inv() && p@.can_wrap_cur() && !p@.skipping && !token_at(p@).unicode_escape
                && call_ensures(Parser::<'s>::err_and_bump::<E>, (p, err, kind), ()) ==> {
                let token = token_at(p@);
                &&& final(p)@.events == p@.events + seq![
                    Event::Start { kind, start: token.range.start, forward_parent: None },
                    Event::Token { kind: token.kind, range: token.range },
                    Event::Finish { end: token.range.end },
                ]
                &&& final(p)@.last_token_event_pos == Some((p@.events.len() + 1) as u32)
                &&& is_moved(p@.tokens, LexContextView::Regular, final(p)@.tokens)
                &&& is_reported(
                    p@.diagnostics,
                    err.diagnostic_at(ParserView { diagnostics: p@.diagnostics, ..final(p)@ }),
                    final(p)@.diagnostics,
                )
                &&& same_file(p@, final(p)@)
            },
        forall|p: &mut Parser<'s>, err: E, kind: JsSyntaxKind|
            #![trigger call_ensures(Parser::<'s>::err_and_bump::<E>, (p, err, kind), ())]
            call_ensures(Parser::<'s>::err_and_bump::<E>, (p, err, kind), ()) ==> {
                let wrapped = p@.cur_wrapped(kind);
                &&& is_reported(
                    wrapped.diagnostics,
                    err.diagnostic_at(wrapped),
                    final(p)@.diagnostics,
                )
                &&& final(p)@ == (ParserView { diagnostics: final(p)@.diagnostics, ..wrapped })
            },
{
    assert forall|p: &mut Parser<'s>, err: E, kind: JsSyntaxKind|
        #![trigger call_ensures(Parser::<'s>::err_and_bump::<E>, (p, err, kind), ())]
        call_ensures(Parser::<'s>::err_and_bump::<E>, (p, err, kind), ()) implies {
        let wrapped = p@.cur_wrapped(kind);
        &&& is_reported(wrapped.diagnostics, err.diagnostic_at(wrapped), final(p)@.diagnostics)
        &&& final(p)@ == (ParserView { diagnostics: final(p)@.diagnostics, ..wrapped })
    } by {
        let wrapped = p@.cur_wrapped(kind);
        law_error_elsewhere_is_kept(wrapped, err.diagnostic_at(wrapped));
    }
    assert forall|p: &mut Parser<'s>, err: E, kind: JsSyntaxKind|
        #![trigger call_ensures(Parser::<'s>::err_and_bump::<E>, (p, err, kind), ())]
        p@.inv() && p@.can_wrap_cur() && !p@.skipping && !token_at(p@).unicode_escape
            && call_ensures(Parser::<'s>::err_and_bump::<E>, (p, err, kind), ()) implies {
        let token = token_at(p@);
        &&& final(p)@.events == p@.events + seq![
            Event::Start { kind, start: token.range.start, forward_parent: None },
            Event::Token { kind: token.kind, range: token.range },
            Event::Finish { end: token.range.end },
        ]
        &&& final(p)@.last_token_event_pos == Some((p@.events.len() + 1) as u32)
        &&& is_moved(p@.tokens, LexContextView::Regular, final(p)@.tokens)
        &&& is_reported(
            p@.diagnostics,
            err.diagnostic_at(ParserView { diagnostics: p@.diagnostics, ..final(p)@ }),
            final(p)@.diagnostics,
        )
        &&& same_file(p@, final(p)@)
    } by {
        let wrapped = p@.cur_wrapped(kind);
        law_wrapped_token_keeps_its_kind(p@, kind);
        lemma_bumped(p@, token_at(p@).kind, LexContextView::Regular);
        law_error_elsewhere_is_kept(wrapped, err.diagnostic_at(wrapped));
        assert(wrapped == (ParserView { diagnostics: p@.diagnostics, ..final(p)@ }));
    }
}

// ---------------------------------------------------------------------------------------------
// Looking.
// ---------------------------------------------------------------------------------------------
/// What is seen one token further ahead is what is seen after a bump, no token ahead is the current
/// one, and looking changes nothing.
pub proof fn law_calls_of_nth<'s>()
    ensures
        forall|p: &mut Parser<'s>, n: usize, kind: JsSyntaxKind|
            #![trigger call_ensures(Parser::<'s>::nth, (p, n), kind)]
            p@.inv() && call_ensures(Parser::<'s>::nth, (p, n), kind) ==> {
                &&& final(p)@ == p@
                &&& n == 0 || token_at(p@).kind == JsSyntaxKind::EOF ==> kind == token_at(p@).kind
            },
        forall|p: &mut Parser<'s>, q: &mut Parser<'s>, n: usize, m: usize, ahead: JsSyntaxKind, kind: JsSyntaxKind|
            #![trigger call_ensures(Parser::<'s>::nth, (p, n), ahead), call_ensures(Parser::<'s>::nth, (q, m), kind)]
            p@.inv() && is_moved(p@.tokens, LexContextView::Regular, q@.tokens) && token_at(p@).kind
                != JsSyntaxKind::EOF && n == m + 1 && call_ensures(
                Parser::<'s>::nth,
                (p, n),
                ahead,
            ) && call_ensures(Parser::<'s>::nth, (q, m), kind) ==> ahead == kind,
        forall|p: &mut Parser<'s>, q: &mut Parser<'s>, n: usize, m: usize, ahead: bool, line_break: bool|
            #![trigger call_ensures(Parser::<'s>::has_nth_preceding_line_break, (p, n), ahead), call_ensures(Parser::<'s>::has_nth_preceding_line_break, (q, m), line_break)]
            p@.inv() && is_moved(p@.tokens, LexContextView::Regular, q@.tokens) && token_at(p@).kind
                != JsSyntaxKind::EOF && n == m + 1 && call_ensures(
                Parser::<'s>::has_nth_preceding_line_break,
                (p, n),
                ahead,
            ) && call_ensures(Parser::<'s>::has_nth_preceding_line_break, (q, m), line_break)
                ==> ahead == line_break,
        forall|p: &mut Parser<'s>, n: usize, line_break: bool|
            #![trigger call_ensures(Parser::<'s>::has_nth_preceding_line_break, (p, n), line_break)]
            p@.inv() && call_ensures(
                Parser::<'s>::has_nth_preceding_line_break,
                (p, n),
                line_break,
            ) ==> {
                &&& final(p)@ == p@
                &&& n == 0 ==> line_break == token_at(p@).preceding_line_break
                &&& n > 0 && token_at(p@).kind == JsSyntaxKind::EOF ==> !line_break
            },
        forall|p: &mut Parser<'s>, n: usize, kind: JsSyntaxKind, found: JsSyntaxKind, at: bool|
            #![trigger call_ensures(Parser::<'s>::nth_at, (p, n, kind), at), call_ensures(Parser::<'s>::nth, (p, n), found)]
            call_ensures(Parser::<'s>::nth_at, (p, n, kind), at) && call_ensures(
                Parser::<'s>::nth,
                (p, n),
                found,
            ) ==> at == found.same(kind) && final(p)@ == p@,
{
    assert forall|p: &mut Parser<'s>, n: usize, kind: JsSyntaxKind|
        #![trigger call_ensures(Parser::<'s>::nth, (p, n), kind)]
        p@.inv() && call_ensures(Parser::<'s>::nth, (p, n), kind) implies {
        &&& final(p)@ == p@
        &&& n == 0 || token_at(p@).kind == JsSyntaxKind::EOF ==> kind == token_at(p@).kind
    } by {
        law_looking_ahead_is_looking_after_a_bump(p@.tokens, n as nat);
    }
    assert forall|p: &mut Parser<'s>, q: &mut Parser<'s>, n: usize, m: usize, ahead: JsSyntaxKind, kind: JsSyntaxKind|
        #![trigger call_ensures(Parser::<'s>::nth, (p, n), ahead), call_ensures(Parser::<'s>::nth, (q, m), kind)]
        p@.inv() && is_moved(p@.tokens, LexContextView::Regular, q@.tokens) && token_at(p@).kind
            != JsSyntaxKind::EOF && n == m + 1 && call_ensures(
            Parser::<'s>::nth,
            (p, n),
            ahead,
        ) && call_ensures(Parser::<'s>::nth, (q, m), kind) implies ahead == kind by {
        law_looking_ahead_is_looking_after_a_bump(p@.tokens, m as nat);
        lemma_moved_is_bumped(p@.tokens, q@.tokens);
    }
    assert forall|p: &mut Parser<'s>, q: &mut Parser<'s>, n: usize, m: usize, ahead: bool, line_break: bool|
        #![trigger call_ensures(Parser::<'s>::has_nth_preceding_line_break, (p, n), ahead), call_ensures(Parser::<'s>::has_nth_preceding_line_break, (q, m), line_break)]
        p@.inv() && is_moved(p@.tokens, LexContextView::Regular, q@.tokens) && token_at(p@).kind
            != JsSyntaxKind::EOF && n == m + 1 && call_ensures(
            Parser::<'s>::has_nth_preceding_line_break,
            (p, n),
            ahead,
        ) && call_ensures(
            Parser::<'s>::has_nth_preceding_line_break,
            (q, m),
            line_break,
        ) implies ahead == line_break by {
        law_looking_ahead_is_looking_after_a_bump(p@.tokens, m as nat);
        lemma_moved_is_bumped(p@.tokens, q@.tokens);
    }
    assert forall|p: &mut Parser<'s>, n: usize, line_break: bool|
        #![trigger call_ensures(Parser::<'s>::has_nth_preceding_line_break, (p, n), line_break)]
        p@.inv() && call_ensures(
            Parser::<'s>::has_nth_preceding_line_break,
            (p, n),
            line_break,
        ) implies {
        &&& final(p)@ == p@
        &&& n == 0 ==> line_break == token_at(p@).preceding_line_break
        &&& n > 0 && token_at(p@).kind == JsSyntaxKind::EOF ==> !line_break
    } by {
        law_looking_ahead_is_looking_after_a_bump(p@.tokens, n as nat);
        if n > 0 {
            law_looking_ahead_is_looking_after_a_bump(p@.tokens, (n - 1) as nat);
        }
    }
}

/// There is one way to move to the next token.
proof fn lemma_moved_is_bumped(before: TokenSourceView, after: TokenSourceView)
    requires
        before.inv(),
        is_moved(before, LexContextView::Regular, after),
    ensures
        after == before.bumped(LexContextView::Regular),
{
    law_bump_moves_to_next(before, LexContextView::Regular);
    let bumped = before.bumped(LexContextView::Regular);
    if before.lexed[before.index]->Token_0.kind != JsSyntaxKind::EOF {
        if after.index < bumped.index {
            assert(before.lexed[after.index] is Trivia);
        }
        if bumped.index < after.index {
            assert(before.lexed[bumped.index] is Trivia);
        }
        let len = before.trivia.len() as int;
        assert forall|j: int| 0 <= j < after.trivia.len() implies after.trivia[j]
            == bumped.trivia[j] by {
            if j >= len {
                let i = before.index + 1 + (j - len);
                assert(before.lexed[i] == Lexeme::Trivia(after.trivia[j]));
                assert(before.lexed[i] == Lexeme::Trivia(bumped.trivia[j]));
            }
        }
        assert(after.trivia =~= bumped.trivia);
    }
}

/// What is seen of the current and of the last token is what the lexer read there.
pub proof fn law_calls_that_look<'s>(p: &Parser<'s>, kind: JsSyntaxKind, kinds: TokenSet)
    requires
        p@.inv(),
    ensures
        forall|r: JsSyntaxKind| #[trigger]
            call_ensures(Parser::<'s>::cur, (p,), r) ==> r == token_at(p@).kind,
        forall|r: TextRange| #[trigger]
            call_ensures(Parser::<'s>::cur_range, (p,), r) ==> r == token_at(p@).range,
        forall|r: TextSize| #[trigger]
            call_ensures(Parser::<'s>::position, (p,), r) ==> r == token_at(p@).range.start,
        forall|r: bool| #[trigger]
            call_ensures(Parser::<'s>::at, (p, kind), r) ==> r == token_at(p@).kind.same(kind),
        forall|r: bool| #[trigger]
            call_ensures(Parser::<'s>::at_ts, (p, kinds), r) ==> r == kinds.has_kind(
                token_at(p@).kind,
            ),
        forall|r: bool| #[trigger]
            call_ensures(Parser::<'s>::has_preceding_line_break, (p,), r) ==> r
                == token_at(p@).preceding_line_break,
        forall|r: bool| #[trigger]
            call_ensures(Parser::<'s>::is_module, (p,), r) ==> r == (p@.source_type.module_kind
                == ModuleKind::Module),
        forall|r: Option<JsSyntaxKind>| #[trigger]
            call_ensures(Parser::<'s>::last, (p,), r) ==> {
                &&& r is Some <==> p@.last_token_event_pos is Some
                &&& p@.last_token_event_pos matches Some(pos) ==> r == Some(
                    p@.events[pos as int]->Token_kind,
                )
            },
        forall|r: Option<TextRange>| #[trigger]
            call_ensures(Parser::<'s>::last_range, (p,), r) ==> {
                &&& r is Some <==> p@.last_token_event_pos is Some
                &&& p@.last_token_event_pos matches Some(pos) ==> r == Some(
                    p@.events[pos as int]->range,
                )
            },
        forall|r: &str| #[trigger]
            call_ensures(Parser::<'s>::cur_src, (p,), r) ==> encode_utf8(r@) == encode_utf8(
                p@.tokens.source,
            ).subrange(
                token_at(p@).range.start.raw as int,
                token_at(p@).range.end.raw as int,
            ),
{
    assert(is_lexeme_of(p@.tokens.source, p@.tokens.lexed[p@.tokens.index]));
    law_current_token(p@);
    law_text_in_range_has_its_bytes(p@.tokens.source, token_at(p@).range);
}

/// The source of a range is what is encoded by its bytes.
pub proof fn law_calls_of_source<'s>(p: &Parser<'s>, span: TextRange, text: &'s str)
    requires
        p@.inv(),
        valid_range(p@.tokens.source, span),
        call_ensures(Parser::<'s>::source, (p, span), text),
    ensures
        encode_utf8(text@) == encode_utf8(p@.tokens.source).subrange(
            span.start.raw as int,
            span.end.raw as int,
        ),
{
    law_text_in_range_has_its_bytes(p@.tokens.source, span);
}

// ---------------------------------------------------------------------------------------------
// Creating, finishing, reporting, going back.
// ---------------------------------------------------------------------------------------------
/// A new parser stands at the first token of its source, without events and without reports.
pub proof fn law_calls_of_new<'s>(
    tokens: TokenSource<'s>,
    file_id: usize,
    source_type: SourceType,
    p: Parser<'s>,
)
    requires
        call_ensures(Parser::<'s>::new, (tokens, file_id, source_type), p),
    ensures
        p@.tokens == tokens@,
        p@.file_id == file_id,
        p@.source_type == source_type,
        p@.state.strict <==> source_type.module_kind == ModuleKind::Module,
        p@.events.len() == 0,
        p@.diagnostics.len() == 0,
        p@.last_token_event_pos is None,
        !p@.skipping,
{
}

/// Finishing gives back all events and all trivia, and the reports of the parser before those of the
/// lexer.
pub proof fn law_calls_of_finish<'s>(
    p: Parser<'s>,
    parts: (Vec<Event>, Vec<Trivia>, Vec<ParseDiagnostic>),
)
    requires
        call_ensures(Parser::<'s>::finish, (p,), parts),
    ensures
        parts.0@ == p@.events,
        parts.1@ == p@.tokens.trivia,
        parts.2@.len() == p@.diagnostics.len() + p@.tokens.diagnostics.len(),
        forall|i: int|
            0 <= i < p@.diagnostics.len() ==> (#[trigger] parts.2@[i])@ == p@.diagnostics[i],
        forall|i: int|
            p@.diagnostics.len() <= i < parts.2@.len() ==> (#[trigger] parts.2@[i])@
                == p@.tokens.diagnostics[i - p@.diagnostics.len()],
{
    let all = views(parts.2@);
    assert(all == p@.diagnostics + p@.tokens.diagnostics);
    lemma_models_of_reports(parts.2@);
}

/// The model of a list of reports has the models of its elements.
proof fn lemma_models_of_reports(all: Seq<Diagnostic>)
    ensures
        views(all).len() == all.len(),
        forall|i: int| 0 <= i < all.len() ==> (#[trigger] all[i])@ == views(all)[i],
{
}

/// Starting a node adds the start of a node without a kind at the current token, and returns a
/// marker of that event and that byte.
pub proof fn law_calls_of_start<'s>()
    ensures
        forall|p: &mut Parser<'s>, marker: Marker|
            #![trigger call_ensures(Parser::<'s>::start, (p,), marker)]
            p@.has_room() && call_ensures(Parser::<'s>::start, (p,), marker) ==> {
                let start = token_at(p@).range.start;
                &&& final(p)@.events == p@.events.push(
                    Event::Start { kind: JsSyntaxKind::TOMBSTONE, start, forward_parent: None },
                )
                &&& same_but_events(p@, final(p)@)
                &&& marker@.pos == p@.events.len()
                &&& marker@.start == start
                &&& marker@.old_start == p@.events.len()
                &&& marker@.child_idx is None
            },
{
    assert forall|p: &mut Parser<'s>, marker: Marker|
        #![trigger call_ensures(Parser::<'s>::start, (p,), marker)]
        p@.has_room() && call_ensures(Parser::<'s>::start, (p,), marker) implies {
        let start = token_at(p@).range.start;
        &&& final(p)@.events == p@.events.push(
            Event::Start { kind: JsSyntaxKind::TOMBSTONE, start, forward_parent: None },
        )
        &&& same_but_events(p@, final(p)@)
        &&& marker@.pos == p@.events.len()
        &&& marker@.start == start
        &&& marker@.old_start == p@.events.len()
        &&& marker@.child_idx is None
    } by {
        law_start_adds_a_tombstone(p@);
    }
}

/// Reporting an error adds it, unless it and the last report are syntax errors of the same file at
/// the same byte, and changes nothing else.
pub proof fn law_calls_of_error<'s, E: ToDiagnostic>()
    ensures
        forall|p: &mut Parser<'s>, err: E|
            #![trigger call_ensures(Parser::<'s>::error::<E>, (p, err), ())]
            call_ensures(Parser::<'s>::error::<E>, (p, err), ()) ==> {
                &&& is_reported(p@.diagnostics, err.diagnostic_at(p@), final(p)@.diagnostics)
                &&& final(p)@ == (ParserView { diagnostics: final(p)@.diagnostics, ..p@ })
            },
{
    assert forall|p: &mut Parser<'s>, err: E|
        #![trigger call_ensures(Parser::<'s>::error::<E>, (p, err), ())]
        call_ensures(Parser::<'s>::error::<E>, (p, err), ()) implies {
        &&& is_reported(p@.diagnostics, err.diagnostic_at(p@), final(p)@.diagnostics)
        &&& final(p)@ == (ParserView { diagnostics: final(p)@.diagnostics, ..p@ })
    } by {
        law_error_elsewhere_is_kept(p@, err.diagnostic_at(p@));
    }
}

/// The builders make a syntax error of the parser's file with the given message and without a
/// label, one of them an error and the other a warning. A label is added as it is given.
pub proof fn law_calls_of_builders<'s>(
    p: &Parser<'s>,
    message: &str,
    error: Diagnostic,
    warning: Diagnostic,
    range: TextRange,
    msg: &str,
    labelled: Diagnostic,
)
    requires
        call_ensures(Parser::<'s>::err_builder, (p, message), error),
        call_ensures(Parser::<'s>::warning_builder, (p, message), warning),
        call_ensures(Diagnostic::primary, (error, range, msg), labelled),
    ensures
        error@ == (DiagnosticView {
            file_id: p@.file_id,
            severity: Severity::Error,
            code: Some("SyntaxError"@),
            message: message@,
            primary: None,
        }),
        warning@ == (DiagnosticView { severity: Severity::Warning, ..error@ }),
        labelled@ == (DiagnosticView {
            primary: Some(
                SubDiagnosticView { span: FileSpan { file: p@.file_id, range }, msg: msg@ },
            ),
            ..error@
        }),
{
}

/// A diagnostic repeats another exactly if both are syntax errors of the same file with labels that
/// start at the same byte.
pub proof fn law_calls_of_is_repetition_of(left: &Diagnostic, right: &Diagnostic, repeats: bool)
    requires
        call_ensures(Diagnostic::is_repetition_of, (left, right), repeats),
    ensures
        repeats <==> {
            &&& left@.code == Some("SyntaxError"@)
            &&& right@.code == Some("SyntaxError"@)
            &&& left.file_id == right.file_id
            &&& left.primary matches Some(label) && right.primary matches Some(other)
                && label.span.range.start.raw == other.span.range.start.raw
        },
{
}

/// Going back to a checkpoint that was taken before brings back the current and the last token, and
/// the state, and keeps at most as many events, reports and pieces of trivia as there were.
pub proof fn law_calls_of_checkpoint_and_rewind<'s>()
    ensures
        forall|before: &Parser<'s>, checkpoint: Checkpoint, p: &mut Parser<'s>|
            #![trigger call_ensures(Parser::<'s>::checkpoint, (before,), checkpoint), call_ensures(Parser::<'s>::rewind, (p, checkpoint), ())]
            call_ensures(Parser::<'s>::checkpoint, (before,), checkpoint) && call_ensures(
                Parser::<'s>::rewind,
                (p, checkpoint),
                (),
            ) && p@.can_rewind(before@.recorded()) ==> {
                let after = final(p)@;
                &&& after.events == p@.events.subrange(0, before@.events.len() as int)
                &&& after.diagnostics == at_most(p@.diagnostics, before@.diagnostics.len() as int)
                &&& after.last_token_event_pos == before@.last_token_event_pos
                &&& after.state == before@.state
                &&& after.tokens.index == before@.tokens.index
                &&& after.tokens.trivia == at_most(
                    p@.tokens.trivia,
                    before@.tokens.trivia.len() as int,
                )
                &&& after.tokens.diagnostics == at_most(
                    p@.tokens.diagnostics,
                    before@.tokens.diagnostics.len() as int,
                )
                &&& after.tokens.lexed == p@.tokens.lexed
                &&& after.skipping == p@.skipping
                &&& after.file_id == p@.file_id
                &&& after.source_type == p@.source_type
                &&& after.tokens.source == p@.tokens.source
            },
{
    assert forall|before: &Parser<'s>, checkpoint: Checkpoint, p: &mut Parser<'s>|
        #![trigger call_ensures(Parser::<'s>::checkpoint, (before,), checkpoint), call_ensures(Parser::<'s>::rewind, (p, checkpoint), ())]
        call_ensures(Parser::<'s>::checkpoint, (before,), checkpoint) && call_ensures(
            Parser::<'s>::rewind,
            (p, checkpoint),
            (),
        ) && p@.can_rewind(before@.recorded()) implies {
        let after = final(p)@;
        &&& after.events == p@.events.subrange(0, before@.events.len() as int)
        &&& after.diagnostics == at_most(p@.diagnostics, before@.diagnostics.len() as int)
        &&& after.last_token_event_pos == before@.last_token_event_pos
        &&& after.state == before@.state
        &&& after.tokens.index == before@.tokens.index
        &&& after.tokens.trivia == at_most(
            p@.tokens.trivia,
            before@.tokens.trivia.len() as int,
        )
        &&& after.tokens.diagnostics == at_most(
            p@.tokens.diagnostics,
            before@.tokens.diagnostics.len() as int,
        )
        &&& after.tokens.lexed == p@.tokens.lexed
        &&& after.skipping == p@.skipping
        &&& after.file_id == p@.file_id
        &&& after.source_type == p@.source_type
        &&& after.tokens.source == p@.tokens.source
    } by {
        law_checkpoint_counts(before@);
        law_rewind_cuts(p@, before@.recorded());
    }
}

/// Reading the current token anew goes to the first token of the new reading, returns its kind, and
/// leaves the events, the trivia and the reports of the parser.
pub proof fn law_calls_of_re_lex<'s>()
    ensures
        forall|p: &mut Parser<'s>, context: ReLexContext, kind: JsSyntaxKind|
            #![trigger call_ensures(Parser::<'s>::re_lex, (p, context), kind)]
            p@.tokens.can_re_lex(context@) && call_ensures(
                Parser::<'s>::re_lex,
                (p, context),
                kind,
            ) ==> {
                &&& context.lexemes@[0] matches Lexeme::Token(token) && token.kind == kind
                    && token_at(final(p)@) == token
                &&& final(p)@.tokens == (TokenSourceView {
                    source: p@.tokens.source,
                    lexed: p@.tokens.lexed + context.lexemes@,
                    index: p@.tokens.lexed.len() as int,
                    trivia: p@.tokens.trivia,
                    diagnostics: p@.tokens.diagnostics + views(context.diagnostics@),
                })
                &&& final(p)@ == (ParserView { tokens: final(p)@.tokens, ..p@ })
            },
{
    assert forall|p: &mut Parser<'s>, context: ReLexContext, kind: JsSyntaxKind|
        #![trigger call_ensures(Parser::<'s>::re_lex, (p, context), kind)]
        p@.tokens.can_re_lex(context@) && call_ensures(
            Parser::<'s>::re_lex,
            (p, context),
            kind,
        ) implies {
        &&& context.lexemes@[0] matches Lexeme::Token(token) && token.kind == kind && token_at(
            final(p)@,
        ) == token
        &&& final(p)@.tokens == (TokenSourceView {
            source: p@.tokens.source,
            lexed: p@.tokens.lexed + context.lexemes@,
            index: p@.tokens.lexed.len() as int,
            trivia: p@.tokens.trivia,
            diagnostics: p@.tokens.diagnostics + views(context.diagnostics@),
        })
        &&& final(p)@ == (ParserView { tokens: final(p)@.tokens, ..p@ })
    } by {
        let joined = p@.tokens.lexed + context.lexemes@;
        assert(joined[p@.tokens.lexed.len() as int] == context.lexemes@[0]);
    }
}

/// A source is made of lexemes exactly if they are a reading of the whole text. It then stands at
/// the first token, with the trivia before it passed.
pub proof fn law_calls_of_from_lexemes<'s>(
    source: &'s str,
    lexemes: Vec<Lexeme>,
    diagnostics: Vec<ParseDiagnostic>,
    made: Option<TokenSource<'s>>,
)
    requires
        call_ensures(TokenSource::<'s>::from_lexemes, (source, lexemes, diagnostics), made),
    ensures
        made is Some <==> is_reading(source@, 0, false, lexemes@),
        made matches Some(tokens) ==> moves_to_next(
            TokenSourceView {
                source: source@,
                lexed: lexemes@,
                index: 0,
                trivia: seq![],
                diagnostics: views(diagnostics@),
            },
            0,
            tokens@,
        ),
{
    law_reading_is_accepted(source@, 0, false, lexemes@);
    if made is Some {
        law_source_starts_at_first_token(
            TokenSourceView {
                source: source@,
                lexed: lexemes@,
                index: 0,
                trivia: seq![],
                diagnostics: views(diagnostics@),
            },
        );
    }
}

/// The parser has made progress exactly if no position was captured, or it is behind the one that
/// was. Asserting it captures the position.
pub proof fn law_calls_of_progress<'s>()
    ensures
        forall|progress: &ParserProgress, p: &Parser<'s>, progressed: bool|
            #![trigger call_ensures(ParserProgress::has_progressed, (progress, p), progressed)]
            call_ensures(ParserProgress::has_progressed, (progress, p), progressed) ==> {
                progressed <==> (progress@ is None || token_at(p@).range.start.raw
                    > progress@->0.raw)
            },
        forall|progress: &mut ParserProgress, p: &Parser<'s>|
            #![trigger call_ensures(ParserProgress::assert_progressing, (progress, p), ())]
            call_ensures(ParserProgress::assert_progressing, (progress, p), ()) ==> final(progress)@
                == Some(token_at(p@).range.start),
{
}

// ---------------------------------------------------------------------------------------------
// Markers.
// ---------------------------------------------------------------------------------------------
/// Completing a node gives its start the kind, adds its end where the last token ends, or where the
/// marker starts if that is later, and returns a handle on the two events.
pub proof fn law_calls_of_complete<'s>()
    ensures
        forall|marker: Marker, p: &mut Parser<'s>, kind: JsSyntaxKind, completed: CompletedMarker|
            #![trigger call_ensures(Marker::complete, (marker, p, kind), completed)]
            p@.has_room() && marker@.can_complete(p@) && call_ensures(
                Marker::complete,
                (marker, p, kind),
                completed,
            ) ==> {
                let after = final(p)@;
                let pos = marker@.pos as int;
                let end = after.events.last()->end;
                &&& after.events.len() == p@.events.len() + 1
                &&& same_events_but(p@.events, after.events, pos)
                &&& after.events[pos] == (Event::Start {
                    kind,
                    start: p@.events[pos]->start,
                    forward_parent: p@.events[pos]->forward_parent,
                })
                &&& after.events.last() is Finish
                &&& p@.last_token_event_pos is None ==> end == marker@.start
                &&& p@.last_token_event_pos matches Some(last) ==> {
                    let last_end = p@.events[last as int]->range.end;
                    &&& end == last_end || end == marker@.start
                    &&& end.raw >= last_end.raw
                    &&& end.raw >= marker@.start.raw
                }
                &&& same_but_events(p@, after)
                &&& completed@.start_pos == marker@.pos
                &&& completed@.finish_pos == p@.events.len()
                &&& completed@.kind == kind
                &&& completed@.old_start == if marker@.old_start < marker@.pos {
                    marker@.old_start
                } else {
                    marker@.pos
                }
            },
{
    assert forall|marker: Marker, p: &mut Parser<'s>, kind: JsSyntaxKind, completed: CompletedMarker|
        #![trigger call_ensures(Marker::complete, (marker, p, kind), completed)]
        p@.has_room() && marker@.can_complete(p@) && call_ensures(
            Marker::complete,
            (marker, p, kind),
            completed,
        ) implies {
        let after = final(p)@;
        let pos = marker@.pos as int;
        let end = after.events.last()->end;
        &&& after.events.len() == p@.events.len() + 1
        &&& same_events_but(p@.events, after.events, pos)
        &&& after.events[pos] == (Event::Start {
            kind,
            start: p@.events[pos]->start,
            forward_parent: p@.events[pos]->forward_parent,
        })
        &&& after.events.last() is Finish
        &&& p@.last_token_event_pos is None ==> end == marker@.start
        &&& p@.last_token_event_pos matches Some(last) ==> {
            let last_end = p@.events[last as int]->range.end;
            &&& end == last_end || end == marker@.start
            &&& end.raw >= last_end.raw
            &&& end.raw >= marker@.start.raw
        }
        &&& same_but_events(p@, after)
        &&& completed@.start_pos == marker@.pos
        &&& completed@.finish_pos == p@.events.len()
        &&& completed@.kind == kind
        &&& completed@.old_start == if marker@.old_start < marker@.pos {
            marker@.old_start
        } else {
            marker@.pos
        }
    } by {
        law_complete_sets_kind_and_end(p@, marker@, kind);
    }
}

/// Abandoning a node takes its start off if that is the last event, frees the node that it was to
/// become the parent of, and changes nothing else.
pub proof fn law_calls_of_abandon<'s>()
    ensures
        forall|marker: Marker, p: &mut Parser<'s>|
            #![trigger call_ensures(Marker::abandon, (marker, p), ())]
            marker@.can_abandon(p@) && call_ensures(Marker::abandon, (marker, p), ()) ==> {
                let after = final(p)@;
                let events = p@.events;
                &&& after.events.len() == if marker@.pos == events.len() - 1 {
                    events.len() - 1
                } else {
                    events.len() as int
                }
                &&& marker@.child_idx is None ==> same_events_but(events, after.events, -1)
                &&& marker@.child_idx matches Some(child) ==> {
                    &&& same_events_but(events, after.events, child as int)
                    &&& after.events[child as int] == (Event::Start {
                        kind: events[child as int]->Start_kind,
                        start: events[child as int]->start,
                        forward_parent: None,
                    })
                }
                &&& same_but_events(p@, after)
            },
{
    assert forall|marker: Marker, p: &mut Parser<'s>|
        #![trigger call_ensures(Marker::abandon, (marker, p), ())]
        marker@.can_abandon(p@) && call_ensures(Marker::abandon, (marker, p), ()) implies {
        let after = final(p)@;
        let events = p@.events;
        &&& after.events.len() == if marker@.pos == events.len() - 1 {
            events.len() - 1
        } else {
            events.len() as int
        }
        &&& marker@.child_idx is None ==> same_events_but(events, after.events, -1)
        &&& marker@.child_idx matches Some(child) ==> {
            &&& same_events_but(events, after.events, child as int)
            &&& after.events[child as int] == (Event::Start {
                kind: events[child as int]->Start_kind,
                start: events[child as int]->start,
                forward_parent: None,
            })
        }
        &&& same_but_events(p@, after)
    } by {
        law_abandon_detaches(p@, marker@);
    }
}

/// Preceding a node adds the start of a node without a kind, gives the preceded node the distance to
/// it, and returns a marker of the new node that starts where the preceded one does.
pub proof fn law_calls_of_precede<'s>()
    ensures
        forall|completed: CompletedMarker, p: &mut Parser<'s>, parent: Marker|
            #![trigger call_ensures(CompletedMarker::precede, (completed, p), parent)]
            p@.has_room() && completed@.can_precede(p@) && completed@.start_pos < p@.events.len()
                && call_ensures(CompletedMarker::precede, (completed, p), parent) ==> {
                let after = final(p)@;
                let at = completed@.start_pos as int;
                &&& after.events.len() == p@.events.len() + 1
                &&& same_events_but(p@.events, after.events, at)
                &&& after.events[at] == (Event::Start {
                    kind: p@.events[at]->Start_kind,
                    start: p@.events[at]->start,
                    forward_parent: Some((p@.events.len() - at) as u32),
                })
                &&& after.events.last() == (Event::Start {
                    kind: JsSyntaxKind::TOMBSTONE,
                    start: token_at(p@).range.start,
                    forward_parent: None,
                })
                &&& same_but_events(p@, after)
                &&& parent@.pos == p@.events.len()
                &&& parent@.start == p@.events[completed@.old_start as int]->start
                &&& parent@.old_start == completed@.old_start
                &&& parent@.child_idx == Some(completed@.start_pos as usize)
            },
{
    assert forall|completed: CompletedMarker, p: &mut Parser<'s>, parent: Marker|
        #![trigger call_ensures(CompletedMarker::precede, (completed, p), parent)]
        p@.has_room() && completed@.can_precede(p@) && completed@.start_pos < p@.events.len()
            && call_ensures(CompletedMarker::precede, (completed, p), parent) implies {
        let after = final(p)@;
        let at = completed@.start_pos as int;
        &&& after.events.len() == p@.events.len() + 1
        &&& same_events_but(p@.events, after.events, at)
        &&& after.events[at] == (Event::Start {
            kind: p@.events[at]->Start_kind,
            start: p@.events[at]->start,
            forward_parent: Some((p@.events.len() - at) as u32),
        })
        &&& after.events.last() == (Event::Start {
            kind: JsSyntaxKind::TOMBSTONE,
            start: token_at(p@).range.start,
            forward_parent: None,
        })
        &&& same_but_events(p@, after)
        &&& parent@.pos == p@.events.len()
        &&& parent@.start == p@.events[completed@.old_start as int]->start
        &&& parent@.old_start == completed@.old_start
        &&& parent@.child_idx == Some(completed@.start_pos as usize)
    } by {
        law_precede_adds_a_parent(p@, completed@);
    }
}

/// Undoing a completion leaves tombstones at the start and at the end of the node, at the byte where
/// it starts, and returns a marker of that start.
pub proof fn law_calls_of_undo_completion<'s>()
    ensures
        forall|completed: CompletedMarker, p: &mut Parser<'s>, marker: Marker|
            #![trigger call_ensures(CompletedMarker::undo_completion, (completed, p), marker)]
            completed@.can_undo(p@) && call_ensures(
                CompletedMarker::undo_completion,
                (completed, p),
                marker,
            ) ==> {
                let after = final(p)@;
                let start = completed@.start_pos as int;
                let finish = completed@.finish_pos as int;
                let byte = p@.events[start]->start;
                let tombstone = Event::Start {
                    kind: JsSyntaxKind::TOMBSTONE,
                    start: byte,
                    forward_parent: None,
                };
                &&& after.events.len() == p@.events.len()
                &&& after.events[start] == tombstone
                &&& after.events[finish] == tombstone
                &&& forall|i: int|
                    0 <= i < p@.events.len() && i != start && i != finish
                        ==> #[trigger] after.events[i] == p@.events[i]
                &&& same_but_events(p@, after)
                &&& marker@.pos == completed@.start_pos
                &&& marker@.old_start == completed@.start_pos
                &&& marker@.start == byte
                &&& marker@.child_idx is None
            },
{
    assert forall|completed: CompletedMarker, p: &mut Parser<'s>, marker: Marker|
        #![trigger call_ensures(CompletedMarker::undo_completion, (completed, p), marker)]
        completed@.can_undo(p@) && call_ensures(
            CompletedMarker::undo_completion,
            (completed, p),
            marker,
        ) implies {
        let after = final(p)@;
        let start = completed@.start_pos as int;
        let finish = completed@.finish_pos as int;
        let byte = p@.events[start]->start;
        let tombstone = Event::Start {
            kind: JsSyntaxKind::TOMBSTONE,
            start: byte,
            forward_parent: None,
        };
        &&& after.events.len() == p@.events.len()
        &&& after.events[start] == tombstone
        &&& after.events[finish] == tombstone
        &&& forall|i: int|
            0 <= i < p@.events.len() && i != start && i != finish ==> #[trigger] after.events[i]
                == p@.events[i]
        &&& same_but_events(p@, after)
        &&& marker@.pos == completed@.start_pos
        &&& marker@.old_start == completed@.start_pos
        &&& marker@.start == byte
        &&& marker@.child_idx is None
    } by {
        law_undo_leaves_tombstones(p@, completed@);
    }
}

/// Changing the kind of a node changes the kind of the handle and of the start of the node, and
/// nothing else. The unknown node that a node becomes has the number that the grammar gives for the
/// kind, or is the unknown node of the whole grammar where it gives none.
pub proof fn law_calls_of_change_kind<'s>()
    ensures
        forall|completed: &mut CompletedMarker, p: &mut Parser<'s>, kind: JsSyntaxKind|
            #![trigger call_ensures(CompletedMarker::change_kind, (completed, p, kind), ())]
            completed@.starts_in(p@) && call_ensures(
                CompletedMarker::change_kind,
                (completed, p, kind),
                (),
            ) ==> {
                let at = completed@.start_pos as int;
                &&& final(completed)@ == (CompletedMarkerView { kind, ..completed@ })
                &&& final(p)@.events.len() == p@.events.len()
                &&& same_events_but(p@.events, final(p)@.events, at)
                &&& final(p)@.events[at] == (Event::Start {
                    kind,
                    start: p@.events[at]->start,
                    forward_parent: p@.events[at]->forward_parent,
                })
                &&& same_but_events(p@, final(p)@)
            },
        forall|completed: &mut CompletedMarker, p: &mut Parser<'s>|
            #![trigger call_ensures(CompletedMarker::change_to_unknown, (completed, p), ())]
            completed@.starts_in(p@) && call_ensures(
                CompletedMarker::change_to_unknown,
                (completed, p),
                (),
            ) ==> {
                let at = completed@.start_pos as int;
                let kind = final(completed)@.kind;
                let known = completed@.kind is Other
                    && completed@.kind->Other_0.details.unknown is Some;
                &&& final(completed)@ == (CompletedMarkerView { kind, ..completed@ })
                &&& known ==> kind is Other && kind->Other_0.raw
                    == completed@.kind->Other_0.details.unknown->0
                &&& !known ==> kind == JsSyntaxKind::JS_UNKNOWN
                &&& final(p)@.events.len() == p@.events.len()
                &&& same_events_but(p@.events, final(p)@.events, at)
                &&& final(p)@.events[at] == (Event::Start {
                    kind,
                    start: p@.events[at]->start,
                    forward_parent: p@.events[at]->forward_parent,
                })
                &&& same_but_events(p@, final(p)@)
            },
{
    assert forall|completed: &mut CompletedMarker, p: &mut Parser<'s>, kind: JsSyntaxKind|
        #![trigger call_ensures(CompletedMarker::change_kind, (completed, p, kind), ())]
        completed@.starts_in(p@) && call_ensures(
            CompletedMarker::change_kind,
            (completed, p, kind),
            (),
        ) implies {
        let at = completed@.start_pos as int;
        &&& final(completed)@ == (CompletedMarkerView { kind, ..completed@ })
        &&& final(p)@.events.len() == p@.events.len()
        &&& same_events_but(p@.events, final(p)@.events, at)
        &&& final(p)@.events[at] == (Event::Start {
            kind,
            start: p@.events[at]->start,
            forward_parent: p@.events[at]->forward_parent,
        })
        &&& same_but_events(p@, final(p)@)
    } by {
        law_change_kind_changes_the_kind(p@, completed@, kind);
    }
    assert forall|completed: &mut CompletedMarker, p: &mut Parser<'s>|
        #![trigger call_ensures(CompletedMarker::change_to_unknown, (completed, p), ())]
        completed@.starts_in(p@) && call_ensures(
            CompletedMarker::change_to_unknown,
            (completed, p),
            (),
        ) implies {
        let at = completed@.start_pos as int;
        let kind = final(completed)@.kind;
        let known = completed@.kind is Other && completed@.kind->Other_0.details.unknown is Some;
        &&& final(completed)@ == (CompletedMarkerView { kind, ..completed@ })
        &&& known ==> kind is Other && kind->Other_0.raw
            == completed@.kind->Other_0.details.unknown->0
        &&& !known ==> kind == JsSyntaxKind::JS_UNKNOWN
        &&& final(p)@.events.len() == p@.events.len()
        &&& same_events_but(p@.events, final(p)@.events, at)
        &&& final(p)@.events[at] == (Event::Start {
            kind,
            start: p@.events[at]->start,
            forward_parent: p@.events[at]->forward_parent,
        })
        &&& same_but_events(p@, final(p)@)
    } by {
        law_change_kind_changes_the_kind(p@, completed@, final(completed)@.kind);
    }
}

/// The range of a node goes from the start that its handle refers to, to its end, and its text is
/// encoded by the bytes between them.
pub proof fn law_calls_of_range_and_text<'s>(
    completed: &CompletedMarker,
    p: &Parser<'s>,
    range: TextRange,
    text: &str,
)
    requires
        completed@.has_range(p@),
        valid_range(p@.tokens.source, completed@.range(p@)),
        call_ensures(CompletedMarker::range, (completed, p), range),
        call_ensures(CompletedMarker::text, (completed, p), text),
    ensures
        p@.events[completed@.old_start as int] matches Event::Start { start, .. } && start
            == range.start,
        p@.events[completed@.finish_pos as int] == (Event::Finish { end: range.end }),
        encode_utf8(text@) == encode_utf8(p@.tokens.source).subrange(
            range.start.raw as int,
            range.end.raw as int,
        ),
{
    law_range_is_from_start_to_end(p@, completed@);
    law_text_in_range_has_its_bytes(p@.tokens.source, range);
}

/// What a marker or a handle tells of itself is what it was made with.
pub proof fn law_calls_on_new_markers(
    pos: u32,
    start: TextSize,
    finish_pos: u32,
    kind: JsSyntaxKind,
    marker: Marker,
    completed: CompletedMarker,
)
    requires
        call_ensures(Marker::new, (pos, start), marker),
        call_ensures(CompletedMarker::new, (pos, finish_pos, kind), completed),
    ensures
        marker@ == (MarkerView { pos, start, old_start: pos, child_idx: None }),
        completed@ == (CompletedMarkerView { start_pos: pos, old_start: pos, finish_pos, kind }),
        forall|r: TextSize| #[trigger] call_ensures(Marker::start, (&marker,), r) ==> r == start,
        forall|r: JsSyntaxKind| #[trigger]
            call_ensures(CompletedMarker::kind, (&completed,), r) ==> r == kind,
{
}

// ---------------------------------------------------------------------------------------------
// Explaining a rule.
// ---------------------------------------------------------------------------------------------
/// Whether `messages` explain a rule: a heading with its name, the kind of its own fix, and whether
/// it is recommended with its documentation.
pub open spec fn explains(metadata: RuleMetadata, messages: Seq<String>) -> bool {
    let len = metadata.name@.len() as int;
    &&& messages.len() == 3
    &&& messages[0]@.len() == len + 3
    &&& messages[0]@[0] == '#'
    &&& messages[0]@[1] == ' '
    &&& messages[0]@.subrange(2, len + 2) == metadata.name@
    &&& messages[0]@.last() == '\n'
    &&& metadata.fix_kind == Some(FixKind::Safe) ==> messages[1]@ == "Fix is Safe.\n"@
    &&& metadata.fix_kind == Some(FixKind::Unsafe) ==> messages[1]@ == "Fix is Unsafe.\n"@
    &&& metadata.fix_kind is None ==> messages[1]@ == "No fix available.\n"@
    &&& metadata.recommended ==> messages[2]@
        == "This rule is recommended.\n\n# Description\n"@ + joined(trimmed_lines(metadata.docs@))
    &&& !metadata.recommended ==> messages[2]@
        == "This rule is not recommended.\n\n# Description\n"@ + joined(
        trimmed_lines(metadata.docs@),
    )
}

/// A rule is explained by its name, its own fix, whether it is recommended, and its documentation.
pub proof fn law_calls_of_print_rule(metadata: &RuleMetadata, messages: Vec<String>)
    requires
        call_ensures(print_rule, (metadata,), messages),
    ensures
        explains(*metadata, messages@),
{
    law_title_is_the_name(*metadata);
    law_fix_is_that_of_the_rule(*metadata);
    law_description_tells_and_describes(*metadata);
}

/// What is known is explained as its rule is, and what is not known is an argument that `explain`
/// has no use for.
pub proof fn law_calls_of_explain(doc: Doc, messages: Result<Vec<String>, CliDiagnostic>)
    requires
        call_ensures(explain, (doc,), messages),
    ensures
        doc matches Doc::Rule(metadata) ==> messages is Ok && explains(metadata, messages->Ok_0@),
        doc matches Doc::Unknown(unknown) ==> {
            &&& messages matches Err(CliDiagnostic::UnexpectedArgument { argument, subcommand })
            &&& argument@ == unknown@
            &&& subcommand@ == "explain"@
        },
{
    if let Doc::Rule(metadata) = doc {
        law_title_is_the_name(metadata);
        law_fix_is_that_of_the_rule(metadata);
        law_description_tells_and_describes(metadata);
    }
}

/// Two rules whose fixes are of different kinds get different messages about them.
pub proof fn law_rules_with_other_fixes_differ(
    left: &RuleMetadata,
    right: &RuleMetadata,
    of_left: Vec<String>,
    of_right: Vec<String>,
)
    requires
        call_ensures(print_rule, (left,), of_left),
        call_ensures(print_rule, (right,), of_right),
        left.fix_kind != right.fix_kind,
    ensures
        of_left@[1]@ != of_right@[1]@,
{
    law_fixes_are_told_apart(*left, *right);
}

// ---------------------------------------------------------------------------------------------
// Parsing ahead, and parsing what is skipped.
// ---------------------------------------------------------------------------------------------
/// Looking ahead hands the parser as it is to the function, returns what that returns, and cuts what
/// was added meanwhile: the events, the reports and the trivia are at most as many as before, and
/// the current token, the last token and the state are those of before.
pub proof fn law_calls_of_lookahead<'s, F: FnOnce(&mut Parser<'s>) -> R, R>()
    ensures
        forall|p: &mut Parser<'s>, op: F, result: R|
            #![trigger call_ensures(Parser::<'s>::lookahead::<F, R>, (p, op), result)]
            (forall|q: &mut Parser<'s>, r: R|
                #![trigger op.ensures((q,), r)]
                q@ == p@ && op.ensures((q,), r) ==> final(q)@.can_rewind(p@.recorded()))
                && call_ensures(Parser::<'s>::lookahead::<F, R>, (p, op), result) ==> {
                &&& exists|q: &mut Parser<'s>|
                    #![trigger op.ensures((q,), result)]
                    {
                        &&& q@ == p@
                        &&& op.ensures((q,), result)
                        &&& final(p)@.events == final(q)@.events.subrange(
                            0,
                            p@.events.len() as int,
                        )
                        &&& final(p)@.diagnostics == at_most(
                            final(q)@.diagnostics,
                            p@.diagnostics.len() as int,
                        )
                        &&& final(p)@.tokens.trivia == at_most(
                            final(q)@.tokens.trivia,
                            p@.tokens.trivia.len() as int,
                        )
                    }
                &&& final(p)@.tokens.index == p@.tokens.index
                &&& final(p)@.last_token_event_pos == p@.last_token_event_pos
                &&& final(p)@.state == p@.state
            },
{
    assert forall|p: &mut Parser<'s>, op: F, result: R|
        #![trigger call_ensures(Parser::<'s>::lookahead::<F, R>, (p, op), result)]
        (forall|q: &mut Parser<'s>, r: R|
            #![trigger op.ensures((q,), r)]
            q@ == p@ && op.ensures((q,), r) ==> final(q)@.can_rewind(p@.recorded()))
            && call_ensures(Parser::<'s>::lookahead::<F, R>, (p, op), result) implies {
        &&& exists|q: &mut Parser<'s>|
            #![trigger op.ensures((q,), result)]
            {
                &&& q@ == p@
                &&& op.ensures((q,), result)
                &&& final(p)@.events == final(q)@.events.subrange(0, p@.events.len() as int)
                &&& final(p)@.diagnostics == at_most(
                    final(q)@.diagnostics,
                    p@.diagnostics.len() as int,
                )
                &&& final(p)@.tokens.trivia == at_most(
                    final(q)@.tokens.trivia,
                    p@.tokens.trivia.len() as int,
                )
            }
        &&& final(p)@.tokens.index == p@.tokens.index
        &&& final(p)@.last_token_event_pos == p@.last_token_event_pos
        &&& final(p)@.state == p@.state
    } by {
        let q = choose|q: &mut Parser<'s>|
            #![trigger op.ensures((q,), result)]
            {
                &&& q@ == p@
                &&& op.ensures((q,), result)
                &&& final(p)@ == final(q)@.rewound(p@.recorded())
            };
        assert(op.ensures((q,), result));
        law_checkpoint_counts(p@);
        law_rewind_cuts(final(q)@, p@.recorded());
    }
}

/// Parsing as skipped trivia hands over the parser with nothing changed but that it skips, and then
/// takes off the events that were added. It no longer skips, and all else stays as the function
/// left it.
pub proof fn law_calls_of_parse_as_skipped_trivia_tokens<'s, P: FnOnce(&mut Parser<'s>)>()
    ensures
        forall|p: &mut Parser<'s>, parse: P|
            #![trigger call_ensures(Parser::<'s>::parse_as_skipped_trivia_tokens::<P>, (p, parse), ())]
            call_ensures(Parser::<'s>::parse_as_skipped_trivia_tokens::<P>, (p, parse), ())
                ==> exists|q: &mut Parser<'s>|
                #![trigger parse.ensures((q,), ())]
                {
                    &&& q@ == (ParserView { skipping: true, ..p@ })
                    &&& parse.ensures((q,), ())
                    &&& final(p)@ == (ParserView {
                        events: at_most(final(q)@.events, p@.events.len() as int),
                        skipping: false,
                        ..final(q)@
                    })
                },
{
    assert forall|p: &mut Parser<'s>, parse: P|
        #![trigger call_ensures(Parser::<'s>::parse_as_skipped_trivia_tokens::<P>, (p, parse), ())]
        call_ensures(
            Parser::<'s>::parse_as_skipped_trivia_tokens::<P>,
            (p, parse),
            (),
        ) implies exists|q: &mut Parser<'s>|
        #![trigger parse.ensures((q,), ())]
        {
            &&& q@ == (ParserView { skipping: true, ..p@ })
            &&& parse.ensures((q,), ())
            &&& final(p)@ == (ParserView {
                events: at_most(final(q)@.events, p@.events.len() as int),
                skipping: false,
                ..final(q)@
            })
        } by {
        let q = choose|q: &mut Parser<'s>|
            #![trigger parse.ensures((q,), ())]
            {
                &&& q@ == (ParserView { skipping: true, ..p@ })
                &&& parse.ensures((q,), ())
                &&& final(p)@ == final(q)@.unskipped(p@.events.len() as int)
            };
        assert(parse.ensures((q,), ()));
        law_unskipping_cuts_events(final(q)@, p@.events.len() as int);
    }
}

// ---------------------------------------------------------------------------------------------
// Texts, kinds and lines.
// ---------------------------------------------------------------------------------------------
/// A range is accepted exactly if it cuts the text at character boundaries in order, and the part of
/// the text in it is encoded by its bytes.
pub proof fn law_calls_on_texts(text: &str, range: TextRange, valid: bool)
    requires
        call_ensures(check_range, (text, range), valid),
    ensures
        valid <==> {
            let bytes = encode_utf8(text@);
            range.start.raw <= range.end.raw && range.end.raw <= bytes.len() && is_char_boundary(
                bytes,
                range.start.raw as int,
            ) && is_char_boundary(bytes, range.end.raw as int)
        },
        forall|part: &str|
            valid && #[trigger] call_ensures(slice, (text, range), part) ==> encode_utf8(part@)
                == encode_utf8(text@).subrange(range.start.raw as int, range.end.raw as int),
        forall|found: bool| #[trigger]
            call_ensures(holds_line_break, (text,), found) ==> (found <==> text@.contains('\n')
                || text@.contains('\r') || text@.contains('\u{2028}') || text@.contains(
                '\u{2029}',
            )),
{
    law_line_breaks(text@);
    if valid {
        law_text_in_range_has_its_bytes(text@, range);
    }
}

/// What is told of a kind is what its spelling and its number tell.
pub proof fn law_calls_on_kinds(kind: &JsSyntaxKind, info: KindInfo, text: &'static str)
    requires
        *kind == JsSyntaxKind::Other(info),
    ensures
        forall|keyword: bool| #[trigger]
            call_ensures(JsSyntaxKind::is_keyword, (kind,), keyword) ==> (keyword
                <==> info.details.spelling is Keyword),
        forall|r: Option<&'static str>| #[trigger]
            call_ensures(JsSyntaxKind::to_string, (kind,), r) ==> {
                &&& r is None <==> info.details.spelling is Varying
                &&& info.details.spelling == Spelling::Keyword(text) || info.details.spelling
                    == Spelling::Fixed(text) ==> r is Some && r->0@ == text@
            },
        forall|r: JsSyntaxKind| #[trigger]
            call_ensures(JsSyntaxKind::to_unknown, (kind,), r) ==> match info.details.unknown {
                Some(raw) => r is Other && r->Other_0.raw == raw,
                None => r == JsSyntaxKind::JS_UNKNOWN,
            },
{
}

/// Looking for a kind in a set finds it exactly if one of the kinds that the set was made of is the
/// same.
pub proof fn law_calls_on_sets(kinds: Vec<JsSyntaxKind>, set: TokenSet, kind: JsSyntaxKind)
    requires
        call_ensures(TokenSet::new, (kinds,), set),
    ensures
        forall|found: bool| #[trigger]
            call_ensures(TokenSet::contains, (&set, kind), found) ==> (found <==> exists|i: int|
                0 <= i < kinds@.len() && (#[trigger] kinds@[i]).same(kind)),
{
}

/// A marker and a handle tell the byte and the kind that they refer to.
pub proof fn law_calls_that_look_at_markers(marker: &Marker, completed: &CompletedMarker)
    ensures
        forall|r: TextSize| #[trigger]
            call_ensures(Marker::start, (marker,), r) ==> r == marker@.start,
        forall|r: JsSyntaxKind| #[trigger]
            call_ensures(CompletedMarker::kind, (completed,), r) ==> r == completed@.kind,
{
}

/// The documentation is trimmed line by line: of a text with a line feed, the first line is what
/// comes before it, without a carriage return directly before it and without the white space that
/// it starts with. Behind it come a line feed and the rest, trimmed in the same way, unless nothing
/// stands there.
pub proof fn law_calls_of_trim_lines(
    text: &str,
    line: Seq<char>,
    rest: &str,
    whole: String,
    behind: String,
)
    requires
        !line.contains('\n'),
        text@ == line + seq!['\n'] + rest@,
        call_ensures(trim_lines, (text,), whole),
        call_ensures(trim_lines, (rest,), behind),
    ensures
        ({
            let first = trim_start(
                if line.len() > 0 && line.last() == '\r' {
                    line.subrange(0, line.len() - 1)
                } else {
                    line
                },
            );
            whole@ == if rest@.len() == 0 {
                first
            } else {
                first + seq!['\n'] + behind@
            }
        }),
{
    law_lines_end_at_line_feeds(line, rest@);
    let cut = if line.len() > 0 && line.last() == '\r' {
        line.subrange(0, line.len() - 1)
    } else {
        line
    };
    assert(trimmed_lines(text@) =~= seq![trim_start(cut)] + trimmed_lines(rest@));
    lemma_lines_of_text(rest@);
    lemma_joined_first(trim_start(cut), trimmed_lines(rest@));
}

/// A text that is not empty has a line.
proof fn lemma_lines_of_text(text: Seq<char>)
    ensures
        lines_from(text, 0).len() == 0 <==> text.len() == 0,
{
}

/// Joining lines starts with the first one.
proof fn lemma_joined_first(first: Seq<char>, rest: Seq<Seq<char>>)
    ensures
        joined(seq![first] + rest) == if rest.len() == 0 {
            first
        } else {
            first + seq!['\n'] + joined(rest)
        },
    decreases rest.len(),
{
    let all = seq![first] + rest;
    if rest.len() == 0 {
        assert(all =~= seq![first]);
    } else {
        let fewer = rest.drop_last();
        assert(all.drop_last() =~= seq![first] + fewer);
        lemma_joined_first(first, fewer);
        if fewer.len() == 0 {
            assert(joined(rest) =~= rest[0]);
            assert(joined(all) =~= first + seq!['\n'] + joined(rest));
        } else {
            assert(joined(all) =~= first + seq!['\n'] + joined(rest));
        }
    }
}

// ---------------------------------------------------------------------------------------------
// Testing what can be done.
// ---------------------------------------------------------------------------------------------
/// The tests of a parser tell what its calls ask for: room for events with `u32` indices, a token
/// that does not end the file, a reading of the text, a checkpoint that was reached, and a range
/// that cuts the source.
pub proof fn law_calls_that_test_a_parser<'s>(
    p: &Parser<'s>,
    context: &LexContext,
    reading: &ReLexContext,
    checkpoint: &Checkpoint,
    span: TextRange,
)
    requires
        p@.inv(),
    ensures
        ({
            let token = token_at(p@);
            let ended = token.kind == JsSyntaxKind::EOF;
            let len = p@.events.len();
            &&& forall|r: bool| #[trigger]
                call_ensures(Parser::<'s>::has_room, (p,), r) ==> (r <==> len <= 0xffff_ffff)
            &&& forall|r: bool| #[trigger]
                call_ensures(Parser::<'s>::can_err_and_bump, (p,), r) ==> (r <==> !ended && len
                    <= 0xffff_ffff - (if p@.skipping {
                    1int
                } else {
                    2int
                }))
            &&& forall|r: bool| #[trigger]
                call_ensures(Parser::<'s>::can_bump, (p, context), r) ==> (r <==> (p@.skipping
                    || len <= 0xffff_ffff) && (context matches LexContext::Relexed(next) ==> ended
                    || is_reading(
                    p@.tokens.source,
                    token.range.end.raw as int,
                    false,
                    next.lexemes@,
                )))
            &&& forall|r: bool| #[trigger]
                call_ensures(Parser::<'s>::can_re_lex, (p, reading), r) ==> (r <==> is_reading(
                    p@.tokens.source,
                    token.range.start.raw as int,
                    token.preceding_line_break,
                    reading.lexemes@,
                ) && reading.lexemes@[0] is Token)
            &&& forall|r: bool| #[trigger]
                call_ensures(Parser::<'s>::can_rewind, (p, checkpoint), r) ==> (r <==> 0
                    <= checkpoint@.event_pos <= len && 0 <= checkpoint@.token_source.index
                    < p@.tokens.lexed.len()
                    && p@.tokens.lexed[checkpoint@.token_source.index] is Token)
            &&& forall|r: bool| #[trigger]
                call_ensures(Parser::<'s>::has_source, (p, span), r) ==> {
                    let bytes = encode_utf8(p@.tokens.source);
                    r <==> span.start.raw <= span.end.raw && span.end.raw <= bytes.len()
                        && is_char_boundary(bytes, span.start.raw as int) && is_char_boundary(
                        bytes,
                        span.end.raw as int,
                    )
                }
        }),
{
    law_when_a_token_can_be_bumped(p@, context@);
    law_when_a_reading_can_be_used(p@.tokens, context@, reading@);
    law_when_a_parser_can_go_back(p@, checkpoint@);
    law_when_a_range_cuts(p@.tokens.source, span);
}

/// The tests of a marker and of a handle tell whether the events that they refer to are there and
/// start or finish a node.
pub proof fn law_calls_that_test_markers<'s>(
    p: &Parser<'s>,
    marker: &Marker,
    completed: &CompletedMarker,
)
    ensures
        ({
            let events = p@.events;
            let pos = marker@.pos as int;
            let start = completed@.start_pos as int;
            let old_start = completed@.old_start as int;
            let finish = completed@.finish_pos as int;
            &&& forall|r: bool| #[trigger]
                call_ensures(Marker::can_complete, (marker, p), r) ==> (r <==> pos < events.len()
                    && events[pos] is Start)
            &&& forall|r: bool| #[trigger]
                call_ensures(CompletedMarker::starts_in, (completed, p), r) ==> (r <==> start
                    < events.len() && events[start] is Start)
            &&& forall|r: bool| #[trigger]
                call_ensures(CompletedMarker::can_undo, (completed, p), r) ==> (r <==> start
                    < events.len() && finish < events.len() && events[start] is Start
                    && events[start]->forward_parent is None && events[finish] is Finish)
            &&& forall|r: bool| #[trigger]
                call_ensures(CompletedMarker::has_range, (completed, p), r) ==> (r <==> old_start
                    < events.len() && finish < events.len() && events[old_start] is Start
                    && events[finish] is Finish && events[old_start]->start.raw
                    <= events[finish]->end.raw)
            &&& forall|r: bool| #[trigger]
                call_ensures(CompletedMarker::can_precede, (completed, p), r) && start
                    < events.len() ==> (r <==> events[start] is Start && old_start <= start
                    && events[old_start] is Start)
            &&& forall|r: bool| #[trigger]
                call_ensures(Marker::can_abandon, (marker, p), r) && events.len() > 0 && pos
                    != events.len() - 1 ==> (r <==> (marker@.child_idx matches Some(child) ==> child
                    < events.len() && events[child as int] is Start))
            &&& forall|r: bool| #[trigger]
                call_ensures(Marker::can_abandon, (marker, p), r) && pos == events.len() - 1 ==> (r
                    <==> events[pos] is Start && events[pos]->Start_kind == JsSyntaxKind::TOMBSTONE
                    && events[pos]->forward_parent is None && (
                marker@.child_idx matches Some(child) ==> child < pos
                    && events[child as int] is Start))
        }),
{
    law_when_markers_can_be_used(p@, marker@, completed@);
}

// ---------------------------------------------------------------------------------------------
// Token sources, and the smaller parts.
// ---------------------------------------------------------------------------------------------
/// What is seen of the current token of a source is what the lexer read there.
pub proof fn law_calls_that_look_at_a_source<'s>(tokens: &TokenSource<'s>)
    requires
        tokens@.inv(),
    ensures
        ({
            let token = tokens@.lexed[tokens@.index]->Token_0;
            &&& forall|r: JsSyntaxKind| #[trigger]
                call_ensures(TokenSource::<'s>::current, (tokens,), r) ==> r == token.kind
            &&& forall|r: TextRange| #[trigger]
                call_ensures(TokenSource::<'s>::current_range, (tokens,), r) ==> r == token.range
            &&& forall|r: TextSize| #[trigger]
                call_ensures(TokenSource::<'s>::position, (tokens,), r) ==> r == token.range.start
            &&& forall|r: bool| #[trigger]
                call_ensures(TokenSource::<'s>::has_preceding_line_break, (tokens,), r) ==> r
                    == token.preceding_line_break
            &&& forall|r: bool| #[trigger]
                call_ensures(TokenSource::<'s>::has_unicode_escape, (tokens,), r) ==> r
                    == token.unicode_escape
            &&& forall|r: &'s str| #[trigger]
                call_ensures(TokenSource::<'s>::source, (tokens,), r) ==> r@ == tokens@.source
        }),
{
}

/// A source moves, skips and looks ahead as the parser on it does.
pub proof fn law_calls_that_move_a_source<'s>()
    ensures
        forall|tokens: &mut TokenSource<'s>, context: LexContext|
            #![trigger call_ensures(TokenSource::<'s>::bump, (tokens, context), ())]
            tokens@.inv() && tokens@.can_read(context@) && call_ensures(
                TokenSource::<'s>::bump,
                (tokens, context),
                (),
            ) ==> is_moved(tokens@, context@, final(tokens)@),
        forall|tokens: &mut TokenSource<'s>, context: LexContext|
            #![trigger call_ensures(TokenSource::<'s>::skip_as_trivia, (tokens, context), ())]
            tokens@.inv() && tokens@.can_read(context@) && call_ensures(
                TokenSource::<'s>::skip_as_trivia,
                (tokens, context),
                (),
            ) ==> {
                let token = tokens@.lexed[tokens@.index]->Token_0;
                &&& token.kind == JsSyntaxKind::EOF ==> final(tokens)@ == tokens@
                &&& token.kind != JsSyntaxKind::EOF ==> is_moved(
                    TokenSourceView {
                        trivia: tokens@.trivia.push(
                            Trivia { kind: TriviaPieceKind::Skipped, range: token.range },
                        ),
                        ..tokens@
                    },
                    context@,
                    final(tokens)@,
                )
            },
        forall|tokens: &mut TokenSource<'s>, p: &mut Parser<'s>, n: usize, ahead: JsSyntaxKind, kind: JsSyntaxKind|
            #![trigger call_ensures(TokenSource::<'s>::nth, (tokens, n), ahead), call_ensures(Parser::<'s>::nth, (p, n), kind)]
            tokens@ == p@.tokens && call_ensures(TokenSource::<'s>::nth, (tokens, n), ahead)
                && call_ensures(Parser::<'s>::nth, (p, n), kind) ==> ahead == kind
                && final(tokens)@ == tokens@,
        forall|tokens: &mut TokenSource<'s>, p: &mut Parser<'s>, n: usize, ahead: bool, line_break: bool|
            #![trigger call_ensures(TokenSource::<'s>::has_nth_preceding_line_break, (tokens, n), ahead), call_ensures(Parser::<'s>::has_nth_preceding_line_break, (p, n), line_break)]
            tokens@ == p@.tokens && call_ensures(
                TokenSource::<'s>::has_nth_preceding_line_break,
                (tokens, n),
                ahead,
            ) && call_ensures(Parser::<'s>::has_nth_preceding_line_break, (p, n), line_break)
                ==> ahead == line_break && final(tokens)@ == tokens@,
{
    assert forall|tokens: &mut TokenSource<'s>, context: LexContext|
        #![trigger call_ensures(TokenSource::<'s>::bump, (tokens, context), ())]
        tokens@.inv() && tokens@.can_read(context@) && call_ensures(
            TokenSource::<'s>::bump,
            (tokens, context),
            (),
        ) implies is_moved(tokens@, context@, final(tokens)@) by {
        law_bump_moves_to_next(tokens@, context@);
    }
    assert forall|tokens: &mut TokenSource<'s>, context: LexContext|
        #![trigger call_ensures(TokenSource::<'s>::skip_as_trivia, (tokens, context), ())]
        tokens@.inv() && tokens@.can_read(context@) && call_ensures(
            TokenSource::<'s>::skip_as_trivia,
            (tokens, context),
            (),
        ) implies {
        let token = tokens@.lexed[tokens@.index]->Token_0;
        &&& token.kind == JsSyntaxKind::EOF ==> final(tokens)@ == tokens@
        &&& token.kind != JsSyntaxKind::EOF ==> is_moved(
            TokenSourceView {
                trivia: tokens@.trivia.push(
                    Trivia { kind: TriviaPieceKind::Skipped, range: token.range },
                ),
                ..tokens@
            },
            context@,
            final(tokens)@,
        )
    } by {
        let token = tokens@.lexed[tokens@.index]->Token_0;
        let passed = TokenSourceView {
            trivia: tokens@.trivia.push(
                Trivia { kind: TriviaPieceKind::Skipped, range: token.range },
            ),
            ..tokens@
        };
        law_skip_passes_the_token(tokens@, context@);
        law_bump_moves_to_next(passed, context@);
    }
}

/// The smaller parts hold and tell what they are made of.
pub proof fn law_calls_of_small_parts(
    file_id: usize,
    code: &str,
    message: &str,
    kind: JsSyntaxKind,
    start: TextSize,
    other: TextSize,
    c: char,
)
    ensures
        forall|d: Diagnostic| #[trigger]
            call_ensures(Diagnostic::error, (file_id, code, message), d) ==> d@ == (
            DiagnosticView {
                file_id,
                severity: Severity::Error,
                code: Some(code@),
                message: message@,
                primary: None,
            }),
        forall|d: Diagnostic| #[trigger]
            call_ensures(Diagnostic::warning, (file_id, code, message), d) ==> d@ == (
            DiagnosticView {
                file_id,
                severity: Severity::Warning,
                code: Some(code@),
                message: message@,
                primary: None,
            }),
        forall|r: ExpectedToken| #[trigger]
            call_ensures(expected_token, (kind,), r) ==> r.kind == kind,
        forall|e: Event| #[trigger]
            call_ensures(Event::tombstone, (start,), e) ==> e == (Event::Start {
                kind: JsSyntaxKind::TOMBSTONE,
                start,
                forward_parent: None,
            }),
        forall|r: TextSize| #[trigger]
            call_ensures(TextSize::max, (start, other), r) ==> (r == start || r == other) && r.raw
                >= start.raw && r.raw >= other.raw,
        forall|white: bool| #[trigger]
            call_ensures(has_white_space, (c,), white) ==> white == is_white_space(c),
        forall|name: &'static str| #[trigger]
            call_ensures(FixKind::name, (&FixKind::Safe,), name) ==> name@ == "Safe"@,
        forall|name: &'static str| #[trigger]
            call_ensures(FixKind::name, (&FixKind::Unsafe,), name) ==> name@ == "Unsafe"@,
{
}

} // verus!
