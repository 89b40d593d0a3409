//! What holds of a parser as a whole.
use crate::diagnostic::DiagnosticView;
use crate::event::Event;
use crate::marker::{CompletedMarkerView, MarkerView};
use crate::parser::ParserView;
use crate::syntax::{JsSyntaxKind, TriviaPieceKind};
use crate::text::{
    gap, has_line_break, lemma_line_break_in_parts, lemma_text_in_split, text_in, valid_range,
    TextRange, TextSize,
};
use crate::token_source::{
    covers, is_flagged, is_joined, is_lexeme_of, is_run, lemma_bumped, lemma_filled,
    lemma_next_token, lemma_next_token_behind, lemma_next_token_prefix, next_token, some_covers,
    trivia_between, LexContextView, Lexeme, ReLexContextView, TokenSourceView, Trivia,
};
use vstd::prelude::*;
use vstd::utf8::{encode_utf8, is_char_boundary};

verus! {

// ---------------------------------------------------------------------------------------------
// Nothing of the source text is lost, and nothing is there twice.
// ---------------------------------------------------------------------------------------------
/// Whether `byte` lies in a token among `events`.
pub open spec fn in_token(events: Seq<Event>, byte: int) -> bool {
    exists|i: int|
        0 <= i < events.len() && (#[trigger] events[i]) is Token && covers(events[i]->range, byte)
}

/// Whether `byte` lies in a piece of `trivia`.
pub open spec fn in_trivia(trivia: Seq<Trivia>, byte: int) -> bool {
    exists|i: int| 0 <= i < trivia.len() && covers((#[trigger] trivia[i]).range, byte)
}

/// Whether `byte` of the source text lies in a token event or in the trivia of a parser.
pub open spec fn is_kept(p: ParserView, byte: int) -> bool {
    in_token(p.events, byte) || in_trivia(p.tokens.trivia, byte)
}

/// Whether `byte` of the source text lies in exactly one token event or piece of trivia.
pub open spec fn is_kept_once(p: ParserView, byte: int) -> bool {
    let events = p.events;
    let trivia = p.tokens.trivia;
    &&& is_kept(p, byte)
    &&& !(in_token(events, byte) && in_trivia(trivia, byte))
    &&& forall|i: int, j: int|
        0 <= i < events.len() && 0 <= j < events.len() && (#[trigger] events[i]) is Token && (
        #[trigger] events[j]) is Token && covers(events[i]->range, byte) && covers(
            events[j]->range,
            byte,
        ) ==> i == j
    &&& forall|i: int, j: int|
        0 <= i < trivia.len() && 0 <= j < trivia.len() && covers(
            (#[trigger] trivia[i]).range,
            byte,
        ) && covers((#[trigger] trivia[j]).range, byte) ==> i == j
}

/// Whether `left` ends no later than `right` starts.
pub open spec fn ends_before(left: TextRange, right: TextRange) -> bool {
    left.end.raw <= right.start.raw
}

/// Whether the tokens among `events` are in the order of the source text, without overlap.
pub open spec fn tokens_rise(events: Seq<Event>) -> bool {
    forall|i: int, j: int|
        0 <= i < j < events.len() && (#[trigger] events[i]) is Token && (#[trigger] events[j])
            is Token ==> ends_before(events[i]->range, events[j]->range)
}

/// Whether the pieces of `trivia` are in the order of the source text, without overlap.
pub open spec fn trivia_rises(trivia: Seq<Trivia>) -> bool {
    forall|i: int, j: int|
        0 <= i < j < trivia.len() ==> ends_before(
            (#[trigger] trivia[i]).range,
            (#[trigger] trivia[j]).range,
        )
}

/// Whether no token among `events` overlaps a piece of `trivia`.
pub open spec fn are_apart(events: Seq<Event>, trivia: Seq<Trivia>) -> bool {
    forall|i: int, j: int|
        0 <= i < events.len() && 0 <= j < trivia.len() && (#[trigger] events[i]) is Token
            ==> ends_before(events[i]->range, (#[trigger] trivia[j]).range) || ends_before(
            trivia[j].range,
            events[i]->range,
        )
}

/// Whether no token among `events` and no piece of `trivia` ends behind `position`.
pub open spec fn are_passed(events: Seq<Event>, trivia: Seq<Trivia>, position: TextSize) -> bool {
    &&& forall|i: int|
        0 <= i < events.len() && (#[trigger] events[i]) is Token ==> events[i]->range.end.raw
            <= position.raw
    &&& forall|i: int| 0 <= i < trivia.len() ==> (#[trigger] trivia[i]).range.end.raw <= position.raw
}

/// Whether the tokens among `events` and the pieces of `trivia` are each in the order of the source
/// text, do not overlap, and end no later than `position`.
pub open spec fn is_in_order(events: Seq<Event>, trivia: Seq<Trivia>, position: TextSize) -> bool {
    &&& tokens_rise(events)
    &&& trivia_rises(trivia)
    &&& are_apart(events, trivia)
    &&& are_passed(events, trivia, position)
}

/// Whether all of the source text before the current token, and no more, is kept in tokens and
/// in trivia that do not overlap and are in the order of the text.
pub open spec fn is_lossless(p: ParserView) -> bool {
    &&& forall|byte: int| 0 <= byte < p.tokens.position().raw ==> #[trigger] is_kept(p, byte)
    &&& is_in_order(p.events, p.tokens.trivia, p.tokens.position())
}

/// Whether no token among `events` is empty.
pub open spec fn no_token_is_empty(events: Seq<Event>) -> bool {
    forall|i: int|
        0 <= i < events.len() && (#[trigger] events[i]) is Token ==> events[i]->range.start.raw
            < events[i]->range.end.raw
}

/// A new parser has lost nothing: what stands before the first token is trivia.
pub proof fn law_new_is_lossless(p: ParserView, lexed: Seq<Lexeme>)
    requires
        is_run(p.tokens.source, 0, false, lexed),
        p.tokens == (TokenSourceView { lexed, index: 0, trivia: seq![], ..p.tokens }).read_from(0),
        p.events.len() == 0,
    ensures
        is_lossless(p),
        last_is_latest(p),
{
    lemma_next_token(lexed, 0);
    assert(p.tokens.inv());
    let to = p.tokens.index;
    lemma_in_order(p.tokens, 0, to);
    assert forall|byte: int| 0 <= byte < p.tokens.position().raw implies #[trigger] is_kept(
        p,
        byte,
    ) by {
        lemma_filled(p.tokens, 0, to);
        assert(some_covers(lexed, 0, to, byte));
        let i = choose|i: int| 0 <= i < to && covers((#[trigger] lexed[i]).span(), byte);
        assert(p.tokens.trivia[i] == lexed[i]->Trivia_0);
    }
    assert forall|i: int| 0 <= i < to implies (#[trigger] p.tokens.trivia[i]).range
        == lexed[i].span() by {}
}

/// Bumping loses nothing: the token becomes an event or, while the parser skips, trivia, and
/// what stands before the next token becomes trivia. A token that does not end the file is not
/// empty.
pub proof fn law_bump_is_lossless(p: ParserView, kind: JsSyntaxKind, context: LexContextView)
    requires
        p.inv(),
        p.can_bump(context),
        is_lossless(p),
    ensures
        is_lossless(p.bumped(kind, context)),
        no_token_is_empty(p.events) && !p.tokens.at_end() ==> no_token_is_empty(
            p.bumped(kind, context).events,
        ),
{
    let after = p.bumped(kind, context);
    let tokens = p.tokens;
    assert(is_lexeme_of(tokens.source, tokens.lexed[tokens.index]));
    if tokens.at_end() {
        assert forall|byte: int| 0 <= byte < after.tokens.position().raw implies #[trigger] is_kept(
            after,
            byte,
        ) by {
            assert(is_kept(p, byte));
            lemma_kept_in_longer(p, after, byte);
        }
    } else {
        let from = match context {
            LexContextView::Regular => tokens.index + 1,
            LexContextView::Relexed(_) => tokens.lexed.len() as int,
        };
        lemma_bumped(tokens, context);
        let to = after.tokens.index;
        match context {
            LexContextView::Regular => {
                assert(is_joined(tokens.lexed, tokens.index));
                assert(tokens.index != tokens.lexed.len() - 1);
            },
            LexContextView::Relexed(reading) => {
                assert(after.tokens.lexed[from] == reading.lexemes[0]);
            },
        }
        lemma_next_token(after.tokens.lexed, from);
        assert(after.tokens.lexed[from].span().start == tokens.token().range.end);
        let skipped = if p.skipping {
            1int
        } else {
            0int
        };
        let old_len = tokens.trivia.len() as int;
        let trivia = after.tokens.trivia;
        assert(trivia.len() == old_len + skipped + (to - from));
        assert forall|byte: int| 0 <= byte < after.tokens.position().raw implies #[trigger] is_kept(
            after,
            byte,
        ) by {
            lemma_filled(after.tokens, from, to);
            if byte < tokens.position().raw {
                assert(is_kept(p, byte));
                lemma_kept_in_longer(p, after, byte);
            } else if byte < tokens.token().range.end.raw {
                if p.skipping {
                    assert(trivia[old_len].range == tokens.token().range);
                } else {
                    assert(after.events[p.events.len() as int]->range == tokens.token().range);
                }
            } else {
                assert(some_covers(after.tokens.lexed, from, to, byte));
                let i = choose|i: int|
                    from <= i < to && covers((#[trigger] after.tokens.lexed[i]).span(), byte);
                assert(trivia[old_len + skipped + (i - from)] == after.tokens.lexed[i]->Trivia_0);
            }
        }
        let passed = trivia_between(after.tokens.lexed, from, to);
        let end = tokens.token().range.end;
        lemma_in_order(after.tokens, from, to);
        assert forall|i: int| 0 <= i < passed.len() implies (#[trigger] passed[i]).range
            == after.tokens.lexed[from + i].span() by {}
        if p.skipping {
            let piece = Trivia { kind: TriviaPieceKind::Skipped, range: tokens.token().range };
            lemma_trivia_added(p.events, tokens.trivia, tokens.position(), seq![piece], end);
            assert(tokens.trivia + seq![piece] =~= tokens.trivia.push(piece));
            lemma_trivia_added(
                p.events,
                tokens.trivia.push(piece),
                end,
                passed,
                after.tokens.position(),
            );
        } else {
            let token = after.events[p.events.len() as int];
            lemma_token_added(p.events, tokens.trivia, tokens.position(), token);
            lemma_trivia_added(
                p.events.push(token),
                tokens.trivia,
                end,
                passed,
                after.tokens.position(),
            );
        }
    }
}

/// Adding a token that starts no earlier than what is there ends keeps the order.
proof fn lemma_token_added(events: Seq<Event>, trivia: Seq<Trivia>, position: TextSize, token: Event)
    requires
        is_in_order(events, trivia, position),
        token is Token,
        position.raw <= token->range.start.raw <= token->range.end.raw,
    ensures
        is_in_order(events.push(token), trivia, token->range.end),
{
    let added = events.push(token);
    assert forall|i: int, j: int|
        0 <= i < added.len() && 0 <= j < trivia.len() && (#[trigger] added[i]) is Token implies ends_before(
        added[i]->range,
        (#[trigger] trivia[j]).range,
    ) || ends_before(trivia[j].range, added[i]->range) by {
        if i < events.len() {
            assert(added[i] == events[i]);
        }
    }
    assert forall|i: int|
        0 <= i < added.len() && (#[trigger] added[i]) is Token implies added[i]->range.end.raw
        <= token->range.end.raw by {
        if i < events.len() {
            assert(added[i] == events[i]);
        }
    }
}

/// Adding trivia that starts no earlier than what is there ends keeps the order.
proof fn lemma_trivia_added(
    events: Seq<Event>,
    trivia: Seq<Trivia>,
    position: TextSize,
    more: Seq<Trivia>,
    end: TextSize,
)
    requires
        is_in_order(events, trivia, position),
        position.raw <= end.raw,
        trivia_rises(more),
        forall|i: int|
            0 <= i < more.len() ==> position.raw <= (#[trigger] more[i]).range.start.raw
                && more[i].range.end.raw <= end.raw,
    ensures
        is_in_order(events, trivia + more, end),
{
    let added = trivia + more;
    let len = trivia.len() as int;
    assert forall|i: int| 0 <= i < added.len() implies (#[trigger] added[i]) == if i < len {
        trivia[i]
    } else {
        more[i - len]
    } by {}
    assert forall|i: int, j: int| 0 <= i < j < added.len() implies ends_before(
        (#[trigger] added[i]).range,
        (#[trigger] added[j]).range,
    ) by {
        if j < len {
            assert(ends_before(trivia[i].range, trivia[j].range));
        } else if i >= len {
            assert(ends_before(more[i - len].range, more[j - len].range));
        }
    }
    assert forall|i: int, j: int|
        0 <= i < events.len() && 0 <= j < added.len() && (#[trigger] events[i]) is Token implies ends_before(
        events[i]->range,
        (#[trigger] added[j]).range,
    ) || ends_before(added[j].range, events[i]->range) by {
        if j < len {
            assert(added[j] == trivia[j]);
        }
    }
}

/// The lexemes between two tokens follow one another without overlap.
proof fn lemma_in_order(view: TokenSourceView, from: int, to: int)
    requires
        view.inv(),
        0 <= from <= to < view.lexed.len(),
        forall|i: int| from <= i < to ==> !(#[trigger] view.lexed[i]).ends_file(),
    ensures
        forall|i: int|
            from <= i < to ==> view.lexed[from].span().start.raw <= (
            #[trigger] view.lexed[i]).span().start.raw && ends_before(
                view.lexed[i].span(),
                view.lexed[to].span(),
            ),
        forall|i: int, j: int|
            from <= i < j < to ==> ends_before(
                (#[trigger] view.lexed[i]).span(),
                (#[trigger] view.lexed[j]).span(),
            ),
{
    assert forall|i: int| from <= i < to implies view.lexed[from].span().start.raw <= (
    #[trigger] view.lexed[i]).span().start.raw && ends_before(
        view.lexed[i].span(),
        view.lexed[to].span(),
    ) by {
        lemma_filled(view, from, i);
        lemma_filled(view, i, to);
    }
    assert forall|i: int, j: int| from <= i < j < to implies ends_before(
        (#[trigger] view.lexed[i]).span(),
        (#[trigger] view.lexed[j]).span(),
    ) by {
        lemma_filled(view, i, j);
    }
}

/// What is kept stays kept where events and trivia are added.
proof fn lemma_kept_in_longer(before: ParserView, after: ParserView, byte: int)
    requires
        is_kept(before, byte),
        before.events.is_prefix_of(after.events),
        before.tokens.trivia.is_prefix_of(after.tokens.trivia),
    ensures
        is_kept(after, byte),
{
    if in_token(before.events, byte) {
        let i = choose|i: int|
            0 <= i < before.events.len() && (#[trigger] before.events[i]) is Token && covers(
                before.events[i]->range,
                byte,
            );
        assert(after.events[i] == before.events[i]);
    } else {
        let i = choose|i: int|
            0 <= i < before.tokens.trivia.len() && covers(
                (#[trigger] before.tokens.trivia[i]).range,
                byte,
            );
        assert(after.tokens.trivia[i] == before.tokens.trivia[i]);
    }
}

/// At the end of the file every byte of the source text is kept in the events and the trivia,
/// once, and the tokens start one behind the other if none of them is empty.
pub proof fn law_finished_is_complete(p: ParserView)
    requires
        p.inv(),
        p.tokens.at_end(),
        is_lossless(p),
    ensures
        forall|byte: int|
            0 <= byte < encode_utf8(p.tokens.source).len() ==> #[trigger] is_kept_once(p, byte),
        no_token_is_empty(p.events) ==> forall|i: int, j: int|
            0 <= i < j < p.events.len() && (#[trigger] p.events[i]) is Token && (
            #[trigger] p.events[j]) is Token ==> p.events[i]->range.start.raw
                < p.events[j]->range.start.raw,
{
    assert(is_lexeme_of(p.tokens.source, p.tokens.lexed[p.tokens.index]));
    assert forall|byte: int| 0 <= byte < encode_utf8(p.tokens.source).len() implies #[trigger] is_kept_once(
        p,
        byte,
    ) by {
        assert(is_kept(p, byte));
    }
}

/// The parser with the current token bumped, or passed as trivia.
pub open spec fn passed_one(p: ParserView, skip: bool) -> ParserView {
    if skip {
        ParserView { skipping: true, ..p }.bumped(p.cur(), LexContextView::Regular).unskipped(
            p.events.len() as int,
        )
    } else {
        p.bumped(p.cur(), LexContextView::Regular)
    }
}

/// The parser with as many tokens bumped, or passed as trivia, as `skips` has elements.
pub open spec fn passed_all(p: ParserView, skips: Seq<bool>) -> ParserView
    decreases skips.len(),
{
    if skips.len() == 0 {
        p
    } else {
        passed_one(passed_all(p, skips.drop_last()), skips.last())
    }
}

/// Bumping the tokens of a new parser one by one to the end of the file, some of them as skipped
/// trivia, keeps every byte of the source text once, in tokens that start one behind the other
/// and in trivia.
pub proof fn law_parsing_is_lossless(p: ParserView, lexed: Seq<Lexeme>, skips: Seq<bool>)
    requires
        is_run(p.tokens.source, 0, false, lexed),
        p.tokens == (TokenSourceView { lexed, index: 0, trivia: seq![], ..p.tokens }).read_from(0),
        p.events.len() == 0,
        p.last_token_event_pos is None,
        !p.skipping,
        skips.len() <= u32::MAX,
        forall|n: int|
            0 <= n < skips.len() ==> !(#[trigger] passed_all(p, skips.take(n))).tokens.at_end(),
        passed_all(p, skips).tokens.at_end(),
    ensures
        ({
            let after = passed_all(p, skips);
            &&& forall|byte: int|
                0 <= byte < encode_utf8(p.tokens.source).len() ==> #[trigger] is_kept_once(
                    after,
                    byte,
                )
            &&& forall|i: int, j: int|
                0 <= i < j < after.events.len() && (#[trigger] after.events[i]) is Token && (
                #[trigger] after.events[j]) is Token ==> after.events[i]->range.start.raw
                    < after.events[j]->range.start.raw
        }),
{
    law_new_is_lossless(p, lexed);
    lemma_next_token(lexed, 0);
    lemma_passed_all(p, skips);
    law_finished_is_complete(passed_all(p, skips));
}

/// Passing tokens keeps a parser valid and loses nothing.
proof fn lemma_passed_all(p: ParserView, skips: Seq<bool>)
    requires
        p.inv(),
        is_lossless(p),
        p.events.len() == 0,
        !p.skipping,
        skips.len() <= u32::MAX,
        forall|n: int|
            0 <= n < skips.len() ==> !(#[trigger] passed_all(p, skips.take(n))).tokens.at_end(),
    ensures
        passed_all(p, skips).inv(),
        is_lossless(passed_all(p, skips)),
        no_token_is_empty(passed_all(p, skips).events),
        passed_all(p, skips).events.len() <= skips.len(),
        passed_all(p, skips).tokens.source == p.tokens.source,
        !passed_all(p, skips).skipping,
    decreases skips.len(),
{
    if skips.len() > 0 {
        let fewer = skips.drop_last();
        assert forall|n: int| 0 <= n < fewer.len() implies !(#[trigger] passed_all(
            p,
            fewer.take(n),
        )).tokens.at_end() by {
            assert(fewer.take(n) =~= skips.take(n));
        }
        lemma_passed_all(p, fewer);
        assert(fewer =~= skips.take(skips.len() - 1));
        let before = passed_all(p, fewer);
        let regular = LexContextView::Regular;
        if skips.last() {
            let skipping = ParserView { skipping: true, ..before };
            law_kept_tokens_are_lossless(before, skipping);
            law_bump_is_lossless(skipping, before.cur(), regular);
            lemma_bumped_is_valid(skipping, before.cur(), regular);
            law_skipped_tokens_are_lossless(before, skipping.bumped(before.cur(), regular));
        } else {
            law_bump_is_lossless(before, before.cur(), regular);
            lemma_bumped_is_valid(before, before.cur(), regular);
        }
    }
}

/// Bumping keeps a parser valid.
proof fn lemma_bumped_is_valid(p: ParserView, kind: JsSyntaxKind, context: LexContextView)
    requires
        p.inv(),
        p.can_bump(context),
    ensures
        p.bumped(kind, context).inv(),
{
    lemma_bumped(p.tokens, context);
    if p.skipping && !p.tokens.at_end() {
        lemma_bumped(
            TokenSourceView { trivia: p.tokens.skipped(context).trivia, ..p.tokens },
            context,
        );
    }
}

// ---------------------------------------------------------------------------------------------
// Markers keep the tokens and the nodes that are there.
// ---------------------------------------------------------------------------------------------
/// Whether every token of `before` is still there.
pub open spec fn keeps_tokens(before: Seq<Event>, after: Seq<Event>) -> bool {
    forall|i: int|
        0 <= i < before.len() && (#[trigger] before[i]) is Token ==> i < after.len() && after[i]
            == before[i]
}

/// Whether the same tokens are there in both.
pub open spec fn same_tokens(before: Seq<Event>, after: Seq<Event>) -> bool {
    keeps_tokens(before, after) && keeps_tokens(after, before)
}

/// Whether every node that starts in `before` still starts there, at the same byte.
pub open spec fn keeps_nodes(before: Seq<Event>, after: Seq<Event>) -> bool {
    forall|i: int|
        0 <= i < before.len() && (#[trigger] before[i]) is Start ==> i < after.len() && after[i] is Start
            && after[i]->start == before[i]->start
}

/// Bumping keeps all tokens and nodes.
pub proof fn law_bump_keeps_events(p: ParserView, kind: JsSyntaxKind, context: LexContextView)
    ensures
        keeps_tokens(p.events, p.bumped(kind, context).events),
        keeps_nodes(p.events, p.bumped(kind, context).events),
{
}

/// Starting a node keeps all tokens and nodes, and adds no token.
pub proof fn law_start_keeps_events(p: ParserView)
    ensures
        same_tokens(
            p.events,
            p.with_event(Event::spec_tombstone(p.tokens.position())).events,
        ),
        keeps_nodes(p.events, p.with_event(Event::spec_tombstone(p.tokens.position())).events),
{
}

/// Completing a node keeps all tokens and nodes, and adds no token.
pub proof fn law_complete_keeps_events(
    p: ParserView,
    marker: MarkerView,
    kind: JsSyntaxKind,
    end: TextSize,
)
    requires
        marker.can_complete(p),
    ensures
        same_tokens(p.events, marker.completed(p, kind, end).events),
        keeps_nodes(p.events, marker.completed(p, kind, end).events),
{
}

/// Abandoning a node keeps all tokens, and all nodes but that one, and adds no token.
pub proof fn law_abandon_keeps_events(p: ParserView, marker: MarkerView)
    requires
        marker.can_abandon(p),
    ensures
        same_tokens(p.events, marker.abandoned(p).events),
        keeps_nodes(marker.without_start(p.events), marker.abandoned(p).events),
{
}

/// Preceding a node keeps all tokens and nodes, and adds no token.
pub proof fn law_precede_keeps_events(p: ParserView, completed: CompletedMarkerView)
    requires
        completed.starts_in(p),
    ensures
        same_tokens(p.events, completed.preceded(p).events),
        keeps_nodes(p.events, completed.preceded(p).events),
{
}

/// Undoing the completion of a node keeps all tokens and nodes, and adds no token.
pub proof fn law_undo_keeps_events(p: ParserView, completed: CompletedMarkerView)
    requires
        completed.can_undo(p),
    ensures
        same_tokens(p.events, completed.undone(p).events),
        keeps_nodes(p.events, completed.undone(p).events),
{
}

/// Changing the kind of a node keeps all tokens and nodes, and adds no token.
pub proof fn law_change_kind_keeps_events(
    p: ParserView,
    completed: CompletedMarkerView,
    kind: JsSyntaxKind,
)
    requires
        completed.starts_in(p),
    ensures
        same_tokens(p.events, completed.rekinded(p, kind).events),
        keeps_nodes(p.events, completed.rekinded(p, kind).events),
{
}

/// What is kept over each of two steps is kept over both.
pub proof fn law_keeping_is_transitive(first: Seq<Event>, second: Seq<Event>, third: Seq<Event>)
    ensures
        keeps_tokens(first, second) && keeps_tokens(second, third) ==> keeps_tokens(first, third),
        keeps_nodes(first, second) && keeps_nodes(second, third) ==> keeps_nodes(first, third),
{
    if keeps_tokens(first, second) && keeps_tokens(second, third) {
        assert forall|i: int| 0 <= i < first.len() && (#[trigger] first[i]) is Token implies i
            < third.len() && third[i] == first[i] by {
            assert(second[i] is Token);
        }
    }
    if keeps_nodes(first, second) && keeps_nodes(second, third) {
        assert forall|i: int| 0 <= i < first.len() && (#[trigger] first[i]) is Start implies i
            < third.len() && third[i] is Start && third[i]->start == first[i]->start by {
            assert(second[i] is Start);
        }
    }
}

/// A step that neither adds nor takes off tokens or trivia, and leaves the current token where it
/// starts, loses nothing of the source text.
pub proof fn law_kept_tokens_are_lossless(before: ParserView, after: ParserView)
    requires
        is_lossless(before),
        same_tokens(before.events, after.events),
        after.tokens.trivia == before.tokens.trivia,
        after.tokens.position() == before.tokens.position(),
    ensures
        is_lossless(after),
{
    assert forall|byte: int| 0 <= byte < after.tokens.position().raw implies #[trigger] is_kept(
        after,
        byte,
    ) by {
        assert(is_kept(before, byte));
        if in_token(before.events, byte) {
            let i = choose|i: int|
                0 <= i < before.events.len() && (#[trigger] before.events[i]) is Token && covers(
                    before.events[i]->range,
                    byte,
                );
            assert(after.events[i] == before.events[i]);
        }
    }
    assert forall|i: int| 0 <= i < after.events.len() && (#[trigger] after.events[i]) is Token implies i
        < before.events.len() && before.events[i] == after.events[i] by {}
    assert(tokens_rise(after.events)) by {
        assert forall|i: int, j: int|
            0 <= i < j < after.events.len() && (#[trigger] after.events[i]) is Token && (
            #[trigger] after.events[j]) is Token implies ends_before(
            after.events[i]->range,
            after.events[j]->range,
        ) by {
            assert(before.events[i] is Token && before.events[j] is Token);
        }
    }
}

/// Reading the current token anew loses nothing of the source text.
pub proof fn law_re_lex_is_lossless(p: ParserView, reading: ReLexContextView)
    requires
        is_lossless(p),
        p.tokens.can_re_lex(reading),
    ensures
        is_lossless(ParserView { tokens: p.tokens.re_lexed(reading), ..p }),
{
    let after = ParserView { tokens: p.tokens.re_lexed(reading), ..p };
    assert(after.tokens.lexed[after.tokens.index] == reading.lexemes[0]);
    law_kept_tokens_are_lossless(p, after);
}

/// A marker stays usable over steps that keep all nodes.
pub proof fn law_kept_nodes_keep_markers(
    before: ParserView,
    after: ParserView,
    marker: MarkerView,
    completed: CompletedMarkerView,
)
    requires
        keeps_nodes(before.events, after.events),
    ensures
        marker.can_complete(before) ==> marker.can_complete(after),
        completed.starts_in(before) ==> completed.starts_in(after),
{
}

// ---------------------------------------------------------------------------------------------
// What one call on a marker undoes of another.
// ---------------------------------------------------------------------------------------------
/// Abandoning a node that was just started leaves the parser as it was before.
pub proof fn law_abandon_undoes_start(p: ParserView)
    requires
        p.has_room(),
    ensures
        ({
            let start = p.tokens.position();
            let marker = MarkerView::fresh(p.events.len() as u32, start);
            let started = p.with_event(Event::spec_tombstone(start));
            marker.can_abandon(started) && marker.abandoned(started) == p
        }),
{
    let start = p.tokens.position();
    let marker = MarkerView::fresh(p.events.len() as u32, start);
    let started = p.with_event(Event::spec_tombstone(start));
    assert(marker.abandoned(started).events =~= p.events);
}

/// Abandoning the node that was just started before another leaves the parser as it was before,
/// if the other had no parent yet.
pub proof fn law_abandon_undoes_precede(p: ParserView, completed: CompletedMarkerView)
    requires
        p.has_room(),
        completed.starts_in(p),
        p.events[completed.start_pos as int]->forward_parent is None,
    ensures
        completed.parent_marker(p).can_abandon(completed.preceded(p)),
        completed.parent_marker(p).abandoned(completed.preceded(p)) == p,
{
    let parent = completed.parent_marker(p);
    let preceded = completed.preceded(p);
    assert(preceded.events.last() == Event::spec_tombstone(p.tokens.position()));
    assert(parent.without_start(preceded.events)[completed.start_pos as int]
        == preceded.events[completed.start_pos as int]);
    assert(parent.abandoned(preceded).events =~= p.events);
}

/// Undoing the completion of a node opens it again: the events are those before the completion
/// and a tombstone, and the marker is a fresh one.
pub proof fn law_undo_reopens(p: ParserView, marker: MarkerView, kind: JsSyntaxKind, end: TextSize)
    requires
        p.has_room(),
        marker.can_complete(p),
        p.events[marker.pos as int] == Event::spec_tombstone(
            p.events[marker.pos as int]->start,
        ),
    ensures
        ({
            let start = p.events[marker.pos as int]->start;
            let completed = marker.completed_marker(p, kind);
            let after = marker.completed(p, kind, end);
            &&& completed.can_undo(after)
            &&& completed.undone(after) == p.with_event(Event::spec_tombstone(start))
        }),
{
    let start = p.events[marker.pos as int]->start;
    let completed = marker.completed_marker(p, kind);
    let after = marker.completed(p, kind, end);
    assert(completed.undone(after).events =~= p.events.push(Event::spec_tombstone(start)));
}

/// Completing a node as one kind and then changing its kind is completing it as the other.
pub proof fn law_change_kind_after_complete(
    p: ParserView,
    marker: MarkerView,
    first: JsSyntaxKind,
    second: JsSyntaxKind,
    end: TextSize,
)
    requires
        marker.can_complete(p),
    ensures
        marker.completed_marker(p, first).starts_in(marker.completed(p, first, end)),
        marker.completed_marker(p, first).rekinded(marker.completed(p, first, end), second)
            == marker.completed(p, second, end),
{
    assert(marker.completed_marker(p, first).rekinded(
        marker.completed(p, first, end),
        second,
    ).events =~= marker.completed(p, second, end).events);
}

/// The distance that a preceded node holds leads from its start to the start of its parent.
pub proof fn law_forward_parent_leads_to_parent(p: ParserView, completed: CompletedMarkerView)
    requires
        p.has_room(),
        completed.starts_in(p),
    ensures
        ({
            let events = completed.preceded(p).events;
            let parent = completed.parent_marker(p);
            &&& events[completed.start_pos as int]->forward_parent matches Some(distance)
            &&& completed.start_pos + distance == parent.pos
            &&& distance > 0
            &&& events[parent.pos as int] == Event::spec_tombstone(p.tokens.position())
            &&& parent.child_idx == Some(completed.start_pos as usize)
        }),
{
}

// ---------------------------------------------------------------------------------------------
// The range of a completed node.
// ---------------------------------------------------------------------------------------------
/// The byte at which the token that was bumped last ends, or 0 where there is none.
pub open spec fn last_end(p: ParserView) -> int {
    match p.last_range() {
        Some(range) => range.end.raw as int,
        None => 0,
    }
}

/// Whether a marker refers to a node that is open and starts where the marker says, which is where
/// that node, or the first of those that it is to become the parent of, does.
pub open spec fn is_open_node(p: ParserView, marker: MarkerView) -> bool {
    &&& marker.can_complete(p)
    &&& marker.old_start <= marker.pos
    &&& p.events[marker.old_start as int] is Start
    &&& p.events[marker.old_start as int]->start == marker.start
}

/// Whether a completed marker refers to a node with a range, which starts where that node, or
/// the first of those that it is the parent of, does, and which is empty or ends no later than
/// the last token.
pub open spec fn is_closed_node(p: ParserView, completed: CompletedMarkerView) -> bool {
    &&& completed.starts_in(p)
    &&& completed.old_start <= completed.start_pos
    &&& completed.has_range(p)
    &&& completed.range(p).end == completed.range(p).start || completed.range(p).end.raw <= last_end(
        p,
    )
}

/// Whether every node that finishes in `before` still finishes there, at the same byte.
pub open spec fn keeps_ends(before: Seq<Event>, after: Seq<Event>) -> bool {
    forall|i: int|
        0 <= i < before.len() && (#[trigger] before[i]) is Finish ==> i < after.len() && after[i]
            == before[i]
}

/// Whether all nodes of `before` are still there in `after`, and the last token has not moved back.
pub open spec fn moves_on(before: ParserView, after: ParserView) -> bool {
    &&& keeps_nodes(before.events, after.events)
    &&& keeps_ends(before.events, after.events)
    &&& last_end(before) <= last_end(after)
}

/// Starting a node opens it at the current token.
pub proof fn law_start_opens_node(p: ParserView)
    requires
        p.has_room(),
    ensures
        is_open_node(
            p.with_event(Event::spec_tombstone(p.tokens.position())),
            MarkerView::fresh(p.events.len() as u32, p.tokens.position()),
        ),
{
}

/// Completing an open node closes it. Its range starts where the marker says, and ends where the
/// last token does, or where the node starts if that is later.
pub proof fn law_complete_closes_node(p: ParserView, marker: MarkerView, kind: JsSyntaxKind)
    requires
        p.inv(),
        p.has_room(),
        is_open_node(p, marker),
    ensures
        ({
            let completed = marker.completed_marker(p, kind);
            let after = marker.completed(p, kind, marker.end(p));
            &&& is_closed_node(after, completed)
            &&& completed.range(after) == TextRange { start: marker.start, end: marker.end(p) }
        }),
{
}

/// Preceding a closed node opens a node that starts where that one does, and leaves the range of
/// that one as it is.
pub proof fn law_precede_opens_node(p: ParserView, completed: CompletedMarkerView)
    requires
        p.inv(),
        p.has_room(),
        is_closed_node(p, completed),
    ensures
        completed.can_precede(p),
        is_open_node(completed.preceded(p), completed.parent_marker(p)),
        completed.parent_marker(p).start == completed.range(p).start,
        is_closed_node(completed.preceded(p), completed),
        completed.range(completed.preceded(p)) == completed.range(p),
{
}

/// Undoing the completion of a node opens it again, where the event that starts it stands.
pub proof fn law_undo_opens_node(p: ParserView, completed: CompletedMarkerView)
    requires
        completed.can_undo(p),
    ensures
        is_open_node(
            completed.undone(p),
            MarkerView::fresh(
                completed.start_pos,
                p.events[completed.start_pos as int]->start,
            ),
        ),
{
}

/// A node stays open over steps that keep all nodes. A node stays closed, and keeps its range,
/// over steps that keep its end too and do not move the last token back.
pub proof fn law_kept_nodes_stay_open_or_closed(
    before: ParserView,
    after: ParserView,
    marker: MarkerView,
    completed: CompletedMarkerView,
)
    requires
        keeps_nodes(before.events, after.events),
    ensures
        is_open_node(before, marker) ==> is_open_node(after, marker),
        is_closed_node(before, completed) && moves_on(before, after) ==> is_closed_node(
            after,
            completed,
        ) && completed.range(after) == completed.range(before),
{
    if is_open_node(before, marker) {
        assert(before.events[marker.pos as int] is Start);
        assert(before.events[marker.old_start as int] is Start);
    }
    if is_closed_node(before, completed) && moves_on(before, after) {
        assert(before.events[completed.start_pos as int] is Start);
        assert(before.events[completed.old_start as int] is Start);
        assert(before.events[completed.finish_pos as int] is Finish);
    }
}

/// Every call on a parser or on a marker moves on from where the parser was, but that abandoning
/// takes off the start of the abandoned node, and undoing a completion the end of that node.
pub proof fn law_calls_move_on(
    p: ParserView,
    marker: MarkerView,
    completed: CompletedMarkerView,
    kind: JsSyntaxKind,
    context: LexContextView,
)
    requires
        p.inv(),
        is_lossless(p),
    ensures
        moves_on(p, p.with_event(Event::spec_tombstone(p.tokens.position()))),
        p.can_bump(context) ==> moves_on(p, p.bumped(kind, context)),
        marker.can_complete(p) ==> moves_on(p, marker.completed(p, kind, marker.end(p))),
        marker.can_abandon(p) && marker.pos != p.events.len() - 1 ==> moves_on(
            p,
            marker.abandoned(p),
        ),
        completed.starts_in(p) ==> moves_on(p, completed.preceded(p)),
        completed.starts_in(p) ==> moves_on(p, completed.rekinded(p, kind)),
        completed.can_undo(p) ==> keeps_nodes(p.events, completed.undone(p).events) && last_end(
            completed.undone(p),
        ) == last_end(p),
{
    if let Some(pos) = p.last_token_event_pos {
        assert(p.events[pos as int] is Token);
    }
    if p.can_bump(context) {
        assert(is_lexeme_of(p.tokens.source, p.tokens.lexed[p.tokens.index]));
    }
}

/// Abandoning a node that was started since `before` keeps what moved on from `before`.
pub proof fn law_abandon_moves_on(before: ParserView, p: ParserView, marker: MarkerView)
    requires
        p.inv(),
        moves_on(before, p),
        before.events.len() <= marker.pos,
        marker.can_abandon(p),
    ensures
        moves_on(before, marker.abandoned(p)),
{
    if let Some(pos) = p.last_token_event_pos {
        assert(p.events[pos as int] is Token);
    }
}

/// What moves on over each of two steps moves on over both.
pub proof fn law_moving_on_is_transitive(first: ParserView, second: ParserView, third: ParserView)
    requires
        moves_on(first, second),
        moves_on(second, third),
    ensures
        moves_on(first, third),
{
    law_keeping_is_transitive(first.events, second.events, third.events);
    assert forall|i: int| 0 <= i < first.events.len() && (#[trigger] first.events[i]) is Finish implies i
        < third.events.len() && third.events[i] == first.events[i] by {
        assert(second.events[i] is Finish);
    }
}

/// Whether `outer`, a handle in `q`, is on a node that was started before the one of `inner` in
/// `p`, and completed in `mid` as `kind`.
pub open spec fn is_outer(
    p: ParserView,
    inner: CompletedMarkerView,
    mid: ParserView,
    kind: JsSyntaxKind,
    q: ParserView,
    outer: CompletedMarkerView,
) -> bool {
    let parent = inner.parent_marker(p);
    &&& p.inv() && p.has_room()
    &&& mid.inv() && mid.has_room()
    &&& keeps_nodes(inner.preceded(p).events, mid.events)
    &&& last_end(inner.preceded(p)) <= last_end(mid)
    &&& outer == parent.completed_marker(mid, kind)
    &&& moves_on(parent.completed(mid, kind, parent.end(mid)), q)
}

/// A node that was started before another one starts where that one does, and ends no earlier.
pub proof fn law_outer_node_spans_inner(
    p: ParserView,
    inner: CompletedMarkerView,
    mid: ParserView,
    kind: JsSyntaxKind,
    q: ParserView,
    outer: CompletedMarkerView,
)
    requires
        is_closed_node(p, inner),
        is_outer(p, inner, mid, kind, q, outer),
    ensures
        is_closed_node(q, outer),
        outer.range(q).start == inner.range(p).start,
        inner.range(p).end.raw <= outer.range(q).end.raw,
{
    let parent = inner.parent_marker(p);
    let done = parent.completed(mid, kind, parent.end(mid));
    law_precede_opens_node(p, inner);
    law_kept_nodes_stay_open_or_closed(inner.preceded(p), mid, parent, inner);
    law_complete_closes_node(mid, parent, kind);
    law_kept_nodes_stay_open_or_closed(done, q, parent, outer);
}

/// However often a node is preceded, the outermost node starts where the innermost one does, and
/// ends no earlier: `nodes` lists the handles from the inside out, each with the parser it is used
/// on, and `steps` the parser and the kind that each node but the first is completed with.
pub proof fn law_outermost_node_spans_innermost(
    nodes: Seq<(ParserView, CompletedMarkerView)>,
    steps: Seq<(ParserView, JsSyntaxKind)>,
)
    requires
        nodes.len() == steps.len() + 1,
        is_closed_node(nodes[0].0, nodes[0].1),
        forall|i: int|
            0 <= i < steps.len() ==> {
                let (mid, kind) = #[trigger] steps[i];
                is_outer(nodes[i].0, nodes[i].1, mid, kind, nodes[i + 1].0, nodes[i + 1].1)
            },
    ensures
        is_closed_node(nodes.last().0, nodes.last().1),
        nodes.last().1.range(nodes.last().0).start == nodes[0].1.range(nodes[0].0).start,
        nodes[0].1.range(nodes[0].0).end.raw <= nodes.last().1.range(nodes.last().0).end.raw,
    decreases steps.len(),
{
    if steps.len() > 0 {
        let last = steps.len() - 1;
        let inner = nodes.drop_last();
        let fewer = steps.drop_last();
        assert forall|i: int| 0 <= i < fewer.len() implies ({
            let (mid, kind) = #[trigger] fewer[i];
            is_outer(inner[i].0, inner[i].1, mid, kind, inner[i + 1].0, inner[i + 1].1)
        }) by {
            assert(fewer[i] == steps[i]);
        }
        law_outermost_node_spans_innermost(inner, fewer);
        let (mid, kind) = steps[last];
        law_outer_node_spans_inner(
            nodes[last].0,
            nodes[last].1,
            mid,
            kind,
            nodes[last + 1].0,
            nodes[last + 1].1,
        );
    }
}

/// Whether no node starts behind the start of the current token.
pub open spec fn none_ahead(p: ParserView) -> bool {
    forall|i: int|
        0 <= i < p.events.len() && (#[trigger] p.events[i]) is Start ==> p.events[i]->start.raw
            <= p.tokens.position().raw
}

/// No call on a parser or on a marker starts a node behind the start of the current token.
pub proof fn law_no_node_starts_ahead(
    p: ParserView,
    marker: MarkerView,
    completed: CompletedMarkerView,
    kind: JsSyntaxKind,
    context: LexContextView,
)
    requires
        p.inv(),
        none_ahead(p),
    ensures
        none_ahead(p.with_event(Event::spec_tombstone(p.tokens.position()))),
        p.can_bump(context) ==> none_ahead(p.bumped(kind, context)),
        marker.can_complete(p) ==> none_ahead(marker.completed(p, kind, marker.end(p))),
        marker.can_abandon(p) ==> none_ahead(marker.abandoned(p)),
        completed.starts_in(p) ==> none_ahead(completed.preceded(p)),
        completed.starts_in(p) ==> none_ahead(completed.rekinded(p, kind)),
        completed.can_undo(p) ==> none_ahead(completed.undone(p)),
{
    if p.can_bump(context) {
        law_bump_makes_progress(p, kind, context);
    }
}

// ---------------------------------------------------------------------------------------------
// Every offset in an event is a character boundary.
// ---------------------------------------------------------------------------------------------
/// Whether `offset` is a character boundary of `text`.
pub open spec fn is_boundary(text: Seq<char>, offset: TextSize) -> bool {
    &&& offset.raw <= encode_utf8(text).len()
    &&& is_char_boundary(encode_utf8(text), offset.raw as int)
}

/// Whether the offsets of `event` are character boundaries of `text`.
pub open spec fn is_aligned(text: Seq<char>, event: Event) -> bool {
    match event {
        Event::Start { start, .. } => is_boundary(text, start),
        Event::Finish { end } => is_boundary(text, end),
        Event::Token { range, .. } => valid_range(text, range),
    }
}

/// Whether the offsets of all events are character boundaries.
pub open spec fn all_aligned(p: ParserView) -> bool {
    forall|i: int|
        0 <= i < p.events.len() ==> is_aligned(p.tokens.source, #[trigger] p.events[i])
}

/// Every call on a parser or on a marker keeps the offsets of all events aligned.
pub proof fn law_events_stay_aligned(
    p: ParserView,
    marker: MarkerView,
    completed: CompletedMarkerView,
    kind: JsSyntaxKind,
    context: LexContextView,
)
    requires
        p.inv(),
        all_aligned(p),
    ensures
        is_boundary(p.tokens.source, p.tokens.position()),
        all_aligned(p.with_event(Event::spec_tombstone(p.tokens.position()))),
        all_aligned(p.bumped(kind, context)),
        marker.can_complete(p) && is_boundary(p.tokens.source, marker.start) ==> all_aligned(
            marker.completed(p, kind, marker.end(p)),
        ),
        marker.can_abandon(p) ==> all_aligned(marker.abandoned(p)),
        completed.starts_in(p) ==> all_aligned(completed.preceded(p)),
        is_closed_node(p, completed) ==> is_boundary(
            p.tokens.source,
            completed.parent_marker(p).start,
        ),
        completed.starts_in(p) ==> all_aligned(completed.rekinded(p, kind)),
        completed.can_undo(p) ==> all_aligned(completed.undone(p)),
{
    assert(valid_range(p.tokens.source, p.tokens.lexed[p.tokens.index].span()));
    if let Some(pos) = p.last_token_event_pos {
        assert(is_aligned(p.tokens.source, p.events[pos as int]));
    }
    if completed.starts_in(p) {
        assert(is_aligned(p.tokens.source, p.events[completed.start_pos as int]));
    }
    if is_closed_node(p, completed) {
        assert(is_aligned(p.tokens.source, p.events[completed.old_start as int]));
    }
}

/// The text of a node is defined where it has a range and all offsets are aligned.
pub proof fn law_aligned_node_has_text(p: ParserView, completed: CompletedMarkerView)
    requires
        all_aligned(p),
        completed.has_range(p),
    ensures
        valid_range(p.tokens.source, completed.range(p)),
{
    assert(is_aligned(p.tokens.source, p.events[completed.old_start as int]));
    assert(is_aligned(p.tokens.source, p.events[completed.finish_pos as int]));
}

// ---------------------------------------------------------------------------------------------
// Going back.
// ---------------------------------------------------------------------------------------------
/// Whether `after` only adds to what was there in `before`.
pub open spec fn continues(before: ParserView, after: ParserView) -> bool {
    &&& before.events.is_prefix_of(after.events)
    &&& before.diagnostics.is_prefix_of(after.diagnostics)
    &&& before.tokens.trivia.is_prefix_of(after.tokens.trivia)
    &&& before.tokens.lexed.is_prefix_of(after.tokens.lexed)
    &&& before.tokens.source == after.tokens.source
    &&& before.tokens.diagnostics.is_prefix_of(after.tokens.diagnostics)
    &&& before.file_id == after.file_id
    &&& before.source_type == after.source_type
}

/// Rewinding a parser that only added to what was there restores what was there at the
/// checkpoint, nothing of the source text is lost by it, and the parser then reads the same tokens
/// again. Whether the parser skips is not restored.
pub proof fn law_rewind_restores(before: ParserView, after: ParserView)
    requires
        before.inv(),
        after.inv(),
        continues(before, after),
    ensures
        after.can_rewind(before.recorded()),
        after.rewound(before.recorded()) == (ParserView {
            tokens: TokenSourceView { lexed: after.tokens.lexed, ..before.tokens },
            skipping: after.skipping,
            ..before
        }),
        after.rewound(before.recorded()).inv(),
        is_lossless(before) ==> is_lossless(after.rewound(before.recorded())),
        last_is_latest(before) ==> last_is_latest(after.rewound(before.recorded())),
        forall|n: nat| #[trigger]
            after.rewound(before.recorded()).tokens.nth_token(n) == before.tokens.nth_token(n),
{
    let back = after.rewound(before.recorded());
    assert(after.tokens.lexed[before.tokens.index] == before.tokens.lexed[before.tokens.index]);
    assert(back.events =~= before.events);
    assert(back.diagnostics =~= before.diagnostics);
    assert(back.tokens.trivia =~= before.tokens.trivia);
    assert(back.tokens.diagnostics =~= before.tokens.diagnostics);
    if is_lossless(before) {
        law_kept_tokens_are_lossless(before, back);
    }
    assert forall|n: nat| #[trigger] back.tokens.nth_token(n) == before.tokens.nth_token(n) by {
        lemma_nth_in_longer(before.tokens, back.tokens, before.tokens.index, n);
    }
}

/// The tokens ahead do not depend on readings that were added behind.
proof fn lemma_nth_in_longer(shorter: TokenSourceView, longer: TokenSourceView, index: int, n: nat)
    requires
        shorter.inv(),
        shorter.lexed.is_prefix_of(longer.lexed),
        0 <= index < shorter.lexed.len(),
    ensures
        longer.nth_from(index, n) == shorter.nth_from(index, n),
        shorter.nth_from(index, n) matches Some(found) ==> 0 <= found < shorter.lexed.len()
            && longer.lexed[found] == shorter.lexed[found],
    decreases n,
{
    assert(longer.lexed[index] == shorter.lexed[index]);
    if n > 0 && !shorter.lexed[index].ends_file() {
        assert(index != shorter.lexed.len() - 1);
        lemma_next_token(shorter.lexed, index + 1);
        lemma_next_token_prefix(shorter.lexed, longer.lexed, index + 1);
        lemma_nth_in_longer(
            shorter,
            longer,
            next_token(shorter.lexed, index + 1),
            (n - 1) as nat,
        );
    }
}

/// Bumping only adds.
pub proof fn law_bump_continues(p: ParserView, kind: JsSyntaxKind, context: LexContextView)
    requires
        p.inv(),
        p.can_bump(context),
    ensures
        continues(p, p.bumped(kind, context)),
{
    lemma_bumped(p.tokens, context);
}

/// Reporting an error only adds.
pub proof fn law_error_continues(p: ParserView, err: DiagnosticView)
    ensures
        continues(p, p.reported(err)),
{
}

/// Starting a node only adds.
pub proof fn law_start_continues(p: ParserView)
    ensures
        continues(p, p.with_event(Event::spec_tombstone(p.tokens.position()))),
{
}

/// Reading the current token anew only adds.
pub proof fn law_re_lex_continues(p: ParserView, reading: ReLexContextView)
    ensures
        continues(p, ParserView { tokens: p.tokens.re_lexed(reading), ..p }),
{
}

/// Completing a node that was started since `before` only adds to what was there in `before`.
pub proof fn law_complete_continues(
    before: ParserView,
    p: ParserView,
    marker: MarkerView,
    kind: JsSyntaxKind,
    end: TextSize,
)
    requires
        continues(before, p),
        marker.can_complete(p),
        before.events.len() <= marker.pos,
    ensures
        continues(before, marker.completed(p, kind, end)),
{
}

/// No call on the marker of a node that was started since `before` changes what was there in
/// `before`: abandoning the node, preceding it, changing its kind, or undoing its completion.
pub proof fn law_marker_calls_continue(
    before: ParserView,
    p: ParserView,
    marker: MarkerView,
    completed: CompletedMarkerView,
    kind: JsSyntaxKind,
)
    requires
        continues(before, p),
        before.events.len() <= marker.pos,
        marker.child_idx matches Some(child) ==> before.events.len() <= child,
        before.events.len() <= completed.start_pos,
        before.events.len() <= completed.finish_pos,
    ensures
        marker.can_abandon(p) ==> continues(before, marker.abandoned(p)),
        completed.starts_in(p) ==> continues(before, completed.preceded(p)),
        completed.starts_in(p) ==> continues(before, completed.rekinded(p, kind)),
        completed.can_undo(p) ==> continues(before, completed.undone(p)),
{
}

/// What only adds over each of two steps only adds over both.
pub proof fn law_continuing_is_transitive(first: ParserView, second: ParserView, third: ParserView)
    requires
        continues(first, second),
        continues(second, third),
    ensures
        continues(first, third),
{
}

// ---------------------------------------------------------------------------------------------
// Looking and moving ahead.
// ---------------------------------------------------------------------------------------------
/// The token that is no step ahead is the current one.
pub proof fn law_nth_zero_is_current(tokens: TokenSourceView)
    ensures
        tokens.nth_token(0) == Some(tokens.token()),
        tokens.nth_kind(0) == tokens.token().kind,
{
}

/// What is one step further ahead is what is ahead after a bump.
pub proof fn law_nth_is_seen_after_bump(tokens: TokenSourceView, n: nat)
    requires
        !tokens.at_end(),
        tokens.inv(),
    ensures
        tokens.nth_token(n + 1) == tokens.bumped(LexContextView::Regular).nth_token(n),
{
    let bumped = tokens.bumped(LexContextView::Regular);
    lemma_nth_ignores_position(tokens, bumped, bumped.index, n);
}

/// The tokens ahead of an index depend on the lexemes alone.
proof fn lemma_nth_ignores_position(left: TokenSourceView, right: TokenSourceView, index: int, n: nat)
    requires
        left.lexed == right.lexed,
    ensures
        left.nth_from(index, n) == right.nth_from(index, n),
    decreases n,
{
    if n > 0 && !left.lexed[index].ends_file() {
        lemma_nth_ignores_position(
            left,
            right,
            next_token(left.lexed, index + 1),
            (n - 1) as nat,
        );
    }
}

/// Bumping never moves back, and moves on unless the file has ended.
pub proof fn law_bump_makes_progress(p: ParserView, kind: JsSyntaxKind, context: LexContextView)
    requires
        p.inv(),
        p.can_bump(context),
    ensures
        p.tokens.position().raw <= p.bumped(kind, context).tokens.position().raw,
        !p.tokens.at_end() ==> p.tokens.position().raw < p.bumped(
            kind,
            context,
        ).tokens.position().raw,
{
    assert(is_lexeme_of(p.tokens.source, p.tokens.lexed[p.tokens.index]));
    lemma_bumped(p.tokens, context);
    if p.skipping && !p.tokens.at_end() {
        lemma_bumped(
            TokenSourceView {
                trivia: p.tokens.skipped(context).trivia,
                ..p.tokens
            },
            context,
        );
    }
}

/// The token that was bumped last is the one that was current before, as the kind that it was
/// bumped as, unless that is a keyword spelled with an escape sequence.
pub proof fn law_last_is_what_was_bumped(p: ParserView, kind: JsSyntaxKind, context: LexContextView)
    requires
        p.has_room(),
        !p.skipping,
    ensures
        p.bumped(kind, context).last_kind() == Some(
            if p.bumps_escaped_keyword(kind) {
                JsSyntaxKind::ERROR_TOKEN
            } else {
                kind
            },
        ),
        p.bumped(kind, context).last_range() == Some(p.cur_range()),
{
}

/// Whether the token that was bumped last is the last one among the events.
pub open spec fn last_is_latest(p: ParserView) -> bool {
    forall|i: int|
        0 <= i < p.events.len() && (#[trigger] p.events[i]) is Token
            ==> p.last_token_event_pos is Some && i <= p.last_token_event_pos->0
}

/// The token that was bumped last is the last one among the events: it is after a bump, and it
/// stays so over steps that neither add nor take off a token.
pub proof fn law_last_is_latest(
    p: ParserView,
    kind: JsSyntaxKind,
    context: LexContextView,
    after: ParserView,
)
    requires
        p.inv(),
        last_is_latest(p),
    ensures
        p.can_bump(context) ==> last_is_latest(p.bumped(kind, context)),
        same_tokens(p.events, after.events) && after.last_token_event_pos == p.last_token_event_pos
            ==> {
            &&& last_is_latest(after)
            &&& after.last_kind() == p.last_kind()
            &&& after.last_range() == p.last_range()
        },
{
    let bumped = p.bumped(kind, context);
    if p.can_bump(context) {
        assert forall|i: int|
            0 <= i < bumped.events.len() && (
            #[trigger] bumped.events[i]) is Token implies bumped.last_token_event_pos is Some && i
            <= bumped.last_token_event_pos->0 by {
            if i < p.events.len() {
                assert(bumped.events[i] == p.events[i]);
            }
        }
    }
}

/// While a parser skips, bumping yields no event.
pub proof fn law_skipping_yields_no_event(p: ParserView, kind: JsSyntaxKind, context: LexContextView)
    requires
        p.skipping,
    ensures
        p.bumped(kind, context).events == p.events,
        p.bumped(kind, context).last_token_event_pos == p.last_token_event_pos,
        p.bumped(kind, context).skipping,
{
}

/// After tokens were passed as trivia the parser is valid, has the events it had before, and has
/// lost nothing of the source text, if meanwhile only events were added and none of them was a
/// token.
pub proof fn law_skipped_tokens_are_lossless(before: ParserView, after: ParserView)
    requires
        before.inv(),
        after.inv(),
        is_lossless(after),
        before.events.is_prefix_of(after.events),
        before.last_token_event_pos == after.last_token_event_pos,
        forall|i: int|
            before.events.len() <= i < after.events.len() ==> !((#[trigger] after.events[i]) is Token),
    ensures
        after.unskipped(before.events.len() as int).events == before.events,
        after.unskipped(before.events.len() as int).inv(),
        is_lossless(after.unskipped(before.events.len() as int)),
        last_is_latest(before) ==> last_is_latest(after.unskipped(before.events.len() as int)),
{
    let unskipped = after.unskipped(before.events.len() as int);
    assert(unskipped.events =~= before.events);
    law_kept_tokens_are_lossless(after, unskipped);
}

// ---------------------------------------------------------------------------------------------
// Line breaks before tokens.
// ---------------------------------------------------------------------------------------------
/// After a bump a line break stands before the current token exactly where the text between the
/// bumped token and the current one holds a line break. Looking one token ahead shows that
/// before the bump.
pub proof fn law_line_break_is_in_the_text(p: ParserView, kind: JsSyntaxKind, context: LexContextView)
    requires
        p.inv(),
        p.tokens.can_read(context),
        !p.tokens.at_end(),
    ensures
        ({
            let after = p.bumped(kind, context);
            let between = text_in(p.tokens.source, gap(p.cur_range(), after.cur_range()));
            &&& after.tokens.token().preceding_line_break == has_line_break(between)
            &&& after.tokens.nth_line_break(0) == has_line_break(between)
            &&& context is Regular ==> p.tokens.nth_line_break(1) == has_line_break(between)
        }),
{
    let tokens = p.tokens;
    let after = p.bumped(kind, context);
    match context {
        LexContextView::Regular => {
            assert(tokens.index != tokens.lexed.len() - 1);
            lemma_next_token(tokens.lexed, tokens.index + 1);
            assert(is_flagged(tokens.source, tokens.lexed, tokens.index));
            law_nth_is_seen_after_bump(tokens, 0);
            law_nth_zero_is_current(after.tokens);
        },
        LexContextView::Relexed(reading) => {
            let run = reading.lexemes;
            lemma_next_token(run, 0);
            lemma_next_token_behind(tokens.lexed, run, 0);
            assert(after.tokens.lexed[after.tokens.index] == run[next_token(run, 0)]);
            assert(gap(p.cur_range(), after.cur_range()) == TextRange {
                start: run[0].span().start,
                end: run[next_token(run, 0)].span().start,
            });
        },
    }
}

/// A line break stands before a token further ahead exactly where the text between that token and
/// the one before it holds a line break.
pub proof fn law_line_break_ahead_is_in_the_text(tokens: TokenSourceView, n: nat)
    requires
        tokens.inv(),
        tokens.nth_token(n + 1) is Some,
    ensures
        tokens.nth_token(n) is Some,
        tokens.nth_line_break(n + 1) == has_line_break(
            text_in(
                tokens.source,
                gap(tokens.nth_token(n)->0.range, tokens.nth_token(n + 1)->0.range),
            ),
        ),
{
    lemma_nth_step(tokens, tokens.index, n);
    assert(is_flagged(tokens.source, tokens.lexed, tokens.nth_from(tokens.index, n)->0));
}

/// The token after the `n`th one is the next one behind it.
proof fn lemma_nth_step(tokens: TokenSourceView, index: int, n: nat)
    requires
        tokens.inv(),
        0 <= index < tokens.lexed.len(),
        tokens.lexed[index] is Token,
        tokens.nth_from(index, n + 1) is Some,
    ensures
        tokens.nth_from(index, n) matches Some(found) && 0 <= found < tokens.lexed.len()
            && tokens.lexed[found] is Token && !tokens.lexed[found].ends_file()
            && tokens.nth_from(index, n + 1) == Some(next_token(tokens.lexed, found + 1))
            && tokens.lexed[next_token(tokens.lexed, found + 1)] is Token,
    decreases n,
{
    reveal_with_fuel(TokenSourceView::nth_from, 2);
    assert(index != tokens.lexed.len() - 1);
    lemma_next_token(tokens.lexed, index + 1);
    if n > 0 {
        lemma_nth_step(tokens, next_token(tokens.lexed, index + 1), (n - 1) as nat);
    }
}

/// A line break stands before the first token of a text exactly where the text before it holds
/// one.
pub proof fn law_line_break_before_first_token(p: ParserView, lexed: Seq<Lexeme>)
    requires
        is_run(p.tokens.source, 0, false, lexed),
        p.tokens == (TokenSourceView { lexed, index: 0, trivia: seq![], ..p.tokens }).read_from(0),
    ensures
        p.tokens.token().preceding_line_break == has_line_break(
            text_in(
                p.tokens.source,
                TextRange { start: TextSize { raw: 0 }, end: p.tokens.position() },
            ),
        ),
{
    lemma_next_token(lexed, 0);
    assert(lexed[0].span().start == TextSize { raw: 0 });
}

/// Reading the current token anew does not change whether a line break stands before it.
pub proof fn law_re_lex_keeps_line_break(p: ParserView, reading: ReLexContextView)
    requires
        p.inv(),
        p.tokens.can_re_lex(reading),
    ensures
        p.tokens.re_lexed(reading).token().preceding_line_break
            == p.tokens.token().preceding_line_break,
{
    let first = reading.lexemes[0];
    let after = p.tokens.re_lexed(reading);
    assert(after.lexed[after.index] == first);
    let start = first.span().start;
    let before = text_in(p.tokens.source, TextRange { start, end: start });
    assert(is_lexeme_of(p.tokens.source, first));
    lemma_text_in_split(
        p.tokens.source,
        TextRange { start, end: start },
        TextRange { start, end: start },
    );
    assert(before.len() == before.len() + before.len());
}

/// The text between two tokens holds a line break exactly where one of the pieces of trivia
/// between them does, and a newline does.
pub proof fn law_line_break_is_in_the_trivia(tokens: TokenSourceView)
    requires
        tokens.inv(),
        !tokens.at_end(),
    ensures
        ({
            let next = next_token(tokens.lexed, tokens.index + 1);
            &&& tokens.bumped(LexContextView::Regular).token().preceding_line_break
                <==> some_breaks(tokens, tokens.index + 1, next)
            &&& forall|i: int|
                tokens.index < i < next && (
                #[trigger] tokens.lexed[i])->Trivia_0.kind is Newline
                    ==> tokens.bumped(LexContextView::Regular).token().preceding_line_break
        }),
{
    let next = next_token(tokens.lexed, tokens.index + 1);
    assert(is_flagged(tokens.source, tokens.lexed, tokens.index));
    assert(tokens.index != tokens.lexed.len() - 1);
    assert(is_joined(tokens.lexed, tokens.index));
    lemma_next_token(tokens.lexed, tokens.index + 1);
    lemma_line_break_in_pieces(tokens, tokens.index + 1, next);
    assert forall|i: int|
        tokens.index < i < next && (
        #[trigger] tokens.lexed[i])->Trivia_0.kind is Newline implies tokens.bumped(
        LexContextView::Regular,
    ).token().preceding_line_break by {
        assert(tokens.lexed[i] is Trivia);
        assert(is_lexeme_of(tokens.source, tokens.lexed[i]));
    }
}

/// Whether a lexeme from `from` up to, but not including, `to` holds a line break.
pub open spec fn some_breaks(tokens: TokenSourceView, from: int, to: int) -> bool {
    exists|i: int|
        from <= i < to && has_line_break(
            text_in(tokens.source, (#[trigger] tokens.lexed[i]).span()),
        )
}

/// The text that lexemes fill holds a line break exactly where one of them does.
proof fn lemma_line_break_in_pieces(tokens: TokenSourceView, from: int, to: int)
    requires
        tokens.inv(),
        0 <= from <= to < tokens.lexed.len(),
        forall|i: int| from <= i < to ==> !(#[trigger] tokens.lexed[i]).ends_file(),
    ensures
        has_line_break(
            text_in(
                tokens.source,
                TextRange {
                    start: tokens.lexed[from].span().start,
                    end: tokens.lexed[to].span().start,
                },
            ),
        ) == some_breaks(tokens, from, to),
    decreases to - from,
{
    let source = tokens.source;
    let start = tokens.lexed[from].span().start;
    assert(is_lexeme_of(source, tokens.lexed[from]));
    assert(is_lexeme_of(source, tokens.lexed[to]));
    if from == to {
        let none = TextRange { start, end: start };
        lemma_text_in_split(source, none, none);
        assert(text_in(source, none).len() == text_in(source, none).len() + text_in(
            source,
            none,
        ).len());
    } else {
        lemma_line_break_in_pieces(tokens, from + 1, to);
        assert(is_joined(tokens.lexed, from));
        assert(is_lexeme_of(source, tokens.lexed[from + 1]));
        lemma_filled(tokens, from + 1, to);
        let first = tokens.lexed[from].span();
        let rest = TextRange { start: first.end, end: tokens.lexed[to].span().start };
        lemma_text_in_split(source, first, rest);
        lemma_line_break_in_parts(text_in(source, first), text_in(source, rest));
        if some_breaks(tokens, from, to) {
            let i = choose|i: int|
                from <= i < to && has_line_break(
                    text_in(source, (#[trigger] tokens.lexed[i]).span()),
                );
            assert(i == from || some_breaks(tokens, from + 1, to));
        }
        if some_breaks(tokens, from + 1, to) {
            let i = choose|i: int|
                from + 1 <= i < to && has_line_break(
                    text_in(source, (#[trigger] tokens.lexed[i]).span()),
                );
            assert(from <= i < to && has_line_break(text_in(source, tokens.lexed[i].span())));
        }
    }
}

// ---------------------------------------------------------------------------------------------
// Reports.
// ---------------------------------------------------------------------------------------------
/// Whether no report repeats the one before it.
pub open spec fn no_repetition(diagnostics: Seq<DiagnosticView>) -> bool {
    forall|i: int|
        0 < i < diagnostics.len() ==> !(#[trigger] diagnostics[i]).repeats(diagnostics[i - 1])
}

/// The parser never reports an error that repeats the one before it.
pub proof fn law_reports_do_not_repeat(p: ParserView, err: DiagnosticView)
    requires
        no_repetition(p.diagnostics),
    ensures
        no_repetition(p.reported(err).diagnostics),
{
    let after = p.reported(err).diagnostics;
    assert forall|i: int| 0 < i < after.len() implies !(#[trigger] after[i]).repeats(
        after[i - 1],
    ) by {
        if i < p.diagnostics.len() {
            assert(!p.diagnostics[i].repeats(p.diagnostics[i - 1]));
        }
    }
}

/// A syntax error with a label is reported once, however often in a row it is added.
pub proof fn law_error_is_reported_once(p: ParserView, err: DiagnosticView)
    requires
        err.code == Some("SyntaxError"@),
        err.primary is Some,
    ensures
        p.reported(err).reported(err) == p.reported(err),
{
}

} // verus!
